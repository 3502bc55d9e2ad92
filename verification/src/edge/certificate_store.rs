//! Certificate validation and the on-disk generation store for managed certificates.
//!
//! Managed certificates are written to `<root>/<name>/gen-<N>/` and activated by
//! atomically replacing the `<root>/<name>/current` pointer, so a certificate and
//! its key are never observed half-updated and a failed update keeps the
//! previously active generation.

use vstd::prelude::*;
use vstd::string::*;
use crate::digest;
use crate::digest::sha256_hex;
use crate::hostname;
use crate::hostname::matches_pattern;
use crate::pki;
use crate::pki::{
    check_key_pair, read_certificate, read_chain, read_private_key, AltName, AltNameView,
    CertificateInfo, InfoView, KeyView, PrivateKey,
};
use crate::text;
use crate::text::{
    chars_of, decimal_text, drop_end, has_prefix, lower, parse_unsigned, quote, quote_list, same_text, signed_text,
    substring, trim,
};
use crate::time::unix_time;

verus! {

/// Tolerated clock skew when checking `notBefore`.
pub const NOT_BEFORE_LEEWAY_SECS: i64 = 300;

/// Number of generations kept on disk (including the active one).
pub const KEPT_GENERATIONS: usize = 3;

#[derive(Debug, Clone, Copy, PartialEq, Eq, Structural)]
pub enum CertSource {
    Byoc,
    Acme,
}

impl CertSource {
    pub fn as_str(self) -> (r: &'static str)
        ensures
            r@ == match self {
                CertSource::Byoc => "byoc"@,
                CertSource::Acme => "acme"@,
            },
    {
        match self {
            CertSource::Byoc => "byoc",
            CertSource::Acme => "acme",
        }
    }
}

/// A parsed and validated certificate chain with its signing key.
pub struct CertEntry {
    /// Hostname or wildcard pattern this entry serves
    pub name: String,
    pub source: CertSource,
    pub chain: Vec<Vec<u8>>,
    pub key: PrivateKey,
    pub not_before: i64,
    pub not_after: i64,
    pub dns_names: Vec<String>,
    /// Hex SHA-256 of the leaf certificate
    pub fingerprint: String,
    pub generation: Option<u64>,
}

impl CertEntry {
    pub fn is_expired(&self, now: i64) -> (r: bool)
        ensures
            r == (now >= self.not_after),
    {
        now >= self.not_after
    }

    pub fn remaining_secs(&self, now: i64) -> (r: i64)
        requires
            i64::MIN <= self.not_after - now <= i64::MAX,
        ensures
            r == self.not_after - now,
    {
        self.not_after - now
    }

    /// Total validity period in seconds.
    pub fn lifetime_secs(&self) -> (r: i64)
        requires
            i64::MIN <= self.not_after - self.not_before <= i64::MAX,
        ensures
            r == (if self.not_after > self.not_before {
                self.not_after - self.not_before
            } else {
                0
            }),
    {
        let d: i64 = self.not_after - self.not_before;
        if d > 0 {
            d
        } else {
            0
        }
    }
}

/// The Unix time; 0 before its epoch.
pub fn now_unix() -> (r: i64)
    ensures
        r >= 0,
{
    let secs: u64 = unix_time();
    if secs > 9_223_372_036_854_775_807 {
        0
    } else {
        secs as i64
    }
}

/// The DNS names among the names of a certificate: in lower case, without dots at
/// the end.
pub open spec fn dns_names_of(names: Seq<AltNameView>) -> Seq<Seq<char>>
    decreases names.len(),
{
    if names.len() == 0 {
        Seq::empty()
    } else {
        let before = dns_names_of(names.drop_last());
        match names.last() {
            AltNameView::Dns(n) => before.push(text::ascii_lower(text::without_end(n, '.'))),
            _ => before,
        }
    }
}

fn dns_names(names: &Vec<AltName>) -> (r: Vec<String>)
    ensures
        text::views(r@) == dns_names_of(pki::alt_views(names@)),
{
    let ghost all = pki::alt_views(names@);
    let mut out: Vec<String> = Vec::new();
    let mut i: usize = 0;
    assert(text::views(out@) =~= dns_names_of(all.take(0)));
    while i < names.len()
        invariant
            i <= names.len() == all.len(),
            all == pki::alt_views(names@),
            text::views(out@) == dns_names_of(all.take(i as int)),
        decreases names.len() - i,
    {
        let ghost before = text::views(out@);
        assert(all.take(i + 1).drop_last() =~= all.take(i as int));
        assert(all.take(i + 1).last() == names@[i as int]@);
        if let AltName::Dns(n) = &names[i] {
            let clean: String = lower(drop_end(n.as_str(), '.').as_str());
            out.push(clean);
            assert(text::views(out@) =~= before.push(clean@));
        }
        i += 1;
    }
    assert(all.take(i as int) =~= all);
    out
}

/// Whether a certificate with these DNS names can serve a name: it has the name
/// itself, or a pattern that covers it where it is no pattern.
pub open spec fn covers_name(names: Seq<Seq<char>>, name: Seq<char>) -> bool {
    exists|i: int|
        0 <= i < names.len() && ((#[trigger] names[i]) == name || (!text::starts_with(
            name,
            "*."@,
        ) && hostname::covers(names[i], name)))
}

fn is_covered(names: &Vec<String>, name: &str) -> (r: bool)
    ensures
        r == covers_name(text::views(names@), name@),
{
    let ghost all = text::views(names@);
    let pattern: bool = has_prefix(name, "*.");
    let mut i: usize = 0;
    while i < names.len()
        invariant
            i <= names.len(),
            all == text::views(names@),
            pattern == text::starts_with(name@, "*."@),
            forall|j: int|
                0 <= j < i ==> !((#[trigger] all[j]) == name@ || (!text::starts_with(name@, "*."@)
                    && hostname::covers(all[j], name@))),
        decreases names.len() - i,
    {
        assert(all[i as int] == names@[i as int]@);
        if same_text(names[i].as_str(), name) || (!pattern && matches_pattern(
            names[i].as_str(),
            name,
        )) {
            return true;
        }
        i += 1;
    }
    false
}

/// What is said of a certificate that does not cover a name.
pub open spec fn not_covered(names: Seq<Seq<char>>, name: Seq<char>) -> Seq<char> {
    "certificate SANs "@ + text::quoted_list(names) + " do not cover "@ + name
}

/// Why a certificate cannot be used for a name, from what is read of it.
pub open spec fn certificate_fault(
    info: Result<InfoView, Seq<char>>,
    name: Seq<char>,
    now: int,
) -> Option<Seq<char>> {
    match info {
        Err(e) => Some("invalid certificate: "@ + e),
        Ok(i) => match i.names {
            Err(e) => Some("invalid subjectAltName: "@ + e),
            Ok(names) => if !covers_name(dns_names_of(names), name) {
                Some(not_covered(dns_names_of(names), name))
            } else if now >= i.not_after {
                Some(
                    "certificate for "@ + name + " expired at "@ + text::signed_decimal(
                        i.not_after as int,
                    ),
                )
            } else if i.not_before > now + NOT_BEFORE_LEEWAY_SECS {
                Some(
                    "certificate for "@ + name + " is not valid before "@ + text::signed_decimal(
                        i.not_before as int,
                    ),
                )
            } else {
                None
            },
        },
    }
}

/// Checks that what is read of a certificate makes it usable for `name` at `now`;
/// returns its DNS names.
pub fn check_certificate(info: &Result<CertificateInfo, String>, name: &str, now: i64) -> (r: Result<
    Vec<String>,
    String,
>)
    requires
        now <= i64::MAX - NOT_BEFORE_LEEWAY_SECS,
    ensures
        match r {
            Ok(names) => certificate_fault(pki::info_result(*info), name@, now as int) is None
                && text::views(names@) == dns_names_of(pki::info_result(*info)->Ok_0.names->Ok_0),
            Err(e) => certificate_fault(pki::info_result(*info), name@, now as int) == Some(e@),
        },
{
    let info: &CertificateInfo = match info {
        Ok(i) => i,
        Err(e) => {
            return Err("invalid certificate: ".to_owned().concat(e.as_str()));
        },
    };
    let names: Vec<String> = match &info.names {
        Ok(names) => dns_names(names),
        Err(e) => {
            return Err("invalid subjectAltName: ".to_owned().concat(e.as_str()));
        },
    };
    if !is_covered(&names, name) {
        let mut m: String = "certificate SANs ".to_owned();
        m.append(quote_list(&names).as_str());
        m.append(" do not cover ");
        m.append(name);
        return Err(m);
    }
    if now >= info.not_after {
        let mut m: String = "certificate for ".to_owned();
        m.append(name);
        m.append(" expired at ");
        m.append(signed_text(info.not_after).as_str());
        return Err(m);
    }
    if info.not_before > now + NOT_BEFORE_LEEWAY_SECS {
        let mut m: String = "certificate for ".to_owned();
        m.append(name);
        m.append(" is not valid before ");
        m.append(signed_text(info.not_before).as_str());
        return Err(m);
    }
    Ok(names)
}

/// Why a PEM chain and key cannot be used for a name.
pub open spec fn entry_fault(
    cert_pem: Seq<u8>,
    key_pem: Seq<u8>,
    name: Seq<char>,
    now: int,
) -> Option<Seq<char>> {
    let chain = pki::pem_chain(cert_pem);
    let key = pki::pem_private_key(key_pem);
    if chain is Err {
        Some("failed to parse certificate PEM: "@ + chain->Err_0)
    } else if chain->Ok_0.len() == 0 {
        Some("no certificate found"@)
    } else if key is Err {
        Some("failed to parse private key PEM: "@ + key->Err_0)
    } else if key->Ok_0 is None {
        Some("no private key found"@)
    } else if pki::key_pair_fault(chain->Ok_0, key->Ok_0->0) is Some {
        Some(
            "unusable certificate/key pair: "@ + pki::key_pair_fault(
                chain->Ok_0,
                key->Ok_0->0,
            )->0,
        )
    } else {
        certificate_fault(pki::certificate_info(chain->Ok_0[0]), name, now)
    }
}

/// Whether an entry holds, for a name, what stands in a PEM chain and key.
pub open spec fn made_from(
    entry: CertEntry,
    cert_pem: Seq<u8>,
    key_pem: Seq<u8>,
    name: Seq<char>,
) -> bool {
    let chain = pki::pem_chain(cert_pem)->Ok_0;
    let info = pki::certificate_info(chain[0])->Ok_0;
    &&& entry.name@ == name
    &&& pki::chain_views(entry.chain@) == chain
    &&& pki::pem_private_key(key_pem) == Ok::<Option<KeyView>, Seq<char>>(Some(entry.key@))
    &&& entry.not_before == info.not_before
    &&& entry.not_after == info.not_after
    &&& text::views(entry.dns_names@) == dns_names_of(info.names->Ok_0)
    &&& entry.fingerprint@ == digest::hex(digest::sha256(chain[0]))
}

/// Parse a PEM chain and key and check that they form a usable certificate for `name`:
/// the key matches the leaf, the SANs cover the name and the certificate is valid at `now`.
pub fn parse_and_validate(
    cert_pem: &[u8],
    key_pem: &[u8],
    name: &str,
    source: CertSource,
    now: i64,
) -> (r: Result<CertEntry, String>)
    requires
        now <= i64::MAX - NOT_BEFORE_LEEWAY_SECS,
    ensures
        match r {
            Ok(entry) => {
                &&& entry_fault(cert_pem@, key_pem@, name@, now as int) is None
                &&& made_from(entry, cert_pem@, key_pem@, name@)
                &&& entry.source == source
                &&& entry.generation is None
            },
            Err(e) => entry_fault(cert_pem@, key_pem@, name@, now as int) == Some(e@),
        },
{
    let chain: Vec<Vec<u8>> = match read_chain(cert_pem) {
        Ok(chain) => chain,
        Err(e) => {
            return Err("failed to parse certificate PEM: ".to_owned().concat(e.as_str()));
        },
    };
    if chain.len() == 0 {
        return Err("no certificate found".to_owned());
    }
    let ghost views = pki::chain_views(chain@);
    assert(views[0] == chain@[0]@);
    let key: PrivateKey = match read_private_key(key_pem) {
        Ok(Some(key)) => key,
        Ok(None) => {
            return Err("no private key found".to_owned());
        },
        Err(e) => {
            return Err("failed to parse private key PEM: ".to_owned().concat(e.as_str()));
        },
    };
    if let Some(e) = check_key_pair(&chain, &key) {
        return Err("unusable certificate/key pair: ".to_owned().concat(e.as_str()));
    }
    let info: Result<CertificateInfo, String> = read_certificate(chain[0].as_slice());
    let dns_names: Vec<String> = match check_certificate(&info, name, now) {
        Ok(names) => names,
        Err(e) => {
            return Err(e);
        },
    };
    let fingerprint: String = sha256_hex(chain[0].as_slice());
    match info {
        Ok(i) => Ok(
            CertEntry {
                name: name.to_owned(),
                source,
                chain,
                key,
                not_before: i.not_before,
                not_after: i.not_after,
                dns_names,
                fingerprint,
                generation: None,
            },
        ),
        Err(e) => Err("invalid certificate: ".to_owned().concat(e.as_str())),
    }
}

/// The directory of a name, below the root of the store.
pub open spec fn directory_of(name: Seq<char>) -> Seq<char> {
    if text::starts_with(name, "*."@) {
        "_wildcard."@ + name.skip(2)
    } else {
        name
    }
}

fn directory_name(name: &str) -> (r: String)
    ensures
        r@ == directory_of(name@),
{
    proof {
        reveal_strlit("*.");
    }
    if has_prefix(name, "*.") {
        let n: usize = chars_of(name).len();
        let rest: String = substring(name, 2, n);
        assert(rest@ =~= name@.skip(2));
        "_wildcard.".to_owned().concat(rest.as_str())
    } else {
        name.to_owned()
    }
}

/// The generation that the `current` pointer refers to, from the content of its
/// file; `None` where that is corrupt.
pub fn pointer_generation(content: &str) -> (r: Option<u64>)
    ensures
        (match r {
            Some(n) => Some(n as nat),
            None => None,
        }) == text::parsed_unsigned(text::trimmed(content@), u64::MAX as nat),
{
    parse_unsigned(trim(content).as_str(), u64::MAX)
}

/// The generation that a file name stands for.
pub open spec fn named_generation(file: Seq<char>) -> Option<nat> {
    if text::starts_with(file, "gen-"@) {
        text::parsed_unsigned(file.skip(4), u64::MAX as nat)
    } else {
        None
    }
}

fn file_generation(file: &str) -> (r: Option<u64>)
    ensures
        (match r {
            Some(n) => Some(n as nat),
            None => None,
        }) == named_generation(file@),
{
    proof {
        reveal_strlit("gen-");
    }
    if has_prefix(file, "gen-") {
        let n: usize = chars_of(file).len();
        let rest: String = substring(file, 4, n);
        assert(rest@ =~= file@.skip(4));
        parse_unsigned(rest.as_str(), u64::MAX)
    } else {
        None
    }
}

/// A list in descending order with one more number.
pub open spec fn placed(list: Seq<u64>, n: u64) -> Seq<u64>
    decreases list.len(),
{
    if list.len() > 0 && list.last() < n {
        placed(list.drop_last(), n).push(list.last())
    } else {
        list.push(n)
    }
}

/// The generations among file names, newest first.
pub open spec fn generations_of(files: Seq<Seq<char>>) -> Seq<u64>
    decreases files.len(),
{
    if files.len() == 0 {
        Seq::empty()
    } else {
        let before = generations_of(files.drop_last());
        match named_generation(files.last()) {
            Some(n) => placed(before, n as u64),
            None => before,
        }
    }
}

fn place(list: &mut Vec<u64>, n: u64)
    ensures
        final(list)@ == placed(old(list)@, n),
{
    let ghost all = list@;
    let mut j: usize = list.len();
    assert(all.take(j as int) =~= all);
    assert(placed(all, n) =~= placed(all.take(j as int), n) + all.skip(j as int));
    while j > 0 && list[j - 1] < n
        invariant
            j <= list.len(),
            list@ == all,
            placed(all, n) == placed(all.take(j as int), n) + all.skip(j as int),
        decreases j,
    {
        let ghost head = all.take(j as int);
        assert(head.drop_last() =~= all.take(j - 1));
        assert(head.last() == all[j - 1]);
        assert(placed(all.take(j - 1), n).push(all[j - 1]) + all.skip(j as int) =~= placed(
            all.take(j - 1),
            n,
        ) + all.skip(j - 1));
        j -= 1;
    }
    proof {
        let head = all.take(j as int);
        if j > 0 {
            assert(head.last() == all[j - 1]);
        }
        assert(all.insert(j as int, n) =~= head.push(n) + all.skip(j as int));
    }
    list.insert(j, n);
}

/// The newest of generations, or 0.
pub open spec fn newest(generations: Seq<u64>, current: Option<u64>) -> u64 {
    let first = if generations.len() > 0 { generations[0] } else { 0 };
    let active = match current {
        Some(c) => c,
        None => 0,
    };
    if first > active {
        first
    } else {
        active
    }
}

/// Why a generation may not be stored.
pub open spec fn store_fault(
    name: Seq<char>,
    generation: u64,
    current: Option<u64>,
    exists_already: bool,
) -> Option<Seq<char>> {
    if current is Some && generation <= current->0 {
        Some(
            "refusing to store generation "@ + text::decimal(generation as nat) + " for "@ + name
                + ": active generation is "@ + text::decimal(current->0 as nat),
        )
    } else if exists_already {
        Some(
            "generation "@ + text::decimal(generation as nat) + " for "@ + name
                + " already exists"@,
        )
    } else {
        None
    }
}

/// Checks whether a generation may be stored. Generations not newer than the
/// active one are rejected so that a stale writer cannot roll the certificate back.
pub fn check_store(name: &str, generation: u64, current: Option<u64>, exists_already: bool) -> (r:
    Result<(), String>)
    ensures
        match r {
            Ok(_) => store_fault(name@, generation, current, exists_already) is None,
            Err(e) => store_fault(name@, generation, current, exists_already) == Some(e@),
        },
{
    if let Some(c) = current {
        if generation <= c {
            let mut m: String = "refusing to store generation ".to_owned();
            m.append(decimal_text(generation).as_str());
            m.append(" for ");
            m.append(name);
            m.append(": active generation is ");
            m.append(decimal_text(c).as_str());
            return Err(m);
        }
    }
    if exists_already {
        let mut m: String = "generation ".to_owned();
        m.append(decimal_text(generation).as_str());
        m.append(" for ");
        m.append(name);
        m.append(" already exists");
        return Err(m);
    }
    Ok(())
}

/// The generations that are not above a limit, in their order.
pub open spec fn at_most(generations: Seq<u64>, limit: int) -> Seq<u64>
    decreases generations.len(),
{
    if generations.len() == 0 {
        Seq::empty()
    } else {
        let before = at_most(generations.drop_last(), limit);
        if generations.last() <= limit {
            before.push(generations.last())
        } else {
            before
        }
    }
}

fn keep_at_most(generations: &Vec<u64>, limit: i128) -> (r: Vec<u64>)
    ensures
        r@ == at_most(generations@, limit as int),
{
    let ghost all = generations@;
    let mut out: Vec<u64> = Vec::new();
    let mut i: usize = 0;
    assert(out@ =~= at_most(all.take(0), limit as int));
    while i < generations.len()
        invariant
            i <= generations.len(),
            all == generations@,
            out@ == at_most(all.take(i as int), limit as int),
        decreases generations.len() - i,
    {
        assert(all.take(i + 1).drop_last() =~= all.take(i as int));
        assert(all.take(i + 1).last() == all[i as int]);
        if generations[i] as i128 <= limit {
            out.push(generations[i]);
        }
        i += 1;
    }
    assert(all.take(i as int) =~= all);
    out
}

/// The generations to try, newest first: the active one, then older ones, should
/// it be unusable.
pub fn load_order(generations: &Vec<u64>, current: u64) -> (r: Vec<u64>)
    ensures
        r@ == at_most(generations@, current as int),
{
    keep_at_most(generations, current as i128)
}

/// The generations to remove once `active` is the active one: all older ones but
/// so many of the newest that, with the active one, `KEPT_GENERATIONS` stay.
pub open spec fn pruned(generations: Seq<u64>, active: u64) -> Seq<u64> {
    let older = at_most(generations, active - 1);
    if older.len() <= KEPT_GENERATIONS - 1 {
        Seq::empty()
    } else {
        older.skip(KEPT_GENERATIONS - 1)
    }
}

proof fn lemma_at_most(generations: Seq<u64>, limit: int, g: u64)
    ensures
        at_most(generations, limit).contains(g) ==> g <= limit && generations.contains(g),
    decreases generations.len(),
{
    if generations.len() > 0 && at_most(generations, limit).contains(g) {
        let head = generations.drop_last();
        let before = at_most(head, limit);
        lemma_at_most(head, limit, g);
        let r = at_most(generations, limit);
        let i = choose|i: int| 0 <= i < r.len() && r[i] == g;
        if i < before.len() {
            assert(before[i] == g);
            let j = choose|j: int| 0 <= j < head.len() && head[j] == g;
            assert(generations[j] == g);
        } else {
            assert(generations[generations.len() - 1] == g);
        }
    }
}

/// The active generation is never removed, nor anything newer.
pub proof fn law_pruning_spares_the_active_generation(
    generations: Seq<u64>,
    active: u64,
    removed: u64,
)
    requires
        pruned(generations, active).contains(removed),
    ensures
        removed < active,
        generations.contains(removed),
{
    let older = at_most(generations, active - 1);
    let r = pruned(generations, active);
    let i = choose|i: int| 0 <= i < r.len() && r[i] == removed;
    assert(older[i + KEPT_GENERATIONS - 1] == removed);
    assert(older.contains(removed));
    lemma_at_most(generations, active - 1, removed);
}

/// Whether numbers stand in descending order.
pub open spec fn descending(list: Seq<u64>) -> bool {
    forall|i: int, j: int| 0 <= i < j < list.len() ==> list[i] >= list[j]
}

proof fn lemma_placed(list: Seq<u64>, n: u64)
    requires
        descending(list),
    ensures
        descending(placed(list, n)),
        forall|x: u64| #[trigger] placed(list, n).contains(x) == (list.contains(x) || x == n),
    decreases list.len(),
{
    let r = placed(list, n);
    if list.len() > 0 && list.last() < n {
        let head = list.drop_last();
        assert(descending(head));
        lemma_placed(head, n);
        let p = placed(head, n);
        assert forall|i: int, j: int| 0 <= i < j < r.len() implies r[i] >= r[j] by {
            if j < p.len() {
                assert(r[i] == p[i] && r[j] == p[j]);
            } else {
                assert(p.contains(p[i]));
                if p[i] != n {
                    assert(head.contains(p[i]));
                    let k = choose|k: int| 0 <= k < head.len() && head[k] == p[i];
                    assert(list[k] >= list[list.len() - 1]);
                }
            }
        }
        assert forall|x: u64| #[trigger] r.contains(x) == (list.contains(x) || x == n) by {
            if r.contains(x) {
                let k = choose|k: int| 0 <= k < r.len() && r[k] == x;
                if k < p.len() {
                    assert(p[k] == x);
                    assert(p.contains(x));
                    if head.contains(x) {
                        let m = choose|m: int| 0 <= m < head.len() && head[m] == x;
                        assert(list[m] == x);
                    }
                } else {
                    assert(list[list.len() - 1] == x);
                }
            }
            if list.contains(x) || x == n {
                if list.contains(x) {
                    let m = choose|m: int| 0 <= m < list.len() && list[m] == x;
                    if m < head.len() {
                        assert(head[m] == x);
                        assert(head.contains(x));
                    } else {
                        assert(r[r.len() - 1] == x);
                    }
                }
                if p.contains(x) {
                    let k = choose|k: int| 0 <= k < p.len() && p[k] == x;
                    assert(r[k] == x);
                }
            }
        }
    } else {
        assert forall|x: u64| #[trigger] r.contains(x) == (list.contains(x) || x == n) by {
            if list.contains(x) {
                let m = choose|m: int| 0 <= m < list.len() && list[m] == x;
                assert(r[m] == x);
            }
            assert(r[list.len() as int] == n);
        }
    }
}

/// The generations among file names come newest first, and the next generation is
/// greater than all of them and than the active one.
pub proof fn law_next_generation_is_newer(files: Seq<Seq<char>>, current: Option<u64>, g: u64)
    requires
        generations_of(files).contains(g) || current == Some(g),
    ensures
        descending(generations_of(files)),
        g < newest(generations_of(files), current) + 1,
{
    lemma_generations_descend(files);
    let list = generations_of(files);
    if list.contains(g) {
        let i = choose|i: int| 0 <= i < list.len() && list[i] == g;
        if i > 0 {
            assert(list[0] >= list[i]);
        }
    }
}

proof fn lemma_generations_descend(files: Seq<Seq<char>>)
    ensures
        descending(generations_of(files)),
    decreases files.len(),
{
    if files.len() > 0 {
        lemma_generations_descend(files.drop_last());
        if let Some(n) = named_generation(files.last()) {
            lemma_placed(generations_of(files.drop_last()), n as u64);
        }
    }
}

/// The next generation may always be stored, unless its directory is there
/// already; a generation that was stored before cannot replace a newer one.
pub proof fn law_stale_writer_is_refused(
    name: Seq<char>,
    generations: Seq<u64>,
    current: Option<u64>,
    stale: u64,
    active: u64,
)
    requires
        newest(generations, current) < u64::MAX,
        stale <= active,
    ensures
        store_fault(name, (newest(generations, current) + 1) as u64, current, false) is None,
        store_fault(name, stale, Some(active), false) is Some,
{
}

/// The certificates of names, kept in generations below a directory.
#[derive(Debug)]
pub struct CertStore {
    pub root: String,
}

/// What was read of a stored generation.
#[derive(Debug)]
pub struct StoredGeneration {
    pub generation: u64,
    pub cert: Result<Vec<u8>, String>,
    pub key: Result<Vec<u8>, String>,
}

/// A path that leads on from another one. One that starts at the root stands for
/// itself.
pub open spec fn joined(base: Seq<char>, part: Seq<char>) -> Seq<char> {
    if part.len() > 0 && part[0] == '/' {
        part
    } else if base.len() == 0 || base.last() == '/' {
        base + part
    } else {
        base + "/"@ + part
    }
}

/// The path of the directory of a name.
pub open spec fn dir_in(root: Seq<char>, name: Seq<char>) -> Seq<char> {
    joined(root, directory_of(name))
}

/// The path of a file in the directory of a name.
pub open spec fn path_in(root: Seq<char>, name: Seq<char>, file: Seq<char>) -> Seq<char> {
    joined(dir_in(root, name), file)
}

fn join_path(base: &str, part: &str) -> (r: String)
    ensures
        r@ == joined(base@, part@),
{
    let b: Vec<char> = chars_of(base);
    let p: Vec<char> = chars_of(part);
    if p.len() > 0 && p[0] == '/' {
        return part.to_owned();
    }
    let mut r: String = base.to_owned();
    if b.len() > 0 && b[b.len() - 1] != '/' {
        r.append("/");
    }
    r.append(part);
    r
}

/// The generation that the `current` pointer refers to, if any, from what was read of
/// its file; there may be none.
pub open spec fn pointed(
    root: Seq<char>,
    name: Seq<char>,
    content: Result<Option<String>, String>,
) -> Result<Option<u64>, Seq<char>> {
    match content {
        Ok(None) => Ok(None),
        Ok(Some(c)) => match text::parsed_unsigned(text::trimmed(c@), u64::MAX as nat) {
            Some(n) => Ok(Some(n as u64)),
            None => Err(
                "corrupt generation pointer "@ + text::quoted(path_in(root, name, "current"@)),
            ),
        },
        Err(e) => Err(
            "cannot read "@ + text::quoted(path_in(root, name, "current"@)) + ": "@ + e@,
        ),
    }
}

/// Why a stored generation cannot be used.
pub open spec fn generation_fault(g: StoredGeneration, name: Seq<char>, now: int) -> Option<
    Seq<char>,
> {
    match g.cert {
        Err(e) => Some("read certificate: "@ + e@),
        Ok(cert) => match g.key {
            Err(e) => Some("read private key: "@ + e@),
            Ok(key) => entry_fault(cert@, key@, name, now),
        },
    }
}

/// The position of the first generation that is not above the active one and can
/// be used.
pub open spec fn first_usable(
    stored: Seq<StoredGeneration>,
    current: u64,
    name: Seq<char>,
    now: int,
    from: int,
) -> Option<int>
    decreases stored.len() - from,
{
    if from < 0 || from >= stored.len() {
        None
    } else if stored[from].generation <= current && generation_fault(stored[from], name, now)
        is None {
        Some(from)
    } else {
        first_usable(stored, current, name, now, from + 1)
    }
}

/// Why a new generation is not stored: the certificate is not valid, the `current`
/// pointer cannot be read, or the generation is not newer than the active one.
pub open spec fn update_fault(
    root: Seq<char>,
    name: Seq<char>,
    generation: u64,
    cert_pem: Seq<u8>,
    key_pem: Seq<u8>,
    now: int,
    pointer: Result<Option<String>, String>,
    exists_already: bool,
) -> Option<Seq<char>> {
    match entry_fault(cert_pem, key_pem, name, now) {
        Some(fault) => Some(fault),
        None => match pointed(root, name, pointer) {
            Err(e) => Some(e),
            Ok(current) => store_fault(name, generation, current, exists_already),
        },
    }
}

impl CertStore {
    pub fn open(root: &str) -> (r: Self)
        ensures
            r.root@ == root@,
    {
        CertStore { root: root.to_owned() }
    }

    /// The path of the directory of a name.
    pub fn name_dir(&self, name: &str) -> (r: String)
        ensures
            r@ == dir_in(self.root@, name@),
    {
        join_path(self.root.as_str(), directory_name(name).as_str())
    }

    /// The path of a file in the directory of a name.
    pub fn path(&self, name: &str, file: &str) -> (r: String)
        ensures
            r@ == path_in(self.root@, name@, file@),
    {
        join_path(self.name_dir(name).as_str(), file)
    }

    /// All complete generations among the files of a directory, newest first.
    pub fn generations(&self, files: &Vec<String>) -> (r: Vec<u64>)
        ensures
            r@ == generations_of(text::views(files@)),
    {
        let ghost all = text::views(files@);
        let mut out: Vec<u64> = Vec::new();
        let mut i: usize = 0;
        assert(out@ =~= generations_of(all.take(0)));
        while i < files.len()
            invariant
                i <= files.len() == all.len(),
                all == text::views(files@),
                out@ == generations_of(all.take(i as int)),
            decreases files.len() - i,
        {
            assert(all.take(i + 1).drop_last() =~= all.take(i as int));
            assert(all.take(i + 1).last() == files@[i as int]@);
            if let Some(n) = file_generation(files[i].as_str()) {
                place(&mut out, n);
            }
            i += 1;
        }
        assert(all.take(i as int) =~= all);
        out
    }

    /// A generation number greater than anything stored so far.
    pub fn next_generation(&self, generations: &Vec<u64>, current: Option<u64>) -> (r: u64)
        requires
            newest(generations@, current) < u64::MAX,
        ensures
            r == newest(generations@, current) + 1,
    {
        let first: u64 = if generations.len() > 0 {
            generations[0]
        } else {
            0
        };
        let active: u64 = match current {
            Some(c) => c,
            None => 0,
        };
        if first > active {
            first + 1
        } else {
            active + 1
        }
    }

    /// The generations to remove once `active` is the active one.
    pub fn prune(&self, generations: &Vec<u64>, active: u64) -> (r: Vec<u64>)
        ensures
            r@ == pruned(generations@, active),
    {
        let older: Vec<u64> = keep_at_most(generations, active as i128 - 1);
        let ghost all = older@;
        let mut out: Vec<u64> = Vec::new();
        let mut i: usize = KEPT_GENERATIONS - 1;
        if older.len() <= i {
            assert(out@ =~= Seq::<u64>::empty());
            return out;
        }
        assert(out@ =~= all.subrange(2, 2));
        while i < older.len()
            invariant
                2 <= i <= older.len(),
                all == older@,
                out@ == all.subrange(2, i as int),
            decreases older.len() - i,
        {
            out.push(older[i]);
            i += 1;
            assert(out@ =~= all.subrange(2, i as int));
        }
        assert(all.subrange(2, i as int) =~= all.skip(2));
        out
    }

    /// The generation the `current` pointer refers to, if any, from what was read of
    /// its file; there may be none.
    pub fn current_generation(&self, name: &str, content: &Result<Option<String>, String>) -> (r:
        Result<Option<u64>, String>)
        ensures
            (match r {
                Ok(g) => Ok(g),
                Err(e) => Err(e@),
            }) == pointed(self.root@, name@, *content),
    {
        let path: String = quote(self.path(name, "current").as_str());
        match content {
            Ok(None) => Ok(None),
            Ok(Some(c)) => match pointer_generation(c.as_str()) {
                Some(n) => Ok(Some(n)),
                None => Err("corrupt generation pointer ".to_owned().concat(path.as_str())),
            },
            Err(e) => {
                let mut m: String = "cannot read ".to_owned();
                m.append(path.as_str());
                m.append(": ");
                m.append(e.as_str());
                Err(m)
            },
        }
    }

    /// Validates a new generation; what is returned may be persisted. Then `pointer`,
    /// which holds what was read of the `current` pointer, holds what has to be written
    /// there to switch to the generation. Neither an invalid update nor a stale writer
    /// moves the active generation.
    pub fn store(
        &self,
        name: &str,
        generation: u64,
        cert_pem: &[u8],
        key_pem: &[u8],
        now: i64,
        pointer: &mut Result<Option<String>, String>,
        exists_already: bool,
    ) -> (r: Result<CertEntry, String>)
        requires
            now <= i64::MAX - NOT_BEFORE_LEEWAY_SECS,
        ensures
            match update_fault(
                self.root@,
                name@,
                generation,
                cert_pem@,
                key_pem@,
                now as int,
                *old(pointer),
                exists_already,
            ) {
                Some(fault) => r is Err && r->Err_0@ == fault && *final(pointer) == *old(pointer),
                None => {
                    &&& r is Ok
                    &&& made_from(r->Ok_0, cert_pem@, key_pem@, name@)
                    &&& r->Ok_0.source == CertSource::Acme
                    &&& r->Ok_0.generation == Some(generation)
                    &&& *final(pointer) matches Ok(Some(c)) && c@ == text::decimal(generation as nat)
                },
            },
    {
        let mut entry: CertEntry = match parse_and_validate(
            cert_pem,
            key_pem,
            name,
            CertSource::Acme,
            now,
        ) {
            Ok(entry) => entry,
            Err(e) => {
                return Err(e);
            },
        };
        entry.generation = Some(generation);
        let current: Option<u64> = match self.current_generation(name, pointer) {
            Ok(current) => current,
            Err(e) => {
                return Err(e);
            },
        };
        match check_store(name, generation, current, exists_already) {
            Ok(_) => {
                *pointer = Ok(Some(decimal_text(generation)));
                Ok(entry)
            },
            Err(e) => Err(e),
        }
    }

    /// A stored generation, if it can be used.
    pub fn load_generation(&self, name: &str, stored: &StoredGeneration, now: i64) -> (r: Result<
        CertEntry,
        String,
    >)
        requires
            now <= i64::MAX - NOT_BEFORE_LEEWAY_SECS,
        ensures
            match generation_fault(*stored, name@, now as int) {
                Some(fault) => r is Err && r->Err_0@ == fault,
                None => {
                    &&& r is Ok
                    &&& made_from(r->Ok_0, stored.cert->Ok_0@, stored.key->Ok_0@, name@)
                    &&& r->Ok_0.source == CertSource::Acme
                    &&& r->Ok_0.generation == Some(stored.generation)
                },
            },
    {
        match &stored.cert {
            Err(e) => Err("read certificate: ".to_owned().concat(e.as_str())),
            Ok(cert) => match &stored.key {
                Err(e) => Err("read private key: ".to_owned().concat(e.as_str())),
                Ok(key) => match parse_and_validate(
                    cert.as_slice(),
                    key.as_slice(),
                    name,
                    CertSource::Acme,
                    now,
                ) {
                    Ok(entry) => {
                        let mut entry: CertEntry = entry;
                        entry.generation = Some(stored.generation);
                        Ok(entry)
                    },
                    Err(e) => Err(e),
                },
            },
        }
    }

    /// Load the active generation. If it is unusable, fall back to the newest older
    /// generation that still validates. The generations come newest first.
    pub fn load_current(
        &self,
        name: &str,
        current: Option<u64>,
        stored: &Vec<StoredGeneration>,
        now: i64,
    ) -> (r: Option<CertEntry>)
        requires
            now <= i64::MAX - NOT_BEFORE_LEEWAY_SECS,
        ensures
            match current {
                None => r is None,
                Some(c) => match first_usable(stored@, c, name@, now as int, 0) {
                    None => r is None,
                    Some(i) => {
                        &&& r is Some
                        &&& 0 <= i < stored@.len()
                        &&& made_from(
                            r->0,
                            stored@[i].cert->Ok_0@,
                            stored@[i].key->Ok_0@,
                            name@,
                        )
                        &&& r->0.source == CertSource::Acme
                        &&& r->0.generation == Some(stored@[i].generation)
                    },
                },
            },
    {
        let limit: u64 = match current {
            Some(c) => c,
            None => {
                return None;
            },
        };
        let mut i: usize = 0;
        while i < stored.len()
            invariant
                i <= stored.len(),
                current == Some(limit),
                first_usable(stored@, limit, name@, now as int, 0) == first_usable(
                    stored@,
                    limit,
                    name@,
                    now as int,
                    i as int,
                ),
            decreases stored.len() - i,
        {
            if stored[i].generation <= limit {
                if let Ok(entry) = self.load_generation(name, &stored[i], now) {
                    return Some(entry);
                }
            }
            i += 1;
        }
        None
    }
}

/// A certificate that was stored is the one that is loaded: as long as its
/// generation is the active one and the certificate is valid, no other is.
pub proof fn law_stored_certificate_is_loaded(
    stored: Seq<StoredGeneration>,
    name: Seq<char>,
    now: int,
    k: int,
)
    requires
        0 <= k < stored.len(),
        forall|i: int, j: int|
            0 <= i < j < stored.len() ==> (#[trigger] stored[i]).generation > (
            #[trigger] stored[j]).generation,
        generation_fault(stored[k], name, now) is None,
    ensures
        first_usable(stored, stored[k].generation, name, now, 0) == Some(k),
{
    lemma_skips_to(stored, name, now, k, 0);
}

proof fn lemma_skips_to(
    stored: Seq<StoredGeneration>,
    name: Seq<char>,
    now: int,
    k: int,
    from: int,
)
    requires
        0 <= from <= k < stored.len(),
        forall|i: int, j: int|
            0 <= i < j < stored.len() ==> (#[trigger] stored[i]).generation > (
            #[trigger] stored[j]).generation,
        generation_fault(stored[k], name, now) is None,
    ensures
        first_usable(stored, stored[k].generation, name, now, from) == Some(k),
    decreases k - from,
{
    if from < k {
        assert(stored[from].generation > stored[k].generation);
        lemma_skips_to(stored, name, now, k, from + 1);
    }
}

/// The `current` pointer and the directory of a generation give back the number
/// that was written.
pub proof fn law_generation_reads_back(generation: u64)
    ensures
        text::parsed_unsigned(
            text::trimmed(text::decimal(generation as nat)),
            u64::MAX as nat,
        ) == Some(generation as nat),
        named_generation("gen-"@ + text::decimal(generation as nat)) == Some(generation as nat),
{
    let d = text::decimal(generation as nat);
    text::law_digits_read_back(generation as nat, 10);
    text::lemma_digits_are_digits(generation as nat, 10);
    assert(text::digit_value(d[0], 16) is Some);
    assert(text::digit_value(d[d.len() - 1], 16) is Some);
    assert(text::trimmed(d) == d);
    reveal_strlit("gen-");
    let file = "gen-"@ + d;
    assert(file.take(4) =~= "gen-"@);
    assert(file.skip(4) =~= d);
}

/// A generation is stored only if it is newer than the active one, and is the active
/// one from then on; where none is stored, the pointer stays what it was.
pub proof fn law_storing_moves_the_pointer_forward(
    root: Seq<char>,
    name: Seq<char>,
    generation: u64,
    cert_pem: Seq<u8>,
    key_pem: Seq<u8>,
    now: int,
    before: Result<Option<String>, String>,
    exists_already: bool,
    after: Result<Option<String>, String>,
)
    requires
        match update_fault(
            root,
            name,
            generation,
            cert_pem,
            key_pem,
            now,
            before,
            exists_already,
        ) {
            Some(_) => after == before,
            None => after matches Ok(Some(c)) && c@ == text::decimal(generation as nat),
        },
    ensures
        match update_fault(
            root,
            name,
            generation,
            cert_pem,
            key_pem,
            now,
            before,
            exists_already,
        ) {
            Some(_) => pointed(root, name, after) == pointed(root, name, before),
            None => {
                &&& pointed(root, name, before) matches Ok(c) && (c is None || generation > c->0)
                &&& pointed(root, name, after) == Ok::<Option<u64>, Seq<char>>(Some(generation))
            },
        },
{
    law_generation_reads_back(generation);
}

/// What is stored is loaded again at that time: where the files of the new generation
/// hold what was given, they are those that the pointer leads to.
pub proof fn law_what_is_stored_is_loaded(
    root: Seq<char>,
    name: Seq<char>,
    generation: u64,
    cert_pem: Seq<u8>,
    key_pem: Seq<u8>,
    now: int,
    before: Result<Option<String>, String>,
    after: Result<Option<String>, String>,
    stored: Seq<StoredGeneration>,
    k: int,
)
    requires
        update_fault(root, name, generation, cert_pem, key_pem, now, before, false) is None,
        after matches Ok(Some(c)) && c@ == text::decimal(generation as nat),
        0 <= k < stored.len(),
        forall|i: int, j: int|
            0 <= i < j < stored.len() ==> (#[trigger] stored[i]).generation > (
            #[trigger] stored[j]).generation,
        stored[k].generation == generation,
        stored[k].cert matches Ok(cert) && cert@ == cert_pem,
        stored[k].key matches Ok(key) && key@ == key_pem,
    ensures
        pointed(root, name, after) == Ok::<Option<u64>, Seq<char>>(Some(generation)),
        first_usable(stored, generation, name, now, 0) == Some(k),
{
    law_generation_reads_back(generation);
    law_stored_certificate_is_loaded(stored, name, now, k);
}

/// A certificate has expired if and only if no time of it remains, and its lifetime is what
/// remains at its beginning.
pub proof fn law_expired_means_nothing_remains(
    entry: CertEntry,
    now: i64,
    expired: bool,
    left: i64,
    whole: i64,
    all: i64,
)
    requires
        i64::MIN <= entry.not_after - now <= i64::MAX,
        i64::MIN <= entry.not_after - entry.not_before <= i64::MAX,
        call_ensures(CertEntry::is_expired, (&entry, now), expired),
        call_ensures(CertEntry::remaining_secs, (&entry, now), left),
        call_ensures(CertEntry::lifetime_secs, (&entry,), whole),
        call_ensures(CertEntry::remaining_secs, (&entry, entry.not_before), all),
    ensures
        expired == (left <= 0),
        left == entry.not_after - now,
        whole == if all > 0 {
            all as int
        } else {
            0
        },
{
}

proof fn lemma_dns_names(names: Seq<AltNameView>, k: int)
    requires
        0 <= k < names.len(),
    ensures
        names[k] matches AltNameView::Dns(n) ==> dns_names_of(names).contains(
            text::ascii_lower(text::without_end(n, '.')),
        ),
    decreases names.len(),
{
    let front = names.drop_last();
    let before = dns_names_of(front);
    let all = dns_names_of(names);
    if let AltNameView::Dns(n) = names[k] {
        let x = text::ascii_lower(text::without_end(n, '.'));
        if k < front.len() {
            lemma_dns_names(front, k);
            let i = before.index_of(x);
            assert(all[i] == x);
        } else {
            assert(all[all.len() - 1] == x);
        }
    }
}

/// Whether a pattern without a wildcard is a name, or one with a wildcard has the name's
/// labels but for the first.
pub open spec fn stands_for(pattern: Seq<char>, name: Seq<char>) -> bool {
    pattern == name || exists|label: Seq<char>, rest: Seq<char>|
        name == #[trigger] (label + seq!['.'] + rest) && label.len() > 0 && !label.contains('.')
            && pattern == seq!['*', '.'] + rest
}

proof fn lemma_covers(pattern: Seq<char>, name: Seq<char>)
    requires
        hostname::covers(pattern, name),
    ensures
        stands_for(pattern, name),
{
    reveal_strlit("*.");
    if pattern != name {
        name.index_of_first_ensures('.');
        let i = name.index_of_first('.')->0;
        let label = name.take(i);
        let rest = name.skip(i + 1);
        assert(name =~= label + seq!['.'] + rest);
        assert(pattern =~= seq!['*', '.'] + rest) by {
            assert(pattern.take(2)[0] == '*' && pattern.take(2)[1] == '.');
            assert(pattern =~= pattern.take(2) + pattern.skip(2));
        }
        assert forall|j: int| 0 <= j < label.len() implies label[j] != '.' by {
            assert(name[j] == label[j]);
        }
        assert(name == label + seq!['.'] + rest);
    }
}

/// A certificate that is accepted is valid now, but for five minutes' grace at its beginning,
/// and one of its DNS names is the name or a wildcard for it.
pub proof fn law_accepted_certificates_are_valid(
    info: Result<CertificateInfo, String>,
    name: &str,
    now: i64,
    r: Result<Vec<String>, String>,
)
    requires
        now <= i64::MAX - 300,
        call_ensures(check_certificate, (&info, name, now), r),
    ensures
        info is Err ==> r is Err,
        info matches Ok(i) ==> (i.names is Err || now >= i.not_after || i.not_before > now + 300
            ==> r is Err),
        r matches Ok(names) ==> exists|j: int|
            0 <= j < names@.len() && ((#[trigger] names@[j])@ == name@ || (!(name@.len() >= 2
                && name@[0] == '*' && name@[1] == '.') && stands_for(names@[j]@, name@))),
{
    reveal_strlit("*.");
    if r is Ok {
        let names = r->Ok_0;
        let views = text::views(names@);
        let j = choose|j: int|
            0 <= j < views.len() && ((#[trigger] views[j]) == name@ || (!text::starts_with(
                name@,
                "*."@,
            ) && hostname::covers(views[j], name@)));
        assert(names@[j]@ == views[j]);
        if hostname::covers(views[j], name@) {
            lemma_covers(views[j], name@);
        }
        if name@.len() >= 2 && name@[0] == '*' && name@[1] == '.' {
            assert(name@.take(2) =~= "*."@);
        }
    }
}

/// A certificate that is valid now is accepted for each of its own DNS names.
pub proof fn law_valid_certificates_are_accepted(
    info: CertificateInfo,
    name: &str,
    now: i64,
    k: int,
    r: Result<Vec<String>, String>,
)
    requires
        now <= i64::MAX - 300,
        call_ensures(check_certificate, (&Ok::<CertificateInfo, String>(info), name, now), r),
        info.names is Ok,
        0 <= k < info.names->Ok_0@.len(),
        info.names->Ok_0@[k] matches AltName::Dns(n) && text::same_letters(n@, name@),
        forall|i: int| 0 <= i < name@.len() ==> !('A' <= (#[trigger] name@[i]) <= 'Z'),
        name@.len() > 0 ==> name@.last() != '.',
        info.not_before <= now + 300,
        now < info.not_after,
    ensures
        r is Ok,
{
    let names = pki::alt_views(info.names->Ok_0@);
    let n = info.names->Ok_0@[k]->Dns_0@;
    assert(names[k] == AltNameView::Dns(n));
    text::lemma_same_letters(n, name@);
    assert(text::ascii_lower(name@) =~= name@);
    if n.len() > 0 {
        assert(text::same_letter(n.last(), name@.last()));
    }
    assert(text::without_end(n, '.') == n);
    lemma_dns_names(names, k);
    let list = dns_names_of(names);
    let i = list.index_of(name@);
    assert(list[i] == name@);
}

/// What is read from a certificate and a key is for the name that it was read for, is not
/// expired, and is no generation yet.
pub proof fn law_entries_are_for_their_name(
    cert: &[u8],
    key: &[u8],
    name: &str,
    source: CertSource,
    now: i64,
    r: Result<CertEntry, String>,
)
    requires
        now <= i64::MAX - 300,
        call_ensures(parse_and_validate, (cert, key, name, source, now), r),
    ensures
        r matches Ok(e) ==> {
            &&& e.name@ == name@
            &&& e.source == source
            &&& e.generation is None
            &&& now < e.not_after
            &&& e.not_before <= now + 300
            &&& e.chain@.len() > 0
            &&& exists|j: int|
                0 <= j < e.dns_names@.len() && ((#[trigger] e.dns_names@[j])@ == name@
                    || stands_for(e.dns_names@[j]@, name@))
        },
{
    if r is Ok {
        let e = r->Ok_0;
        let views = text::views(e.dns_names@);
        let j = choose|j: int|
            0 <= j < views.len() && ((#[trigger] views[j]) == name@ || (!text::starts_with(
                name@,
                "*."@,
            ) && hostname::covers(views[j], name@)));
        assert(e.dns_names@[j]@ == views[j]);
        if hostname::covers(views[j], name@) {
            lemma_covers(views[j], name@);
        }
        assert(pki::chain_views(e.chain@).len() == e.chain@.len());
    }
}

/// A certificate is stored if and only if it can be used for its name, its generation is newer
/// than the current one and not there yet. The pointer then names it; otherwise it stays as it
/// is.
pub proof fn law_newer_usable_certificates_are_stored(
    store: CertStore,
    name: &str,
    generation: u64,
    cert: &[u8],
    key: &[u8],
    now: i64,
    pointer: &mut Result<Option<String>, String>,
    there: bool,
    parsed: Result<CertEntry, String>,
    current: Result<Option<u64>, String>,
    after: Result<Option<u64>, String>,
    r: Result<CertEntry, String>,
)
    requires
        now <= i64::MAX - 300,
        call_ensures(
            CertStore::store,
            (&store, name, generation, cert, key, now, pointer, there),
            r,
        ),
        call_ensures(parse_and_validate, (cert, key, name, CertSource::Acme, now), parsed),
        call_ensures(CertStore::current_generation, (&store, name, &*old(pointer)), current),
        call_ensures(CertStore::current_generation, (&store, name, &*final(pointer)), after),
    ensures
        r is Ok == (parsed is Ok && current is Ok && !there && (current->Ok_0 is None
            || current->Ok_0->0 < generation)),
        r is Err ==> *final(pointer) == *old(pointer),
        r matches Ok(e) ==> {
            &&& after == Ok::<Option<u64>, String>(Some(generation))
            &&& e.generation == Some(generation)
            &&& e.source is Acme
            &&& e.name@ == name@
            &&& e.not_before == parsed->Ok_0.not_before
            &&& e.not_after == parsed->Ok_0.not_after
            &&& e.fingerprint@ == parsed->Ok_0.fingerprint@
            &&& pki::chain_views(e.chain@) == pki::chain_views(parsed->Ok_0.chain@)
            &&& e.key@ == parsed->Ok_0.key@
        },
{
    law_generation_reads_back(generation);
    if current is Err {
        assert(pointed(store.root@, name@, *old(pointer)) is Err);
    }
}

/// A stored generation is loaded if and only if both its files are there and are usable for the
/// name; what is loaded is what they hold.
pub proof fn law_stored_files_are_loaded(
    store: CertStore,
    name: &str,
    stored: StoredGeneration,
    now: i64,
    cert: &[u8],
    key: &[u8],
    parsed: Result<CertEntry, String>,
    r: Result<CertEntry, String>,
)
    requires
        now <= i64::MAX - 300,
        call_ensures(CertStore::load_generation, (&store, name, &stored, now), r),
        stored.cert is Ok ==> cert@ == stored.cert->Ok_0@,
        stored.key is Ok ==> key@ == stored.key->Ok_0@,
        call_ensures(parse_and_validate, (cert, key, name, CertSource::Acme, now), parsed),
    ensures
        r is Ok == (stored.cert is Ok && stored.key is Ok && parsed is Ok),
        r matches Ok(e) ==> e.generation == Some(stored.generation) && e.source is Acme && e.name@
            == name@ && e.not_after == parsed->Ok_0.not_after && e.fingerprint@
            == parsed->Ok_0.fingerprint@ && e.key@ == parsed->Ok_0.key@,
{
}

proof fn lemma_first_usable(
    stored: Seq<StoredGeneration>,
    current: u64,
    name: Seq<char>,
    now: int,
    from: int,
    k: int,
)
    requires
        0 <= from <= k < stored.len(),
        stored[k].generation <= current && generation_fault(stored[k], name, now) is None,
    ensures
        first_usable(stored, current, name, now, from) matches Some(i) && from <= i <= k
            && stored[i].generation <= current && generation_fault(stored[i], name, now) is None,
    decreases stored.len() - from,
{
    if !(stored[from].generation <= current && generation_fault(stored[from], name, now) is None) {
        lemma_first_usable(stored, current, name, now, from + 1, k);
    }
}

proof fn lemma_found_usable(
    stored: Seq<StoredGeneration>,
    current: u64,
    name: Seq<char>,
    now: int,
    from: int,
)
    requires
        0 <= from,
    ensures
        first_usable(stored, current, name, now, from) matches Some(i) ==> from <= i < stored.len()
            && stored[i].generation <= current && generation_fault(stored[i], name, now) is None,
    decreases stored.len() - from,
{
    if from < stored.len() && !(stored[from].generation <= current && generation_fault(
        stored[from],
        name,
        now,
    ) is None) {
        lemma_found_usable(stored, current, name, now, from + 1);
    }
}

/// What is loaded is the first stored generation that is usable and not newer than the current
/// one. Without a current generation nothing is loaded.
pub proof fn law_first_usable_generation_is_loaded(
    store: CertStore,
    name: &str,
    current: Option<u64>,
    stored: Vec<StoredGeneration>,
    now: i64,
    k: int,
    each: Result<CertEntry, String>,
    r: Option<CertEntry>,
)
    requires
        now <= i64::MAX - 300,
        call_ensures(CertStore::load_current, (&store, name, current, &stored, now), r),
        0 <= k < stored@.len(),
        call_ensures(CertStore::load_generation, (&store, name, &stored@[k], now), each),
    ensures
        current is None ==> r is None,
        r matches Some(e) ==> e.generation is Some && e.generation->0 <= current->0 && e.name@
            == name@ && e.source is Acme,
        current is Some && stored@[k].generation <= current->0 && each is Ok ==> r is Some && exists|
            i: int,
        |
            0 <= i <= k && r->0.generation == Some((#[trigger] stored@[i]).generation),
        k == 0 && current is Some && stored@[0].generation <= current->0 && each is Ok
            ==> r->0.generation == Some(stored@[0].generation),
{
    if current is Some {
        lemma_found_usable(stored@, current->0, name@, now as int, 0);
        if stored@[k].generation <= current->0 && each is Ok {
            lemma_first_usable(stored@, current->0, name@, now as int, 0, k);
        }
    }
}

proof fn lemma_generations_are_named(files: Seq<Seq<char>>, n: u64)
    ensures
        descending(generations_of(files)),
        generations_of(files).contains(n) == (exists|i: int|
            0 <= i < files.len() && named_generation(#[trigger] files[i]) == Some(n as nat)),
    decreases files.len(),
{
    if files.len() > 0 {
        let front = files.drop_last();
        let last = files.len() - 1;
        lemma_generations_are_named(front, n);
        if let Some(m) = named_generation(files.last()) {
            lemma_placed(generations_of(front), m as u64);
            lemma_named_fits(files.last());
        }
        if exists|i: int|
            0 <= i < front.len() && named_generation(#[trigger] front[i]) == Some(n as nat) {
            let i = choose|i: int|
                0 <= i < front.len() && named_generation(#[trigger] front[i]) == Some(n as nat);
            assert(files[i] == front[i]);
        }
        if exists|i: int|
            0 <= i < files.len() && named_generation(#[trigger] files[i]) == Some(n as nat) {
            let i = choose|i: int|
                0 <= i < files.len() && named_generation(#[trigger] files[i]) == Some(n as nat);
            if i < last {
                assert(front[i] == files[i]);
            }
        }
        assert(files[last] == files.last());
    }
}

proof fn lemma_named_fits(file: Seq<char>)
    ensures
        named_generation(file) matches Some(n) ==> n <= u64::MAX,
{
}

/// A file `gen-` with a number is that generation; generations are listed from the newest to
/// the oldest.
pub proof fn law_generation_files_are_listed(
    store: CertStore,
    files: Vec<String>,
    r: Vec<u64>,
    n: u64,
    k: int,
    i: int,
    j: int,
)
    requires
        call_ensures(CertStore::generations, (&store, &files), r),
    ensures
        0 <= i < j < r@.len() ==> r@[i] >= r@[j],
        0 <= k < files@.len() && files@[k]@ == "gen-"@ + text::decimal(n as nat) ==> r@.contains(n),
        r@.len() > 0 ==> files@.len() > 0,
        0 <= i < r@.len() ==> exists|m: int|
            0 <= m < files@.len() && text::starts_with((#[trigger] files@[m])@, "gen-"@),
{
    let names = text::views(files@);
    lemma_generations_are_named(names, n);
    law_generation_reads_back(n);
    if 0 <= k < files@.len() && files@[k]@ == "gen-"@ + text::decimal(n as nat) {
        assert(names[k] == files@[k]@);
        assert(named_generation(names[k]) == Some(n as nat));
    }
    if 0 <= i < r@.len() {
        let g = r@[i];
        assert(r@.contains(g));
        lemma_generations_are_named(names, g);
        let m = choose|m: int|
            0 <= m < names.len() && named_generation(#[trigger] names[m]) == Some(g as nat);
        assert(names[m] == files@[m]@);
    }
}

/// The next generation is newer than every one that is there and than the current one, by one.
pub proof fn law_next_generation_follows(
    store: CertStore,
    files: Vec<String>,
    generations: Vec<u64>,
    current: Option<u64>,
    r: u64,
    g: u64,
    name: &str,
    allowed: Result<(), String>,
)
    requires
        newest(generations@, current) < u64::MAX,
        call_ensures(CertStore::generations, (&store, &files), generations),
        call_ensures(CertStore::next_generation, (&store, &generations, current), r),
        call_ensures(check_store, (name, r, current, false), allowed),
    ensures
        generations@.contains(g) ==> g < r,
        current is Some ==> current->0 < r,
        generations@.len() == 0 && current is None ==> r == 1,
        r == 1 || generations@.contains((r - 1) as u64) || current == Some((r - 1) as u64),
        allowed is Ok,
{
    if generations@.contains(g) {
        law_next_generation_is_newer(text::views(files@), current, g);
    }
    if generations@.len() > 0 {
        assert(generations@.contains(generations@[0]));
    }
}

/// A generation may be stored if and only if it is newer than the current one and not there.
pub proof fn law_only_newer_generations_may_be_stored(
    name: &str,
    generation: u64,
    current: Option<u64>,
    there: bool,
    r: Result<(), String>,
)
    requires
        call_ensures(check_store, (name, generation, current, there), r),
    ensures
        r is Ok == (!there && (current is None || current->0 < generation)),
{
}

proof fn lemma_at_most_keeps(generations: Seq<u64>, limit: int, i: int)
    requires
        0 <= i < generations.len(),
        generations[i] <= limit,
    ensures
        at_most(generations, limit).contains(generations[i]),
    decreases generations.len(),
{
    let front = generations.drop_last();
    let before = at_most(front, limit);
    let all = at_most(generations, limit);
    if i < front.len() {
        lemma_at_most_keeps(front, limit, i);
        let k = before.index_of(generations[i]);
        assert(all[k] == generations[i]);
    } else {
        assert(all[all.len() - 1] == generations[i]);
    }
}

/// Generations are loaded that are not newer than the current one, and all of those. Pruning
/// removes only generations older than the active one, keeps two of those, and removes nothing
/// where there are no more.
pub proof fn law_old_generations_are_pruned(
    store: CertStore,
    generations: Vec<u64>,
    active: u64,
    order: Vec<u64>,
    older: Vec<u64>,
    r: Vec<u64>,
    g: u64,
)
    requires
        active > 0,
        call_ensures(load_order, (&generations, active), order),
        call_ensures(load_order, (&generations, (active - 1) as u64), older),
        call_ensures(CertStore::prune, (&store, &generations, active), r),
    ensures
        order@.contains(g) == (generations@.contains(g) && g <= active),
        r@.contains(g) ==> g < active && generations@.contains(g),
        older@.len() <= 2 ==> r@.len() == 0,
        older@.len() > 2 ==> r@ == older@.skip(2),
{
    lemma_at_most(generations@, active as int, g);
    if generations@.contains(g) && g <= active {
        let i = generations@.index_of(g);
        lemma_at_most_keeps(generations@, active as int, i);
    }
    if r@.contains(g) {
        law_pruning_spares_the_active_generation(generations@, active, g);
    }
}

/// A pointer is a decimal number, whatever white space is around it; no pointer means that
/// nothing is current, and anything else is an error.
pub proof fn law_pointers_are_numbers(
    store: CertStore,
    name: &str,
    content: &str,
    whole: String,
    trimmed: String,
    n: u64,
    r: Option<u64>,
    current: Result<Option<u64>, String>,
    none: Result<Option<u64>, String>,
    unread: Result<Option<u64>, String>,
    why: String,
)
    requires
        whole@ == content@,
        call_ensures(pointer_generation, (content,), r),
        call_ensures(text::trim, (content,), trimmed),
        call_ensures(
            CertStore::current_generation,
            (&store, name, &Ok::<Option<String>, String>(Some(whole))),
            current,
        ),
        call_ensures(
            CertStore::current_generation,
            (&store, name, &Ok::<Option<String>, String>(None)),
            none,
        ),
        call_ensures(
            CertStore::current_generation,
            (&store, name, &Err::<Option<String>, String>(why)),
            unread,
        ),
    ensures
        trimmed@ == text::decimal(n as nat) ==> r == Some(n),
        r is Some ==> current == Ok::<Option<u64>, String>(r),
        r is None ==> current is Err,
        none == Ok::<Option<u64>, String>(None),
        unread is Err,
{
    law_generation_reads_back(n);
    let d = text::decimal(n as nat);
    text::lemma_digits_are_digits(n as nat, 10);
    text::law_digits_read_back(n as nat, 10);
    assert(text::digit_value(d[0], 16) is Some);
}

/// Every name has a directory of its own under the root, the star of a wildcard written out.
pub proof fn law_names_have_their_directory(
    root: &str,
    store: CertStore,
    name: &str,
    rest: Seq<char>,
    file: &str,
    dir: String,
    path: String,
)
    requires
        call_ensures(CertStore::open, (root,), store),
        call_ensures(CertStore::name_dir, (&store, name), dir),
        call_ensures(CertStore::path, (&store, name, file), path),
        root@.len() > 0 && root@.last() != '/',
        name@.len() > 0 && name@[0] != '/' && name@.last() != '/',
        file@.len() > 0 && file@[0] != '/',
    ensures
        name@ == seq!['*', '.'] + rest ==> dir@ == root@ + "/_wildcard."@ + rest,
        name@[0] != '*' ==> dir@ == root@ + seq!['/'] + name@,
        path@ == dir@ + seq!['/'] + file@,
{
    reveal_strlit("/");
    reveal_strlit("*.");
    reveal_strlit("_wildcard.");
    reveal_strlit("/_wildcard.");
    assert("/"@ =~= seq!['/']);
    assert("/_wildcard."@ =~= seq!['/'] + "_wildcard."@);
    let d = directory_of(name@);
    if text::starts_with(name@, "*."@) {
        assert(name@.take(2)[0] == '*');
        assert(d == "_wildcard."@ + name@.skip(2));
        assert(d[0] == '_');
        if name@.len() > 2 {
            assert(d.last() == name@.last());
        } else {
            assert(d.last() == '.');
        }
    }
    if name@ == seq!['*', '.'] + rest {
        assert(name@.take(2) =~= "*."@);
        assert(name@.skip(2) =~= rest);
        assert(dir@ =~= root@ + "/_wildcard."@ + rest);
    }
}

} // verus!
