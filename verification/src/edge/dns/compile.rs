//! From the DNS section of the configuration to the records that are desired.

use vstd::prelude::*;
use vstd::string::*;
use crate::edge::config::{
    DnsConfig, DnsProviderConfig, DnsProviderType, DnsRecordConfig, RecordState,
};
use crate::edge::dns::plan;
use crate::edge::dns::plan::{CompiledDns, DesiredRecord, DesiredView, ProviderSpec};
use crate::edge::dns::record;
use crate::edge::dns::record::{RecordSet, RecordSetView, RecordType};
use crate::hostname;
use crate::text;
use crate::text::{chars_of, quote, same_text, split_text, trim};
use crate::text_set;
use crate::text_set::TextSet;

verus! {

/// A [`ProviderSpec`] by the values that it holds.
#[verifier::ext_equal]
pub struct ProviderView {
    pub name: Seq<char>,
    pub kind: DnsProviderType,
    pub zone: Seq<char>,
    pub config: DnsProviderConfig,
}

impl View for ProviderSpec {
    type V = ProviderView;

    open spec fn view(&self) -> ProviderView {
        ProviderView {
            name: self.name@,
            kind: self.kind,
            zone: self.zone@,
            config: self.config,
        }
    }
}

/// A [`CompiledDns`] by the values that it holds.
#[verifier::ext_equal]
pub struct CompiledView {
    pub allowed_zones: Seq<Seq<char>>,
    pub providers: Seq<ProviderView>,
    pub records: Seq<DesiredView>,
}

pub open spec fn provider_views(v: Seq<ProviderSpec>) -> Seq<ProviderView> {
    v.map_values(|p: ProviderSpec| p@)
}

pub open spec fn desired_views(v: Seq<DesiredRecord>) -> Seq<DesiredView> {
    v.map_values(|d: DesiredRecord| d@)
}

impl View for CompiledDns {
    type V = CompiledView;

    open spec fn view(&self) -> CompiledView {
        CompiledView {
            allowed_zones: text::views(self.allowed_zones@),
            providers: provider_views(self.providers@),
            records: desired_views(self.records@),
        }
    }
}

/// The normal forms of the allowed zones, those from `i` on after `done`.
pub open spec fn normal_zones(
    zones: Seq<Seq<char>>,
    i: int,
    done: Seq<Seq<char>>,
) -> Result<Seq<Seq<char>>, Seq<char>>
    decreases zones.len() - i,
{
    if i >= zones.len() {
        Ok(done)
    } else {
        match hostname::normalized(zones[i], false, false) {
            Ok(zone) => normal_zones(zones, i + 1, done.push(zone)),
            Err(e) => Err(
                "dns.allowed_zones: invalid zone "@ + text::quoted(zones[i]) + ": "@ + e,
            ),
        }
    }
}

/// The characters of a provider name.
pub open spec fn provider_char(c: char) -> bool {
    'a' <= c <= 'z' || text::is_digit(c) || c == '-' || c == '_'
}

pub open spec fn is_provider_name(s: Seq<char>) -> bool {
    s.len() > 0 && forall|i: int| 0 <= i < s.len() ==> provider_char(#[trigger] s[i])
}

/// Whether a setting is there and not blank.
pub open spec fn is_set(value: Option<String>) -> bool {
    value is Some && text::trimmed(value->0@).len() > 0
}

/// Whether some allowed zone holds `zone`.
pub open spec fn is_allowed(zone: Seq<char>, allowed: Seq<Seq<char>>) -> bool {
    exists|i: int| 0 <= i < allowed.len() && hostname::within_zone(zone, #[trigger] allowed[i])
}

/// The start of what is said of a provider.
pub open spec fn of_provider(name: Seq<char>) -> Seq<char> {
    "dns.providers["@ + name + "]"@
}

/// What is wrong with the settings of a provider, apart from name and zone.
pub open spec fn settings_fault(p: DnsProviderConfig) -> Option<Seq<char>> {
    match p.kind {
        DnsProviderType::Cloudflare => if !is_set(p.zone_id) {
            Some(": cloudflare requires zone_id"@)
        } else if is_set(p.api_token_env) == is_set(p.api_token_file) {
            Some(": set exactly one of api_token_env or api_token_file"@)
        } else if p.hosted_zone_id is Some || p.endpoint_url is Some || p.region is Some {
            Some(": hosted_zone_id/endpoint_url/region are Route 53 settings"@)
        } else if p.request_timeout_secs == 0 {
            Some(": request_timeout_secs must be greater than 0"@)
        } else {
            None
        },
        DnsProviderType::Route53 => if !is_set(p.hosted_zone_id) {
            Some(": route53 requires hosted_zone_id"@)
        } else if p.zone_id is Some || p.api_token_env is Some || p.api_token_file is Some
            || p.api_base_url is Some {
            Some(
                ": zone_id/api_token_*/api_base_url are Cloudflare settings; Route 53 uses the AWS credential chain"@,
            )
        } else if p.request_timeout_secs == 0 {
            Some(": request_timeout_secs must be greater than 0"@)
        } else {
            None
        },
    }
}

/// A provider after the ones before it, or what is wrong with it.
pub open spec fn provider_outcome(
    p: DnsProviderConfig,
    allowed: Seq<Seq<char>>,
    earlier: Seq<ProviderView>,
) -> Result<ProviderView, Seq<char>> {
    let name = text::trimmed(p.name@);
    if !is_provider_name(name) {
        Err(
            "dns.providers: name "@ + text::quoted(name)
                + " must be lowercase letters, digits, '-' or '_'"@,
        )
    } else if exists|i: int| 0 <= i < earlier.len() && (#[trigger] earlier[i]).name == name {
        Err("dns.providers: duplicate provider name "@ + name)
    } else {
        match hostname::normalized(p.zone@, false, false) {
            Err(e) => Err(of_provider(name) + ": invalid zone: "@ + e),
            Ok(zone) => if !is_allowed(zone, allowed) {
                Err(of_provider(name) + ": zone "@ + zone + " is not inside dns.allowed_zones"@)
            } else {
                match settings_fault(p) {
                    Some(e) => Err(of_provider(name) + e),
                    None => Ok(ProviderView { name, kind: p.kind, zone, config: p }),
                }
            },
        }
    }
}

/// The providers from `i` on after those that are done.
pub open spec fn providers_outcome(
    providers: Seq<DnsProviderConfig>,
    allowed: Seq<Seq<char>>,
    i: int,
    done: Seq<ProviderView>,
) -> Result<Seq<ProviderView>, Seq<char>>
    decreases providers.len() - i,
{
    if i >= providers.len() {
        Ok(done)
    } else {
        match provider_outcome(providers[i], allowed, done) {
            Ok(p) => providers_outcome(providers, allowed, i + 1, done.push(p)),
            Err(e) => Err(e),
        }
    }
}

/// The first provider at or after `i` with the given name.
pub open spec fn provider_named(providers: Seq<ProviderView>, name: Seq<char>, i: int) -> Option<
    int,
>
    decreases providers.len() - i,
{
    if i >= providers.len() {
        None
    } else if providers[i].name == name {
        Some(i)
    } else {
        provider_named(providers, name, i + 1)
    }
}

/// The canonical values from `i` on, added to those that are done.
pub open spec fn canonical_values(
    t: RecordType,
    values: Seq<Seq<char>>,
    i: int,
    done: Seq<Seq<char>>,
) -> Result<Seq<Seq<char>>, Seq<char>>
    decreases values.len() - i,
{
    if i >= values.len() {
        Ok(done)
    } else {
        match record::canonical(t, values[i]) {
            Ok(v) => canonical_values(t, values, i + 1, text_set::inserted(done, v)),
            Err(e) => Err(e),
        }
    }
}

/// The start of what is said of a record.
pub open spec fn of_record(name: Seq<char>, t: RecordType) -> Seq<char> {
    "dns.records["@ + name + " "@ + record::record_type_name(t) + "]"@
}

/// What is wrong with a record whose name and values are good.
pub open spec fn record_fault(
    r: DnsRecordConfig,
    name: Seq<char>,
    count: nat,
    provider: ProviderView,
    earlier: Seq<DesiredView>,
) -> Option<Seq<char>> {
    if r.state == RecordState::Present && count == 0 {
        Some(": at least one value is required"@)
    } else if r.record_type == RecordType::Cname && count > 1 {
        Some(": CNAME must have exactly one value"@)
    } else if r.record_type == RecordType::Cname && name == provider.zone && provider.kind
        == DnsProviderType::Route53 {
        Some(": Route 53 does not allow a CNAME at the zone apex"@)
    } else if provider.kind == DnsProviderType::Cloudflare && !(r.ttl == 1 || 60 <= r.ttl
        <= 86400) {
        Some(": Cloudflare TTL must be 1 (automatic) or between 60 and 86400"@)
    } else if provider.kind == DnsProviderType::Route53 && !(1 <= r.ttl <= 604800) {
        Some(": TTL must be between 1 and 604800"@)
    } else if r.proxied is Some && provider.kind != DnsProviderType::Cloudflare {
        Some(": proxied is only supported by Cloudflare"@)
    } else if r.proxied == Some(true) && r.record_type == RecordType::Txt {
        Some(": TXT records cannot be proxied"@)
    } else if r.proxied == Some(true) && r.ttl != 1 {
        Some(": proxied records must use ttl = 1"@)
    } else if exists|i: int|
        0 <= i < earlier.len() && (#[trigger] earlier[i]).provider == provider.name
            && earlier[i].set.name == name && earlier[i].set.record_type == r.record_type {
        Some(": duplicate record"@)
    } else {
        None
    }
}

/// A record after the ones before it, or what is wrong with it.
pub open spec fn record_outcome(
    r: DnsRecordConfig,
    providers: Seq<ProviderView>,
    earlier: Seq<DesiredView>,
) -> Result<DesiredView, Seq<char>> {
    match provider_named(providers, r.provider@, 0) {
        None => Err("dns.records: unknown provider "@ + text::quoted(r.provider@)),
        Some(k) => match hostname::normalized(r.name@, true, true) {
            Err(e) => Err("dns.records: invalid name "@ + text::quoted(r.name@) + ": "@ + e),
            Ok(name) => {
                let provider = providers[k];
                let field = of_record(name, r.record_type);
                if !hostname::within_zone(name, provider.zone) {
                    Err(
                        field + ": name is outside zone "@ + provider.zone + " of provider "@
                            + provider.name,
                    )
                } else if text::split(name, '.')[0] == plan::acme_challenge_label() {
                    Err(
                        field + ": "@ + plan::acme_challenge_label()
                            + " records are reserved for ACME DNS-01"@,
                    )
                } else {
                    match canonical_values(r.record_type, text::views(r.values@), 0, Seq::empty()) {
                        Err(e) => Err(field + ": "@ + e),
                        Ok(values) => match record_fault(
                            r,
                            name,
                            values.len(),
                            provider,
                            earlier,
                        ) {
                            Some(e) => Err(field + e),
                            None => Ok(
                                DesiredView {
                                    provider: provider.name,
                                    set: RecordSetView {
                                        name,
                                        record_type: r.record_type,
                                        ttl: r.ttl,
                                        values,
                                        proxied: r.proxied,
                                    },
                                    import: r.import,
                                    absent: r.state == RecordState::Absent,
                                },
                            ),
                        },
                    }
                }
            },
        },
    }
}

/// The records from `i` on after those that are done.
pub open spec fn records_outcome(
    records: Seq<DnsRecordConfig>,
    providers: Seq<ProviderView>,
    i: int,
    done: Seq<DesiredView>,
) -> Result<Seq<DesiredView>, Seq<char>>
    decreases records.len() - i,
{
    if i >= records.len() {
        Ok(done)
    } else {
        match record_outcome(records[i], providers, done) {
            Ok(d) => records_outcome(records, providers, i + 1, done.push(d)),
            Err(e) => Err(e),
        }
    }
}

/// Whether the record at `i` is a CNAME beside which another record of the same
/// name is wanted.
pub open spec fn cname_clash(records: Seq<DesiredView>, i: int) -> bool {
    &&& !records[i].absent
    &&& records[i].set.record_type == RecordType::Cname
    &&& exists|j: int|
        0 <= j < records.len() && j != i && !(#[trigger] records[j]).absent && records[j].provider
            == records[i].provider && records[j].set.name == records[i].set.name
}

/// The first such record at or after `i`.
pub open spec fn first_clash(records: Seq<DesiredView>, i: int) -> Option<int>
    decreases records.len() - i,
{
    if i >= records.len() {
        None
    } else if cname_clash(records, i) {
        Some(i)
    } else {
        first_clash(records, i + 1)
    }
}

/// What the DNS section stands for, or the first thing that is wrong with it.
pub open spec fn compiled(cfg: DnsConfig) -> Result<CompiledView, Seq<char>> {
    match normal_zones(text::views(cfg.allowed_zones@), 0, Seq::empty()) {
        Err(e) => Err(e),
        Ok(zones) => if zones.len() == 0 {
            Err("dns.allowed_zones must list the zones Sieve Tube may modify"@)
        } else {
            match providers_outcome(cfg.providers@, zones, 0, Seq::empty()) {
                Err(e) => Err(e),
                Ok(providers) => match records_outcome(
                    cfg.records@,
                    providers,
                    0,
                    Seq::empty(),
                ) {
                    Err(e) => Err(e),
                    Ok(records) => match first_clash(records, 0) {
                        Some(i) => Err(
                            "dns.records: "@ + records[i].set.name
                                + " has a CNAME and other record types"@,
                        ),
                        None => Ok(CompiledView { allowed_zones: zones, providers, records }),
                    },
                },
            }
        },
    }
}

fn compile_zones(zones: &Vec<String>) -> (r: Result<Vec<String>, String>)
    ensures
        match r {
            Ok(v) => normal_zones(text::views(zones@), 0, Seq::empty()) == Ok::<
                Seq<Seq<char>>,
                Seq<char>,
            >(text::views(v@)),
            Err(e) => normal_zones(text::views(zones@), 0, Seq::empty()) == Err::<
                Seq<Seq<char>>,
                Seq<char>,
            >(e@),
        },
{
    let ghost all = text::views(zones@);
    let mut done: Vec<String> = Vec::new();
    let mut i: usize = 0;
    assert(text::views(done@) =~= Seq::<Seq<char>>::empty());
    while i < zones.len()
        invariant
            i <= zones.len(),
            all == text::views(zones@),
            normal_zones(all, 0, Seq::empty()) == normal_zones(all, i as int, text::views(done@)),
        decreases zones.len() - i,
    {
        let ghost before = text::views(done@);
        match hostname::normalize_hostname(zones[i].as_str()) {
            Ok(zone) => {
                let ghost z = zone@;
                done.push(zone);
                assert(text::views(done@) =~= before.push(z));
            },
            Err(e) => {
                let mut m: String = "dns.allowed_zones: invalid zone ".to_owned();
                m.append(quote(zones[i].as_str()).as_str());
                m.append(": ");
                m.append(e.text.as_str());
                return Err(m);
            },
        }
        i += 1;
    }
    Ok(done)
}

fn check_provider_name(s: &str) -> (r: bool)
    ensures
        r == is_provider_name(s@),
{
    let v: Vec<char> = chars_of(s);
    if v.len() == 0 {
        return false;
    }
    let mut i: usize = 0;
    while i < v.len()
        invariant
            i <= v.len(),
            v@ == s@,
            forall|j: int| 0 <= j < i ==> provider_char(#[trigger] s@[j]),
        decreases v.len() - i,
    {
        let c: char = v[i];
        let ok: bool = ('a' <= c && c <= 'z') || ('0' <= c && c <= '9') || c == '-' || c == '_';
        if !ok {
            assert(!provider_char(s@[i as int]));
            return false;
        }
        i += 1;
    }
    true
}

fn field_set(value: &Option<String>) -> (r: bool)
    ensures
        r == is_set(*value),
{
    match value {
        Some(v) => !trim(v.as_str()).as_str().is_empty(),
        None => false,
    }
}

fn check_allowed(zone: &str, allowed: &Vec<String>) -> (r: bool)
    ensures
        r == is_allowed(zone@, text::views(allowed@)),
{
    let ghost all = text::views(allowed@);
    let mut i: usize = 0;
    while i < allowed.len()
        invariant
            i <= allowed.len(),
            all == text::views(allowed@),
            forall|j: int| 0 <= j < i ==> !hostname::within_zone(zone@, #[trigger] all[j]),
        decreases allowed.len() - i,
    {
        if hostname::is_within_zone(zone, allowed[i].as_str()) {
            assert(hostname::within_zone(zone@, all[i as int]));
            return true;
        }
        i += 1;
    }
    false
}

fn check_settings(p: &DnsProviderConfig) -> (r: Option<&'static str>)
    ensures
        match r {
            Some(e) => settings_fault(*p) == Some(e@),
            None => settings_fault(*p) is None,
        },
{
    match p.kind {
        DnsProviderType::Cloudflare => {
            if !field_set(&p.zone_id) {
                return Some(": cloudflare requires zone_id");
            }
            if field_set(&p.api_token_env) == field_set(&p.api_token_file) {
                return Some(": set exactly one of api_token_env or api_token_file");
            }
            if p.hosted_zone_id.is_some() || p.endpoint_url.is_some() || p.region.is_some() {
                return Some(": hosted_zone_id/endpoint_url/region are Route 53 settings");
            }
        },
        DnsProviderType::Route53 => {
            if !field_set(&p.hosted_zone_id) {
                return Some(": route53 requires hosted_zone_id");
            }
            if p.zone_id.is_some() || p.api_token_env.is_some() || p.api_token_file.is_some()
                || p.api_base_url.is_some() {
                return Some(
                    ": zone_id/api_token_*/api_base_url are Cloudflare settings; Route 53 uses the AWS credential chain",
                );
            }
        },
    }
    if p.request_timeout_secs == 0 {
        return Some(": request_timeout_secs must be greater than 0");
    }
    None
}

fn provider_prefix(name: &str) -> (r: String)
    ensures
        r@ == of_provider(name@),
{
    let mut m: String = "dns.providers[".to_owned();
    m.append(name);
    m.append("]");
    m
}

fn name_taken(providers: &Vec<ProviderSpec>, name: &str) -> (r: bool)
    ensures
        r == exists|i: int|
            0 <= i < providers@.len() && (#[trigger] provider_views(providers@)[i]).name == name@,
{
    let ghost all = provider_views(providers@);
    let mut i: usize = 0;
    while i < providers.len()
        invariant
            i <= providers.len(),
            all == provider_views(providers@),
            forall|j: int| 0 <= j < i ==> (#[trigger] all[j]).name != name@,
        decreases providers.len() - i,
    {
        if same_text(providers[i].name.as_str(), name) {
            assert(all[i as int].name == name@);
            return true;
        }
        i += 1;
    }
    false
}

fn compile_provider(p: &DnsProviderConfig, allowed: &Vec<String>, done: &Vec<ProviderSpec>) -> (r:
    Result<ProviderSpec, String>)
    ensures
        match r {
            Ok(s) => provider_outcome(*p, text::views(allowed@), provider_views(done@)) == Ok::<
                ProviderView,
                Seq<char>,
            >(s@),
            Err(e) => provider_outcome(*p, text::views(allowed@), provider_views(done@)) == Err::<
                ProviderView,
                Seq<char>,
            >(e@),
        },
{
    let name: String = trim(p.name.as_str());
    if !check_provider_name(name.as_str()) {
        let mut m: String = "dns.providers: name ".to_owned();
        m.append(quote(name.as_str()).as_str());
        m.append(" must be lowercase letters, digits, '-' or '_'");
        return Err(m);
    }
    if name_taken(done, name.as_str()) {
        return Err("dns.providers: duplicate provider name ".to_owned().concat(name.as_str()));
    }
    let zone: String = match hostname::normalize_hostname(p.zone.as_str()) {
        Ok(zone) => zone,
        Err(e) => {
            let mut m: String = provider_prefix(name.as_str());
            m.append(": invalid zone: ");
            m.append(e.text.as_str());
            return Err(m);
        },
    };
    if !check_allowed(zone.as_str(), allowed) {
        let mut m: String = provider_prefix(name.as_str());
        m.append(": zone ");
        m.append(zone.as_str());
        m.append(" is not inside dns.allowed_zones");
        return Err(m);
    }
    if let Some(e) = check_settings(p) {
        let mut m: String = provider_prefix(name.as_str());
        m.append(e);
        return Err(m);
    }
    Ok(ProviderSpec { name, kind: p.kind, zone, config: p.clone() })
}

fn compile_providers(providers: &Vec<DnsProviderConfig>, allowed: &Vec<String>) -> (r: Result<
    Vec<ProviderSpec>,
    String,
>)
    ensures
        match r {
            Ok(v) => providers_outcome(
                providers@,
                text::views(allowed@),
                0,
                Seq::empty(),
            ) == Ok::<Seq<ProviderView>, Seq<char>>(provider_views(v@)),
            Err(e) => providers_outcome(
                providers@,
                text::views(allowed@),
                0,
                Seq::empty(),
            ) == Err::<Seq<ProviderView>, Seq<char>>(e@),
        },
{
    let ghost zones = text::views(allowed@);
    let mut done: Vec<ProviderSpec> = Vec::new();
    let mut i: usize = 0;
    assert(provider_views(done@) =~= Seq::<ProviderView>::empty());
    while i < providers.len()
        invariant
            i <= providers.len(),
            zones == text::views(allowed@),
            providers_outcome(providers@, zones, 0, Seq::empty()) == providers_outcome(
                providers@,
                zones,
                i as int,
                provider_views(done@),
            ),
        decreases providers.len() - i,
    {
        let ghost before = provider_views(done@);
        match compile_provider(&providers[i], allowed, &done) {
            Ok(p) => {
                let ghost v = p@;
                done.push(p);
                assert(provider_views(done@) =~= before.push(v));
            },
            Err(e) => {
                return Err(e);
            },
        }
        i += 1;
    }
    Ok(done)
}

fn find_provider(providers: &Vec<ProviderSpec>, name: &str) -> (r: Option<usize>)
    ensures
        match r {
            Some(k) => k < providers.len() && provider_named(
                provider_views(providers@),
                name@,
                0,
            ) == Some(k as int),
            None => provider_named(provider_views(providers@), name@, 0) is None,
        },
{
    let ghost all = provider_views(providers@);
    let mut i: usize = 0;
    while i < providers.len()
        invariant
            i <= providers.len(),
            all == provider_views(providers@),
            provider_named(all, name@, 0) == provider_named(all, name@, i as int),
        decreases providers.len() - i,
    {
        if same_text(providers[i].name.as_str(), name) {
            assert(all[i as int].name == name@);
            return Some(i);
        }
        i += 1;
    }
    None
}

fn compile_values(t: RecordType, values: &Vec<String>) -> (r: Result<TextSet, String>)
    ensures
        match r {
            Ok(v) => canonical_values(t, text::views(values@), 0, Seq::empty()) == Ok::<
                Seq<Seq<char>>,
                Seq<char>,
            >(v@),
            Err(e) => canonical_values(t, text::views(values@), 0, Seq::empty()) == Err::<
                Seq<Seq<char>>,
                Seq<char>,
            >(e@),
        },
{
    let ghost all = text::views(values@);
    let mut done: TextSet = TextSet::new();
    let mut i: usize = 0;
    while i < values.len()
        invariant
            i <= values.len(),
            all == text::views(values@),
            canonical_values(t, all, 0, Seq::empty()) == canonical_values(t, all, i as int, done@),
        decreases values.len() - i,
    {
        match t.normalize_value(values[i].as_str()) {
            Ok(v) => {
                done.insert(v);
            },
            Err(e) => {
                return Err(e);
            },
        }
        i += 1;
    }
    Ok(done)
}

fn is_duplicate(done: &Vec<DesiredRecord>, provider: &str, name: &str, t: RecordType) -> (r: bool)
    ensures
        r == exists|i: int|
            0 <= i < done@.len() && (#[trigger] desired_views(done@)[i]).provider == provider@
                && desired_views(done@)[i].set.name == name@
                && desired_views(done@)[i].set.record_type == t,
{
    let ghost all = desired_views(done@);
    let mut i: usize = 0;
    while i < done.len()
        invariant
            i <= done.len(),
            all == desired_views(done@),
            forall|j: int|
                0 <= j < i ==> !((#[trigger] all[j]).provider == provider@ && all[j].set.name
                    == name@ && all[j].set.record_type == t),
        decreases done.len() - i,
    {
        let d: &DesiredRecord = &done[i];
        if same_text(d.provider.as_str(), provider) && same_text(d.set.name.as_str(), name)
            && d.set.record_type == t {
            assert(all[i as int].provider == provider@);
            return true;
        }
        i += 1;
    }
    false
}

fn check_record(
    r: &DnsRecordConfig,
    name: &str,
    count: usize,
    provider: &ProviderSpec,
    done: &Vec<DesiredRecord>,
) -> (e: Option<&'static str>)
    ensures
        match e {
            Some(e) => record_fault(*r, name@, count as nat, provider@, desired_views(done@))
                == Some(e@),
            None => record_fault(
                *r,
                name@,
                count as nat,
                provider@,
                desired_views(done@),
            ) is None,
        },
{
    if r.state == RecordState::Present && count == 0 {
        return Some(": at least one value is required");
    }
    if r.record_type == RecordType::Cname && count > 1 {
        return Some(": CNAME must have exactly one value");
    }
    if r.record_type == RecordType::Cname && provider.kind == DnsProviderType::Route53
        && same_text(name, provider.zone.as_str()) {
        return Some(": Route 53 does not allow a CNAME at the zone apex");
    }
    if provider.kind == DnsProviderType::Cloudflare && !(r.ttl == 1 || (60 <= r.ttl && r.ttl
        <= 86400)) {
        return Some(": Cloudflare TTL must be 1 (automatic) or between 60 and 86400");
    }
    if provider.kind == DnsProviderType::Route53 && !(1 <= r.ttl && r.ttl <= 604800) {
        return Some(": TTL must be between 1 and 604800");
    }
    if let Some(proxied) = r.proxied {
        if provider.kind != DnsProviderType::Cloudflare {
            return Some(": proxied is only supported by Cloudflare");
        }
        if proxied && r.record_type == RecordType::Txt {
            return Some(": TXT records cannot be proxied");
        }
        if proxied && r.ttl != 1 {
            return Some(": proxied records must use ttl = 1");
        }
    }
    if is_duplicate(done, provider.name.as_str(), name, r.record_type) {
        return Some(": duplicate record");
    }
    None
}

fn record_prefix(name: &str, t: RecordType) -> (r: String)
    ensures
        r@ == of_record(name@, t),
{
    let mut m: String = "dns.records[".to_owned();
    m.append(name);
    m.append(" ");
    m.append(t.as_str());
    m.append("]");
    m
}

fn compile_record(
    r: &DnsRecordConfig,
    providers: &Vec<ProviderSpec>,
    done: &Vec<DesiredRecord>,
) -> (out: Result<DesiredRecord, String>)
    ensures
        match out {
            Ok(d) => record_outcome(*r, provider_views(providers@), desired_views(done@)) == Ok::<
                DesiredView,
                Seq<char>,
            >(d@),
            Err(e) => record_outcome(*r, provider_views(providers@), desired_views(done@)) == Err::<
                DesiredView,
                Seq<char>,
            >(e@),
        },
{
    let spec: &ProviderSpec = match find_provider(providers, r.provider.as_str()) {
        Some(k) => {
            assert(provider_views(providers@)[k as int] == providers@[k as int]@);
            &providers[k]
        },
        None => {
            return Err(
                "dns.records: unknown provider ".to_owned().concat(
                    quote(r.provider.as_str()).as_str(),
                ),
            );
        },
    };
    let name: String = match hostname::normalize_dns_name(r.name.as_str()) {
        Ok(name) => name,
        Err(e) => {
            let mut m: String = "dns.records: invalid name ".to_owned();
            m.append(quote(r.name.as_str()).as_str());
            m.append(": ");
            m.append(e.text.as_str());
            return Err(m);
        },
    };
    if !hostname::is_within_zone(name.as_str(), spec.zone.as_str()) {
        let mut m: String = record_prefix(name.as_str(), r.record_type);
        m.append(": name is outside zone ");
        m.append(spec.zone.as_str());
        m.append(" of provider ");
        m.append(spec.name.as_str());
        return Err(m);
    }
    let labels: Vec<String> = split_text(name.as_str(), '.');
    assert(text::views(labels@)[0] == labels@[0]@);
    if same_text(labels[0].as_str(), "_acme-challenge") {
        let mut m: String = record_prefix(name.as_str(), r.record_type);
        m.append(": ");
        m.append("_acme-challenge");
        m.append(" records are reserved for ACME DNS-01");
        return Err(m);
    }
    let values: TextSet = match compile_values(r.record_type, &r.values) {
        Ok(values) => values,
        Err(e) => {
            let mut m: String = record_prefix(name.as_str(), r.record_type);
            m.append(": ");
            m.append(e.as_str());
            return Err(m);
        },
    };
    if let Some(e) = check_record(r, name.as_str(), values.len(), spec, done) {
        let mut m: String = record_prefix(name.as_str(), r.record_type);
        m.append(e);
        return Err(m);
    }
    Ok(
        DesiredRecord {
            provider: spec.name.clone(),
            set: RecordSet {
                name,
                record_type: r.record_type,
                ttl: r.ttl,
                values,
                proxied: r.proxied,
            },
            import: r.import,
            absent: r.state == RecordState::Absent,
        },
    )
}

fn compile_records(records: &Vec<DnsRecordConfig>, providers: &Vec<ProviderSpec>) -> (r: Result<
    Vec<DesiredRecord>,
    String,
>)
    ensures
        match r {
            Ok(v) => records_outcome(
                records@,
                provider_views(providers@),
                0,
                Seq::empty(),
            ) == Ok::<Seq<DesiredView>, Seq<char>>(desired_views(v@)),
            Err(e) => records_outcome(
                records@,
                provider_views(providers@),
                0,
                Seq::empty(),
            ) == Err::<Seq<DesiredView>, Seq<char>>(e@),
        },
{
    let ghost all = provider_views(providers@);
    let mut done: Vec<DesiredRecord> = Vec::new();
    let mut i: usize = 0;
    assert(desired_views(done@) =~= Seq::<DesiredView>::empty());
    while i < records.len()
        invariant
            i <= records.len(),
            all == provider_views(providers@),
            records_outcome(records@, all, 0, Seq::empty()) == records_outcome(
                records@,
                all,
                i as int,
                desired_views(done@),
            ),
        decreases records.len() - i,
    {
        let ghost before = desired_views(done@);
        match compile_record(&records[i], providers, &done) {
            Ok(d) => {
                let ghost v = d@;
                done.push(d);
                assert(desired_views(done@) =~= before.push(v));
            },
            Err(e) => {
                return Err(e);
            },
        }
        i += 1;
    }
    Ok(done)
}

fn clashes(records: &Vec<DesiredRecord>, i: usize) -> (r: bool)
    requires
        i < records.len(),
    ensures
        r == cname_clash(desired_views(records@), i as int),
{
    let ghost all = desired_views(records@);
    let d: &DesiredRecord = &records[i];
    assert(all[i as int] == d@);
    if d.absent || d.set.record_type != RecordType::Cname {
        return false;
    }
    let mut j: usize = 0;
    while j < records.len()
        invariant
            j <= records.len(),
            all == desired_views(records@),
            forall|k: int|
                0 <= k < j && k != i ==> !(!(#[trigger] all[k]).absent && all[k].provider
                    == all[i as int].provider && all[k].set.name == all[i as int].set.name),
        decreases records.len() - j,
    {
        let other: &DesiredRecord = &records[j];
        if j != i && !other.absent && same_text(other.provider.as_str(), d.provider.as_str())
            && same_text(other.set.name.as_str(), d.set.name.as_str()) {
            assert(all[j as int].provider == d.provider@);
            return true;
        }
        j += 1;
    }
    false
}

/// Validate the DNS section against the allowed zones and provider constraints.
pub fn compile(cfg: &DnsConfig) -> (r: Result<CompiledDns, String>)
    ensures
        match r {
            Ok(c) => compiled(*cfg) == Ok::<CompiledView, Seq<char>>(c@),
            Err(e) => compiled(*cfg) == Err::<CompiledView, Seq<char>>(e@),
        },
{
    let allowed_zones: Vec<String> = match compile_zones(&cfg.allowed_zones) {
        Ok(zones) => zones,
        Err(e) => {
            return Err(e);
        },
    };
    assert(text::views(allowed_zones@).len() == allowed_zones.len());
    if allowed_zones.len() == 0 {
        return Err("dns.allowed_zones must list the zones Sieve Tube may modify".to_owned());
    }
    let providers: Vec<ProviderSpec> = match compile_providers(&cfg.providers, &allowed_zones) {
        Ok(providers) => providers,
        Err(e) => {
            return Err(e);
        },
    };
    let records: Vec<DesiredRecord> = match compile_records(&cfg.records, &providers) {
        Ok(records) => records,
        Err(e) => {
            return Err(e);
        },
    };
    let ghost all = desired_views(records@);
    let mut i: usize = 0;
    while i < records.len()
        invariant
            i <= records.len(),
            all == desired_views(records@),
            first_clash(all, 0) == first_clash(all, i as int),
        decreases records.len() - i,
    {
        if clashes(&records, i) {
            let mut m: String = "dns.records: ".to_owned();
            m.append(records[i].set.name.as_str());
            m.append(" has a CNAME and other record types");
            return Err(m);
        }
        i += 1;
    }
    Ok(CompiledDns { allowed_zones, providers, records })
}

/// Every compiled record lies in the zone of its provider, and every provider's
/// zone in an allowed zone: nothing outside the allowed zones is ever managed.
pub proof fn law_records_lie_in_allowed_zones(cfg: DnsConfig, i: int)
    requires
        compiled(cfg) is Ok,
        0 <= i < compiled(cfg)->Ok_0.records.len(),
    ensures
        ({
            let c = compiled(cfg)->Ok_0;
            exists|k: int|
                0 <= k < c.providers.len() && (#[trigger] c.providers[k]).name
                    == c.records[i].provider && hostname::within_zone(
                    c.records[i].set.name,
                    c.providers[k].zone,
                ) && is_allowed(c.providers[k].zone, c.allowed_zones)
        }),
{
    let c = compiled(cfg)->Ok_0;
    lemma_records_in_zone(cfg.records@, c.providers, 0, Seq::empty(), i);
    lemma_providers_allowed(cfg.providers@, c.allowed_zones, 0, Seq::empty());
}

proof fn lemma_records_in_zone(
    records: Seq<DnsRecordConfig>,
    providers: Seq<ProviderView>,
    i: int,
    done: Seq<DesiredView>,
    at: int,
)
    requires
        0 <= i,
        records_outcome(records, providers, i, done) is Ok,
        forall|j: int| 0 <= j < done.len() ==> in_some_zone(#[trigger] done[j], providers),
        0 <= at < records_outcome(records, providers, i, done)->Ok_0.len(),
    ensures
        in_some_zone(records_outcome(records, providers, i, done)->Ok_0[at], providers),
    decreases records.len() - i,
{
    if i < records.len() {
        let d = record_outcome(records[i], providers, done)->Ok_0;
        lemma_provider_named(providers, records[i].provider@, 0);
        let k = provider_named(providers, records[i].provider@, 0)->0;
        assert(providers[k].name == d.provider);
        assert(in_some_zone(d, providers));
        lemma_records_in_zone(records, providers, i + 1, done.push(d), at);
    }
}

spec fn in_some_zone(d: DesiredView, providers: Seq<ProviderView>) -> bool {
    exists|k: int|
        0 <= k < providers.len() && (#[trigger] providers[k]).name == d.provider
            && hostname::within_zone(d.set.name, providers[k].zone)
}

proof fn lemma_provider_named(providers: Seq<ProviderView>, name: Seq<char>, i: int)
    requires
        0 <= i,
    ensures
        match provider_named(providers, name, i) {
            Some(k) => i <= k < providers.len() && providers[k].name == name,
            None => true,
        },
    decreases providers.len() - i,
{
    if i < providers.len() && providers[i].name != name {
        lemma_provider_named(providers, name, i + 1);
    }
}

proof fn lemma_providers_allowed(
    providers: Seq<DnsProviderConfig>,
    allowed: Seq<Seq<char>>,
    i: int,
    done: Seq<ProviderView>,
)
    requires
        0 <= i,
        providers_outcome(providers, allowed, i, done) is Ok,
        forall|j: int| 0 <= j < done.len() ==> is_allowed((#[trigger] done[j]).zone, allowed),
    ensures
        ({
            let all = providers_outcome(providers, allowed, i, done)->Ok_0;
            forall|j: int| 0 <= j < all.len() ==> is_allowed((#[trigger] all[j]).zone, allowed)
        }),
    decreases providers.len() - i,
{
    if i < providers.len() {
        let p = provider_outcome(providers[i], allowed, done)->Ok_0;
        lemma_providers_allowed(providers, allowed, i + 1, done.push(p));
    }
}

proof fn lemma_one_zone_more(
    zones: Seq<Seq<char>>,
    zone: Seq<char>,
    i: int,
    done: Seq<Seq<char>>,
)
    requires
        0 <= i <= zones.len(),
    ensures
        normal_zones(zones.push(zone), i, done) == match normal_zones(zones, i, done) {
            Err(e) => Err(e),
            Ok(list) => match hostname::normalized(zone, false, false) {
                Ok(z) => Ok(list.push(z)),
                Err(e) => Err(
                    "dns.allowed_zones: invalid zone "@ + text::quoted(zone) + ": "@ + e,
                ),
            },
        },
    decreases zones.len() - i,
{
    let more = zones.push(zone);
    reveal_with_fuel(normal_zones, 2);
    if i < zones.len() {
        assert(more[i] == zones[i]);
        if let Ok(z) = hostname::normalized(zones[i], false, false) {
            lemma_one_zone_more(zones, zone, i + 1, done.push(z));
        }
    } else {
        assert(more[i] == zone);
    }
}

proof fn lemma_one_provider_more(
    providers: Seq<DnsProviderConfig>,
    p: DnsProviderConfig,
    allowed: Seq<Seq<char>>,
    i: int,
    done: Seq<ProviderView>,
)
    requires
        0 <= i <= providers.len(),
    ensures
        providers_outcome(providers.push(p), allowed, i, done) == match providers_outcome(
            providers,
            allowed,
            i,
            done,
        ) {
            Err(e) => Err(e),
            Ok(list) => match provider_outcome(p, allowed, list) {
                Ok(v) => Ok(list.push(v)),
                Err(e) => Err(e),
            },
        },
    decreases providers.len() - i,
{
    let more = providers.push(p);
    reveal_with_fuel(providers_outcome, 2);
    if i < providers.len() {
        assert(more[i] == providers[i]);
        if let Ok(v) = provider_outcome(providers[i], allowed, done) {
            lemma_one_provider_more(providers, p, allowed, i + 1, done.push(v));
        }
    } else {
        assert(more[i] == p);
    }
}

proof fn lemma_one_record_more(
    records: Seq<DnsRecordConfig>,
    r: DnsRecordConfig,
    providers: Seq<ProviderView>,
    i: int,
    done: Seq<DesiredView>,
)
    requires
        0 <= i <= records.len(),
    ensures
        records_outcome(records.push(r), providers, i, done) == match records_outcome(
            records,
            providers,
            i,
            done,
        ) {
            Err(e) => Err(e),
            Ok(list) => match record_outcome(r, providers, list) {
                Ok(d) => Ok(list.push(d)),
                Err(e) => Err(e),
            },
        },
    decreases records.len() - i,
{
    let more = records.push(r);
    reveal_with_fuel(records_outcome, 2);
    if i < records.len() {
        assert(more[i] == records[i]);
        if let Ok(d) = record_outcome(records[i], providers, done) {
            lemma_one_record_more(records, r, providers, i + 1, done.push(d));
        }
    } else {
        assert(more[i] == r);
    }
}

proof fn lemma_first_clash(records: Seq<DesiredView>, i: int)
    requires
        0 <= i,
    ensures
        first_clash(records, i) matches Some(k) ==> i <= k < records.len() && cname_clash(
            records,
            k,
        ),
        first_clash(records, i) is None ==> forall|k: int|
            i <= k < records.len() ==> !cname_clash(records, k),
    decreases records.len() - i,
{
    if i < records.len() && !cname_clash(records, i) {
        lemma_first_clash(records, i + 1);
    }
}

/// A configuration without zones is refused. A zone more is compiled to its normal form, as
/// long as it is a hostname, and may be worked in.
pub proof fn law_zones_are_compiled_to_normal_form(
    fewer: DnsConfig,
    cfg: DnsConfig,
    zone: String,
    text_zone: &str,
    normal: Result<String, hostname::HostnameError>,
    less: Result<CompiledDns, String>,
    r: Result<CompiledDns, String>,
)
    requires
        fewer.providers@.len() == 0 && fewer.records@.len() == 0,
        cfg.providers@.len() == 0 && cfg.records@.len() == 0,
        cfg.allowed_zones@ == fewer.allowed_zones@.push(zone),
        text_zone@ == zone@,
        call_ensures(hostname::normalize_hostname, (text_zone,), normal),
        call_ensures(compile, (&fewer,), less),
        call_ensures(compile, (&cfg,), r),
    ensures
        fewer.allowed_zones@.len() == 0 ==> less is Err,
        fewer.allowed_zones@.len() == 0 ==> r is Ok == normal is Ok,
        less is Ok ==> r is Ok == normal is Ok,
        normal is Err ==> r is Err,
        r matches Ok(c) ==> c.allowed_zones@.len() == cfg.allowed_zones@.len()
            && c.allowed_zones@.last()@ == normal->Ok_0@,
{
    let zones = text::views(fewer.allowed_zones@);
    let more = text::views(cfg.allowed_zones@);
    assert(more =~= zones.push(zone@));
    lemma_one_zone_more(zones, zone@, 0, Seq::empty());
    reveal_with_fuel(normal_zones, 2);
    lemma_zone_count(zones, 0, Seq::empty());
    lemma_zone_count(more, 0, Seq::empty());
    reveal_with_fuel(providers_outcome, 1);
    reveal_with_fuel(records_outcome, 1);
    reveal_with_fuel(first_clash, 1);
    if r is Ok {
        let c = r->Ok_0;
        let list = text::views(c.allowed_zones@);
        assert(list.len() == c.allowed_zones@.len());
        assert(list.last() == c.allowed_zones@.last()@);
    }
}

proof fn lemma_zone_count(zones: Seq<Seq<char>>, i: int, done: Seq<Seq<char>>)
    requires
        0 <= i <= zones.len(),
    ensures
        normal_zones(zones, i, done) matches Ok(list) ==> list.len() == done.len() + zones.len() - i,
    decreases zones.len() - i,
{
    if i < zones.len() {
        if let Ok(z) = hostname::normalized(zones[i], false, false) {
            lemma_zone_count(zones, i + 1, done.push(z));
        }
    }
}

/// A provider more is compiled if and only if its name is new and written in small letters,
/// digits, hyphens and underscores, its zone lies in a zone that may be worked in, and it has
/// the settings of its kind and none of the other.
pub proof fn law_providers_are_compiled_with_their_settings(
    fewer: DnsConfig,
    cfg: DnsConfig,
    p: DnsProviderConfig,
    name: &str,
    trimmed: String,
    zone: &str,
    normal: Result<String, hostname::HostnameError>,
    less: CompiledDns,
    r: Result<CompiledDns, String>,
)
    requires
        fewer.records@.len() == 0 && cfg.records@.len() == 0,
        cfg.allowed_zones@ == fewer.allowed_zones@,
        cfg.providers@ == fewer.providers@.push(p),
        name@ == p.name@,
        call_ensures(trim, (name,), trimmed),
        zone@ == p.zone@,
        call_ensures(hostname::normalize_hostname, (zone,), normal),
        call_ensures(compile, (&fewer,), Ok::<CompiledDns, String>(less)),
        call_ensures(compile, (&cfg,), r),
    ensures
        ({
            let named = trimmed@.len() > 0 && (forall|i: int|
                0 <= i < trimmed@.len() ==> 'a' <= (#[trigger] trimmed@[i]) <= 'z' || '0'
                    <= trimmed@[i] <= '9' || trimmed@[i] == '-' || trimmed@[i] == '_') && !(exists|
                i: int,
            |
                0 <= i < less.providers@.len() && (#[trigger] less.providers@[i]).name@
                    == trimmed@);
            let inside = normal is Ok && exists|i: int|
                0 <= i < less.allowed_zones@.len() && hostname::within_zone(
                    normal->Ok_0@,
                    (#[trigger] less.allowed_zones@[i])@,
                );
            let set = match p.kind {
                DnsProviderType::Cloudflare => is_set(p.zone_id) && is_set(p.api_token_env)
                    != is_set(p.api_token_file) && p.hosted_zone_id is None && p.endpoint_url
                    is None && p.region is None,
                DnsProviderType::Route53 => is_set(p.hosted_zone_id) && p.zone_id is None
                    && p.api_token_env is None && p.api_token_file is None && p.api_base_url
                    is None,
            };
            &&& r is Ok == (named && inside && set && p.request_timeout_secs > 0)
            &&& r matches Ok(c) ==> c.providers@.len() == less.providers@.len() + 1
                && c.providers@.last().name@ == trimmed@ && c.providers@.last().zone@
                == normal->Ok_0@ && c.providers@.last().kind == p.kind && c.providers@.last().config
                == p
        }),
{
    let zones = less@.allowed_zones;
    let before = less@.providers;
    lemma_one_provider_more(fewer.providers@, p, zones, 0, Seq::empty());
    reveal_with_fuel(records_outcome, 1);
    reveal_with_fuel(first_clash, 1);
    let t = trimmed@;
    assert((forall|i: int|
        0 <= i < t.len() ==> 'a' <= (#[trigger] t[i]) <= 'z' || '0' <= t[i] <= '9' || t[i] == '-'
            || t[i] == '_') == (forall|i: int| 0 <= i < t.len() ==> provider_char(#[trigger] t[i])));
    if exists|i: int| 0 <= i < before.len() && (#[trigger] before[i]).name == t {
        let i = choose|i: int| 0 <= i < before.len() && (#[trigger] before[i]).name == t;
        assert(less.providers@[i].name@ == t);
    }
    if exists|i: int| 0 <= i < less.providers@.len() && (#[trigger] less.providers@[i]).name@ == t {
        let i = choose|i: int|
            0 <= i < less.providers@.len() && (#[trigger] less.providers@[i]).name@ == t;
        assert(before[i].name == t);
    }
    if normal is Ok {
        let z = normal->Ok_0@;
        if is_allowed(z, zones) {
            let i = choose|i: int|
                0 <= i < zones.len() && hostname::within_zone(z, #[trigger] zones[i]);
            assert(less.allowed_zones@[i]@ == zones[i]);
        }
        if exists|i: int|
            0 <= i < less.allowed_zones@.len() && hostname::within_zone(
                z,
                (#[trigger] less.allowed_zones@[i])@,
            ) {
            let i = choose|i: int|
                0 <= i < less.allowed_zones@.len() && hostname::within_zone(
                    z,
                    (#[trigger] less.allowed_zones@[i])@,
                );
            assert(zones[i] == less.allowed_zones@[i]@);
        }
    }
    if r is Ok {
        let c = r->Ok_0;
        let list = provider_views(c.providers@);
        assert(list.len() == c.providers@.len());
        assert(list.last() == c.providers@.last()@);
    }
}

/// A record more of a known provider is compiled as it is configured, its name in normal form
/// and inside the provider's zone. It is refused where it has no value, is not what its type
/// allows, has a time to live or a proxy setting that its provider does not know, is there
/// already, or has a CNAME beside it; and names for ACME challenges are reserved.
#[verifier::rlimit(40)]
pub proof fn law_records_are_compiled_as_configured(
    fewer: DnsConfig,
    cfg: DnsConfig,
    rec: DnsRecordConfig,
    k: int,
    name: &str,
    normal: Result<String, hostname::HostnameError>,
    values: TextSet,
    less: CompiledDns,
    r: Result<CompiledDns, String>,
)
    requires
        cfg.allowed_zones@ == fewer.allowed_zones@,
        cfg.providers@ == fewer.providers@,
        cfg.records@ == fewer.records@.push(rec),
        call_ensures(compile, (&fewer,), Ok::<CompiledDns, String>(less)),
        call_ensures(compile, (&cfg,), r),
        0 <= k < less.providers@.len(),
        less.providers@[k].name@ == rec.provider@,
        forall|i: int| 0 <= i < k ==> (#[trigger] less.providers@[i]).name@ != rec.provider@,
        name@ == rec.name@,
        call_ensures(hostname::normalize_dns_name, (name,), normal),
        canonical_values(rec.record_type, text::views(rec.values@), 0, Seq::empty()) == Ok::<
            Seq<Seq<char>>,
            Seq<char>,
        >(values@),
    ensures
        ({
            let p = less.providers@[k];
            let n = normal->Ok_0@;
            let sound = (rec.state is Present ==> values@.len() > 0) && (rec.record_type is Cname
                ==> values@.len() <= 1) && !(rec.record_type is Cname && n == p.zone@ && p.kind
                is Route53);
            let timed = match p.kind {
                DnsProviderType::Cloudflare => rec.ttl == 1 || 60 <= rec.ttl <= 86400,
                DnsProviderType::Route53 => 1 <= rec.ttl <= 604800,
            };
            let proxied = (rec.proxied is Some ==> p.kind is Cloudflare) && (rec.proxied == Some(
                true,
            ) ==> !(rec.record_type is Txt) && rec.ttl == 1);
            let placed = normal is Ok && hostname::within_zone(n, p.zone@) && text::split(n, '.')[0]
                != "_acme-challenge"@;
            let new = forall|i: int|
                0 <= i < less.records@.len() ==> !((#[trigger] less.records@[i]).provider@ == p.name@
                    && less.records@[i].set.name@ == n && less.records@[i].set.record_type
                    == rec.record_type);
            let alone = rec.state is Absent || forall|i: int|
                0 <= i < less.records@.len() ==> !(!(#[trigger] less.records@[i]).absent
                    && less.records@[i].provider@ == p.name@ && less.records@[i].set.name@ == n && (
                rec.record_type is Cname || less.records@[i].set.record_type is Cname));
            &&& r is Ok == (placed && sound && timed && proxied && new && alone)
            &&& r matches Ok(c) ==> {
                &&& c.records@.len() == less.records@.len() + 1
                &&& c.records@.last().provider@ == rec.provider@
                &&& c.records@.last().set.name@ == n
                &&& c.records@.last().set.record_type == rec.record_type
                &&& c.records@.last().set.ttl == rec.ttl
                &&& c.records@.last().set.values@ == values@
                &&& c.records@.last().set.proxied == rec.proxied
                &&& c.records@.last().import == rec.import
                &&& c.records@.last().absent == (rec.state is Absent)
            }
        }),
{
    let providers = less@.providers;
    let before = less@.records;
    lemma_one_record_more(fewer.records@, rec, providers, 0, Seq::empty());
    lemma_found_provider(providers, rec.provider@, 0, k);
    let p = providers[k];
    assert(p == less.providers@[k]@);
    assert forall|i: int| 0 <= i < less.records@.len() implies before[i]
        == (#[trigger] less.records@[i])@ by {}
    lemma_first_clash(before, 0);
    if normal is Ok {
        let n = normal->Ok_0@;
        let dup = exists|i: int|
            0 <= i < before.len() && (#[trigger] before[i]).provider == p.name && before[i].set.name
                == n && before[i].set.record_type == rec.record_type;
        if dup {
            let i = choose|i: int|
                0 <= i < before.len() && (#[trigger] before[i]).provider == p.name
                    && before[i].set.name == n && before[i].set.record_type == rec.record_type;
            assert(less.records@[i]@ == before[i]);
        }
        if let Ok(d) = record_outcome(rec, providers, before) {
            let all = before.push(d);
            lemma_first_clash(all, 0);
            lemma_clash_of_the_last(before, d);
            if exists|i: int|
                0 <= i < before.len() && !d.absent && !(#[trigger] before[i]).absent
                    && before[i].provider == d.provider && before[i].set.name == d.set.name && (
                d.set.record_type == RecordType::Cname || before[i].set.record_type
                    == RecordType::Cname) {
                let i = choose|i: int|
                    0 <= i < before.len() && !d.absent && !(#[trigger] before[i]).absent
                        && before[i].provider == d.provider && before[i].set.name == d.set.name && (
                    d.set.record_type == RecordType::Cname || before[i].set.record_type
                        == RecordType::Cname);
                assert(less.records@[i]@ == before[i]);
            }
        }
    }
    if r is Ok {
        let c = r->Ok_0;
        let list = desired_views(c.records@);
        assert(list.len() == c.records@.len());
        assert(list.last() == c.records@.last()@);
    }
}

proof fn lemma_found_provider(providers: Seq<ProviderView>, name: Seq<char>, i: int, k: int)
    requires
        0 <= i <= k < providers.len(),
        providers[k].name == name,
        forall|j: int| i <= j < k ==> (#[trigger] providers[j]).name != name,
    ensures
        provider_named(providers, name, i) == Some(k),
    decreases k - i,
{
    if i < k {
        lemma_found_provider(providers, name, i + 1, k);
    }
}

proof fn lemma_clash_of_the_last(before: Seq<DesiredView>, d: DesiredView)
    requires
        forall|i: int| 0 <= i < before.len() ==> !cname_clash(before, i),
    ensures
        (forall|i: int| 0 <= i < before.push(d).len() ==> !cname_clash(before.push(d), i)) == !(
        exists|i: int|
            0 <= i < before.len() && !d.absent && !(#[trigger] before[i]).absent
                && before[i].provider == d.provider && before[i].set.name == d.set.name && (
            d.set.record_type == RecordType::Cname || before[i].set.record_type
                == RecordType::Cname)),
{
    let all = before.push(d);
    let last = before.len() as int;
    assert(all[last] == d);
    if exists|i: int|
        0 <= i < before.len() && !d.absent && !(#[trigger] before[i]).absent && before[i].provider
            == d.provider && before[i].set.name == d.set.name && (d.set.record_type
            == RecordType::Cname || before[i].set.record_type == RecordType::Cname) {
        let i = choose|i: int|
            0 <= i < before.len() && !d.absent && !(#[trigger] before[i]).absent
                && before[i].provider == d.provider && before[i].set.name == d.set.name && (
            d.set.record_type == RecordType::Cname || before[i].set.record_type
                == RecordType::Cname);
        assert(all[i] == before[i]);
        if d.set.record_type == RecordType::Cname {
            assert(cname_clash(all, last));
        } else {
            assert(cname_clash(all, i));
        }
    } else {
        assert forall|i: int| 0 <= i < all.len() implies !cname_clash(all, i) by {
            if cname_clash(all, i) {
                let j = choose|j: int|
                    0 <= j < all.len() && j != i && !(#[trigger] all[j]).absent && all[j].provider
                        == all[i].provider && all[j].set.name == all[i].set.name;
                if i < last && j < last {
                    assert(before[j] == all[j] && before[i] == all[i]);
                    assert(cname_clash(before, i));
                } else if i == last {
                    assert(before[j] == all[j]);
                } else {
                    assert(before[i] == all[i]);
                }
            }
        }
    }
}

/// A value is compiled to its canonical form and appears once; a value that its type does not
/// allow is an error.
pub proof fn law_values_are_compiled_to_canonical_form(
    t: RecordType,
    values: Seq<Seq<char>>,
    i: int,
    raw: &str,
    r: Result<String, String>,
)
    requires
        0 <= i < values.len(),
        raw@ == values[i],
        call_ensures(RecordType::normalize_value, (t, raw), r),
    ensures
        r is Err ==> canonical_values(t, values, 0, Seq::empty()) is Err,
        r is Ok && canonical_values(t, values, 0, Seq::empty()) is Ok ==> canonical_values(
            t,
            values,
            0,
            Seq::empty(),
        )->Ok_0.contains(r->Ok_0@),
{
    lemma_values_hold(t, values, 0, Seq::empty(), i);
}

proof fn lemma_values_hold(
    t: RecordType,
    values: Seq<Seq<char>>,
    from: int,
    done: Seq<Seq<char>>,
    i: int,
)
    requires
        0 <= from,
        0 <= i < values.len(),
        crate::order::ascending(done),
        i < from ==> record::canonical(t, values[i]) is Ok && done.contains(
            record::canonical(t, values[i])->Ok_0,
        ),
    ensures
        record::canonical(t, values[i]) is Err && from <= i ==> canonical_values(
            t,
            values,
            from,
            done,
        ) is Err,
        record::canonical(t, values[i]) is Ok && canonical_values(t, values, from, done) is Ok
            ==> canonical_values(t, values, from, done)->Ok_0.contains(
            record::canonical(t, values[i])->Ok_0,
        ),
    decreases values.len() - from,
{
    if from < values.len() {
        if let Ok(v) = record::canonical(t, values[from]) {
            text_set::lemma_inserted(done, v);
            lemma_values_hold(t, values, from + 1, text_set::inserted(done, v), i);
        }
    }
}

} // verus!
