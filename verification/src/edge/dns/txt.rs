//! TXT records for ACME DNS-01 validation.
//!
//! Challenge values are added to and removed from `_acme-challenge` record sets
//! one value at a time, so concurrent orders (e.g. a wildcard and its base name)
//! and values managed by operators are never removed. Every added value is
//! journaled first so that leftovers are cleaned up after a restart.

use vstd::prelude::*;
use vstd::string::*;
use vstd::utf8::*;
use crate::edge::dns::record;
use crate::edge::dns::record::{
    ChangeTicket, DnsError, DnsErrorView, Observed, RecordSet, RecordSetView, RecordType,
};
use crate::hostname;
use crate::hostname::{is_within_zone, normalize_dns_name};
use crate::order;
use crate::text;
use crate::text::{decimal_text, has_prefix, same_text};
use crate::text_set;
use crate::text_set::TextSet;
use crate::time::Duration;

verus! {

/// How often a change is tried.
pub const MAX_ATTEMPTS: u32 = 6;

/// A TXT value published for one authorization.
#[derive(Debug, PartialEq, Eq)]
pub struct TxtHandle {
    pub zone: String,
    pub name: String,
    pub value: String,
    /// Domain the value authorizes. Journaled so that a shared journal can be
    /// cleaned up per domain.
    pub domain: String,
}

/// A [`TxtHandle`] by the texts that it holds.
#[verifier::ext_equal]
pub struct HandleView {
    pub zone: Seq<char>,
    pub name: Seq<char>,
    pub value: Seq<char>,
    pub domain: Seq<char>,
}

impl View for TxtHandle {
    type V = HandleView;

    open spec fn view(&self) -> HandleView {
        HandleView {
            zone: self.zone@,
            name: self.name@,
            value: self.value@,
            domain: self.domain@,
        }
    }
}

impl Clone for TxtHandle {
    fn clone(&self) -> (r: Self)
        ensures
            r@ == self@,
    {
        TxtHandle {
            zone: self.zone.clone(),
            name: self.name.clone(),
            value: self.value.clone(),
            domain: self.domain.clone(),
        }
    }
}

/// The domain that a value authorizes.
pub open spec fn authorized_domain(h: HandleView) -> Option<Seq<char>> {
    if h.domain.len() > 0 {
        Some(h.domain)
    } else if text::starts_with(h.name, "_acme-challenge."@) {
        Some(h.name.skip("_acme-challenge."@.len() as int))
    } else {
        None
    }
}

impl TxtHandle {
    /// The domain this value authorizes, recovered from the challenge name for
    /// journals written before the field existed.
    pub fn domain(&self) -> (r: Option<&str>)
        ensures
            (match r {
                Some(d) => Some(d@),
                None => None,
            }) == authorized_domain(self@),
    {
        if self.domain.as_str().unicode_len() > 0 {
            return Some(self.domain.as_str());
        }
        let prefix: &str = "_acme-challenge.";
        if has_prefix(self.name.as_str(), prefix) {
            let n: usize = prefix.unicode_len();
            let len: usize = self.name.as_str().unicode_len();
            assert(self.name@.subrange(n as int, len as int) =~= self.name@.skip(n as int));
            return Some(self.name.as_str().substring_char(n, len));
        }
        None
    }

    fn same(&self, other: &TxtHandle) -> (r: bool)
        ensures
            r == (self@ == other@),
    {
        same_text(self.zone.as_str(), other.zone.as_str()) && same_text(
            self.name.as_str(),
            other.name.as_str(),
        ) && same_text(self.value.as_str(), other.value.as_str()) && same_text(
            self.domain.as_str(),
            other.domain.as_str(),
        )
    }
}

/// Handles by the texts that they hold.
pub open spec fn handle_views(entries: Seq<TxtHandle>) -> Seq<HandleView> {
    entries.map_values(|h: TxtHandle| h@)
}

/// Enters a value into the journal, unless it is there already.
pub fn journal_add(entries: &mut Vec<TxtHandle>, handle: &TxtHandle)
    ensures
        handle_views(final(entries)@) == (if handle_views(old(entries)@).contains(handle@) {
            handle_views(old(entries)@)
        } else {
            handle_views(old(entries)@).push(handle@)
        }),
{
    let ghost all = handle_views(entries@);
    let n: usize = entries.len();
    let mut i: usize = 0;
    while i < n
        invariant
            i <= n == all.len(),
            all == handle_views(entries@),
            forall|j: int| 0 <= j < i ==> #[trigger] all[j] != handle@,
        decreases n - i,
    {
        if entries[i].same(handle) {
            assert(all[i as int] == handle@);
            return;
        }
        i += 1;
    }
    let copy: TxtHandle = handle.clone();
    entries.push(copy);
    assert(handle_views(entries@) =~= all.push(handle@));
}

/// Takes a value out of the journal.
pub fn journal_remove(entries: Vec<TxtHandle>, handle: &TxtHandle) -> (r: Vec<TxtHandle>)
    ensures
        handle_views(r@) == handle_views(entries@).filter(|h: HandleView| h != handle@),
{
    let ghost all = handle_views(entries@);
    let ghost keep = |h: HandleView| h != handle@;
    let mut out: Vec<TxtHandle> = Vec::new();
    let mut i: usize = 0;
    proof {
        reveal(Seq::filter);
        assert(handle_views(out@) =~= all.take(0).filter(keep));
    }
    while i < entries.len()
        invariant
            i <= entries.len() == all.len(),
            all == handle_views(entries@),
            keep == (|h: HandleView| h != handle@),
            handle_views(out@) == all.take(i as int).filter(keep),
        decreases entries.len() - i,
    {
        let ghost before = handle_views(out@);
        proof {
            reveal(Seq::filter);
            assert(all.take(i + 1).drop_last() =~= all.take(i as int));
            assert(all.take(i + 1).last() == all[i as int]);
        }
        if !entries[i].same(handle) {
            out.push(entries[i].clone());
            assert(handle_views(out@) =~= before.push(all[i as int]));
        }
        i += 1;
    }
    assert(all.take(i as int) =~= all);
    out
}

/// What was journaled is in the journal, and taking it out leaves the rest.
pub proof fn law_journal_entry_is_taken_out(entries: Seq<HandleView>, handle: HandleView)
    requires
        !entries.contains(handle),
    ensures
        entries.push(handle).filter(|h: HandleView| h != handle) == entries,
{
    let keep = |h: HandleView| h != handle;
    reveal(Seq::filter);
    assert(entries.push(handle).drop_last() =~= entries);
    lemma_filter_keeps_all(entries, handle);
}

proof fn lemma_filter_keeps_all(entries: Seq<HandleView>, handle: HandleView)
    requires
        !entries.contains(handle),
    ensures
        entries.filter(|h: HandleView| h != handle) == entries,
    decreases entries.len(),
{
    reveal(Seq::filter);
    if entries.len() > 0 {
        let front = entries.drop_last();
        assert(!front.contains(handle)) by {
            if front.contains(handle) {
                let k = choose|k: int| 0 <= k < front.len() && front[k] == handle;
                assert(entries[k] == handle);
            }
        }
        lemma_filter_keeps_all(front, handle);
        assert(entries[entries.len() - 1] == entries.last());
        assert(front.push(entries.last()) =~= entries);
    }
}

/// Whether a delegated challenge name stays inside the zones that may be modified.
pub open spec fn allowed(target: Seq<char>, zones: Seq<Seq<char>>) -> bool {
    exists|i: int| 0 <= i < zones.len() && hostname::within_zone(target, #[trigger] zones[i])
}

/// A delegated challenge name must stay inside the zones Sieve Tube may modify.
pub fn delegation_allowed(target: &str, allowed_zones: &Vec<String>) -> (r: bool)
    ensures
        r == allowed(target@, text::views(allowed_zones@)),
{
    let ghost zones = text::views(allowed_zones@);
    let mut i: usize = 0;
    while i < allowed_zones.len()
        invariant
            i <= allowed_zones.len() == zones.len(),
            zones == text::views(allowed_zones@),
            forall|j: int| 0 <= j < i ==> !hostname::within_zone(target@, #[trigger] zones[j]),
        decreases allowed_zones.len() - i,
    {
        if is_within_zone(target, allowed_zones[i].as_str()) {
            assert(hostname::within_zone(target@, zones[i as int]));
            return true;
        }
        i += 1;
    }
    false
}

#[derive(Debug, Clone, Copy)]
pub struct TxtSettings {
    pub ttl: u32,
    pub propagation_timeout: Duration,
    pub poll_interval: Duration,
}

/// The challenge names of an Edge: which zone each of them lies in.
#[derive(Debug)]
pub struct TxtChallengeSolver {
    /// The zone of each provider
    pub zones: Vec<String>,
    pub allowed_zones: Vec<String>,
    pub settings: TxtSettings,
}

/// The position of the most specific zone that a name lies in; the first of them
/// where there are several.
pub open spec fn zone_of(name: Seq<char>, zones: Seq<Seq<char>>) -> Option<int>
    decreases zones.len(),
{
    if zones.len() == 0 {
        None
    } else {
        let before = zone_of(name, zones.drop_last());
        if hostname::within_zone(name, zones.last()) && (before is None || encode_utf8(
            zones.last(),
        ).len() > encode_utf8(zones[before->0]).len()) {
            Some(zones.len() - 1)
        } else {
            before
        }
    }
}

/// No zone that a name lies in is more specific than the one that is chosen.
pub proof fn law_most_specific_zone_is_chosen(name: Seq<char>, zones: Seq<Seq<char>>, i: int)
    requires
        0 <= i < zones.len(),
        hostname::within_zone(name, zones[i]),
    ensures
        zone_of(name, zones) is Some,
        0 <= zone_of(name, zones)->0 < zones.len(),
        hostname::within_zone(name, zones[zone_of(name, zones)->0]),
        encode_utf8(zones[i]).len() <= encode_utf8(zones[zone_of(name, zones)->0]).len(),
    decreases zones.len(),
{
    let front = zones.drop_last();
    lemma_zone_of(name, front);
    if i < front.len() {
        assert(front[i] == zones[i]);
        law_most_specific_zone_is_chosen(name, front, i);
        assert(front[zone_of(name, front)->0] == zones[zone_of(name, front)->0]);
    } else if zone_of(name, front) is Some {
        assert(front[zone_of(name, front)->0] == zones[zone_of(name, front)->0]);
    }
}

proof fn lemma_zone_of(name: Seq<char>, zones: Seq<Seq<char>>)
    ensures
        zone_of(name, zones) is Some ==> 0 <= zone_of(name, zones)->0 < zones.len()
            && hostname::within_zone(name, zones[zone_of(name, zones)->0]),
    decreases zones.len(),
{
    if zones.len() > 0 {
        lemma_zone_of(name, zones.drop_last());
    }
}

/// The position of the first zone with this name.
pub open spec fn first_zone(zone: Seq<char>, zones: Seq<Seq<char>>, from: int) -> Option<int>
    decreases zones.len() - from,
{
    if from < 0 || from >= zones.len() {
        None
    } else if zones[from] == zone {
        Some(from)
    } else {
        first_zone(zone, zones, from + 1)
    }
}

/// The challenge name of a domain.
pub open spec fn challenge_of(domain: Seq<char>) -> Seq<char> {
    "_acme-challenge."@ + domain
}

/// The name to publish for a domain, following a CNAME delegation of its challenge
/// name only into allowed zones.
pub open spec fn published_name(
    domain: Seq<char>,
    delegation: Option<Seq<char>>,
    allowed_zones: Seq<Seq<char>>,
) -> Result<Seq<char>, Seq<char>> {
    let name = challenge_of(domain);
    match delegation {
        None => Ok(name),
        Some(raw) => match hostname::normalized(raw, true, true) {
            Err(e) => Err("invalid CNAME target for "@ + name + ": "@ + e),
            Ok(target) => if allowed(target, allowed_zones) {
                Ok(target)
            } else {
                Err(
                    name + " is delegated to "@ + target
                        + ", which is outside dns.allowed_zones"@,
                )
            },
        },
    }
}

/// The handle for a new value, or why it cannot be published.
pub open spec fn new_handle(
    solver: TxtChallengeSolver,
    domain: Seq<char>,
    value: Seq<char>,
    delegation: Option<Seq<char>>,
) -> Result<HandleView, Seq<char>> {
    let zones = text::views(solver.zones@);
    match published_name(domain, delegation, text::views(solver.allowed_zones@)) {
        Err(e) => Err(e),
        Ok(name) => match zone_of(name, zones) {
            None => Err("no DNS provider zone covers "@ + name),
            Some(i) => Ok(HandleView { zone: zones[i], name, value, domain }),
        },
    }
}

impl TxtChallengeSolver {
    /// The provider whose zone is the most specific that the name lies in.
    pub fn provider_for(&self, name: &str) -> (r: Option<usize>)
        ensures
            (match r {
                Some(i) => Some(i as int),
                None => None,
            }) == zone_of(name@, text::views(self.zones@)),
            r is Some ==> r->0 < self.zones@.len(),
    {
        let ghost all = text::views(self.zones@);
        let mut best: Option<usize> = None;
        let mut i: usize = 0;
        while i < self.zones.len()
            invariant
                i <= self.zones.len() == all.len(),
                all == text::views(self.zones@),
                best is Some ==> best->0 < i,
                (match best {
                    Some(b) => Some(b as int),
                    None => None,
                }) == zone_of(name@, all.take(i as int)),
            decreases self.zones.len() - i,
        {
            assert(all.take(i + 1).drop_last() =~= all.take(i as int));
            assert(all.take(i + 1).last() == all[i as int]);
            if is_within_zone(name, self.zones[i].as_str()) {
                match best {
                    None => {
                        best = Some(i);
                    },
                    Some(b) => {
                        assert(all.take(i + 1)[b as int] == all[b as int]);
                        if self.zones[i].as_str().as_bytes().len()
                            > self.zones[b].as_str().as_bytes().len() {
                            best = Some(i);
                        }
                    },
                }
            }
            i += 1;
        }
        assert(all.take(i as int) =~= all);
        best
    }

    /// The provider of a zone.
    pub fn zone_provider(&self, zone: &str) -> (r: Result<usize, String>)
        ensures
            match first_zone(zone@, text::views(self.zones@), 0) {
                Some(i) => r is Ok && r->Ok_0 == i && 0 <= i < self.zones@.len(),
                None => r is Err && r->Err_0@ == "no DNS provider for zone "@ + zone@,
            },
    {
        let ghost all = text::views(self.zones@);
        let mut i: usize = 0;
        while i < self.zones.len()
            invariant
                i <= self.zones.len() == all.len(),
                all == text::views(self.zones@),
                first_zone(zone@, all, 0) == first_zone(zone@, all, i as int),
            decreases self.zones.len() - i,
        {
            assert(all[i as int] == self.zones@[i as int]@);
            if same_text(self.zones[i].as_str(), zone) {
                return Ok(i);
            }
            i += 1;
        }
        Err("no DNS provider for zone ".to_owned().concat(zone))
    }

    /// The name to publish for `domain`, with what its challenge name is delegated
    /// to, if it is.
    pub fn challenge_name(&self, domain: &str, delegation: Option<&str>) -> (r: Result<
        String,
        String,
    >)
        ensures
            match published_name(
                domain@,
                match delegation {
                    Some(d) => Some(d@),
                    None => None,
                },
                text::views(self.allowed_zones@),
            ) {
                Ok(name) => r is Ok && r->Ok_0@ == name,
                Err(e) => r is Err && r->Err_0@ == e,
            },
    {
        let name: String = "_acme-challenge.".to_owned().concat(domain);
        match delegation {
            None => Ok(name),
            Some(raw) => match normalize_dns_name(raw) {
                Err(e) => {
                    let mut detail: String = "invalid CNAME target for ".to_owned();
                    detail.append(name.as_str());
                    detail.append(": ");
                    detail.append(e.text.as_str());
                    Err(detail)
                },
                Ok(target) => {
                    if delegation_allowed(target.as_str(), &self.allowed_zones) {
                        return Ok(target);
                    }
                    let mut detail: String = name;
                    detail.append(" is delegated to ");
                    detail.append(target.as_str());
                    detail.append(", which is outside dns.allowed_zones");
                    Err(detail)
                },
            },
        }
    }

    /// The handle for a value that is to be published, with the provider that does
    /// it.
    pub fn start_add(&self, domain: &str, value: &str, delegation: Option<&str>) -> (r: Result<
        (TxtHandle, usize),
        String,
    >)
        ensures
            match new_handle(
                *self,
                domain@,
                value@,
                match delegation {
                    Some(d) => Some(d@),
                    None => None,
                },
            ) {
                Ok(h) => {
                    &&& r is Ok
                    &&& (r->Ok_0).0@ == h
                    &&& Some((r->Ok_0).1 as int) == zone_of(h.name, text::views(self.zones@))
                },
                Err(e) => r is Err && r->Err_0@ == e,
            },
    {
        let name: String = match self.challenge_name(domain, delegation) {
            Ok(name) => name,
            Err(e) => {
                return Err(e);
            },
        };
        match self.provider_for(name.as_str()) {
            None => Err("no DNS provider zone covers ".to_owned().concat(name.as_str())),
            Some(i) => {
                assert(text::views(self.zones@)[i as int] == self.zones@[i as int]@);
                let handle: TxtHandle = TxtHandle {
                    zone: self.zones[i].clone(),
                    name,
                    value: value.to_owned(),
                    domain: domain.to_owned(),
                };
                Ok((handle, i))
            },
        }
    }
}

/// A record set with one more value.
pub open spec fn with_value(
    current: Option<RecordSetView>,
    name: Seq<char>,
    ttl: u32,
    value: Seq<char>,
) -> RecordSetView {
    match current {
        Some(c) => RecordSetView { values: text_set::inserted(c.values, value), ..c },
        None => RecordSetView {
            name,
            record_type: RecordType::Txt,
            ttl,
            values: seq![value],
            proxied: None,
        },
    }
}

/// A record set without a value; none where no other is left.
pub open spec fn without_value(current: RecordSetView, value: Seq<char>) -> Option<RecordSetView> {
    let rest = text_set::removed(current.values, value);
    if rest.len() == 0 {
        None
    } else {
        Some(RecordSetView { values: rest, ..current })
    }
}

/// The values of a record set.
pub open spec fn values_of(set: Option<RecordSetView>) -> Seq<Seq<char>> {
    match set {
        Some(s) => s.values,
        None => Seq::empty(),
    }
}

/// Adding a value keeps every other value, and adds only this one.
pub proof fn law_adding_keeps_other_values(
    current: Option<RecordSetView>,
    name: Seq<char>,
    ttl: u32,
    value: Seq<char>,
    other: Seq<char>,
)
    requires
        order::ascending(values_of(current)),
    ensures
        with_value(current, name, ttl, value).values.contains(other) == (values_of(
            current,
        ).contains(other) || other == value),
{
    match current {
        Some(c) => {
            text_set::lemma_inserted(c.values, value);
        },
        None => {
            assert(seq![value][0] == value);
            assert(!Seq::<Seq<char>>::empty().contains(other));
        },
    }
}

/// Removing a value keeps every other value, and removes only this one.
pub proof fn law_removing_keeps_other_values(
    current: RecordSetView,
    value: Seq<char>,
    other: Seq<char>,
)
    requires
        order::ascending(current.values),
    ensures
        values_of(without_value(current, value)).contains(other) == (current.values.contains(other)
            && other != value),
{
    let rest = text_set::removed(current.values, value);
    text_set::lemma_removed(current.values, value);
    assert(rest.contains(other) == (current.values.contains(other) && other != value));
}

/// Removing a value that was added leaves the record set as it was before: what
/// operators and other orders published stays.
pub proof fn law_removal_undoes_addition(
    current: Option<RecordSetView>,
    name: Seq<char>,
    ttl: u32,
    value: Seq<char>,
)
    requires
        order::ascending(values_of(current)),
        !values_of(current).contains(value),
        current is Some ==> current->0.values.len() > 0,
    ensures
        without_value(with_value(current, name, ttl, value), value) == current,
{
    let before = values_of(current);
    let added = with_value(current, name, ttl, value).values;
    let rest = text_set::removed(added, value);
    assert(order::ascending(added)) by {
        if current is Some {
            text_set::lemma_inserted(before, value);
        }
    }
    text_set::lemma_removed(added, value);
    assert forall|v: Seq<char>| #[trigger] rest.contains(v) == before.contains(v) by {
        law_adding_keeps_other_values(current, name, ttl, value, v);
    }
    order::lemma_ascending_unique(rest, before);
}

/// What is done with a value.
#[derive(Debug, Clone, Copy, PartialEq, Eq, Structural)]
pub enum TxtChange {
    Add,
    Remove,
}

/// What has to be done next.
#[derive(Debug)]
pub enum TxtAction {
    /// Read the record set from the provider.
    Get,
    /// Replace it there.
    Replace { expected: Option<RecordSet>, desired: Option<RecordSet> },
    /// Wait for the change to be applied.
    WaitSynced(ChangeTicket),
    Sleep(Duration),
    /// The value is published, or gone.
    Done,
    Fail(String),
}

/// What an action gave.
#[derive(Debug)]
pub enum TxtEvent {
    Start,
    Observed(Result<Option<Observed>, DnsError>),
    Replaced(Result<ChangeTicket, DnsError>),
    Synced(Result<(), String>),
    Slept,
}

/// How long to wait before a refused change is tried again, or why not.
pub open spec fn retry_wait(e: DnsErrorView, attempt: u32) -> Result<u128, Seq<char>> {
    match e {
        DnsErrorView::Conflict(_) => Ok((attempt * 100_000_000) as u128),
        DnsErrorView::RateLimited(None) => Ok(2_000_000_000u128),
        DnsErrorView::RateLimited(Some(d)) => Ok(
            if d.nanos < 30_000_000_000 {
                d.nanos
            } else {
                30_000_000_000u128
            },
        ),
        _ => Err(record::error_text(e)),
    }
}

/// Waits before a refused change is tried again, or fails.
pub fn retry_or_fail(error: &DnsError, attempt: u32) -> (r: Result<Duration, String>)
    requires
        attempt <= MAX_ATTEMPTS,
    ensures
        match retry_wait(error@, attempt) {
            Ok(n) => r is Ok && r->Ok_0.nanos == n,
            Err(e) => r is Err && r->Err_0@ == e,
        },
{
    match error {
        DnsError::Conflict(_) => Ok(Duration::from_millis(100 * attempt as u64)),
        DnsError::RateLimited { retry_after } => match retry_after {
            None => Ok(Duration::from_secs(2)),
            Some(d) => {
                if d.nanos < 30_000_000_000 {
                    Ok(*d)
                } else {
                    Ok(Duration::from_secs(30))
                }
            },
        },
        _ => Err(error.message()),
    }
}

/// The message where every attempt met another change.
pub open spec fn gave_up(change: TxtChange, name: Seq<char>) -> Seq<char> {
    (match change {
        TxtChange::Add => "could not add TXT value to "@,
        TxtChange::Remove => "could not remove TXT value from "@,
    }) + name + ": too many concurrent changes"@
}

/// The publication or removal of one value.
#[derive(Debug)]
pub struct TxtRun {
    pub change: TxtChange,
    pub handle: TxtHandle,
    pub ttl: u32,
    pub attempt: u32,
}

/// Whether an action fails with a text.
pub open spec fn fails(a: TxtAction, e: Seq<char>) -> bool {
    a is Fail && a->Fail_0@ == e
}

/// What the run does when it knows the record set.
pub open spec fn on_set(run: TxtRun, current: Option<RecordSetView>, a: TxtAction) -> bool {
    let held = values_of(current).contains(run.handle@.value);
    match run.change {
        TxtChange::Add => if held {
            a is Done
        } else {
            &&& a is Replace
            &&& record::set_view(a->expected) == current
            &&& record::set_view(a->desired) == Some(
                with_value(current, run.handle@.name, run.ttl, run.handle@.value),
            )
        },
        TxtChange::Remove => if !held {
            a is Done
        } else {
            &&& a is Replace
            &&& record::set_view(a->expected) == current
            &&& record::set_view(a->desired) == without_value(current->0, run.handle@.value)
        },
    }
}

impl TxtRun {
    pub fn new(change: TxtChange, handle: TxtHandle, ttl: u32) -> (r: Self)
        ensures
            r.change == change,
            r.handle == handle,
            r.ttl == ttl,
            r.attempt == 1,
    {
        TxtRun { change, handle, ttl, attempt: 1 }
    }

    fn on_current(&self, current: Option<RecordSet>) -> (r: TxtAction)
        ensures
            on_set(*self, record::set_view(current), r),
    {
        let held: bool = match &current {
            Some(c) => c.values.contains(self.handle.value.as_str()),
            None => false,
        };
        match self.change {
            TxtChange::Add => {
                if held {
                    return TxtAction::Done;
                }
                let desired: RecordSet = match &current {
                    Some(c) => {
                        let mut d: RecordSet = c.clone();
                        d.values.insert(self.handle.value.clone());
                        d
                    },
                    None => {
                        let mut values: TextSet = TextSet::new();
                        values.insert(self.handle.value.clone());
                        assert(values@ =~= seq![self.handle@.value]);
                        RecordSet {
                            name: self.handle.name.clone(),
                            record_type: RecordType::Txt,
                            ttl: self.ttl,
                            values,
                            proxied: None,
                        }
                    },
                };
                assert(desired@ == with_value(
                    record::set_view(current),
                    self.handle@.name,
                    self.ttl,
                    self.handle@.value,
                ));
                TxtAction::Replace { expected: current, desired: Some(desired) }
            },
            TxtChange::Remove => match current {
                None => TxtAction::Done,
                Some(c) => {
                    if !held {
                        return TxtAction::Done;
                    }
                    let mut rest: RecordSet = c.clone();
                    rest.values.remove(self.handle.value.as_str());
                    let desired: Option<RecordSet> = if rest.values.len() == 0 {
                        None
                    } else {
                        Some(rest)
                    };
                    assert(record::set_view(desired) == without_value(c@, self.handle@.value));
                    TxtAction::Replace { expected: Some(c), desired }
                },
            },
        }
    }

    /// Takes in what the last action gave and says what has to be done next.
    pub fn step(&mut self, event: TxtEvent) -> (r: TxtAction)
        requires
            1 <= old(self).attempt <= MAX_ATTEMPTS,
        ensures
            final(self).change == old(self).change,
            final(self).handle == old(self).handle,
            final(self).ttl == old(self).ttl,
            1 <= final(self).attempt <= MAX_ATTEMPTS,
            !(event is Slept) ==> final(self).attempt == old(self).attempt,
            match event {
                TxtEvent::Start => r is Get,
                TxtEvent::Observed(Err(e)) => fails(r, record::error_text(e@)),
                TxtEvent::Observed(Ok(None)) => on_set(*old(self), None, r),
                TxtEvent::Observed(Ok(Some(o))) => match o.unsupported {
                    Some(reason) => fails(
                        r,
                        "TXT record set "@ + old(self).handle@.name + " cannot be managed: "@
                            + reason@,
                    ),
                    None => on_set(*old(self), Some(o.set@), r),
                },
                TxtEvent::Replaced(Ok(ticket)) => r == TxtAction::WaitSynced(ticket),
                TxtEvent::Replaced(Err(e)) => match retry_wait(e@, old(self).attempt) {
                    Ok(n) => r is Sleep && r->Sleep_0.nanos == n,
                    Err(why) => fails(r, why),
                },
                TxtEvent::Synced(Ok(_)) => r is Done,
                TxtEvent::Synced(Err(e)) => fails(r, e@),
                TxtEvent::Slept => if old(self).attempt < MAX_ATTEMPTS {
                    r is Get && final(self).attempt == old(self).attempt + 1
                } else {
                    fails(r, gave_up(old(self).change, old(self).handle@.name))
                        && final(self).attempt == old(self).attempt
                },
            },
    {
        match event {
            TxtEvent::Start => TxtAction::Get,
            TxtEvent::Observed(Err(e)) => TxtAction::Fail(e.message()),
            TxtEvent::Observed(Ok(None)) => self.on_current(None),
            TxtEvent::Observed(Ok(Some(o))) => match o.unsupported {
                Some(reason) => {
                    let mut e: String = "TXT record set ".to_owned();
                    e.append(self.handle.name.as_str());
                    e.append(" cannot be managed: ");
                    e.append(reason.as_str());
                    TxtAction::Fail(e)
                },
                None => self.on_current(Some(o.set)),
            },
            TxtEvent::Replaced(Ok(ticket)) => TxtAction::WaitSynced(ticket),
            TxtEvent::Replaced(Err(e)) => match retry_or_fail(&e, self.attempt) {
                Ok(wait) => TxtAction::Sleep(wait),
                Err(why) => TxtAction::Fail(why),
            },
            TxtEvent::Synced(Ok(_)) => TxtAction::Done,
            TxtEvent::Synced(Err(e)) => TxtAction::Fail(e),
            TxtEvent::Slept => {
                if self.attempt < MAX_ATTEMPTS {
                    self.attempt += 1;
                    return TxtAction::Get;
                }
                let mut e: String = match self.change {
                    TxtChange::Add => "could not add TXT value to ".to_owned(),
                    TxtChange::Remove => "could not remove TXT value from ".to_owned(),
                };
                e.append(self.handle.name.as_str());
                e.append(": too many concurrent changes");
                TxtAction::Fail(e)
            },
        }
    }
}

/// What to do while waiting for something.
#[derive(Debug)]
pub enum WaitAction {
    Done,
    /// Ask again after this many milliseconds.
    Sleep(u64),
    Fail(String),
}

/// The wait for a change to be applied by the provider. Times are milliseconds.
#[derive(Debug)]
pub struct SyncWait {
    pub deadline: u128,
    pub delay: u64,
}

impl SyncWait {
    /// Starts to wait, with the time after which it is given up.
    pub fn new(deadline: u128) -> (r: Self)
        ensures
            r.deadline == deadline,
            r.delay == 200,
    {
        SyncWait { deadline, delay: 200 }
    }

    /// Takes in what the provider says of the change at a time.
    pub fn step(&mut self, now: u128, synced: Result<bool, DnsError>) -> (r: WaitAction)
        requires
            old(self).delay <= 5000,
        ensures
            final(self).deadline == old(self).deadline,
            final(self).delay <= 5000,
            match synced {
                Ok(true) => r is Done,
                Err(e) => r is Fail && r->Fail_0@ == record::error_text(e@),
                Ok(false) => if now >= old(self).deadline {
                    r is Fail && r->Fail_0@ == "DNS provider did not apply the change in time"@
                } else {
                    &&& r == WaitAction::Sleep(old(self).delay)
                    &&& final(self).delay == (if old(self).delay * 2 < 5000 {
                        (old(self).delay * 2) as int
                    } else {
                        5000
                    })
                },
            },
            !(r is Sleep) ==> final(self).delay == old(self).delay,
    {
        match synced {
            Ok(true) => WaitAction::Done,
            Err(e) => WaitAction::Fail(e.message()),
            Ok(false) => {
                if now >= self.deadline {
                    return WaitAction::Fail(
                        "DNS provider did not apply the change in time".to_owned(),
                    );
                }
                let delay: u64 = self.delay;
                self.delay = if delay * 2 < 5000 {
                    delay * 2
                } else {
                    5000
                };
                WaitAction::Sleep(delay)
            },
        }
    }
}

/// What to do while waiting for a value to be visible through DNS, at a time in
/// milliseconds.
pub fn wait_propagated(
    handle: &TxtHandle,
    settings: &TxtSettings,
    now: u128,
    deadline: u128,
    visible: bool,
) -> (r: WaitAction)
    requires
        settings.propagation_timeout.nanos <= u64::MAX,
        settings.poll_interval.nanos <= u64::MAX,
    ensures
        if visible {
            r is Done
        } else if now >= deadline {
            r is Fail && r->Fail_0@ == "TXT record "@ + handle.name@ + " was not visible within "@
                + text::decimal((settings.propagation_timeout.nanos / 1_000_000_000) as nat) + "s"@
        } else {
            r is Sleep && r->Sleep_0 == settings.poll_interval.nanos / 1_000_000
        },
{
    if visible {
        return WaitAction::Done;
    }
    if now >= deadline {
        let mut e: String = "TXT record ".to_owned();
        e.append(handle.name.as_str());
        e.append(" was not visible within ");
        e.append(
            decimal_text((settings.propagation_timeout.nanos / 1_000_000_000) as u64).as_str(),
        );
        e.append("s");
        return WaitAction::Fail(e);
    }
    WaitAction::Sleep((settings.poll_interval.nanos / 1_000_000) as u64)
}

/// A text from bytes, with what is not UTF-8 replaced.
pub uninterp spec fn lossy_text(bytes: Seq<u8>) -> Seq<char>;

/// `String::from_utf8_lossy`: the text that bytes write, with what is not UTF-8
/// replaced.
#[verifier::external_body]
fn decode_lossy(bytes: &Vec<u8>) -> (r: String)
    ensures
        r@ == lossy_text(bytes@),
{
    String::from_utf8_lossy(bytes).into_owned()
}

/// The bytes of the chunks of a TXT record.
pub open spec fn joined(chunks: Seq<Vec<u8>>) -> Seq<u8>
    decreases chunks.len(),
{
    if chunks.len() == 0 {
        Seq::empty()
    } else {
        joined(chunks.drop_last()) + chunks.last()@
    }
}

/// The bytes of the chunks of a TXT record.
pub fn join_chunks(chunks: &Vec<Vec<u8>>) -> (r: Vec<u8>)
    ensures
        r@ == joined(chunks@),
{
    let mut out: Vec<u8> = Vec::new();
    let mut i: usize = 0;
    assert(out@ =~= joined(chunks@.take(0)));
    while i < chunks.len()
        invariant
            i <= chunks.len(),
            out@ == joined(chunks@.take(i as int)),
        decreases chunks.len() - i,
    {
        assert(chunks@.take(i + 1).drop_last() =~= chunks@.take(i as int));
        assert(chunks@.take(i + 1).last() == chunks@[i as int]);
        out.extend_from_slice(chunks[i].as_slice());
        i += 1;
    }
    assert(chunks@.take(i as int) =~= chunks@);
    out
}

/// Whether one of the TXT records that were answered, each with its chunks, holds
/// the value of a handle.
pub fn visible(answers: &Vec<Vec<Vec<u8>>>, handle: &TxtHandle) -> (r: bool)
    ensures
        r == exists|i: int|
            0 <= i < answers@.len() && lossy_text(joined((#[trigger] answers@[i])@))
                == handle.value@,
{
    let mut i: usize = 0;
    while i < answers.len()
        invariant
            i <= answers.len(),
            forall|j: int|
                0 <= j < i ==> lossy_text(joined((#[trigger] answers@[j])@)) != handle.value@,
        decreases answers.len() - i,
    {
        let bytes: Vec<u8> = join_chunks(&answers[i]);
        if same_text(decode_lossy(&bytes).as_str(), handle.value.as_str()) {
            return true;
        }
        i += 1;
    }
    false
}

/// A value that was published is in the journal until it is taken out, once, and the other
/// values stay in it.
pub proof fn law_journal_holds_what_is_published(
    entries: &mut Vec<TxtHandle>,
    handle: TxtHandle,
    after: Vec<TxtHandle>,
    i: int,
)
    requires
        call_ensures(journal_add, (entries, &handle), ()),
        call_ensures(journal_remove, (*final(entries), &handle), after),
    ensures
        exists|j: int| 0 <= j < final(entries)@.len() && (#[trigger] final(entries)@[j])@ == handle@,
        final(entries)@.len() <= old(entries)@.len() + 1,
        0 <= i < old(entries)@.len() ==> final(entries)@[i]@ == old(entries)@[i]@,
        0 <= i < after@.len() ==> after@[i]@ != handle@,
        0 <= i < old(entries)@.len() && old(entries)@[i]@ != handle@ ==> exists|j: int|
            0 <= j < after@.len() && (#[trigger] after@[j])@ == old(entries)@[i]@,
{
    broadcast use vstd::seq_lib::group_filter_ensures;

    let before = handle_views(old(entries)@);
    let now = handle_views(final(entries)@);
    let keep = |h: HandleView| h != handle@;
    let left = handle_views(after@);
    assert(now.len() == final(entries)@.len());
    assert(before.len() == old(entries)@.len());
    assert(left.len() == after@.len());
    if before.contains(handle@) {
        let j = before.index_of(handle@);
        assert(final(entries)@[j]@ == now[j]);
    } else {
        assert(now[now.len() - 1] == handle@);
        assert(final(entries)@[now.len() - 1]@ == now[now.len() - 1]);
    }
    if 0 <= i < old(entries)@.len() {
        assert(before[i] == old(entries)@[i]@);
        assert(now[i] == before[i]);
        assert(now[i] == final(entries)@[i]@);
        if keep(before[i]) {
            assert(now.filter(keep).contains(now[i]));
            let j = left.index_of(now[i]);
            assert(after@[j]@ == left[j]);
        }
    }
    if 0 <= i < after@.len() {
        assert(left[i] == after@[i]@);
        assert(keep(now.filter(keep)[i]));
    }
}

/// A value belongs to the domain that it was published for, or else to the one that its name
/// shows.
pub proof fn law_values_belong_to_a_domain(handle: TxtHandle, rest: Seq<char>, r: Option<&str>)
    requires
        call_ensures(TxtHandle::domain, (&handle,), r),
    ensures
        handle.domain@.len() > 0 ==> r is Some && r->0@ == handle.domain@,
        handle.domain@.len() == 0 && handle.name@ == "_acme-challenge."@ + rest ==> r is Some
            && r->0@ == rest,
        handle.domain@.len() == 0 && r is Some ==> handle.name@ == "_acme-challenge."@ + r->0@,
{
    let prefix = "_acme-challenge."@;
    if handle.name@ == prefix + rest {
        assert(handle.name@.take(prefix.len() as int) =~= prefix);
        assert(handle.name@.skip(prefix.len() as int) =~= rest);
    }
    if handle.domain@.len() == 0 && r is Some {
        assert(handle.name@ =~= handle.name@.take(prefix.len() as int) + handle.name@.skip(
            prefix.len() as int,
        ));
    }
}

/// A challenge is published under the domain's own challenge name, or where that is delegated
/// to, as long as it is delegated into a zone that may be worked in.
pub proof fn law_challenges_are_published_where_delegated(
    solver: TxtChallengeSolver,
    domain: &str,
    delegation: Option<&str>,
    target: Result<String, hostname::HostnameError>,
    target_text: &str,
    permitted: bool,
    r: Result<String, String>,
)
    requires
        call_ensures(TxtChallengeSolver::challenge_name, (&solver, domain, delegation), r),
        delegation is Some ==> call_ensures(hostname::normalize_dns_name, (delegation->0,), target),
        delegation is Some && target is Ok ==> target_text@ == target->Ok_0@,
        call_ensures(delegation_allowed, (target_text, &solver.allowed_zones), permitted),
    ensures
        delegation is None ==> r is Ok && r->Ok_0@ == "_acme-challenge."@ + domain@,
        delegation is Some ==> r is Ok == (target is Ok && permitted),
        delegation is Some && r is Ok ==> r->Ok_0@ == target->Ok_0@,
{
}

/// A name may be delegated to if and only if it lies in an allowed zone.
pub proof fn law_delegations_stay_in_allowed_zones(
    target: &str,
    zones: Vec<String>,
    i: int,
    zone: &str,
    inside: bool,
    r: bool,
)
    requires
        call_ensures(delegation_allowed, (target, &zones), r),
        0 <= i < zones@.len() ==> zone@ == zones@[i]@,
        call_ensures(hostname::is_within_zone, (target, zone), inside),
    ensures
        0 <= i < zones@.len() && inside ==> r,
        zones@.len() == 0 ==> !r,
        zones@.len() == 1 && i == 0 ==> r == inside,
{
    let views = text::views(zones@);
    if 0 <= i < zones@.len() {
        assert(views[i] == zone@);
    }
    if zones@.len() == 1 && i == 0 && r {
        let j = choose|j: int|
            0 <= j < views.len() && hostname::within_zone(target@, #[trigger] views[j]);
        assert(j == 0);
    }
}

/// The provider for a name is one whose zone holds it, and none has a longer zone that does;
/// there is one if and only if some zone holds the name.
pub proof fn law_longest_zone_is_responsible(
    solver: TxtChallengeSolver,
    name: &str,
    i: int,
    r: Option<usize>,
)
    requires
        call_ensures(TxtChallengeSolver::provider_for, (&solver, name), r),
        0 <= i < solver.zones@.len(),
        hostname::within_zone(name@, solver.zones@[i]@),
    ensures
        r is Some && r->0 < solver.zones@.len(),
        hostname::within_zone(name@, solver.zones@[r->0 as int]@),
        encode_utf8(solver.zones@[r->0 as int]@).len() >= encode_utf8(solver.zones@[i]@).len(),
{
    let zones = text::views(solver.zones@);
    assert(zones[i] == solver.zones@[i]@);
    law_most_specific_zone_is_chosen(name@, zones, i);
    assert(zones[r->0 as int] == solver.zones@[r->0 as int]@);
}

proof fn lemma_first_zone(zone: Seq<char>, zones: Seq<Seq<char>>, from: int, k: int)
    requires
        0 <= from <= k < zones.len(),
        zones[k] == zone,
    ensures
        first_zone(zone, zones, from) matches Some(i) && from <= i <= k && zones[i] == zone,
    decreases zones.len() - from,
{
    if zones[from] != zone {
        lemma_first_zone(zone, zones, from + 1, k);
    }
}

proof fn lemma_found_zone(zone: Seq<char>, zones: Seq<Seq<char>>, from: int)
    requires
        0 <= from,
    ensures
        first_zone(zone, zones, from) matches Some(i) ==> from <= i < zones.len() && zones[i]
            == zone,
    decreases zones.len() - from,
{
    if from < zones.len() && zones[from] != zone {
        lemma_found_zone(zone, zones, from + 1);
    }
}

/// The provider of a zone is the first one with exactly that zone.
pub proof fn law_zones_have_their_provider(
    solver: TxtChallengeSolver,
    zone: &str,
    k: int,
    r: Result<usize, String>,
)
    requires
        call_ensures(TxtChallengeSolver::zone_provider, (&solver, zone), r),
    ensures
        r is Ok ==> r->Ok_0 < solver.zones@.len() && solver.zones@[r->Ok_0 as int]@ == zone@,
        0 <= k < solver.zones@.len() && solver.zones@[k]@ == zone@ ==> r is Ok && r->Ok_0 <= k,
{
    let zones = text::views(solver.zones@);
    lemma_found_zone(zone@, zones, 0);
    if 0 <= k < solver.zones@.len() && solver.zones@[k]@ == zone@ {
        assert(zones[k] == zone@);
        lemma_first_zone(zone@, zones, 0, k);
    }
}

/// Publishing a value starts with the name to publish it under and the provider for that; it is
/// known by its zone, name, value and domain.
pub proof fn law_published_values_are_known(
    solver: TxtChallengeSolver,
    domain: &str,
    value: &str,
    delegation: Option<&str>,
    name: Result<String, String>,
    name_text: &str,
    provider: Option<usize>,
    r: Result<(TxtHandle, usize), String>,
)
    requires
        call_ensures(TxtChallengeSolver::start_add, (&solver, domain, value, delegation), r),
        call_ensures(TxtChallengeSolver::challenge_name, (&solver, domain, delegation), name),
        name is Ok ==> name_text@ == name->Ok_0@,
        call_ensures(TxtChallengeSolver::provider_for, (&solver, name_text), provider),
    ensures
        r is Ok == (name is Ok && provider is Some),
        r matches Ok((h, at)) ==> h.name@ == name->Ok_0@ && h.value@ == value@ && h.domain@
            == domain@ && at == provider->0 && h.zone@ == solver.zones@[at as int]@,
{
    if name is Ok && provider is Some {
        let zones = text::views(solver.zones@);
        assert(zones[provider->0 as int] == solver.zones@[provider->0 as int]@);
        let h = (r->Ok_0).0;
        assert(h@.zone == h.zone@);
    }
}

/// A value is added to the record set that was seen, or removed from it, with everything else
/// of the set as it was, and only if it has to be. A set that would be empty goes.
pub proof fn law_only_the_value_changes(
    run: &mut TxtRun,
    observed: Option<Observed>,
    r: TxtAction,
    v: Seq<char>,
)
    requires
        1 <= old(run).attempt <= 6,
        call_ensures(TxtRun::step, (run, TxtEvent::Observed(Ok(observed))), r),
        observed is Some ==> observed->0.unsupported is None,
        observed is Some ==> crate::order::ascending(observed->0.set.values@),
    ensures
        ({
            let held = observed is Some && observed->0.set.values@.contains(
                old(run).handle.value@,
            );
            let value = old(run).handle.value@;
            &&& r is Done == (held == (old(run).change is Add))
            &&& !(r is Done) ==> r is Replace && record::set_view(r->expected) == (match observed {
                Some(o) => Some(o.set@),
                None => None,
            })
            &&& r is Replace && old(run).change is Add ==> {
                &&& r->desired is Some
                &&& r->desired->0.values@.contains(v) == (v == value || (observed is Some
                    && observed->0.set.values@.contains(v)))
                &&& observed is None ==> r->desired->0.name@ == old(run).handle.name@
                    && r->desired->0.ttl == old(run).ttl && r->desired->0.record_type is Txt
                &&& observed is Some ==> r->desired->0.name@ == observed->0.set.name@
                    && r->desired->0.ttl == observed->0.set.ttl && r->desired->0.record_type
                    == observed->0.set.record_type
            }
            &&& r is Replace && old(run).change is Remove ==> {
                &&& r->desired matches Some(d) ==> (d.values@.contains(v) == (v != value
                    && observed->0.set.values@.contains(v)) && d.name@ == observed->0.set.name@
                    && d.ttl == observed->0.set.ttl)
                &&& r->desired is None ==> (observed->0.set.values@.contains(v) ==> v == value)
            }
        }),
{
    let current = match observed {
        Some(o) => Some(o.set@),
        None => None,
    };
    let value = old(run).handle.value@;
    if observed is Some {
        text_set::lemma_inserted(observed->0.set.values@, value);
        text_set::lemma_removed(observed->0.set.values@, value);
    }
    if r is Replace {
        assert(record::set_view(r->expected) == current);
        if r->desired is Some {
            assert(record::set_view(r->desired) == Some(r->desired->0@));
        }
        if old(run).change == TxtChange::Add && observed is None {
            assert(r->desired->0@.values == seq![value]);
            assert(seq![value][0] == value);
        }
        if old(run).change == TxtChange::Remove {
            let rest = text_set::removed(observed->0.set.values@, value);
            if rest.contains(v) {
                assert(rest.len() > 0);
            }
        }
    }
}

/// A change that met another one is tried again after a short wait, six times at most; a change
/// that was accepted is waited for, and any other failure ends it.
pub proof fn law_changes_are_tried_again(
    run: &mut TxtRun,
    event: TxtEvent,
    r: TxtAction,
)
    requires
        1 <= old(run).attempt <= 6,
        call_ensures(TxtRun::step, (run, event), r),
    ensures
        final(run).attempt <= 6,
        event is Start ==> r is Get,
        event matches TxtEvent::Observed(Err(_)) ==> r is Fail,
        event matches TxtEvent::Observed(Ok(Some(o))) ==> (o.unsupported is Some ==> r is Fail),
        event matches TxtEvent::Replaced(Ok(ticket)) ==> r == TxtAction::WaitSynced(ticket),
        event matches TxtEvent::Replaced(Err(e)) ==> match e {
            DnsError::Conflict(_) => r is Sleep && r->Sleep_0.nanos == old(run).attempt
                * 100_000_000,
            DnsError::RateLimited { retry_after } => {
                &&& r is Sleep
                &&& r->Sleep_0.nanos <= 30_000_000_000
                &&& retry_after is None ==> r->Sleep_0.nanos == 2_000_000_000
                &&& retry_after is Some && retry_after->0.nanos <= 30_000_000_000
                    ==> r->Sleep_0.nanos == retry_after->0.nanos
            },
            _ => r is Fail,
        },
        event matches TxtEvent::Synced(x) ==> (x is Ok == (r is Done) && x is Err == (r is Fail)),
        event is Slept ==> if old(run).attempt < 6 {
            r is Get && final(run).attempt == old(run).attempt + 1
        } else {
            r is Fail
        },
{
}

/// A wait for the provider ends with the change or at the deadline; the pauses double from
/// what they were up to five seconds.
pub proof fn law_waits_end_at_the_deadline(
    wait: &mut SyncWait,
    now: u128,
    synced: Result<bool, DnsError>,
    r: WaitAction,
    handle: TxtHandle,
    settings: TxtSettings,
    deadline: u128,
    seen: bool,
    propagated: WaitAction,
)
    requires
        old(wait).delay <= 5000,
        call_ensures(SyncWait::step, (wait, now, synced), r),
        settings.propagation_timeout.nanos <= u64::MAX,
        settings.poll_interval.nanos <= u64::MAX,
        call_ensures(wait_propagated, (&handle, &settings, now, deadline, seen), propagated),
    ensures
        final(wait).deadline == old(wait).deadline,
        synced matches Ok(done) ==> (done == (r is Done)),
        synced is Err ==> r is Fail,
        synced == Ok::<bool, DnsError>(false) ==> if now < old(wait).deadline {
            r == WaitAction::Sleep(old(wait).delay) && final(wait).delay == if old(wait).delay
                < 2500 {
                2 * old(wait).delay
            } else {
                5000
            }
        } else {
            r is Fail
        },
        seen == (propagated is Done),
        !seen ==> if now < deadline {
            propagated is Sleep && propagated->Sleep_0 == settings.poll_interval.nanos / 1_000_000
        } else {
            propagated is Fail
        },
{
}

/// A value is visible only if one of the answers, its chunks put together, is the value.
pub proof fn law_values_are_seen_in_answers(
    answers: Vec<Vec<Vec<u8>>>,
    handle: TxtHandle,
    whole: Vec<u8>,
    r: bool,
)
    requires
        call_ensures(visible, (&answers, &handle), r),
        answers@.len() == 1 ==> call_ensures(join_chunks, (&answers@[0],), whole),
    ensures
        answers@.len() == 0 ==> !r,
        answers@.len() == 1 && r ==> lossy_text(whole@) == handle.value@,
        r ==> exists|j: int|
            0 <= j < answers@.len() && lossy_text(joined((#[trigger] answers@[j])@))
                == handle.value@,
{
}

/// Chunks are put together in order and without anything between them.
pub proof fn law_chunks_are_put_together(
    fewer: Vec<Vec<u8>>,
    chunks: Vec<Vec<u8>>,
    last: Vec<u8>,
    less: Vec<u8>,
    r: Vec<u8>,
)
    requires
        chunks@ == fewer@.push(last),
        call_ensures(join_chunks, (&fewer,), less),
        call_ensures(join_chunks, (&chunks,), r),
    ensures
        fewer@.len() == 0 ==> less@.len() == 0,
        r@ == less@ + last@,
{
    assert(chunks@.drop_last() =~= fewer@);
}

/// A conflict is tried again after a while that grows with the attempts; a provider that is
/// asked too often is given the time that it asks for, up to half a minute. Anything else fails.
pub proof fn law_trouble_is_waited_out(error: DnsError, attempt: u32, r: Result<Duration, String>)
    requires
        attempt <= MAX_ATTEMPTS,
        call_ensures(retry_or_fail, (&error, attempt), r),
    ensures
        r is Ok == (error is Conflict || error is RateLimited),
        error is Conflict ==> r->Ok_0.nanos == attempt * 100_000_000,
        error matches DnsError::RateLimited { retry_after } ==> match retry_after {
            None => r->Ok_0.nanos == 2_000_000_000,
            Some(d) => r->Ok_0.nanos <= d.nanos && r->Ok_0.nanos <= 30_000_000_000 && (
            r->Ok_0.nanos == d.nanos || r->Ok_0.nanos == 30_000_000_000),
        },
{
}

} // verus!
