//! In-memory DNS provider with the same conditional semantics as the real
//! adapters.

use vstd::prelude::*;
use vstd::string::*;
use crate::edge::dns::plan;
use crate::edge::dns::plan::record_key;
use crate::edge::dns::record;
use crate::edge::dns::record::{
    check_expected, ChangeTicket, DnsError, DnsErrorView, Observed, ObservedView, RecordSet,
    RecordSetView, RecordType,
};
use crate::text;
use crate::text::decimal_text;
use crate::text_map::TextMap;

verus! {

/// What is reported of records, by their values.
pub open spec fn observed_views(m: Map<Seq<char>, Observed>) -> Map<Seq<char>, ObservedView> {
    m.map_values(|o: Observed| o@)
}

/// What is reported of a key.
pub open spec fn reported(m: Map<Seq<char>, ObservedView>, key: Seq<char>) -> Option<ObservedView> {
    if m.contains_key(key) {
        Some(m[key])
    } else {
        None
    }
}

/// A provider that keeps its records in memory.
#[derive(Debug)]
pub struct MemoryProvider {
    /// By name and type.
    pub records: TextMap<Observed>,
    /// Errors with which the next calls fail.
    pub failures: Vec<DnsError>,
    pub writes: u64,
    /// When set, changes are reported as Route 53-style tickets that sync on demand
    pub tracked_changes: Option<TextMap<bool>>,
}

/// What is kept of a record set: other than for TXT records it is always said
/// whether it is proxied, as before, or not.
pub open spec fn stored(
    t: RecordType,
    desired: RecordSetView,
    current: Option<ObservedView>,
) -> RecordSetView {
    if desired.proxied is None && t != RecordType::Txt {
        RecordSetView {
            proxied: if current is Some && current->0.set.proxied is Some {
                current->0.set.proxied
            } else {
                Some(false)
            },
            ..desired
        }
    } else {
        desired
    }
}

/// The records after a change.
pub open spec fn replaced(
    m: Map<Seq<char>, ObservedView>,
    key: Seq<char>,
    t: RecordType,
    desired: Option<RecordSetView>,
) -> Map<Seq<char>, ObservedView> {
    match desired {
        Some(set) => m.insert(
            key,
            ObservedView { set: stored(t, set, reported(m, key)), unsupported: None },
        ),
        None => m.remove(key),
    }
}

/// The id of the change that is the `n`th write.
pub open spec fn change_name(n: nat) -> Seq<char> {
    "C"@ + text::decimal(n)
}

impl MemoryProvider {
    /// The records by their values.
    pub open spec fn views(self) -> Map<Seq<char>, ObservedView> {
        observed_views(self.records@)
    }

    /// The tracked changes, and which of them are synced.
    pub open spec fn changes(self) -> Option<Map<Seq<char>, bool>> {
        match self.tracked_changes {
            Some(c) => Some(c@),
            None => None,
        }
    }

    pub fn new() -> (r: Self)
        ensures
            r.views() == Map::<Seq<char>, ObservedView>::empty(),
            r.failures@.len() == 0,
            r.writes == 0,
            r.tracked_changes is None,
    {
        let r: MemoryProvider = MemoryProvider {
            records: TextMap::new(),
            failures: Vec::new(),
            writes: 0,
            tracked_changes: None,
        };
        assert(r.views() =~= Map::<Seq<char>, ObservedView>::empty());
        r
    }

    /// Report changes as tickets that stay pending until [`MemoryProvider::sync_all`].
    pub fn with_tracked_changes() -> (r: Self)
        ensures
            r.views() == Map::<Seq<char>, ObservedView>::empty(),
            r.failures@.len() == 0,
            r.writes == 0,
            r.changes() == Some(Map::<Seq<char>, bool>::empty()),
    {
        let mut r: MemoryProvider = MemoryProvider::new();
        r.tracked_changes = Some(TextMap::new());
        r
    }

    fn put(&mut self, key: String, o: Observed)
        ensures
            final(self).views() == old(self).views().insert(key@, o@),
            final(self).failures == old(self).failures,
            final(self).writes == old(self).writes,
            final(self).tracked_changes == old(self).tracked_changes,
    {
        let ghost before = self.records@;
        self.records.insert(key, o);
        assert(observed_views(before.insert(key@, o)) =~= observed_views(before).insert(key@, o@));
    }

    fn take(&mut self, key: &str)
        ensures
            final(self).views() == old(self).views().remove(key@),
            final(self).failures == old(self).failures,
            final(self).writes == old(self).writes,
            final(self).tracked_changes == old(self).tracked_changes,
    {
        let ghost before = self.records@;
        self.records.remove(key);
        assert(observed_views(before.remove(key@)) =~= observed_views(before).remove(key@));
    }

    /// Simulate a change made by another tool.
    pub fn set_external(&mut self, set: RecordSet)
        ensures
            final(self).views() == old(self).views().insert(
                plan::key_of(set.name@, set.record_type),
                ObservedView { set: set@, unsupported: None },
            ),
            final(self).failures == old(self).failures,
            final(self).writes == old(self).writes,
            final(self).tracked_changes == old(self).tracked_changes,
    {
        let key: String = record_key(set.name.as_str(), set.record_type);
        self.put(key, Observed { set, unsupported: None });
    }

    /// Simulate a record set that cannot be managed.
    pub fn set_unsupported(&mut self, set: RecordSet, reason: &str)
        ensures
            final(self).views() == old(self).views().insert(
                plan::key_of(set.name@, set.record_type),
                ObservedView { set: set@, unsupported: Some(reason@) },
            ),
            final(self).failures == old(self).failures,
            final(self).writes == old(self).writes,
            final(self).tracked_changes == old(self).tracked_changes,
    {
        let key: String = record_key(set.name.as_str(), set.record_type);
        self.put(key, Observed { set, unsupported: Some(reason.to_owned()) });
    }

    /// Simulate a deletion made by another tool.
    pub fn remove_external(&mut self, name: &str, record_type: RecordType)
        ensures
            final(self).views() == old(self).views().remove(plan::key_of(name@, record_type)),
            final(self).failures == old(self).failures,
            final(self).writes == old(self).writes,
            final(self).tracked_changes == old(self).tracked_changes,
    {
        self.take(record_key(name, record_type).as_str());
    }

    /// The record set as it is now.
    pub fn snapshot(&self, name: &str, record_type: RecordType) -> (r: Option<RecordSet>)
        ensures
            record::set_view(r) == record::reported_set(
                reported(self.views(), plan::key_of(name@, record_type)),
            ),
    {
        match self.records.get(record_key(name, record_type).as_str()) {
            Some(o) => Some(o.set.clone()),
            None => None,
        }
    }

    /// Make the next provider call fail with `error`.
    pub fn fail_next(&mut self, error: DnsError)
        ensures
            final(self).failures@ == old(self).failures@.push(error),
            final(self).records == old(self).records,
            final(self).writes == old(self).writes,
            final(self).tracked_changes == old(self).tracked_changes,
    {
        self.failures.push(error);
    }

    /// How many changes were made.
    pub fn writes(&self) -> (r: u64)
        ensures
            r == self.writes,
    {
        self.writes
    }

    /// All changes made so far have taken effect.
    pub fn sync_all(&mut self)
        ensures
            final(self).records == old(self).records,
            final(self).failures == old(self).failures,
            final(self).writes == old(self).writes,
            match old(self).changes() {
                Some(m) => final(self).changes() == Some(m.map_values(|b: bool| true)),
                None => final(self).changes() is None,
            },
    {
        match &self.tracked_changes {
            None => {},
            Some(changes) => {
                let mut synced: TextMap<bool> = TextMap::new();
                let n: usize = changes.len();
                let ghost keys = changes.keys();
                let mut i: usize = 0;
                while i < n
                    invariant
                        i <= n == keys.len(),
                        keys == changes.keys(),
                        forall|k: Seq<char>| #[trigger]
                            synced@.contains_key(k) == keys.take(i as int).contains(k),
                        forall|k: Seq<char>| #[trigger] synced@.contains_key(k) ==> synced@[k],
                    decreases n - i,
                {
                    let ghost before = synced@;
                    synced.insert(changes.key_at(i).clone(), true);
                    i += 1;
                    assert(keys.take(i as int) =~= keys.take(i - 1).push(keys[i - 1]));
                    assert forall|k: Seq<char>| #[trigger]
                        synced@.contains_key(k) == keys.take(i as int).contains(k) by {
                        let now = keys.take(i as int);
                        let earlier = keys.take(i - 1);
                        assert(synced@.contains_key(k) == (before.contains_key(k) || k == keys[i
                            - 1]));
                        assert(now[i - 1] == keys[i - 1]);
                        if earlier.contains(k) {
                            let j = choose|j: int| 0 <= j < earlier.len() && earlier[j] == k;
                            assert(now[j] == k);
                        }
                        if now.contains(k) && k != keys[i - 1] {
                            let j = choose|j: int| 0 <= j < now.len() && now[j] == k;
                            assert(earlier[j] == k);
                        }
                    }
                }
                assert(keys.take(i as int) =~= keys);
                assert(synced@ =~= changes@.map_values(|b: bool| true));
                self.tracked_changes = Some(synced);
            },
        }
    }

    fn take_failure(&mut self) -> (r: Result<(), DnsError>)
        ensures
            final(self).records == old(self).records,
            final(self).writes == old(self).writes,
            final(self).tracked_changes == old(self).tracked_changes,
            if old(self).failures@.len() > 0 {
                r == Err::<(), DnsError>(old(self).failures@[0]) && final(self).failures@ == old(self).failures@.skip(1)
            } else {
                r is Ok && final(self).failures@ == old(self).failures@
            },
    {
        if self.failures.len() > 0 {
            let e: DnsError = self.failures.remove(0);
            assert(self.failures@ =~= old(self).failures@.skip(1));
            Err(e)
        } else {
            Ok(())
        }
    }

    /// Reads a record set.
    pub fn get(&mut self, name: &str, record_type: RecordType) -> (r: Result<
        Option<Observed>,
        DnsError,
    >)
        ensures
            final(self).records == old(self).records,
            final(self).writes == old(self).writes,
            final(self).tracked_changes == old(self).tracked_changes,
            if old(self).failures@.len() > 0 {
                r == Err::<Option<Observed>, DnsError>(old(self).failures@[0])
                    && final(self).failures@ == old(self).failures@.skip(1)
            } else {
                &&& final(self).failures@ == old(self).failures@
                &&& r is Ok
                &&& (match r->Ok_0 {
                    Some(o) => Some(o@),
                    None => None,
                }) == reported(old(self).views(), plan::key_of(name@, record_type))
            },
    {
        if let Err(e) = self.take_failure() {
            return Err(e);
        }
        match self.records.get(record_key(name, record_type).as_str()) {
            Some(o) => Ok(Some(o.clone())),
            None => Ok(None),
        }
    }

    /// Changes a record set into `desired`, if it is still the one that is
    /// expected; otherwise nothing changes.
    pub fn replace(
        &mut self,
        name: &str,
        record_type: RecordType,
        expected: Option<&RecordSet>,
        desired: Option<&RecordSet>,
    ) -> (r: Result<ChangeTicket, DnsError>)
        requires
            old(self).writes < u64::MAX,
        ensures
            ({
                let key = plan::key_of(name@, record_type);
                let before = old(self).views();
                let refused = record::refusal(reported(before, key), record::ref_view(expected));
                let n = old(self).writes + 1;
                if old(self).failures@.len() > 0 {
                    &&& r == Err::<ChangeTicket, DnsError>(old(self).failures@[0])
                    &&& final(self).failures@ == old(self).failures@.skip(1)
                    &&& final(self).views() == before
                    &&& final(self).writes == old(self).writes
                    &&& final(self).changes() == old(self).changes()
                } else if refused is Some {
                    &&& r is Err
                    &&& r->Err_0@ == DnsErrorView::Conflict(refused->0)
                    &&& final(self).failures@ == old(self).failures@
                    &&& final(self).views() == before
                    &&& final(self).writes == old(self).writes
                    &&& final(self).changes() == old(self).changes()
                } else {
                    &&& final(self).failures@ == old(self).failures@
                    &&& final(self).views() == replaced(
                        before,
                        key,
                        record_type,
                        record::ref_view(desired),
                    )
                    &&& final(self).writes == n
                    &&& match old(self).changes() {
                        Some(m) => r is Ok && r->Ok_0 is Route53 && r->Ok_0->change_id@
                            == change_name(n as nat) && final(self).changes() == Some(
                            m.insert(change_name(n as nat), false),
                        ),
                        None => r == Ok::<ChangeTicket, DnsError>(ChangeTicket::Immediate)
                            && final(self).changes() is None,
                    }
                }
            }),
    {
        if let Err(e) = self.take_failure() {
            return Err(e);
        }
        let key: String = record_key(name, record_type);
        let current: Option<Observed> = match self.records.get(key.as_str()) {
            Some(o) => Some(o.clone()),
            None => None,
        };
        if let Err(e) = check_expected(current.as_ref(), expected) {
            return Err(e);
        }
        let proxied: Option<bool> = match &current {
            Some(o) => o.set.proxied,
            None => None,
        };
        match desired {
            Some(set) => {
                let mut stored: RecordSet = set.clone();
                if stored.proxied.is_none() && record_type != RecordType::Txt {
                    stored.proxied = match proxied {
                        Some(p) => Some(p),
                        None => Some(false),
                    };
                }
                self.put(key, Observed { set: stored, unsupported: None });
            },
            None => self.take(key.as_str()),
        }
        self.writes = self.writes + 1;
        let mut pending: Option<TextMap<bool>> = None;
        std::mem::swap(&mut pending, &mut self.tracked_changes);
        match pending {
            Some(changes) => {
                let mut changes: TextMap<bool> = changes;
                let change_id: String = "C".to_owned().concat(decimal_text(self.writes).as_str());
                changes.insert(change_id.clone(), false);
                self.tracked_changes = Some(changes);
                Ok(ChangeTicket::Route53 { change_id })
            },
            None => Ok(ChangeTicket::Immediate),
        }
    }

    /// Tracked changes report PENDING on the first poll and INSYNC afterwards.
    pub fn change_synced(&mut self, change_id: &str) -> (r: bool)
        ensures
            final(self).records == old(self).records,
            final(self).failures == old(self).failures,
            final(self).writes == old(self).writes,
            match old(self).changes() {
                Some(m) => {
                    &&& r == (m.contains_key(change_id@) && m[change_id@])
                    &&& final(self).changes() == Some(
                        if m.contains_key(change_id@) {
                            m.insert(change_id@, true)
                        } else {
                            m
                        },
                    )
                },
                None => !r && final(self).changes() is None,
            },
    {
        let mut pending: Option<TextMap<bool>> = None;
        std::mem::swap(&mut pending, &mut self.tracked_changes);
        match pending {
            Some(changes) => {
                let mut changes: TextMap<bool> = changes;
                let synced: Option<bool> = match changes.get(change_id) {
                    Some(b) => Some(*b),
                    None => None,
                };
                let r: bool = match synced {
                    Some(b) => {
                        changes.insert(change_id.to_owned(), true);
                        b
                    },
                    None => false,
                };
                self.tracked_changes = Some(changes);
                r
            },
            None => false,
        }
    }
}

/// A change is made only from the record set that was expected; what is stored
/// then has the desired data, so that making the same change again is refused
/// unless nothing was changed.
pub proof fn law_change_is_conditional(
    m: Map<Seq<char>, ObservedView>,
    key: Seq<char>,
    t: RecordType,
    expected: Option<RecordSetView>,
    desired: Option<RecordSetView>,
)
    requires
        record::refusal(reported(m, key), expected) is None,
    ensures
        record::refusal(reported(replaced(m, key, t, desired), key), desired) is None,
        !record::same_optional_records(desired, expected) ==> record::refusal(
            reported(replaced(m, key, t, desired), key),
            expected,
        ) is Some,
        forall|k: Seq<char>| k != key ==> #[trigger] reported(replaced(m, key, t, desired), k)
            == reported(m, k),
{
}

/// What was put in place, by whomever, is what is read; what was taken out is not there.
pub proof fn law_reads_give_back_what_was_put(
    a: &mut MemoryProvider,
    b: &mut MemoryProvider,
    set: RecordSet,
    name: &str,
    seen: Result<Option<Observed>, DnsError>,
    found: Option<RecordSet>,
    other: &str,
    other_type: RecordType,
    before: Option<RecordSet>,
    after: Option<RecordSet>,
    gone: Option<RecordSet>,
    c: &mut MemoryProvider,
)
    requires
        call_ensures(MemoryProvider::set_external, (a, set), ()),
        name@ == set.name@,
        *old(b) == *final(a),
        old(b).failures@.len() == 0,
        call_ensures(MemoryProvider::get, (b, name, set.record_type), seen),
        call_ensures(MemoryProvider::snapshot, (&*final(a), name, set.record_type), found),
        plan::key_of(other@, other_type) != plan::key_of(set.name@, set.record_type),
        call_ensures(MemoryProvider::snapshot, (&*old(a), other, other_type), before),
        call_ensures(MemoryProvider::snapshot, (&*final(a), other, other_type), after),
        *old(c) == *final(a),
        call_ensures(MemoryProvider::remove_external, (c, name, set.record_type), ()),
        call_ensures(MemoryProvider::snapshot, (&*final(c), name, set.record_type), gone),
    ensures
        seen matches Ok(Some(o)) && o.set@ == set@ && o.unsupported is None,
        found is Some && found->0@ == set@,
        record::set_view(after) == record::set_view(before),
        gone is None,
        final(a).writes == old(a).writes,
        final(c).writes == old(c).writes,
{
    let key = plan::key_of(set.name@, set.record_type);
    assert(final(a).views().contains_key(key));
    if seen is Ok && seen->Ok_0 is Some {
        assert(text::opt_view(seen->Ok_0->0.unsupported) is None);
    }
    assert(record::set_view(found) == Some(set@));
    assert(record::set_view(gone) is None);
}

/// A record set is replaced only where the provider still has what was expected; then it has
/// what was desired, counts one write more and, where changes are kept track of, gives a ticket
/// that is not synced yet. Where it does not, nothing changes.
pub proof fn law_replacing_needs_the_expected_set(
    provider: &mut MemoryProvider,
    name: &str,
    t: RecordType,
    expected: Option<&RecordSet>,
    desired: Option<&RecordSet>,
    r: Result<ChangeTicket, DnsError>,
    before: Option<RecordSet>,
    current: Option<Observed>,
    reader: &mut MemoryProvider,
    allowed: Result<(), DnsError>,
    found: Option<RecordSet>,
)
    requires
        old(provider).writes < u64::MAX,
        old(provider).failures@.len() == 0,
        *old(reader) == *old(provider),
        call_ensures(MemoryProvider::get, (reader, name, t), Ok::<Option<Observed>, DnsError>(current)),
        call_ensures(
            check_expected,
            (
                match current {
                    Some(o) => Some(&o),
                    None => None,
                },
                expected,
            ),
            allowed,
        ),
        call_ensures(MemoryProvider::replace, (provider, name, t, expected, desired), r),
        call_ensures(MemoryProvider::snapshot, (&*old(provider), name, t), before),
        call_ensures(MemoryProvider::snapshot, (&*final(provider), name, t), found),
    ensures
        r is Ok == allowed is Ok,
        r is Err ==> record::set_view(found) == record::set_view(before) && final(provider).writes == old(provider).writes,
        r is Ok ==> final(provider).writes == old(provider).writes + 1,
        r is Ok && desired is None ==> found is None,
        r is Ok && desired is Some ==> {
            &&& found is Some
            &&& found->0.name@ == desired->0.name@
            &&& found->0.record_type == desired->0.record_type
            &&& found->0.ttl == desired->0.ttl
            &&& found->0.values@ == desired->0.values@
            &&& desired->0.proxied is Some ==> found->0.proxied == desired->0.proxied
            &&& desired->0.proxied is None && !(t is Txt) && current is None ==> found->0.proxied
                == Some(false)
            &&& desired->0.proxied is None && !(t is Txt) && current is Some
                && current->0.set.proxied is Some ==> found->0.proxied == current->0.set.proxied
        },
        r is Ok ==> (r->Ok_0 is Route53) == (old(provider).tracked_changes is Some),
{
    let key = plan::key_of(name@, t);
    let m = old(provider).views();
    assert(record::observed_view(
        match current {
            Some(o) => Some(&o),
            None => None,
        },
    ) == reported(m, key));
    if r is Ok && desired is Some {
        assert(record::set_view(found) == Some(found->0@));
        if current is Some {
            assert(current->0@.set.proxied == current->0.set.proxied);
        }
    }
}

/// A failure that is set comes up once, at the next call, and changes nothing.
pub proof fn law_failures_come_up_once(
    a: &mut MemoryProvider,
    b: &mut MemoryProvider,
    error: DnsError,
    name: &str,
    t: RecordType,
    r: Result<Option<Observed>, DnsError>,
)
    requires
        old(a).failures@.len() == 0,
        call_ensures(MemoryProvider::fail_next, (a, error), ()),
        *old(b) == *final(a),
        call_ensures(MemoryProvider::get, (b, name, t), r),
    ensures
        r == Err::<Option<Observed>, DnsError>(error),
        final(b).failures@.len() == 0,
        final(b).records == old(a).records,
{
}

/// A change that is kept track of is synced from the second time on that it is asked about, or
/// from when all are; one that is not known never is.
pub proof fn law_tracked_changes_get_synced(
    a: &mut MemoryProvider,
    b: &mut MemoryProvider,
    c: &mut MemoryProvider,
    d: &mut MemoryProvider,
    id: &str,
    first: bool,
    second: bool,
    all: bool,
)
    requires
        call_ensures(MemoryProvider::change_synced, (a, id), first),
        *old(b) == *final(a),
        call_ensures(MemoryProvider::change_synced, (b, id), second),
        *old(c) == *old(a),
        call_ensures(MemoryProvider::sync_all, (c,), ()),
        *old(d) == *final(c),
        call_ensures(MemoryProvider::change_synced, (d, id), all),
    ensures
        ({
            let known = old(a).changes() is Some && old(a).changes()->0.contains_key(id@);
            &&& second == known
            &&& all == known
            &&& first ==> known
            &&& known ==> first == old(a).changes()->0[id@]
        }),
{
}

} // verus!
