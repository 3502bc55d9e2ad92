//! Desired DNS state from configuration, persisted management state, and the
//! decision logic that compares them with what a provider reports.

use vstd::prelude::*;
use vstd::string::*;
use crate::edge::config::DnsProviderConfig;
use crate::edge::config::DnsProviderType;
use crate::edge::dns::record;
use crate::edge::dns::record::{
    clone_set, same_optional, ChangeTicket, Observed, RecordSet, RecordSetView, RecordType,
};
use crate::text;
use crate::text::{decimal_text, quote};
use crate::text_map::TextMap;
use crate::text_set::TextSet;

verus! {

/// The label reserved for ACME DNS-01 challenge records, which are managed separately.
pub open spec fn acme_challenge_label() -> Seq<char> {
    "_acme-challenge"@
}

#[derive(Debug)]
pub struct ProviderSpec {
    pub name: String,
    pub kind: DnsProviderType,
    pub zone: String,
    pub config: DnsProviderConfig,
}

#[derive(Debug, PartialEq)]
pub struct DesiredRecord {
    pub provider: String,
    pub set: RecordSet,
    pub import: bool,
    pub absent: bool,
}

/// A [`DesiredRecord`] by the values that it holds.
#[verifier::ext_equal]
pub struct DesiredView {
    pub provider: Seq<char>,
    pub set: RecordSetView,
    pub import: bool,
    pub absent: bool,
}

impl View for DesiredRecord {
    type V = DesiredView;

    open spec fn view(&self) -> DesiredView {
        DesiredView {
            provider: self.provider@,
            set: self.set@,
            import: self.import,
            absent: self.absent,
        }
    }
}

impl Clone for DesiredRecord {
    fn clone(&self) -> (r: Self)
        ensures
            r@ == self@,
    {
        DesiredRecord {
            provider: self.provider.clone(),
            set: self.set.clone(),
            import: self.import,
            absent: self.absent,
        }
    }
}

/// The key of a record: its name and type.
pub open spec fn key_of(name: Seq<char>, t: RecordType) -> Seq<char> {
    name + "/"@ + record::record_type_name(t)
}

impl DesiredRecord {
    pub fn key(&self) -> (r: String)
        ensures
            r@ == key_of(self.set.name@, self.set.record_type),
    {
        record_key(self.set.name.as_str(), self.set.record_type)
    }
}

pub fn record_key(name: &str, record_type: RecordType) -> (r: String)
    ensures
        r@ == key_of(name@, record_type),
{
    let mut r: String = name.to_owned();
    r.append("/");
    r.append(record_type.as_str());
    r
}

#[derive(Debug)]
pub struct CompiledDns {
    pub allowed_zones: Vec<String>,
    pub providers: Vec<ProviderSpec>,
    pub records: Vec<DesiredRecord>,
}

/// Management state for one provider, persisted to `<state_dir>/<provider>.json`.
#[derive(Debug)]
pub struct ProviderState {
    /// Fencing generation of the last writer
    pub writer_generation: u64,
    pub records: TextMap<ManagedRecord>,
}

impl Default for ProviderState {
    fn default() -> (r: Self)
        ensures
            r.writer_generation == 0,
            r.records@ == Map::<Seq<char>, ManagedRecord>::empty(),
    {
        ProviderState { writer_generation: 0, records: TextMap::new() }
    }
}

#[derive(Debug, PartialEq)]
pub struct ManagedRecord {
    pub name: String,
    pub record_type: RecordType,
    /// What Sieve Tube last applied (what the provider should report)
    pub applied: Option<RecordSet>,
    /// The value before the last change, kept for rollback
    pub previous: Option<RecordSet>,
    /// Writer generation of the last change
    pub generation: u64,
    /// A change that was started but not confirmed
    pub pending: Option<PendingChange>,
    pub updated_at: i64,
}

#[derive(Debug, PartialEq)]
pub struct PendingChange {
    pub expected: Option<RecordSet>,
    pub desired: Option<RecordSet>,
    pub ticket: Option<ChangeTicket>,
    pub started_at: i64,
}

/// A [`PendingChange`] by the values that it holds.
#[verifier::ext_equal]
pub struct PendingView {
    pub expected: Option<RecordSetView>,
    pub desired: Option<RecordSetView>,
    pub ticket: Option<ChangeTicket>,
    pub started_at: i64,
}

impl View for PendingChange {
    type V = PendingView;

    open spec fn view(&self) -> PendingView {
        PendingView {
            expected: record::set_view(self.expected),
            desired: record::set_view(self.desired),
            ticket: self.ticket,
            started_at: self.started_at,
        }
    }
}

/// A [`ManagedRecord`] by the values that it holds.
#[verifier::ext_equal]
pub struct ManagedView {
    pub name: Seq<char>,
    pub record_type: RecordType,
    pub applied: Option<RecordSetView>,
    pub previous: Option<RecordSetView>,
    pub generation: u64,
    pub pending: Option<PendingView>,
    pub updated_at: i64,
}

impl View for ManagedRecord {
    type V = ManagedView;

    open spec fn view(&self) -> ManagedView {
        ManagedView {
            name: self.name@,
            record_type: self.record_type,
            applied: record::set_view(self.applied),
            previous: record::set_view(self.previous),
            generation: self.generation,
            pending: match self.pending {
                Some(p) => Some(p@),
                None => None,
            },
            updated_at: self.updated_at,
        }
    }
}

impl Clone for PendingChange {
    fn clone(&self) -> (r: Self)
        ensures
            r@ == self@,
    {
        PendingChange {
            expected: clone_set(&self.expected),
            desired: clone_set(&self.desired),
            ticket: match &self.ticket {
                Some(t) => Some(t.clone()),
                None => None,
            },
            started_at: self.started_at,
        }
    }
}

impl Clone for ManagedRecord {
    fn clone(&self) -> (r: Self)
        ensures
            r@ == self@,
    {
        ManagedRecord {
            name: self.name.clone(),
            record_type: self.record_type,
            applied: clone_set(&self.applied),
            previous: clone_set(&self.previous),
            generation: self.generation,
            pending: match &self.pending {
                Some(p) => Some(p.clone()),
                None => None,
            },
            updated_at: self.updated_at,
        }
    }
}

#[derive(Debug, PartialEq)]
pub enum Action {
    NoChange,
    /// Conditionally change `expected` into `desired` (create, update or delete)
    Apply { expected: Option<RecordSet>, desired: Option<RecordSet> },
    /// Start managing an existing record that already has the desired data
    Adopt { current: RecordSet },
    /// The managed record is gone as requested; drop it from the state
    Forget,
    Wait { reason: String },
    Conflict { reason: String },
}

/// An [`Action`] by the values that it holds.
pub enum ActionView {
    NoChange,
    Apply(Option<RecordSetView>, Option<RecordSetView>),
    Adopt(RecordSetView),
    Forget,
    Wait(Seq<char>),
    Conflict(Seq<char>),
}

impl View for Action {
    type V = ActionView;

    open spec fn view(&self) -> ActionView {
        match *self {
            Action::NoChange => ActionView::NoChange,
            Action::Apply { expected, desired } => ActionView::Apply(
                record::set_view(expected),
                record::set_view(desired),
            ),
            Action::Adopt { current } => ActionView::Adopt(current@),
            Action::Forget => ActionView::Forget,
            Action::Wait { reason } => ActionView::Wait(reason@),
            Action::Conflict { reason } => ActionView::Conflict(reason@),
        }
    }
}

/// The label of an action.
pub open spec fn action_label(a: ActionView) -> Seq<char> {
    match a {
        ActionView::NoChange => "in_sync"@,
        ActionView::Apply(_, _) => "change"@,
        ActionView::Adopt(_) => "adopt"@,
        ActionView::Forget => "forget"@,
        ActionView::Wait(_) => "pending"@,
        ActionView::Conflict(_) => "conflict"@,
    }
}

/// Texts in quotes, as Rust's `Debug` writes a set of them.
pub open spec fn shown_values(values: Seq<Seq<char>>) -> Seq<char> {
    "{"@ + text::join(values.map_values(|v: Seq<char>| text::quoted(v)), ", "@) + "}"@
}

/// A record set in words.
pub open spec fn shown(set: Option<RecordSetView>) -> Seq<char> {
    match set {
        None => "(none)"@,
        Some(s) => {
            let start = "ttl="@ + text::decimal(s.ttl as nat) + " values="@ + shown_values(s.values);
            match s.proxied {
                None => start,
                Some(true) => start + " proxied="@ + "true"@,
                Some(false) => start + " proxied="@ + "false"@,
            }
        },
    }
}

/// An action in words.
pub open spec fn described(a: ActionView) -> Seq<char> {
    match a {
        ActionView::NoChange => "in sync"@,
        ActionView::Apply(None, desired) => "create "@ + shown(desired),
        ActionView::Apply(expected, None) => "delete "@ + shown(expected),
        ActionView::Apply(expected, desired) => "update "@ + shown(expected) + " -> "@ + shown(
            desired,
        ),
        ActionView::Adopt(current) => "adopt existing "@ + shown(Some(current)),
        ActionView::Forget => "already deleted; forget"@,
        ActionView::Wait(reason) => "wait: "@ + reason,
        ActionView::Conflict(reason) => "conflict: "@ + reason,
    }
}

fn show_values(values: &TextSet) -> (r: String)
    ensures
        r@ == shown_values(values@),
{
    let ghost all = values@.map_values(|v: Seq<char>| text::quoted(v));
    let n: usize = values.len();
    let mut parts: Vec<String> = Vec::new();
    let mut i: usize = 0;
    assert(text::views(parts@) =~= all.take(0));
    while i < n
        invariant
            i <= n == values@.len(),
            all == values@.map_values(|v: Seq<char>| text::quoted(v)),
            text::views(parts@) == all.take(i as int),
        decreases n - i,
    {
        let ghost before = text::views(parts@);
        parts.push(quote(values.item(i).as_str()));
        i += 1;
        assert(text::views(parts@) =~= before.push(all[i - 1]));
        assert(all.take(i as int) =~= all.take(i - 1).push(all[i - 1]));
    }
    assert(all.take(i as int) =~= all);
    let mut r: String = "{".to_owned();
    r.append(text::join_text(&parts, ", ").as_str());
    r.append("}");
    r
}

fn show(set: Option<&RecordSet>) -> (r: String)
    ensures
        r@ == shown(record::ref_view(set)),
{
    match set {
        None => "(none)".to_owned(),
        Some(s) => {
            let mut r: String = "ttl=".to_owned();
            r.append(decimal_text(s.ttl as u64).as_str());
            r.append(" values=");
            r.append(show_values(&s.values).as_str());
            match s.proxied {
                None => {},
                Some(p) => {
                    r.append(" proxied=");
                    if p {
                        r.append("true");
                    } else {
                        r.append("false");
                    }
                },
            }
            r
        },
    }
}

impl Action {
    pub fn label(&self) -> (r: &'static str)
        ensures
            r@ == action_label(self@),
    {
        match self {
            Action::NoChange => "in_sync",
            Action::Apply { .. } => "change",
            Action::Adopt { .. } => "adopt",
            Action::Forget => "forget",
            Action::Wait { .. } => "pending",
            Action::Conflict { .. } => "conflict",
        }
    }

    /// Human-readable summary without secrets (used for dry-run output).
    pub fn describe(&self) -> (r: String)
        ensures
            r@ == described(self@),
    {
        match self {
            Action::NoChange => "in sync".to_owned(),
            Action::Apply { expected: None, desired } => "create ".to_owned().concat(
                show(desired.as_ref()).as_str(),
            ),
            Action::Apply { expected, desired: None } => "delete ".to_owned().concat(
                show(expected.as_ref()).as_str(),
            ),
            Action::Apply { expected, desired } => {
                let mut r: String = "update ".to_owned();
                r.append(show(expected.as_ref()).as_str());
                r.append(" -> ");
                r.append(show(desired.as_ref()).as_str());
                r
            },
            Action::Adopt { current } => "adopt existing ".to_owned().concat(
                show(Some(current)).as_str(),
            ),
            Action::Forget => "already deleted; forget".to_owned(),
            Action::Wait { reason } => "wait: ".to_owned().concat(reason.as_str()),
            Action::Conflict { reason } => "conflict: ".to_owned().concat(reason.as_str()),
        }
    }
}

/// The desired set; where it does not say whether it is proxied, as it is now.
pub open spec fn keep_proxied(
    desired: RecordSetView,
    current: Option<RecordSetView>,
) -> RecordSetView {
    if desired.proxied is None && current is Some {
        RecordSetView { proxied: current->0.proxied, ..desired }
    } else {
        desired
    }
}

/// Keep the provider's proxy setting when the configuration does not specify one.
pub fn with_current_proxied(desired: &RecordSet, current: Option<&RecordSet>) -> (r: RecordSet)
    ensures
        r@ == keep_proxied(desired@, record::ref_view(current)),
{
    let mut target: RecordSet = desired.clone();
    if target.proxied.is_none() {
        match current {
            Some(c) => {
                target.proxied = c.proxied;
            },
            None => {},
        }
    }
    target
}

/// The values of a record set; none where there is no record set.
pub open spec fn values_of(set: Option<RecordSetView>) -> Seq<Seq<char>> {
    match set {
        Some(s) => s.values,
        None => Seq::empty(),
    }
}

/// Whether `actual` could be an intermediate state of a change from `from` to
/// `to`: it has no value that neither has, lacks no value that both have, and
/// its TTL is that of one of them.
pub open spec fn between(
    actual: Option<RecordSetView>,
    from: Option<RecordSetView>,
    to: Option<RecordSetView>,
) -> bool {
    &&& forall|v: Seq<char>| #[trigger]
        values_of(actual).contains(v) ==> values_of(from).contains(v) || values_of(to).contains(v)
    &&& forall|v: Seq<char>| #[trigger]
        values_of(from).contains(v) && values_of(to).contains(v) ==> values_of(actual).contains(v)
    &&& match actual {
        None => true,
        Some(a) => (from is Some && from->0.ttl == a.ttl) || (to is Some && to->0.ttl == a.ttl),
    }
}

fn has_value(set: Option<&RecordSet>, v: &str) -> (r: bool)
    ensures
        r == values_of(record::ref_view(set)).contains(v@),
{
    match set {
        Some(s) => s.values.contains(v),
        None => false,
    }
}

/// Whether `actual` could be an intermediate state of a change from `from` to `to`.
pub fn is_between(
    actual: Option<&RecordSet>,
    from: Option<&RecordSet>,
    to: Option<&RecordSet>,
) -> (r: bool)
    ensures
        r == between(record::ref_view(actual), record::ref_view(from), record::ref_view(to)),
{
    let ghost av = values_of(record::ref_view(actual));
    let ghost fv = values_of(record::ref_view(from));
    let ghost tv = values_of(record::ref_view(to));
    if let Some(a) = actual {
        let n: usize = a.values.len();
        let mut i: usize = 0;
        while i < n
            invariant
                i <= n == av.len(),
                av == a.values@,
                forall|j: int| 0 <= j < i ==> fv.contains(#[trigger] av[j]) || tv.contains(av[j]),
            decreases n - i,
        {
            let v: &String = a.values.item(i);
            if !has_value(from, v.as_str()) && !has_value(to, v.as_str()) {
                assert(av.contains(av[i as int]));
                return false;
            }
            i += 1;
        }
    }
    assert forall|v: Seq<char>| #[trigger] av.contains(v) implies fv.contains(v) || tv.contains(
        v,
    ) by {
        let j = choose|j: int| 0 <= j < av.len() && av[j] == v;
        assert(fv.contains(av[j]) || tv.contains(av[j]));
    }
    if let Some(f) = from {
        let n: usize = f.values.len();
        let mut i: usize = 0;
        while i < n
            invariant
                i <= n == fv.len(),
                fv == f.values@,
                forall|j: int| 0 <= j < i && tv.contains(#[trigger] fv[j]) ==> av.contains(fv[j]),
            decreases n - i,
        {
            let v: &String = f.values.item(i);
            if has_value(to, v.as_str()) && !has_value(actual, v.as_str()) {
                assert(fv.contains(fv[i as int]));
                return false;
            }
            i += 1;
        }
    }
    assert forall|v: Seq<char>| #[trigger] fv.contains(v) && tv.contains(v) implies av.contains(
        v,
    ) by {
        let j = choose|j: int| 0 <= j < fv.len() && fv[j] == v;
        assert(tv.contains(fv[j]));
    }
    match actual {
        None => true,
        Some(a) => {
            let from_ttl: bool = match from {
                Some(f) => f.ttl == a.ttl,
                None => false,
            };
            let to_ttl: bool = match to {
                Some(t) => t.ttl == a.ttl,
                None => false,
            };
            from_ttl || to_ttl
        },
    }
}

/// Whether the provider already has what is desired.
pub open spec fn reached(desired: DesiredView, actual: Option<RecordSetView>) -> bool {
    if desired.absent {
        actual is None
    } else {
        actual is Some && record::same_records(actual->0, keep_proxied(desired.set, actual))
    }
}

/// Why a record that Sieve Tube manages may not be touched now: it is not what
/// Sieve Tube made of it. Within the settle time the provider may just not show
/// the last change yet.
pub open spec fn obstacle(
    actual: Option<RecordSetView>,
    managed: ManagedView,
    now: int,
    settle: int,
) -> Option<ActionView> {
    let waiting = ActionView::Wait("waiting for the provider to reflect the last change"@);
    match managed.pending {
        Some(pending) => if between(actual, pending.expected, pending.desired) {
            None
        } else if now - pending.started_at < settle {
            Some(waiting)
        } else {
            Some(
                ActionView::Conflict(
                    "record changed outside Sieve Tube during an unfinished change"@,
                ),
            )
        },
        None => if record::same_optional_records(actual, managed.applied) {
            None
        } else if now - managed.updated_at < settle {
            Some(waiting)
        } else {
            Some(ActionView::Conflict("record was changed outside Sieve Tube"@))
        },
    }
}

/// What is done with a record that exists although Sieve Tube does not manage it.
pub open spec fn take_over(desired: DesiredView, current: RecordSetView) -> ActionView {
    let target = keep_proxied(desired.set, Some(current));
    if desired.absent {
        ActionView::Conflict("record is not managed by Sieve Tube; refusing to delete it"@)
    } else if !desired.import {
        ActionView::Conflict(
            "an unmanaged record already exists; set import = true to take it over"@,
        )
    } else if record::same_records(current, target) {
        ActionView::Adopt(current)
    } else {
        ActionView::Apply(Some(current), Some(target))
    }
}

/// The step from what is there to what is desired.
pub open spec fn towards(
    desired: DesiredView,
    actual: Option<RecordSetView>,
    managed: bool,
) -> ActionView {
    let target = keep_proxied(desired.set, actual);
    if desired.absent {
        match actual {
            None => if managed {
                ActionView::Forget
            } else {
                ActionView::NoChange
            },
            Some(current) => ActionView::Apply(Some(current), None),
        }
    } else {
        match actual {
            None => ActionView::Apply(None, Some(desired.set)),
            Some(current) => if record::same_records(current, target) {
                ActionView::NoChange
            } else {
                ActionView::Apply(Some(current), Some(target))
            },
        }
    }
}

/// What to do for one desired record.
pub open spec fn decision(
    desired: DesiredView,
    actual: Option<RecordSetView>,
    unsupported: Option<Seq<char>>,
    managed: Option<ManagedView>,
    now: int,
    settle: int,
) -> ActionView {
    match unsupported {
        Some(reason) => ActionView::Conflict("provider record cannot be managed: "@ + reason),
        None => match managed {
            None => match actual {
                Some(current) => take_over(desired, current),
                None => towards(desired, actual, false),
            },
            Some(m) => if !reached(desired, actual) && obstacle(actual, m, now, settle) is Some {
                obstacle(actual, m, now, settle)->0
            } else {
                towards(desired, actual, true)
            },
        },
    }
}

/// What a provider reports, by its values.
pub open spec fn observed_set(o: Option<&Observed>) -> Option<RecordSetView> {
    match o {
        Some(o) => Some(o.set@),
        None => None,
    }
}

/// Why what a provider reports cannot be managed.
pub open spec fn observed_unsupported(o: Option<&Observed>) -> Option<Seq<char>> {
    match o {
        Some(o) => text::opt_view(o.unsupported),
        None => None,
    }
}

pub open spec fn managed_view(m: Option<&ManagedRecord>) -> Option<ManagedView> {
    match m {
        Some(m) => Some(m@),
        None => None,
    }
}

fn step_towards(desired: &DesiredRecord, actual: Option<&RecordSet>, managed: bool) -> (r: Action)
    ensures
        r@ == towards(desired@, record::ref_view(actual), managed),
{
    if desired.absent {
        match actual {
            None => if managed {
                Action::Forget
            } else {
                Action::NoChange
            },
            Some(current) => Action::Apply { expected: Some(current.clone()), desired: None },
        }
    } else {
        match actual {
            None => Action::Apply { expected: None, desired: Some(desired.set.clone()) },
            Some(current) => {
                let target: RecordSet = with_current_proxied(&desired.set, Some(current));
                if current.same_data(&target) {
                    Action::NoChange
                } else {
                    Action::Apply { expected: Some(current.clone()), desired: Some(target) }
                }
            },
        }
    }
}

fn check_managed(
    actual: Option<&RecordSet>,
    record: &ManagedRecord,
    now: i64,
    settle_secs: i64,
) -> (r: Option<Action>)
    ensures
        match r {
            Some(a) => obstacle(record::ref_view(actual), record@, now as int, settle_secs as int)
                == Some(a@),
            None => obstacle(
                record::ref_view(actual),
                record@,
                now as int,
                settle_secs as int,
            ) is None,
        },
{
    match &record.pending {
        Some(pending) => {
            if is_between(actual, pending.expected.as_ref(), pending.desired.as_ref()) {
                return None;
            }
            if (now as i128) - (pending.started_at as i128) < settle_secs as i128 {
                return Some(
                    Action::Wait {
                        reason: "waiting for the provider to reflect the last change".to_owned(),
                    },
                );
            }
            Some(
                Action::Conflict {
                    reason:
                        "record changed outside Sieve Tube during an unfinished change".to_owned(),
                },
            )
        },
        None => {
            if same_optional(actual, record.applied.as_ref()) {
                return None;
            }
            if (now as i128) - (record.updated_at as i128) < settle_secs as i128 {
                return Some(
                    Action::Wait {
                        reason: "waiting for the provider to reflect the last change".to_owned(),
                    },
                );
            }
            Some(Action::Conflict { reason: "record was changed outside Sieve Tube".to_owned() })
        },
    }
}

/// Decide what to do for one desired record.
pub fn decide(
    desired: &DesiredRecord,
    observed: Option<&Observed>,
    managed: Option<&ManagedRecord>,
    now: i64,
    settle_secs: i64,
) -> (r: Action)
    ensures
        r@ == decision(
            desired@,
            observed_set(observed),
            observed_unsupported(observed),
            managed_view(managed),
            now as int,
            settle_secs as int,
        ),
{
    if let Some(o) = observed {
        if let Some(reason) = &o.unsupported {
            return Action::Conflict {
                reason: "provider record cannot be managed: ".to_owned().concat(reason.as_str()),
            };
        }
    }
    let actual: Option<&RecordSet> = match observed {
        Some(o) => Some(&o.set),
        None => None,
    };
    let is_reached: bool = if desired.absent {
        actual.is_none()
    } else {
        match actual {
            Some(a) => a.same_data(&with_current_proxied(&desired.set, Some(a))),
            None => false,
        }
    };
    match managed {
        Some(record) => {
            if !is_reached {
                if let Some(action) = check_managed(actual, record, now, settle_secs) {
                    return action;
                }
            }
            step_towards(desired, actual, true)
        },
        None => match actual {
            None => step_towards(desired, actual, false),
            Some(current) => {
                if desired.absent {
                    return Action::Conflict {
                        reason:
                            "record is not managed by Sieve Tube; refusing to delete it".to_owned(),
                    };
                }
                if !desired.import {
                    return Action::Conflict {
                        reason:
                            "an unmanaged record already exists; set import = true to take it over".to_owned(),
                    };
                }
                let target: RecordSet = with_current_proxied(&desired.set, Some(current));
                if current.same_data(&target) {
                    Action::Adopt { current: current.clone() }
                } else {
                    Action::Apply { expected: Some(current.clone()), desired: Some(target) }
                }
            },
        },
    }
}

/// A record that Sieve Tube does not manage is neither overwritten nor deleted
/// without `import`, and never deleted.
pub proof fn law_unmanaged_is_left_alone(
    desired: DesiredView,
    current: RecordSetView,
    unsupported: Option<Seq<char>>,
    now: int,
    settle: int,
)
    requires
        !desired.import || desired.absent,
    ensures
        decision(desired, Some(current), unsupported, None, now, settle) is Conflict,
{
}

/// What cannot be managed is a conflict, whatever the configuration asks for.
pub proof fn law_unsupported_is_a_conflict(
    desired: DesiredView,
    actual: Option<RecordSetView>,
    reason: Seq<char>,
    managed: Option<ManagedView>,
    now: int,
    settle: int,
)
    ensures
        decision(desired, actual, Some(reason), managed, now, settle) is Conflict,
{
}

/// Where a managed record is as desired, nothing is changed: deciding again
/// after a change took effect ends the matter.
pub proof fn law_reached_is_in_sync(
    desired: DesiredView,
    actual: Option<RecordSetView>,
    managed: ManagedView,
    now: int,
    settle: int,
)
    requires
        reached(desired, actual),
    ensures
        decision(desired, actual, None, Some(managed), now, settle) == (if desired.absent {
            ActionView::Forget
        } else {
            ActionView::NoChange
        }),
{
}

/// A change is always conditional on exactly what the provider reported.
pub proof fn law_change_expects_what_was_seen(
    desired: DesiredView,
    actual: Option<RecordSetView>,
    unsupported: Option<Seq<char>>,
    managed: Option<ManagedView>,
    now: int,
    settle: int,
)
    ensures
        match decision(desired, actual, unsupported, managed, now, settle) {
            ActionView::Apply(expected, _) => expected == actual,
            ActionView::Adopt(current) => actual == Some(current),
            _ => true,
        },
{
}

/// The state that a change asks for is one in which nothing more is asked for.
pub proof fn law_change_converges(
    desired: DesiredView,
    actual: Option<RecordSetView>,
    managed: Option<ManagedView>,
    after: ManagedView,
    now: int,
    settle: int,
    later: int,
)
    requires
        decision(desired, actual, None, managed, now, settle) is Apply,
    ensures
        ({
            let result = decision(desired, actual, None, managed, now, settle)->Apply_1;
            decision(desired, result, None, Some(after), later, settle) == (if desired.absent {
                ActionView::Forget
            } else {
                ActionView::NoChange
            })
        }),
{
    let result = decision(desired, actual, None, managed, now, settle)->Apply_1;
    assert(reached(desired, result));
}

/// An external change stops the management of a record: once the settle time is
/// over it is a conflict, before that Sieve Tube waits, and in no case does it
/// change the record.
pub proof fn law_external_change_stops_management(
    desired: DesiredView,
    actual: Option<RecordSetView>,
    managed: ManagedView,
    now: int,
    settle: int,
)
    requires
        !reached(desired, actual),
        managed.pending is None,
        !record::same_optional_records(actual, managed.applied),
    ensures
        ({
            let a = decision(desired, actual, None, Some(managed), now, settle);
            if now - managed.updated_at < settle {
                a is Wait
            } else {
                a is Conflict
            }
        }),
{
}

/// A managed record is only ever deleted where the configuration says so.
pub proof fn law_deletion_needs_absent(
    desired: DesiredView,
    actual: Option<RecordSetView>,
    unsupported: Option<Seq<char>>,
    managed: Option<ManagedView>,
    now: int,
    settle: int,
)
    requires
        !desired.absent,
    ensures
        match decision(desired, actual, unsupported, managed, now, settle) {
            ActionView::Apply(_, target) => target is Some,
            ActionView::Forget => false,
            _ => true,
        },
{
}

/// The target of a change is what the configuration says; only a proxy setting that it
/// leaves open is taken from the provider.
pub proof fn law_target_is_what_is_configured(
    desired: RecordSet,
    current: Option<&RecordSet>,
    r: RecordSet,
)
    requires
        call_ensures(with_current_proxied, (&desired, current), r),
    ensures
        r.name@ == desired.name@,
        r.record_type == desired.record_type,
        r.ttl == desired.ttl,
        r.values@ == desired.values@,
        r.proxied == (if desired.proxied is None && current is Some {
            current->0.proxied
        } else {
            desired.proxied
        }),
{
    let v = r@;
    assert(v.name == desired@.name);
}

/// A record counts as in sync, or is taken over as it is, only where the provider has the
/// TTL and the values of the configuration; a change aims at these and at nothing else,
/// and expects what the provider has.
pub proof fn law_decision_aims_at_the_configuration(
    desired: DesiredRecord,
    observed: Option<&Observed>,
    managed: Option<&ManagedRecord>,
    now: i64,
    settle_secs: i64,
    r: Action,
)
    requires
        call_ensures(decide, (&desired, observed, managed, now, settle_secs), r),
        !desired.absent,
    ensures
        r is NoChange || r is Adopt ==> observed is Some && observed->0.unsupported is None
            && record::agrees(observed->0.set, desired.set),
        r is Adopt ==> managed is None && desired.import && r->current@ == observed->0.set@,
        r is Apply ==> {
            &&& record::set_view(r->expected) == observed_set(observed)
            &&& r->desired is Some
            &&& r->desired->0.name@ == desired.set.name@
            &&& r->desired->0.record_type == desired.set.record_type
            &&& r->desired->0.ttl == desired.set.ttl
            &&& r->desired->0.values@ == desired.set.values@
            &&& r->desired->0.proxied == (if desired.set.proxied is None && observed is Some {
                observed->0.set.proxied
            } else {
                desired.set.proxied
            })
            &&& observed is None || !record::agrees(observed->0.set, desired.set)
        },
        !(r is Forget),
{
    if r is Apply {
        assert(r@ == ActionView::Apply(record::set_view(r->expected), record::set_view(r->desired)));
        if r->desired is Some {
            let v = r->desired->0@;
            assert(record::set_view(r->desired) == Some(v));
        }
    }
    if r is Adopt {
        assert(r@ == ActionView::Adopt(r->current@));
    }
}

/// A record that is to be absent is never created or changed, only deleted as it was seen,
/// and only where it is managed.
pub proof fn law_absent_records_are_only_deleted(
    desired: DesiredRecord,
    observed: Option<&Observed>,
    managed: Option<&ManagedRecord>,
    now: i64,
    settle_secs: i64,
    r: Action,
)
    requires
        call_ensures(decide, (&desired, observed, managed, now, settle_secs), r),
        desired.absent,
    ensures
        !(r is Adopt),
        r is Apply ==> r->desired is None && observed is Some && managed is Some
            && record::set_view(r->expected) == Some(observed->0.set@),
        r is NoChange ==> observed is None && managed is None,
        r is Forget ==> observed is None && managed is Some,
        observed is None ==> r is NoChange || r is Forget,
        observed is Some && observed->0.unsupported is None && managed is None ==> r is Conflict,
        observed is Some && observed->0.unsupported is None && managed is Some
            && managed->0.pending is None && managed->0.applied is Some && record::agrees(
            observed->0.set,
            managed->0.applied->0,
        ) ==> r is Apply,
{
}

/// What a provider cannot say in full is left alone.
pub proof fn law_unsupported_records_are_left_alone(
    desired: DesiredRecord,
    observed: &Observed,
    managed: Option<&ManagedRecord>,
    now: i64,
    settle_secs: i64,
    r: Action,
)
    requires
        call_ensures(decide, (&desired, Some(observed), managed, now, settle_secs), r),
        observed.unsupported is Some,
    ensures
        r is Conflict,
{
}

/// A record of which nothing is known is created where there is none. One that is there
/// is taken over only on request: as it is where it agrees with the configuration, else
/// by a change.
pub proof fn law_unknown_records_need_an_import(
    desired: DesiredRecord,
    observed: Option<&Observed>,
    now: i64,
    settle_secs: i64,
    r: Action,
)
    requires
        call_ensures(decide, (&desired, observed, None, now, settle_secs), r),
        !desired.absent,
        observed is Some ==> observed->0.unsupported is None,
    ensures
        match observed {
            None => r is Apply,
            Some(o) => if !desired.import {
                r is Conflict
            } else if record::agrees(o.set, desired.set) {
                r is Adopt
            } else {
                r is Apply
            },
        },
{
}

/// A managed record that the provider has as it was last applied follows the
/// configuration: it is in sync where they agree, and changed where they do not.
pub proof fn law_managed_records_follow_the_configuration(
    desired: DesiredRecord,
    observed: Option<&Observed>,
    managed: &ManagedRecord,
    now: i64,
    settle_secs: i64,
    r: Action,
)
    requires
        call_ensures(decide, (&desired, observed, Some(managed), now, settle_secs), r),
        !desired.absent,
        managed.pending is None,
        match (observed, managed.applied) {
            (None, None) => true,
            (Some(o), Some(a)) => o.unsupported is None && record::agrees(o.set, a),
            _ => false,
        },
    ensures
        observed is Some && record::agrees(observed->0.set, desired.set) ==> r is NoChange,
        observed is None || !record::agrees(observed->0.set, desired.set) ==> r is Apply,
{
}

/// A managed record that someone else changed is not changed back: it is waited for while
/// the last change settles, and a conflict from then on.
pub proof fn law_foreign_changes_are_not_overwritten(
    desired: DesiredRecord,
    observed: &Observed,
    managed: &ManagedRecord,
    now: i64,
    settle_secs: i64,
    r: Action,
)
    requires
        call_ensures(decide, (&desired, Some(observed), Some(managed), now, settle_secs), r),
        observed.unsupported is None,
        managed.pending is None,
        managed.applied is None || !record::agrees(observed.set, managed.applied->0),
        desired.absent || !record::agrees(observed.set, desired.set),
    ensures
        now - managed.updated_at < settle_secs ==> r is Wait,
        now - managed.updated_at >= settle_secs ==> r is Conflict,
{
}

/// An unfinished change is taken up again where the provider shows what was there before
/// it or what it aimed at, and what stands in its way is waited for or a conflict: values
/// that are neither, or a TTL that is neither.
pub proof fn law_unfinished_changes_are_taken_up(
    desired: DesiredRecord,
    observed: &Observed,
    managed: &ManagedRecord,
    pending: PendingChange,
    now: i64,
    settle_secs: i64,
    r: Action,
    foreign: Seq<char>,
)
    requires
        call_ensures(decide, (&desired, Some(observed), Some(managed), now, settle_secs), r),
        !desired.absent,
        observed.unsupported is None,
        managed.pending == Some(pending),
        !record::agrees(observed.set, desired.set),
    ensures
        pending.expected is Some && observed.set.values@ == pending.expected->0.values@
            && observed.set.ttl == pending.expected->0.ttl ==> r is Apply,
        pending.desired is Some && observed.set.values@ == pending.desired->0.values@
            && observed.set.ttl == pending.desired->0.ttl ==> r is Apply,
        observed.set.values@.contains(foreign) && !(pending.expected is Some
            && pending.expected->0.values@.contains(foreign)) && !(pending.desired is Some
            && pending.desired->0.values@.contains(foreign)) ==> if now - pending.started_at
            < settle_secs {
            r is Wait
        } else {
            r is Conflict
        },
        !(pending.expected is Some && pending.expected->0.ttl == observed.set.ttl) && !(
        pending.desired is Some && pending.desired->0.ttl == observed.set.ttl) ==> if now
            - pending.started_at < settle_secs {
            r is Wait
        } else {
            r is Conflict
        },
{
    let actual = observed_set(Some(observed));
    let from = record::set_view(pending.expected);
    let to = record::set_view(pending.desired);
    assert(managed@.pending == Some(pending@));
    assert(values_of(actual) == observed.set.values@);
    if pending.expected is Some {
        assert(values_of(from) == pending.expected->0.values@);
    }
    if pending.desired is Some {
        assert(values_of(to) == pending.desired->0.values@);
    }
    if observed.set.values@.contains(foreign) {
        assert(values_of(actual).contains(foreign));
    }
}

/// A record is known by its name and its type together.
pub proof fn law_records_are_known_by_name_and_type(
    a: DesiredRecord,
    b: DesiredRecord,
    x: String,
    y: String,
    name: &str,
    key: String,
    shown: &'static str,
)
    requires
        call_ensures(DesiredRecord::key, (&a,), x),
        call_ensures(DesiredRecord::key, (&b,), y),
        name@ == a.set.name@,
        call_ensures(record_key, (name, a.set.record_type), key),
        call_ensures(RecordType::as_str, (a.set.record_type,), shown),
    ensures
        x@ == key@,
        x@ == a.set.name@ + seq!['/'] + shown@,
        a.set.name@ == b.set.name@ && a.set.record_type == b.set.record_type ==> x@ == y@,
        a.set.name@ == b.set.name@ && a.set.record_type != b.set.record_type ==> x@ != y@,
{
    reveal_strlit("/");
    assert("/"@ =~= seq!['/']);
    if a.set.name@ == b.set.name@ && a.set.record_type != b.set.record_type {
        let head = a.set.name@ + "/"@;
        let p = record::record_type_name(a.set.record_type);
        let q = record::record_type_name(b.set.record_type);
        reveal_strlit("A");
        reveal_strlit("AAAA");
        reveal_strlit("CNAME");
        reveal_strlit("TXT");
        assert("A"@.len() == 1 && "AAAA"@.len() == 4 && "CNAME"@.len() == 5 && "TXT"@.len() == 3);
        assert(x@ == head + p && y@ == head + q);
        assert(p.len() != q.len());
        assert(x@.len() != y@.len());
    }
}

/// What is seen while a change is under way has no value that is neither old nor new, lacks
/// none that is both, and has the old or the new time to live. The old set, the new set and,
/// where they have nothing in common, no set at all are such.
pub proof fn law_changes_pass_through_mixtures(
    actual: Option<&RecordSet>,
    from: Option<&RecordSet>,
    to: Option<&RecordSet>,
    r: bool,
    start: bool,
    end: bool,
    v: Seq<char>,
)
    requires
        call_ensures(is_between, (actual, from, to), r),
        call_ensures(is_between, (from, from, to), start),
        call_ensures(is_between, (to, from, to), end),
    ensures
        start && end,
        r && actual is Some && actual->0.values@.contains(v) ==> (from is Some
            && from->0.values@.contains(v)) || (to is Some && to->0.values@.contains(v)),
        r && from is Some && to is Some && from->0.values@.contains(v) && to->0.values@.contains(v)
            ==> actual is Some && actual->0.values@.contains(v),
        r && actual is Some ==> (from is Some && from->0.ttl == actual->0.ttl) || (to is Some
            && to->0.ttl == actual->0.ttl),
        from is None && actual is None ==> r,
        to is None && actual is None ==> r,
{
    let a = values_of(record::ref_view(actual));
    let f = values_of(record::ref_view(from));
    let t = values_of(record::ref_view(to));
    if r {
        assert(a.contains(v) ==> f.contains(v) || t.contains(v));
        assert(f.contains(v) && t.contains(v) ==> a.contains(v));
    }
}

/// Every kind of action has a label of its own.
pub proof fn law_actions_are_labelled(a: Action, x: &'static str)
    requires
        call_ensures(Action::label, (&a,), x),
    ensures
        x@ == match a {
            Action::NoChange => "in_sync"@,
            Action::Apply { .. } => "change"@,
            Action::Adopt { .. } => "adopt"@,
            Action::Forget => "forget"@,
            Action::Wait { .. } => "pending"@,
            Action::Conflict { .. } => "conflict"@,
        },
{
}

/// A description says what is done: created when nothing was there, deleted when nothing is to
/// stay, updated otherwise.
pub proof fn law_descriptions_say_what_is_done(a: Action, r: String)
    requires
        call_ensures(Action::describe, (&a,), r),
    ensures
        a is NoChange ==> r@ == "in sync"@,
        a is Forget ==> r@ == "already deleted; forget"@,
        a matches Action::Wait { reason } ==> r@ == "wait: "@ + reason@,
        a matches Action::Conflict { reason } ==> r@ == "conflict: "@ + reason@,
        a is Adopt ==> text::starts_with(r@, "adopt existing ttl="@),
        a matches Action::Apply { expected, desired } ==> {
            &&& expected is None ==> text::starts_with(r@, "create "@)
            &&& expected is Some && desired is None ==> text::starts_with(r@, "delete "@)
            &&& expected is Some && desired is Some ==> text::starts_with(r@, "update "@)
        },
{
    reveal_strlit("adopt existing ");
    reveal_strlit("ttl=");
    reveal_strlit("adopt existing ttl=");
    reveal_strlit("create ");
    reveal_strlit("delete ");
    reveal_strlit("update ");
    if let Action::Adopt { current } = a {
        let rest = text::decimal(current.ttl as nat) + " values="@ + shown_values(current@.values);
        assert("adopt existing "@ + "ttl="@ =~= "adopt existing ttl="@);
        assert(r@.take(19) =~= "adopt existing ttl="@);
    }
    if let Action::Apply { expected, desired } = a {
        match (expected, desired) {
            (None, _) => {
                assert(r@.take(7) =~= "create "@);
            },
            (Some(_), None) => {
                assert(r@.take(7) =~= "delete "@);
            },
            (Some(_), Some(_)) => {
                assert(r@.take(7) =~= "update "@);
            },
        }
    }
}

} // verus!
