//! Reconciliation of desired DNS records with the providers, step by step.
//!
//! Each provider (zone) has a single writer: either the holder of a lease or an
//! Edge explicitly configured as the single writer. Every change is first
//! recorded as a pending intent, so an interrupted change is resumed or reported
//! as a conflict instead of being mistaken for an external edit.

use vstd::prelude::*;
use vstd::string::*;
use crate::edge::dns::plan;
use crate::edge::dns::plan::{
    decide, Action, ActionView, DesiredRecord, DesiredView, ManagedRecord, ManagedView,
    PendingChange, PendingView, ProviderState,
};
use crate::edge::dns::record;
use crate::edge::dns::record::{
    clone_set, same_optional, ChangeTicket, DnsError, DnsErrorView, Observed, RecordSet,
    RecordSetView,
};
use crate::text;
use crate::text::{has_prefix, same_text};
use crate::text_map::TextMap;
use crate::time::Duration;

verus! {

/// How this Edge becomes the writer for a provider.
#[derive(Debug, Clone, Copy, PartialEq, Eq, Structural)]
pub enum WriterMode {
    /// Configured as the only writer (no Valkey)
    SingleWriter,
    /// Coordinated through per-provider Valkey leases
    Valkey,
}

#[derive(Debug)]
pub struct ReconcilerSettings {
    pub state_dir: String,
    pub interval: Duration,
    pub settle_secs: i64,
    pub lease_ttl: Duration,
    pub dry_run: bool,
}

/// What became of one record.
#[derive(Debug, PartialEq)]
pub struct RecordOutcome {
    pub provider: String,
    pub key: String,
    pub action: Action,
    /// `None` for planned or unexecuted actions
    pub error: Option<String>,
}

/// A [`RecordOutcome`] by the values that it holds.
#[verifier::ext_equal]
pub struct OutcomeView {
    pub provider: Seq<char>,
    pub key: Seq<char>,
    pub action: ActionView,
    pub error: Option<Seq<char>>,
}

impl View for RecordOutcome {
    type V = OutcomeView;

    open spec fn view(&self) -> OutcomeView {
        OutcomeView {
            provider: self.provider@,
            key: self.key@,
            action: self.action@,
            error: text::opt_view(self.error),
        }
    }
}

/// The managed records by the values that they hold.
pub open spec fn managed_views(m: Map<Seq<char>, ManagedRecord>) -> Map<Seq<char>, ManagedView> {
    m.map_values(|r: ManagedRecord| r@)
}

/// The record of a key.
pub open spec fn entry(m: Map<Seq<char>, ManagedView>, key: Seq<char>) -> Option<ManagedView> {
    if m.contains_key(key) {
        Some(m[key])
    } else {
        None
    }
}

/// The unfinished change of a key.
pub open spec fn pending_of(m: Map<Seq<char>, ManagedView>, key: Seq<char>) -> Option<PendingView> {
    if m.contains_key(key) {
        m[key].pending
    } else {
        None
    }
}

/// A change of a key is recorded as done.
pub open spec fn completed(
    m: Map<Seq<char>, ManagedView>,
    key: Seq<char>,
    expected: Option<RecordSetView>,
    desired: Option<RecordSetView>,
    generation: u64,
    now: i64,
) -> Map<Seq<char>, ManagedView> {
    if m.contains_key(key) {
        m.insert(
            key,
            ManagedView {
                previous: expected,
                applied: desired,
                pending: None,
                generation,
                updated_at: now,
                ..m[key]
            },
        )
    } else {
        m
    }
}

/// The unfinished change of a key is recorded as done.
pub open spec fn finished(
    m: Map<Seq<char>, ManagedView>,
    key: Seq<char>,
    generation: u64,
    now: i64,
) -> Map<Seq<char>, ManagedView> {
    match pending_of(m, key) {
        Some(p) => completed(m, key, p.expected, p.desired, generation, now),
        None => m,
    }
}

/// A copy of the unfinished change of a key.
fn pending_change(state: &ProviderState, key: &str) -> (r: Option<PendingChange>)
    ensures
        (match r {
            Some(p) => Some(p@),
            None => None,
        }) == pending_of(managed_views(state.records@), key@),
{
    match state.records.get(key) {
        Some(m) => match &m.pending {
            Some(p) => Some(p.clone()),
            None => None,
        },
        None => None,
    }
}

proof fn lemma_views_insert(m: Map<Seq<char>, ManagedRecord>, key: Seq<char>, r: ManagedRecord)
    ensures
        managed_views(m.insert(key, r)) == managed_views(m).insert(key, r@),
{
    assert(managed_views(m.insert(key, r)) =~= managed_views(m).insert(key, r@));
}

proof fn lemma_views_remove(m: Map<Seq<char>, ManagedRecord>, key: Seq<char>)
    ensures
        managed_views(m.remove(key)) == managed_views(m).remove(key),
{
    assert(managed_views(m.remove(key)) =~= managed_views(m).remove(key));
}

fn put(state: &mut ProviderState, key: &str, record: ManagedRecord)
    ensures
        managed_views(final(state).records@) == managed_views(old(state).records@).insert(
            key@,
            record@,
        ),
        final(state).writer_generation == old(state).writer_generation,
{
    proof {
        lemma_views_insert(state.records@, key@, record);
    }
    state.records.insert(key.to_owned(), record);
}

/// Records a change as done.
pub fn complete_change(
    state: &mut ProviderState,
    key: &str,
    expected: Option<RecordSet>,
    desired: Option<RecordSet>,
    generation: u64,
    now: i64,
)
    ensures
        managed_views(final(state).records@) == completed(
            managed_views(old(state).records@),
            key@,
            record::set_view(expected),
            record::set_view(desired),
            generation,
            now,
        ),
        final(state).writer_generation == old(state).writer_generation,
{
    let updated: ManagedRecord = match state.records.get(key) {
        None => {
            return;
        },
        Some(m) => ManagedRecord {
            name: m.name.clone(),
            record_type: m.record_type,
            applied: desired,
            previous: expected,
            generation,
            pending: None,
            updated_at: now,
        },
    };
    put(state, key, updated);
}

/// Records the unfinished change of a key as done.
pub fn finish_pending(state: &mut ProviderState, key: &str, generation: u64, now: i64)
    ensures
        managed_views(final(state).records@) == finished(
            managed_views(old(state).records@),
            key@,
            generation,
            now,
        ),
        final(state).writer_generation == old(state).writer_generation,
{
    match pending_change(state, key) {
        Some(p) => complete_change(state, key, p.expected, p.desired, generation, now),
        None => {},
    }
}

/// The lease under which a provider's zone is written.
pub fn lease_resource(provider: &str) -> (r: String)
    ensures
        r@ == "dns:"@ + provider@,
{
    "dns:".to_owned().concat(provider)
}

/// What is said where a provider as a whole cannot be worked on.
pub open spec fn provider_trouble(provider: Seq<char>, error: Seq<char>) -> OutcomeView {
    OutcomeView {
        provider,
        key: "*"@,
        action: ActionView::Wait("provider unavailable"@),
        error: Some(error),
    }
}

pub fn provider_error(provider: &str, error: String) -> (r: RecordOutcome)
    ensures
        r@ == provider_trouble(provider@, error@),
{
    RecordOutcome {
        provider: provider.to_owned(),
        key: "*".to_owned(),
        action: Action::Wait { reason: "provider unavailable".to_owned() },
        error: Some(error),
    }
}

/// What is planned for a record whose provider was asked.
pub open spec fn planned(
    provider: Seq<char>,
    desired: DesiredView,
    observed: Result<Option<Observed>, DnsError>,
    managed: Option<ManagedView>,
    now: int,
    settle: int,
) -> OutcomeView {
    let key = plan::key_of(desired.set.name, desired.set.record_type);
    match observed {
        Ok(o) => OutcomeView {
            provider,
            key,
            action: plan::decision(
                desired,
                seen(o),
                seen_unsupported(o),
                managed,
                now,
                settle,
            ),
            error: None,
        },
        Err(e) => OutcomeView {
            provider,
            key,
            action: ActionView::Wait("provider read failed"@),
            error: Some(record::error_text(e@)),
        },
    }
}

/// What a provider reports, by its values.
pub open spec fn seen(o: Option<Observed>) -> Option<RecordSetView> {
    match o {
        Some(o) => Some(o.set@),
        None => None,
    }
}

/// Why what a provider reports cannot be managed.
pub open spec fn seen_unsupported(o: Option<Observed>) -> Option<Seq<char>> {
    match o {
        Some(o) => text::opt_view(o.unsupported),
        None => None,
    }
}

/// Plans one record without changing anything.
pub fn plan_record(
    provider: &str,
    desired: &DesiredRecord,
    observed: &Result<Option<Observed>, DnsError>,
    state: &ProviderState,
    now: i64,
    settle_secs: i64,
) -> (r: RecordOutcome)
    ensures
        r@ == planned(
            provider@,
            desired@,
            *observed,
            entry(
                managed_views(state.records@),
                plan::key_of(desired.set.name@, desired.set.record_type),
            ),
            now as int,
            settle_secs as int,
        ),
{
    let key: String = desired.key();
    match observed {
        Ok(o) => {
            let action: Action = decide(
                desired,
                o.as_ref(),
                state.records.get(key.as_str()),
                now,
                settle_secs,
            );
            RecordOutcome { provider: provider.to_owned(), key, action, error: None }
        },
        Err(e) => RecordOutcome {
            provider: provider.to_owned(),
            key,
            action: Action::Wait { reason: "provider read failed".to_owned() },
            error: Some(e.message()),
        },
    }
}

/// What has to be done next for a record.
#[derive(Debug)]
pub enum RecordAction {
    /// Ask the provider whether a submitted change took effect.
    AskSynced(ChangeTicket),
    /// Read the record set from the provider.
    Read,
    /// Confirm that this Edge is still the writer.
    Renew,
    /// Persist the state.
    Save,
    /// Change the record set conditionally, as long as this Edge is the writer.
    Replace { expected: Option<RecordSet>, target: Option<RecordSet> },
    /// Nothing more; this became of the record.
    Done(RecordOutcome),
}

/// What the last action gave.
#[derive(Debug)]
pub enum RecordEvent {
    /// Nothing was done yet.
    Begin,
    Synced(Result<bool, DnsError>),
    Observed(Result<Option<Observed>, DnsError>),
    Renewed(bool),
    Saved(Result<(), String>),
    /// `None` where this Edge lost the writer lease meanwhile.
    Replaced(Option<Result<ChangeTicket, DnsError>>),
}

/// What is being waited for.
#[derive(Debug, Clone, Copy, PartialEq, Eq, Structural)]
pub enum RecordPhase {
    Start,
    Syncing,
    Reading,
    Renewing,
    Saving,
    Replacing,
    Finished,
}

/// The work on one record.
#[derive(Debug)]
pub struct RecordRun {
    pub provider: String,
    pub desired: DesiredRecord,
    /// The generation under which this Edge writes.
    pub generation: u64,
    pub settle_secs: i64,
    pub phase: RecordPhase,
    /// The change that was decided on, once there is one.
    pub expected: Option<RecordSet>,
    pub target: Option<RecordSet>,
}

/// Whether an event can happen in a phase.
pub open spec fn can_happen(phase: RecordPhase, event: RecordEvent) -> bool {
    match phase {
        RecordPhase::Start => event is Begin,
        RecordPhase::Syncing => event is Synced,
        RecordPhase::Reading => event is Observed,
        RecordPhase::Renewing => event is Renewed,
        RecordPhase::Saving => event is Saved,
        RecordPhase::Replacing => event is Replaced,
        RecordPhase::Finished => false,
    }
}

/// The phase that an action leads to.
pub open spec fn phase_of(action: RecordAction) -> RecordPhase {
    match action {
        RecordAction::AskSynced(_) => RecordPhase::Syncing,
        RecordAction::Read => RecordPhase::Reading,
        RecordAction::Renew => RecordPhase::Renewing,
        RecordAction::Save => RecordPhase::Saving,
        RecordAction::Replace { .. } => RecordPhase::Replacing,
        RecordAction::Done(_) => RecordPhase::Finished,
    }
}

/// The managed records after the provider reported `observed`: an interrupted
/// change that actually completed is recorded as done.
pub open spec fn after_observation(
    m: Map<Seq<char>, ManagedView>,
    key: Seq<char>,
    observed: Option<RecordSetView>,
    generation: u64,
    now: i64,
) -> Map<Seq<char>, ManagedView> {
    match pending_of(m, key) {
        Some(p) => if p.ticket is None && record::same_optional_records(observed, p.desired) {
            finished(m, key, generation, now)
        } else {
            m
        },
        None => m,
    }
}

/// The managed records after a decision that changes nothing at the provider.
pub open spec fn after_decision(
    m: Map<Seq<char>, ManagedView>,
    desired: DesiredView,
    observed: Option<RecordSetView>,
    action: ActionView,
    generation: u64,
    now: i64,
) -> Map<Seq<char>, ManagedView> {
    let key = plan::key_of(desired.set.name, desired.set.record_type);
    match action {
        ActionView::NoChange => match entry(m, key) {
            Some(e) => if e.pending is Some || !record::same_optional_records(observed, e.applied) {
                m.insert(
                    key,
                    ManagedView { applied: observed, pending: None, updated_at: now, ..e },
                )
            } else {
                m
            },
            None => m,
        },
        ActionView::Adopt(current) => m.insert(
            key,
            ManagedView {
                name: desired.set.name,
                record_type: desired.set.record_type,
                applied: Some(current),
                previous: None,
                generation,
                pending: None,
                updated_at: now,
            },
        ),
        ActionView::Forget => m.remove(key),
        _ => m,
    }
}

/// The managed records with the intent of a change.
pub open spec fn with_intent(
    m: Map<Seq<char>, ManagedView>,
    desired: DesiredView,
    expected: Option<RecordSetView>,
    target: Option<RecordSetView>,
    generation: u64,
    now: i64,
) -> Map<Seq<char>, ManagedView> {
    let key = plan::key_of(desired.set.name, desired.set.record_type);
    let pending = Some(PendingView { expected, desired: target, ticket: None, started_at: now });
    match entry(m, key) {
        Some(e) => m.insert(key, ManagedView { pending, ..e }),
        None => m.insert(
            key,
            ManagedView {
                name: desired.set.name,
                record_type: desired.set.record_type,
                applied: None,
                previous: None,
                generation,
                pending,
                updated_at: now,
            },
        ),
    }
}

/// The managed records after a conditional change was rejected: nothing was
/// modified, so the intent goes, and with it a record that was never managed.
pub open spec fn without_intent(m: Map<Seq<char>, ManagedView>, key: Seq<char>) -> Map<
    Seq<char>,
    ManagedView,
> {
    match entry(m, key) {
        Some(e) => if e.applied is None && e.previous is None {
            m.remove(key)
        } else {
            m.insert(key, ManagedView { pending: None, ..e })
        },
        None => m,
    }
}

/// The managed records with the ticket of a submitted change.
pub open spec fn with_ticket(
    m: Map<Seq<char>, ManagedView>,
    key: Seq<char>,
    ticket: ChangeTicket,
) -> Map<Seq<char>, ManagedView> {
    match entry(m, key) {
        Some(e) => match e.pending {
            Some(p) => m.insert(
                key,
                ManagedView { pending: Some(PendingView { ticket: Some(ticket), ..p }), ..e },
            ),
            None => m,
        },
        None => m,
    }
}

/// The managed records after the provider answered a change.
pub open spec fn after_replace(
    m: Map<Seq<char>, ManagedView>,
    key: Seq<char>,
    expected: Option<RecordSetView>,
    target: Option<RecordSetView>,
    result: Option<Result<ChangeTicket, DnsError>>,
    generation: u64,
    now: i64,
) -> Map<Seq<char>, ManagedView> {
    match result {
        None => m,
        Some(Ok(ChangeTicket::Immediate)) => completed(m, key, expected, target, generation, now),
        Some(Ok(ticket)) => with_ticket(m, key, ticket),
        Some(Err(e)) => if e@ is Conflict {
            without_intent(m, key)
        } else {
            m
        },
    }
}

/// Whether an error ends the pass over a provider.
pub open spec fn stops_the_pass(e: DnsErrorView) -> bool {
    e is RateLimited || e is Auth
}

/// What became of a record after the provider answered a change.
pub open spec fn replace_outcome(
    provider: Seq<char>,
    key: Seq<char>,
    change: ActionView,
    result: Option<Result<ChangeTicket, DnsError>>,
) -> OutcomeView {
    match result {
        None => OutcomeView {
            provider,
            key,
            action: change,
            error: Some("stop: lost the DNS writer lease"@),
        },
        Some(Ok(_)) => OutcomeView { provider, key, action: change, error: None },
        Some(Err(e)) => match e@ {
            DnsErrorView::Conflict(reason) => OutcomeView {
                provider,
                key,
                action: ActionView::Conflict(reason),
                error: None,
            },
            other => OutcomeView {
                provider,
                key,
                action: change,
                error: Some(
                    if stops_the_pass(other) {
                        "stop: "@ + record::error_text(other)
                    } else {
                        record::error_text(other)
                    },
                ),
            },
        },
    }
}

impl RecordRun {
    pub open spec fn key(self) -> Seq<char> {
        plan::key_of(self.desired.set.name@, self.desired.set.record_type)
    }

    /// An outcome of this record.
    pub open spec fn says(self, action: ActionView, error: Option<Seq<char>>) -> OutcomeView {
        OutcomeView { provider: self.provider@, key: self.key(), action, error }
    }

    /// The change that was decided on.
    pub open spec fn change(self) -> ActionView {
        ActionView::Apply(record::set_view(self.expected), record::set_view(self.target))
    }

    pub fn new(provider: &str, desired: DesiredRecord, generation: u64, settle_secs: i64) -> (r:
        Self)
        ensures
            r.provider@ == provider@,
            r.desired == desired,
            r.generation == generation,
            r.settle_secs == settle_secs,
            r.phase == RecordPhase::Start,
            r.expected is None,
            r.target is None,
    {
        RecordRun {
            provider: provider.to_owned(),
            desired,
            generation,
            settle_secs,
            phase: RecordPhase::Start,
            expected: None,
            target: None,
        }
    }

    fn outcome(&self, action: Action, error: Option<String>) -> (r: RecordOutcome)
        ensures
            r@ == self.says(action@, text::opt_view(error)),
    {
        RecordOutcome {
            provider: self.provider.clone(),
            key: self.desired.key(),
            action,
            error,
        }
    }

    fn change_action(&self) -> (r: Action)
        ensures
            r@ == self.change(),
    {
        Action::Apply { expected: clone_set(&self.expected), desired: clone_set(&self.target) }
    }

    fn begin(&self, state: &ProviderState) -> (r: RecordAction)
        ensures
            match pending_of(managed_views(state.records@), self.key()) {
                Some(p) => match p.ticket {
                    Some(ChangeTicket::Route53 { change_id }) => r is AskSynced && r->AskSynced_0
                        == ChangeTicket::Route53 { change_id },
                    _ => r is Read,
                },
                None => r is Read,
            },
    {
        let key: String = self.desired.key();
        match pending_change(state, key.as_str()) {
            Some(p) => match p.ticket {
                Some(ChangeTicket::Route53 { change_id }) => RecordAction::AskSynced(
                    ChangeTicket::Route53 { change_id },
                ),
                _ => RecordAction::Read,
            },
            None => RecordAction::Read,
        }
    }

    fn on_synced(&self, state: &mut ProviderState, result: Result<bool, DnsError>, now: i64) -> (r:
        RecordAction)
        ensures
            final(state).writer_generation == old(state).writer_generation,
            managed_views(final(state).records@) == (if result == Ok::<bool, DnsError>(true) {
                finished(managed_views(old(state).records@), self.key(), self.generation, now)
            } else {
                managed_views(old(state).records@)
            }),
            match result {
                Ok(true) => r is Read,
                Ok(false) => r is Done && r->Done_0@ == self.says(
                    ActionView::Wait("provider change is still pending"@),
                    None,
                ),
                Err(e) => r is Done && r->Done_0@ == self.says(
                    ActionView::Wait("cannot read change status"@),
                    Some(record::error_text(e@)),
                ),
            },
    {
        match result {
            Ok(true) => {
                let key: String = self.desired.key();
                finish_pending(state, key.as_str(), self.generation, now);
                RecordAction::Read
            },
            Ok(false) => RecordAction::Done(
                self.outcome(
                    Action::Wait { reason: "provider change is still pending".to_owned() },
                    None,
                ),
            ),
            Err(e) => RecordAction::Done(
                self.outcome(
                    Action::Wait { reason: "cannot read change status".to_owned() },
                    Some(e.message()),
                ),
            ),
        }
    }

    /// What is decided once the provider reported the record.
    pub open spec fn decided(
        self,
        m: Map<Seq<char>, ManagedView>,
        o: Option<Observed>,
        now: i64,
    ) -> ActionView {
        plan::decision(
            self.desired@,
            seen(o),
            seen_unsupported(o),
            entry(after_observation(m, self.key(), seen(o), self.generation, now), self.key()),
            now as int,
            self.settle_secs as int,
        )
    }

    fn settle_interrupted(
        &self,
        state: &mut ProviderState,
        observed: Option<&RecordSet>,
        now: i64,
    )
        ensures
            final(state).writer_generation == old(state).writer_generation,
            managed_views(final(state).records@) == after_observation(
                managed_views(old(state).records@),
                self.key(),
                record::ref_view(observed),
                self.generation,
                now,
            ),
    {
        let key: String = self.desired.key();
        match pending_change(state, key.as_str()) {
            Some(p) => {
                if p.ticket.is_none() && same_optional(observed, p.desired.as_ref()) {
                    finish_pending(state, key.as_str(), self.generation, now);
                }
            },
            None => {},
        }
    }

    fn record_decision(
        &self,
        state: &mut ProviderState,
        observed: Option<&RecordSet>,
        action: &Action,
        now: i64,
    )
        ensures
            final(state).writer_generation == old(state).writer_generation,
            managed_views(final(state).records@) == after_decision(
                managed_views(old(state).records@),
                self.desired@,
                record::ref_view(observed),
                action@,
                self.generation,
                now,
            ),
    {
        let key: String = self.desired.key();
        match action {
            Action::NoChange => {
                let updated: ManagedRecord = match state.records.get(key.as_str()) {
                    None => {
                        return;
                    },
                    Some(e) => {
                        if e.pending.is_none() && same_optional(observed, e.applied.as_ref()) {
                            return;
                        }
                        ManagedRecord {
                            name: e.name.clone(),
                            record_type: e.record_type,
                            applied: match observed {
                                Some(s) => Some(s.clone()),
                                None => None,
                            },
                            previous: clone_set(&e.previous),
                            generation: e.generation,
                            pending: None,
                            updated_at: now,
                        }
                    },
                };
                put(state, key.as_str(), updated);
            },
            Action::Adopt { current } => {
                let adopted: ManagedRecord = ManagedRecord {
                    name: self.desired.set.name.clone(),
                    record_type: self.desired.set.record_type,
                    applied: Some(current.clone()),
                    previous: None,
                    generation: self.generation,
                    pending: None,
                    updated_at: now,
                };
                put(state, key.as_str(), adopted);
            },
            Action::Forget => {
                proof {
                    lemma_views_remove(state.records@, key@);
                }
                state.records.remove(key.as_str());
            },
            _ => {},
        }
    }

    fn on_observed(
        &mut self,
        state: &mut ProviderState,
        result: Result<Option<Observed>, DnsError>,
        now: i64,
    ) -> (r: RecordAction)
        ensures
            final(state).writer_generation == old(state).writer_generation,
            final(self).provider == old(self).provider,
            final(self).desired == old(self).desired,
            final(self).generation == old(self).generation,
            final(self).settle_secs == old(self).settle_secs,
            final(self).phase == old(self).phase,
            ({
                let m = managed_views(old(state).records@);
                let after = managed_views(final(state).records@);
                match result {
                    Err(e) => after == m && r is Done && r->Done_0@ == old(self).says(
                        ActionView::Wait("provider read failed"@),
                        Some(record::error_text(e@)),
                    ),
                    Ok(o) => {
                        let action = old(self).decided(m, o, now);
                        let settled = after_observation(
                            m,
                            old(self).key(),
                            seen(o),
                            old(self).generation,
                            now,
                        );
                        &&& after == after_decision(
                            settled,
                            old(self).desired@,
                            seen(o),
                            action,
                            old(self).generation,
                            now,
                        )
                        &&& if action is Apply {
                            r is Renew && final(self).change() == action
                        } else {
                            r is Done && r->Done_0@ == old(self).says(action, None)
                        }
                    },
                }
            }),
    {
        let observed: Option<Observed> = match result {
            Ok(o) => o,
            Err(e) => {
                return RecordAction::Done(
                    self.outcome(
                        Action::Wait { reason: "provider read failed".to_owned() },
                        Some(e.message()),
                    ),
                );
            },
        };
        let set: Option<&RecordSet> = match &observed {
            Some(o) => Some(&o.set),
            None => None,
        };
        self.settle_interrupted(state, set, now);
        let key: String = self.desired.key();
        let action: Action = decide(
            &self.desired,
            observed.as_ref(),
            state.records.get(key.as_str()),
            now,
            self.settle_secs,
        );
        self.record_decision(state, set, &action, now);
        match action {
            Action::Apply { expected, desired } => {
                self.expected = expected;
                self.target = desired;
                RecordAction::Renew
            },
            other => RecordAction::Done(self.outcome(other, None)),
        }
    }

    fn on_renewed(&self, state: &mut ProviderState, renewed: bool, now: i64) -> (r: RecordAction)
        ensures
            final(state).writer_generation == old(state).writer_generation,
            managed_views(final(state).records@) == (if renewed {
                with_intent(
                    managed_views(old(state).records@),
                    self.desired@,
                    record::set_view(self.expected),
                    record::set_view(self.target),
                    self.generation,
                    now,
                )
            } else {
                managed_views(old(state).records@)
            }),
            if renewed {
                r is Save
            } else {
                r is Done && r->Done_0@ == self.says(
                    self.change(),
                    Some("stop: lost the DNS writer lease"@),
                )
            },
    {
        if !renewed {
            return RecordAction::Done(
                self.outcome(
                    self.change_action(),
                    Some("stop: lost the DNS writer lease".to_owned()),
                ),
            );
        }
        let key: String = self.desired.key();
        let pending: Option<PendingChange> = Some(
            PendingChange {
                expected: clone_set(&self.expected),
                desired: clone_set(&self.target),
                ticket: None,
                started_at: now,
            },
        );
        let updated: ManagedRecord = match state.records.get(key.as_str()) {
            Some(e) => ManagedRecord {
                name: e.name.clone(),
                record_type: e.record_type,
                applied: clone_set(&e.applied),
                previous: clone_set(&e.previous),
                generation: e.generation,
                pending,
                updated_at: e.updated_at,
            },
            None => ManagedRecord {
                name: self.desired.set.name.clone(),
                record_type: self.desired.set.record_type,
                applied: None,
                previous: None,
                generation: self.generation,
                pending,
                updated_at: now,
            },
        };
        put(state, key.as_str(), updated);
        RecordAction::Save
    }

    fn drop_intent(&self, state: &mut ProviderState)
        ensures
            final(state).writer_generation == old(state).writer_generation,
            managed_views(final(state).records@) == without_intent(
                managed_views(old(state).records@),
                self.key(),
            ),
    {
        let key: String = self.desired.key();
        let kept: Option<ManagedRecord> = match state.records.get(key.as_str()) {
            None => {
                return;
            },
            Some(e) => if e.applied.is_none() && e.previous.is_none() {
                None
            } else {
                Some(
                    ManagedRecord {
                        name: e.name.clone(),
                        record_type: e.record_type,
                        applied: clone_set(&e.applied),
                        previous: clone_set(&e.previous),
                        generation: e.generation,
                        pending: None,
                        updated_at: e.updated_at,
                    },
                )
            },
        };
        match kept {
            Some(m) => put(state, key.as_str(), m),
            None => {
                proof {
                    lemma_views_remove(state.records@, key@);
                }
                state.records.remove(key.as_str());
            },
        }
    }

    fn keep_ticket(&self, state: &mut ProviderState, ticket: ChangeTicket)
        ensures
            final(state).writer_generation == old(state).writer_generation,
            managed_views(final(state).records@) == with_ticket(
                managed_views(old(state).records@),
                self.key(),
                ticket,
            ),
    {
        let key: String = self.desired.key();
        let updated: ManagedRecord = match state.records.get(key.as_str()) {
            None => {
                return;
            },
            Some(e) => match &e.pending {
                None => {
                    return;
                },
                Some(p) => ManagedRecord {
                    name: e.name.clone(),
                    record_type: e.record_type,
                    applied: clone_set(&e.applied),
                    previous: clone_set(&e.previous),
                    generation: e.generation,
                    pending: Some(
                        PendingChange {
                            expected: clone_set(&p.expected),
                            desired: clone_set(&p.desired),
                            ticket: Some(ticket),
                            started_at: p.started_at,
                        },
                    ),
                    updated_at: e.updated_at,
                },
            },
        };
        put(state, key.as_str(), updated);
    }

    fn on_replaced(
        &self,
        state: &mut ProviderState,
        result: Option<Result<ChangeTicket, DnsError>>,
        now: i64,
    ) -> (r: RecordOutcome)
        ensures
            final(state).writer_generation == old(state).writer_generation,
            managed_views(final(state).records@) == after_replace(
                managed_views(old(state).records@),
                self.key(),
                record::set_view(self.expected),
                record::set_view(self.target),
                result,
                self.generation,
                now,
            ),
            r@ == replace_outcome(self.provider@, self.key(), self.change(), result),
    {
        let answer: Result<ChangeTicket, DnsError> = match result {
            Some(answer) => answer,
            None => {
                return self.outcome(
                    self.change_action(),
                    Some("stop: lost the DNS writer lease".to_owned()),
                );
            },
        };
        match answer {
            Ok(ChangeTicket::Immediate) => {
                let key: String = self.desired.key();
                complete_change(
                    state,
                    key.as_str(),
                    clone_set(&self.expected),
                    clone_set(&self.target),
                    self.generation,
                    now,
                );
                self.outcome(self.change_action(), None)
            },
            Ok(ticket) => {
                self.keep_ticket(state, ticket);
                self.outcome(self.change_action(), None)
            },
            Err(DnsError::Conflict(reason)) => {
                self.drop_intent(state);
                self.outcome(Action::Conflict { reason }, None)
            },
            Err(e) => {
                let stop: bool = match &e {
                    DnsError::RateLimited { .. } => true,
                    DnsError::Auth(_) => true,
                    _ => false,
                };
                let words: String = e.message();
                let error: String = if stop {
                    "stop: ".to_owned().concat(words.as_str())
                } else {
                    words
                };
                self.outcome(self.change_action(), Some(error))
            },
        }
    }

    /// Takes in what the last action gave and says what has to be done next. The
    /// intent of a change is put into the state before it is saved, and the
    /// provider is touched only after the state was saved.
    pub fn step(&mut self, state: &mut ProviderState, event: RecordEvent, now: i64) -> (r:
        RecordAction)
        requires
            can_happen(old(self).phase, event),
        ensures
            final(state).writer_generation == old(state).writer_generation,
            final(self).provider == old(self).provider,
            final(self).desired == old(self).desired,
            final(self).generation == old(self).generation,
            final(self).settle_secs == old(self).settle_secs,
            final(self).phase == phase_of(r),
            ({
                let m = managed_views(old(state).records@);
                let after = managed_views(final(state).records@);
                match event {
                    RecordEvent::Begin => after == m && match pending_of(m, old(self).key()) {
                        Some(p) => match p.ticket {
                            Some(ChangeTicket::Route53 { change_id }) => r is AskSynced
                                && r->AskSynced_0 == ChangeTicket::Route53 { change_id },
                            _ => r is Read,
                        },
                        None => r is Read,
                    },
                    RecordEvent::Synced(result) => {
                        &&& after == (if result == Ok::<bool, DnsError>(true) {
                            finished(m, old(self).key(), old(self).generation, now)
                        } else {
                            m
                        })
                        &&& match result {
                            Ok(true) => r is Read,
                            Ok(false) => r is Done && r->Done_0@ == old(self).says(
                                ActionView::Wait("provider change is still pending"@),
                                None,
                            ),
                            Err(e) => r is Done && r->Done_0@ == old(self).says(
                                ActionView::Wait("cannot read change status"@),
                                Some(record::error_text(e@)),
                            ),
                        }
                    },
                    RecordEvent::Observed(Err(e)) => after == m && r is Done && r->Done_0@ == old(self).says(
                        ActionView::Wait("provider read failed"@),
                        Some(record::error_text(e@)),
                    ),
                    RecordEvent::Observed(Ok(o)) => {
                        let action = old(self).decided(m, o, now);
                        &&& after == after_decision(
                            after_observation(m, old(self).key(), seen(o), old(self).generation, now),
                            old(self).desired@,
                            seen(o),
                            action,
                            old(self).generation,
                            now,
                        )
                        &&& if action is Apply {
                            r is Renew && final(self).change() == action
                        } else {
                            r is Done && r->Done_0@ == old(self).says(action, None)
                        }
                    },
                    RecordEvent::Renewed(true) => r is Save && after == with_intent(
                        m,
                        old(self).desired@,
                        record::set_view(old(self).expected),
                        record::set_view(old(self).target),
                        old(self).generation,
                        now,
                    ) && final(self).change() == old(self).change(),
                    RecordEvent::Renewed(false) => after == m && r is Done && r->Done_0@ == old(self).says(old(self).change(), Some("stop: lost the DNS writer lease"@)),
                    RecordEvent::Saved(Ok(_)) => after == m && r is Replace && record::set_view(
                        r->expected,
                    ) == record::set_view(old(self).expected) && record::set_view(r->target)
                        == record::set_view(old(self).target) && final(self).change() == old(self).change(),
                    RecordEvent::Saved(Err(e)) => after == m && r is Done && r->Done_0@ == old(self).says(old(self).change(), Some("stop: cannot persist state: "@ + e@)),
                    RecordEvent::Replaced(result) => {
                        &&& after == after_replace(
                            m,
                            old(self).key(),
                            record::set_view(old(self).expected),
                            record::set_view(old(self).target),
                            result,
                            old(self).generation,
                            now,
                        )
                        &&& r is Done
                        &&& r->Done_0@ == replace_outcome(
                            old(self).provider@,
                            old(self).key(),
                            old(self).change(),
                            result,
                        )
                    },
                }
            }),
    {
        let r: RecordAction = match event {
            RecordEvent::Begin => self.begin(state),
            RecordEvent::Synced(result) => self.on_synced(state, result, now),
            RecordEvent::Observed(result) => self.on_observed(state, result, now),
            RecordEvent::Renewed(renewed) => self.on_renewed(state, renewed, now),
            RecordEvent::Saved(Ok(_)) => RecordAction::Replace {
                expected: clone_set(&self.expected),
                target: clone_set(&self.target),
            },
            RecordEvent::Saved(Err(e)) => RecordAction::Done(
                self.outcome(
                    self.change_action(),
                    Some("stop: cannot persist state: ".to_owned().concat(e.as_str())),
                ),
            ),
            RecordEvent::Replaced(result) => RecordAction::Done(
                self.on_replaced(state, result, now),
            ),
        };
        self.phase = match &r {
            RecordAction::AskSynced(_) => RecordPhase::Syncing,
            RecordAction::Read => RecordPhase::Reading,
            RecordAction::Renew => RecordPhase::Renewing,
            RecordAction::Save => RecordPhase::Saving,
            RecordAction::Replace { .. } => RecordPhase::Replacing,
            RecordAction::Done(_) => RecordPhase::Finished,
        };
        r
    }
}

/// A rejected conditional change leaves the managed records as they were before
/// the change was intended, as long as no other change was unfinished.
pub proof fn law_rejected_change_leaves_no_trace(
    m: Map<Seq<char>, ManagedView>,
    desired: DesiredView,
    expected: Option<RecordSetView>,
    target: Option<RecordSetView>,
    generation: u64,
    now: i64,
)
    requires
        ({
            let key = plan::key_of(desired.set.name, desired.set.record_type);
            m.contains_key(key) ==> m[key].pending is None && (m[key].applied is Some
                || m[key].previous is Some)
        }),
    ensures
        without_intent(
            with_intent(m, desired, expected, target, generation, now),
            plan::key_of(desired.set.name, desired.set.record_type),
        ) == m,
{
    let key = plan::key_of(desired.set.name, desired.set.record_type);
    let w = with_intent(m, desired, expected, target, generation, now);
    let back = without_intent(w, key);
    if m.contains_key(key) {
        assert(back[key] == m[key]);
    }
    assert(back =~= m);
}

/// A change that took effect at once is what the record is taken to be from then
/// on, with the value before it kept for rollback; nothing remains unfinished.
pub proof fn law_applied_change_is_recorded(
    m: Map<Seq<char>, ManagedView>,
    desired: DesiredView,
    expected: Option<RecordSetView>,
    target: Option<RecordSetView>,
    generation: u64,
    now: i64,
)
    ensures
        ({
            let key = plan::key_of(desired.set.name, desired.set.record_type);
            let after = after_replace(
                with_intent(m, desired, expected, target, generation, now),
                key,
                expected,
                target,
                Some(Ok(ChangeTicket::Immediate)),
                generation,
                now,
            );
            &&& after.contains_key(key)
            &&& after[key].applied == target
            &&& after[key].previous == expected
            &&& after[key].pending is None
            &&& forall|k: Seq<char>| k != key && m.contains_key(k) ==> #[trigger] after.contains_key(
                k,
            ) && after[k] == m[k]
        }),
{
}

/// An interrupted change is not mistaken for an external one: where the provider
/// reports what the change was to make of the record, it is recorded as done,
/// and asking for the same again changes nothing.
pub proof fn law_interrupted_change_resumes(
    m: Map<Seq<char>, ManagedView>,
    desired: DesiredView,
    expected: Option<RecordSetView>,
    generation: u64,
    now: i64,
    later: i64,
    settle: int,
)
    requires
        !desired.absent,
    ensures
        ({
            let key = plan::key_of(desired.set.name, desired.set.record_type);
            let w = with_intent(m, desired, expected, Some(desired.set), generation, now);
            let after = after_observation(w, key, Some(desired.set), generation, later);
            plan::decision(
                desired,
                Some(desired.set),
                None,
                entry(after, key),
                later as int,
                settle,
            ) == ActionView::NoChange
        }),
{
    let key = plan::key_of(desired.set.name, desired.set.record_type);
    let w = with_intent(m, desired, expected, Some(desired.set), generation, now);
    assert(w.contains_key(key));
    assert(plan::reached(desired, Some(desired.set)));
}

/// The records of a provider.
pub open spec fn of_provider(records: Seq<DesiredRecord>, provider: Seq<char>) -> Seq<DesiredView>
    decreases records.len(),
{
    if records.len() == 0 {
        Seq::empty()
    } else {
        let before = of_provider(records.drop_last(), provider);
        if records.last().provider@ == provider {
            before.push(records.last()@)
        } else {
            before
        }
    }
}

/// Desired records by the values that they hold.
pub open spec fn desired_views(records: Seq<DesiredRecord>) -> Seq<DesiredView> {
    records.map_values(|r: DesiredRecord| r@)
}

/// The configured records of a provider, in the order of the configuration.
pub fn records_for(records: &Vec<DesiredRecord>, provider: &str) -> (r: Vec<DesiredRecord>)
    ensures
        desired_views(r@) == of_provider(records@, provider@),
{
    let mut out: Vec<DesiredRecord> = Vec::new();
    let mut i: usize = 0;
    assert(desired_views(out@) =~= of_provider(records@.take(0), provider@));
    while i < records.len()
        invariant
            i <= records.len(),
            desired_views(out@) == of_provider(records@.take(i as int), provider@),
        decreases records.len() - i,
    {
        let ghost before = desired_views(out@);
        assert(records@.take(i + 1).drop_last() =~= records@.take(i as int));
        if same_text(records[i].provider.as_str(), provider) {
            out.push(records[i].clone());
            assert(desired_views(out@) =~= before.push(records@[i as int]@));
        }
        i += 1;
    }
    assert(records@.take(i as int) =~= records@);
    out
}

/// The keys, in order, that no record has.
pub open spec fn without_record(keys: Seq<Seq<char>>, records: Seq<DesiredView>) -> Seq<Seq<char>>
    decreases keys.len(),
{
    if keys.len() == 0 {
        Seq::empty()
    } else {
        let before = without_record(keys.drop_last(), records);
        if has_key(records, keys.last()) {
            before
        } else {
            before.push(keys.last())
        }
    }
}

/// Whether a record has this key.
pub open spec fn has_key(records: Seq<DesiredView>, key: Seq<char>) -> bool {
    exists|i: int|
        0 <= i < records.len() && key == plan::key_of(
            (#[trigger] records[i]).set.name,
            records[i].set.record_type,
        )
}

fn is_configured(records: &Vec<DesiredRecord>, key: &str) -> (r: bool)
    ensures
        r == has_key(desired_views(records@), key@),
{
    let ghost views = desired_views(records@);
    let mut i: usize = 0;
    while i < records.len()
        invariant
            i <= records.len(),
            views == desired_views(records@),
            forall|j: int|
                0 <= j < i ==> key@ != plan::key_of(
                    (#[trigger] views[j]).set.name,
                    views[j].set.record_type,
                ),
        decreases records.len() - i,
    {
        assert(views[i as int] == records@[i as int]@);
        if same_text(records[i].key().as_str(), key) {
            return true;
        }
        i += 1;
    }
    false
}

/// The managed records that are no longer configured. They are left unchanged.
pub fn no_longer_configured(state: &ProviderState, records: &Vec<DesiredRecord>) -> (r: Vec<String>)
    ensures
        text::views(r@) == without_record(state.records.keys(), desired_views(records@)),
{
    let ghost keys = state.records.keys();
    let mut out: Vec<String> = Vec::new();
    let n: usize = state.records.len();
    let mut i: usize = 0;
    assert(text::views(out@) =~= without_record(keys.take(0), desired_views(records@)));
    while i < n
        invariant
            i <= n == keys.len(),
            keys == state.records.keys(),
            text::views(out@) == without_record(keys.take(i as int), desired_views(records@)),
        decreases n - i,
    {
        let ghost before = text::views(out@);
        assert(keys.take(i + 1).drop_last() =~= keys.take(i as int));
        let key: &String = state.records.key_at(i);
        if !is_configured(records, key.as_str()) {
            out.push(key.clone());
            assert(text::views(out@) =~= before.push(key@));
        }
        i += 1;
    }
    assert(keys.take(i as int) =~= keys);
    out
}

/// Outcomes by the values that they hold.
pub open spec fn outcome_views(outcomes: Seq<RecordOutcome>) -> Seq<OutcomeView> {
    outcomes.map_values(|o: RecordOutcome| o@)
}

/// What is planned for the records of a provider.
pub open spec fn provider_plan(
    provider: Seq<char>,
    records: Seq<DesiredView>,
    observed: Seq<Result<Option<Observed>, DnsError>>,
    state: Map<Seq<char>, ManagedView>,
    now: int,
    settle: int,
) -> Seq<OutcomeView> {
    Seq::new(
        records.len(),
        |i: int|
            planned(
                provider,
                records[i],
                observed[i],
                entry(state, plan::key_of(records[i].set.name, records[i].set.record_type)),
                now,
                settle,
            ),
    )
}

/// Computes the actions for every record of a provider without changing
/// anything. Where the state cannot be read, nothing is planned.
pub fn plan(
    provider: &str,
    records: &Vec<DesiredRecord>,
    observed: &Vec<Result<Option<Observed>, DnsError>>,
    state: Result<&ProviderState, String>,
    now: i64,
    settle_secs: i64,
) -> (r: Vec<RecordOutcome>)
    requires
        observed@.len() == records@.len(),
    ensures
        outcome_views(r@) == (match state {
            Ok(s) => provider_plan(
                provider@,
                desired_views(records@),
                observed@,
                managed_views(s.records@),
                now as int,
                settle_secs as int,
            ),
            Err(e) => seq![provider_trouble(provider@, "cannot read state: "@ + e@)],
        }),
{
    let mut out: Vec<RecordOutcome> = Vec::new();
    let state: &ProviderState = match state {
        Ok(s) => s,
        Err(e) => {
            out.push(
                provider_error(provider, "cannot read state: ".to_owned().concat(e.as_str())),
            );
            assert(outcome_views(out@) =~= seq![
                provider_trouble(provider@, "cannot read state: "@ + e@),
            ]);
            return out;
        },
    };
    let ghost all = provider_plan(
        provider@,
        desired_views(records@),
        observed@,
        managed_views(state.records@),
        now as int,
        settle_secs as int,
    );
    let mut i: usize = 0;
    assert(outcome_views(out@) =~= all.take(0));
    while i < records.len()
        invariant
            i <= records.len() == observed.len() == all.len(),
            outcome_views(out@) == all.take(i as int),
            all == provider_plan(
                provider@,
                desired_views(records@),
                observed@,
                managed_views(state.records@),
                now as int,
                settle_secs as int,
            ),
        decreases records.len() - i,
    {
        let ghost before = outcome_views(out@);
        assert(desired_views(records@)[i as int] == records@[i as int]@);
        let outcome: RecordOutcome = plan_record(
            provider,
            &records[i],
            &observed[i],
            state,
            now,
            settle_secs,
        );
        out.push(outcome);
        assert(outcome_views(out@) =~= before.push(all[i as int]));
        assert(all.take(i + 1) =~= all.take(i as int).push(all[i as int]));
        i += 1;
    }
    assert(all.take(i as int) =~= all);
    out
}

/// The generations under which an Edge writes that is the only writer: for each
/// provider the one after the last writer's, as first seen.
#[derive(Debug)]
pub struct SingleWriterGenerations {
    pub generations: TextMap<u64>,
}

impl SingleWriterGenerations {
    pub fn new() -> (r: Self)
        ensures
            r.generations@ == Map::<Seq<char>, u64>::empty(),
    {
        SingleWriterGenerations { generations: TextMap::new() }
    }

    /// The generation for a provider.
    pub fn acquire(&mut self, provider: &str, state: &ProviderState) -> (r: u64)
        requires
            state.writer_generation < u64::MAX,
        ensures
            r == (if old(self).generations@.contains_key(provider@) {
                old(self).generations@[provider@]
            } else {
                (state.writer_generation + 1) as u64
            }),
            final(self).generations@ == old(self).generations@.insert(provider@, r),
    {
        match self.generations.get(provider) {
            Some(g) => {
                let r: u64 = *g;
                assert(self.generations@ =~= self.generations@.insert(provider@, r));
                return r;
            },
            None => {},
        }
        let r: u64 = state.writer_generation + 1;
        self.generations.insert(provider.to_owned(), r);
        r
    }
}

/// Whether this Edge is still the writer of a provider: a single writer is; a
/// lease has to be confirmed in time, under the same generation.
pub fn still_writer(
    writer: WriterMode,
    renewal: &Option<Result<Option<u64>, String>>,
    generation: u64,
) -> (r: bool)
    ensures
        r == (writer == WriterMode::SingleWriter || (renewal matches Some(Ok(Some(g))) && g
            == generation)),
{
    match writer {
        WriterMode::SingleWriter => true,
        WriterMode::Valkey => match renewal {
            Some(Ok(Some(renewed))) => *renewed == generation,
            _ => false,
        },
    }
}

/// How often the lease is extended while a change is under way: three times in its
/// life, but not more than once in a millisecond.
pub fn renew_every(lease_ttl: Duration) -> (r: Duration)
    ensures
        r.nanos == (if lease_ttl.nanos / 3 < 1_000_000 {
            1_000_000
        } else {
            lease_ttl.nanos / 3
        }),
{
    let third: u128 = lease_ttl.nanos / 3;
    if third < 1_000_000 {
        Duration { nanos: 1_000_000 }
    } else {
        Duration { nanos: third }
    }
}

/// What has to be done next while a provider is changed.
#[derive(Debug)]
pub enum GuardAction {
    /// Confirm that this Edge is still the writer.
    Renew,
    /// Let the change go on until it is done or the lease has to be extended.
    Await,
    /// Nothing more: what the change gave, or `None` where this Edge is no longer the
    /// writer. A change that is still under way is given up.
    Finish(Option<Result<ChangeTicket, DnsError>>),
}

/// What the last action gave.
#[derive(Debug)]
pub enum GuardEvent {
    /// Nothing was done yet.
    Begin,
    Renewed(bool),
    /// The lease has to be extended.
    TimePassed,
    Replaced(Result<ChangeTicket, DnsError>),
}

/// A change at a provider that goes on only as long as this Edge is the writer.
#[derive(Debug)]
pub struct ReplaceGuard {
    /// What the change gave, once it is done.
    pub result: Option<Result<ChangeTicket, DnsError>>,
}

impl ReplaceGuard {
    pub fn new() -> (r: Self)
        ensures
            r.result is None,
    {
        ReplaceGuard { result: None }
    }

    /// What is done next. The change is let go on, and what it gave is reported, only
    /// after this Edge was confirmed as the writer.
    pub fn step(&mut self, event: GuardEvent) -> (r: GuardAction)
        ensures
            match event {
                GuardEvent::Begin => r is Renew && *final(self) == *old(self),
                GuardEvent::TimePassed => r is Renew && *final(self) == *old(self),
                GuardEvent::Replaced(result) => r is Renew && final(self).result == Some(result),
                GuardEvent::Renewed(confirmed) => {
                    &&& final(self).result is None
                    &&& if !confirmed {
                        r == GuardAction::Finish(None)
                    } else if old(self).result is Some {
                        r == GuardAction::Finish(old(self).result)
                    } else {
                        r is Await
                    }
                },
            },
    {
        match event {
            GuardEvent::Begin => GuardAction::Renew,
            GuardEvent::TimePassed => GuardAction::Renew,
            GuardEvent::Replaced(result) => {
                self.result = Some(result);
                GuardAction::Renew
            },
            GuardEvent::Renewed(confirmed) => {
                let result: Option<Result<ChangeTicket, DnsError>> = self.result.take();
                if !confirmed {
                    GuardAction::Finish(None)
                } else if result.is_some() {
                    GuardAction::Finish(result)
                } else {
                    GuardAction::Await
                }
            },
        }
    }
}

/// The name under which a change is counted.
pub open spec fn change_status(result: Result<ChangeTicket, DnsError>) -> Seq<char> {
    match result {
        Ok(ChangeTicket::Immediate) => "success"@,
        Ok(ChangeTicket::Route53 { .. }) => "submitted"@,
        Err(e) => record::error_label(e@),
    }
}

/// The name under which a change is counted.
pub fn change_label(result: &Result<ChangeTicket, DnsError>) -> (r: &'static str)
    ensures
        r@ == change_status(*result),
{
    match result {
        Ok(ChangeTicket::Immediate) => "success",
        Ok(ChangeTicket::Route53 { .. }) => "submitted",
        Err(e) => e.label(),
    }
}

/// What has to be done next for a provider.
#[derive(Debug, Clone, Copy, PartialEq, Eq, Structural)]
pub enum PassAction {
    /// Become the writer.
    Acquire,
    /// Work on the record with this index.
    Work(usize),
    /// Confirm that this Edge is still the writer.
    Renew,
    /// Persist the state.
    Save,
    /// Nothing more.
    Finish,
}

/// What the last action gave.
#[derive(Debug)]
pub enum PassEvent {
    /// The state was read.
    Loaded(Result<(), String>),
    /// `None` where another Edge is the writer.
    Acquired(Result<Option<u64>, String>),
    Worked(RecordOutcome),
    Renewed(bool),
    Saved(Result<(), String>),
}

/// A pass over the records of a provider.
#[derive(Debug)]
pub struct ProviderPass {
    pub provider: String,
    /// How many records the provider has.
    pub count: usize,
    pub generation: u64,
    /// The last action; `None` before the state was read.
    pub last: Option<PassAction>,
    pub outcomes: Vec<RecordOutcome>,
}

/// Whether a record's outcome ends the pass.
pub open spec fn ends_pass(o: OutcomeView) -> bool {
    match o.error {
        Some(e) => text::starts_with(e, "stop:"@),
        None => false,
    }
}

/// Whether a record's outcome says that another Edge is the writer now.
pub open spec fn lost_writer(o: OutcomeView) -> bool {
    o.error == Some("stop: lost the DNS writer lease"@)
}

impl ProviderPass {
    /// Whether an event can come now.
    pub open spec fn awaits(self, event: PassEvent) -> bool {
        match self.last {
            None => event is Loaded,
            Some(PassAction::Acquire) => event is Acquired,
            Some(PassAction::Work(i)) => event is Worked && i < self.count,
            Some(PassAction::Renew) => event is Renewed,
            Some(PassAction::Save) => event is Saved,
            Some(PassAction::Finish) => false,
        }
    }

    /// The action after `i` records.
    pub open spec fn from(self, i: int) -> PassAction {
        if i < self.count {
            PassAction::Work(i as usize)
        } else {
            PassAction::Renew
        }
    }

    pub fn new(provider: &str, count: usize) -> (r: Self)
        ensures
            r.provider@ == provider@,
            r.count == count,
            r.generation == 0,
            r.last is None,
            outcome_views(r.outcomes@) == Seq::<OutcomeView>::empty(),
    {
        let r: ProviderPass = ProviderPass {
            provider: provider.to_owned(),
            count,
            generation: 0,
            last: None,
            outcomes: Vec::new(),
        };
        assert(outcome_views(r.outcomes@) =~= Seq::<OutcomeView>::empty());
        r
    }

    fn report(&mut self, error: String)
        ensures
            outcome_views(final(self).outcomes@) == outcome_views(old(self).outcomes@).push(
                provider_trouble(old(self).provider@, error@),
            ),
            final(self).provider == old(self).provider,
            final(self).count == old(self).count,
            final(self).generation == old(self).generation,
            final(self).last == old(self).last,
    {
        let ghost before = outcome_views(self.outcomes@);
        let o: RecordOutcome = provider_error(self.provider.as_str(), error);
        self.outcomes.push(o);
        assert(outcome_views(self.outcomes@) =~= before.push(o@));
    }

    /// Takes in what the last action gave and says what has to be done next. A
    /// stale writer changes nothing and does not overwrite the state saved by its
    /// successor: the state is saved only after the lease was confirmed.
    pub fn step(&mut self, state: &mut ProviderState, event: PassEvent) -> (r: PassAction)
        requires
            old(self).awaits(event),
        ensures
            final(self).provider == old(self).provider,
            final(self).count == old(self).count,
            final(self).last == Some(r),
            final(state).records == old(state).records,
            ({
                let said = outcome_views(old(self).outcomes@);
                let says = outcome_views(final(self).outcomes@);
                let keeps = final(self).generation == old(self).generation
                    && final(state).writer_generation == old(state).writer_generation;
                match event {
                    PassEvent::Loaded(Ok(_)) => keeps && says == said && r == PassAction::Acquire,
                    PassEvent::Loaded(Err(e)) => keeps && r == PassAction::Finish && says
                        == said.push(
                        provider_trouble(
                            old(self).provider@,
                            "cannot read state; not changing records: "@ + e@,
                        ),
                    ),
                    PassEvent::Acquired(Ok(None)) => keeps && says == said && r
                        == PassAction::Finish,
                    PassEvent::Acquired(Err(e)) => keeps && r == PassAction::Finish && says
                        == said.push(
                        provider_trouble(
                            old(self).provider@,
                            "control plane unavailable; DNS changes paused: "@ + e@,
                        ),
                    ),
                    PassEvent::Acquired(Ok(Some(g))) => if old(state).writer_generation > g {
                        keeps && r == PassAction::Finish && says == said.push(
                            provider_trouble(
                                old(self).provider@,
                                "a newer writer updated this zone; stopping"@,
                            ),
                        )
                    } else {
                        final(self).generation == g && final(state).writer_generation == g && says
                            == said && r == old(self).from(0)
                    },
                    PassEvent::Worked(o) => keeps && says == said.push(o@) && r == (if lost_writer(
                        o@,
                    ) {
                        PassAction::Finish
                    } else if ends_pass(o@) {
                        PassAction::Renew
                    } else {
                        old(self).from(old(self).last->0->Work_0 + 1)
                    }),
                    PassEvent::Renewed(true) => keeps && says == said && r == PassAction::Save,
                    PassEvent::Renewed(false) => keeps && r == PassAction::Finish && says
                        == said.push(
                        provider_trouble(
                            old(self).provider@,
                            "stop: lost the DNS writer lease before persisting state"@,
                        ),
                    ),
                    PassEvent::Saved(Ok(_)) => keeps && says == said && r == PassAction::Finish,
                    PassEvent::Saved(Err(e)) => keeps && r == PassAction::Finish && says
                        == said.push(
                        provider_trouble(old(self).provider@, "cannot persist state: "@ + e@),
                    ),
                }
            }),
    {
        let r: PassAction = match event {
            PassEvent::Loaded(Ok(_)) => PassAction::Acquire,
            PassEvent::Loaded(Err(e)) => {
                self.report(
                    "cannot read state; not changing records: ".to_owned().concat(e.as_str()),
                );
                PassAction::Finish
            },
            PassEvent::Acquired(Ok(None)) => PassAction::Finish,
            PassEvent::Acquired(Err(e)) => {
                self.report(
                    "control plane unavailable; DNS changes paused: ".to_owned().concat(e.as_str()),
                );
                PassAction::Finish
            },
            PassEvent::Acquired(Ok(Some(g))) => {
                if state.writer_generation > g {
                    self.report("a newer writer updated this zone; stopping".to_owned());
                    PassAction::Finish
                } else {
                    self.generation = g;
                    state.writer_generation = g;
                    if 0 < self.count {
                        PassAction::Work(0)
                    } else {
                        PassAction::Renew
                    }
                }
            },
            PassEvent::Worked(o) => {
                let lost: bool = match &o.error {
                    Some(e) => same_text(e.as_str(), "stop: lost the DNS writer lease"),
                    None => false,
                };
                let stop: bool = match &o.error {
                    Some(e) => has_prefix(e.as_str(), "stop:"),
                    None => false,
                };
                let ghost before = outcome_views(self.outcomes@);
                self.outcomes.push(o);
                assert(outcome_views(self.outcomes@) =~= before.push(o@));
                if lost {
                    PassAction::Finish
                } else if stop {
                    PassAction::Renew
                } else {
                    match self.last {
                        Some(PassAction::Work(i)) => if i + 1 < self.count {
                            PassAction::Work(i + 1)
                        } else {
                            PassAction::Renew
                        },
                        _ => PassAction::Renew,
                    }
                }
            },
            PassEvent::Renewed(true) => PassAction::Save,
            PassEvent::Renewed(false) => {
                self.report("stop: lost the DNS writer lease before persisting state".to_owned());
                PassAction::Finish
            },
            PassEvent::Saved(Ok(_)) => PassAction::Finish,
            PassEvent::Saved(Err(e)) => {
                self.report("cannot persist state: ".to_owned().concat(e.as_str()));
                PassAction::Finish
            },
        };
        self.last = Some(r);
        r
    }
}

/// Under which status an outcome is counted; outcomes of a whole provider are not.
pub open spec fn status_of(o: OutcomeView, dry_run: bool) -> Seq<char> {
    if o.error is Some {
        "error"@
    } else if dry_run && (o.action is Apply || o.action is Adopt || o.action is Forget) {
        "planned"@
    } else {
        plan::action_label(o.action)
    }
}

impl RecordOutcome {
    /// The status under which the outcome is counted.
    pub fn status(&self, dry_run: bool) -> (r: &'static str)
        ensures
            r@ == status_of(self@, dry_run),
    {
        if self.error.is_some() {
            return "error";
        }
        if dry_run {
            match self.action {
                Action::Apply { .. } => {
                    return "planned";
                },
                Action::Adopt { .. } => {
                    return "planned";
                },
                Action::Forget => {
                    return "planned";
                },
                _ => {},
            }
        }
        self.action.label()
    }
}

/// How many records have a status.
pub open spec fn counted(outcomes: Seq<OutcomeView>, dry_run: bool, status: Seq<char>) -> nat
    decreases outcomes.len(),
{
    if outcomes.len() == 0 {
        0
    } else {
        let o = outcomes.last();
        counted(outcomes.drop_last(), dry_run, status) + if o.key != "*"@ && status_of(o, dry_run)
            == status {
            1nat
        } else {
            0nat
        }
    }
}

/// The number of records with a status, for the metrics.
pub fn count_status(outcomes: &Vec<RecordOutcome>, dry_run: bool, status: &str) -> (r: usize)
    ensures
        r == counted(outcome_views(outcomes@), dry_run, status@),
{
    let ghost all = outcome_views(outcomes@);
    let mut n: usize = 0;
    let mut i: usize = 0;
    while i < outcomes.len()
        invariant
            n <= i <= outcomes.len() == all.len(),
            all == outcome_views(outcomes@),
            n == counted(all.take(i as int), dry_run, status@),
        decreases outcomes.len() - i,
    {
        assert(all.take(i + 1).drop_last() =~= all.take(i as int));
        assert(all.take(i + 1).last() == outcomes@[i as int]@);
        if !same_text(outcomes[i].key.as_str(), "*") && same_text(
            outcomes[i].status(dry_run),
            status,
        ) {
            n += 1;
        }
        i += 1;
    }
    assert(all.take(i as int) =~= all);
    n
}

/// The statuses that are published, in order.
pub open spec fn statuses() -> Seq<Seq<char>> {
    seq![
        "in_sync"@,
        "change"@,
        "adopt"@,
        "forget"@,
        "pending"@,
        "conflict"@,
        "error"@,
        "planned"@,
    ]
}

/// How many records have each of the statuses, for the metrics.
pub fn status_counts(outcomes: &Vec<RecordOutcome>, dry_run: bool) -> (r: Vec<
    (&'static str, usize),
>)
    ensures
        r@.len() == statuses().len(),
        forall|i: int|
            0 <= i < r@.len() ==> (#[trigger] r@[i]).0@ == statuses()[i] && r@[i].1 == counted(
                outcome_views(outcomes@),
                dry_run,
                statuses()[i],
            ),
{
    let mut r: Vec<(&'static str, usize)> = Vec::new();
    r.push(("in_sync", count_status(outcomes, dry_run, "in_sync")));
    r.push(("change", count_status(outcomes, dry_run, "change")));
    r.push(("adopt", count_status(outcomes, dry_run, "adopt")));
    r.push(("forget", count_status(outcomes, dry_run, "forget")));
    r.push(("pending", count_status(outcomes, dry_run, "pending")));
    r.push(("conflict", count_status(outcomes, dry_run, "conflict")));
    r.push(("error", count_status(outcomes, dry_run, "error")));
    r.push(("planned", count_status(outcomes, dry_run, "planned")));
    r
}

/// Whether every provider could be worked on, so that a pass counts as a
/// reconciliation.
pub fn all_reached(outcomes: &Vec<RecordOutcome>) -> (r: bool)
    ensures
        r == forall|i: int| 0 <= i < outcomes@.len() ==> (#[trigger] outcomes@[i]).key@ != "*"@,
{
    let mut i: usize = 0;
    while i < outcomes.len()
        invariant
            i <= outcomes.len(),
            forall|j: int| 0 <= j < i ==> (#[trigger] outcomes@[j]).key@ != "*"@,
        decreases outcomes.len() - i,
    {
        if same_text(outcomes[i].key.as_str(), "*") {
            return false;
        }
        i += 1;
    }
    true
}

/// Working on a record changes what is kept of that record alone, and never who the writer is.
pub proof fn law_records_are_worked_on_alone(
    run: &mut RecordRun,
    state: &mut ProviderState,
    event: RecordEvent,
    now: i64,
    r: RecordAction,
    own: String,
    k: Seq<char>,
)
    requires
        can_happen(old(run).phase, event),
        call_ensures(RecordRun::step, (run, state, event, now), r),
        call_ensures(DesiredRecord::key, (&old(run).desired,), own),
        k != own@,
    ensures
        final(state).writer_generation == old(state).writer_generation,
        final(state).records@.contains_key(k) == old(state).records@.contains_key(k),
        old(state).records@.contains_key(k) ==> final(state).records@[k]@ == old(state).records@[k]@,
        r is Done ==> r->Done_0.key@ == own@ && r->Done_0.provider@ == old(run).provider@,
{
    let m = managed_views(old(state).records@);
    let after = managed_views(final(state).records@);
    assert(after.contains_key(k) == m.contains_key(k));
    if m.contains_key(k) {
        assert(after[k] == m[k]);
        assert(m[k] == old(state).records@[k]@);
        assert(after[k] == final(state).records@[k]@);
    }
}

/// A record with a change that the provider has not confirmed is asked about first; a confirmed
/// change is taken for applied. Otherwise the record is read.
pub proof fn law_unconfirmed_changes_are_asked_about(
    run: &mut RecordRun,
    state: &mut ProviderState,
    event: RecordEvent,
    now: i64,
    r: RecordAction,
    own: String,
)
    requires
        event is Begin || event is Synced,
        can_happen(old(run).phase, event),
        call_ensures(RecordRun::step, (run, state, event, now), r),
        call_ensures(DesiredRecord::key, (&old(run).desired,), own),
    ensures
        ({
            let m = managed_views(old(state).records@);
            let after = managed_views(final(state).records@);
            let pending = m.contains_key(own@) && m[own@].pending is Some;
            let change = m[own@].pending->0;
            &&& event is Begin ==> after == m
            &&& event is Begin && pending && (change.ticket matches Some(ChangeTicket::Route53 { .. }))
                ==> r == RecordAction::AskSynced(change.ticket->0)
            &&& event is Begin && !(pending && (change.ticket matches Some(
                ChangeTicket::Route53 { .. },
            ))) ==> r is Read
            &&& event matches RecordEvent::Synced(Ok(true)) ==> r is Read && (pending
                ==> after.contains_key(own@) && after[own@].applied == change.desired
                && after[own@].previous == change.expected && after[own@].pending is None
                && after[own@].updated_at == now)
            &&& event matches RecordEvent::Synced(Ok(true)) ==> (!pending ==> after == m)
            &&& event matches RecordEvent::Synced(Ok(false)) ==> after == m && r is Done
                && r->Done_0.error is None && r->Done_0.action is Wait
            &&& event matches RecordEvent::Synced(Err(_)) ==> after == m && r is Done
                && r->Done_0.error is Some && r->Done_0.action is Wait
        }),
{
    if r is Done {
        assert(r->Done_0@.action is Wait);
    }
}

/// What is to be done with a record that is read is what is decided of it. A change asks for the
/// lease first; a record that is adopted is kept as it is, and one that is forgotten is not kept
/// any more.
pub proof fn law_read_records_are_decided_on(
    run: &mut RecordRun,
    state: &mut ProviderState,
    observed: Option<Observed>,
    managed: Option<ManagedRecord>,
    now: i64,
    r: RecordAction,
    own: String,
    action: Action,
)
    requires
        can_happen(old(run).phase, RecordEvent::Observed(Ok(observed))),
        call_ensures(RecordRun::step, (run, state, RecordEvent::Observed(Ok(observed)), now), r),
        call_ensures(DesiredRecord::key, (&old(run).desired,), own),
        managed == if old(state).records@.contains_key(own@) {
            Some(old(state).records@[own@])
        } else {
            None
        },
        managed is Some ==> managed->0.pending is None,
        call_ensures(
            decide,
            (
                &old(run).desired,
                match observed {
                    Some(o) => Some(&o),
                    None => None,
                },
                match managed {
                    Some(m) => Some(&m),
                    None => None,
                },
                now,
                old(run).settle_secs,
            ),
            action,
        ),
    ensures
        ({
            let m = managed_views(old(state).records@);
            let after = managed_views(final(state).records@);
            &&& r is Renew == action is Apply
            &&& action matches Action::Apply { expected, desired } ==> after == m && record::set_view(
                final(run).expected,
            ) == record::set_view(expected) && record::set_view(final(run).target)
                == record::set_view(desired)
            &&& !(action is Apply) ==> r is Done && r->Done_0.action@ == action@
                && r->Done_0.error is None
            &&& action matches Action::Adopt { current } ==> after.contains_key(own@)
                && after[own@].applied == Some(current@) && after[own@].pending is None
                && after[own@].previous is None && after[own@].generation == old(run).generation
            &&& action is Forget ==> !after.contains_key(own@)
            &&& action is Wait || action is Conflict ==> after == m
            &&& action is NoChange && m.contains_key(own@) ==> after.contains_key(own@)
                && after[own@].pending is None && after[own@].previous == m[own@].previous
        }),
{
    let m = managed_views(old(state).records@);
    if managed is Some {
        assert(m[own@] == managed->0@);
        assert(managed->0@.pending is None);
    }
    assert(action@ == old(run).decided(m, observed, now));
}

/// A change is written down before it is made, and made only as it was written down and while
/// the lease is held.
pub proof fn law_changes_are_written_down_first(
    run: &mut RecordRun,
    state: &mut ProviderState,
    event: RecordEvent,
    now: i64,
    r: RecordAction,
    own: String,
)
    requires
        event is Renewed || event is Saved,
        can_happen(old(run).phase, event),
        call_ensures(RecordRun::step, (run, state, event, now), r),
        call_ensures(DesiredRecord::key, (&old(run).desired,), own),
    ensures
        ({
            let m = managed_views(old(state).records@);
            let after = managed_views(final(state).records@);
            let expected = record::set_view(old(run).expected);
            let target = record::set_view(old(run).target);
            &&& event == RecordEvent::Renewed(true) ==> {
                &&& r is Save
                &&& after.contains_key(own@)
                &&& after[own@].pending matches Some(p) && p.expected == expected && p.desired
                    == target && p.ticket is None && p.started_at == now
                &&& m.contains_key(own@) ==> after[own@].applied == m[own@].applied
                    && after[own@].previous == m[own@].previous
                &&& !m.contains_key(own@) ==> after[own@].applied is None
                    && after[own@].previous is None
                &&& record::set_view(final(run).expected) == expected
                &&& record::set_view(final(run).target) == target
            }
            &&& event == RecordEvent::Renewed(false) ==> after == m && r is Done
                && r->Done_0.error is Some
            &&& event matches RecordEvent::Saved(Ok(_)) ==> after == m && r is Replace
                && record::set_view(r->expected) == expected && record::set_view(r->target)
                == target
            &&& event matches RecordEvent::Saved(Err(_)) ==> after == m && r is Done
                && r->Done_0.error is Some
        }),
{
    if event == RecordEvent::Renewed(true) {
        let change = final(run).change();
        assert(change == old(run).change());
    }
}

/// A change that was made at once is what is applied from there on, and one that was only
/// submitted keeps its ticket. One that the provider refused for a conflict is not unfinished
/// any more; whether any other took place stays open.
pub proof fn law_made_changes_are_recorded(
    run: &mut RecordRun,
    state: &mut ProviderState,
    result: Option<Result<ChangeTicket, DnsError>>,
    now: i64,
    r: RecordAction,
    own: String,
)
    requires
        can_happen(old(run).phase, RecordEvent::Replaced(result)),
        call_ensures(RecordRun::step, (run, state, RecordEvent::Replaced(result), now), r),
        call_ensures(DesiredRecord::key, (&old(run).desired,), own),
        old(state).records@.contains_key(own@),
        old(state).records@[own@].pending is Some,
    ensures
        r is Done,
        ({
            let m = managed_views(old(state).records@);
            let after = managed_views(final(state).records@);
            match result {
                None => after == m && r->Done_0.error is Some,
                Some(Ok(ChangeTicket::Immediate)) => {
                    &&& after.contains_key(own@)
                    &&& after[own@].applied == record::set_view(old(run).target)
                    &&& after[own@].previous == record::set_view(old(run).expected)
                    &&& after[own@].pending is None
                    &&& after[own@].generation == old(run).generation
                    &&& r->Done_0.error is None && r->Done_0.action is Apply
                },
                Some(Ok(ticket)) => {
                    &&& after.contains_key(own@)
                    &&& after[own@].applied == m[own@].applied
                    &&& after[own@].pending is Some
                    &&& after[own@].pending->0.ticket == Some(ticket)
                    &&& after[own@].pending->0.desired == m[own@].pending->0.desired
                    &&& r->Done_0.error is None && r->Done_0.action is Apply
                },
                Some(Err(e)) => if e is Conflict {
                    &&& after.contains_key(own@) ==> after[own@].pending is None
                        && after[own@].applied == m[own@].applied
                    &&& m[own@].applied is Some ==> after.contains_key(own@)
                    &&& r->Done_0.error is None && r->Done_0.action is Conflict
                } else {
                    after == m && r->Done_0.error is Some && r->Done_0.action is Apply
                },
            }
        }),
{
    let m = managed_views(old(state).records@);
    assert(m[own@] == old(state).records@[own@]@);
    assert(m[own@].pending is Some);
    let view = r->Done_0@;
    assert(text::opt_view(r->Done_0.error) == view.error);
    assert(r->Done_0.action@ == view.action);
}

/// Completing a change makes it the applied one, and finishing a pending change completes that.
pub proof fn law_completed_changes_are_applied(
    a: &mut ProviderState,
    b: &mut ProviderState,
    key: &str,
    expected: Option<RecordSet>,
    desired: Option<RecordSet>,
    generation: u64,
    now: i64,
    k: Seq<char>,
)
    requires
        call_ensures(complete_change, (a, key, expected, desired, generation, now), ()),
        call_ensures(finish_pending, (b, key, generation, now), ()),
        k != key@,
    ensures
        ({
            let m = managed_views(old(a).records@);
            let after = managed_views(final(a).records@);
            &&& after.contains_key(key@) == m.contains_key(key@)
            &&& m.contains_key(key@) ==> after[key@].applied == record::set_view(desired)
                && after[key@].previous == record::set_view(expected) && after[key@].pending is None
                && after[key@].generation == generation && after[key@].updated_at == now
            &&& after.contains_key(k) == m.contains_key(k) && after[k] == m[k]
        }),
        ({
            let m = managed_views(old(b).records@);
            let after = managed_views(final(b).records@);
            &&& m.contains_key(key@) && m[key@].pending is Some ==> after.contains_key(key@)
                && after[key@].applied == m[key@].pending->0.desired && after[key@].previous
                == m[key@].pending->0.expected && after[key@].pending is None
            &&& !(m.contains_key(key@) && m[key@].pending is Some) ==> after == m
            &&& after.contains_key(k) == m.contains_key(k) && after[k] == m[k]
        }),
{
}

/// The plan for a record is what is decided of it, under its provider and key; a record that
/// was not read waits, with the reason. A pass plans each of its records so, or, without its
/// state, none of them.
pub proof fn law_plans_are_what_is_decided(
    provider: &str,
    records: Vec<DesiredRecord>,
    observed: Vec<Result<Option<Observed>, DnsError>>,
    state: ProviderState,
    now: i64,
    settle: i64,
    i: int,
    one: RecordOutcome,
    all: Vec<RecordOutcome>,
    none: Vec<RecordOutcome>,
    why: String,
    key: String,
    action: Action,
)
    requires
        observed@.len() == records@.len(),
        0 <= i < records@.len(),
        call_ensures(plan_record, (provider, &records@[i], &observed@[i], &state, now, settle), one),
        call_ensures(
            self::plan,
            (provider, &records, &observed, Ok::<&ProviderState, String>(&state), now, settle),
            all,
        ),
        call_ensures(
            self::plan,
            (provider, &records, &observed, Err::<&ProviderState, String>(why), now, settle),
            none,
        ),
        call_ensures(DesiredRecord::key, (&records@[i],), key),
        observed@[i] matches Ok(o) ==> call_ensures(
            decide,
            (
                &records@[i],
                match o {
                    Some(x) => Some(&x),
                    None => None,
                },
                if state.records@.contains_key(key@) {
                    Some(&state.records@[key@])
                } else {
                    None
                },
                now,
                settle,
            ),
            action,
        ),
    ensures
        one.provider@ == provider@,
        one.key@ == key@,
        observed@[i] is Ok ==> one.action@ == action@ && one.error is None,
        observed@[i] is Err ==> one.action is Wait && one.error is Some,
        all@.len() == records@.len(),
        all@[i]@ == one@,
        none@.len() == 1 && none@[0].error is Some && none@[0].action is Wait,
{
    let key_entry = entry(managed_views(state.records@), key@);
    let views = desired_views(records@);
    assert(views[i] == records@[i]@);
    assert(outcome_views(all@).len() == all@.len());
    assert(outcome_views(all@)[i] == all@[i]@);
    assert(outcome_views(none@).len() == none@.len());
    assert(outcome_views(none@)[0] == none@[0]@);
    assert(none@[0]@.action is Wait);
    assert(one@.key == key@);
    if observed@[i] is Err {
        assert(one@.action is Wait);
        assert(one@.error is Some);
    }
}

proof fn lemma_of_provider(records: Seq<DesiredRecord>, provider: Seq<char>, i: int)
    requires
        0 <= i < records.len(),
        records[i].provider@ == provider,
    ensures
        of_provider(records, provider).contains(records[i]@),
    decreases records.len(),
{
    let front = records.drop_last();
    let before = of_provider(front, provider);
    let all = of_provider(records, provider);
    if i < front.len() {
        lemma_of_provider(front, provider, i);
        let k = before.index_of(records[i]@);
        assert(all[k] == records[i]@);
    } else {
        assert(all[all.len() - 1] == records[i]@);
    }
}

proof fn lemma_only_of_provider(records: Seq<DesiredRecord>, provider: Seq<char>, i: int)
    requires
        0 <= i < of_provider(records, provider).len(),
    ensures
        of_provider(records, provider)[i].provider == provider,
    decreases records.len(),
{
    let before = of_provider(records.drop_last(), provider);
    if i < before.len() {
        lemma_only_of_provider(records.drop_last(), provider, i);
    }
}

/// The records of a provider are those that are configured for it, and all of them.
pub proof fn law_providers_get_their_records(
    records: Vec<DesiredRecord>,
    provider: &str,
    r: Vec<DesiredRecord>,
    i: int,
    j: int,
)
    requires
        call_ensures(records_for, (&records, provider), r),
    ensures
        0 <= i < r@.len() ==> r@[i].provider@ == provider@,
        0 <= j < records@.len() && records@[j].provider@ == provider@ ==> exists|k: int|
            0 <= k < r@.len() && (#[trigger] r@[k])@ == records@[j]@,
{
    let views = desired_views(r@);
    if 0 <= i < r@.len() {
        assert(views[i] == r@[i]@);
        lemma_only_of_provider(records@, provider@, i);
    }
    if 0 <= j < records@.len() && records@[j].provider@ == provider@ {
        lemma_of_provider(records@, provider@, j);
        let k = views.index_of(records@[j]@);
        assert(views[k] == r@[k]@);
    }
}

proof fn lemma_without_record(keys: Seq<Seq<char>>, records: Seq<DesiredView>, key: Seq<char>)
    ensures
        without_record(keys, records).contains(key) == (keys.contains(key) && !has_key(
            records,
            key,
        )),
    decreases keys.len(),
{
    if keys.len() > 0 {
        let front = keys.drop_last();
        lemma_without_record(front, records, key);
        let before = without_record(front, records);
        let all = without_record(keys, records);
        assert(keys[keys.len() - 1] == keys.last());
        if front.contains(key) {
            let i = front.index_of(key);
            assert(keys[i] == key);
        }
        if keys.contains(key) {
            let i = keys.index_of(key);
            if i < front.len() {
                assert(front[i] == key);
            }
        }
        if before.contains(key) {
            let i = before.index_of(key);
            assert(all[i] == key);
        }
        if all.contains(key) {
            let i = all.index_of(key);
            if i < before.len() {
                assert(before[i] == key);
            }
        }
        if all.len() > before.len() {
            assert(all[all.len() - 1] == keys.last());
        }
    }
}

/// A record is no longer configured if and only if it is kept and no configured record has its
/// key.
pub proof fn law_kept_records_can_be_unconfigured(
    state: ProviderState,
    records: Vec<DesiredRecord>,
    r: Vec<String>,
    i: int,
    key: String,
    k: Seq<char>,
)
    requires
        call_ensures(no_longer_configured, (&state, &records), r),
        0 <= i < records@.len() ==> call_ensures(DesiredRecord::key, (&records@[i],), key),
    ensures
        0 <= i < records@.len() ==> !text::views(r@).contains(key@),
        text::views(r@).contains(k) ==> state.records.keys().contains(k),
        records@.len() == 0 && state.records.keys().contains(k) ==> text::views(r@).contains(k),
{
    let views = desired_views(records@);
    lemma_without_record(state.records.keys(), views, k);
    if 0 <= i < records@.len() {
        lemma_without_record(state.records.keys(), views, key@);
        assert(views[i] == records@[i]@);
    }
}

/// A single writer takes the generation after the last one and then keeps it. With a lease, the
/// writer goes on only while it is renewed in its own generation.
pub proof fn law_writers_keep_their_generation(
    a: &mut SingleWriterGenerations,
    b: &mut SingleWriterGenerations,
    provider: &str,
    state: ProviderState,
    later: ProviderState,
    first: u64,
    second: u64,
    other: Seq<char>,
    writer: WriterMode,
    renewal: Option<Result<Option<u64>, String>>,
    still: bool,
    ttl: Duration,
    every: Duration,
)
    requires
        state.writer_generation < u64::MAX,
        later.writer_generation < u64::MAX,
        call_ensures(SingleWriterGenerations::acquire, (a, provider, &state), first),
        *old(b) == *final(a),
        call_ensures(SingleWriterGenerations::acquire, (b, provider, &later), second),
        call_ensures(still_writer, (writer, &renewal, first), still),
        call_ensures(renew_every, (ttl,), every),
        other != provider@,
    ensures
        second == first,
        !old(a).generations@.contains_key(provider@) ==> first == state.writer_generation + 1,
        final(a).generations@.contains_key(other) == old(a).generations@.contains_key(other),
        final(a).generations@[other] == old(a).generations@[other],
        writer is SingleWriter ==> still,
        writer is Valkey ==> still == (renewal == Some(
            Ok::<Option<u64>, String>(Some(first)),
        )),
        ttl.nanos >= 3_000_000 ==> 3 * every.nanos <= ttl.nanos && ttl.nanos < 3 * every.nanos + 3,
        every.nanos >= 1_000_000,
{
}

/// A change counts only if the lease was still held after it was made; while it is being made
/// the lease is renewed, and a lost lease ends it with no result.
pub proof fn law_changes_count_under_the_lease(
    guard: &mut ReplaceGuard,
    event: GuardEvent,
    r: GuardAction,
)
    requires
        call_ensures(ReplaceGuard::step, (guard, event), r),
    ensures
        !(event is Renewed) ==> r is Renew,
        event matches GuardEvent::Replaced(result) ==> final(guard).result == Some(result),
        event is Begin || event is TimePassed ==> final(guard).result == old(guard).result,
        event == GuardEvent::Renewed(false) ==> r == GuardAction::Finish(None),
        event == GuardEvent::Renewed(true) && old(guard).result is None ==> r is Await,
        event == GuardEvent::Renewed(true) && old(guard).result is Some ==> r
            == GuardAction::Finish(old(guard).result),
{
}

/// A pass works on its records one after the other under a generation that is not older than
/// the last writer's, and saves what it did while the lease is held. Whatever keeps it from
/// that is reported and ends it; a record that stops the pass ends it early.
pub proof fn law_passes_work_through_their_records(
    pass: &mut ProviderPass,
    state: &mut ProviderState,
    event: PassEvent,
    r: PassAction,
)
    requires
        old(pass).awaits(event),
        call_ensures(ProviderPass::step, (pass, state, event), r),
    ensures
        final(state).records == old(state).records,
        final(pass).count == old(pass).count,
        event matches PassEvent::Loaded(x) ==> (x is Ok == (r is Acquire) && x is Err == (
        r is Finish)),
        event matches PassEvent::Acquired(Ok(Some(g))) ==> {
            &&& old(state).writer_generation > g ==> r is Finish && final(state).writer_generation
                == old(state).writer_generation && final(pass).outcomes@.len() == old(pass).outcomes@.len() + 1
            &&& old(state).writer_generation <= g ==> final(state).writer_generation == g && final(pass).generation == g && final(pass).outcomes@.len() == old(pass).outcomes@.len()
                && if old(pass).count == 0 {
                r is Renew
            } else {
                r == PassAction::Work(0)
            }
        },
        event matches PassEvent::Acquired(x) ==> (!(x matches Ok(Some(_))) ==> r is Finish),
        event matches PassEvent::Worked(o) ==> {
            &&& final(pass).outcomes@.len() == old(pass).outcomes@.len() + 1
            &&& final(pass).outcomes@.last()@ == o@
            &&& o.error is None ==> if old(pass).last->0->Work_0 + 1 < old(pass).count {
                r == PassAction::Work((old(pass).last->0->Work_0 + 1) as usize)
            } else {
                r is Renew
            }
            &&& o.error is Some && o.error->0@ == "stop: lost the DNS writer lease"@ ==> r
                is Finish
            &&& o.error is Some && o.error->0@ != "stop: lost the DNS writer lease"@
                && text::starts_with(o.error->0@, "stop:"@) ==> r is Renew
        },
        event == PassEvent::Renewed(true) ==> r is Save,
        event == PassEvent::Renewed(false) ==> r is Finish && final(pass).outcomes@.len() == old(pass).outcomes@.len() + 1,
        event is Saved ==> r is Finish,
        event matches PassEvent::Saved(Ok(_)) ==> final(pass).outcomes@.len() == old(pass).outcomes@.len(),
        event matches PassEvent::Saved(Err(_)) ==> final(pass).outcomes@.len() == old(pass).outcomes@.len() + 1,
{
    let said = outcome_views(old(pass).outcomes@);
    let says = outcome_views(final(pass).outcomes@);
    assert(said.len() == old(pass).outcomes@.len());
    assert(says.len() == final(pass).outcomes@.len());
    if event is Worked {
        assert(says.last() == event->Worked_0@);
        assert(final(pass).outcomes@.last()@ == says.last());
        assert(event->Worked_0@.error == text::opt_view(event->Worked_0.error));
    }
}

/// An outcome with an error is an error; a change that was only planned says so. One outcome
/// more counts once, under its own status, unless it speaks of the whole provider.
pub proof fn law_outcomes_are_counted_by_status(
    fewer: Vec<RecordOutcome>,
    outcomes: Vec<RecordOutcome>,
    last: RecordOutcome,
    dry_run: bool,
    status: &str,
    own: &'static str,
    less: usize,
    r: usize,
    reached: bool,
    before: bool,
)
    requires
        outcomes@ == fewer@.push(last),
        call_ensures(count_status, (&fewer, dry_run, status), less),
        call_ensures(count_status, (&outcomes, dry_run, status), r),
        call_ensures(RecordOutcome::status, (&last, dry_run), own),
        call_ensures(all_reached, (&outcomes,), reached),
        call_ensures(all_reached, (&fewer,), before),
    ensures
        fewer@.len() == 0 ==> less == 0,
        r == less + if last.key@ != "*"@ && own@ == status@ {
            1int
        } else {
            0
        },
        reached == (before && last.key@ != "*"@),
        last.error is Some ==> own@ == "error"@,
        last.error is None && dry_run && (last.action is Apply || last.action is Adopt
            || last.action is Forget) ==> own@ == "planned"@,
{
    let views = outcome_views(outcomes@);
    assert(views.drop_last() =~= outcome_views(fewer@));
    assert(views.last() == last@);
    assert(last@.error == text::opt_view(last.error));
    assert(last@.action == last.action@);
    assert(outcomes@[fewer@.len() as int] == last);
    if reached {
        assert forall|i: int| 0 <= i < fewer@.len() implies (#[trigger] fewer@[i]).key@ != "*"@ by {
            assert(outcomes@[i] == fewer@[i]);
        }
    }
    if before {
        assert forall|i: int| 0 <= i < fewer@.len() implies (#[trigger] outcomes@[i]).key@
            != "*"@ by {
            assert(outcomes@[i] == fewer@[i]);
        }
    }
}

/// Every status is listed once with the number of its outcomes. A change is labelled by how it
/// went, and trouble with a provider concerns all of its records.
pub proof fn law_every_status_is_counted(
    outcomes: Vec<RecordOutcome>,
    dry_run: bool,
    status: &str,
    i: int,
    n: usize,
    r: Vec<(&'static str, usize)>,
    made: Result<ChangeTicket, DnsError>,
    label: &'static str,
    provider: &str,
    error: String,
    trouble: RecordOutcome,
)
    requires
        call_ensures(status_counts, (&outcomes, dry_run), r),
        0 <= i < r@.len(),
        status@ == r@[i].0@,
        call_ensures(count_status, (&outcomes, dry_run, status), n),
        call_ensures(change_label, (&made,), label),
        call_ensures(provider_error, (provider, error), trouble),
    ensures
        r@[i].1 == n,
        r@.len() == 8,
        made matches Ok(ticket) ==> label@ == if ticket is Immediate {
            "success"@
        } else {
            "submitted"@
        },
        made matches Err(e) ==> label@ == match e {
            DnsError::Conflict(_) => "conflict"@,
            DnsError::RateLimited { .. } => "rate_limited"@,
            DnsError::Auth(_) => "auth"@,
            DnsError::Timeout => "timeout"@,
            DnsError::Unsupported(_) => "unsupported"@,
            DnsError::Provider(_) => "provider"@,
        },
        trouble.provider@ == provider@ && trouble.key@ == "*"@ && trouble.action is Wait,
        trouble.error is Some && trouble.error->0@ == error@,
{
    assert(trouble@.error == text::opt_view(trouble.error));
    assert(trouble@.action == trouble.action@);
    assert(trouble@.provider == trouble.provider@);
    assert(trouble@.key == trouble.key@);
}

} // verus!
