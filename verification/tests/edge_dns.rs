use std::collections::BTreeMap;

use sievetube::edge::config::{
    DnsConfig, DnsProviderConfig, DnsProviderType, DnsRecordConfig, RecordState,
};
use sievetube::edge::dns::cloudflare;
use sievetube::edge::dns::cloudflare::{
    ApiCall, ApiMessage, CfRecord, Envelope, Secret, TokenSource,
};
use sievetube::edge::dns::compile::compile;
use sievetube::edge::dns::memory::MemoryProvider;
use sievetube::edge::dns::plan::{
    decide, Action, DesiredRecord, ManagedRecord, PendingChange, ProviderState,
};
use sievetube::edge::dns::reconciler::{
    all_reached, change_label, count_status, lease_resource, no_longer_configured, plan,
    provider_error, records_for, renew_every, status_counts, still_writer, GuardAction,
    GuardEvent, PassAction, PassEvent, ProviderPass, RecordAction, RecordEvent, RecordOutcome,
    RecordRun, ReplaceGuard, SingleWriterGenerations, WriterMode,
};
use sievetube::edge::dns::record::{
    quote_txt, unquote_txt, ChangeTicket, DnsError, Observed, Provider, RecordSet, RecordType,
};
use sievetube::edge::dns::route53;
use sievetube::edge::dns::route53::{
    decode_name, fqdn, normalize_zone_id, ListedPage, ListedSet, Replacement,
};
use sievetube::edge::dns::txt::{
    delegation_allowed, journal_add, journal_remove, visible, wait_propagated, SyncWait,
    TxtAction, TxtChallengeSolver, TxtChange, TxtEvent, TxtHandle, TxtRun, TxtSettings, WaitAction,
};
use sievetube::text_set::TextSet;
use sievetube::time::Duration;

const NOW: i64 = 1_800_000_000;

fn texts(values: &[&str]) -> TextSet {
    TextSet::from_vec(values.iter().map(|v| v.to_string()).collect())
}

fn listed(set: &TextSet) -> Vec<String> {
    (0..set.len()).map(|i| set.item(i).clone()).collect()
}

fn named_set(name: &str, record_type: RecordType, ttl: u32, values: &[&str]) -> RecordSet {
    RecordSet {
        name: name.to_string(),
        record_type,
        ttl,
        values: texts(values),
        proxied: None,
    }
}

#[test]
fn normalizes_values() {
    assert_eq!(
        RecordType::A.normalize_value(" 192.0.2.1 ").unwrap(),
        "192.0.2.1"
    );
    assert_eq!(
        RecordType::Aaaa.normalize_value("2001:DB8:0::1").unwrap(),
        "2001:db8::1"
    );
    assert_eq!(
        RecordType::Cname
            .normalize_value("Edge.Example.com.")
            .unwrap(),
        "edge.example.com"
    );
    assert_eq!(
        RecordType::Txt
            .normalize_value("\"v=spf1\" \" -all\"")
            .unwrap(),
        "v=spf1 -all"
    );
    assert!(RecordType::A.normalize_value("2001:db8::1").is_err());
    assert!(RecordType::Txt.normalize_value("a\nb").is_err());
}

#[test]
fn txt_quoting_round_trips() {
    let long = "x".repeat(600);
    let quoted = quote_txt(&long);
    assert_eq!(quoted.matches('"').count(), 6);
    assert_eq!(unquote_txt(&quoted), long);
    assert_eq!(unquote_txt("  plain text "), "  plain text ");
    assert_eq!(unquote_txt("  \"abc\" \"def\" "), "abcdef");
    assert_eq!(
        unquote_txt(&quote_txt(r#"say "hi" \o/"#)),
        r#"say "hi" \o/"#
    );
    assert_eq!(quote_txt(""), "\"\"");
}

#[test]
fn proxied_is_compared_only_when_specified() {
    let mut a = RecordSet {
        name: "www.example.com".into(),
        record_type: RecordType::A,
        ttl: 300,
        values: texts(&["192.0.2.1"]),
        proxied: None,
    };
    let mut b = a.clone();
    b.proxied = Some(true);
    assert!(a.same_data(&b));
    a.proxied = Some(false);
    assert!(!a.same_data(&b));
}

fn set(values: &[&str], ttl: u32) -> RecordSet {
    named_set("www.example.com", RecordType::A, ttl, values)
}

fn desired(values: &[&str]) -> DesiredRecord {
    DesiredRecord {
        provider: "cf".into(),
        set: set(values, 300),
        import: false,
        absent: false,
    }
}

fn observed(set: RecordSet) -> Observed {
    Observed {
        set,
        unsupported: None,
    }
}

fn managed(applied: Option<RecordSet>) -> ManagedRecord {
    ManagedRecord {
        name: "www.example.com".into(),
        record_type: RecordType::A,
        applied,
        previous: None,
        generation: 1,
        pending: None,
        updated_at: NOW - 3600,
    }
}

#[test]
fn creates_updates_and_stays_idempotent() {
    let want = desired(&["192.0.2.1"]);
    assert_eq!(
        decide(&want, None, None, NOW, 30),
        Action::Apply {
            expected: None,
            desired: Some(set(&["192.0.2.1"], 300))
        }
    );

    let applied = set(&["192.0.2.1"], 300);
    let state = managed(Some(applied.clone()));
    assert_eq!(
        decide(
            &want,
            Some(&observed(applied.clone())),
            Some(&state),
            NOW,
            30
        ),
        Action::NoChange
    );

    let changed = desired(&["192.0.2.2"]);
    assert_eq!(
        decide(
            &changed,
            Some(&observed(applied.clone())),
            Some(&state),
            NOW,
            30
        ),
        Action::Apply {
            expected: Some(applied),
            desired: Some(set(&["192.0.2.2"], 300))
        }
    );
}

#[test]
fn unmanaged_records_are_never_overwritten_or_deleted_without_import() {
    let existing = observed(set(&["198.51.100.1"], 300));
    assert!(matches!(
        decide(&desired(&["192.0.2.1"]), Some(&existing), None, NOW, 30),
        Action::Conflict { .. }
    ));

    let mut delete = desired(&[]);
    delete.absent = true;
    delete.import = true;
    assert!(matches!(
        decide(&delete, Some(&existing), None, NOW, 30),
        Action::Conflict { .. }
    ));

    let mut import = desired(&["198.51.100.1"]);
    import.import = true;
    assert_eq!(
        decide(&import, Some(&existing), None, NOW, 30),
        Action::Adopt {
            current: existing.set.clone()
        }
    );
}

#[test]
fn import_keeps_proxy_setting() {
    let mut current = set(&["198.51.100.1"], 1);
    current.proxied = Some(true);
    let mut import = desired(&["192.0.2.1"]);
    import.import = true;
    import.set.ttl = 1;
    match decide(&import, Some(&observed(current)), None, NOW, 30) {
        Action::Apply {
            desired: Some(target),
            ..
        } => assert_eq!(target.proxied, Some(true)),
        other => panic!("unexpected {other:?}"),
    }
}

#[test]
fn external_changes_stop_management_after_settle_window() {
    let applied = set(&["192.0.2.1"], 300);
    let mut state = managed(Some(applied));
    let tampered = observed(set(&["203.0.113.9"], 300));
    assert!(matches!(
        decide(
            &desired(&["192.0.2.1"]),
            Some(&tampered),
            Some(&state),
            NOW,
            30
        ),
        Action::Conflict { .. }
    ));
    // Deleted externally is also a conflict, not a silent re-create.
    assert!(matches!(
        decide(&desired(&["192.0.2.1"]), None, Some(&state), NOW, 30),
        Action::Conflict { .. }
    ));

    state.updated_at = NOW - 5;
    assert!(matches!(
        decide(
            &desired(&["192.0.2.1"]),
            Some(&tampered),
            Some(&state),
            NOW,
            30
        ),
        Action::Wait { .. }
    ));
}

#[test]
fn deletion_requires_explicit_absent_and_matching_value() {
    let applied = set(&["192.0.2.1"], 300);
    let state = managed(Some(applied.clone()));
    let mut absent = desired(&[]);
    absent.absent = true;
    assert_eq!(
        decide(
            &absent,
            Some(&observed(applied.clone())),
            Some(&state),
            NOW,
            30
        ),
        Action::Apply {
            expected: Some(applied),
            desired: None
        }
    );
    assert_eq!(decide(&absent, None, Some(&state), NOW, 30), Action::Forget);
}

#[test]
fn interrupted_change_resumes_from_intermediate_state() {
    let from = set(&["192.0.2.1", "192.0.2.2"], 300);
    let to = set(&["192.0.2.2", "192.0.2.3"], 300);
    let mut state = managed(Some(from.clone()));
    state.pending = Some(PendingChange {
        expected: Some(from),
        desired: Some(to.clone()),
        ticket: None,
        started_at: NOW - 3600,
    });

    // Half applied: the new value was added, the old one not yet removed.
    let partial = set(&["192.0.2.1", "192.0.2.2", "192.0.2.3"], 300);
    let want = DesiredRecord {
        set: to.clone(),
        ..desired(&[])
    };
    assert_eq!(
        decide(
            &want,
            Some(&observed(partial.clone())),
            Some(&state),
            NOW,
            30
        ),
        Action::Apply {
            expected: Some(partial),
            desired: Some(to)
        }
    );

    // Something unrelated to the change is a conflict.
    let foreign = set(&["198.51.100.7"], 300);
    assert!(matches!(
        decide(&want, Some(&observed(foreign)), Some(&state), NOW, 30),
        Action::Conflict { .. }
    ));
}

#[test]
fn unsupported_provider_configuration_is_a_conflict() {
    let o = Observed {
        set: set(&["192.0.2.1"], 300),
        unsupported: Some("alias record".into()),
    };
    let mut import = desired(&["192.0.2.1"]);
    import.import = true;
    assert!(matches!(
        decide(&import, Some(&o), None, NOW, 30),
        Action::Conflict { .. }
    ));
}

#[test]
fn actions_are_described() {
    let action = Action::Apply {
        expected: None,
        desired: Some(set(&["192.0.2.1"], 300)),
    };
    assert!(action.describe().starts_with("create "));
    assert!(action.describe().contains("192.0.2.1"));
    assert_eq!(Action::NoChange.describe(), "in sync");
    assert_eq!(Action::NoChange.label(), "in_sync");
}

fn provider(name: &str, kind: DnsProviderType, zone: &str) -> DnsProviderConfig {
    let cloudflare = kind == DnsProviderType::Cloudflare;
    DnsProviderConfig {
        name: name.into(),
        kind,
        zone: zone.into(),
        zone_id: if cloudflare { Some("zone123".into()) } else { None },
        api_token_env: if cloudflare { Some("CF_TOKEN".into()) } else { None },
        api_token_file: None,
        api_base_url: None,
        hosted_zone_id: if cloudflare { None } else { Some("Z123".into()) },
        endpoint_url: None,
        region: None,
        request_timeout_secs: 10,
    }
}

fn record(
    provider: &str,
    name: &str,
    record_type: RecordType,
    values: &[&str],
) -> DnsRecordConfig {
    DnsRecordConfig {
        provider: provider.into(),
        name: name.into(),
        record_type,
        values: values.iter().map(|v| v.to_string()).collect(),
        ttl: 300,
        proxied: None,
        import: false,
        state: RecordState::Present,
    }
}

fn config(records: Vec<DnsRecordConfig>) -> DnsConfig {
    DnsConfig {
        enabled: true,
        allowed_zones: vec!["example.com".into(), "example.org".into()],
        providers: vec![
            provider("cf", DnsProviderType::Cloudflare, "example.com"),
            provider("r53", DnsProviderType::Route53, "example.org"),
        ],
        records,
        ..DnsConfig::default()
    }
}

#[test]
fn compiles_both_providers_in_one_process() {
    let compiled = compile(&config(vec![
        record(
            "cf",
            "WWW.example.com.",
            RecordType::A,
            &["192.0.2.1", "192.0.2.1"],
        ),
        record("r53", "api.example.org", RecordType::Aaaa, &["2001:db8::1"]),
    ]))
    .unwrap();
    assert_eq!(compiled.providers.len(), 2);
    assert_eq!(compiled.records[0].set.name, "www.example.com");
    assert_eq!(compiled.records[0].set.values.len(), 1);
}

#[test]
fn rejects_invalid_record_configurations() {
    let cases = vec![
        vec![record("cf", "www.other.net", RecordType::A, &["192.0.2.1"])],
        vec![record(
            "nope",
            "www.example.com",
            RecordType::A,
            &["192.0.2.1"],
        )],
        vec![record(
            "cf",
            "www.example.com",
            RecordType::A,
            &["not-an-ip"],
        )],
        vec![record("cf", "www.example.com", RecordType::A, &[])],
        vec![record(
            "cf",
            "x.example.com",
            RecordType::Cname,
            &["a.example.net", "b.example.net"],
        )],
        vec![record(
            "r53",
            "example.org",
            RecordType::Cname,
            &["a.example.net"],
        )],
        vec![
            record("cf", "x.example.com", RecordType::Cname, &["a.example.net"]),
            record("cf", "x.example.com", RecordType::Txt, &["hello"]),
        ],
        vec![
            record("cf", "www.example.com", RecordType::A, &["192.0.2.1"]),
            record("cf", "WWW.example.com", RecordType::A, &["192.0.2.2"]),
        ],
        vec![record(
            "cf",
            "_acme-challenge.example.com",
            RecordType::Txt,
            &["x"],
        )],
        vec![DnsRecordConfig {
            proxied: Some(true),
            ..record("r53", "www.example.org", RecordType::A, &["192.0.2.1"])
        }],
        vec![DnsRecordConfig {
            proxied: Some(true),
            ..record("cf", "www.example.com", RecordType::A, &["192.0.2.1"])
        }],
        vec![DnsRecordConfig {
            ttl: 30,
            ..record("cf", "www.example.com", RecordType::A, &["192.0.2.1"])
        }],
    ];
    for records in cases {
        let description = format!(
            "{:?}",
            records
                .iter()
                .map(|r| (&r.provider, &r.name, r.record_type))
                .collect::<Vec<_>>()
        );
        assert!(
            compile(&config(records)).is_err(),
            "should reject {description}"
        );
    }

    let mut outside = config(vec![]);
    outside.providers[0].zone = "example.net".into();
    assert!(
        compile(&outside).is_err(),
        "provider zone outside allowed zones"
    );

    let mut both_tokens = config(vec![]);
    both_tokens.providers[0].api_token_file = Some("/run/secrets/cf".into());
    assert!(compile(&both_tokens).is_err());

    let mut no_allowed = config(vec![]);
    no_allowed.allowed_zones.clear();
    assert!(compile(&no_allowed).is_err());
}

// --- Reconciling ------------------------------------------------------------

fn mem_record(values: &[&str], state: RecordState, import: bool) -> DnsRecordConfig {
    DnsRecordConfig {
        import,
        state,
        ..record("mem", "www.example.com", RecordType::A, values)
    }
}

struct Reconciler {
    records: Vec<DesiredRecord>,
    generations: SingleWriterGenerations,
}

fn reconciler(records: Vec<DnsRecordConfig>) -> Reconciler {
    let cfg = DnsConfig {
        enabled: true,
        allowed_zones: vec!["example.com".into()],
        providers: vec![DnsProviderConfig {
            zone_id: Some("z".into()),
            ..provider("mem", DnsProviderType::Cloudflare, "example.com")
        }],
        records,
        ..DnsConfig::default()
    };
    let compiled = compile(&cfg).unwrap();
    Reconciler {
        records: records_for(&compiled.records, "mem"),
        generations: SingleWriterGenerations::new(),
    }
}

impl Reconciler {
    fn work(
        &self,
        state: &mut ProviderState,
        provider: &mut MemoryProvider,
        desired: &DesiredRecord,
        generation: u64,
    ) -> RecordOutcome {
        let mut run = RecordRun::new("mem", desired.clone(), generation, 0);
        let mut event = RecordEvent::Begin;
        loop {
            event = match run.step(state, event, NOW) {
                RecordAction::AskSynced(ticket) => RecordEvent::Synced(
                    match Provider::Memory.change_synced(&ticket) {
                        Ok(None) => Ok(true),
                        Ok(Some(id)) => Ok(provider.change_synced(&id)),
                        Err(e) => Err(e),
                    },
                ),
                RecordAction::Read => RecordEvent::Observed(
                    provider.get(&desired.set.name, desired.set.record_type),
                ),
                RecordAction::Renew => RecordEvent::Renewed(still_writer(
                    WriterMode::SingleWriter,
                    &None,
                    generation,
                )),
                RecordAction::Save => RecordEvent::Saved(Ok(())),
                RecordAction::Replace { expected, target } => {
                    RecordEvent::Replaced(Some(provider.replace(
                        &desired.set.name,
                        desired.set.record_type,
                        expected.as_ref(),
                        target.as_ref(),
                    )))
                }
                RecordAction::Done(outcome) => return outcome,
            };
        }
    }

    fn reconcile_once(
        &mut self,
        state: &mut ProviderState,
        provider: &mut MemoryProvider,
        loaded: Result<(), String>,
    ) -> Vec<RecordOutcome> {
        let mut pass = ProviderPass::new("mem", self.records.len());
        let mut event = PassEvent::Loaded(loaded);
        loop {
            event = match pass.step(state, event) {
                PassAction::Acquire => {
                    PassEvent::Acquired(Ok(Some(self.generations.acquire("mem", state))))
                }
                PassAction::Work(i) => {
                    let desired = self.records[i].clone();
                    PassEvent::Worked(self.work(state, provider, &desired, pass.generation))
                }
                PassAction::Renew => PassEvent::Renewed(true),
                PassAction::Save => PassEvent::Saved(Ok(())),
                PassAction::Finish => return pass.outcomes,
            };
        }
    }
}

fn values(set: Option<RecordSet>) -> Vec<String> {
    set.map(|s| listed(&s.values)).unwrap_or_default()
}

#[test]
fn create_change_rerun_and_delete() {
    let mut state = ProviderState::default();
    let mut provider = MemoryProvider::new();

    let mut r = reconciler(vec![mem_record(&["192.0.2.1"], RecordState::Present, false)]);
    r.reconcile_once(&mut state, &mut provider, Ok(()));
    assert_eq!(
        values(provider.snapshot("www.example.com", RecordType::A)),
        ["192.0.2.1"]
    );

    // Re-running converges without writes.
    let writes = provider.writes();
    let outcomes = r.reconcile_once(&mut state, &mut provider, Ok(()));
    assert_eq!(provider.writes(), writes);
    assert_eq!(outcomes[0].action, Action::NoChange);

    let mut r = reconciler(vec![mem_record(&["192.0.2.2"], RecordState::Present, false)]);
    r.reconcile_once(&mut state, &mut provider, Ok(()));
    assert_eq!(
        values(provider.snapshot("www.example.com", RecordType::A)),
        ["192.0.2.2"]
    );
    let managed = state.records.get("www.example.com/A").unwrap();
    assert_eq!(
        values(managed.previous.clone()),
        ["192.0.2.1"],
        "previous value kept for rollback"
    );

    // Removing the record from the configuration does not delete it.
    let mut r = reconciler(vec![]);
    r.reconcile_once(&mut state, &mut provider, Ok(()));
    assert!(provider
        .snapshot("www.example.com", RecordType::A)
        .is_some());
    assert_eq!(no_longer_configured(&state, &vec![]), ["www.example.com/A"]);

    // Explicit deletion does.
    let mut r = reconciler(vec![mem_record(&[], RecordState::Absent, false)]);
    r.reconcile_once(&mut state, &mut provider, Ok(()));
    assert!(provider
        .snapshot("www.example.com", RecordType::A)
        .is_none());
    r.reconcile_once(&mut state, &mut provider, Ok(()));
    assert_eq!(state.records.len(), 0);
}

#[test]
fn unmanaged_and_externally_changed_records_are_left_alone() {
    let mut state = ProviderState::default();
    let mut provider = MemoryProvider::new();
    let foreign = RecordSet {
        proxied: Some(true),
        ..set(&["198.51.100.1"], 300)
    };
    provider.set_external(foreign.clone());

    let mut r = reconciler(vec![mem_record(&["192.0.2.1"], RecordState::Present, false)]);
    let outcomes = r.reconcile_once(&mut state, &mut provider, Ok(()));
    assert!(matches!(outcomes[0].action, Action::Conflict { .. }));
    assert_eq!(
        provider.snapshot("www.example.com", RecordType::A),
        Some(foreign.clone())
    );
    assert_eq!(provider.writes(), 0);

    // Explicit import takes it over and keeps the proxy setting.
    let mut r = reconciler(vec![mem_record(&["192.0.2.1"], RecordState::Present, true)]);
    r.reconcile_once(&mut state, &mut provider, Ok(()));
    let imported = provider.snapshot("www.example.com", RecordType::A).unwrap();
    assert_eq!(values(Some(imported.clone())), ["192.0.2.1"]);
    assert_eq!(imported.proxied, Some(true));

    // Someone edits it by hand: the reconciler stops and does not revert.
    let mut edited = imported.clone();
    edited.values = texts(&["203.0.113.5"]);
    provider.set_external(edited.clone());
    let outcomes = r.reconcile_once(&mut state, &mut provider, Ok(()));
    assert!(matches!(outcomes[0].action, Action::Conflict { .. }));
    assert_eq!(
        provider.snapshot("www.example.com", RecordType::A),
        Some(edited)
    );
    assert_eq!(count_status(&outcomes, false, "conflict"), 1);
}

#[test]
fn provider_failures_and_pending_changes_recover() {
    let mut state = ProviderState::default();
    let mut provider = MemoryProvider::with_tracked_changes();
    let mut r = reconciler(vec![mem_record(&["192.0.2.1"], RecordState::Present, false)]);

    provider.fail_next(DnsError::Timeout);
    let outcomes = r.reconcile_once(&mut state, &mut provider, Ok(()));
    assert!(outcomes[0].error.is_some());
    assert!(provider
        .snapshot("www.example.com", RecordType::A)
        .is_none());

    // Submitted but not yet in sync: wait, don't resubmit.
    r.reconcile_once(&mut state, &mut provider, Ok(()));
    assert_eq!(provider.writes(), 1);
    let outcomes = r.reconcile_once(&mut state, &mut provider, Ok(()));
    assert!(matches!(outcomes[0].action, Action::Wait { .. }));
    assert_eq!(provider.writes(), 1);

    // After a restart the pending change is still known and completes.
    provider.sync_all();
    let mut restarted = reconciler(vec![mem_record(&["192.0.2.1"], RecordState::Present, false)]);
    let outcomes = restarted.reconcile_once(&mut state, &mut provider, Ok(()));
    assert_eq!(outcomes[0].action, Action::NoChange);
    assert!(state.records.get("www.example.com/A").unwrap().pending.is_none());

    // Rate limiting stops the pass without marking records as conflicts.
    let mut r = reconciler(vec![mem_record(&["192.0.2.9"], RecordState::Present, false)]);
    provider.fail_next(DnsError::RateLimited {
        retry_after: Some(Duration::from_secs(5)),
    });
    let outcomes = r.reconcile_once(&mut state, &mut provider, Ok(()));
    assert!(outcomes[0]
        .error
        .as_deref()
        .is_some_and(|e| e.contains("rate limited")));
}

#[test]
fn corrupt_state_stops_changes() {
    let mut state = ProviderState::default();
    let mut provider = MemoryProvider::new();
    let mut r = reconciler(vec![mem_record(&["192.0.2.1"], RecordState::Present, false)]);
    let outcomes = r.reconcile_once(&mut state, &mut provider, Err("corrupt".into()));
    assert!(outcomes[0].error.is_some());
    assert_eq!(provider.writes(), 0);
}

#[test]
fn valkey_lease_allows_a_single_writer() {
    let mut state = ProviderState::default();
    let mut pass = ProviderPass::new("mem", 1);
    assert_eq!(pass.step(&mut state, PassEvent::Loaded(Ok(()))), PassAction::Acquire);
    // Another Edge holds the lease: nothing is done, nothing is reported.
    assert_eq!(
        pass.step(&mut state, PassEvent::Acquired(Ok(None))),
        PassAction::Finish
    );
    assert!(pass.outcomes.is_empty());
    assert!(still_writer(WriterMode::Valkey, &Some(Ok(Some(3))), 3));
    assert!(!still_writer(WriterMode::Valkey, &Some(Ok(Some(4))), 3));
    assert!(!still_writer(WriterMode::Valkey, &Some(Ok(None)), 3));
    assert_ne!(lease_resource("a"), lease_resource("b"));
}

#[test]
fn plans_are_made_without_writing() {
    let r = reconciler(vec![mem_record(&["192.0.2.1"], RecordState::Present, false)]);
    let state = ProviderState::default();
    let outcomes = plan("mem", &r.records, &vec![Ok(None)], Ok(&state), NOW, 0);
    assert_eq!(outcomes.len(), 1);
    assert!(matches!(outcomes[0].action, Action::Apply { .. }));
    assert_eq!(outcomes[0].status(true), "planned");
    let outcomes = plan("mem", &r.records, &vec![Err(DnsError::Timeout)], Ok(&state), NOW, 0);
    assert!(outcomes[0].error.is_some());
}

// --- What every provider does -----------------------------------------------

trait TestProvider {
    fn get(&mut self, name: &str, record_type: RecordType) -> Result<Option<Observed>, DnsError>;
    fn replace(
        &mut self,
        name: &str,
        record_type: RecordType,
        expected: Option<&RecordSet>,
        desired: Option<&RecordSet>,
    ) -> Result<ChangeTicket, DnsError>;
    fn settle(&mut self, ticket: ChangeTicket);
}

impl TestProvider for MemoryProvider {
    fn get(&mut self, name: &str, record_type: RecordType) -> Result<Option<Observed>, DnsError> {
        MemoryProvider::get(self, name, record_type)
    }

    fn replace(
        &mut self,
        name: &str,
        record_type: RecordType,
        expected: Option<&RecordSet>,
        desired: Option<&RecordSet>,
    ) -> Result<ChangeTicket, DnsError> {
        MemoryProvider::replace(self, name, record_type, expected, desired)
    }

    fn settle(&mut self, ticket: ChangeTicket) {
        if let ChangeTicket::Route53 { change_id } = ticket {
            assert!(!self.change_synced(&change_id));
            self.sync_all();
            assert!(self.change_synced(&change_id));
        }
    }
}

fn assert_current<P: TestProvider>(
    provider: &mut P,
    name: &str,
    record_type: RecordType,
    expected: Option<&RecordSet>,
) {
    let observed = provider.get(name, record_type).unwrap();
    match (observed, expected) {
        (None, None) => {}
        (Some(observed), Some(expected)) => {
            assert!(
                observed.set.same_data(expected),
                "provider has {:?}, expected {expected:?}",
                observed.set
            )
        }
        (observed, expected) => panic!("provider has {observed:?}, expected {expected:?}"),
    }
}

fn apply<P: TestProvider>(
    provider: &mut P,
    expected: Option<&RecordSet>,
    desired: Option<&RecordSet>,
) {
    let target = desired.or(expected).expect("a change needs a record");
    let ticket = provider
        .replace(&target.name, target.record_type, expected, desired)
        .unwrap();
    provider.settle(ticket);
}

fn assert_conflict(result: Result<ChangeTicket, DnsError>) {
    assert!(
        matches!(result, Err(DnsError::Conflict(_))),
        "expected conflict, got {result:?}"
    );
}

/// Behaviour every adapter must provide for the reconciler to be safe.
fn provider_contract<P: TestProvider>(provider: &mut P, zone: &str) {
    let name = format!("contract.{zone}");
    assert_current(provider, &name, RecordType::A, None);

    // Create with several values.
    let v1 = named_set(&name, RecordType::A, 300, &["192.0.2.1", "192.0.2.2"]);
    apply(provider, None, Some(&v1));
    assert_current(provider, &name, RecordType::A, Some(&v1));

    // Creating again is a conflict, not an overwrite.
    assert_conflict(provider.replace(&name, RecordType::A, None, Some(&v1)));

    // Update with overlapping values and a TTL change.
    let v2 = named_set(&name, RecordType::A, 600, &["192.0.2.2", "192.0.2.3"]);
    apply(provider, Some(&v1), Some(&v2));
    assert_current(provider, &name, RecordType::A, Some(&v2));

    // A stale expectation is rejected and nothing changes.
    assert_conflict(provider.replace(&name, RecordType::A, Some(&v1), Some(&v1)));
    assert_conflict(provider.replace(&name, RecordType::A, Some(&v1), None));
    assert_current(provider, &name, RecordType::A, Some(&v2));

    // TXT values with spaces and quotes survive a round trip.
    let txt = named_set(
        &name,
        RecordType::Txt,
        120,
        &["hello world", "v=spf1 -all", "quote\"inside"],
    );
    apply(provider, None, Some(&txt));
    assert_current(provider, &name, RecordType::Txt, Some(&txt));
    let txt_less = named_set(&name, RecordType::Txt, 120, &["hello world"]);
    apply(provider, Some(&txt), Some(&txt_less));
    assert_current(provider, &name, RecordType::Txt, Some(&txt_less));

    // CNAME targets can be changed.
    let alias = format!("alias.{zone}");
    let c1 = named_set(&alias, RecordType::Cname, 300, &["edge-a.example.net"]);
    let c2 = named_set(&alias, RecordType::Cname, 300, &["edge-b.example.net"]);
    apply(provider, None, Some(&c1));
    apply(provider, Some(&c1), Some(&c2));
    assert_current(provider, &alias, RecordType::Cname, Some(&c2));

    // IPv6 values are compared in canonical form.
    let v6 = named_set(&name, RecordType::Aaaa, 300, &["2001:db8::1"]);
    apply(provider, None, Some(&v6));
    assert_current(provider, &name, RecordType::Aaaa, Some(&v6));

    // Deletion.
    apply(provider, Some(&v2), None);
    apply(provider, Some(&txt_less), None);
    apply(provider, Some(&c2), None);
    apply(provider, Some(&v6), None);
    assert_current(provider, &name, RecordType::A, None);
    assert_current(provider, &alias, RecordType::Cname, None);
    assert_conflict(provider.replace(&name, RecordType::A, Some(&v2), None));
}

#[test]
fn memory_provider_contract() {
    provider_contract(&mut MemoryProvider::new(), "example.com");
    provider_contract(&mut MemoryProvider::with_tracked_changes(), "example.com");
}

const MOCK_ZONE_ID: &str = "zone123";

#[derive(Clone)]
struct MockRecord {
    id: String,
    record_type: String,
    name: String,
    content: String,
    ttl: u32,
    proxied: bool,
}

/// Records as the Cloudflare API keeps them, listed one per page.
#[derive(Default)]
struct CloudflareMock {
    records: Vec<MockRecord>,
    next_id: u64,
    listings: usize,
    fail_delete: Option<u16>,
}

fn failure(code: i64, message: &str) -> Result<Envelope, String> {
    Ok(Envelope {
        success: false,
        errors: vec![ApiMessage { code, message: message.to_string() }],
        result: None,
        total_pages: None,
    })
}

fn success(result: Option<Vec<CfRecord>>, total_pages: Option<u32>) -> Result<Envelope, String> {
    Ok(Envelope { success: true, errors: vec![], result, total_pages })
}

impl CloudflareMock {
    fn insert(&mut self, record_type: &str, name: &str, content: &str, ttl: u32, proxied: bool) {
        self.next_id += 1;
        self.records.push(MockRecord {
            id: format!("rec{}", self.next_id),
            record_type: record_type.to_string(),
            name: name.to_string(),
            content: content.to_string(),
            ttl,
            proxied,
        });
    }

    fn list(&mut self, name: &str, record_type: RecordType) -> Result<Vec<CfRecord>, DnsError> {
        let mut found = Vec::new();
        let mut page = 1;
        loop {
            let path = cloudflare::list_path(MOCK_ZONE_ID, name, record_type, page);
            assert_eq!(
                path,
                format!(
                    "/zones/zone123/dns_records?type={}&name={name}&per_page=100&page={page}",
                    record_type.as_str()
                )
            );
            self.listings += 1;
            let matching: Vec<&MockRecord> = self
                .records
                .iter()
                .filter(|r| r.name == name && r.record_type == record_type.as_str())
                .collect();
            let result = matching
                .get(page as usize - 1)
                .map(|r| {
                    vec![CfRecord {
                        id: r.id.clone(),
                        content: r.content.clone(),
                        ttl: r.ttl,
                        proxied: Some(r.proxied),
                    }]
                })
                .unwrap_or_default();
            let total = matching.len().max(1) as u32;
            let body = cloudflare::read_response(200, None, success(Some(result), Some(total)))?;
            match cloudflare::take_page(&mut found, page, body) {
                Some(next) => page = next,
                None => return Ok(found),
            }
        }
    }

    fn call(&mut self, call: ApiCall) -> Result<Envelope, DnsError> {
        let of_record = format!("/zones/{MOCK_ZONE_ID}/dns_records/");
        let (status, body) = match call {
            ApiCall::Delete { path } => {
                let id = path.strip_prefix(&of_record).unwrap();
                if let Some(status) = self.fail_delete.take() {
                    (status, failure(1, "injected"))
                } else if self.records.iter().any(|r| r.id == id) {
                    self.records.retain(|r| r.id != id);
                    (200, success(None, None))
                } else {
                    (404, failure(81044, "Record does not exist."))
                }
            }
            ApiCall::Patch { path, ttl, proxied } => {
                let id = path.strip_prefix(&of_record).unwrap();
                let record = self.records.iter_mut().find(|r| r.id == id).unwrap();
                record.ttl = ttl;
                if let Some(proxied) = proxied {
                    record.proxied = proxied;
                }
                (200, success(None, None))
            }
            ApiCall::Create { path, kind, name, content, ttl, proxied } => {
                assert_eq!(path, format!("/zones/{MOCK_ZONE_ID}/dns_records"));
                let taken = self
                    .records
                    .iter()
                    .any(|r| r.name == name && (r.record_type == "CNAME" || kind == "CNAME"));
                if taken {
                    (400, failure(81053, "A record with that host already exists."))
                } else {
                    self.insert(kind, &name, &content, ttl, proxied.unwrap_or(false));
                    (200, success(None, None))
                }
            }
        };
        cloudflare::read_response(status, None, body)
    }
}

impl TestProvider for CloudflareMock {
    fn get(&mut self, name: &str, record_type: RecordType) -> Result<Option<Observed>, DnsError> {
        let records = self.list(name, record_type)?;
        Ok(cloudflare::observed(name, record_type, &records))
    }

    fn replace(
        &mut self,
        name: &str,
        record_type: RecordType,
        expected: Option<&RecordSet>,
        desired: Option<&RecordSet>,
    ) -> Result<ChangeTicket, DnsError> {
        let records = self.list(name, record_type)?;
        let calls =
            cloudflare::replacement(MOCK_ZONE_ID, name, record_type, &records, expected, desired)?;
        for call in calls {
            self.call(call)?;
        }
        Ok(ChangeTicket::Immediate)
    }

    fn settle(&mut self, ticket: ChangeTicket) {
        assert_eq!(ticket, ChangeTicket::Immediate);
    }
}

#[test]
fn cloudflare_provider_contract() {
    let mut mock = CloudflareMock::default();
    provider_contract(&mut mock, "example.com");
    assert!(mock.listings > 20, "paginated listing expected");
}

#[test]
fn cloudflare_maps_errors_and_hides_the_token() {
    let error = cloudflare::read_response(429, Some(" 7 "), failure(1, "injected")).unwrap_err();
    assert_eq!(
        error,
        DnsError::RateLimited {
            retry_after: Some(Duration::from_secs(7))
        }
    );
    assert_eq!(
        cloudflare::read_response(502, None, failure(1, "injected")).unwrap_err(),
        DnsError::Provider("HTTP 502 Bad Gateway".into())
    );
    assert_eq!(
        cloudflare::read_response(403, None, failure(10000, "Authentication error")).unwrap_err(),
        DnsError::Auth("Authentication error (10000)".into())
    );
    assert_eq!(
        cloudflare::read_response(401, None, Err("no JSON".into())).unwrap_err(),
        DnsError::Auth("401 Unauthorized".into())
    );
    assert_eq!(
        cloudflare::read_response(200, None, Err("no JSON".into())).unwrap_err(),
        DnsError::Provider("unexpected response (HTTP 200 OK): no JSON".into())
    );
    assert_eq!(
        cloudflare::read_response(400, None, failure(81058, "exists")).unwrap_err(),
        DnsError::Conflict("exists (81058)".into())
    );
    assert_eq!(
        cloudflare::read_response(400, None, failure(-3, "odd")).unwrap_err(),
        DnsError::Provider("odd (-3)".into())
    );

    assert_eq!(Secret::new("t".into()).bearer(), "Bearer t");
    let file = TokenSource::File { path: "/t".into(), content: Ok(" token\n".into()) };
    assert_eq!(cloudflare::load_token(file).ok().unwrap().bearer(), "Bearer token");
    for (source, expected) in [
        (
            TokenSource::Variable { name: "CF".into(), value: None },
            "environment variable CF is not set",
        ),
        (
            TokenSource::File { path: "/t".into(), content: Err("gone".into()) },
            "cannot read token file /t: gone",
        ),
        (
            TokenSource::Variable { name: "CF".into(), value: Some("  ".into()) },
            "API token is empty",
        ),
        (TokenSource::Unconfigured, "no API token source configured"),
    ] {
        assert_eq!(cloudflare::load_token(source).err().unwrap(), expected);
    }
    assert_eq!(
        cloudflare::api_base(Some("http://localhost:1/client/v4//")),
        "http://localhost:1/client/v4"
    );
    assert_eq!(
        cloudflare::api_base(None),
        "https://api.cloudflare.com/client/v4"
    );
}

#[test]
fn cloudflare_keeps_proxy_setting_and_recovers_from_partial_update() {
    let mut mock = CloudflareMock::default();
    let name = "www.example.com";

    mock.insert("A", name, "192.0.2.1", 1, true);
    mock.insert("A", name, "192.0.2.2", 1, true);
    let current = mock.get(name, RecordType::A).unwrap().unwrap().set;
    assert_eq!(current.proxied, Some(true));

    // Desired state without a proxy preference: the proxy flag is kept.
    let desired = named_set(name, RecordType::A, 1, &["192.0.2.2", "192.0.2.3"]);
    mock.fail_delete = Some(500);
    let err = mock
        .replace(name, RecordType::A, Some(&current), Some(&desired))
        .unwrap_err();
    assert!(matches!(err, DnsError::Provider(_)));

    // The new value was added but the old one not removed; resuming from the
    // observed intermediate state completes the change.
    let partial = mock.get(name, RecordType::A).unwrap().unwrap().set;
    assert_eq!(partial.values.len(), 3);
    mock.replace(name, RecordType::A, Some(&partial), Some(&desired))
        .unwrap();
    let done = mock.get(name, RecordType::A).unwrap().unwrap().set;
    assert!(done.same_data(&desired));
    assert_eq!(done.proxied, Some(true));

    // Records with inconsistent settings are reported as unsupported.
    mock.insert("A", "mixed.example.com", "192.0.2.1", 300, false);
    mock.insert("A", "mixed.example.com", "192.0.2.2", 600, false);
    let mixed = mock.get("mixed.example.com", RecordType::A).unwrap().unwrap();
    assert_eq!(mixed.unsupported.as_deref(), Some("records with different TTLs"));
}

#[derive(Clone)]
struct MockSet {
    ttl: i64,
    values: Vec<String>,
    set_identifier: Option<String>,
    alias: bool,
}

/// Record sets as the Route 53 API keeps them, listed one per page.
#[derive(Default)]
struct Route53Mock {
    sets: BTreeMap<(String, String), Vec<MockSet>>,
}

impl Route53Mock {
    fn insert(&mut self, name: &str, kind: &str, set: MockSet) {
        self.sets
            .entry((name.to_string(), kind.to_string()))
            .or_default()
            .push(set);
    }

    fn list(&self, name: &str, record_type: RecordType) -> Vec<ListedSet> {
        let start = (fqdn(name), record_type.as_str().to_string());
        let all: Vec<(&(String, String), &MockSet)> = self
            .sets
            .range(start..)
            .flat_map(|(key, sets)| sets.iter().map(move |s| (key, s)))
            .collect();
        let mut found = Vec::new();
        let mut at = 0;
        loop {
            let next = all.get(at + 1);
            let page = ListedPage {
                sets: all
                    .get(at)
                    .map(|(key, s)| ListedSet {
                        name: key.0.clone(),
                        kind: key.1.clone(),
                        ttl: Some(s.ttl),
                        values: s.values.clone(),
                        has_identifier: s.set_identifier.is_some(),
                        is_alias: s.alias,
                    })
                    .into_iter()
                    .collect(),
                truncated: next.is_some(),
                next_name: next.map(|(key, _)| key.0.clone()),
                next_kind: next.map(|(key, _)| key.1.clone()),
                next_identifier: next.and_then(|(_, s)| s.set_identifier.clone()),
            };
            match route53::take_page(&mut found, page, name, record_type) {
                Some(_) => at += 1,
                None => return found,
            }
        }
    }
}

impl TestProvider for Route53Mock {
    fn get(&mut self, name: &str, record_type: RecordType) -> Result<Option<Observed>, DnsError> {
        Ok(route53::observed(name, record_type, &self.list(name, record_type)))
    }

    fn replace(
        &mut self,
        name: &str,
        record_type: RecordType,
        expected: Option<&RecordSet>,
        desired: Option<&RecordSet>,
    ) -> Result<ChangeTicket, DnsError> {
        let current = route53::observed(name, record_type, &self.list(name, record_type));
        match route53::replacement(current.as_ref(), expected, desired)? {
            Replacement::Nothing => Ok(ChangeTicket::Immediate),
            Replacement::Batch { delete, create } => {
                if delete {
                    self.sets.remove(&(fqdn(name), record_type.as_str().to_string()));
                }
                if let Some(built) = create {
                    self.insert(
                        &built.name,
                        built.kind,
                        MockSet {
                            ttl: built.ttl,
                            values: built.values,
                            set_identifier: None,
                            alias: false,
                        },
                    );
                }
                Ok(ChangeTicket::Route53 {
                    change_id: route53::change_id("/change/C1"),
                })
            }
        }
    }

    fn settle(&mut self, ticket: ChangeTicket) {
        assert_eq!(
            Provider::Route53.change_synced(&ticket),
            Ok(Some("C1".to_string()))
        );
        assert!(Provider::Cloudflare.change_synced(&ticket).is_err());
    }
}

#[test]
fn names_are_encoded_and_decoded() {
    assert_eq!(fqdn("*.example.org"), "\\052.example.org.");
    assert_eq!(decode_name("\\052.Example.org."), "*.example.org");
    assert_eq!(normalize_zone_id("/hostedzone/Z123"), "Z123");
    // What is no octal escape stays as it is.
    assert_eq!(decode_name("a\\09b.org"), "a\\09b.org");
    assert_eq!(decode_name("\\777.org"), "\\777.org");
}

#[test]
fn route53_provider_contract() {
    provider_contract(&mut Route53Mock::default(), "example.org");
}

#[test]
fn route53_reports_unsupported_sets_and_maps_errors() {
    let mut mock = Route53Mock::default();
    mock.insert(
        "lb.example.org.",
        "A",
        MockSet {
            ttl: 0,
            values: vec![],
            set_identifier: None,
            alias: true,
        },
    );
    let alias = mock.get("lb.example.org", RecordType::A).unwrap().unwrap();
    assert!(alias.unsupported.unwrap().contains("alias"));

    for color in ["blue", "green"] {
        mock.insert(
            "w.example.org.",
            "A",
            MockSet {
                ttl: 60,
                values: vec!["192.0.2.1".into()],
                set_identifier: Some(color.into()),
                alias: false,
            },
        );
    }
    assert_eq!(mock.list("w.example.org", RecordType::A).len(), 2);
    let weighted = mock.get("w.example.org", RecordType::A).unwrap().unwrap();
    assert!(weighted.unsupported.is_some());

    // Values stored in another textual form are still matched and deleted exactly.
    mock.insert(
        "v6.example.org.",
        "AAAA",
        MockSet {
            ttl: 300,
            values: vec!["2001:0DB8:0:0:0:0:0:1".into()],
            set_identifier: None,
            alias: false,
        },
    );
    let current = mock
        .get("v6.example.org", RecordType::Aaaa)
        .unwrap()
        .unwrap()
        .set;
    assert_eq!(current.values.item(0), "2001:db8::1");
    mock.replace("v6.example.org", RecordType::Aaaa, Some(&current), None)
        .unwrap();
    assert!(mock
        .get("v6.example.org", RecordType::Aaaa)
        .unwrap()
        .is_none());

    assert!(matches!(
        route53::service_error("PriorRequestNotComplete", "wait"),
        DnsError::RateLimited { .. }
    ));
    assert_eq!(
        route53::service_error("AccessDenied", "no"),
        DnsError::Auth("AccessDenied: no".into())
    );
    assert_eq!(
        route53::service_error("InvalidChangeBatch", "changed"),
        DnsError::Conflict("changed".into())
    );
    assert_eq!(
        route53::service_error("NoSuchHostedZone", "gone"),
        DnsError::Provider("NoSuchHostedZone: gone".into())
    );
    assert_eq!(route53::client_error(true, "x"), DnsError::Timeout);
    assert_eq!(
        route53::client_error(false, "no credentials found"),
        DnsError::Auth("no credentials found".into())
    );
    assert_eq!(
        route53::client_error(false, "refused"),
        DnsError::Provider("refused".into())
    );
}

// --- TXT challenges ---------------------------------------------------------

fn settings() -> TxtSettings {
    TxtSettings {
        ttl: 60,
        propagation_timeout: Duration::from_secs(5),
        poll_interval: Duration::from_millis(20),
    }
}

fn solver() -> TxtChallengeSolver {
    TxtChallengeSolver {
        zones: vec!["example.com".to_string()],
        allowed_zones: vec!["example.com".to_string()],
        settings: settings(),
    }
}

fn drive<P: TestProvider>(
    provider: &mut P,
    change: TxtChange,
    handle: &TxtHandle,
) -> Result<(), String> {
    let mut run = TxtRun::new(change, handle.clone(), 60);
    let mut event = TxtEvent::Start;
    loop {
        event = match run.step(event) {
            TxtAction::Get => TxtEvent::Observed(provider.get(&handle.name, RecordType::Txt)),
            TxtAction::Replace { expected, desired } => TxtEvent::Replaced(provider.replace(
                &handle.name,
                RecordType::Txt,
                expected.as_ref(),
                desired.as_ref(),
            )),
            TxtAction::WaitSynced(ticket) => {
                provider.settle(ticket);
                TxtEvent::Synced(Ok(()))
            }
            TxtAction::Sleep(_) => TxtEvent::Slept,
            TxtAction::Done => return Ok(()),
            TxtAction::Fail(e) => return Err(e),
        };
    }
}

fn txt_values<P: TestProvider>(provider: &mut P, name: &str) -> Vec<String> {
    provider
        .get(name, RecordType::Txt)
        .unwrap()
        .map(|o| listed(&o.set.values))
        .unwrap_or_default()
}

#[test]
fn concurrent_values_and_operator_values_are_kept() {
    let mut memory = MemoryProvider::with_tracked_changes();
    memory.set_external(named_set(
        "_acme-challenge.example.com",
        RecordType::Txt,
        300,
        &["operator-value"],
    ));
    let solver = solver();

    // Wildcard and base name orders validate at the same time.
    let (wildcard, _) = solver.start_add("example.com", "wildcard-token", None).unwrap();
    let (base, _) = solver.start_add("example.com", "base-token", None).unwrap();
    drive(&mut memory, TxtChange::Add, &wildcard).unwrap();
    drive(&mut memory, TxtChange::Add, &base).unwrap();
    assert_eq!(txt_values(&mut memory, "_acme-challenge.example.com").len(), 3);

    drive(&mut memory, TxtChange::Remove, &wildcard).unwrap();
    assert_eq!(
        txt_values(&mut memory, "_acme-challenge.example.com"),
        ["base-token", "operator-value"]
    );
    drive(&mut memory, TxtChange::Remove, &base).unwrap();
    assert_eq!(
        txt_values(&mut memory, "_acme-challenge.example.com"),
        ["operator-value"]
    );
    // Removing again is a no-op.
    drive(&mut memory, TxtChange::Remove, &base).unwrap();
}

#[test]
fn journal_cleans_up_after_restart() {
    let mut memory = MemoryProvider::new();
    let mut journal = Vec::new();
    let (handle, _) = solver().start_add("example.com", "left-behind", None).unwrap();
    journal_add(&mut journal, &handle);
    drive(&mut memory, TxtChange::Add, &handle).unwrap();

    assert_eq!(
        txt_values(&mut memory, "_acme-challenge.example.com"),
        ["left-behind"]
    );
    let left: Vec<TxtHandle> = journal.clone();
    for handle in &left {
        drive(&mut memory, TxtChange::Remove, handle).unwrap();
        journal = journal_remove(journal, handle);
    }
    assert!(txt_values(&mut memory, "_acme-challenge.example.com").is_empty());
    assert!(journal.is_empty());
}

#[test]
fn journal_holds_an_entry_once() {
    let (handle, _) = solver().start_add("example.com", "v", None).unwrap();
    let mut journal = Vec::new();
    journal_add(&mut journal, &handle);
    journal_add(&mut journal, &handle);
    assert_eq!(journal.len(), 1);
    let other = TxtHandle { value: "w".into(), ..handle.clone() };
    journal_add(&mut journal, &other);
    assert_eq!(journal_remove(journal, &handle), vec![other]);
}

#[test]
fn works_through_the_cloudflare_adapter() {
    let mut mock = CloudflareMock::default();
    let (handle, provider) = solver().start_add("www.example.com", "cf-token", None).unwrap();
    assert_eq!(provider, 0);
    assert_eq!(handle.name, "_acme-challenge.www.example.com");
    drive(&mut mock, TxtChange::Add, &handle).unwrap();
    assert_eq!(txt_values(&mut mock, &handle.name), ["cf-token"]);
    drive(&mut mock, TxtChange::Remove, &handle).unwrap();
    assert!(txt_values(&mut mock, "_acme-challenge.www.example.com").is_empty());
}

#[test]
fn journal_entries_carry_their_domain() {
    let (handle, _) = solver().start_add("www.example.com", "token", None).unwrap();
    assert_eq!(handle.domain(), Some("www.example.com"));

    // A journal written before the field existed still resolves a domain.
    let legacy = TxtHandle {
        zone: "example.com".into(),
        name: "_acme-challenge.example.com".into(),
        value: "v".into(),
        domain: String::new(),
    };
    assert_eq!(legacy.domain(), Some("example.com"));
}

#[test]
fn names_outside_provider_zones_are_rejected() {
    let solver = solver();
    assert_eq!(
        solver.start_add("example.net", "x", None).unwrap_err(),
        "no DNS provider zone covers _acme-challenge.example.net"
    );
    assert!(delegation_allowed(
        "_acme-challenge.example.com",
        &vec!["example.com".to_string()]
    ));
    assert!(!delegation_allowed(
        "evil.example.net",
        &vec!["example.com".to_string()]
    ));
    assert_eq!(
        solver.start_add("a.example.com", "x", Some("evil.example.net.")).unwrap_err(),
        "_acme-challenge.a.example.com is delegated to evil.example.net, which is outside dns.allowed_zones"
    );
    let (delegated, _) = solver
        .start_add("a.example.com", "x", Some("Other.Example.com."))
        .unwrap();
    assert_eq!(delegated.name, "other.example.com");
    assert!(solver
        .start_add("a.example.com", "x", Some("bad name"))
        .unwrap_err()
        .starts_with("invalid CNAME target for _acme-challenge.a.example.com: "));
    assert_eq!(
        solver.zone_provider("example.org").unwrap_err(),
        "no DNS provider for zone example.org"
    );
}

#[test]
fn the_most_specific_zone_is_chosen() {
    let solver = TxtChallengeSolver {
        zones: vec!["example.com".into(), "sub.example.com".into(), "example.org".into()],
        ..solver()
    };
    assert_eq!(solver.provider_for("a.sub.example.com"), Some(1));
    assert_eq!(solver.provider_for("b.example.com"), Some(0));
    assert_eq!(solver.provider_for("example.net"), None);
    assert_eq!(solver.zone_provider("example.org"), Ok(2));
}

#[test]
fn propagation_timeout_fails_the_wait() {
    let (handle, _) = solver().start_add("example.com", "never", None).unwrap();
    assert!(matches!(
        wait_propagated(&handle, &settings(), 0, 100, false),
        WaitAction::Sleep(20)
    ));
    assert!(matches!(
        wait_propagated(&handle, &settings(), 0, 100, true),
        WaitAction::Done
    ));
    match wait_propagated(&handle, &settings(), 100, 100, false) {
        WaitAction::Fail(e) => assert_eq!(
            e,
            "TXT record _acme-challenge.example.com was not visible within 5s"
        ),
        other => panic!("{other:?}"),
    }
    let answers = vec![vec![b"ne".to_vec(), b"ver".to_vec()]];
    assert!(visible(&answers, &handle));
    assert!(!visible(&vec![vec![b"nev\xff".to_vec()]], &handle));
}

#[test]
fn busy_record_sets_are_retried_a_few_times() {
    let (handle, _) = solver().start_add("example.com", "v", None).unwrap();
    let mut memory = MemoryProvider::new();
    let mut run = TxtRun::new(TxtChange::Add, handle.clone(), 60);
    let mut event = TxtEvent::Start;
    let mut sleeps = Vec::new();
    let error = loop {
        event = match run.step(event) {
            TxtAction::Get => TxtEvent::Observed(memory.get(&handle.name, RecordType::Txt)),
            TxtAction::Replace { .. } => {
                TxtEvent::Replaced(Err(DnsError::Conflict("changed".into())))
            }
            TxtAction::Sleep(d) => {
                sleeps.push(d);
                TxtEvent::Slept
            }
            TxtAction::Fail(e) => break e,
            other => panic!("{other:?}"),
        };
    };
    assert_eq!(
        error,
        "could not add TXT value to _acme-challenge.example.com: too many concurrent changes"
    );
    assert_eq!(sleeps.len(), 6);
    assert_eq!(sleeps[2], Duration::from_millis(300));
    let mut wait = SyncWait::new(1000);
    assert!(matches!(wait.step(0, Ok(false)), WaitAction::Sleep(200)));
    assert!(matches!(wait.step(200, Ok(false)), WaitAction::Sleep(400)));
    assert!(matches!(wait.step(1000, Ok(false)), WaitAction::Fail(_)));
    assert!(matches!(wait.step(1000, Ok(true)), WaitAction::Done));
}

#[test]
fn a_change_is_reported_only_by_the_confirmed_writer() {
    let mut guard = ReplaceGuard::new();
    assert!(matches!(guard.step(GuardEvent::Begin), GuardAction::Renew));
    assert!(matches!(guard.step(GuardEvent::Renewed(true)), GuardAction::Await));
    assert!(matches!(guard.step(GuardEvent::TimePassed), GuardAction::Renew));
    assert!(matches!(guard.step(GuardEvent::Renewed(true)), GuardAction::Await));
    assert!(matches!(
        guard.step(GuardEvent::Replaced(Ok(ChangeTicket::Immediate))),
        GuardAction::Renew
    ));
    assert!(matches!(
        guard.step(GuardEvent::Renewed(true)),
        GuardAction::Finish(Some(Ok(ChangeTicket::Immediate)))
    ));

    let mut guard = ReplaceGuard::new();
    guard.step(GuardEvent::Begin);
    guard.step(GuardEvent::Renewed(true));
    guard.step(GuardEvent::Replaced(Ok(ChangeTicket::Immediate)));
    assert!(matches!(guard.step(GuardEvent::Renewed(false)), GuardAction::Finish(None)));

    assert_eq!(renew_every(Duration::from_secs(30)), Duration::from_secs(10));
    assert_eq!(renew_every(Duration::from_millis(1)), Duration::from_millis(1));
}

#[test]
fn changes_and_records_are_counted_by_status() {
    assert_eq!(change_label(&Ok(ChangeTicket::Immediate)), "success");
    let submitted = ChangeTicket::Route53 { change_id: "C1".to_string() };
    assert_eq!(change_label(&Ok(submitted)), "submitted");
    assert_eq!(change_label(&Err(DnsError::Conflict("changed".to_string()))), "conflict");
    assert_eq!(change_label(&Err(DnsError::Timeout)), "timeout");

    let outcome = |action: Action, error: Option<&str>| RecordOutcome {
        provider: "p".to_string(),
        key: "a.example.com/A".to_string(),
        action,
        error: error.map(str::to_string),
    };
    let mut outcomes = vec![
        outcome(Action::NoChange, None),
        outcome(Action::NoChange, None),
        outcome(Action::Forget, None),
        outcome(Action::NoChange, Some("failed")),
    ];
    let expected = [
        ("in_sync", 2),
        ("change", 0),
        ("adopt", 0),
        ("forget", 1),
        ("pending", 0),
        ("conflict", 0),
        ("error", 1),
        ("planned", 0),
    ];
    assert_eq!(status_counts(&outcomes, false), expected);
    assert_eq!(status_counts(&outcomes, true)[7], ("planned", 1));
    assert!(all_reached(&outcomes));
    outcomes.push(provider_error("p", "unavailable".to_string()));
    assert!(!all_reached(&outcomes));
    assert_eq!(status_counts(&outcomes, false), expected);
}
