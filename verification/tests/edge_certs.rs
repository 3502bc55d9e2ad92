use rcgen::{CertificateParams, KeyPair};
use sievetube::edge::acme::{
    challenge_prefix, directory_label, random_unit, renewal_due_at, retry_delay, sleep_secs,
    storing_generation, AcmeManager, Coordination, DomainState, Http01Challenges, SystemClock,
    WallClock,
};
use sievetube::edge::acme_order::{
    distribution, finalize_request, removable, silent_edges, sync_http01_challenges,
    Authorization, AuthorizationStatus, AuthorizedName, Distribution, Finalization, OrderAction,
    OrderEvent, OrderRun, OrderStatus, PublishedResponse,
};
use sievetube::edge::certificate_store::{
    load_order, now_unix, parse_and_validate, CertEntry, CertSource, CertStore, StoredGeneration,
};
use sievetube::edge::config::AcmeChallenge;
use sievetube::edge::mesh::certs::{
    edge_ids_from_cert, edge_request_at, generate_ca, issue_edge_cert, server_name,
    validate_edge_id, MeshIdentity, LAST_TIME,
};
use sievetube::edge::metrics::update_certificates;
use sievetube::text_map::TextMap;
use sievetube::text_set::TextSet;
use sievetube::time::Duration;
use x509_parser::certification_request::X509CertificationRequest;
use x509_parser::extensions::ParsedExtension;
use x509_parser::prelude::FromDer;

const NOW: i64 = 1_800_000_000;

/// Self-signed certificate valid from `not_before` to `not_after` (unix seconds).
fn generate(names: &[&str], not_before: i64, not_after: i64) -> (String, String) {
    let key = KeyPair::generate().unwrap();
    let mut params =
        CertificateParams::new(names.iter().map(|n| n.to_string()).collect::<Vec<_>>()).unwrap();
    params.not_before =
        rcgen::date_time_ymd(1970, 1, 1) + std::time::Duration::from_secs(not_before as u64);
    params.not_after =
        rcgen::date_time_ymd(1970, 1, 1) + std::time::Duration::from_secs(not_after as u64);
    let cert = params.self_signed(&key).unwrap();
    (cert.pem(), key.serialize_pem())
}

fn texts(values: &[&str]) -> TextSet {
    TextSet::from_vec(values.iter().map(|v| v.to_string()).collect())
}

fn entry(not_before: i64, not_after: i64) -> CertEntry {
    let (cert, key) = generate(&["a.test"], not_before, not_after);
    parse_and_validate(
        cert.as_bytes(),
        key.as_bytes(),
        "a.test",
        CertSource::Acme,
        not_before + 1,
    )
    .ok()
    .unwrap()
}

#[test]
fn challenge_paths_are_served_while_a_peer_publishes_a_response() {
    let mut challenges = Http01Challenges::new(texts(&["a.test"]), 2);
    assert!(challenges.serves("a.test"), "own managed domain");
    assert!(!challenges.serves("b.test"));

    // A peer validating b.test publishes its response to every Edge.
    challenges.insert("b.test", "token", "key-authorization");
    assert!(challenges.serves("b.test"));
    challenges.remove("b.test", "token");
    assert!(
        !challenges.serves("b.test"),
        "without a response the path belongs to the tenant again"
    );
}

#[test]
fn renewal_is_scheduled_by_lifetime_fraction() {
    // 90-day certificate renews with 30 days left.
    let e = entry(NOW, NOW + 90 * 86400);
    assert_eq!(renewal_due_at(&e, 333_333_333), NOW + 60 * 86400);
    // 6-day certificate renews with 2 days left.
    let e = entry(NOW, NOW + 6 * 86400);
    assert_eq!(renewal_due_at(&e, 333_333_333), NOW + 4 * 86400);
}

#[test]
fn retry_delay_grows_and_is_capped() {
    let initial = Duration::from_secs(60);
    let max = Duration::from_secs(3600);
    assert_eq!(retry_delay(1, initial, max, 500_000), Duration::from_secs(60));
    assert_eq!(retry_delay(3, initial, max, 500_000), Duration::from_secs(240));
    assert_eq!(retry_delay(30, initial, max, 500_000), max);
    assert!(retry_delay(1, initial, max, 0) >= Duration::from_secs(48));
    assert!(retry_delay(1, initial, max, 1_000_000) <= Duration::from_secs(72));
    assert!(random_unit() <= 1_000_000);
}

#[test]
fn challenge_tokens_are_validated() {
    assert_eq!(challenge_prefix(), "/.well-known/acme-challenge/");
    assert_eq!(
        Http01Challenges::token_from_path("/.well-known/acme-challenge/abc_DEF-123").as_deref(),
        Some("abc_DEF-123")
    );
    assert_eq!(
        Http01Challenges::token_from_path("/.well-known/acme-challenge/"),
        None
    );
    assert_eq!(
        Http01Challenges::token_from_path("/.well-known/acme-challenge/../etc"),
        None
    );
    assert_eq!(
        Http01Challenges::token_from_path("/.well-known/acme-challenge/a/b"),
        None
    );
    assert_eq!(Http01Challenges::token_from_path("/other"), None);

    let mut challenges = Http01Challenges::new(texts(&["a.test"]), 1);
    challenges.insert("a.test", "tok", "tok.thumb");
    assert_eq!(
        challenges.lookup("a.test", "tok").as_deref(),
        Some("tok.thumb")
    );
    assert!(challenges.lookup("b.test", "tok").is_none());
    let permit = challenges.try_acquire();
    assert!(permit.is_some());
    assert!(challenges.try_acquire().is_none());
    drop(permit);
    assert!(challenges.try_acquire().is_some());
}

#[test]
fn directory_labels_differ_per_ca() {
    let staging = directory_label("https://acme-staging-v02.api.letsencrypt.org/directory");
    let production = directory_label("https://acme-v02.api.letsencrypt.org/directory");
    assert!(staging.starts_with("acme-staging-v02.api.letsencrypt.org-"));
    assert_ne!(staging, production);
}

fn manager() -> AcmeManager {
    AcmeManager {
        domains: vec!["a.test".to_string()],
        renew_before_billionths: 500_000_000,
        retry_initial_secs: 60,
        retry_max_secs: 3600,
        coordination: Coordination::Local,
        installed: TextMap::new(),
        state: TextMap::new(),
    }
}

#[test]
fn scheduling_uses_stored_certificate_and_persisted_backoff() {
    let mut manager = manager();

    // No certificate: due immediately.
    assert_eq!(manager.due_at("a.test", NOW), NOW);
    assert_eq!(manager.readiness_issues(NOW).len(), 1);

    // A stored certificate (e.g. from before a restart) is installed and not re-ordered.
    manager.install(entry(NOW - 100, NOW + 900));
    assert!(manager.readiness_issues(NOW).is_empty());
    assert_eq!(manager.due_at("a.test", NOW), NOW + 400);

    // A failed attempt (unreachable CA) backs off and the backoff survives a restart.
    manager.order_failed("a.test", NOW + 400, 0);
    let next = manager.due_at("a.test", NOW + 400);
    assert!(next >= NOW + 400 + 48, "retry was not delayed: {next}");
    assert!(!manager.may_order("a.test", NOW + 400, true));
    assert!(manager.may_order("a.test", next, true));

    let mut restarted = self::manager();
    let state: DomainState = *manager.state.get("a.test").unwrap();
    assert_eq!(state.failures, 1);
    restarted.state.insert("a.test".into(), state);
    restarted.install(entry(NOW - 100, NOW + 900));
    assert_eq!(restarted.due_at("a.test", NOW + 400), next);

    // A delay beyond the last time that can be named ends there.
    let mut patient = self::manager();
    patient.retry_initial_secs = u64::MAX;
    patient.retry_max_secs = u64::MAX;
    patient.order_failed("a.test", NOW, 1_000_000);
    assert_eq!(patient.state.get("a.test").unwrap().next_attempt, i64::MAX);
    patient.order_failed("b.test", i64::MIN, 0);
    let wait = i128::from(u64::MAX) * 4 / 5;
    assert_eq!(
        i128::from(patient.state.get("b.test").unwrap().next_attempt),
        i128::from(i64::MIN) + wait
    );

    // A success forgets the failures.
    restarted.order_succeeded("a.test", entry(NOW, NOW + 1000));
    assert_eq!(restarted.due_at("a.test", NOW), NOW + 500);
    assert_eq!(sleep_secs(NOW + 10_000, NOW), 300);
    assert_eq!(sleep_secs(NOW, NOW), 1);
}

#[test]
fn certificates_written_by_another_edge_are_installed_from_shared_storage() {
    let store = CertStore::open("/state");
    let mut pointer: Result<Option<String>, String> = Ok(None);
    let mut reader = manager();
    let (c1, k1) = generate(&["a.test"], NOW - 10, NOW + 1000);
    assert!(reader.needs_refresh("a.test", Some(1)));
    let first = store
        .store("a.test", 1, c1.as_bytes(), k1.as_bytes(), NOW, &mut pointer, false)
        .ok()
        .unwrap();
    reader.install(first);
    assert_eq!(reader.installed.get("a.test").unwrap().generation, Some(1));
    assert!(!reader.needs_refresh("a.test", Some(1)));

    let (c2, k2) = generate(&["a.test"], NOW - 10, NOW + 2000);
    let second = store
        .store("a.test", 7, c2.as_bytes(), k2.as_bytes(), NOW, &mut pointer, false)
        .ok()
        .unwrap();
    assert!(reader.needs_refresh("a.test", Some(7)));
    reader.install(second);
    assert_eq!(reader.installed.get("a.test").unwrap().generation, Some(7));
    // A stale lease holder cannot roll back.
    assert!(store
        .store("a.test", 5, c1.as_bytes(), k1.as_bytes(), NOW, &mut pointer, false)
        .is_err());
    assert_eq!(pointer, Ok(Some("7".to_string())));
    assert!(storing_generation(Some(5), Coordination::Valkey, false, 8).is_err());
    assert_eq!(storing_generation(Some(5), Coordination::Valkey, true, 8), Ok(5));
    assert_eq!(storing_generation(None, Coordination::Local, false, 8), Ok(8));
}

#[test]
fn http01_responses_are_confirmed_by_the_edges_that_serve_them() {
    let live = texts(&["edge-a", "edge-b"]);
    assert_eq!(silent_edges(&live, &texts(&["edge-a"])), ["edge-b"]);
    assert!(matches!(
        distribution(&live, &live, &texts(&["edge-a"]), false),
        Distribution::Wait
    ));
    assert!(matches!(
        distribution(&live, &live, &live, false),
        Distribution::Confirmed
    ));
    assert!(matches!(
        distribution(&live, &live, &texts(&["edge-a"]), true),
        Distribution::Fail(_)
    ));

    let mut challenges = Http01Challenges::new(texts(&["a.test"]), 2);
    let mut synced = Vec::new();
    let pending = vec![PublishedResponse {
        hostname: "b.test".into(),
        token: "tok".into(),
        key_authorization: "tok.thumb".into(),
    }];
    sync_http01_challenges(&mut challenges, &pending, &mut synced);
    assert_eq!(challenges.lookup("b.test", "tok").as_deref(), Some("tok.thumb"));
    sync_http01_challenges(&mut challenges, &vec![], &mut synced);
    assert!(challenges.lookup("b.test", "tok").is_none());
}

#[test]
fn orders_are_completed_step_by_step() {
    let mut run = OrderRun::new(AcmeChallenge::Http01, Coordination::Local, false);
    let authorization = Authorization {
        status: AuthorizationStatus::Pending,
        name: AuthorizedName::Dns("a.test".into()),
        http01: Some(("tok".into(), "tok.thumb".into())),
        dns01: None,
    };
    match run.step(OrderEvent::Authorization(Ok(Some(authorization)))) {
        OrderAction::PublishHttp01 { token, key_authorization, distribute } => {
            assert_eq!((token.as_str(), key_authorization.as_str()), ("tok", "tok.thumb"));
            assert!(!distribute);
        }
        other => panic!("{other:?}"),
    }
    assert_eq!(run.published, ["tok"]);
    assert!(matches!(run.step(OrderEvent::Published(Ok(()))), OrderAction::SetReady));
    assert!(matches!(
        run.step(OrderEvent::ReadySet(Ok(()))),
        OrderAction::NextAuthorization
    ));
    assert!(matches!(
        run.step(OrderEvent::Authorization(Ok(None))),
        OrderAction::PollReady
    ));
    assert!(matches!(
        run.step(OrderEvent::Polled(Ok(OrderStatus::Ready))),
        OrderAction::Finalize
    ));
    assert!(matches!(run.step(OrderEvent::Finalized(Ok(()))), OrderAction::Download));
    assert!(matches!(run.step(OrderEvent::Downloaded(Ok(()))), OrderAction::Done));
    match run.step(OrderEvent::Polled(Ok(OrderStatus::Other("invalid".into())))) {
        OrderAction::Fail(e) => assert_eq!(e, "order became invalid"),
        other => panic!("{other:?}"),
    }
    match finalize_request("a.test") {
        Finalization::Request { csr_der, key_pem } => {
            let (_, csr) = X509CertificationRequest::from_der(&csr_der).unwrap();
            let key = rcgen::KeyPair::from_pem(&key_pem).unwrap();
            let info = &csr.certification_request_info;
            assert_eq!(info.subject_pki.subject_public_key.data, key.public_key_raw());
            assert_eq!(info.subject.iter().count(), 0);
            let names: Vec<String> = csr
                .requested_extensions()
                .unwrap()
                .filter_map(|extension| match extension {
                    ParsedExtension::SubjectAlternativeName(san) => Some(san),
                    _ => None,
                })
                .flat_map(|san| san.general_names.iter().map(|name| name.to_string()))
                .collect();
            assert_eq!(names, ["DNSName(a.test)"]);
        }
        Finalization::Failed(e) => panic!("{e:?}"),
    }
}

#[test]
fn leftover_values_are_removed_only_without_another_owner() {
    assert!(removable("edge-a", &Ok(None), &Ok(None)));
    assert!(removable("edge-a", &Ok(Some("edge-a".into())), &Ok(None)));
    assert!(!removable("edge-a", &Ok(Some("edge-b".into())), &Ok(None)));
    assert!(!removable("edge-a", &Err("unreachable".into()), &Ok(None)));
}

#[test]
fn validates_san_expiry_and_key() {
    let (cert, key) = generate(&["web.test"], NOW - 10, NOW + 1000);
    let check = |cert: &str, key: &str, name: &str, now: i64| {
        parse_and_validate(cert.as_bytes(), key.as_bytes(), name, CertSource::Byoc, now)
    };
    let entry = check(&cert, &key, "web.test", NOW).ok().unwrap();
    assert_eq!(entry.dns_names, vec!["web.test"]);
    assert_eq!((entry.not_before, entry.not_after), (NOW - 10, NOW + 1000));
    assert_eq!(entry.fingerprint.len(), 64);
    assert!(!entry.is_expired(NOW) && entry.is_expired(NOW + 1000));
    assert_eq!(entry.lifetime_secs(), 1010);

    assert!(check(&cert, &key, "other.test", NOW).is_err());
    assert!(check(&cert, &key, "web.test", NOW + 1000).is_err());
    assert!(check(&cert, &key, "web.test", NOW - 1000).is_err());
    assert_eq!(check("", &key, "web.test", NOW).err().unwrap(), "no certificate found");
    assert_eq!(check(&cert, "", "web.test", NOW).err().unwrap(), "no private key found");

    let (_, other_key) = generate(&["web.test"], NOW - 10, NOW + 1000);
    assert!(check(&cert, &other_key, "web.test", NOW).is_err());
}

#[test]
fn wildcard_san_covers_single_label() {
    let (cert, key) = generate(&["*.example.test"], NOW - 10, NOW + 1000);
    let check = |name: &str| {
        parse_and_validate(cert.as_bytes(), key.as_bytes(), name, CertSource::Byoc, NOW)
    };
    assert!(check("a.example.test").is_ok());
    assert!(check("*.example.test").is_ok());
    assert!(check("a.b.example.test").is_err());
}

/// The files of a name, and its pointer.
struct Disk {
    store: CertStore,
    stored: Vec<(u64, Vec<u8>, Vec<u8>)>,
    pointer: Option<String>,
}

impl Disk {
    fn new() -> Self {
        Disk {
            store: CertStore::open("/state"),
            stored: Vec::new(),
            pointer: None,
        }
    }

    fn current(&self) -> Option<u64> {
        self.store
            .current_generation("web.test", &Ok(self.pointer.clone()))
            .unwrap()
    }

    fn generations(&self) -> Vec<u64> {
        let mut files: Vec<String> =
            self.stored.iter().map(|(g, _, _)| format!("gen-{g}")).collect();
        files.push("current".into());
        self.store.generations(&files)
    }

    fn next(&self) -> u64 {
        self.store.next_generation(&self.generations(), self.current())
    }

    fn store(&mut self, generation: u64, pems: &(String, String)) -> Result<(), String> {
        let (cert, key) = (pems.0.as_bytes(), pems.1.as_bytes());
        let exists = self.stored.iter().any(|(g, _, _)| *g == generation);
        let mut pointer = Ok(self.pointer.clone());
        let stored =
            self.store.store("web.test", generation, cert, key, NOW, &mut pointer, exists);
        self.pointer = pointer.unwrap();
        stored?;
        self.stored.push((generation, cert.to_vec(), key.to_vec()));
        let old = self.store.prune(&self.generations(), generation);
        self.stored.retain(|(g, _, _)| !old.contains(g));
        Ok(())
    }

    fn load(&self) -> Option<CertEntry> {
        let current = self.current()?;
        let read: Vec<StoredGeneration> = load_order(&self.generations(), current)
            .into_iter()
            .map(|generation| {
                let (_, cert, key) =
                    self.stored.iter().find(|(g, _, _)| *g == generation).unwrap();
                StoredGeneration {
                    generation,
                    cert: Ok(cert.clone()),
                    key: Ok(key.clone()),
                }
            })
            .collect();
        self.store.load_current("web.test", Some(current), &read, NOW)
    }
}

#[test]
fn store_switches_generations_and_rejects_stale_writers() {
    let mut disk = Disk::new();
    let first = generate(&["web.test"], NOW - 10, NOW + 1000);
    let second = generate(&["web.test"], NOW - 10, NOW + 2000);

    assert_eq!(disk.next(), 1);
    disk.store(1, &first).unwrap();
    disk.store(2, &second).unwrap();
    let loaded = disk.load().unwrap();
    assert_eq!(loaded.generation, Some(2));
    assert_eq!(loaded.not_after, NOW + 2000);

    // A stale writer (older generation) must not roll back.
    let err = disk.store(2, &first).unwrap_err();
    assert!(err.contains("refusing"));
    assert_eq!(disk.current(), Some(2));
    assert_eq!(disk.next(), 3);
}

#[test]
fn invalid_update_keeps_active_generation() {
    let mut disk = Disk::new();
    let first = generate(&["web.test"], NOW - 10, NOW + 1000);
    disk.store(1, &first).unwrap();

    let (_, wrong_key) = generate(&["web.test"], NOW - 10, NOW + 1000);
    assert!(disk.store(2, &(first.0.clone(), wrong_key)).is_err());
    assert_eq!(disk.current(), Some(1));
    assert!(disk.load().is_some());
}

#[test]
fn corrupted_active_generation_falls_back() {
    let mut disk = Disk::new();
    disk.store(1, &generate(&["web.test"], NOW - 10, NOW + 1000)).unwrap();
    disk.store(2, &generate(&["web.test"], NOW - 10, NOW + 2000)).unwrap();

    // Simulate a torn write of the active generation.
    disk.stored[1].1 = b"garbage".to_vec();
    assert_eq!(disk.load().unwrap().generation, Some(1));
    disk.pointer = Some("x".into());
    assert!(disk
        .store
        .current_generation("web.test", &Ok(disk.pointer.clone()))
        .unwrap_err()
        .starts_with("corrupt generation pointer \"/state/web.test/current\""));
}

#[test]
fn prunes_old_generations() {
    let mut disk = Disk::new();
    for generation in 1..=5 {
        disk.store(generation, &generate(&["web.test"], NOW - 10, NOW + 1000)).unwrap();
    }
    assert_eq!(disk.generations(), vec![5, 4, 3]);
    assert_eq!(disk.store.name_dir("*.a.test"), "/state/_wildcard.a.test");
    assert_eq!(CertStore::open("state/").path("a.test", "current"), "state/a.test/current");
    assert_eq!(CertStore::open("").path("a.test", "current"), "a.test/current");
}

#[test]
fn refused_generations_leave_the_pointer_alone() {
    let store = CertStore::open("/state");
    let (cert, key) = generate(&["web.test"], NOW - 10, NOW + 1000);
    let try_store = |generation: u64, pointer: &mut Result<Option<String>, String>| {
        store.store("web.test", generation, cert.as_bytes(), key.as_bytes(), NOW, pointer, false)
    };
    let mut pointer = Ok(Some(" 4\n".to_string()));
    assert!(try_store(4, &mut pointer).is_err());
    assert_eq!(pointer, Ok(Some(" 4\n".to_string())));
    assert_eq!(try_store(5, &mut pointer).unwrap().generation, Some(5));
    assert_eq!(pointer, Ok(Some("5".to_string())));
    assert_eq!(store.current_generation("web.test", &pointer), Ok(Some(5)));
    let mut pointer = Ok(Some("x".to_string()));
    let err = try_store(6, &mut pointer).err().unwrap();
    assert_eq!(err, "corrupt generation pointer \"/state/web.test/current\"");
    let mut pointer = Err("denied".to_string());
    let err = try_store(6, &mut pointer).err().unwrap();
    assert_eq!(err, "cannot read \"/state/web.test/current\": denied");
}

#[test]
fn gauges_tell_valid_from_expired_certificates() {
    let mut byoc = entry(NOW, NOW + 100);
    byoc.source = CertSource::Byoc;
    let entries = vec![entry(NOW, NOW + 1000), entry(NOW, NOW + 500), byoc];
    let (own, ordered) = update_certificates(&entries, NOW + 600);
    assert_eq!((own.valid, own.expired, own.min_remaining_secs), (0, 1, -500));
    assert_eq!((ordered.valid, ordered.expired, ordered.min_remaining_secs), (1, 1, -100));
    let (own, _) = update_certificates(&vec![], NOW);
    assert_eq!((own.valid, own.expired, own.min_remaining_secs), (0, 0, 0));
}

struct TestPki {
    cert: String,
    key: String,
}

impl TestPki {
    fn new() -> Self {
        let (cert, key) = generate_ca("test mesh CA").unwrap();
        TestPki { cert, key }
    }

    fn identity(&self, edge_id: &str) -> Result<MeshIdentity, String> {
        let (cert, key) = issue_edge_cert(&self.cert, &self.key, "edge-a", 30).unwrap();
        MeshIdentity::load(
            edge_id,
            "ca.pem",
            self.cert.as_bytes(),
            cert.as_bytes(),
            key.as_bytes(),
        )
    }
}

#[test]
fn edge_certificates_bind_the_edge_id() {
    let pki = TestPki::new();
    let identity = pki.identity("edge-a").ok().unwrap();
    assert_eq!(edge_ids_from_cert(&identity.cert_chain[0]), ["edge-a"]);
    assert_eq!(server_name("edge-a"), "edge-a.mesh.sievetube.internal");
}

#[test]
fn identity_must_match_configured_edge_id() {
    let pki = TestPki::new();
    let err = pki
        .identity("edge-b")
        .err()
        .expect("mismatched identity must fail");
    assert!(err.contains("expected exactly"), "{err}");
    assert!(issue_edge_cert("no PEM", &pki.key, "edge-a", 30).is_err());
}

#[test]
fn edge_ids_are_dns_labels() {
    assert!(validate_edge_id("edge-1").is_ok());
    for bad in ["", "Edge", "edge_1", "-edge", "edge.a", &"a".repeat(64)] {
        assert!(validate_edge_id(bad).is_err(), "{bad:?}");
    }
}

#[test]
fn the_clock_runs() {
    assert!(now_unix() > 1_700_000_000);
    assert!(SystemClock.now_unix() >= now_unix() - 5);
}

#[test]
fn certificates_say_what_was_asked_for() {
    let pki = TestPki::new();
    let (_, pem) = x509_parser::pem::parse_x509_pem(pki.cert.as_bytes()).unwrap();
    let ca = pem.parse_x509().unwrap();
    let name = ca.subject().iter_common_name().next().unwrap().as_str().unwrap();
    assert_eq!(name, "test mesh CA");
    let constraints = ca.basic_constraints().unwrap().unwrap().value;
    assert!(constraints.ca);
    assert_eq!(constraints.path_len_constraint, Some(0));
    let usage = ca.key_usage().unwrap().unwrap().value;
    assert!(usage.key_cert_sign() && usage.crl_sign() && usage.digital_signature());
    assert!(ca.extended_key_usage().unwrap().is_none());
    assert_eq!(ca.validity().not_before.timestamp(), 1_704_067_200);
    assert_eq!(ca.validity().not_after.timestamp(), 2_335_219_200);
    let ca_key = rcgen::KeyPair::from_pem(&pki.key).unwrap();
    assert_eq!(ca.public_key().subject_public_key.data, ca_key.public_key_raw());

    let (cert, key) = issue_edge_cert(&pki.cert, &pki.key, "edge-a", 30).unwrap();
    let (_, pem) = x509_parser::pem::parse_x509_pem(cert.as_bytes()).unwrap();
    let edge = pem.parse_x509().unwrap();
    let name = edge.subject().iter_common_name().next().unwrap().as_str().unwrap();
    assert_eq!(name, "sievetube edge edge-a");
    let issuer = edge.issuer().iter_common_name().next().unwrap().as_str().unwrap();
    assert_eq!(issuer, "test mesh CA");
    assert!(edge.basic_constraints().unwrap().is_none());
    let usage = edge.key_usage().unwrap().unwrap().value;
    assert!(usage.digital_signature() && !usage.key_cert_sign() && !usage.crl_sign());
    let usage = edge.extended_key_usage().unwrap().unwrap().value;
    assert!(usage.server_auth && usage.client_auth && !usage.any);
    let validity = edge.validity();
    let secs = validity.not_after.timestamp() - validity.not_before.timestamp();
    assert_eq!(secs, 3600 + 30 * 86_400);
    let edge_key = rcgen::KeyPair::from_pem(&key).unwrap();
    assert_eq!(edge.public_key().subject_public_key.data, edge_key.public_key_raw());

    let err = issue_edge_cert("no PEM", &pki.key, "edge-a", 30).unwrap_err();
    assert!(err.starts_with("invalid CA certificate: "), "{err}");
    let err = issue_edge_cert(&pki.cert, "no PEM", "edge-a", 30).unwrap_err();
    assert!(err.starts_with("invalid CA key: "), "{err}");
    let err = issue_edge_cert("no PEM", "no PEM", "Edge", 30).unwrap_err();
    assert!(err.starts_with("edge id \"Edge\""), "{err}");
}

#[test]
fn certificates_name_times_up_to_the_last_one() {
    let last = LAST_TIME as u64;
    let request = edge_request_at("edge-a", 30, 1_800_000_000).unwrap();
    assert_eq!(request.common_name, "sievetube edge edge-a");
    assert_eq!(request.not_before, 1_800_000_000 - 3600);
    assert_eq!(request.not_after, 1_800_000_000 + 30 * 86_400);
    assert_eq!(edge_request_at("edge-a", 1, 0).unwrap().not_before, -3600);
    assert_eq!(edge_request_at("edge-a", 1, last - 86_400).unwrap().not_after, LAST_TIME);
    let err = edge_request_at("edge-a", 1, last - 86_399).unwrap_err();
    assert_eq!(err, "the validity period is out of range");
    let err = edge_request_at("edge-a", 0, last + 1).unwrap_err();
    assert_eq!(err, "the clock is out of range");
    let pki = TestPki::new();
    assert!(issue_edge_cert(&pki.cert, &pki.key, "edge-a", u32::MAX).is_err());
}
