//! What the Edge decides when it starts, and the arguments of its commands.

use vstd::prelude::*;
use vstd::string::*;
use crate::edge::acme::Coordination;
use crate::edge::config::{
    AcmeChallenge, AcmeConfig, AcmeCoordination, DnsConfig, MeshConfig, RoutingMode,
};
use crate::edge::dns::plan;
use crate::edge::dns::reconciler::{OutcomeView, ReconcilerSettings, RecordOutcome, WriterMode};
use crate::edge::dns::txt::TxtSettings;
use crate::text;
use crate::text::parse_unsigned;
use crate::time::Duration;

verus! {

/// The identity that the configuration gives this Edge. A mesh needs a stable one;
/// without one a random ID per start is fine.
pub fn configured_edge_id(mesh: Option<&MeshConfig>) -> (r: Option<String>)
    ensures
        text::opt_view(r) == (match mesh {
            Some(m) => if m.edge_id@.len() > 0 {
                Some(m.edge_id@)
            } else {
                None
            },
            None => None,
        }),
{
    match mesh {
        Some(m) => {
            if m.edge_id.as_str().unicode_len() > 0 {
                Some(m.edge_id.clone())
            } else {
                None
            }
        },
        None => None,
    }
}

/// Whether certificates are ordered with DNS records.
pub open spec fn orders_with_dns(acme: Option<&AcmeConfig>) -> bool {
    acme is Some && acme->0.enabled && acme->0.challenge == AcmeChallenge::Dns01
}

/// Whether DNS providers are needed: record management and DNS-01 share them.
pub fn needs_dns_providers(dns: &DnsConfig, acme: Option<&AcmeConfig>) -> (r: bool)
    ensures
        r == (dns.enabled || orders_with_dns(acme)),
{
    dns.enabled || match acme {
        Some(a) => a.enabled && a.challenge == AcmeChallenge::Dns01,
        None => false,
    }
}

/// The first domain whose certificate file exists.
pub open spec fn first_present(domains: Seq<Seq<char>>, present: Seq<bool>, from: int) -> Option<
    Seq<char>,
>
    decreases domains.len() - from,
{
    if from < 0 || from >= domains.len() || from >= present.len() {
        None
    } else if present[from] {
        Some(domains[from])
    } else {
        first_present(domains, present, from + 1)
    }
}

/// ACME-managed names have no certificate files of their own: one for a managed
/// name is a configuration error rather than a silent override. Told, for each
/// domain, whether its file is present in the directory.
pub fn check_byoc_conflict(domains: &Vec<String>, present: &Vec<bool>, cert_dir: &str) -> (r: Result<
    (),
    String,
>)
    ensures
        match first_present(text::views(domains@), present@, 0) {
            None => r is Ok,
            Some(domain) => r is Err && r->Err_0@ == domain
                + " is listed in tls.acme.domains but "@ + cert_dir@ + "/"@ + domain
                + ".crt also exists; remove one of them"@,
        },
{
    let ghost all = text::views(domains@);
    let mut i: usize = 0;
    while i < domains.len() && i < present.len()
        invariant
            i <= domains.len() == all.len(),
            i <= present.len(),
            all == text::views(domains@),
            first_present(all, present@, 0) == first_present(all, present@, i as int),
        decreases domains.len() - i,
    {
        assert(all[i as int] == domains@[i as int]@);
        if present[i] {
            let mut e: String = domains[i].clone();
            e.append(" is listed in tls.acme.domains but ");
            e.append(cert_dir);
            e.append("/");
            e.append(domains[i].as_str());
            e.append(".crt also exists; remove one of them");
            return Err(e);
        }
        i += 1;
    }
    Ok(())
}

/// How certificate orders are coordinated.
pub fn acme_coordination(configured: AcmeCoordination, has_valkey: bool) -> (r: Result<
    Coordination,
    String,
>)
    ensures
        match configured {
            AcmeCoordination::Alone => r == Ok::<Coordination, String>(Coordination::Local),
            AcmeCoordination::Valkey => if has_valkey {
                r == Ok::<Coordination, String>(Coordination::Valkey)
            } else {
                r is Err && r->Err_0@
                    == "tls.acme.coordination = \"valkey\" requires [valkey]"@
            },
        },
{
    match configured {
        AcmeCoordination::Alone => Ok(Coordination::Local),
        AcmeCoordination::Valkey => {
            if has_valkey {
                Ok(Coordination::Valkey)
            } else {
                Err("tls.acme.coordination = \"valkey\" requires [valkey]".to_owned())
            }
        },
    }
}

/// The settings of DNS-01 challenges.
pub fn txt_settings(acme: &AcmeConfig) -> (r: TxtSettings)
    ensures
        r.ttl == acme.dns_txt_ttl,
        r.propagation_timeout.nanos == acme.dns_propagation_timeout_secs * 1_000_000_000,
        r.poll_interval.nanos == acme.dns_propagation_poll_secs * 1_000_000_000,
{
    TxtSettings {
        ttl: acme.dns_txt_ttl,
        propagation_timeout: Duration::from_secs(acme.dns_propagation_timeout_secs),
        poll_interval: Duration::from_secs(acme.dns_propagation_poll_secs),
    }
}

/// The settings of record management.
pub fn dns_settings(cfg: &DnsConfig) -> (r: ReconcilerSettings)
    requires
        cfg.settle_secs <= i64::MAX,
    ensures
        r.state_dir@ == cfg.state_dir@,
        r.interval.nanos == cfg.reconcile_interval_secs * 1_000_000_000,
        r.settle_secs == cfg.settle_secs,
        r.lease_ttl.nanos == cfg.lease_ttl_secs * 1_000_000_000,
        r.dry_run == cfg.dry_run,
{
    ReconcilerSettings {
        state_dir: cfg.state_dir.clone(),
        interval: Duration::from_secs(cfg.reconcile_interval_secs),
        settle_secs: cfg.settle_secs as i64,
        lease_ttl: Duration::from_secs(cfg.lease_ttl_secs),
        dry_run: cfg.dry_run,
    }
}

/// How this Edge becomes the writer of records.
pub fn writer_mode(cfg: &DnsConfig, has_valkey: bool) -> (r: WriterMode)
    ensures
        r == (if has_valkey && !cfg.single_writer {
            WriterMode::Valkey
        } else {
            WriterMode::SingleWriter
        }),
{
    if has_valkey && !cfg.single_writer {
        WriterMode::Valkey
    } else {
        WriterMode::SingleWriter
    }
}

/// Whether traffic is forwarded between Edges.
pub fn mesh_enabled(mode: Option<RoutingMode>, has_mesh: bool) -> (r: bool)
    ensures
        r == (mode == Some(RoutingMode::Mesh) && has_mesh),
{
    match mode {
        Some(RoutingMode::Mesh) => has_mesh,
        _ => false,
    }
}

/// What `mesh-cert` is asked for.
#[derive(Debug, PartialEq, Eq)]
pub struct MeshCertArgs {
    pub ca_dir: String,
    pub edge_id: String,
    pub out_dir: String,
    pub days: u32,
}

/// How `mesh-cert` is used.
pub open spec fn mesh_cert_usage() -> Seq<char> {
    "Usage: sievetube-edge mesh-cert <ca-dir> <edge-id> [out-dir] [validity-days]"@
}

/// How many days a certificate is valid: as given, else a year.
pub open spec fn validity_days(words: Seq<Seq<char>>) -> Option<nat> {
    if words.len() < 4 {
        Some(365)
    } else {
        text::parsed_unsigned(words[3], u32::MAX as nat)
    }
}

/// Reads the arguments of `mesh-cert`.
pub fn mesh_cert_args(words: &Vec<String>) -> (r: Result<MeshCertArgs, String>)
    ensures
        ({
            let all = text::views(words@);
            if all.len() < 2 || validity_days(all) is None {
                r is Err && r->Err_0@ == mesh_cert_usage()
            } else {
                &&& r is Ok
                &&& r->Ok_0.ca_dir@ == all[0]
                &&& r->Ok_0.edge_id@ == all[1]
                &&& r->Ok_0.out_dir@ == all[if all.len() > 2 {
                    2int
                } else {
                    0int
                }]
                &&& r->Ok_0.days == validity_days(all)->0
            }
        }),
{
    let ghost all = text::views(words@);
    let usage: &str =
        "Usage: sievetube-edge mesh-cert <ca-dir> <edge-id> [out-dir] [validity-days]";
    if words.len() < 2 {
        return Err(usage.to_owned());
    }
    assert(all[0] == words@[0]@ && all[1] == words@[1]@);
    let out_dir: String = if words.len() > 2 {
        assert(all[2] == words@[2]@);
        words[2].clone()
    } else {
        words[0].clone()
    };
    let days: u32 = if words.len() > 3 {
        assert(all[3] == words@[3]@);
        match parse_unsigned(words[3].as_str(), 4_294_967_295) {
            Some(n) => n as u32,
            None => {
                return Err(usage.to_owned());
            },
        }
    } else {
        365
    };
    Ok(MeshCertArgs { ca_dir: words[0].clone(), edge_id: words[1].clone(), out_dir, days })
}

/// The line that `dns-plan` prints for a record.
pub open spec fn plan_text(o: OutcomeView) -> Seq<char> {
    o.provider + " "@ + o.key + ": "@ + match o.error {
        Some(e) => "error: "@ + e,
        None => plan::described(o.action),
    }
}

/// The line that `dns-plan` prints for a record.
pub fn plan_line(outcome: &RecordOutcome) -> (r: String)
    ensures
        r@ == plan_text(outcome@),
{
    let mut out: String = outcome.provider.clone();
    out.append(" ");
    out.append(outcome.key.as_str());
    out.append(": ");
    match &outcome.error {
        Some(e) => {
            let detail: String = "error: ".to_owned().concat(e.as_str());
            out.append(detail.as_str());
        },
        None => {
            out.append(outcome.action.describe().as_str());
        },
    }
    out
}

/// An Edge has the name that its mesh gives it, if that is not empty.
pub proof fn law_edges_are_named_by_the_mesh(mesh: Option<&MeshConfig>, r: Option<String>)
    requires
        call_ensures(configured_edge_id, (mesh,), r),
    ensures
        r is Some == (mesh is Some && mesh->0.edge_id@.len() > 0),
        r is Some ==> r->0@ == mesh->0.edge_id@,
{
}

/// DNS providers are needed to manage records and to answer challenges in DNS, and for nothing
/// else. The mesh runs only where it is configured and routed by.
pub proof fn law_only_what_is_needed_is_started(
    dns: DnsConfig,
    acme: Option<&AcmeConfig>,
    providers: bool,
    mode: Option<RoutingMode>,
    has_mesh: bool,
    mesh: bool,
)
    requires
        call_ensures(needs_dns_providers, (&dns, acme), providers),
        call_ensures(mesh_enabled, (mode, has_mesh), mesh),
    ensures
        dns.enabled ==> providers,
        !dns.enabled && acme is None ==> !providers,
        !dns.enabled && acme is Some ==> providers == (acme->0.enabled && acme->0.challenge
            is Dns01),
        mesh == (has_mesh && mode is Some && mode->0 is Mesh),
{
}

proof fn lemma_first_present(domains: Seq<Seq<char>>, present: Seq<bool>, from: int)
    requires
        0 <= from,
        domains.len() == present.len(),
    ensures
        first_present(domains, present, from) is None == (forall|i: int|
            from <= i < present.len() ==> !#[trigger] present[i]),
    decreases domains.len() - from,
{
    if from < domains.len() && !present[from] {
        lemma_first_present(domains, present, from + 1);
        if first_present(domains, present, from) is None {
            assert forall|i: int| from <= i < present.len() implies !#[trigger] present[i] by {
                if i > from {
                    assert(from + 1 <= i);
                }
            }
        }
    }
}

/// A domain that is ordered by ACME must not have a certificate of its own.
pub proof fn law_ordered_domains_have_no_own_certificate(
    domains: Vec<String>,
    present: Vec<bool>,
    cert_dir: &str,
    r: Result<(), String>,
    i: int,
)
    requires
        domains@.len() == present@.len(),
        call_ensures(check_byoc_conflict, (&domains, &present, cert_dir), r),
    ensures
        0 <= i < present@.len() && present@[i] ==> r is Err,
        r is Err ==> exists|j: int| 0 <= j < present@.len() && #[trigger] present@[j],
{
    let names = text::views(domains@);
    assert(names.len() == domains@.len());
    lemma_first_present(names, present@, 0);
}

/// ACME is coordinated as configured, through Valkey only where there is one; so is writing DNS,
/// unless there is a single writer.
pub proof fn law_work_is_shared_through_valkey(
    configured: AcmeCoordination,
    has_valkey: bool,
    acme: Result<Coordination, String>,
    cfg: DnsConfig,
    writer: WriterMode,
)
    requires
        call_ensures(acme_coordination, (configured, has_valkey), acme),
        call_ensures(writer_mode, (&cfg, has_valkey), writer),
    ensures
        configured is Alone ==> acme is Ok && acme->Ok_0 is Local,
        configured is Valkey ==> acme is Ok == has_valkey,
        configured is Valkey && has_valkey ==> acme->Ok_0 is Valkey,
        writer is Valkey == (has_valkey && !cfg.single_writer),
{
}

/// Settings are taken over as they are configured, seconds as seconds.
pub proof fn law_settings_are_taken_over(
    acme: AcmeConfig,
    txt: TxtSettings,
    cfg: DnsConfig,
    dns: ReconcilerSettings,
)
    requires
        call_ensures(txt_settings, (&acme,), txt),
        cfg.settle_secs <= i64::MAX,
        call_ensures(dns_settings, (&cfg,), dns),
    ensures
        txt.ttl == acme.dns_txt_ttl,
        txt.propagation_timeout.nanos == acme.dns_propagation_timeout_secs * 1_000_000_000,
        txt.poll_interval.nanos == acme.dns_propagation_poll_secs * 1_000_000_000,
        dns.state_dir@ == cfg.state_dir@,
        dns.interval.nanos == cfg.reconcile_interval_secs * 1_000_000_000,
        dns.settle_secs == cfg.settle_secs,
        dns.lease_ttl.nanos == cfg.lease_ttl_secs * 1_000_000_000,
        dns.dry_run == cfg.dry_run,
{
}

/// A mesh certificate needs the directory of the CA and the name of the Edge. It goes to the
/// directory of the CA and is valid for a year, unless something else is said.
pub proof fn law_mesh_certificates_have_defaults(
    words: Vec<String>,
    days: u32,
    r: Result<MeshCertArgs, String>,
)
    requires
        call_ensures(mesh_cert_args, (&words,), r),
    ensures
        words@.len() < 2 ==> r is Err,
        2 <= words@.len() < 4 ==> r is Ok && r->Ok_0.days == 365,
        words@.len() >= 4 && words@[3]@ == text::decimal(days as nat) ==> r is Ok && r->Ok_0.days
            == days,
        r matches Ok(a) ==> a.ca_dir@ == words@[0]@ && a.edge_id@ == words@[1]@ && a.out_dir@ == (
        if words@.len() > 2 {
            words@[2]@
        } else {
            words@[0]@
        }),
{
    let all = text::views(words@);
    assert(all.len() == words@.len());
    assert forall|i: int| 0 <= i < words@.len() implies all[i] == (#[trigger] words@[i])@ by {}
    text::law_digits_read_back(days as nat, 10);
    text::lemma_digits_are_digits(days as nat, 10);
    let d = text::decimal(days as nat);
    assert(text::digit_value(d[0], 16) is Some);
}

/// A line of a plan names the provider and the record, and says what went wrong or else what
/// would be done.
pub proof fn law_plans_are_shown_line_by_line(o: RecordOutcome, done: String, r: String)
    requires
        call_ensures(plan_line, (&o,), r),
        call_ensures(plan::Action::describe, (&o.action,), done),
    ensures
        match o.error {
            Some(e) => r@ == o.provider@ + " "@ + o.key@ + ": "@ + ("error: "@ + e@),
            None => r@ == o.provider@ + " "@ + o.key@ + ": "@ + done@,
        },
{
    assert(o@.error == text::opt_view(o.error));
    assert(o@.action == o.action@);
}

} // verus!
