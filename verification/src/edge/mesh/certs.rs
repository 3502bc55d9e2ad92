//! Mesh PKI. A private CA issues one certificate per Edge; the Edge ID is bound
//! to the certificate as `URI:sievetube-edge://<id>` and
//! `DNS:<id>.mesh.sievetube.internal`, which peers verify on every connection.

use vstd::prelude::*;
use vstd::string::*;
use vstd::utf8::*;
use rcgen::{CertificateParams, Issuer, KeyPair, SanType};
use rustls::RootCertStore;
use crate::pki;
use crate::pki::{
    add_root, check_key_pair, key_pem, new_key, read_certificate, read_certificates, read_chain,
    read_key, read_private_key, AltName, AltNameView, CertificateInfo, InfoView, KeyView,
    PrivateKey,
};
use crate::text;
use crate::text::{chars_of, has_prefix, quote, quote_list, same_text, substring};
use crate::time::unix_time;

verus! {

/// What stands before the Edge ID in the URI of a certificate.
pub open spec fn edge_uri_prefix() -> Seq<char> {
    "sievetube-edge://"@
}

/// The TLS server name of a peer.
pub open spec fn server_name_of(edge_id: Seq<char>) -> Seq<char> {
    edge_id + "."@ + "mesh.sievetube.internal"@
}

/// TLS server name used when connecting to a peer.
pub fn server_name(edge_id: &str) -> (r: String)
    ensures
        r@ == server_name_of(edge_id@),
{
    let mut r: String = edge_id.to_owned();
    r.append(".");
    r.append("mesh.sievetube.internal");
    r
}

/// The characters of an Edge ID.
pub open spec fn edge_id_char(c: char) -> bool {
    'a' <= c <= 'z' || text::is_digit(c) || c == '-'
}

/// Whether a text is an Edge ID: a single DNS label in lower case.
pub open spec fn is_edge_id(s: Seq<char>) -> bool {
    &&& 1 <= s.len() <= 63
    &&& forall|i: int| 0 <= i < s.len() ==> edge_id_char(#[trigger] s[i])
    &&& s[0] != '-'
    &&& s.last() != '-'
}

/// What is said of a text that is no Edge ID.
pub open spec fn bad_edge_id(s: Seq<char>) -> Seq<char> {
    "edge id "@ + text::quoted(s) + " must be 1-63 lowercase letters, digits or '-'"@
}

/// Edge IDs are single DNS labels so they can appear in certificate names.
pub fn validate_edge_id(edge_id: &str) -> (r: Result<(), String>)
    ensures
        match r {
            Ok(_) => is_edge_id(edge_id@),
            Err(e) => !is_edge_id(edge_id@) && e@ == bad_edge_id(edge_id@),
        },
{
    if check_edge_id(edge_id) {
        Ok(())
    } else {
        let mut m: String = "edge id ".to_owned();
        m.append(quote(edge_id).as_str());
        m.append(" must be 1-63 lowercase letters, digits or '-'");
        Err(m)
    }
}

fn check_edge_id(edge_id: &str) -> (r: bool)
    ensures
        r == is_edge_id(edge_id@),
{
    let v: Vec<char> = chars_of(edge_id);
    if v.len() < 1 || v.len() > 63 {
        return false;
    }
    let mut i: usize = 0;
    while i < v.len()
        invariant
            i <= v.len(),
            v@ == edge_id@,
            forall|j: int| 0 <= j < i ==> edge_id_char(#[trigger] edge_id@[j]),
        decreases v.len() - i,
    {
        let c: char = v[i];
        let ok: bool = ('a' <= c && c <= 'z') || ('0' <= c && c <= '9') || c == '-';
        if !ok {
            assert(!edge_id_char(edge_id@[i as int]));
            return false;
        }
        i += 1;
    }
    v[0] != '-' && v[v.len() - 1] != '-'
}

/// The Edge IDs among the names of a certificate.
pub open spec fn edge_ids(names: Seq<AltNameView>) -> Seq<Seq<char>>
    decreases names.len(),
{
    if names.len() == 0 {
        Seq::empty()
    } else {
        let before = edge_ids(names.drop_last());
        match names.last() {
            AltNameView::Uri(uri) => if text::starts_with(uri, edge_uri_prefix()) {
                before.push(uri.skip(edge_uri_prefix().len() as int))
            } else {
                before
            },
            _ => before,
        }
    }
}

/// The Edge IDs of a certificate; none where it cannot be read.
pub open spec fn ids_of(info: Result<InfoView, Seq<char>>) -> Seq<Seq<char>> {
    match info {
        Ok(InfoView { names: Ok(names), .. }) => edge_ids(names),
        _ => Seq::empty(),
    }
}

fn ids_among(names: &Vec<AltName>) -> (r: Vec<String>)
    ensures
        text::views(r@) == edge_ids(pki::alt_views(names@)),
{
    proof {
        reveal_strlit("sievetube-edge://");
    }
    let ghost all = pki::alt_views(names@);
    let mut out: Vec<String> = Vec::new();
    let mut i: usize = 0;
    assert(text::views(out@) =~= edge_ids(all.take(0)));
    while i < names.len()
        invariant
            i <= names.len() == all.len(),
            all == pki::alt_views(names@),
            edge_uri_prefix().len() == 17,
            text::views(out@) == edge_ids(all.take(i as int)),
        decreases names.len() - i,
    {
        let ghost before = text::views(out@);
        assert(all.take(i + 1).drop_last() =~= all.take(i as int));
        assert(all.take(i + 1).last() == names@[i as int]@);
        if let AltName::Uri(uri) = &names[i] {
            if has_prefix(uri.as_str(), "sievetube-edge://") {
                let n: usize = chars_of(uri.as_str()).len();
                let id: String = substring(uri.as_str(), 17, n);
                assert(id@ =~= uri@.skip(17));
                out.push(id);
                assert(text::views(out@) =~= before.push(id@));
            }
        }
        i += 1;
    }
    assert(all.take(i as int) =~= all);
    out
}

/// The Edge IDs that what is read of a certificate names.
pub fn edge_ids_from_info(info: &Result<CertificateInfo, String>) -> (r: Vec<String>)
    ensures
        text::views(r@) == ids_of(pki::info_result(*info)),
{
    match info {
        Ok(i) => match &i.names {
            Ok(names) => ids_among(names),
            Err(_) => {
                let r: Vec<String> = Vec::new();
                assert(text::views(r@) =~= Seq::<Seq<char>>::empty());
                r
            },
        },
        Err(_) => {
            let r: Vec<String> = Vec::new();
            assert(text::views(r@) =~= Seq::<Seq<char>>::empty());
            r
        },
    }
}

/// Edge IDs bound to a certificate through `sievetube-edge://` URIs.
pub fn edge_ids_from_cert(der: &[u8]) -> (r: Vec<String>)
    ensures
        text::views(r@) == ids_of(pki::certificate_info(der@)),
{
    let info: Result<CertificateInfo, String> = read_certificate(der);
    edge_ids_from_info(&info)
}

/// This Edge's mesh credentials.
pub struct MeshIdentity {
    pub edge_id: String,
    pub cert_chain: Vec<Vec<u8>>,
    pub key: PrivateKey,
    pub roots: RootCertStore,
}

/// What is wrong with the first certificate from `from` on that cannot be trusted
/// as the root of a mesh.
pub open spec fn mesh_root_fault(
    sections: Seq<Result<Seq<u8>, Seq<char>>>,
    from: int,
) -> Option<Seq<char>>
    decreases sections.len() - from,
{
    if from >= sections.len() {
        None
    } else {
        match sections[from] {
            Err(e) => Some("invalid mesh CA certificate: "@ + e),
            Ok(der) => match pki::anchor_fault(der) {
                Some(e) => Some(e),
                None => mesh_root_fault(sections, from + 1),
            },
        }
    }
}

/// Why mesh credentials cannot be used.
pub open spec fn identity_fault(
    edge_id: Seq<char>,
    ca_path: Seq<char>,
    ca_pem: Seq<u8>,
    cert_pem: Seq<u8>,
    key_pem: Seq<u8>,
) -> Option<Seq<char>> {
    let sections = pki::pem_certificates(ca_pem);
    let chain = pki::pem_chain(cert_pem);
    let key = pki::pem_private_key(key_pem);
    if !is_edge_id(edge_id) {
        Some(bad_edge_id(edge_id))
    } else if mesh_root_fault(sections, 0) is Some {
        mesh_root_fault(sections, 0)
    } else if sections.len() == 0 {
        Some("no CA certificate in "@ + ca_path)
    } else if chain is Err {
        Some("invalid mesh certificate: "@ + chain->Err_0)
    } else if chain->Ok_0.len() == 0 {
        Some("no mesh certificate found"@)
    } else if ids_of(pki::certificate_info(chain->Ok_0[0])) != seq![edge_id] {
        Some(
            "mesh certificate identifies "@ + text::quoted_list(
                ids_of(pki::certificate_info(chain->Ok_0[0])),
            ) + ", expected exactly "@ + text::quoted(edge_id),
        )
    } else if key is Err {
        Some("invalid mesh private key: "@ + key->Err_0)
    } else if key->Ok_0 is None {
        Some("no mesh private key found"@)
    } else if pki::key_pair_fault(chain->Ok_0, key->Ok_0->0) is Some {
        Some(
            "mesh certificate and key do not match: "@ + pki::key_pair_fault(
                chain->Ok_0,
                key->Ok_0->0,
            )->0,
        )
    } else {
        None
    }
}

fn mesh_roots(ca_pem: &[u8]) -> (r: Result<RootCertStore, String>)
    ensures
        match r {
            Ok(store) => mesh_root_fault(pki::pem_certificates(ca_pem@), 0) is None && pki::anchors(
                store,
            ) == pki::good_sections(pki::pem_certificates(ca_pem@)),
            Err(e) => mesh_root_fault(pki::pem_certificates(ca_pem@), 0) == Some(e@),
        },
{
    let sections: Vec<Result<Vec<u8>, String>> = read_certificates(ca_pem);
    let ghost all = pki::section_views(sections@);
    let mut store: RootCertStore = RootCertStore::empty();
    let mut i: usize = 0;
    assert(pki::good_sections(all.take(0)) =~= Seq::<Seq<u8>>::empty());
    while i < sections.len()
        invariant
            i <= sections.len() == all.len(),
            all == pki::section_views(sections@),
            mesh_root_fault(all, 0) == mesh_root_fault(all, i as int),
            pki::anchors(store) == pki::good_sections(all.take(i as int)),
        decreases sections.len() - i,
    {
        match &sections[i] {
            Err(e) => {
                return Err("invalid mesh CA certificate: ".to_owned().concat(e.as_str()));
            },
            Ok(der) => {
                assert(all[i as int] == Ok::<Seq<u8>, Seq<char>>(der@));
                if let Err(e) = add_root(&mut store, der) {
                    return Err(e);
                }
                assert(pki::good_sections(all.take(i + 1)) =~= pki::good_sections(
                    all.take(i as int),
                ).push(der@));
            },
        }
        i += 1;
    }
    assert(all.take(i as int) =~= all);
    Ok(store)
}

impl MeshIdentity {
    /// Reads mesh credentials from their PEM texts. The certificate has to name
    /// exactly the configured Edge ID, and the key has to match it.
    pub fn load(
        edge_id: &str,
        ca_path: &str,
        ca_pem: &[u8],
        cert_pem: &[u8],
        key_pem: &[u8],
    ) -> (r: Result<Self, String>)
        ensures
            match r {
                Ok(identity) => {
                    &&& identity_fault(edge_id@, ca_path@, ca_pem@, cert_pem@, key_pem@) is None
                    &&& identity.edge_id@ == edge_id@
                    &&& pki::pem_chain(cert_pem@) == Ok::<Seq<Seq<u8>>, Seq<char>>(
                        pki::chain_views(identity.cert_chain@),
                    )
                    &&& pki::pem_private_key(key_pem@) == Ok::<Option<KeyView>, Seq<char>>(
                        Some(identity.key@),
                    )
                    &&& pki::anchors(identity.roots) == pki::good_sections(
                        pki::pem_certificates(ca_pem@),
                    )
                },
                Err(e) => identity_fault(edge_id@, ca_path@, ca_pem@, cert_pem@, key_pem@) == Some(
                    e@,
                ),
            },
    {
        if let Err(e) = validate_edge_id(edge_id) {
            return Err(e);
        }
        let roots: RootCertStore = match mesh_roots(ca_pem) {
            Ok(roots) => roots,
            Err(e) => {
                return Err(e);
            },
        };
        assert(pki::good_sections(pki::pem_certificates(ca_pem@)).len() == pki::pem_certificates(
            ca_pem@,
        ).len());
        if roots.is_empty() {
            return Err("no CA certificate in ".to_owned().concat(ca_path));
        }
        let cert_chain: Vec<Vec<u8>> = match read_chain(cert_pem) {
            Ok(chain) => chain,
            Err(e) => {
                return Err("invalid mesh certificate: ".to_owned().concat(e.as_str()));
            },
        };
        if cert_chain.len() == 0 {
            return Err("no mesh certificate found".to_owned());
        }
        let ghost views = pki::chain_views(cert_chain@);
        assert(views[0] == cert_chain@[0]@);
        let ids: Vec<String> = edge_ids_from_cert(cert_chain[0].as_slice());
        let ghost named = text::views(ids@);
        if ids.len() != 1 || !same_text(ids[0].as_str(), edge_id) {
            proof {
                if named == seq![edge_id@] {
                    assert(named.len() == 1 && named[0] == edge_id@);
                    assert(named[0] == ids@[0]@);
                }
            }
            let mut m: String = "mesh certificate identifies ".to_owned();
            m.append(quote_list(&ids).as_str());
            m.append(", expected exactly ");
            m.append(quote(edge_id).as_str());
            return Err(m);
        }
        assert(named =~= seq![edge_id@]) by {
            assert(named[0] == ids@[0]@);
        }
        let key: PrivateKey = match read_private_key(key_pem) {
            Ok(Some(key)) => key,
            Ok(None) => {
                return Err("no mesh private key found".to_owned());
            },
            Err(e) => {
                return Err("invalid mesh private key: ".to_owned().concat(e.as_str()));
            },
        };
        if let Some(e) = check_key_pair(&cert_chain, &key) {
            return Err("mesh certificate and key do not match: ".to_owned().concat(e.as_str()));
        }
        Ok(MeshIdentity { edge_id: edge_id.to_owned(), cert_chain, key, roots })
    }
}

#[verifier::external_type_specification]
#[verifier::external_body]
pub struct ExCertificateParams(CertificateParams);

#[verifier::external_type_specification]
#[verifier::external_body]
#[verifier::reject_recursive_types(S)]
pub struct ExIssuer<'a, S>(Issuer<'a, S>);

/// What the key of a certificate may be used for.
#[derive(Debug, Clone, Copy, PartialEq, Eq, Structural)]
pub enum KeyUsage {
    KeyCertSign,
    CrlSign,
    DigitalSignature,
}

/// What a certificate may be presented for.
#[derive(Debug, Clone, Copy, PartialEq, Eq, Structural)]
pub enum ExtendedUsage {
    ServerAuth,
    ClientAuth,
}

/// What a new certificate shall say.
#[derive(Debug)]
pub struct CertificateRequest {
    pub common_name: String,
    pub key_usages: Vec<KeyUsage>,
    pub extended_usages: Vec<ExtendedUsage>,
    /// Unix times between which it is valid
    pub not_before: i64,
    pub not_after: i64,
}

/// The first Unix time that is needed in a certificate: an hour before the epoch.
pub const FIRST_TIME: i64 = -3600;

/// The last Unix time that a certificate can name.
pub const LAST_TIME: i64 = 253_402_300_799;

/// What a certificate says of its subject, beside its alternative names.
pub struct Terms {
    pub common_name: Seq<char>,
    pub key_usages: Set<KeyUsage>,
    pub extended_usages: Seq<ExtendedUsage>,
}

/// What the terms of a request are.
pub open spec fn terms_of(request: CertificateRequest) -> Terms {
    Terms {
        common_name: request.common_name@,
        key_usages: request.key_usages@.to_set(),
        extended_usages: request.extended_usages@,
    }
}

/// What the parameters of a certificate say of its subject.
pub uninterp spec fn described(params: CertificateParams) -> Terms;

/// What a certificate says of its subject.
pub uninterp spec fn certificate_terms(der: Seq<u8>) -> Terms;

/// How many further CAs may stand in a row under the CA that a certificate is of, where
/// it is one and their number is limited.
pub uninterp spec fn path_len(der: Seq<u8>) -> Option<u8>;

/// Whether a certificate is for a key, given by its public half, and signed with
/// another one.
pub uninterp spec fn attests(der: Seq<u8>, key: Seq<u8>, signer: Seq<u8>) -> bool;

/// The public half of the key that an issuer signs with.
pub uninterp spec fn issuer_key(issuer: Issuer<'static, KeyPair>) -> Seq<u8>;

/// Why no certificate can be issued under a CA certificate, if so.
pub uninterp spec fn issuer_fault(ca_pem: Seq<char>) -> Option<Seq<char>>;

/// `rcgen::CertificateParams::default`, with the name and the usages of a request.
#[verifier::external_body]
fn describe(request: &CertificateRequest) -> (r: CertificateParams)
    ensures
        described(r) == terms_of(*request),
{
    let mut params = CertificateParams::default();
    params.distinguished_name = rcgen::DistinguishedName::new();
    params.distinguished_name.push(rcgen::DnType::CommonName, request.common_name.as_str());
    params.key_usages = request.key_usages.iter().map(|u| match u {
        KeyUsage::KeyCertSign => rcgen::KeyUsagePurpose::KeyCertSign,
        KeyUsage::CrlSign => rcgen::KeyUsagePurpose::CrlSign,
        KeyUsage::DigitalSignature => rcgen::KeyUsagePurpose::DigitalSignature,
    }).collect();
    params.extended_key_usages = request.extended_usages.iter().map(|u| match u {
        ExtendedUsage::ServerAuth => rcgen::ExtendedKeyUsagePurpose::ServerAuth,
        ExtendedUsage::ClientAuth => rcgen::ExtendedKeyUsagePurpose::ClientAuth,
    }).collect();
    params
}

/// Whether a PEM text is this single certificate, which says this of its validity
/// and its alternative names.
pub open spec fn writes(pem: Seq<char>, der: Seq<u8>, info: InfoView) -> bool {
    &&& pki::certificate_info(der) == Ok::<InfoView, Seq<char>>(info)
    &&& pki::pem_certificates(encode_utf8(pem)) == seq![Ok::<Seq<u8>, Seq<char>>(der)]
}

/// `rcgen::CertificateParams::self_signed`: a CA certificate under which as many
/// further CAs may stand in a row, as PEM. It says of its subject what the parameters
/// do, is for the key and signed with it, is valid between the given times and names no
/// alternative subject. Whether it can be made is left unsaid.
#[verifier::external_body]
fn sign_ca(params: CertificateParams, further: u8, validity: (i64, i64), key: &KeyPair) -> (r:
    Result<String, String>)
    requires
        FIRST_TIME <= validity.0 <= LAST_TIME,
        FIRST_TIME <= validity.1 <= LAST_TIME,
    ensures
        r is Ok ==> exists|der: Seq<u8>|
            {
                &&& #[trigger] writes(
                    r->Ok_0@,
                    der,
                    (InfoView {
                        not_before: validity.0,
                        not_after: validity.1,
                        names: Ok(Seq::empty()),
                    }),
                )
                &&& certificate_terms(der) == described(params)
                &&& path_len(der) == Some(further)
                &&& attests(der, pki::public_key(*key), pki::public_key(*key))
            },
{
    let mut params = params;
    params.is_ca = rcgen::IsCa::Ca(rcgen::BasicConstraints::Constrained(further));
    params.subject_alt_names = Vec::new();
    let time = |t: i64| time::OffsetDateTime::from_unix_timestamp(t).map_err(|e| e.to_string());
    params.not_before = time(validity.0)?;
    params.not_after = time(validity.1)?;
    Ok(params.self_signed(key).map_err(|e| e.to_string())?.pem())
}

/// A validity period and two alternative names: a DNS name and a URI.
pub open spec fn named_info(
    not_before: i64,
    not_after: i64,
    dns: Seq<char>,
    uri: Seq<char>,
) -> InfoView {
    InfoView {
        not_before,
        not_after,
        names: Ok(seq![AltNameView::Dns(dns), AltNameView::Uri(uri)]),
    }
}

/// `rcgen::Issuer::from_ca_cert_pem`: what signs certificates under a CA, with its
/// key.
#[verifier::external_body]
fn read_issuer(ca_pem: &str, key: KeyPair) -> (r: Result<Issuer<'static, KeyPair>, String>)
    ensures
        match r {
            Ok(issuer) => issuer_fault(ca_pem@) is None && issuer_key(issuer) == pki::public_key(
                key,
            ),
            Err(e) => issuer_fault(ca_pem@) == Some(e@),
        },
{
    Issuer::from_ca_cert_pem(ca_pem, key).map_err(|e| e.to_string())
}

/// `rcgen::CertificateParams::signed_by`: a certificate as PEM. It says of its
/// subject what the parameters do, is for the key and signed with that of the
/// issuer, is valid between the given times, and its subject has the DNS name and the
/// URI as its alternative names, in this order. Whether it can be made is left unsaid.
#[verifier::external_body]
fn sign_leaf(
    params: CertificateParams,
    names: (&str, &str),
    validity: (i64, i64),
    key: &KeyPair,
    issuer: &Issuer<'static, KeyPair>,
) -> (r: Result<String, String>)
    requires
        FIRST_TIME <= validity.0 <= LAST_TIME,
        FIRST_TIME <= validity.1 <= LAST_TIME,
    ensures
        r is Ok ==> exists|der: Seq<u8>|
            {
                &&& #[trigger] writes(
                    r->Ok_0@,
                    der,
                    named_info(validity.0, validity.1, names.0@, names.1@),
                )
                &&& certificate_terms(der) == described(params)
                &&& attests(der, pki::public_key(*key), issuer_key(*issuer))
            },
{
    let mut params = params;
    let dns = names.0.try_into().map_err(|e: rcgen::Error| e.to_string())?;
    let uri = names.1.try_into().map_err(|e: rcgen::Error| e.to_string())?;
    params.subject_alt_names = vec![SanType::DnsName(dns), SanType::URI(uri)];
    let time = |t: i64| time::OffsetDateTime::from_unix_timestamp(t).map_err(|e| e.to_string());
    params.not_before = time(validity.0)?;
    params.not_after = time(validity.1)?;
    Ok(params.signed_by(key, issuer).map_err(|e| e.to_string())?.pem())
}

/// The first and the last day of a mesh CA: 2024 and 2044, each on January 1st.
pub const CA_NOT_BEFORE: i64 = 1_704_067_200;

pub const CA_NOT_AFTER: i64 = 2_335_219_200;

/// No further CA may stand under a mesh CA.
pub const CA_PATH_LEN: u8 = 0;

/// What the certificate of a mesh CA says.
pub fn ca_request(common_name: &str) -> (r: CertificateRequest)
    ensures
        r.common_name@ == common_name@,
        r.key_usages@ == seq![
            KeyUsage::KeyCertSign,
            KeyUsage::CrlSign,
            KeyUsage::DigitalSignature,
        ],
        r.extended_usages@.len() == 0,
        r.not_before == CA_NOT_BEFORE,
        r.not_after == CA_NOT_AFTER,
{
    let mut key_usages: Vec<KeyUsage> = Vec::new();
    key_usages.push(KeyUsage::KeyCertSign);
    key_usages.push(KeyUsage::CrlSign);
    key_usages.push(KeyUsage::DigitalSignature);
    assert(key_usages@ =~= seq![
        KeyUsage::KeyCertSign,
        KeyUsage::CrlSign,
        KeyUsage::DigitalSignature,
    ]);
    CertificateRequest {
        common_name: common_name.to_owned(),
        key_usages,
        extended_usages: Vec::new(),
        not_before: CA_NOT_BEFORE,
        not_after: CA_NOT_AFTER,
    }
}

/// The terms of a mesh CA.
pub open spec fn ca_terms(common_name: Seq<char>) -> Terms {
    Terms {
        common_name,
        key_usages: seq![
            KeyUsage::KeyCertSign,
            KeyUsage::CrlSign,
            KeyUsage::DigitalSignature,
        ].to_set(),
        extended_usages: Seq::empty(),
    }
}

/// Whether a certificate and a key, both as PEM, are a mesh CA of this name.
pub open spec fn is_mesh_ca(cert: Seq<char>, key: Seq<char>, common_name: Seq<char>) -> bool {
    let info = InfoView {
        not_before: CA_NOT_BEFORE,
        not_after: CA_NOT_AFTER,
        names: Ok(Seq::empty()),
    };
    &&& pki::pem_key(key) is Ok
    &&& exists|der: Seq<u8>|
        {
            &&& #[trigger] writes(cert, der, info)
            &&& certificate_terms(der) == ca_terms(common_name)
            &&& path_len(der) == Some(CA_PATH_LEN)
            &&& attests(der, pki::pem_key(key)->Ok_0, pki::pem_key(key)->Ok_0)
        }
}

/// Generate a mesh CA; returns (certificate PEM, private key PEM).
pub fn generate_ca(common_name: &str) -> (r: Result<(String, String), String>)
    ensures
        r is Ok ==> is_mesh_ca(r->Ok_0.0@, r->Ok_0.1@, common_name@),
{
    let key: KeyPair = match new_key() {
        Ok(key) => key,
        Err(e) => {
            return Err(e);
        },
    };
    let request: CertificateRequest = ca_request(common_name);
    assert(terms_of(request) == ca_terms(common_name@)) by {
        assert(request.extended_usages@ =~= Seq::<ExtendedUsage>::empty());
    }
    let validity: (i64, i64) = (request.not_before, request.not_after);
    match sign_ca(describe(&request), CA_PATH_LEN, validity, &key) {
        Ok(cert) => Ok((cert, key_pem(&key))),
        Err(e) => Err(e),
    }
}

/// Whether a request is that of an Edge, from one hour before `now` on.
pub open spec fn is_edge_request(
    r: CertificateRequest,
    edge_id: Seq<char>,
    validity_days: u32,
    now: int,
) -> bool {
    &&& r.common_name@ == "sievetube edge "@ + edge_id
    &&& r.key_usages@ == seq![KeyUsage::DigitalSignature]
    &&& r.extended_usages@ == seq![ExtendedUsage::ServerAuth, ExtendedUsage::ClientAuth]
    &&& r.not_before == now - 3600
    &&& r.not_after == now + validity_days * 86400
}

/// What the certificate of an Edge says, from one hour before `now` on.
pub fn edge_request(edge_id: &str, validity_days: u32, now: i64) -> (r: CertificateRequest)
    requires
        0 <= now <= LAST_TIME,
    ensures
        is_edge_request(r, edge_id@, validity_days, now as int),
{
    let mut key_usages: Vec<KeyUsage> = Vec::new();
    key_usages.push(KeyUsage::DigitalSignature);
    assert(key_usages@ =~= seq![KeyUsage::DigitalSignature]);
    let mut extended_usages: Vec<ExtendedUsage> = Vec::new();
    extended_usages.push(ExtendedUsage::ServerAuth);
    extended_usages.push(ExtendedUsage::ClientAuth);
    assert(extended_usages@ =~= seq![ExtendedUsage::ServerAuth, ExtendedUsage::ClientAuth]);
    CertificateRequest {
        common_name: "sievetube edge ".to_owned().concat(edge_id),
        key_usages,
        extended_usages,
        not_before: now - 3600,
        not_after: now + validity_days as i64 * 86400,
    }
}

/// What the certificate of an Edge says that is issued at the time `now`, or why none
/// can be: a certificate can name no time beyond the year 9999.
pub fn edge_request_at(edge_id: &str, validity_days: u32, now: u64) -> (r: Result<
    CertificateRequest,
    String,
>)
    ensures
        if now > LAST_TIME {
            r is Err && r->Err_0@ == "the clock is out of range"@
        } else if now + validity_days * 86400 > LAST_TIME {
            r is Err && r->Err_0@ == "the validity period is out of range"@
        } else {
            r is Ok && is_edge_request(r->Ok_0, edge_id@, validity_days, now as int)
        },
{
    if now > 253_402_300_799 {
        return Err("the clock is out of range".to_owned());
    }
    let request: CertificateRequest = edge_request(edge_id, validity_days, now as i64);
    if request.not_after > LAST_TIME {
        return Err("the validity period is out of range".to_owned());
    }
    Ok(request)
}

/// The URI that names an Edge in a certificate.
pub open spec fn edge_uri(edge_id: Seq<char>) -> Seq<char> {
    edge_uri_prefix() + edge_id
}

proof fn lemma_edge_names(edge_id: Seq<char>, dns: Seq<char>)
    ensures
        edge_ids(seq![AltNameView::Dns(dns), AltNameView::Uri(edge_uri(edge_id))]) == seq![edge_id],
{
    let names = seq![AltNameView::Dns(dns), AltNameView::Uri(edge_uri(edge_id))];
    assert(names.drop_last() =~= seq![AltNameView::Dns(dns)]);
    assert(names.drop_last().drop_last() =~= Seq::<AltNameView>::empty());
    reveal_with_fuel(edge_ids, 3);
    assert(edge_uri(edge_id).take(edge_uri_prefix().len() as int) =~= edge_uri_prefix());
    assert(edge_uri(edge_id).skip(edge_uri_prefix().len() as int) =~= edge_id);
    assert(edge_ids(names) =~= seq![edge_id]);
}

/// The terms of an Edge.
pub open spec fn edge_terms(edge_id: Seq<char>) -> Terms {
    Terms {
        common_name: "sievetube edge "@ + edge_id,
        key_usages: seq![KeyUsage::DigitalSignature].to_set(),
        extended_usages: seq![ExtendedUsage::ServerAuth, ExtendedUsage::ClientAuth],
    }
}

/// Whether a certificate binds exactly this Edge ID to a key, for so many seconds,
/// signed with another key.
pub open spec fn der_binds(
    der: Seq<u8>,
    info: InfoView,
    edge_id: Seq<char>,
    secs: int,
    key: Seq<u8>,
    signer: Seq<u8>,
) -> bool {
    &&& info.names == Ok::<Seq<AltNameView>, Seq<char>>(
        seq![AltNameView::Dns(server_name_of(edge_id)), AltNameView::Uri(edge_uri(edge_id))],
    )
    &&& info.not_after - info.not_before == secs
    &&& certificate_terms(der) == edge_terms(edge_id)
    &&& attests(der, key, signer)
}

/// Whether a PEM text is a certificate that binds exactly this Edge ID to a key, for
/// so many seconds, signed with another key.
pub open spec fn binds(
    cert: Seq<char>,
    edge_id: Seq<char>,
    secs: int,
    key: Seq<u8>,
    signer: Seq<u8>,
) -> bool {
    exists|der: Seq<u8>, info: InfoView| #[trigger]
        writes(cert, der, info) && der_binds(der, info, edge_id, secs, key, signer)
}

/// Why no certificate is issued, as far as what is given decides.
pub open spec fn issue_fault(
    ca_cert: Seq<char>,
    ca_key: Seq<char>,
    edge_id: Seq<char>,
) -> Option<Seq<char>> {
    if !is_edge_id(edge_id) {
        Some(bad_edge_id(edge_id))
    } else if pki::pem_key(ca_key) is Err {
        Some("invalid CA key: "@ + pki::pem_key(ca_key)->Err_0)
    } else if issuer_fault(ca_cert) is Some {
        Some("invalid CA certificate: "@ + issuer_fault(ca_cert)->0)
    } else {
        None
    }
}

/// Issue an Edge certificate signed by the mesh CA; returns (certificate PEM, key
/// PEM). The certificate binds exactly this Edge ID to the key.
pub fn issue_edge_cert(
    ca_cert_pem: &str,
    ca_key_pem: &str,
    edge_id: &str,
    validity_days: u32,
) -> (r: Result<(String, String), String>)
    ensures
        match r {
            Ok((cert, key)) => {
                &&& issue_fault(ca_cert_pem@, ca_key_pem@, edge_id@) is None
                &&& pki::pem_key(key@) is Ok
                &&& binds(
                    cert@,
                    edge_id@,
                    3600 + validity_days * 86400,
                    pki::pem_key(key@)->Ok_0,
                    pki::pem_key(ca_key_pem@)->Ok_0,
                )
            },
            Err(e) => match issue_fault(ca_cert_pem@, ca_key_pem@, edge_id@) {
                Some(fault) => e@ == fault,
                None => true,
            },
        },
{
    if let Err(e) = validate_edge_id(edge_id) {
        return Err(e);
    }
    let ca_key: KeyPair = match read_key(ca_key_pem) {
        Ok(key) => key,
        Err(e) => {
            return Err("invalid CA key: ".to_owned().concat(e.as_str()));
        },
    };
    let issuer: Issuer<'static, KeyPair> = match read_issuer(ca_cert_pem, ca_key) {
        Ok(issuer) => issuer,
        Err(e) => {
            return Err("invalid CA certificate: ".to_owned().concat(e.as_str()));
        },
    };
    let key: KeyPair = match new_key() {
        Ok(key) => key,
        Err(e) => {
            return Err(e);
        },
    };
    let request: CertificateRequest = match edge_request_at(
        edge_id,
        validity_days,
        unix_time(),
    ) {
        Ok(request) => request,
        Err(e) => {
            return Err(e);
        },
    };
    let dns: String = server_name(edge_id);
    let uri: String = "sievetube-edge://".to_owned().concat(edge_id);
    match sign_leaf(
        describe(&request),
        (dns.as_str(), uri.as_str()),
        (request.not_before, request.not_after),
        &key,
        &issuer,
    ) {
        Ok(cert) => {
            let key_text: String = key_pem(&key);
            proof {
                let info = named_info(request.not_before, request.not_after, dns@, uri@);
                let der = choose|der: Seq<u8>|
                    {
                        &&& #[trigger] writes(cert@, der, info)
                        &&& certificate_terms(der) == terms_of(request)
                        &&& attests(der, pki::public_key(key), issuer_key(issuer))
                    };
                assert(der_binds(
                    der,
                    info,
                    edge_id@,
                    3600 + validity_days * 86400,
                    pki::public_key(key),
                    issuer_key(issuer),
                ));
            }
            Ok((cert, key_text))
        },
        Err(e) => Err(e),
    }
}

/// The certificate that is issued for an Edge is one that this Edge's credentials
/// accept: its leaf names exactly the Edge ID.
pub proof fn law_issued_certificate_binds_the_edge_id(
    cert: Seq<char>,
    edge_id: Seq<char>,
    secs: int,
    key: Seq<u8>,
    signer: Seq<u8>,
)
    requires
        binds(cert, edge_id, secs, key, signer),
    ensures
        pki::pem_chain(encode_utf8(cert)) is Ok,
        pki::pem_chain(encode_utf8(cert))->Ok_0.len() == 1,
        ids_of(pki::certificate_info(pki::pem_chain(encode_utf8(cert))->Ok_0[0])) == seq![edge_id],
{
    let (der, info) = choose|der: Seq<u8>, info: InfoView| #[trigger]
        writes(cert, der, info) && der_binds(der, info, edge_id, secs, key, signer);
    let sections = pki::pem_certificates(encode_utf8(cert));
    lemma_edge_names(edge_id, server_name_of(edge_id));
    reveal_with_fuel(pki::first_bad, 2);
    assert(pki::first_bad(sections, 0) is None);
    assert(pki::good_sections(sections)[0] == der);
}

/// An Edge's name is 1 to 63 small letters, digits and hyphens, with no hyphen at either end,
/// and is the first label of the name that its certificate is for.
pub proof fn law_edge_names_are_labels(
    id: &str,
    r: Result<(), String>,
    name: String,
)
    requires
        call_ensures(validate_edge_id, (id,), r),
        call_ensures(server_name, (id,), name),
    ensures
        r is Ok == (1 <= id@.len() <= 63 && (forall|i: int|
            0 <= i < id@.len() ==> 'a' <= (#[trigger] id@[i]) <= 'z' || '0' <= id@[i] <= '9'
                || id@[i] == '-') && id@[0] != '-' && id@.last() != '-'),
        name@ == id@ + ".mesh.sievetube.internal"@,
{
    assert((forall|i: int|
        0 <= i < id@.len() ==> 'a' <= (#[trigger] id@[i]) <= 'z' || '0' <= id@[i] <= '9' || id@[i]
            == '-') == (forall|i: int| 0 <= i < id@.len() ==> edge_id_char(#[trigger] id@[i])));
    reveal_strlit(".");
    reveal_strlit("mesh.sievetube.internal");
    reveal_strlit(".mesh.sievetube.internal");
    assert("."@ + "mesh.sievetube.internal"@ =~= ".mesh.sievetube.internal"@);
    assert(name@ =~= id@ + ("."@ + "mesh.sievetube.internal"@));
}

/// A certificate names an Edge by each address of it that is an alternative name, and by
/// nothing else; one that cannot be read names none.
pub proof fn law_certificates_name_edges_by_address(
    fewer: CertificateInfo,
    info: CertificateInfo,
    name: AltName,
    id: Seq<char>,
    less: Vec<String>,
    r: Vec<String>,
    why: String,
    none: Vec<String>,
)
    requires
        fewer.names is Ok && info.names is Ok,
        info.names->Ok_0@ == fewer.names->Ok_0@.push(name),
        call_ensures(edge_ids_from_info, (&Ok::<CertificateInfo, String>(fewer),), less),
        call_ensures(edge_ids_from_info, (&Ok::<CertificateInfo, String>(info),), r),
        call_ensures(edge_ids_from_info, (&Err::<CertificateInfo, String>(why),), none),
    ensures
        none@.len() == 0,
        fewer.names->Ok_0@.len() == 0 ==> less@.len() == 0,
        !(name is Uri) ==> text::views(r@) == text::views(less@),
        name matches AltName::Uri(uri) ==> (uri@ == "sievetube-edge://"@ + id ==> text::views(r@)
            == text::views(less@).push(id)),
        name matches AltName::Uri(uri) ==> (!text::starts_with(uri@, "sievetube-edge://"@)
            ==> text::views(r@) == text::views(less@)),
{
    let before = pki::alt_views(fewer.names->Ok_0@);
    let all = pki::alt_views(info.names->Ok_0@);
    assert(all =~= before.push(name@));
    assert(all.drop_last() =~= before);
    assert(text::views(none@).len() == none@.len());
    assert(text::views(less@).len() == less@.len());
    let prefix = "sievetube-edge://"@;
    if let AltName::Uri(uri) = name {
        if uri@ == prefix + id {
            assert(uri@.take(prefix.len() as int) =~= prefix);
            assert(uri@.skip(prefix.len() as int) =~= id);
        }
    }
}

/// An identity is for the Edge that it was loaded for: that has a proper name, and the first
/// certificate of the chain names that Edge and no other.
pub proof fn law_identities_are_for_their_edge(
    id: &str,
    ca_path: &str,
    ca_pem: &[u8],
    cert_pem: &[u8],
    key_pem: &[u8],
    named: Result<(), String>,
    leaf: &[u8],
    ids: Vec<String>,
    r: Result<MeshIdentity, String>,
)
    requires
        call_ensures(MeshIdentity::load, (id, ca_path, ca_pem, cert_pem, key_pem), r),
        call_ensures(validate_edge_id, (id,), named),
        r is Ok ==> leaf@ == r->Ok_0.cert_chain@[0]@,
        call_ensures(edge_ids_from_cert, (leaf,), ids),
    ensures
        named is Err ==> r is Err,
        r matches Ok(i) ==> i.edge_id@ == id@ && i.cert_chain@.len() > 0 && ids@.len() == 1
            && ids@[0]@ == id@,
{
    if r is Ok {
        let chain = pki::chain_views(r->Ok_0.cert_chain@);
        assert(chain.len() == r->Ok_0.cert_chain@.len());
        assert(chain[0] == leaf@);
        let views = text::views(ids@);
        assert(views == seq![id@]);
        assert(views.len() == ids@.len());
        assert(views[0] == ids@[0]@);
    }
}

/// An Edge's certificate is requested for both ends of a connection, from an hour ago and for
/// the days asked for; a CA's for signing. Times that no certificate can hold are refused.
pub proof fn law_requests_say_what_they_are_for(
    id: &str,
    days: u32,
    now: u64,
    r: Result<CertificateRequest, String>,
    common_name: &str,
    ca: CertificateRequest,
)
    requires
        call_ensures(edge_request_at, (id, days, now), r),
        call_ensures(ca_request, (common_name,), ca),
    ensures
        r is Ok == (now + days * 86400 <= 253_402_300_799),
        r matches Ok(q) ==> {
            &&& q.not_before == now - 3600
            &&& q.not_after == now + days * 86400
            &&& q.common_name@ == "sievetube edge "@ + id@
            &&& q.extended_usages@.contains(ExtendedUsage::ServerAuth)
            &&& q.extended_usages@.contains(ExtendedUsage::ClientAuth)
            &&& !q.key_usages@.contains(KeyUsage::KeyCertSign)
        },
        ca.common_name@ == common_name@,
        ca.key_usages@.contains(KeyUsage::KeyCertSign),
        ca.extended_usages@.len() == 0,
        ca.not_before < ca.not_after,
{
    if r is Ok {
        let q = r->Ok_0;
        assert(q.extended_usages@[0] == ExtendedUsage::ServerAuth);
        assert(q.extended_usages@[1] == ExtendedUsage::ClientAuth);
    }
    assert(ca.key_usages@[0] == KeyUsage::KeyCertSign);
}

/// No certificate is issued for a name that is no Edge's, and none without the CA's key and
/// certificate.
pub proof fn law_certificates_need_a_name_and_a_ca(
    ca_cert: &str,
    ca_key: &str,
    id: &str,
    days: u32,
    named: Result<(), String>,
    r: Result<(String, String), String>,
)
    requires
        call_ensures(issue_edge_cert, (ca_cert, ca_key, id, days), r),
        call_ensures(validate_edge_id, (id,), named),
    ensures
        named is Err || pki::pem_key(ca_key@) is Err || issuer_fault(ca_cert@) is Some ==> r is Err,
        named is Err ==> r->Err_0@ == named->Err_0@,
{
}

} // verus!
