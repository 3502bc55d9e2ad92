//! Certificates and keys: how they are read and written.

use rcgen::KeyPair;
use rustls::RootCertStore;
use vstd::prelude::*;
use vstd::string::*;
use x509_parser::extensions::GeneralName;
use crate::text;

verus! {

#[verifier::external_type_specification]
#[verifier::external_body]
pub struct ExRootCertStore(RootCertStore);

/// The certificates that stand in a PEM text, in order: each as DER, or what is
/// wrong with its section.
pub uninterp spec fn pem_certificates(pem: Seq<u8>) -> Seq<Result<Seq<u8>, Seq<char>>>;

/// A list of sections by the values that it holds.
pub open spec fn section_views(v: Seq<Result<Vec<u8>, String>>) -> Seq<
    Result<Seq<u8>, Seq<char>>,
> {
    v.map_values(
        |r: Result<Vec<u8>, String>|
            match r {
                Ok(der) => Ok(der@),
                Err(e) => Err(e@),
            },
    )
}

/// `rustls_pemfile::certs`, walked to its end: the certificates of a PEM text.
#[verifier::external_body]
pub(crate) fn read_certificates(pem: &[u8]) -> (r: Vec<Result<Vec<u8>, String>>)
    ensures
        section_views(r@) == pem_certificates(pem@),
{
    let mut reader = pem;
    rustls_pemfile::certs(&mut reader).map(
        |c| c.map(|der| der.as_ref().to_vec()).map_err(|e| e.to_string()),
    ).collect()
}

/// The certificates that a root store was given, in order.
pub uninterp spec fn anchors(store: RootCertStore) -> Seq<Seq<u8>>;

/// Why a certificate cannot be trusted as a root, if so.
pub uninterp spec fn anchor_fault(der: Seq<u8>) -> Option<Seq<char>>;

/// `RootCertStore::empty`: a store without certificates.
pub assume_specification[ RootCertStore::empty ]() -> (r: RootCertStore)
    ensures
        anchors(r) == Seq::<Seq<u8>>::empty(),
;

/// `RootCertStore::is_empty`: whether no certificate was added.
pub assume_specification[ RootCertStore::is_empty ](store: &RootCertStore) -> (r: bool)
    ensures
        r == (anchors(*store).len() == 0),
;

/// `RootCertStore::add`: the certificate is added, unless it cannot be read.
#[verifier::external_body]
pub(crate) fn add_root(store: &mut RootCertStore, der: &Vec<u8>) -> (r: Result<(), String>)
    ensures
        match r {
            Ok(_) => anchor_fault(der@) is None && anchors(*final(store)) == anchors(
                *old(store),
            ).push(der@),
            Err(e) => anchor_fault(der@) == Some(e@) && anchors(*final(store)) == anchors(
                *old(store),
            ),
        },
{
    store.add(rustls::pki_types::CertificateDer::from(der.clone())).map_err(|e| e.to_string())
}

/// Whether a text is a name or an address that a TLS certificate can be
/// verified against.
pub uninterp spec fn is_server_name(s: Seq<char>) -> bool;

/// `ServerName::try_from`: whether it accepts the text.
#[verifier::external_body]
pub(crate) fn valid_server_name(s: &str) -> (r: bool)
    ensures
        r == is_server_name(s@),
{
    rustls::pki_types::ServerName::try_from(s).is_ok()
}

/// How a private key is written.
#[derive(Debug, Clone, Copy, PartialEq, Eq, Structural)]
pub enum KeyFormat {
    Pkcs1,
    Sec1,
    Pkcs8,
}

/// A private key.
#[derive(PartialEq, Eq)]
pub struct PrivateKey {
    pub format: KeyFormat,
    pub der: Vec<u8>,
}

/// A [`PrivateKey`] by the values that it holds.
pub struct KeyView {
    pub format: KeyFormat,
    pub der: Seq<u8>,
}

impl View for PrivateKey {
    type V = KeyView;

    open spec fn view(&self) -> KeyView {
        KeyView { format: self.format, der: self.der@ }
    }
}

/// The first private key that stands in a PEM text, or what is wrong with it.
pub uninterp spec fn pem_private_key(pem: Seq<u8>) -> Result<Option<KeyView>, Seq<char>>;

/// What reading a private key gave, by values.
pub open spec fn key_result(r: Result<Option<PrivateKey>, String>) -> Result<
    Option<KeyView>,
    Seq<char>,
> {
    match r {
        Ok(Some(k)) => Ok(Some(k@)),
        Ok(None) => Ok(None),
        Err(e) => Err(e@),
    }
}

/// `rustls_pemfile::private_key`: the first private key of a PEM text.
#[verifier::external_body]
pub(crate) fn read_private_key(pem: &[u8]) -> (r: Result<Option<PrivateKey>, String>)
    ensures
        key_result(r) == pem_private_key(pem@),
{
    let mut reader = pem;
    let key = rustls_pemfile::private_key(&mut reader).map_err(|e| e.to_string())?;
    Ok(key.map(|key| match key {
        rustls::pki_types::PrivateKeyDer::Pkcs1(k) => PrivateKey {
            format: KeyFormat::Pkcs1,
            der: k.secret_pkcs1_der().to_vec(),
        },
        rustls::pki_types::PrivateKeyDer::Sec1(k) => PrivateKey {
            format: KeyFormat::Sec1,
            der: k.secret_sec1_der().to_vec(),
        },
        other => PrivateKey { format: KeyFormat::Pkcs8, der: other.secret_der().to_vec() },
    }))
}

/// Byte strings by what they hold.
pub open spec fn chain_views(chain: Seq<Vec<u8>>) -> Seq<Seq<u8>> {
    chain.map_values(|c: Vec<u8>| c@)
}

/// Why a chain and a key cannot be used together, if so.
pub uninterp spec fn key_pair_fault(chain: Seq<Seq<u8>>, key: KeyView) -> Option<Seq<char>>;

/// `rustls::sign::CertifiedKey::from_der`, with the cryptography of `ring`: whether
/// a chain and a key can be used together.
#[verifier::external_body]
pub(crate) fn check_key_pair(chain: &Vec<Vec<u8>>, key: &PrivateKey) -> (r: Option<String>)
    ensures
        text::opt_view(r) == key_pair_fault(chain_views(chain@), key@),
{
    let chain = chain.iter().map(|c| rustls::pki_types::CertificateDer::from(c.clone())).collect();
    let der = key.der.clone();
    let key = match key.format {
        KeyFormat::Pkcs1 => rustls::pki_types::PrivatePkcs1KeyDer::from(der).into(),
        KeyFormat::Sec1 => rustls::pki_types::PrivateSec1KeyDer::from(der).into(),
        KeyFormat::Pkcs8 => rustls::pki_types::PrivatePkcs8KeyDer::from(der).into(),
    };
    let provider = rustls::crypto::ring::default_provider();
    rustls::sign::CertifiedKey::from_der(chain, key, &provider).err().map(|e| e.to_string())
}

/// An alternative name of the subject of a certificate.
#[derive(Debug, PartialEq, Eq)]
pub enum AltName {
    Dns(String),
    Uri(String),
    Other,
}

/// An [`AltName`] by the text that it holds.
pub enum AltNameView {
    Dns(Seq<char>),
    Uri(Seq<char>),
    Other,
}

impl View for AltName {
    type V = AltNameView;

    open spec fn view(&self) -> AltNameView {
        match *self {
            AltName::Dns(s) => AltNameView::Dns(s@),
            AltName::Uri(s) => AltNameView::Uri(s@),
            AltName::Other => AltNameView::Other,
        }
    }
}

pub open spec fn alt_views(names: Seq<AltName>) -> Seq<AltNameView> {
    names.map_values(|n: AltName| n@)
}

/// What is read of a certificate.
#[derive(Debug)]
pub struct CertificateInfo {
    /// Unix times between which the certificate is valid
    pub not_before: i64,
    pub not_after: i64,
    /// The alternative names of the subject, or what is wrong with them
    pub names: Result<Vec<AltName>, String>,
}

/// A [`CertificateInfo`] by the values that it holds.
pub struct InfoView {
    pub not_before: i64,
    pub not_after: i64,
    pub names: Result<Seq<AltNameView>, Seq<char>>,
}

impl View for CertificateInfo {
    type V = InfoView;

    open spec fn view(&self) -> InfoView {
        InfoView {
            not_before: self.not_before,
            not_after: self.not_after,
            names: match self.names {
                Ok(names) => Ok(alt_views(names@)),
                Err(e) => Err(e@),
            },
        }
    }
}

/// What a certificate says, or why it cannot be read.
pub uninterp spec fn certificate_info(der: Seq<u8>) -> Result<InfoView, Seq<char>>;

/// What reading a certificate gave, by values.
pub open spec fn info_result(r: Result<CertificateInfo, String>) -> Result<InfoView, Seq<char>> {
    match r {
        Ok(i) => Ok(i@),
        Err(e) => Err(e@),
    }
}

/// `x509_parser::parse_x509_certificate`: what a certificate says of its validity
/// and of the alternative names of its subject, none where it has none.
#[verifier::external_body]
pub(crate) fn read_certificate(der: &[u8]) -> (r: Result<CertificateInfo, String>)
    ensures
        info_result(r) == certificate_info(der@),
{
    let (_, cert) = x509_parser::parse_x509_certificate(der).map_err(|e| e.to_string())?;
    let name = |n: &GeneralName| match n {
        GeneralName::DNSName(n) => AltName::Dns(n.to_string()),
        GeneralName::URI(u) => AltName::Uri(u.to_string()),
        _ => AltName::Other,
    };
    let names = match cert.subject_alternative_name() {
        Ok(Some(san)) => Ok(san.value.general_names.iter().map(name).collect()),
        Ok(None) => Ok(Vec::new()),
        Err(e) => Err(e.to_string()),
    };
    let validity = cert.validity();
    let (not_before, not_after) = (validity.not_before.timestamp(), validity.not_after.timestamp());
    Ok(CertificateInfo { not_before, not_after, names })
}

/// The first section from `from` on that cannot be read.
pub open spec fn first_bad(
    sections: Seq<Result<Seq<u8>, Seq<char>>>,
    from: int,
) -> Option<Seq<char>>
    decreases sections.len() - from,
{
    if from >= sections.len() {
        None
    } else {
        match sections[from] {
            Err(e) => Some(e),
            Ok(_) => first_bad(sections, from + 1),
        }
    }
}

/// The certificates of sections that can all be read.
pub open spec fn good_sections(sections: Seq<Result<Seq<u8>, Seq<char>>>) -> Seq<Seq<u8>> {
    sections.map_values(|r: Result<Seq<u8>, Seq<char>>| r->Ok_0)
}

/// The certificates of a PEM text, if all of them can be read.
pub open spec fn pem_chain(pem: Seq<u8>) -> Result<Seq<Seq<u8>>, Seq<char>> {
    match first_bad(pem_certificates(pem), 0) {
        Some(e) => Err(e),
        None => Ok(good_sections(pem_certificates(pem))),
    }
}

/// The certificates of a PEM text, or what is wrong with the first that cannot be
/// read.
pub fn read_chain(pem: &[u8]) -> (r: Result<Vec<Vec<u8>>, String>)
    ensures
        (match r {
            Ok(chain) => Ok(chain_views(chain@)),
            Err(e) => Err(e@),
        }) == pem_chain(pem@),
{
    let sections: Vec<Result<Vec<u8>, String>> = read_certificates(pem);
    let ghost all = section_views(sections@);
    let mut chain: Vec<Vec<u8>> = Vec::new();
    let mut i: usize = 0;
    assert(chain_views(chain@) =~= good_sections(all.take(0)));
    while i < sections.len()
        invariant
            i <= sections.len() == all.len(),
            all == section_views(sections@),
            first_bad(all, 0) == first_bad(all, i as int),
            chain_views(chain@) == good_sections(all.take(i as int)),
        decreases sections.len() - i,
    {
        let ghost before = chain_views(chain@);
        match &sections[i] {
            Err(e) => {
                return Err(e.clone());
            },
            Ok(der) => {
                assert(all[i as int] == Ok::<Seq<u8>, Seq<char>>(der@));
                let copy: Vec<u8> = vstd::slice::slice_to_vec(der.as_slice());
                chain.push(copy);
                assert(chain_views(chain@) =~= before.push(der@));
                assert(good_sections(all.take(i + 1)) =~= good_sections(all.take(i as int)).push(
                    der@,
                ));
            },
        }
        i += 1;
    }
    assert(all.take(i as int) =~= all);
    Ok(chain)
}

#[verifier::external_type_specification]
#[verifier::external_body]
pub struct ExKeyPair(KeyPair);

/// The public half of a key.
pub uninterp spec fn public_key(key: KeyPair) -> Seq<u8>;

/// The public half of the key that stands in a PEM text, or why there is none.
pub uninterp spec fn pem_key(pem: Seq<char>) -> Result<Seq<u8>, Seq<char>>;

/// `rcgen::KeyPair::generate`: a new key. It is random, so nothing is said of it.
#[verifier::external_body]
pub(crate) fn new_key() -> (r: Result<KeyPair, String>) {
    KeyPair::generate().map_err(|e| e.to_string())
}

/// `rcgen::KeyPair::from_pem`: the key of a PEM text.
#[verifier::external_body]
pub(crate) fn read_key(pem: &str) -> (r: Result<KeyPair, String>)
    ensures
        match r {
            Ok(key) => pem_key(pem@) == Ok::<Seq<u8>, Seq<char>>(public_key(key)),
            Err(e) => pem_key(pem@) == Err::<Seq<u8>, Seq<char>>(e@),
        },
{
    KeyPair::from_pem(pem).map_err(|e| e.to_string())
}

/// `rcgen::KeyPair::serialize_pem`: a key as PEM, which is read back as that key.
#[verifier::external_body]
pub(crate) fn key_pem(key: &KeyPair) -> (r: String)
    ensures
        (pem_key(r@) == Ok::<Seq<u8>, Seq<char>>(public_key(*key))),
{
    key.serialize_pem()
}

} // verus!
