//! The local CA certificate: its status for the front end, the checks made on
//! the files found on disk, and the pieces of installing it into the system
//! trust store on Linux.
use vstd::prelude::*;
use crate::text::chars_of;
use crate::replay::string_from_utf8;
use vstd::utf8::{decode_utf8, encode_utf8, valid_utf8};
use x509_parser::prelude::{FromDer, X509Certificate};
use vstd::string::StringSliceAdditionalSpecFns;

verus! {

broadcast use vstd::string::group_string_axioms;

pub open spec fn bytes_seqs(v: Seq<Vec<u8>>) -> Seq<Seq<u8>> {
    Seq::new(v.len(), |i: int| v[i]@)
}

/// The DER certificates that `rustls_pemfile::certs` finds in a PEM text, in
/// order; `None` where it reports an error.
pub uninterp spec fn pem_certs(pem: Seq<u8>) -> Option<Seq<Seq<u8>>>;

/// The DER PKCS#8 private keys that `rustls_pemfile::pkcs8_private_keys`
/// finds in a PEM text, in order; `None` where it reports an error.
pub uninterp spec fn pem_pkcs8_keys(pem: Seq<u8>) -> Option<Seq<Seq<u8>>>;

/// The message of the error `rustls_pemfile::certs` reports for a PEM text it
/// cannot read, as the error's `Display` writes it.
pub uninterp spec fn pem_certs_error(pem: Seq<u8>) -> Seq<char>;

/// The message of the error `rustls_pemfile::pkcs8_private_keys` reports for
/// a PEM text it cannot read, as the error's `Display` writes it.
pub uninterp spec fn pem_keys_error(pem: Seq<u8>) -> Seq<char>;

/// `rustls_pemfile::certs` on PEM bytes. Claimed: `Ok` exactly where the name
/// `pem_certs` is `Some`, with those certificates; else the reported error's
/// message, named `pem_certs_error`.
#[verifier::external_body]
fn read_pem_certs(pem: &[u8]) -> (r: Result<Vec<Vec<u8>>, String>)
    ensures
        r is Ok <==> pem_certs(pem@) is Some,
        r matches Ok(v) ==> pem_certs(pem@) == Some(bytes_seqs(v@)),
        r matches Err(m) ==> m@ == pem_certs_error(pem@),
{
    let mut reader: &[u8] = pem;
    rustls_pemfile::certs(&mut reader).map_err(|e| e.to_string())
}

/// `rustls_pemfile::pkcs8_private_keys` on PEM bytes. Claimed: `Ok` exactly
/// where the name `pem_pkcs8_keys` is `Some`, with those keys; else the
/// reported error's message, named `pem_keys_error`.
#[verifier::external_body]
fn read_pem_pkcs8_keys(pem: &[u8]) -> (r: Result<Vec<Vec<u8>>, String>)
    ensures
        r is Ok <==> pem_pkcs8_keys(pem@) is Some,
        r matches Ok(v) ==> pem_pkcs8_keys(pem@) == Some(bytes_seqs(v@)),
        r matches Err(m) ==> m@ == pem_keys_error(pem@),
{
    let mut reader: &[u8] = pem;
    rustls_pemfile::pkcs8_private_keys(&mut reader).map_err(|e| e.to_string())
}

/// `x509_parser::prelude::X509Certificate::from_der` succeeds on these bytes.
pub uninterp spec fn x509_parses(der: Seq<u8>) -> bool;

/// The subject of a parsed certificate, as its `Display` writes it.
pub uninterp spec fn x509_subject_text(der: Seq<u8>) -> Seq<char>;

/// The end of the validity of a parsed certificate, as
/// `not_after.to_datetime()` displays.
pub uninterp spec fn x509_not_after_text(der: Seq<u8>) -> Seq<char>;

/// The common names of a parsed certificate's subject, in order: the text of
/// each (`None` where `as_str` fails).
pub uninterp spec fn x509_common_names(der: Seq<u8>) -> Seq<Option<Seq<char>>>;

/// What the CA checks read of a parsed certificate.
pub struct CertFacts {
    /// The subject, as its `Display` writes it.
    pub subject: String,
    /// The end of validity, as `not_after.to_datetime()` displays.
    pub not_after: String,
    /// The text of each common name of the subject (`None` where `as_str` fails).
    pub common_names: Vec<Option<String>>,
}

/// Parses a DER certificate with `X509Certificate::from_der` and reads its
/// subject (displayed), the end of its validity
/// (`validity().not_after.to_datetime()`, displayed) and the text of the
/// common names of its subject (`iter_common_name`, `as_str`). Claimed:
/// `Some` exactly where the parse succeeds, with the names
/// `x509_subject_text`, `x509_not_after_text` and `x509_common_names`.
#[verifier::external_body]
fn x509_facts(der: &[u8]) -> (r: Option<CertFacts>)
    ensures
        r is Some <==> x509_parses(der@),
        r matches Some(f) ==> f.subject@ == x509_subject_text(der@) && f.not_after@ == x509_not_after_text(der@)
            && opt_texts(f.common_names@) == x509_common_names(der@),
{
    let (_, cert) = X509Certificate::from_der(der).ok()?;
    let mut common_names = Vec::new();
    for cn in cert.subject().iter_common_name() {
        common_names.push(cn.as_str().ok().map(|s| s.to_string()));
    }
    let subject = cert.subject().to_string();
    let not_after = cert.validity().not_after.to_datetime().to_string();
    Some(CertFacts { subject, not_after, common_names })
}

pub open spec fn opt_texts(v: Seq<Option<String>>) -> Seq<Option<Seq<char>>> {
    Seq::new(
        v.len(),
        |i: int|
            match v[i] {
                Some(s) => Some(s@),
                None => None,
            },
    )
}

/// The first certificate of a PEM text, if it reads and holds one.
pub open spec fn first_pem_cert(pem: Seq<u8>) -> Option<Seq<u8>> {
    match pem_certs(pem) {
        Some(certs) => if certs.len() > 0 {
            Some(certs[0])
        } else {
            None
        },
        None => None,
    }
}

/// The subject and the end of validity of the first certificate of a PEM
/// text; two empty texts when there is none or it does not parse.
pub open spec fn cert_info(pem: Seq<u8>) -> (Seq<char>, Seq<char>) {
    match first_pem_cert(pem) {
        Some(der) => if x509_parses(der) {
            (x509_subject_text(der), x509_not_after_text(der))
        } else {
            (Seq::<char>::empty(), Seq::<char>::empty())
        },
        None => (Seq::<char>::empty(), Seq::<char>::empty()),
    }
}

fn first_cert(pem: &[u8]) -> (r: Option<Vec<u8>>)
    ensures
        match r {
            Some(der) => first_pem_cert(pem@) == Some(der@),
            None => first_pem_cert(pem@) is None,
        },
{
    match read_pem_certs(pem) {
        Ok(certs) => {
            if certs.len() > 0 {
                let mut certs = certs;
                let der = certs.remove(0);
                Some(der)
            } else {
                None
            }
        },
        Err(_) => None,
    }
}

/// The subject and end of validity of the CA certificate in `pem`.
pub fn parse_cert_info(pem: &str) -> (r: (String, String))
    ensures
        (r.0@, r.1@) == cert_info(pem.spec_bytes()),
{
    let bytes = pem.as_bytes();
    match first_cert(bytes) {
        Some(der) => match x509_facts(der.as_slice()) {
            Some(facts) => (facts.subject, facts.not_after),
            None => (String::new(), String::new()),
        },
        None => (String::new(), String::new()),
    }
}

/// The state of the CA certificate shown by the front end.
pub struct CertStatus {
    pub exists: bool,
    pub path: String,
    pub subject: String,
    pub not_after: String,
    pub cert_pem: String,
}

/// The status of the CA certificate at `path`, given its PEM text (`None`
/// when the file does not exist): for an existing file its text, subject and
/// end of validity; else only the path.
pub fn cert_status(path: String, pem: Option<String>) -> (r: CertStatus)
    ensures
        r.exists == pem is Some,
        r.path@ == path@,
        match pem {
            Some(p) => r.cert_pem@ == p@ && (r.subject@, r.not_after@) == cert_info(encode_utf8(p@)),
            None => r.subject@.len() == 0 && r.not_after@.len() == 0 && r.cert_pem@.len() == 0,
        },
{
    match pem {
        Some(p) => {
            let (subject, not_after) = parse_cert_info(p.as_str());
            CertStatus { exists: true, path, subject, not_after, cert_pem: p }
        },
        None => CertStatus {
            exists: false,
            path,
            subject: String::new(),
            not_after: String::new(),
            cert_pem: String::new(),
        },
    }
}

/// The certificate is the application's own CA: its first PEM certificate
/// parses and one of its subject's common names reads `Flowly`.
pub open spec fn matches_brand(cert_file: Seq<u8>) -> bool {
    match first_pem_cert(cert_file) {
        Some(der) => x509_parses(der) && exists|i: int|
            0 <= i < x509_common_names(der).len() && #[trigger] x509_common_names(der)[i] == Some(
                "Flowly"@,
            ),
        None => false,
    }
}

fn is_flowly(s: &String) -> (r: bool)
    ensures
        r == (s@ == "Flowly"@),
{
    let c = chars_of(s.as_str());
    let f = chars_of("Flowly");
    if c.len() != f.len() {
        return false;
    }
    let mut i: usize = 0;
    while i < c.len()
        invariant
            c.len() == f.len(),
            c@ == s@,
            f@ == "Flowly"@,
            i <= c.len(),
            forall|k: int| 0 <= k < i ==> c@[k] == f@[k],
        decreases c.len() - i,
    {
        if c[i] != f[i] {
            assert(c@[i as int] != f@[i as int]);
            return false;
        }
        i = i + 1;
    }
    assert(c@ =~= f@);
    true
}

/// Whether the CA certificate file holds the application's own CA.
pub fn ca_cert_matches_brand(cert_file: &[u8]) -> (r: bool)
    ensures
        r == matches_brand(cert_file@),
{
    let der = match first_cert(cert_file) {
        Some(d) => d,
        None => return false,
    };
    let names = match x509_facts(der.as_slice()) {
        Some(facts) => facts.common_names,
        None => return false,
    };
    let mut i: usize = 0;
    while i < names.len()
        invariant
            i <= names@.len(),
            x509_parses(der@),
            first_pem_cert(cert_file@) == Some(der@),
            opt_texts(names@) == x509_common_names(der@),
            forall|k: int| 0 <= k < i ==> x509_common_names(der@)[k] != Some("Flowly"@),
        decreases names@.len() - i,
    {
        let hit = match &names[i] {
            Some(s) => is_flowly(s),
            None => false,
        };
        assert(hit == (x509_common_names(der@)[i as int] == Some("Flowly"@)));
        if hit {
            assert(x509_parses(der@));
            assert(0 <= i < x509_common_names(der@).len());
            assert(x509_common_names(der@)[i as int] == Some("Flowly"@));
            return true;
        }
        i = i + 1;
    }
    false
}

/// Whether a new CA has to be written before it is loaded: the certificate
/// or the key is missing, or the certificate is not the application's own.
pub fn needs_new_ca(cert_exists: bool, key_exists: bool, brand_matches: bool) -> (r: bool)
    ensures
        r == (!cert_exists || !key_exists || !brand_matches),
{
    !cert_exists || !key_exists || !brand_matches
}

/// Why a CA certificate operation was refused.
pub enum CertError {
    /// A certificate exists and regeneration was not forced.
    AlreadyExists,
    /// The private key file does not read as PKCS#8 PEM (the reader's message).
    KeyUnreadable(String),
    /// The private key file holds no key.
    KeyMissing,
    /// The certificate file does not read as PEM (the reader's message).
    CertUnreadable(String),
    /// The certificate file holds no certificate.
    CertMissing,
    /// The certificate file is not UTF-8 text.
    CertNotText,
}

/// Whether a CA may be generated: refused when one exists and regeneration
/// is not forced.
pub fn cert_generate_allowed(cert_exists: bool, force: bool) -> (r: Result<(), CertError>)
    ensures
        r is Ok <==> (!cert_exists || force),
        r is Err ==> r matches Err(CertError::AlreadyExists),
{
    if cert_exists && !force {
        Err(CertError::AlreadyExists)
    } else {
        Ok(())
    }
}

/// The first PKCS#8 private key of the key file.
pub fn select_private_key(key_file: &[u8]) -> (r: Result<Vec<u8>, CertError>)
    ensures
        pem_pkcs8_keys(key_file@) is None <==> r matches Err(CertError::KeyUnreadable(_)),
        r matches Err(CertError::KeyUnreadable(m)) ==> m@ == pem_keys_error(key_file@),
        (pem_pkcs8_keys(key_file@) matches Some(k) && k.len() == 0) <==> r matches Err(CertError::KeyMissing),
        r matches Ok(key) ==> pem_pkcs8_keys(key_file@) matches Some(k) && k.len() > 0 && k[0] == key@,
{
    match read_pem_pkcs8_keys(key_file) {
        Ok(keys) => {
            if keys.len() == 0 {
                return Err(CertError::KeyMissing);
            }
            let mut keys = keys;
            Ok(keys.remove(0))
        },
        Err(e) => Err(CertError::KeyUnreadable(e)),
    }
}

/// The first certificate of the certificate file, and the file as text.
pub fn select_ca_certificate(cert_file: Vec<u8>) -> (r: Result<(Vec<u8>, String), CertError>)
    ensures
        pem_certs(cert_file@) is None <==> r matches Err(CertError::CertUnreadable(_)),
        r matches Err(CertError::CertUnreadable(m)) ==> m@ == pem_certs_error(cert_file@),
        (pem_certs(cert_file@) matches Some(c) && c.len() == 0) <==> r matches Err(CertError::CertMissing),
        (pem_certs(cert_file@) matches Some(c) && c.len() > 0 && !valid_utf8(cert_file@)) <==> r matches Err(
            CertError::CertNotText,
        ),
        r matches Ok((der, text)) ==> pem_certs(cert_file@) matches Some(c) && c.len() > 0 && c[0] == der@
            && text@ == decode_utf8(cert_file@),
{
    let certs = match read_pem_certs(cert_file.as_slice()) {
        Ok(c) => c,
        Err(e) => return Err(CertError::CertUnreadable(e)),
    };
    if certs.len() == 0 {
        return Err(CertError::CertMissing);
    }
    let mut certs = certs;
    let der = certs.remove(0);
    match string_from_utf8(cert_file) {
        Some(text) => Ok((der, text)),
        None => Err(CertError::CertNotText),
    }
}

/// The certificate to install into the system trust store: the first one of
/// the PEM text.
pub fn certificate_to_trust(pem: &str) -> (r: Result<Vec<u8>, CertError>)
    ensures
        pem_certs(pem.spec_bytes()) is None <==> r matches Err(CertError::CertUnreadable(_)),
        r matches Err(CertError::CertUnreadable(m)) ==> m@ == pem_certs_error(pem.spec_bytes()),
        (pem_certs(pem.spec_bytes()) matches Some(c) && c.len() == 0) <==> r matches Err(CertError::CertMissing),
        r matches Ok(der) ==> first_pem_cert(pem.spec_bytes()) == Some(der@),
{
    match read_pem_certs(pem.as_bytes()) {
        Ok(certs) => {
            if certs.len() == 0 {
                return Err(CertError::CertMissing);
            }
            let mut certs = certs;
            Ok(certs.remove(0))
        },
        Err(e) => Err(CertError::CertUnreadable(e)),
    }
}

} // verus!
