//! Certificates and keys of encrypted services.
use rustls_pki_types::PrivateKeyDer;
use vstd::prelude::*;
use vstd::string::*;
use vstd::utf8::*;

verus! {

/// The input and output error of the standard library.
#[verifier::external_type_specification]
#[verifier::external_body]
pub struct ExIoError(std::io::Error);

/// The private key of the `rustls-pki-types` crate.
#[verifier::external_type_specification]
#[verifier::external_body]
pub struct ExPrivateKeyDer<'a>(PrivateKeyDer<'a>);

/// Why there is no certificate or no key.
#[derive(Debug)]
pub enum TlsError {
    /// The file is not in PEM format.
    Unreadable(std::io::Error),
    /// The file holds no certificate.
    NoCertificates,
    /// The file holds no private key.
    NoPrivateKey,
}

impl TlsError {
    /// The description of an error; none for a file that is not in PEM format, which has one
    /// inside.
    pub fn text(&self) -> (r: Option<&'static str>)
        ensures
            match self {
                TlsError::Unreadable(_) => r is None,
                TlsError::NoCertificates => r is Some && r->0@
                    == "Certificate file contains no certificates"@,
                TlsError::NoPrivateKey => r is Some && r->0@
                    == "No private key found in key file"@,
            },
    {
        match self {
            TlsError::Unreadable(_) => None,
            TlsError::NoCertificates => Some("Certificate file contains no certificates"),
            TlsError::NoPrivateKey => Some("No private key found in key file"),
        }
    }
}

/// The certificates that the `rustls-pemfile` crate finds in a file, in DER format and in
/// order; none where it cannot read the file.
pub uninterp spec fn certificates_in(pem: Seq<u8>) -> Option<Seq<Seq<u8>>>;

/// The first private key that the `rustls-pemfile` crate finds in a file, where there is one;
/// nothing where it cannot read the file.
pub uninterp spec fn key_in(pem: Seq<u8>) -> Option<Option<PrivateKeyDer<'static>>>;

/// The bytes in a list of lists.
pub open spec fn bytes_of(list: Seq<Vec<u8>>) -> Seq<Seq<u8>> {
    list.map_values(|v: Vec<u8>| v@)
}

/// Trusted: `rustls_pemfile::certs`, with what it yields collected up to the first error. What
/// it finds is a matter of the bytes alone, and has a name here.
#[verifier::external_body]
fn read_certificates(pem: &[u8]) -> (r: Result<Vec<Vec<u8>>, std::io::Error>)
    ensures
        match r {
            Ok(list) => certificates_in(pem@) == Some(bytes_of(list@)),
            Err(_) => certificates_in(pem@) is None,
        },
{
    let mut reader: &[u8] = pem;
    rustls_pemfile::certs(&mut reader).map(|found| found.map(|cert| cert.to_vec())).collect()
}

/// Trusted: `rustls_pemfile::private_key`. What it finds is a matter of the bytes alone, and
/// has a name here.
#[verifier::external_body]
fn read_private_key(pem: &[u8]) -> (r: Result<Option<PrivateKeyDer<'static>>, std::io::Error>)
    ensures
        match r {
            Ok(key) => key_in(pem@) == Some(key),
            Err(_) => key_in(pem@) is None,
        },
{
    let mut reader: &[u8] = pem;
    rustls_pemfile::private_key(&mut reader)
}

/// What a service is to do with the certificates that were found: at least one is needed.
pub fn require_certificates(found: Result<Vec<Vec<u8>>, std::io::Error>) -> (r: Result<
    Vec<Vec<u8>>,
    TlsError,
>)
    ensures
        match found {
            Ok(list) => if list@.len() == 0 {
                r matches Err(TlsError::NoCertificates)
            } else {
                r == Ok::<Vec<Vec<u8>>, TlsError>(list)
            },
            Err(e) => r == Err::<Vec<Vec<u8>>, TlsError>(TlsError::Unreadable(e)),
        },
{
    match found {
        Ok(list) => {
            if list.is_empty() {
                Err(TlsError::NoCertificates)
            } else {
                Ok(list)
            }
        },
        Err(e) => Err(TlsError::Unreadable(e)),
    }
}

/// What a service is to do with the private key that was found: it is needed.
pub fn require_private_key(
    found: Result<Option<PrivateKeyDer<'static>>, std::io::Error>,
) -> (r: Result<PrivateKeyDer<'static>, TlsError>)
    ensures
        match found {
            Ok(Some(key)) => r == Ok::<PrivateKeyDer<'static>, TlsError>(key),
            Ok(None) => r matches Err(TlsError::NoPrivateKey),
            Err(e) => r == Err::<PrivateKeyDer<'static>, TlsError>(TlsError::Unreadable(e)),
        },
{
    match found {
        Ok(Some(key)) => Ok(key),
        Ok(None) => Err(TlsError::NoPrivateKey),
        Err(e) => Err(TlsError::Unreadable(e)),
    }
}

/// The certificates in a file, at least one.
pub fn certificates(pem: &[u8]) -> (r: Result<Vec<Vec<u8>>, TlsError>)
    ensures
        match r {
            Ok(list) => certificates_in(pem@) == Some(bytes_of(list@)) && list@.len() > 0,
            Err(TlsError::NoCertificates) => certificates_in(pem@) matches Some(found)
                && found.len() == 0,
            Err(TlsError::Unreadable(_)) => certificates_in(pem@) is None,
            Err(TlsError::NoPrivateKey) => false,
        },
{
    require_certificates(read_certificates(pem))
}

/// The private key in a file.
pub fn private_key(pem: &[u8]) -> (r: Result<PrivateKeyDer<'static>, TlsError>)
    ensures
        match r {
            Ok(key) => key_in(pem@) == Some(Some(key)),
            Err(TlsError::NoPrivateKey) => key_in(pem@) == Some(None::<PrivateKeyDer<'static>>),
            Err(TlsError::Unreadable(_)) => key_in(pem@) is None,
            Err(TlsError::NoCertificates) => false,
        },
{
    require_private_key(read_private_key(pem))
}

/// The protocols that an encrypted service offers, the most wanted first.
pub fn alpn_protocols() -> (r: Vec<Vec<u8>>)
    ensures
        bytes_of(r@) == seq![
            encode_utf8("h3"@),
            encode_utf8("h2"@),
            encode_utf8("http/1.1"@),
        ],
{
    let mut r: Vec<Vec<u8>> = Vec::new();
    r.push("h3".as_bytes_vec());
    r.push("h2".as_bytes_vec());
    r.push("http/1.1".as_bytes_vec());
    assert(bytes_of(r@) =~= seq![
        encode_utf8("h3"@),
        encode_utf8("h2"@),
        encode_utf8("http/1.1"@),
    ]);
    r
}

/// The contact under which certificates are provisioned.
pub fn acme_contact(email: &str) -> (r: String)
    ensures
        r@ == "mailto:"@ + email@,
{
    "mailto:".to_string().concat(email)
}

} // verus!
