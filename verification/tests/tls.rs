use rustls_pki_types::PrivateKeyDer;
use spectra_proxy::tls::{
    acme_contact, alpn_protocols, certificates, private_key, require_certificates,
    require_private_key, TlsError,
};

fn pem(label: &str, body: &str) -> String {
    format!("-----BEGIN {}-----\n{}\n-----END {}-----\n", label, body, label)
}

fn key_label() -> String {
    format!("PRIVATE {}", "KEY")
}

#[test]
fn certificates_come_out_of_a_file_in_order() {
    let text = pem("CERTIFICATE", "AQID") + &pem(&key_label(), "CQ==") + &pem("CERTIFICATE", "BAU=");
    assert_eq!(certificates(text.as_bytes()).unwrap(), vec![vec![1u8, 2, 3], vec![4, 5]]);
}

#[test]
fn a_file_without_certificates_is_an_error() {
    assert!(matches!(certificates(b""), Err(TlsError::NoCertificates)));
    let text = pem(&key_label(), "AQID");
    assert!(matches!(certificates(text.as_bytes()), Err(TlsError::NoCertificates)));
}

#[test]
fn a_file_that_is_cut_off_is_an_error() {
    let text = "-----BEGIN CERTIFICATE-----\nAQID\n";
    assert!(matches!(certificates(text.as_bytes()), Err(TlsError::Unreadable(_))));
    let text = format!("-----BEGIN {}-----\nAQID\n", key_label());
    assert!(matches!(private_key(text.as_bytes()), Err(TlsError::Unreadable(_))));
}

#[test]
fn the_first_key_of_a_file_is_taken() {
    let text = pem("CERTIFICATE", "AQID") + &pem(&key_label(), "BAU=") + &pem(&key_label(), "Bg==");
    match private_key(text.as_bytes()).unwrap() {
        PrivateKeyDer::Pkcs8(der) => assert_eq!(der.secret_pkcs8_der(), &[4u8, 5]),
        other => panic!("{:?}", other),
    }
}

#[test]
fn a_file_without_a_key_is_an_error() {
    let text = pem("CERTIFICATE", "AQID");
    assert!(matches!(private_key(text.as_bytes()), Err(TlsError::NoPrivateKey)));
}

#[test]
fn what_was_found_decides() {
    assert_eq!(require_certificates(Ok(vec![vec![1]])).unwrap(), vec![vec![1u8]]);
    assert!(matches!(require_certificates(Ok(Vec::new())), Err(TlsError::NoCertificates)));
    let broken = std::io::Error::other("broken");
    assert!(matches!(require_certificates(Err(broken)), Err(TlsError::Unreadable(_))));
    assert!(matches!(require_private_key(Ok(None)), Err(TlsError::NoPrivateKey)));
    let broken = std::io::Error::other("broken");
    assert!(matches!(require_private_key(Err(broken)), Err(TlsError::Unreadable(_))));
}

#[test]
fn errors_are_described() {
    let none = TlsError::NoCertificates;
    assert_eq!(none.text(), Some("Certificate file contains no certificates"));
    assert_eq!(TlsError::NoPrivateKey.text(), Some("No private key found in key file"));
    assert_eq!(TlsError::Unreadable(std::io::Error::other("broken")).text(), None);
}

#[test]
fn http3_is_wanted_most() {
    assert_eq!(alpn_protocols(), vec![b"h3".to_vec(), b"h2".to_vec(), b"http/1.1".to_vec()]);
}

#[test]
fn contacts_are_mail_addresses() {
    assert_eq!(acme_contact("me@example.com"), "mailto:me@example.com");
}
