use tls_certificate_exporter::cert::ParsedCertificate;
use tls_certificate_exporter::config::{FileContent, PrivateKey};
use tls_certificate_exporter::error::ErrorReason;
use tls_certificate_exporter::filestore::{load_certificate, load_trusted_anchors, parse_buffer,
    FileData, FileStore, FileType};
use tls_certificate_exporter::store::Store;

fn self_signed_der(subject: &str, issuer: &str, serial: i64) -> Vec<u8> {
    let mut builder = x509_certificate::X509CertificateBuilder::default();
    builder
        .subject()
        .append_common_name_utf8_string(subject)
        .unwrap();
    builder
        .issuer()
        .append_common_name_utf8_string(issuer)
        .unwrap();
    builder.serial_number(serial);
    let (cert, _key) = builder
        .create_with_random_keypair(x509_certificate::KeyAlgorithm::Ed25519)
        .unwrap();
    cert.encode_der().unwrap()
}

fn pem_of(tag: &str, der: &[u8]) -> String {
    pem::encode(&pem::Pem::new(tag, der.to_vec()))
}

#[test]
fn parse_der_extracts_the_plain_fields() {
    let der = self_signed_der("leaf.example", "issuing authority", 822);
    let parsed = ParsedCertificate::parse_der(&der).unwrap();
    // the validity window of every parsed certificate is ordered
    assert!(parsed.not_before() <= parsed.not_after());
    assert_eq!(parsed.common_name().unwrap(), "leaf.example");
    assert_eq!(parsed.issuer_common_name().unwrap(), "issuing authority");
    assert_eq!(parsed.serial_decimal(), "822");
    assert_eq!(parsed.fingerprint.len(), 32);
}

#[test]
fn parse_der_rejects_garbage() {
    assert_eq!(ParsedCertificate::parse_der(&[0, 1, 2, 3]), Err(ErrorReason::CertificateParse));
    assert_eq!(ParsedCertificate::parse_der(&[]), Err(ErrorReason::CertificateParse));
}

#[test]
fn identifier_display_is_base64_fingerprint_and_decimal_serial() {
    let der = self_signed_der("leaf.example", "issuer", 822);
    let parsed = ParsedCertificate::parse_der(&der).unwrap();
    let id = parsed.certificate_identifier();
    let shown = id.display_string();
    let expected_prefix =
        base64::Engine::encode(&base64::engine::general_purpose::STANDARD, &parsed.fingerprint);
    assert_eq!(shown, format!("{}#822", expected_prefix));
}

#[test]
fn two_handshakes_one_certificate() {
    // the same DER observed twice maps to one table entry
    let der = self_signed_der("leaf.example", "issuer", 7);
    let a = ParsedCertificate::parse_der(&der).unwrap();
    let b = ParsedCertificate::parse_der(&der).unwrap();
    let mut store = Store::new();
    let id_a = store.add_certificate(&a);
    let id_b = store.add_certificate(&b);
    assert_eq!(id_a, id_b);
    assert_eq!(store.cert_store.len(), 1);
}

#[test]
fn pem_bundles_reach_the_store() {
    let der1 = self_signed_der("one.example", "issuer", 1);
    let der2 = self_signed_der("two.example", "issuer", 2);
    let bundle = format!("{}{}", pem_of("CERTIFICATE", &der1), pem_of("CERTIFICATE", &der2));
    let mut store = Store::new();
    store.add_pem_certificates(bundle.as_bytes()).unwrap();
    assert_eq!(store.cert_store.len(), 2);
}

#[test]
fn parse_buffer_decodes_certificates() {
    let der = self_signed_der("one.example", "issuer", 1);
    let text = pem_of("CERTIFICATE", &der);
    match parse_buffer(text.as_bytes(), FileType::Certificates).unwrap() {
        FileData::Certificates(certs) => {
            assert_eq!(certs.len(), 1);
            // the DER content, not the PEM text, is kept
            assert_eq!(certs[0], der);
        }
        other => panic!("expected certificate material, got {:?}", other),
    }
}

#[test]
fn parse_buffer_requires_at_least_one_certificate() {
    match parse_buffer(b"no pem here", FileType::Certificates) {
        Err(ErrorReason::InvalidPemTag) => {}
        other => panic!("expected an invalid-tag rejection, got {:?}", other),
    }
}

#[test]
fn parse_buffer_requires_a_key_for_key_material() {
    let der = self_signed_der("one.example", "issuer", 1);
    let text = pem_of("CERTIFICATE", &der);
    match parse_buffer(text.as_bytes(), FileType::PrivateKey) {
        Err(ErrorReason::MissingPrivateKey) => {}
        other => panic!("expected a missing-key rejection, got {:?}", other),
    }
}

#[test]
fn parse_buffer_keeps_raw_data() {
    match parse_buffer(b"anything at all", FileType::Data).unwrap() {
        FileData::Data(d) => assert_eq!(d, b"anything at all".to_vec()),
        other => panic!("expected raw data, got {:?}", other),
    }
}

#[test]
fn file_store_parses_each_path_once() {
    let der = self_signed_der("one.example", "issuer", 1);
    let text = pem_of("CERTIFICATE", &der);
    let mut cache = FileStore::new();
    let path = String::from("/certs/a.pem");
    let first = cache.store_parsed(&path, text.as_bytes(), FileType::Certificates).unwrap();
    // a second read hands back the cached parse, whatever was read since
    let second = cache.store_parsed(&path, b"different bytes", FileType::Certificates).unwrap();
    match (first, second) {
        (FileData::Certificates(a), FileData::Certificates(b)) => assert_eq!(a, b),
        other => panic!("expected certificate material twice, got {:?}", other),
    }
    assert!(cache.get(&path).is_some());
    cache.remove_file(&path);
    assert!(cache.get(&path).is_none());
}

#[test]
fn inline_content_is_not_cached() {
    let der = self_signed_der("one.example", "issuer", 1);
    let text = pem_of("CERTIFICATE", &der);
    let mut cache = FileStore::new();
    let inline = FileContent::Inline { content: text.as_bytes().to_vec() };
    let parsed = cache.load_file_content(&inline, &[], FileType::Certificates).unwrap();
    match parsed {
        FileData::Certificates(certs) => assert_eq!(certs.len(), 1),
        other => panic!("expected certificate material, got {:?}", other),
    }
    assert_eq!(cache.data.len(), 0);
}

#[test]
fn trusted_anchor_bundles_check_every_tag() {
    let der = self_signed_der("root.example", "root.example", 3);
    let bad_tag = pem_of("PRIVATE KEY", &der);
    match load_trusted_anchors(bad_tag.as_bytes()) {
        Err(ErrorReason::InvalidPemTag) => {}
        other => panic!("expected an invalid-tag rejection, got {:?}", other),
    }
    let garbage = pem_of("CERTIFICATE", &[1, 2, 3]);
    match load_trusted_anchors(garbage.as_bytes()) {
        Err(ErrorReason::CertificateParse) => {}
        other => panic!("expected a certificate parse rejection, got {:?}", other),
    }
    // text without any PEM section yields no anchors
    assert_eq!(load_trusted_anchors(b"no sections here"), Ok(vec![]));
}

#[test]
fn single_certificate_pem_loads() {
    let der = self_signed_der("one.example", "issuer", 1);
    let text = pem_of("CERTIFICATE", &der);
    assert_eq!(load_certificate(text.as_bytes()).unwrap(), der);
    let wrong = pem_of("PRIVATE KEY", &der);
    match load_certificate(wrong.as_bytes()) {
        Err(ErrorReason::InvalidPemTag) => {}
        other => panic!("expected an invalid-tag rejection, got {:?}", other),
    }
}

#[test]
fn private_key_pem_loads() {
    // build a key, write it as PKCS#8 PEM, and read it back
    let keypair = x509_certificate::InMemorySigningKeyPair::generate_random(
        x509_certificate::KeyAlgorithm::Ed25519,
    )
    .unwrap();
    let key_der: Vec<u8> = keypair.to_pkcs8_one_asymmetric_key_der().to_vec();
    let text = pem_of("PRIVATE KEY", &key_der);
    let key = PrivateKey::load_from_pem(text.as_bytes()).unwrap();
    assert_eq!(key.der, key_der);
    // a certificate PEM holds no key
    let der = self_signed_der("one.example", "issuer", 1);
    let cert_text = pem_of("CERTIFICATE", &der);
    match PrivateKey::load_from_pem(cert_text.as_bytes()) {
        Err(ErrorReason::MissingPrivateKey) => {}
        other => panic!("expected a missing-key rejection, got {:?}", other),
    }
}
