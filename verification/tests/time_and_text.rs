use tls_certificate_exporter::error::ErrorReason;
use tls_certificate_exporter::time::{epoch_of_parts, TimeParts};

fn parts(year: i64, month: u8, day: u8, hour: u8, minute: u8, second: u8, utc_form: bool) -> TimeParts {
    TimeParts { utc_form, year, month, day, hour, minute, second }
}

#[test]
fn epoch_of_unix_origin() {
    assert_eq!(epoch_of_parts(&parts(1970, 1, 1, 0, 0, 0, false)), Ok(0));
}

#[test]
fn epoch_of_midcentury_instant() {
    // 2023-01-01 12:00:00 UTC
    assert_eq!(epoch_of_parts(&parts(2023, 1, 1, 12, 0, 0, false)), Ok(1672574400));
}

#[test]
fn epoch_before_the_epoch() {
    // 1950-01-01 00:00:00 UTC, the earliest UTCTime year
    assert_eq!(epoch_of_parts(&parts(1950, 1, 1, 0, 0, 0, true)), Ok(-631152000));
}

#[test]
fn epoch_of_leap_day() {
    // 2000-02-29 23:59:59 UTC is one second before 2000-03-01
    assert_eq!(epoch_of_parts(&parts(2000, 2, 29, 23, 59, 59, false)), Ok(951868799));
}

#[test]
fn epoch_rejects_out_of_range_fields() {
    assert_eq!(epoch_of_parts(&parts(2023, 13, 1, 0, 0, 0, false)), Err(ErrorReason::CertificateParse));
    assert_eq!(epoch_of_parts(&parts(2023, 0, 1, 0, 0, 0, false)), Err(ErrorReason::CertificateParse));
    assert_eq!(epoch_of_parts(&parts(0, 1, 1, 0, 0, 0, false)), Err(ErrorReason::CertificateParse));
    assert_eq!(epoch_of_parts(&parts(10000, 1, 1, 0, 0, 0, false)), Err(ErrorReason::CertificateParse));
    assert_eq!(epoch_of_parts(&parts(2023, 1, 1, 24, 0, 0, false)), Err(ErrorReason::CertificateParse));
}

#[test]
fn epoch_ignores_the_asn1_form() {
    // the same instant as UTCTime and as GeneralizedTime
    let as_utc = epoch_of_parts(&parts(2035, 6, 15, 8, 30, 5, true)).unwrap();
    let as_general = epoch_of_parts(&parts(2035, 6, 15, 8, 30, 5, false)).unwrap();
    assert_eq!(as_utc, as_general);
}

#[test]
fn decimal_rendering() {
    assert_eq!(tls_certificate_exporter::text::u64_to_dec(0), "0");
    assert_eq!(tls_certificate_exporter::text::u64_to_dec(7), "7");
    assert_eq!(tls_certificate_exporter::text::u64_to_dec(65535), "65535");
    assert_eq!(tls_certificate_exporter::text::u64_to_dec(1000000001), "1000000001");
}

#[test]
fn byte_equality() {
    assert!(tls_certificate_exporter::text::bytes_eq(&[1, 2, 3], &[1, 2, 3]));
    assert!(!tls_certificate_exporter::text::bytes_eq(&[1, 2, 3], &[1, 2]));
    assert!(!tls_certificate_exporter::text::bytes_eq(&[1, 2, 3], &[1, 2, 4]));
    assert!(tls_certificate_exporter::text::bytes_eq(&[], &[]));
}

#[test]
fn error_messages() {
    assert_eq!(ErrorReason::ConfigLoad.message(), "failed to load the configuration");
    assert_eq!(ErrorReason::CyclicExtends.message(), "cyclic module dependency detected");
    assert_eq!(ErrorReason::InvalidEndpoint.message(), "invalid endpoint");
    assert_eq!(ErrorReason::ResolveTimeout.message(), "name resolution timeout");
    assert_eq!(ErrorReason::ResolveError.message(), "domain name lookup error");
    assert_eq!(ErrorReason::ConnectError.message(), "connection error");
    assert_eq!(
        ErrorReason::HandshakeError(String::from("certificate expired")).message(),
        "certificate expired"
    );
    assert_eq!(ErrorReason::UnknownModule.message(), "unknown module name");
}
