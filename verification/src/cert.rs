//! The certificate model: a parsed X.509 leaf or intermediate, reduced to
//! the plain fields the service reads (common names, serial, validity
//! window, SHA-256 fingerprint), and the identifier that deduplicates
//! certificates in the store.
//!
//! DER decoding and digesting are done by the `x509-certificate` crate
//! behind trusted wrappers; everything derived from their outputs (epoch
//! conversion, identity, rendering) is verified.

use vstd::prelude::*;

use crate::error::ErrorReason;
use crate::text::{bytes_eq, spec_base64, spec_be_nat, spec_dec_digits, u64_to_dec};
use crate::time::{epoch_of_parts, parts_in_range, spec_epoch_of, TimeParts};
use chrono::{Datelike, Timelike};

verus! {

/// Whether a byte string is DER-decodable as an X.509 certificate;
/// decoding is a function of the bytes alone.
pub uninterp spec fn spec_der_parse_ok(der: Seq<u8>) -> bool;

/// The subject CN a decodable DER certificate carries, if any; a function
/// of the bytes alone.
pub uninterp spec fn spec_subject_cn(der: Seq<u8>) -> Option<Seq<char>>;

/// The issuer CN a decodable DER certificate carries, if any; a function
/// of the bytes alone.
pub uninterp spec fn spec_issuer_cn(der: Seq<u8>) -> Option<Seq<char>>;

/// The raw big-endian content octets of a decodable DER certificate's
/// serial number; a function of the bytes alone.
pub uninterp spec fn spec_serial_bytes(der: Seq<u8>) -> Seq<u8>;

/// The SHA-256 fingerprint of a decodable DER certificate (over its
/// re-encoded form), when the re-encoding succeeds; a function of the
/// bytes alone.
pub uninterp spec fn spec_fingerprint(der: Seq<u8>) -> Option<Seq<u8>>;

/// The broken-down not-before instant of a decodable DER certificate; a
/// function of the bytes alone.
pub uninterp spec fn spec_not_before_parts(der: Seq<u8>) -> TimeParts;

/// The broken-down not-after instant of a decodable DER certificate; a
/// function of the bytes alone.
pub uninterp spec fn spec_not_after_parts(der: Seq<u8>) -> TimeParts;

/// Relies on `x509_certificate::X509Certificate::from_der`: whether DER
/// bytes decode as a certificate. The decoder is deterministic and errors,
/// never panics, on junk. Every accessor wrapper below re-decodes the same
/// bytes with this function, so each stated value is a function of the DER
/// alone and equal DER gives equal values.
#[verifier::external_body]
fn x509_der_parse_ok(der: &[u8]) -> (r: bool)
    ensures
        r == spec_der_parse_ok(der@),
{
    x509_certificate::X509Certificate::from_der(der).is_ok()
}

/// Relies on `X509Certificate::from_der` and `subject_common_name`: the
/// subject CN attribute of the decoded certificate, if present and
/// decodable.
#[verifier::external_body]
fn x509_subject_cn(der: &[u8]) -> (r: Option<String>)
    requires
        spec_der_parse_ok(der@),
    ensures
        match (&r, spec_subject_cn(der@)) {
            (Some(a), Some(b)) => a@ == b,
            (None, None) => true,
            _ => false,
        },
{
    let c = x509_certificate::X509Certificate::from_der(der).unwrap();
    c.subject_common_name()
}

/// Relies on `X509Certificate::from_der` and `issuer_common_name`: the
/// issuer CN attribute of the decoded certificate, if present and
/// decodable.
#[verifier::external_body]
fn x509_issuer_cn(der: &[u8]) -> (r: Option<String>)
    requires
        spec_der_parse_ok(der@),
    ensures
        match (&r, spec_issuer_cn(der@)) {
            (Some(a), Some(b)) => a@ == b,
            (None, None) => true,
            _ => false,
        },
{
    let c = x509_certificate::X509Certificate::from_der(der).unwrap();
    c.issuer_common_name()
}

/// Relies on `X509Certificate::from_der` and `serial_number_asn1`, whose
/// `as_slice` (bcder's `Integer`) yields the raw big-endian content octets
/// of the serial number INTEGER.
#[verifier::external_body]
fn x509_serial_bytes(der: &[u8]) -> (r: Vec<u8>)
    requires
        spec_der_parse_ok(der@),
    ensures
        r@ == spec_serial_bytes(der@),
{
    let c = x509_certificate::X509Certificate::from_der(der).unwrap();
    c.serial_number_asn1().as_slice().to_vec()
}

/// Relies on `X509Certificate::from_der` and `sha256_fingerprint`: the
/// SHA-256 digest (32 bytes, per ring's documented output length) of the
/// certificate's DER re-encoding, when re-encoding succeeds.
#[verifier::external_body]
fn x509_fingerprint(der: &[u8]) -> (r: Result<Vec<u8>, ()>)
    requires
        spec_der_parse_ok(der@),
    ensures
        r is Ok <==> spec_fingerprint(der@) is Some,
        r matches Ok(f) ==> Some(f@) == spec_fingerprint(der@) && f@.len() == 32,
{
    let c = x509_certificate::X509Certificate::from_der(der).unwrap();
    match c.sha256_fingerprint() {
        Ok(d) => Ok(d.as_ref().to_vec()),
        Err(_) => Err(()),
    }
}

/// Relies on `X509Certificate::from_der`, the `validity.not_before` field
/// of its `TbsCertificate`, and chrono's `Datelike`/`Timelike` accessors,
/// whose documented ranges are month 1..=12, day 1..=31, hour 0..=23,
/// minute and second 0..=59. The ASN.1 form (UTCTime, with its two-digit
/// year already widened per RFC 5280, or GeneralizedTime) is reported as
/// it appears in the certificate.
#[verifier::external_body]
fn x509_not_before_parts(der: &[u8]) -> (r: TimeParts)
    requires
        spec_der_parse_ok(der@),
    ensures
        r == spec_not_before_parts(der@),
        1 <= r.month <= 12 && 1 <= r.day <= 31 && r.hour <= 23 && r.minute <= 59 && r.second <= 59,
{
    let c = x509_certificate::X509Certificate::from_der(der).unwrap();
    let t = &c.as_ref().tbs_certificate.validity.not_before;
    let utc = matches!(t, x509_certificate::asn1time::Time::UtcTime(_));
    let dt: chrono::DateTime<chrono::Utc> = t.clone().into();
    TimeParts {
        utc_form: utc,
        year: dt.year() as i64,
        month: dt.month() as u8,
        day: dt.day() as u8,
        hour: dt.hour() as u8,
        minute: dt.minute() as u8,
        second: dt.second() as u8,
    }
}

/// Relies on `X509Certificate::from_der`, the `validity.not_after` field
/// of its `TbsCertificate`, and chrono's accessors, as for the not-before
/// field.
#[verifier::external_body]
fn x509_not_after_parts(der: &[u8]) -> (r: TimeParts)
    requires
        spec_der_parse_ok(der@),
    ensures
        r == spec_not_after_parts(der@),
        1 <= r.month <= 12 && 1 <= r.day <= 31 && r.hour <= 23 && r.minute <= 59 && r.second <= 59,
{
    let c = x509_certificate::X509Certificate::from_der(der).unwrap();
    let t = &c.as_ref().tbs_certificate.validity.not_after;
    let utc = matches!(t, x509_certificate::asn1time::Time::UtcTime(_));
    let dt: chrono::DateTime<chrono::Utc> = t.clone().into();
    TimeParts {
        utc_form: utc,
        year: dt.year() as i64,
        month: dt.month() as u8,
        day: dt.day() as u8,
        hour: dt.hour() as u8,
        minute: dt.minute() as u8,
        second: dt.second() as u8,
    }
}

/// Relies on `num_bigint::BigUint::from_bytes_be` and its `Display` impl:
/// the decimal rendering, without leading zeros, of the unsigned integer
/// the big-endian bytes denote.
#[verifier::external_body]
fn biguint_decimal(bytes: &[u8]) -> (r: String)
    ensures
        r@ == spec_dec_digits(spec_be_nat(bytes@)),
{
    let n = num_bigint::BigUint::from_bytes_be(bytes);
    format!("{}", n)
}

/// Relies on `base64::engine::general_purpose::STANDARD` and
/// `base64::Engine::encode`: standard-alphabet base64 with `=` padding.
#[verifier::external_body]
fn base64_standard(bytes: &[u8]) -> (r: String)
    ensures
        r@ == spec_base64(bytes@),
{
    base64::Engine::encode(&base64::engine::general_purpose::STANDARD, bytes)
}

/// A parsed X.509 certificate, reduced to the fields the service reads.
/// Immutable once parsed.
#[derive(Clone, Debug, PartialEq, Eq)]
pub struct ParsedCertificate {
    /// Subject common name, if present.
    pub subject: Option<String>,
    /// Issuer common name, if present.
    pub issuer: Option<String>,
    /// Raw big-endian content octets of the serial number.
    pub serial: Vec<u8>,
    /// Start of the validity window, seconds since the Unix epoch.
    pub not_before_epoch: i64,
    /// End of the validity window, seconds since the Unix epoch.
    pub not_after_epoch: i64,
    /// SHA-256 fingerprint of the DER encoding.
    pub fingerprint: Vec<u8>,
}

/// The spec-level shape of a parsed certificate.
#[verifier::ext_equal]
pub struct ParsedCertificateV {
    pub subject: Option<Seq<char>>,
    pub issuer: Option<Seq<char>>,
    pub serial: Seq<u8>,
    pub not_before_epoch: i64,
    pub not_after_epoch: i64,
    pub fingerprint: Seq<u8>,
}

impl ParsedCertificateV {
    /// The dedup key of this certificate.
    pub open spec fn id_key(self) -> (Seq<u8>, Seq<u8>) {
        (self.serial, self.fingerprint)
    }

    /// The validity window is ordered and the fingerprint has digest length.
    pub open spec fn wf(self) -> bool {
        self.not_before_epoch <= self.not_after_epoch && self.fingerprint.len() == 32
    }
}

/// The condition under which DER bytes parse into the model: they decode
/// as a certificate, both validity instants lie in calendar range with the
/// window ordered, and the fingerprint digest is available.
pub open spec fn spec_cert_parse_ok(der: Seq<u8>) -> bool {
    &&& spec_der_parse_ok(der)
    &&& parts_in_range(spec_not_before_parts(der))
    &&& parts_in_range(spec_not_after_parts(der))
    &&& spec_epoch_of(spec_not_before_parts(der)) <= spec_epoch_of(spec_not_after_parts(der))
    &&& spec_fingerprint(der) is Some
}

/// The certificate a parsable DER byte string denotes.
pub open spec fn spec_parsed_cert(der: Seq<u8>) -> ParsedCertificateV {
    ParsedCertificateV {
        subject: spec_subject_cn(der),
        issuer: spec_issuer_cn(der),
        serial: spec_serial_bytes(der),
        not_before_epoch: spec_epoch_of(spec_not_before_parts(der)) as i64,
        not_after_epoch: spec_epoch_of(spec_not_after_parts(der)) as i64,
        fingerprint: spec_fingerprint(der).unwrap(),
    }
}

impl View for ParsedCertificate {
    type V = ParsedCertificateV;

    open spec fn view(&self) -> ParsedCertificateV {
        ParsedCertificateV {
            subject: match &self.subject { Some(s) => Some(s@), None => None },
            issuer: match &self.issuer { Some(s) => Some(s@), None => None },
            serial: self.serial@,
            not_before_epoch: self.not_before_epoch,
            not_after_epoch: self.not_after_epoch,
            fingerprint: self.fingerprint@,
        }
    }
}

/// The dedup key of a certificate: serial number and fingerprint together,
/// so that colliding on the serial alone does not conflate certificates.
/// Equality is structural on both fields.
#[derive(Clone, Debug, Eq, Hash)]
pub struct CertificateIdentifier {
    pub serial_number: Vec<u8>,
    pub fingerprint: Vec<u8>,
}

impl View for CertificateIdentifier {
    type V = (Seq<u8>, Seq<u8>);

    open spec fn view(&self) -> (Seq<u8>, Seq<u8>) {
        (self.serial_number@, self.fingerprint@)
    }
}

impl PartialEq for CertificateIdentifier {
    fn eq(&self, other: &CertificateIdentifier) -> (r: bool) {
        bytes_eq(self.serial_number.as_slice(), other.serial_number.as_slice())
            && bytes_eq(self.fingerprint.as_slice(), other.fingerprint.as_slice())
    }
}

impl vstd::std_specs::cmp::PartialEqSpecImpl for CertificateIdentifier {
    open spec fn obeys_eq_spec() -> bool {
        true
    }

    open spec fn eq_spec(&self, other: &CertificateIdentifier) -> bool {
        self@ == other@
    }
}

impl CertificateIdentifier {
    /// A display form: base64 fingerprint, `#`, decimal serial.
    pub fn display_string(&self) -> (r: String)
        ensures
            r@ == spec_base64(self.fingerprint@) + "#"@ + spec_dec_digits(spec_be_nat(self.serial_number@)),
    {
        let mut s = base64_standard(self.fingerprint.as_slice());
        s.append("#");
        let d = biguint_decimal(self.serial_number.as_slice());
        s.append(d.as_str());
        s
    }
}

impl ParsedCertificate {
    /// The certificate is well formed: the validity window is ordered and
    /// the fingerprint is a SHA-256 digest.
    pub open spec fn wf(&self) -> bool {
        self@.wf()
    }

    /// A copy with the same contents.
    pub fn duplicate(&self) -> (r: ParsedCertificate)
        ensures
            r@ == self@,
    {
        ParsedCertificate {
            subject: crate::config::clone_opt_string(&self.subject),
            issuer: crate::config::clone_opt_string(&self.issuer),
            serial: self.serial.clone(),
            not_before_epoch: self.not_before_epoch,
            not_after_epoch: self.not_after_epoch,
            fingerprint: self.fingerprint.clone(),
        }
    }

    /// Parses a DER byte string. Succeeds exactly when the bytes decode,
    /// both validity instants lie in calendar range with the window
    /// ordered, and the digest is available — so every parsed certificate
    /// has `not_before <= not_after`; everything else is a
    /// `CertificateParse` failure. The parsed fields are functions of the
    /// DER bytes alone, so equal DER gives equal certificates.
    pub fn parse_der(der: &[u8]) -> (r: Result<ParsedCertificate, ErrorReason>)
        ensures
            r is Ok <==> spec_cert_parse_ok(der@),
            r matches Ok(c) ==> c.wf() && c@ == spec_parsed_cert(der@),
            r matches Err(e) ==> e matches ErrorReason::CertificateParse,
    {
        if !x509_der_parse_ok(der) {
            return Err(ErrorReason::CertificateParse);
        }
        let nb_parts = x509_not_before_parts(der);
        let na_parts = x509_not_after_parts(der);
        let not_before_epoch = epoch_of_parts(&nb_parts)?;
        let not_after_epoch = epoch_of_parts(&na_parts)?;
        if not_before_epoch > not_after_epoch {
            return Err(ErrorReason::CertificateParse);
        }
        let fingerprint = match x509_fingerprint(der) {
            Ok(f) => f,
            Err(_) => {
                return Err(ErrorReason::CertificateParse);
            },
        };
        let cert = ParsedCertificate {
            subject: x509_subject_cn(der),
            issuer: x509_issuer_cn(der),
            serial: x509_serial_bytes(der),
            not_before_epoch,
            not_after_epoch,
            fingerprint,
        };
        proof {
            assert(cert@ =~~= spec_parsed_cert(der@));
        }
        Ok(cert)
    }


    /// Start of the validity window, seconds since the Unix epoch.
    pub fn not_before(&self) -> (r: i64)
        ensures
            r == self.not_before_epoch,
    {
        self.not_before_epoch
    }

    /// End of the validity window, seconds since the Unix epoch.
    pub fn not_after(&self) -> (r: i64)
        ensures
            r == self.not_after_epoch,
    {
        self.not_after_epoch
    }

    /// Subject common name, if present.
    pub fn common_name(&self) -> (r: Option<&String>)
        ensures
            r matches Some(n) ==> self.subject matches Some(m) && n@ == m@,
            r is None <==> self.subject is None,
    {
        self.subject.as_ref()
    }

    /// Issuer common name, if present.
    pub fn issuer_common_name(&self) -> (r: Option<&String>)
        ensures
            r matches Some(n) ==> self.issuer matches Some(m) && n@ == m@,
            r is None <==> self.issuer is None,
    {
        self.issuer.as_ref()
    }

    /// The raw big-endian content octets of the serial number.
    pub fn serial_number(&self) -> (r: &Vec<u8>)
        ensures
            r@ == self.serial@,
    {
        &self.serial
    }

    /// Decimal rendering of the serial number.
    pub fn serial_decimal(&self) -> (r: String)
        ensures
            r@ == spec_dec_digits(spec_be_nat(self.serial@)),
    {
        biguint_decimal(self.serial.as_slice())
    }

    /// The dedup key: serial number and fingerprint together.
    pub fn certificate_identifier(&self) -> (r: CertificateIdentifier)
        ensures
            r.serial_number@ == self.serial@,
            r.fingerprint@ == self.fingerprint@,
    {
        CertificateIdentifier {
            serial_number: self.serial.clone(),
            fingerprint: self.fingerprint.clone(),
        }
    }
}

} // verus!
