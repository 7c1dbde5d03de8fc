//! The error taxonomy of the service.
//!
//! Startup errors (configuration, cyclic module inheritance, bad trust-anchor
//! material, missing private key) are fatal; per-probe errors are recorded on
//! the affected target and converted into a backoff re-schedule.

use vstd::prelude::*;

verus! {

/// Why an operation failed. `HandshakeError` retains the TLS library's
/// message verbatim; the other variants carry no payload.
#[derive(Clone, Debug, PartialEq, Eq)]
pub enum ErrorReason {
    /// Malformed or unreadable configuration (fatal during startup).
    ConfigLoad,
    /// The module inheritance graph has a cycle (fatal during startup).
    CyclicExtends,
    /// A file parsed as PEM but its tag did not match the expected kind.
    InvalidPemTag,
    /// Target syntax error or empty resolution (per probe).
    InvalidEndpoint,
    /// Name resolution did not finish within the timeout budget (per probe).
    ResolveTimeout,
    /// Name resolution failed (per probe).
    ResolveError,
    /// The target resolved to zero addresses (per probe).
    ResolveEmpty,
    /// TCP dial failure (per probe).
    ConnectError,
    /// TLS failure; the message is kept verbatim (per probe).
    HandshakeError(String),
    /// Client certificates were configured without a private key (fatal).
    MissingPrivateKey,
    /// DER parse failure on a presented certificate (per probe).
    CertificateParse,
    /// A module name was referenced but never defined.
    UnknownModule,
    /// Chain not captured and no error reported (per probe; defensive).
    Unknown,
}

impl ErrorReason {
    /// A short diagnostic text for logs and tests.
    pub fn message(&self) -> (r: String)
        ensures
            self matches ErrorReason::HandshakeError(m) ==> r@ == m@,
    {
        match self {
            ErrorReason::ConfigLoad => "failed to load the configuration".to_string(),
            ErrorReason::CyclicExtends => "cyclic module dependency detected".to_string(),
            ErrorReason::InvalidPemTag => "unexpected PEM tag".to_string(),
            ErrorReason::InvalidEndpoint => "invalid endpoint".to_string(),
            ErrorReason::ResolveTimeout => "name resolution timeout".to_string(),
            ErrorReason::ResolveError => "domain name lookup error".to_string(),
            ErrorReason::ResolveEmpty => "target resolved to no addresses".to_string(),
            ErrorReason::ConnectError => "connection error".to_string(),
            ErrorReason::HandshakeError(m) => m.clone(),
            ErrorReason::MissingPrivateKey => "client certificates configured without a private key".to_string(),
            ErrorReason::CertificateParse => "X509 certificate parsing error".to_string(),
            ErrorReason::UnknownModule => "unknown module name".to_string(),
            ErrorReason::Unknown => "no certificates captured and no error reported".to_string(),
        }
    }
}

/// The usual result type of the library.
pub type AppResult<T> = Result<T, ErrorReason>;

} // verus!
