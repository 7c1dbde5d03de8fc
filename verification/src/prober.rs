//! The probe pipeline's decision core. The network side (TCP dial, TLS
//! handshake) hands in the handshake outcome and the chain captured by the
//! intercepting verifier; this module parses the chain and classifies the
//! probe. A captured chain is returned even when the handshake failed —
//! that is the reason this service exists.

use vstd::prelude::*;

use crate::cert::{spec_cert_parse_ok, spec_parsed_cert, ParsedCertificate};
use crate::error::ErrorReason;
use crate::target::Endpoint;

verus! {

/// The observation of one endpoint: the endpoint, the certificates the
/// peer presented (leaf first), and the handshake outcome (`Ok` or the
/// error text).
#[derive(Debug)]
pub struct ProbeResult {
    pub endpoint: Endpoint,
    pub certificates: Vec<ParsedCertificate>,
    pub probe_result: Result<(), String>,
}

/// The spec-level shape of a probe result.
#[verifier::ext_equal]
pub struct ProbeResultV {
    pub endpoint: crate::target::EndpointV,
    pub certificates: Seq<crate::cert::ParsedCertificateV>,
    pub probe_result: Result<(), Seq<char>>,
}

impl View for ProbeResult {
    type V = ProbeResultV;

    open spec fn view(&self) -> ProbeResultV {
        ProbeResultV {
            endpoint: self.endpoint@,
            certificates: Seq::new(self.certificates@.len(), |i: int| self.certificates@[i]@),
            probe_result: match &self.probe_result { Ok(u) => Ok(()), Err(m) => Err(m@) },
        }
    }
}

/// The write-once chain capture of the certificate-intercepting verifier.
/// The first handshake's chain wins; later writes are discarded. The
/// capture is read out by a consuming take.
#[derive(Clone, Debug)]
pub struct CertificateInterceptor {
    chain: Option<Vec<Vec<u8>>>,
    insecure_skip_verify: bool,
}

impl CertificateInterceptor {
    /// The captured chain, if any.
    pub closed spec fn spec_chain(&self) -> Option<Seq<Seq<u8>>> {
        match self.chain {
            Some(c) => Some(c.deep_view()),
            None => None,
        }
    }

    /// Whether the wrapped trust-path verifier is to be bypassed.
    pub closed spec fn spec_skip_verify(&self) -> bool {
        self.insecure_skip_verify
    }

    /// A fresh interceptor with nothing captured.
    pub fn new(insecure_skip_verify: bool) -> (r: CertificateInterceptor)
        ensures
            r.spec_chain() is None,
            r.spec_skip_verify() == insecure_skip_verify,
    {
        CertificateInterceptor { chain: None, insecure_skip_verify }
    }

    /// Records a presented chain. Only the first record is kept.
    pub fn record_chain(&mut self, chain: Vec<Vec<u8>>)
        ensures
            final(self).spec_chain() == if old(self).spec_chain() is Some {
                old(self).spec_chain()
            } else {
                Some(chain.deep_view())
            },
            final(self).spec_skip_verify() == old(self).spec_skip_verify(),
    {
        if self.chain.is_none() {
            self.chain = Some(chain);
        }
    }

    /// Whether verification is to return success without consulting the
    /// wrapped verifier.
    pub fn skip_verify(&self) -> (r: bool)
        ensures
            r == self.spec_skip_verify(),
    {
        self.insecure_skip_verify
    }

    /// The captured chain; consuming, so a second take yields nothing.
    pub fn get_certificates(&mut self) -> (r: Option<Vec<Vec<u8>>>)
        ensures
            final(self).spec_chain() is None,
            final(self).spec_skip_verify() == old(self).spec_skip_verify(),
            match r {
                Some(c) => old(self).spec_chain() == Some(c.deep_view()),
                None => old(self).spec_chain() is None,
            },
    {
        self.chain.take()
    }
}

/// Parses every DER certificate of a captured chain, in order; succeeds
/// exactly when every certificate parses, and one bad certificate aborts
/// the endpoint's observation.
pub fn parse_chain(ders: &Vec<Vec<u8>>) -> (r: Result<Vec<ParsedCertificate>, ErrorReason>)
    ensures
        r is Ok <==> (forall|i: int| 0 <= i < ders@.len() ==> spec_cert_parse_ok(#[trigger] ders@[i]@)),
        r matches Ok(cs) ==> cs@.len() == ders@.len()
            && (forall|i: int| 0 <= i < cs@.len() ==> (#[trigger] cs@[i])@ == spec_parsed_cert(ders@[i]@))
            && (forall|i: int| 0 <= i < cs@.len() ==> (#[trigger] cs@[i]).wf()),
        r matches Err(e) ==> e matches ErrorReason::CertificateParse,
{
    let mut certs: Vec<ParsedCertificate> = Vec::new();
    let n: usize = ders.len();
    for i in 0..n
        invariant
            n == ders@.len(),
            certs@.len() == i,
            forall|j: int| 0 <= j < i ==> (#[trigger] certs@[j]).wf(),
            forall|j: int| 0 <= j < i ==> (#[trigger] certs@[j])@ == spec_parsed_cert(ders@[j]@),
            forall|j: int| 0 <= j < i ==> spec_cert_parse_ok(#[trigger] ders@[j]@),
    {
        match ParsedCertificate::parse_der(ders[i].as_slice()) {
            Ok(c) => {
                certs.push(c);
            },
            Err(_) => {
                return Err(ErrorReason::CertificateParse);
            },
        }
    }
    Ok(certs)
}

/// Classifies one endpoint probe from the handshake outcome and the parsed
/// captured chain. A present chain always yields a `ProbeResult` carrying
/// exactly those certificates, whatever the handshake verdict; an absent
/// chain propagates the handshake error, or reports `Unknown` when the
/// handshake claims success.
pub fn classify_probe(
    endpoint: Endpoint,
    handshake: Result<(), String>,
    chain: Option<Vec<ParsedCertificate>>,
) -> (r: Result<ProbeResult, ErrorReason>)
    ensures
        chain matches Some(cs) ==> r matches Ok(pr)
            && pr.endpoint == endpoint
            && pr.certificates == cs
            && pr.probe_result == handshake,
        chain is None ==> r == match handshake {
            Err(m) => Err::<ProbeResult, ErrorReason>(ErrorReason::HandshakeError(m)),
            Ok(u) => Err::<ProbeResult, ErrorReason>(ErrorReason::Unknown),
        },
{
    match chain {
        Some(certificates) => Ok(ProbeResult { endpoint, certificates, probe_result: handshake }),
        None => match handshake {
            Err(m) => Err(ErrorReason::HandshakeError(m)),
            Ok(()) => Err(ErrorReason::Unknown),
        },
    }
}

/// The compute half of one endpoint probe: takes the handshake outcome
/// and the raw captured chain, parses, and classifies. A captured chain
/// whose certificates all parse always yields a `ProbeResult` carrying
/// exactly those certificates, whatever the handshake verdict.
pub fn probe_outcome(
    endpoint: Endpoint,
    handshake: Result<(), String>,
    chain: Option<Vec<Vec<u8>>>,
) -> (r: Result<ProbeResult, ErrorReason>)
    ensures
        chain matches Some(ders) ==> (r is Ok
            <==> (forall|i: int| 0 <= i < ders@.len() ==> spec_cert_parse_ok(#[trigger] ders@[i]@))),
        chain matches Some(ders) ==> match r {
            Ok(pr) => pr.endpoint == endpoint
                && pr.certificates@.len() == ders@.len()
                && (forall|i: int| 0 <= i < pr.certificates@.len()
                    ==> (#[trigger] pr.certificates@[i])@ == spec_parsed_cert(ders@[i]@))
                && (forall|i: int| 0 <= i < pr.certificates@.len() ==> (#[trigger] pr.certificates@[i]).wf())
                && pr.probe_result == handshake,
            Err(e) => e matches ErrorReason::CertificateParse,
        },
        chain is None ==> r == match handshake {
            Err(m) => Err::<ProbeResult, ErrorReason>(ErrorReason::HandshakeError(m)),
            Ok(u) => Err::<ProbeResult, ErrorReason>(ErrorReason::Unknown),
        },
{
    match chain {
        Some(ders) => {
            match parse_chain(&ders) {
                Ok(certs) => {
                    let ghost certs_v = certs@;
                    let r = classify_probe(endpoint, handshake, Some(certs));
                    proof {
                        let pr = r.unwrap();
                        assert(pr.endpoint == endpoint);
                        assert(pr.probe_result == handshake);
                        assert(pr.certificates@ == certs_v);
                        assert(pr.certificates@.len() == ders@.len());
                        assert forall|j: int| 0 <= j < pr.certificates@.len()
                            implies (#[trigger] pr.certificates@[j])@ == spec_parsed_cert(ders@[j]@) by {
                            assert(certs_v[j]@ == spec_parsed_cert(ders@[j]@));
                        }
                        assert forall|j: int| 0 <= j < pr.certificates@.len()
                            implies (#[trigger] pr.certificates@[j]).wf() by {
                            assert(certs_v[j].wf());
                        }
                    }
                    r
                },
                Err(e) => Err(e),
            }
        },
        None => classify_probe(endpoint, handshake, None),
    }
}

/// The successful observations of a list of per-endpoint outcomes, in
/// order.
pub open spec fn spec_ok_outcomes(outcomes: Seq<Result<ProbeResultV, ErrorReason>>) -> Seq<ProbeResultV>
    decreases outcomes.len(),
{
    if outcomes.len() == 0 {
        Seq::empty()
    } else {
        let rest = spec_ok_outcomes(outcomes.drop_last());
        match outcomes.last() {
            Ok(pr) => rest.push(pr),
            Err(e) => rest,
        }
    }
}

/// The first error of a list of per-endpoint outcomes, if any.
pub open spec fn spec_first_error(outcomes: Seq<Result<ProbeResultV, ErrorReason>>) -> Option<ErrorReason>
    decreases outcomes.len(),
{
    if outcomes.len() == 0 {
        None
    } else {
        match spec_first_error(outcomes.drop_last()) {
            Some(e) => Some(e),
            None => match outcomes.last() {
                Ok(pr) => None,
                Err(e) => Some(e),
            },
        }
    }
}

/// The per-endpoint outcomes at the spec level.
pub open spec fn spec_outcomes_view(s: Seq<Result<ProbeResult, ErrorReason>>) -> Seq<Result<ProbeResultV, ErrorReason>> {
    Seq::new(s.len(), |i: int| match s[i] {
        Ok(pr) => Ok::<ProbeResultV, ErrorReason>(pr@),
        Err(e) => Err::<ProbeResultV, ErrorReason>(e),
    })
}

/// Aggregates a target's per-endpoint outcomes without short-circuiting:
/// every endpoint that was observed contributes its result, in order; a
/// target whose endpoints all failed reports its first error.
#[verifier::loop_isolation(false)]
pub fn collect_probe_results(outcomes: Vec<Result<ProbeResult, ErrorReason>>) -> (r: Result<Vec<ProbeResult>, ErrorReason>)
    ensures
        r is Ok <==> (spec_ok_outcomes(spec_outcomes_view(outcomes@)).len() > 0
            || spec_first_error(spec_outcomes_view(outcomes@)) is None),
        r matches Ok(v) ==> Seq::new(v@.len(), |i: int| v@[i]@)
            == spec_ok_outcomes(spec_outcomes_view(outcomes@)),
        r matches Err(e) ==> Some(e) == spec_first_error(spec_outcomes_view(outcomes@)),
{
    let ghost ov = spec_outcomes_view(outcomes@);
    let mut remaining = outcomes;
    let mut results: Vec<ProbeResult> = Vec::new();
    let mut first_error: Option<ErrorReason> = None;
    let total: usize = remaining.len();
    let ghost n = ov.len();
    let mut i: usize = 0;
    while remaining.len() > 0
        invariant
            n == total,
            i + remaining@.len() == n,
            spec_outcomes_view(remaining@) == ov.skip(i as int),
            Seq::new(results@.len(), |j: int| results@[j]@) == spec_ok_outcomes(ov.take(i as int)),
            match first_error {
                Some(e) => Some(e) == spec_first_error(ov.take(i as int)),
                None => spec_first_error(ov.take(i as int)) is None,
            },
        decreases remaining@.len(),
    {
        let ghost pre = remaining@;
        let outcome = remaining.remove(0);
        proof {
            assert(spec_outcomes_view(pre)[0] == ov.skip(i as int)[0]);
            assert(ov[i as int] == match pre[0] {
                Ok(pr) => Ok::<ProbeResultV, ErrorReason>(pr@),
                Err(e) => Err::<ProbeResultV, ErrorReason>(e),
            });
            assert forall|j: int| 0 <= j < remaining@.len()
                implies spec_outcomes_view(remaining@)[j] == ov.skip(i + 1)[j] by {
                assert(remaining@[j] == pre[j + 1]);
                assert(spec_outcomes_view(pre)[j + 1] == ov.skip(i as int)[j + 1]);
            }
            assert(spec_outcomes_view(remaining@) =~= ov.skip(i + 1));
            assert(ov.take(i + 1).drop_last() =~= ov.take(i as int));
            assert(ov.take(i + 1).last() == ov[i as int]);
        }
        match outcome {
            Ok(pr) => {
                results.push(pr);
                proof {
                    assert(Seq::new(results@.len(), |j: int| results@[j]@)
                        =~= spec_ok_outcomes(ov.take(i + 1)));
                }
            },
            Err(e) => {
                if first_error.is_none() {
                    first_error = Some(e);
                }
                proof {
                    assert(Seq::new(results@.len(), |j: int| results@[j]@)
                        =~= spec_ok_outcomes(ov.take(i + 1)));
                }
            },
        }
        i = i + 1;
    }
    proof {
        assert(ov.take(n as int) =~= ov);
    }
    if results.len() > 0 {
        return Ok(results);
    }
    match first_error {
        Some(e) => Err(e),
        None => Ok(results),
    }
}

} // verus!
