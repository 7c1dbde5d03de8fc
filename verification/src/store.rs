//! The in-memory store: the content-addressed certificate table and the
//! per-target probe state. The certificate table is write-once per
//! identifier; every identifier referenced by any endpoint state resolves
//! to a stored certificate; an endpoint's certificate list is replaced
//! atomically on each applied probe.

use vstd::prelude::*;

use crate::cert::{CertificateIdentifier, ParsedCertificate, ParsedCertificateV};
use crate::config::{ConnectionParameters, SchedulerOverrideConfig};
use crate::prober::ProbeResult;
use crate::target::{Endpoint, EndpointV, Target};
use crate::text::bytes_eq;

verus! {

/// The key type of the certificate table: serial bytes and fingerprint.
pub type IdKey = (Seq<u8>, Seq<u8>);

/// The state of one probed endpoint: which certificates its last probe
/// observed, and how the probe went.
#[derive(Debug)]
pub struct EndpointState {
    pub endpoint: Endpoint,
    pub target: Option<Target>,
    pub cert_idents: Vec<CertificateIdentifier>,
    pub probe_result: Result<(), String>,
    /// Milliseconds since the Unix epoch, if ever updated.
    pub last_update: Option<i64>,
}

/// The spec-level shape of an endpoint state.
#[verifier::ext_equal]
pub struct EndpointStateV {
    pub endpoint: EndpointV,
    pub target: Option<(Seq<char>, u16)>,
    pub cert_idents: Seq<IdKey>,
    pub probe_result: Result<(), Seq<char>>,
    pub last_update: Option<i64>,
}

impl View for EndpointState {
    type V = EndpointStateV;

    open spec fn view(&self) -> EndpointStateV {
        EndpointStateV {
            endpoint: self.endpoint@,
            target: match &self.target { Some(t) => Some(t@), None => None },
            cert_idents: Seq::new(self.cert_idents@.len(), |i: int| self.cert_idents@[i]@),
            probe_result: match &self.probe_result { Ok(u) => Ok(()), Err(m) => Err(m@) },
            last_update: self.last_update,
        }
    }
}

impl EndpointState {
    /// A fresh state with nothing probed yet.
    pub fn new(endpoint: Endpoint) -> (r: EndpointState)
        ensures
            r.endpoint@ == endpoint@,
            r.target is None,
            r.cert_idents@.len() == 0,
            r.probe_result is Ok,
            r.last_update is None,
    {
        EndpointState {
            endpoint,
            target: None,
            cert_idents: Vec::new(),
            probe_result: Ok(()),
            last_update: None,
        }
    }

    /// A fresh state carrying the owning target.
    pub fn with_target(endpoint: Endpoint, target: Target) -> (r: EndpointState)
        ensures
            r.endpoint@ == endpoint@,
            r.target matches Some(t) && t@ == target@,
            r.cert_idents@.len() == 0,
            r.probe_result is Ok,
            r.last_update is None,
    {
        EndpointState {
            endpoint,
            target: Some(target),
            cert_idents: Vec::new(),
            probe_result: Ok(()),
            last_update: None,
        }
    }
}

/// The state of one registered target: its profile, scheduling fields, and
/// the endpoint states of its last applied probe.
#[derive(Debug)]
pub struct TargetState {
    pub endpoints: Vec<EndpointState>,
    pub conn_params: ConnectionParameters,
    pub schedule_config: SchedulerOverrideConfig,
    /// Milliseconds since the Unix epoch of the last probe, if any.
    pub last_probe: Option<i64>,
    /// Milliseconds since the Unix epoch of the next due probe, if set.
    pub next_probe: Option<i64>,
    /// Whether a probe of this target is currently in flight.
    pub in_flight: bool,
}

/// The spec-level scheduling fields of a target state.
#[verifier::ext_equal]
pub struct TargetStateV {
    pub endpoints: Seq<EndpointStateV>,
    pub schedule_interval_ms: Option<u64>,
    pub last_probe: Option<i64>,
    pub next_probe: Option<i64>,
    pub in_flight: bool,
}

impl View for TargetState {
    type V = TargetStateV;

    open spec fn view(&self) -> TargetStateV {
        TargetStateV {
            endpoints: Seq::new(self.endpoints@.len(), |i: int| self.endpoints@[i]@),
            schedule_interval_ms: self.schedule_config.interval_ms,
            last_probe: self.last_probe,
            next_probe: self.next_probe,
            in_flight: self.in_flight,
        }
    }
}

impl TargetState {
    /// A fresh, never-probed state with the given profile.
    pub fn new(conn_params: ConnectionParameters, schedule_config: SchedulerOverrideConfig) -> (r: TargetState)
        ensures
            r@.endpoints.len() == 0,
            r@.schedule_interval_ms == schedule_config.interval_ms,
            r@.last_probe is None,
            r@.next_probe is None,
            !r@.in_flight,
    {
        TargetState {
            endpoints: Vec::new(),
            conn_params,
            schedule_config,
            last_probe: None,
            next_probe: None,
            in_flight: false,
        }
    }
}

/// The certificate table built from the entry list; later entries override,
/// though well-formed stores never hold one key twice.
pub open spec fn spec_cert_map_of(entries: Seq<(CertificateIdentifier, ParsedCertificate)>) -> Map<IdKey, ParsedCertificateV>
    decreases entries.len(),
{
    if entries.len() == 0 {
        Map::empty()
    } else {
        spec_cert_map_of(entries.drop_last()).insert(entries.last().0@, entries.last().1@)
    }
}

/// A key is in the table iff some entry carries it.
pub proof fn lemma_cert_map_dom(entries: Seq<(CertificateIdentifier, ParsedCertificate)>, k: IdKey)
    ensures
        spec_cert_map_of(entries).dom().contains(k)
            <==> exists|i: int| 0 <= i < entries.len() && (#[trigger] entries[i].0)@ == k,
    decreases entries.len(),
{
    if entries.len() > 0 {
        let prefix = entries.drop_last();
        lemma_cert_map_dom(prefix, k);
        assert(forall|i: int| 0 <= i < prefix.len() ==> #[trigger] prefix[i] == entries[i]);
        if entries.last().0@ == k {
            assert(entries[entries.len() - 1].0@ == k);
        } else if spec_cert_map_of(entries).dom().contains(k) {
            let i = choose|i: int| 0 <= i < prefix.len() && (#[trigger] prefix[i].0)@ == k;
            assert(entries[i].0@ == k);
        } else if exists|i: int| 0 <= i < entries.len() && (#[trigger] entries[i].0)@ == k {
            let i = choose|i: int| 0 <= i < entries.len() && (#[trigger] entries[i].0)@ == k;
            assert(prefix[i].0@ == k);
        }
    }
}

/// Inserting one certificate: the table is unchanged when its key is
/// already present, extended otherwise.
pub open spec fn spec_add_cert(m: Map<IdKey, ParsedCertificateV>, c: ParsedCertificateV) -> Map<IdKey, ParsedCertificateV> {
    if m.dom().contains(c.id_key()) {
        m
    } else {
        m.insert(c.id_key(), c)
    }
}

/// Inserting a list of certificates, in order.
pub open spec fn spec_add_certs(m: Map<IdKey, ParsedCertificateV>, cs: Seq<ParsedCertificateV>) -> Map<IdKey, ParsedCertificateV>
    decreases cs.len(),
{
    if cs.len() == 0 {
        m
    } else {
        spec_add_cert(spec_add_certs(m, cs.drop_last()), cs.last())
    }
}

/// The certificate table is write-once: inserting a certificate whose key
/// is already present leaves the table as it was, and a fresh insert binds
/// the key to exactly the inserted certificate. So the certificate stored
/// under an identifier is the first one ever inserted with it.
pub proof fn lemma_store_write_once(m: Map<IdKey, ParsedCertificateV>, c: ParsedCertificateV)
    ensures
        m.dom().contains(c.id_key()) ==> spec_add_cert(m, c) == m,
        !m.dom().contains(c.id_key()) ==> spec_add_cert(m, c)[c.id_key()] == c,
        spec_add_cert(m, c).dom().contains(c.id_key()),
{
}


/// Inserting the certificates of a list of probe results, result by
/// result, each list in order.
pub open spec fn spec_add_results(m: Map<IdKey, ParsedCertificateV>, rs: Seq<crate::prober::ProbeResultV>) -> Map<IdKey, ParsedCertificateV>
    decreases rs.len(),
{
    if rs.len() == 0 {
        m
    } else {
        spec_add_certs(spec_add_results(m, rs.drop_last()), rs.last().certificates)
    }
}

/// The endpoint states an applied probe leaves on its target.
pub open spec fn spec_ep_states_of(rs: Seq<crate::prober::ProbeResultV>, t: (Seq<char>, u16), now: i64) -> Seq<EndpointStateV> {
    Seq::new(rs.len(), |i: int| EndpointStateV {
        endpoint: rs[i].endpoint,
        target: Some(t),
        cert_idents: Seq::new(rs[i].certificates.len(), |j: int| rs[i].certificates[j].id_key()),
        probe_result: rs[i].probe_result,
        last_update: Some(now),
    })
}

/// The target state after an applied probe: endpoints replaced atomically,
/// `last_probe` set to now, scheduling fields untouched.
pub open spec fn spec_applied_target_state(st: TargetStateV, rs: Seq<crate::prober::ProbeResultV>, t: (Seq<char>, u16), now: i64) -> TargetStateV {
    TargetStateV {
        endpoints: spec_ep_states_of(rs, t, now),
        schedule_interval_ms: st.schedule_interval_ms,
        last_probe: Some(now),
        next_probe: st.next_probe,
        in_flight: st.in_flight,
    }
}

/// The target list after an applied probe: the probed target's state
/// replaced, every other entry untouched.
pub open spec fn spec_apply_targets(
    ts: Seq<((Seq<char>, u16), TargetStateV)>,
    target: (Seq<char>, u16),
    rs: Seq<crate::prober::ProbeResultV>,
    now: i64,
) -> Seq<((Seq<char>, u16), TargetStateV)> {
    Seq::new(ts.len(), |i: int| if ts[i].0 == target {
        (ts[i].0, spec_applied_target_state(ts[i].1, rs, target, now))
    } else {
        ts[i]
    })
}

/// A key is in the table after `spec_add_certs` iff it was there before or
/// one of the inserted certificates carries it.
pub proof fn lemma_add_certs_dom(m: Map<IdKey, ParsedCertificateV>, cs: Seq<ParsedCertificateV>, k: IdKey)
    ensures
        spec_add_certs(m, cs).dom().contains(k)
            <==> m.dom().contains(k) || exists|i: int| 0 <= i < cs.len() && (#[trigger] cs[i]).id_key() == k,
    decreases cs.len(),
{
    if cs.len() > 0 {
        lemma_add_certs_dom(m, cs.drop_last(), k);
        assert(forall|i: int| 0 <= i < cs.len() - 1 ==> #[trigger] cs.drop_last()[i] == cs[i]);
        if !spec_add_certs(m, cs).dom().contains(k)
            && (exists|i: int| 0 <= i < cs.len() && (#[trigger] cs[i]).id_key() == k) {
            let i = choose|i: int| 0 <= i < cs.len() && (#[trigger] cs[i]).id_key() == k;
            if i < cs.len() - 1 {
                assert(cs.drop_last()[i].id_key() == k);
            }
        }
    }
}


/// Inserting certificates never disturbs keys already present: the table
/// is write-once, so old mappings keep their values.
pub proof fn lemma_add_certs_preserves(m: Map<IdKey, ParsedCertificateV>, cs: Seq<ParsedCertificateV>, k: IdKey)
    requires
        m.dom().contains(k),
    ensures
        spec_add_certs(m, cs).dom().contains(k),
        spec_add_certs(m, cs)[k] == m[k],
    decreases cs.len(),
{
    if cs.len() > 0 {
        lemma_add_certs_preserves(m, cs.drop_last(), k);
        lemma_add_certs_dom(m, cs.drop_last(), k);
    }
}

/// Inserting certificates whose keys are all present changes nothing.
pub proof fn lemma_add_certs_absorbed(m: Map<IdKey, ParsedCertificateV>, cs: Seq<ParsedCertificateV>)
    requires
        forall|i: int| 0 <= i < cs.len() ==> m.dom().contains((#[trigger] cs[i]).id_key()),
    ensures
        spec_add_certs(m, cs) == m,
    decreases cs.len(),
{
    if cs.len() > 0 {
        assert(forall|i: int| 0 <= i < cs.len() - 1 ==> #[trigger] cs.drop_last()[i] == cs[i]);
        lemma_add_certs_absorbed(m, cs.drop_last());
        assert(cs[cs.len() - 1].id_key() == cs.last().id_key());
    }
}

/// After inserting the certificates of probe results, every key they carry
/// is in the table, and every key that was in the table still is.
pub proof fn lemma_add_results_dom(m: Map<IdKey, ParsedCertificateV>, rs: Seq<crate::prober::ProbeResultV>, k: IdKey)
    ensures
        m.dom().contains(k) ==> spec_add_results(m, rs).dom().contains(k),
        (exists|i: int, j: int| 0 <= i < rs.len() && 0 <= j < rs[i].certificates.len()
            && (#[trigger] rs[i].certificates[j]).id_key() == k) ==> spec_add_results(m, rs).dom().contains(k),
    decreases rs.len(),
{
    if rs.len() > 0 {
        lemma_add_results_dom(m, rs.drop_last(), k);
        lemma_add_certs_dom(spec_add_results(m, rs.drop_last()), rs.last().certificates, k);
        assert(forall|i: int| 0 <= i < rs.len() - 1 ==> #[trigger] rs.drop_last()[i] == rs[i]);
        if exists|i: int, j: int| 0 <= i < rs.len() && 0 <= j < rs[i].certificates.len()
            && (#[trigger] rs[i].certificates[j]).id_key() == k {
            let (i, j) = choose|i: int, j: int| 0 <= i < rs.len()
                && 0 <= j < rs[i].certificates.len() && (#[trigger] rs[i].certificates[j]).id_key() == k;
            if i < rs.len() - 1 {
                assert(rs.drop_last()[i].certificates[j].id_key() == k);
            } else {
                assert(rs.last().certificates[j].id_key() == k);
            }
        }
    }
}

/// Applying the certificates of the same probe results a second time
/// changes nothing.
pub proof fn lemma_add_results_idempotent(m: Map<IdKey, ParsedCertificateV>, rs: Seq<crate::prober::ProbeResultV>)
    ensures
        spec_add_results(spec_add_results(m, rs), rs) == spec_add_results(m, rs),
{
    let m1 = spec_add_results(m, rs);
    lemma_add_results_absorbed_all(m, rs, rs);
}

/// Helper: inserting the certificates of `sub` into a table that already
/// went through `spec_add_results(m, rs)` changes nothing when every
/// certificate of `sub` also occurs in `rs`.
proof fn lemma_add_results_absorbed_all(m: Map<IdKey, ParsedCertificateV>, rs: Seq<crate::prober::ProbeResultV>, sub: Seq<crate::prober::ProbeResultV>)
    requires
        forall|i: int, j: int| 0 <= i < sub.len() && 0 <= j < sub[i].certificates.len()
            ==> exists|a: int, b: int| 0 <= a < rs.len() && 0 <= b < rs[a].certificates.len()
                && (#[trigger] rs[a].certificates[b]).id_key()
                    == (#[trigger] sub[i].certificates[j]).id_key(),
    ensures
        spec_add_results(spec_add_results(m, rs), sub) == spec_add_results(m, rs),
    decreases sub.len(),
{
    let m1 = spec_add_results(m, rs);
    if sub.len() > 0 {
        assert(forall|i: int| 0 <= i < sub.len() - 1 ==> #[trigger] sub.drop_last()[i] == sub[i]);
        lemma_add_results_absorbed_all(m, rs, sub.drop_last());
        assert forall|j: int| 0 <= j < sub.last().certificates.len()
            implies m1.dom().contains((#[trigger] sub.last().certificates[j]).id_key()) by {
            assert(sub[sub.len() - 1].certificates[j].id_key() == sub.last().certificates[j].id_key());
            lemma_add_results_dom(m, rs, sub.last().certificates[j].id_key());
        }
        lemma_add_certs_absorbed(m1, sub.last().certificates);
    }
}

/// Applying the same probe results twice, at one instant, leaves the same
/// store state as applying them once: the certificate table is write-once
/// and the endpoint replacement is a function of the results alone.
pub proof fn lemma_apply_probe_idempotent(
    cm: Map<IdKey, ParsedCertificateV>,
    ts: Seq<((Seq<char>, u16), TargetStateV)>,
    target: (Seq<char>, u16),
    rs: Seq<crate::prober::ProbeResultV>,
    now: i64,
)
    ensures
        spec_add_results(spec_add_results(cm, rs), rs) == spec_add_results(cm, rs),
        spec_apply_targets(spec_apply_targets(ts, target, rs, now), target, rs, now)
            == spec_apply_targets(ts, target, rs, now),
{
    lemma_add_results_idempotent(cm, rs);
    let once = spec_apply_targets(ts, target, rs, now);
    let twice = spec_apply_targets(once, target, rs, now);
    assert forall|i: int| 0 <= i < ts.len() implies #[trigger] twice[i] == once[i] by {
        if ts[i].0 == target {
            assert(once[i].0 == target);
            assert(twice[i].1 =~~= once[i].1);
        }
    }
    assert(twice =~= once);
}


/// No dangling references: in a well-formed store, every certificate
/// identifier referenced by any endpoint state of any target resolves in
/// the certificate table.
pub proof fn lemma_store_no_dangling(s: Store, t: int, e: int, k: int)
    requires
        s.wf(),
        0 <= t < s.target_states().len(),
        0 <= e < s.target_states()[t].endpoints.len(),
        0 <= k < s.target_states()[t].endpoints[e].cert_idents.len(),
    ensures
        s.cert_map().dom().contains(s.target_states()[t].endpoints[e].cert_idents[k]),
{
}



/// The certificates of a block list's CERTIFICATE sections, in order.
pub open spec fn spec_parsed_cert_list(blocks: Seq<(Seq<char>, Seq<u8>)>) -> Seq<ParsedCertificateV>
    decreases blocks.len(),
{
    if blocks.len() == 0 {
        Seq::empty()
    } else {
        let rest = spec_parsed_cert_list(blocks.drop_last());
        if blocks.last().0 == "CERTIFICATE"@ {
            rest.push(crate::cert::spec_parsed_cert(blocks.last().1))
        } else {
            rest
        }
    }
}

/// Every CERTIFICATE section's certificate occurs in the parsed list.
proof fn lemma_parsed_cert_list_contains(blocks: Seq<(Seq<char>, Seq<u8>)>, i: int)
    requires
        0 <= i < blocks.len(),
        blocks[i].0 == "CERTIFICATE"@,
    ensures
        exists|l: int| 0 <= l < spec_parsed_cert_list(blocks).len()
            && #[trigger] spec_parsed_cert_list(blocks)[l] == crate::cert::spec_parsed_cert(blocks[i].1),
    decreases blocks.len(),
{
    let full = spec_parsed_cert_list(blocks);
    if i == blocks.len() - 1 {
        assert(full[full.len() - 1] == crate::cert::spec_parsed_cert(blocks[i].1));
    } else {
        let prefix = blocks.drop_last();
        assert(prefix[i] == blocks[i]);
        lemma_parsed_cert_list_contains(prefix, i);
        let l = choose|l: int| 0 <= l < spec_parsed_cert_list(prefix).len()
            && #[trigger] spec_parsed_cert_list(prefix)[l] == crate::cert::spec_parsed_cert(prefix[i].1);
        assert(full[l] == crate::cert::spec_parsed_cert(blocks[i].1));
    }
}

/// Parses every CERTIFICATE section of a PEM block list, in order,
/// skipping sections with other tags; one undecodable certificate fails
/// the whole list.
#[verifier::loop_isolation(false)]
#[verifier::rlimit(100)]
fn parse_certificate_blocks(blocks: &Vec<(String, Vec<u8>)>) -> (r: Result<Vec<ParsedCertificate>, crate::error::ErrorReason>)
    ensures
        r is Ok <==> (forall|i: int| 0 <= i < blocks@.len()
            && (#[trigger] blocks@[i].0)@ == "CERTIFICATE"@
            ==> crate::cert::spec_cert_parse_ok(blocks@[i].1@)),
        match r {
            Ok(cs) => Seq::new(cs@.len(), |l: int| cs@[l]@)
                == spec_parsed_cert_list(Seq::new(blocks@.len(), |i: int| (blocks@[i].0@, blocks@[i].1@))),
            Err(e) => e matches crate::error::ErrorReason::CertificateParse,
        },
{
    let ghost bv = Seq::new(blocks@.len(), |i: int| (blocks@[i].0@, blocks@[i].1@));
    let mut certs: Vec<ParsedCertificate> = Vec::new();
    let n: usize = blocks.len();
    for i in 0..n
        invariant
            n == blocks@.len(),
            bv == Seq::new(blocks@.len(), |j: int| (blocks@[j].0@, blocks@[j].1@)),
            forall|j: int| 0 <= j < i && (#[trigger] blocks@[j].0)@ == "CERTIFICATE"@
                ==> crate::cert::spec_cert_parse_ok(blocks@[j].1@),
            Seq::new(certs@.len(), |l: int| certs@[l]@) == spec_parsed_cert_list(bv.take(i as int)),
    {
        proof {
            assert(bv.take(i + 1).drop_last() =~= bv.take(i as int));
            assert(bv.take(i + 1).last() == bv[i as int]);
        }
        if crate::filestore::str_eq(blocks[i].0.as_str(), "CERTIFICATE") {
            match ParsedCertificate::parse_der(blocks[i].1.as_slice()) {
                Ok(c) => {
                    certs.push(c);
                    proof {
                        assert(Seq::new(certs@.len(), |l: int| certs@[l]@)
                            =~= spec_parsed_cert_list(bv.take(i + 1)));
                    }
                },
                Err(_) => {
                    return Err(crate::error::ErrorReason::CertificateParse);
                },
            };
        } else {
            proof {
                assert(Seq::new(certs@.len(), |l: int| certs@[l]@)
                    =~= spec_parsed_cert_list(bv.take(i + 1)));
            }
        }
    }
    proof {
        assert(bv.take(n as int) =~= bv);
    }
    Ok(certs)
}

/// The in-memory store.
#[derive(Debug)]
pub struct Store {
    /// The content-addressed certificate table.
    pub cert_store: Vec<(CertificateIdentifier, ParsedCertificate)>,
    /// The registered targets and their states.
    pub target_store: Vec<(Target, TargetState)>,
}

impl Store {
    /// The certificate table as a map.
    pub open spec fn cert_map(&self) -> Map<IdKey, ParsedCertificateV> {
        spec_cert_map_of(self.cert_store@)
    }

    /// The registered target keys, in registration order.
    pub open spec fn target_keys(&self) -> Seq<(Seq<char>, u16)> {
        Seq::new(self.target_store@.len(), |i: int| self.target_store@[i].0@)
    }

    /// The target states, in registration order.
    pub open spec fn target_states(&self) -> Seq<TargetStateV> {
        Seq::new(self.target_store@.len(), |i: int| self.target_store@[i].1@)
    }

    /// Well-formedness: certificate keys and target keys are unique, and
    /// every identifier referenced by any endpoint state resolves in the
    /// certificate table — no dangling references.
    pub open spec fn wf(&self) -> bool {
        &&& (forall|i: int, j: int| 0 <= i < j < self.cert_store@.len()
                ==> (#[trigger] self.cert_store@[i].0)@ != (#[trigger] self.cert_store@[j].0)@)
        &&& (forall|i: int, j: int| 0 <= i < j < self.target_store@.len()
                ==> (#[trigger] self.target_store@[i].0)@ != (#[trigger] self.target_store@[j].0)@)
        &&& (forall|t: int, e: int, k: int|
                0 <= t < self.target_states().len()
                && 0 <= e < self.target_states()[t].endpoints.len()
                && 0 <= k < self.target_states()[t].endpoints[e].cert_idents.len()
                ==> self.cert_map().dom().contains(
                    #[trigger] self.target_states()[t].endpoints[e].cert_idents[k]))
    }

    /// An empty store.
    pub fn new() -> (r: Store)
        ensures
            r.wf(),
            r.cert_map() == Map::<IdKey, ParsedCertificateV>::empty(),
            r.target_store@.len() == 0,
    {
        Store { cert_store: Vec::new(), target_store: Vec::new() }
    }

    /// Whether an identifier is in the certificate table.
    pub fn contains_certificate(&self, id: &CertificateIdentifier) -> (r: bool)
        ensures
            r == self.cert_map().dom().contains(id@),
    {
        let n: usize = self.cert_store.len();
        for i in 0..n
            invariant
                n == self.cert_store@.len(),
                forall|j: int| 0 <= j < i ==> (#[trigger] self.cert_store@[j].0)@ != id@,
        {
            let entry_id = &self.cert_store[i].0;
            if bytes_eq(entry_id.serial_number.as_slice(), id.serial_number.as_slice())
                && bytes_eq(entry_id.fingerprint.as_slice(), id.fingerprint.as_slice()) {
                proof {
                    lemma_cert_map_dom(self.cert_store@, id@);
                }
                return true;
            }
        }
        proof {
            lemma_cert_map_dom(self.cert_store@, id@);
        }
        false
    }

    /// Inserts a certificate iff its identifier is absent, and returns the
    /// identifier. Write-once: a present identifier is never re-bound.
    pub fn add_certificate(&mut self, cert: &ParsedCertificate) -> (id: CertificateIdentifier)
        requires
            old(self).wf(),
        ensures
            final(self).wf(),
            id@ == cert@.id_key(),
            final(self).cert_map() == spec_add_cert(old(self).cert_map(), cert@),
            final(self).target_store == old(self).target_store,
    {
        let id = cert.certificate_identifier();
        if !self.contains_certificate(&id) {
            let entry_id = cert.certificate_identifier();
            self.cert_store.push((entry_id, cert.duplicate()));
            proof {
                assert(self.cert_store@.drop_last() =~= old(self).cert_store@);
                assert forall|i: int, j: int| 0 <= i < j < self.cert_store@.len() implies
                    (#[trigger] self.cert_store@[i].0)@ != (#[trigger] self.cert_store@[j].0)@ by {
                    if j < self.cert_store@.len() - 1 {
                        assert(old(self).cert_store@[i].0@ != old(self).cert_store@[j].0@);
                    } else {
                        lemma_cert_map_dom(old(self).cert_store@, id@);
                    }
                }
                assert forall|t: int, e: int, k: int|
                    0 <= t < self.target_states().len()
                    && 0 <= e < self.target_states()[t].endpoints.len()
                    && 0 <= k < self.target_states()[t].endpoints[e].cert_idents.len()
                    implies self.cert_map().dom().contains(
                        #[trigger] self.target_states()[t].endpoints[e].cert_idents[k]) by {
                    assert(self.target_states() =~= old(self).target_states());
                    assert(old(self).cert_map().dom().contains(
                        old(self).target_states()[t].endpoints[e].cert_idents[k]));
                }
            }
        }
        id
    }

    /// Inserts each certificate of a list, in order; returns their
    /// identifiers, order-preserving.
    pub fn add_certificates(&mut self, certificates: &Vec<ParsedCertificate>) -> (ids: Vec<CertificateIdentifier>)
        requires
            old(self).wf(),
        ensures
            final(self).wf(),
            ids@.len() == certificates@.len(),
            forall|i: int| 0 <= i < ids@.len() ==> (#[trigger] ids@[i])@ == certificates@[i]@.id_key(),
            final(self).cert_map() == spec_add_certs(
                old(self).cert_map(),
                Seq::new(certificates@.len(), |i: int| certificates@[i]@),
            ),
            final(self).target_store == old(self).target_store,
    {
        let ghost certs_v = Seq::new(certificates@.len(), |i: int| certificates@[i]@);
        let mut ids: Vec<CertificateIdentifier> = Vec::new();
        let n: usize = certificates.len();
        for i in 0..n
            invariant
                n == certificates@.len(),
                certs_v == Seq::new(certificates@.len(), |j: int| certificates@[j]@),
                ids@.len() == i,
                forall|j: int| 0 <= j < i ==> (#[trigger] ids@[j])@ == certificates@[j]@.id_key(),
                self.wf(),
                self.cert_map() == spec_add_certs(old(self).cert_map(), certs_v.take(i as int)),
                self.target_store == old(self).target_store,
        {
            let id = self.add_certificate(&certificates[i]);
            ids.push(id);
            proof {
                assert(certs_v.take(i + 1).drop_last() =~= certs_v.take(i as int));
                assert(certs_v.take(i + 1).last() == certs_v[i as int]);
            }
        }
        proof {
            assert(certs_v.take(n as int) =~= certs_v);
        }
        ids
    }


    /// The target list as (key, state) views.
    pub open spec fn targets_view(&self) -> Seq<((Seq<char>, u16), TargetStateV)> {
        Seq::new(self.target_store@.len(), |i: int| (self.target_store@[i].0@, self.target_store@[i].1@))
    }

    /// Applies the results of one probe cycle of a target: inserts every
    /// observed certificate (write-once), then atomically replaces the
    /// target's endpoint states and sets its last-probe time. A target
    /// that is not registered only has its certificates recorded.
    #[verifier::loop_isolation(false)]
    pub fn update_probe_result(&mut self, target: &Target, probe_results: &Vec<ProbeResult>, now_ms: i64)
        requires
            old(self).wf(),
        ensures
            final(self).wf(),
            final(self).cert_map() == spec_add_results(
                old(self).cert_map(),
                Seq::new(probe_results@.len(), |i: int| probe_results@[i]@),
            ),
            final(self).targets_view() == spec_apply_targets(
                old(self).targets_view(),
                target@,
                Seq::new(probe_results@.len(), |i: int| probe_results@[i]@),
                now_ms,
            ),
    {
        let ghost rv = Seq::new(probe_results@.len(), |i: int| probe_results@[i]@);
        let ghost eps_spec = spec_ep_states_of(rv, target@, now_ms);
        let mut ep_states: Vec<EndpointState> = Vec::new();
        let n: usize = probe_results.len();
        for i in 0..n
            invariant
                n == probe_results@.len(),
                rv == Seq::new(probe_results@.len(), |j: int| probe_results@[j]@),
                eps_spec == spec_ep_states_of(rv, target@, now_ms),
                self.wf(),
                self.cert_map() == spec_add_results(old(self).cert_map(), rv.take(i as int)),
                self.target_store == old(self).target_store,
                ep_states@.len() == i,
                forall|j: int| 0 <= j < i ==> (#[trigger] ep_states@[j])@ == eps_spec[j],
        {
            let pr = &probe_results[i];
            let ids = self.add_certificates(&pr.certificates);
            let ep = EndpointState {
                endpoint: pr.endpoint.duplicate(),
                target: Some(target.duplicate()),
                cert_idents: ids,
                probe_result: match &pr.probe_result {
                    Ok(u) => Ok(()),
                    Err(m) => Err(m.clone()),
                },
                last_update: Some(now_ms),
            };
            proof {
                assert(rv.take(i + 1).drop_last() =~= rv.take(i as int));
                assert(rv.take(i + 1).last() == rv[i as int]);
                assert(rv[i as int].certificates
                    =~= Seq::new(pr.certificates@.len(), |j: int| pr.certificates@[j]@));
                assert(ep@.cert_idents =~= eps_spec[i as int].cert_idents);
                assert(ep@ =~~= eps_spec[i as int]);
            }
            ep_states.push(ep);
        }
        proof {
            assert(rv.take(n as int) =~= rv);
        }
        let ghost mid = *self;
        let ghost new_map = spec_add_results(old(self).cert_map(), rv);
        proof {
            // every identifier of the fresh endpoint states resolves in the
            // grown table, and everything previously resolvable still does
            assert forall|j: int, k: int| 0 <= j < eps_spec.len()
                && 0 <= k < eps_spec[j].cert_idents.len()
                implies new_map.dom().contains(#[trigger] eps_spec[j].cert_idents[k]) by {
                assert(eps_spec[j].cert_idents[k] == rv[j].certificates[k].id_key());
                lemma_add_results_dom(old(self).cert_map(), rv, rv[j].certificates[k].id_key());
            }
            assert forall|k: IdKey| old(self).cert_map().dom().contains(k)
                implies new_map.dom().contains(k) by {
                lemma_add_results_dom(old(self).cert_map(), rv, k);
            }
        }
        let m: usize = self.target_store.len();
        for j in 0..m
            invariant
                m == self.target_store@.len(),
                *self == mid,
                self.wf(),
                self.cert_map() == new_map,
                eps_spec == spec_ep_states_of(rv, target@, now_ms),
                forall|l: int| 0 <= l < j ==> (#[trigger] self.target_store@[l].0)@ != target@,
                ep_states@.len() == eps_spec.len(),
                forall|l: int| 0 <= l < eps_spec.len() ==> (#[trigger] ep_states@[l])@ == eps_spec[l],
                forall|l: int, k: int| 0 <= l < eps_spec.len() && 0 <= k < eps_spec[l].cert_idents.len()
                    ==> new_map.dom().contains(#[trigger] eps_spec[l].cert_idents[k]),
        {
            if &self.target_store[j].0 == target {
                let st = &mut self.target_store[j].1;
                st.endpoints = ep_states;
                st.last_probe = Some(now_ms);
                proof {
                    let fin = *self;
                    assert(fin.cert_store@ == mid.cert_store@);
                    assert(fin.cert_map() == new_map);
                    // the entry list changed only at j, and only in its state
                    assert(fin.target_store@ == mid.target_store@.update(j as int,
                        (mid.target_store@[j as int].0, fin.target_store@[j as int].1)));
                    assert(fin.target_store@[j as int].1@.endpoints
                        =~= eps_spec);
                    assert(fin.target_store@[j as int].1@
                        =~~= spec_applied_target_state(mid.target_store@[j as int].1@, rv, target@, now_ms));
                    // well-formedness: keys untouched, new endpoints resolve
                    assert forall|a: int, b: int| 0 <= a < b < fin.target_store@.len()
                        implies (#[trigger] fin.target_store@[a].0)@ != (#[trigger] fin.target_store@[b].0)@ by {
                        assert(mid.target_store@[a].0@ != mid.target_store@[b].0@);
                        assert(fin.target_store@[a].0 == mid.target_store@[a].0);
                        assert(fin.target_store@[b].0 == mid.target_store@[b].0);
                    }
                    assert forall|a: int, e: int, k: int|
                        0 <= a < fin.target_states().len()
                        && 0 <= e < fin.target_states()[a].endpoints.len()
                        && 0 <= k < fin.target_states()[a].endpoints[e].cert_idents.len()
                        implies fin.cert_map().dom().contains(
                            #[trigger] fin.target_states()[a].endpoints[e].cert_idents[k]) by {
                        if a == j {
                            assert(fin.target_states()[a].endpoints[e] == eps_spec[e]);
                        } else {
                            assert(fin.target_states()[a] == mid.target_states()[a]);
                            assert(mid.cert_map().dom().contains(
                                mid.target_states()[a].endpoints[e].cert_idents[k]));
                        }
                    }
                    // the final target list is exactly the applied one
                    assert forall|l: int| 0 <= l < fin.targets_view().len()
                        implies #[trigger] fin.targets_view()[l]
                            == spec_apply_targets(mid.targets_view(), target@, rv, now_ms)[l] by {
                        if l == j {
                        } else {
                            assert(mid.target_store@[l].0@ != target@ || l == j) by {
                                if mid.target_store@[l].0@ == target@ && l != j {
                                    assert(mid.target_store@[l].0@ == mid.target_store@[j as int].0@);
                                }
                            }
                        }
                    }
                    assert(fin.targets_view() =~= spec_apply_targets(mid.targets_view(), target@, rv, now_ms));
                }
                return;
            }
        }
        proof {
            assert(self.targets_view() =~= spec_apply_targets(self.targets_view(), target@, rv, now_ms));
        }
    }


    /// Adds every CERTIFICATE section of a PEM bundle to the table,
    /// write-once, skipping sections with other tags. Succeeds exactly
    /// when the bundle is well-formed PEM and every CERTIFICATE section
    /// parses; on any failure the store is untouched. Old mappings keep
    /// their values either way; targets are never touched.
    #[verifier::rlimit(100)]
    #[verifier::spinoff_prover]
    pub fn add_pem_certificates(&mut self, buf: &[u8]) -> (r: Result<(), crate::error::ErrorReason>)
        requires
            old(self).wf(),
        ensures
            final(self).wf(),
            final(self).target_store == old(self).target_store,
            forall|k: IdKey| #[trigger] old(self).cert_map().dom().contains(k)
                ==> final(self).cert_map().dom().contains(k)
                    && final(self).cert_map()[k] == old(self).cert_map()[k],
            r is Err ==> *final(self) == *old(self),
            crate::filestore::spec_pem_blocks(buf@) is None
                ==> r == Err::<(), crate::error::ErrorReason>(crate::error::ErrorReason::InvalidPemTag),
            crate::filestore::spec_pem_blocks(buf@) matches Some(blocks) ==> {
                &&& (r is Ok <==> (forall|i: int| 0 <= i < blocks.len()
                        && (#[trigger] blocks[i]).0 == "CERTIFICATE"@
                        ==> crate::cert::spec_cert_parse_ok(blocks[i].1)))
                &&& (r is Ok ==> forall|i: int| 0 <= i < blocks.len()
                        && (#[trigger] blocks[i]).0 == "CERTIFICATE"@
                        ==> final(self).cert_map().dom().contains(
                            crate::cert::spec_parsed_cert(blocks[i].1).id_key()))
                &&& (r matches Err(e) ==> e matches crate::error::ErrorReason::CertificateParse)
            },
    {
        let blocks = match crate::filestore::pem_parse_many(buf) {
            Ok(b) => b,
            Err(_) => {
                return Err(crate::error::ErrorReason::InvalidPemTag);
            },
        };
        let ghost blocks_v = crate::filestore::spec_pem_blocks(buf@).unwrap();
        proof {
            assert(blocks_v == Seq::new(blocks@.len(), |i: int| (blocks@[i].0@, blocks@[i].1@)));
            assert forall|i: int| 0 <= i < blocks_v.len()
                implies (#[trigger] blocks_v[i]).0 == blocks@[i].0@ && blocks_v[i].1 == blocks@[i].1@ by {
            }
        }
        let certs = match parse_certificate_blocks(&blocks) {
            Ok(cs) => cs,
            Err(e) => {
                proof {
                    if forall|i: int| 0 <= i < blocks_v.len()
                        && (#[trigger] blocks_v[i]).0 == "CERTIFICATE"@
                        ==> crate::cert::spec_cert_parse_ok(blocks_v[i].1) {
                        assert forall|i: int| 0 <= i < blocks@.len()
                            && (#[trigger] blocks@[i].0)@ == "CERTIFICATE"@
                            implies crate::cert::spec_cert_parse_ok(blocks@[i].1@) by {
                            assert(blocks_v[i].0 == blocks@[i].0@);
                            assert(crate::cert::spec_cert_parse_ok(blocks_v[i].1));
                        }
                    }
                }
                return Err(e);
            },
        };
        proof {
            assert forall|i: int| 0 <= i < blocks_v.len()
                && (#[trigger] blocks_v[i]).0 == "CERTIFICATE"@
                implies crate::cert::spec_cert_parse_ok(blocks_v[i].1) by {
                assert(blocks@[i].0@ == blocks_v[i].0);
                assert(crate::cert::spec_cert_parse_ok(blocks@[i].1@));
            }
        }
        let ghost certs_v = Seq::new(certs@.len(), |l: int| certs@[l]@);
        let _ = self.add_certificates(&certs);
        proof {
            assert forall|k: IdKey| #[trigger] old(self).cert_map().dom().contains(k)
                implies self.cert_map().dom().contains(k)
                    && self.cert_map()[k] == old(self).cert_map()[k] by {
                lemma_add_certs_preserves(old(self).cert_map(), certs_v, k);
            }
            assert forall|i: int| 0 <= i < blocks_v.len()
                && (#[trigger] blocks_v[i]).0 == "CERTIFICATE"@
                implies self.cert_map().dom().contains(
                    crate::cert::spec_parsed_cert(blocks_v[i].1).id_key()) by {
                assert(certs_v == spec_parsed_cert_list(blocks_v));
                lemma_parsed_cert_list_contains(blocks_v, i);
                let l = choose|l: int| 0 <= l < spec_parsed_cert_list(blocks_v).len()
                    && #[trigger] spec_parsed_cert_list(blocks_v)[l]
                        == crate::cert::spec_parsed_cert(blocks_v[i].1);
                lemma_add_certs_dom(old(self).cert_map(), certs_v, certs_v[l].id_key());
            }
        }
        Ok(())
    }

    /// Empties the store.
    pub fn clear(&mut self)
        ensures
            final(self).wf(),
            final(self).cert_map() == Map::<IdKey, ParsedCertificateV>::empty(),
            final(self).target_store@.len() == 0,
    {
        self.cert_store.clear();
        self.target_store.clear();
    }
}

} // verus!
