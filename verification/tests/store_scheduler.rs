use tls_certificate_exporter::cert::{CertificateIdentifier, ParsedCertificate};
use tls_certificate_exporter::config::{ConnectionParameters, SchedulerConfig, SchedulerOverrideConfig};
use tls_certificate_exporter::error::ErrorReason;
use tls_certificate_exporter::prober::{classify_probe, collect_probe_results, probe_outcome, CertificateInterceptor, ProbeResult};
use tls_certificate_exporter::scheduler::ProbeScheduler;
use tls_certificate_exporter::store::Store;
use tls_certificate_exporter::target::{Endpoint, IpAddress, ServerName, Target};

fn cert(serial: &[u8], fp_seed: u8, subject: &str, nb: i64, na: i64) -> ParsedCertificate {
    ParsedCertificate {
        subject: Some(String::from(subject)),
        issuer: Some(String::from("issuer cn")),
        serial: serial.to_vec(),
        not_before_epoch: nb,
        not_after_epoch: na,
        fingerprint: vec![fp_seed; 32],
    }
}

fn endpoint(last: u8) -> Endpoint {
    Endpoint {
        ip: IpAddress::V4(10, 0, 0, last),
        port: 443,
        server_name: ServerName::DnsName(String::from("example.com")),
    }
}

fn target() -> Target {
    Target { host: String::from("example.com"), port: 443 }
}

fn probe_results(outcome: Result<(), String>) -> Vec<ProbeResult> {
    vec![ProbeResult {
        endpoint: endpoint(1),
        certificates: vec![cert(&[0x03, 0x36], 7, "subject cn", 100, 200)],
        probe_result: outcome,
    }]
}

#[test]
fn certificate_table_is_write_once() {
    let mut store = Store::new();
    let first = cert(&[1], 9, "the first", 10, 20);
    let replay = cert(&[1], 9, "a different subject", 99, 999);
    let id1 = store.add_certificate(&first);
    let id2 = store.add_certificate(&replay);
    assert_eq!(id1, id2);
    assert_eq!(store.cert_store.len(), 1);
    // the stored certificate is the first one inserted, bit for bit
    assert_eq!(store.cert_store[0].1.subject, Some(String::from("the first")));
    assert_eq!(store.cert_store[0].1.not_before_epoch, 10);
}

#[test]
fn identifier_needs_serial_and_fingerprint() {
    let mut store = Store::new();
    store.add_certificate(&cert(&[1], 9, "a", 10, 20));
    // same serial, different fingerprint: a distinct certificate
    store.add_certificate(&cert(&[1], 8, "b", 10, 20));
    assert_eq!(store.cert_store.len(), 2);
}

#[test]
fn add_certificates_is_order_preserving() {
    let mut store = Store::new();
    let ids = store.add_certificates(&vec![cert(&[5], 1, "a", 0, 1), cert(&[6], 2, "b", 0, 1)]);
    assert_eq!(ids.len(), 2);
    assert_eq!(ids[0].serial_number, vec![5]);
    assert_eq!(ids[1].serial_number, vec![6]);
    assert!(store.contains_certificate(&ids[0]));
    assert!(store.contains_certificate(&ids[1]));
    let absent = CertificateIdentifier { serial_number: vec![7], fingerprint: vec![1; 32] };
    assert!(!store.contains_certificate(&absent));
}

#[test]
fn applying_a_probe_replaces_endpoint_state() {
    let mut store = Store::new();
    let sched = ProbeScheduler::new(SchedulerConfig { interval_ms: 600000 });
    sched.add_target(&mut store, target(), ConnectionParameters::empty(), SchedulerOverrideConfig::default());

    store.update_probe_result(&target(), &probe_results(Ok(())), 1000);
    assert_eq!(store.target_store.len(), 1);
    let state = &store.target_store[0].1;
    assert_eq!(state.endpoints.len(), 1);
    assert_eq!(state.endpoints[0].cert_idents.len(), 1);
    assert_eq!(state.endpoints[0].probe_result, Ok(()));
    assert_eq!(state.endpoints[0].last_update, Some(1000));
    assert_eq!(state.last_probe, Some(1000));
    // every referenced identifier resolves in the table
    for id in &state.endpoints[0].cert_idents {
        assert!(store.contains_certificate(id));
    }
}

#[test]
fn applying_the_same_results_twice_changes_nothing() {
    let mut build = |applications: usize| -> Store {
        let mut store = Store::new();
        let sched = ProbeScheduler::new(SchedulerConfig { interval_ms: 600000 });
        sched.add_target(&mut store, target(), ConnectionParameters::empty(), SchedulerOverrideConfig::default());
        for _ in 0..applications {
            store.update_probe_result(&target(), &probe_results(Ok(())), 1000);
        }
        store
    };
    let once = build(1);
    let twice = build(2);
    assert_eq!(once.cert_store.len(), twice.cert_store.len());
    let rows_once = once.snapshot_gauges();
    let rows_twice = twice.snapshot_gauges();
    assert_eq!(rows_once.len(), rows_twice.len());
    for (a, b) in rows_once.iter().zip(rows_twice.iter()) {
        assert_eq!(a.target, b.target);
        assert_eq!(a.endpoint, b.endpoint);
        assert_eq!(a.serial_number, b.serial_number);
        assert_eq!(a.subject, b.subject);
        assert_eq!(a.issuer, b.issuer);
        assert_eq!(a.not_before, b.not_before);
        assert_eq!(a.not_after, b.not_after);
    }
    assert_eq!(once.target_store[0].1.last_probe, twice.target_store[0].1.last_probe);
}

#[test]
fn snapshot_carries_labels_and_validity_values() {
    let mut store = Store::new();
    let sched = ProbeScheduler::new(SchedulerConfig { interval_ms: 600000 });
    sched.add_target(&mut store, target(), ConnectionParameters::empty(), SchedulerOverrideConfig::default());
    store.update_probe_result(&target(), &probe_results(Err(String::from("certificate expired"))), 5);

    let rows = store.snapshot_gauges();
    assert_eq!(rows.len(), 1);
    assert_eq!(rows[0].target, "example.com:443");
    assert_eq!(rows[0].endpoint, "10.0.0.1:443");
    // serial 0x0336 renders as its decimal value
    assert_eq!(rows[0].serial_number, "822");
    assert_eq!(rows[0].subject, "subject cn");
    assert_eq!(rows[0].issuer, "issuer cn");
    assert_eq!(rows[0].not_before, 100);
    assert_eq!(rows[0].not_after, 200);
}

#[test]
fn wait_duration_is_zero_when_targets_are_due() {
    // S5: two targets with 10 s and 30 s intervals, both due at t = 0
    let mut store = Store::new();
    let sched = ProbeScheduler::new(SchedulerConfig { interval_ms: 600000 });
    let t1 = Target { host: String::from("a.example"), port: 443 };
    let t2 = Target { host: String::from("b.example"), port: 443 };
    sched.add_target(&mut store, t1.clone(), ConnectionParameters::empty(),
        SchedulerOverrideConfig { interval_ms: Some(10000) });
    sched.add_target(&mut store, t2.clone(), ConnectionParameters::empty(),
        SchedulerOverrideConfig { interval_ms: Some(30000) });
    assert_eq!(sched.wait_duration(&store, 0), 0);

    let due = sched.iter_need_probe(&store, 0);
    assert_eq!(due.len(), 2);

    // both probes finish successfully at t = 0
    assert!(sched.begin_probe(&mut store, &t1, 0));
    assert!(sched.begin_probe(&mut store, &t2, 0));
    sched.reschedule(&mut store, &t1, true, 0);
    sched.reschedule(&mut store, &t2, true, 0);

    // at t = 5 s the earlier target is 5 s away
    assert_eq!(sched.wait_duration(&store, 5000), 5000);
    assert!(sched.iter_need_probe(&store, 5000).is_empty());
    // at t = 10 s it is due again
    assert_eq!(sched.wait_duration(&store, 10000), 0);
    assert_eq!(sched.iter_need_probe(&store, 10000).len(), 1);
}

#[test]
fn at_most_one_probe_in_flight_per_target() {
    let mut store = Store::new();
    let sched = ProbeScheduler::new(SchedulerConfig { interval_ms: 600000 });
    let t = target();
    sched.add_target(&mut store, t.clone(), ConnectionParameters::empty(), SchedulerOverrideConfig::default());
    assert!(sched.begin_probe(&mut store, &t, 0));
    // the same target cannot start a second probe while one is in flight
    assert!(!sched.begin_probe(&mut store, &t, 0));
    sched.reschedule(&mut store, &t, true, 0);
    // after completion and once due again, it can
    assert!(sched.begin_probe(&mut store, &t, 700000));
}

#[test]
fn failed_probes_back_off_briefly() {
    let mut store = Store::new();
    let sched = ProbeScheduler::new(SchedulerConfig { interval_ms: 600000 });
    let t = target();
    sched.add_target(&mut store, t.clone(), ConnectionParameters::empty(), SchedulerOverrideConfig::default());
    assert!(sched.begin_probe(&mut store, &t, 0));
    sched.reschedule(&mut store, &t, false, 0);
    assert_eq!(store.target_store[0].1.next_probe, Some(20000));
    assert_eq!(store.target_store[0].1.last_probe, Some(0));
    assert!(!store.target_store[0].1.in_flight);
}

#[test]
fn chain_present_is_returned_whatever_the_verdict() {
    // an expired certificate still appears in the returned chain, with
    // the handshake error kept
    let chain = vec![cert(&[1], 3, "expired leaf", 0, 1)];
    let r = classify_probe(endpoint(9), Err(String::from("certificate expired")), Some(chain)).unwrap();
    assert_eq!(r.certificates.len(), 1);
    assert_eq!(r.certificates[0].subject, Some(String::from("expired leaf")));
    assert_eq!(r.probe_result, Err(String::from("certificate expired")));
    assert_eq!(r.endpoint, endpoint(9));
}

#[test]
fn chain_present_with_success_is_ok() {
    let chain = vec![cert(&[1], 3, "leaf", 0, 1)];
    let r = classify_probe(endpoint(1), Ok(()), Some(chain)).unwrap();
    assert_eq!(r.probe_result, Ok(()));
    assert_eq!(r.certificates.len(), 1);
}

#[test]
fn missing_chain_propagates_the_error() {
    match classify_probe(endpoint(1), Err(String::from("connection reset")), None) {
        Err(ErrorReason::HandshakeError(m)) => assert_eq!(m, "connection reset"),
        other => panic!("expected the handshake error, got {:?}", other),
    }
    match classify_probe(endpoint(1), Ok(()), None) {
        Err(ErrorReason::Unknown) => {}
        other => panic!("expected the defensive unknown error, got {:?}", other),
    }
}

#[test]
fn undecodable_chain_aborts_the_endpoint() {
    let raw = vec![vec![0u8, 1, 2, 3]];
    match probe_outcome(endpoint(1), Ok(()), Some(raw)) {
        Err(ErrorReason::CertificateParse) => {}
        other => panic!("expected a certificate parse error, got {:?}", other),
    }
}

#[test]
fn interceptor_keeps_the_first_chain() {
    let mut cell = CertificateInterceptor::new(false);
    assert!(!cell.skip_verify());
    cell.record_chain(vec![vec![1, 2]]);
    cell.record_chain(vec![vec![9, 9]]);
    // the first handshake's chain wins, and the take consumes it
    assert_eq!(cell.get_certificates(), Some(vec![vec![1, 2]]));
    assert_eq!(cell.get_certificates(), None);
}

#[test]
fn interceptor_skip_verify_flag() {
    let cell = CertificateInterceptor::new(true);
    assert!(cell.skip_verify());
}

#[test]
fn client_auth_requires_a_key() {
    let mut params = ConnectionParameters::empty();
    params.certs = vec![vec![1, 2, 3]];
    assert_eq!(params.client_auth_plan(), Err(ErrorReason::MissingPrivateKey));
    assert_eq!(ConnectionParameters::empty().client_auth_plan(), Ok(None));
}

#[test]
fn merge_fills_gaps_only() {
    let mut defaults = ConnectionParameters::empty();
    defaults.timeout_ms = Some(3000);
    defaults.trusted_anchors = vec![vec![0xAA]];
    let mut own = ConnectionParameters::empty();
    own.insecure_skip_verify = true;
    let merged = own.merge(&defaults);
    assert_eq!(merged.timeout_ms, Some(3000));
    assert_eq!(merged.trusted_anchors, vec![vec![0xAA]]);
    assert!(merged.insecure_skip_verify);

    let mut own2 = ConnectionParameters::empty();
    own2.timeout_ms = Some(99);
    own2.trusted_anchors = vec![vec![0xBB]];
    let merged2 = own2.merge(&defaults);
    assert_eq!(merged2.timeout_ms, Some(99));
    assert_eq!(merged2.trusted_anchors, vec![vec![0xBB]]);
}

#[test]
fn aggregation_keeps_every_observation() {
    // one endpoint fails, the other is observed: the observation survives
    let ok = ProbeResult {
        endpoint: endpoint(1),
        certificates: vec![cert(&[1], 3, "leaf", 0, 1)],
        probe_result: Ok(()),
    };
    let outcomes = vec![Err(ErrorReason::ConnectError), Ok(ok)];
    let collected = collect_probe_results(outcomes).unwrap();
    assert_eq!(collected.len(), 1);
    assert_eq!(collected[0].endpoint, endpoint(1));
}

#[test]
fn aggregation_reports_the_first_error_when_nothing_was_observed() {
    let outcomes: Vec<Result<ProbeResult, ErrorReason>> =
        vec![Err(ErrorReason::ConnectError), Err(ErrorReason::Unknown)];
    match collect_probe_results(outcomes) {
        Err(ErrorReason::ConnectError) => {}
        other => panic!("expected the first error, got {:?}", other),
    }
    let empty: Vec<Result<ProbeResult, ErrorReason>> = vec![];
    assert!(collect_probe_results(empty).unwrap().is_empty());
}
