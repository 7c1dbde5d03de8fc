//! The metric snapshot: the store's state rendered as labelled gauge
//! rows, two values per (endpoint, certificate) pair — the validity
//! window's ends. The HTTP exposition of these rows happens outside; the
//! rows themselves, labels included, are computed here.

use vstd::prelude::*;

use crate::cert::ParsedCertificateV;
use crate::store::{EndpointStateV, IdKey, Store, TargetStateV};
use crate::target::spec_endpoint_chars;
use crate::text::{spec_be_nat, spec_dec_digits};

verus! {

/// One gauge row: the labels and the two validity instants.
#[derive(Debug)]
pub struct GaugeRow {
    pub target: String,
    pub endpoint: String,
    pub serial_number: String,
    pub subject: String,
    pub issuer: String,
    /// Seconds since the Unix epoch.
    pub not_before: i64,
    /// Seconds since the Unix epoch.
    pub not_after: i64,
}

/// The spec-level shape of a gauge row.
#[verifier::ext_equal]
pub struct GaugeRowV {
    pub target: Seq<char>,
    pub endpoint: Seq<char>,
    pub serial_number: Seq<char>,
    pub subject: Seq<char>,
    pub issuer: Seq<char>,
    pub not_before: i64,
    pub not_after: i64,
}

impl View for GaugeRow {
    type V = GaugeRowV;

    open spec fn view(&self) -> GaugeRowV {
        GaugeRowV {
            target: self.target@,
            endpoint: self.endpoint@,
            serial_number: self.serial_number@,
            subject: self.subject@,
            issuer: self.issuer@,
            not_before: self.not_before,
            not_after: self.not_after,
        }
    }
}

/// The label of a target key: its `host:port` spelling.
pub open spec fn spec_target_label(t: (Seq<char>, u16)) -> Seq<char> {
    t.0 + seq![':'] + spec_dec_digits(t.1 as nat)
}

/// The row of one certificate observed at one endpoint.
pub open spec fn spec_gauge_row(tkey: (Seq<char>, u16), ep: EndpointStateV, c: ParsedCertificateV) -> GaugeRowV {
    GaugeRowV {
        target: spec_target_label(tkey),
        endpoint: spec_endpoint_chars(ep.endpoint),
        serial_number: spec_dec_digits(spec_be_nat(c.serial)),
        subject: match c.subject { Some(s) => s, None => Seq::empty() },
        issuer: match c.issuer { Some(s) => s, None => Seq::empty() },
        not_before: c.not_before_epoch,
        not_after: c.not_after_epoch,
    }
}

/// The rows of one endpoint state: one per observed certificate, in the
/// order of its identifier list.
pub open spec fn spec_rows_of_endpoint(cm: Map<IdKey, ParsedCertificateV>, tkey: (Seq<char>, u16), ep: EndpointStateV) -> Seq<GaugeRowV> {
    Seq::new(ep.cert_idents.len(), |k: int| spec_gauge_row(tkey, ep, cm[ep.cert_idents[k]]))
}

/// The rows of a target's endpoint states, endpoint by endpoint.
pub open spec fn spec_rows_of_target(cm: Map<IdKey, ParsedCertificateV>, tkey: (Seq<char>, u16), eps: Seq<EndpointStateV>) -> Seq<GaugeRowV>
    decreases eps.len(),
{
    if eps.len() == 0 {
        Seq::empty()
    } else {
        spec_rows_of_target(cm, tkey, eps.drop_last()) + spec_rows_of_endpoint(cm, tkey, eps.last())
    }
}

/// The rows of the whole store, target by target in registration order.
pub open spec fn spec_gauge_rows(cm: Map<IdKey, ParsedCertificateV>, ts: Seq<((Seq<char>, u16), TargetStateV)>) -> Seq<GaugeRowV>
    decreases ts.len(),
{
    if ts.len() == 0 {
        Seq::empty()
    } else {
        spec_gauge_rows(cm, ts.drop_last())
            + spec_rows_of_target(cm, ts.last().0, ts.last().1.endpoints)
    }
}

impl Store {
    /// A consistent snapshot of the store as gauge rows: for every
    /// (endpoint, certificate) pair of every target, the labels
    /// `{target, endpoint, serial_number, subject, issuer}` and the two
    /// validity instants. The store is only read.
    #[verifier::loop_isolation(false)]
    #[verifier::rlimit(100)]
    pub fn snapshot_gauges(&self) -> (rows: Vec<GaugeRow>)
        requires
            self.wf(),
        ensures
            Seq::new(rows@.len(), |i: int| rows@[i]@)
                == spec_gauge_rows(self.cert_map(), self.targets_view()),
    {
        let mut rows: Vec<GaugeRow> = Vec::new();
        let nt: usize = self.target_store.len();
        for t in 0..nt
            invariant
                nt == self.target_store@.len(),
                Seq::new(rows@.len(), |i: int| rows@[i]@)
                    == spec_gauge_rows(self.cert_map(), self.targets_view().take(t as int)),
        {
            let entry = &self.target_store[t];
            let target_label = entry.0.display_string();
            let ne: usize = entry.1.endpoints.len();
            let ghost tkey = self.targets_view()[t as int].0;
            let ghost epsv = self.targets_view()[t as int].1.endpoints;
            for e in 0..ne
                invariant
                    nt == self.target_store@.len(),
                    t < nt,
                    ne == entry.1.endpoints@.len(),
                    entry == &self.target_store[t as int],
                    tkey == self.targets_view()[t as int].0,
                    epsv == self.targets_view()[t as int].1.endpoints,
                    ne == epsv.len(),
                    target_label@ == spec_target_label(tkey),
                    Seq::new(rows@.len(), |i: int| rows@[i]@)
                        == spec_gauge_rows(self.cert_map(), self.targets_view().take(t as int))
                            + spec_rows_of_target(self.cert_map(), tkey, epsv.take(e as int)),
            {
                let ep = &entry.1.endpoints[e];
                let endpoint_label = ep.endpoint.display_string();
                let nk: usize = ep.cert_idents.len();
                let ghost epv = epsv[e as int];
                proof {
                    assert(epv == entry.1.endpoints@[e as int]@);
                }
                for k in 0..nk
                    invariant
                        nt == self.target_store@.len(),
                        t < nt,
                        ne == entry.1.endpoints@.len(),
                        e < ne,
                        entry == &self.target_store[t as int],
                        ep == &entry.1.endpoints[e as int],
                        tkey == self.targets_view()[t as int].0,
                        epsv == self.targets_view()[t as int].1.endpoints,
                        ne == epsv.len(),
                        epv == epsv[e as int],
                        nk == ep.cert_idents@.len(),
                        nk == epv.cert_idents.len(),
                        target_label@ == spec_target_label(tkey),
                        endpoint_label@ == spec_endpoint_chars(epv.endpoint),
                        Seq::new(rows@.len(), |i: int| rows@[i]@)
                            == spec_gauge_rows(self.cert_map(), self.targets_view().take(t as int))
                                + spec_rows_of_target(self.cert_map(), tkey, epsv.take(e as int))
                                + spec_rows_of_endpoint(self.cert_map(), tkey, epv).take(k as int),
                {
                    let ident = &ep.cert_idents[k];
                    proof {
                        assert(epv.cert_idents[k as int] == ident@);
                        assert(self.wf());
                        assert(self.target_states()[t as int].endpoints[e as int].cert_idents[k as int]
                            == ident@);
                        assert(self.cert_map().dom().contains(ident@));
                        crate::store::lemma_cert_map_dom(self.cert_store@, ident@);
                    }
                    // look the certificate up; well-formedness guarantees a hit
                    let nc: usize = self.cert_store.len();
                    let mut found: Option<usize> = None;
                    for ci in 0..nc
                        invariant
                            nc == self.cert_store@.len(),
                            match found {
                                Some(f) => f < nc && self.cert_store@[f as int].0@ == ident@,
                                None => forall|j: int| 0 <= j < ci
                                    ==> (#[trigger] self.cert_store@[j].0)@ != ident@,
                            },
                    {
                        if found.is_none() {
                            let eid = &self.cert_store[ci].0;
                            if crate::text::bytes_eq(eid.serial_number.as_slice(), ident.serial_number.as_slice())
                                && crate::text::bytes_eq(eid.fingerprint.as_slice(), ident.fingerprint.as_slice()) {
                                found = Some(ci);
                            }
                        }
                    }
                    let fi = match found {
                        Some(f) => f,
                        None => vstd::pervasive::unreached(),
                    };
                    let cert = &self.cert_store[fi].1;
                    proof {
                        lemma_cert_entry_value(self.cert_store@, fi as int);
                    }
                    let subject = match cert.common_name() {
                        Some(s) => s.clone(),
                        None => String::new(),
                    };
                    let issuer = match cert.issuer_common_name() {
                        Some(s) => s.clone(),
                        None => String::new(),
                    };
                    let row = GaugeRow {
                        target: target_label.clone(),
                        endpoint: endpoint_label.clone(),
                        serial_number: cert.serial_decimal(),
                        subject,
                        issuer,
                        not_before: cert.not_before(),
                        not_after: cert.not_after(),
                    };
                    proof {
                        assert(row@ =~~= spec_gauge_row(tkey, epv, self.cert_map()[ident@]));
                        assert(spec_rows_of_endpoint(self.cert_map(), tkey, epv).take(k + 1)
                            =~= spec_rows_of_endpoint(self.cert_map(), tkey, epv).take(k as int).push(
                                spec_gauge_row(tkey, epv, self.cert_map()[epv.cert_idents[k as int]])));
                    }
                    let ghost prevseq = Seq::new(rows@.len(), |i: int| rows@[i]@);
                    let ghost rowv = row@;
                    rows.push(row);
                    proof {
                        let a = spec_gauge_rows(self.cert_map(), self.targets_view().take(t as int));
                        let b = spec_rows_of_target(self.cert_map(), tkey, epsv.take(e as int));
                        let c = spec_rows_of_endpoint(self.cert_map(), tkey, epv);
                        assert(Seq::new(rows@.len(), |i: int| rows@[i]@) =~= prevseq.push(rowv));
                        assert(prevseq.push(rowv) =~= a + b + c.take(k + 1));
                        assert(Seq::new(rows@.len(), |i: int| rows@[i]@) == a + b + c.take(k + 1));
                    }
                }
                proof {
                    assert(spec_rows_of_endpoint(self.cert_map(), tkey, epv).take(nk as int)
                        =~= spec_rows_of_endpoint(self.cert_map(), tkey, epv));
                    assert(epsv.take(e + 1).drop_last() =~= epsv.take(e as int));
                    assert(epsv.take(e + 1).last() == epv);
                    assert(Seq::new(rows@.len(), |i: int| rows@[i]@)
                        =~= spec_gauge_rows(self.cert_map(), self.targets_view().take(t as int))
                            + spec_rows_of_target(self.cert_map(), tkey, epsv.take(e + 1)));
                }
            }
            proof {
                assert(epsv.take(ne as int) =~= epsv);
                let tv = self.targets_view();
                assert(tv.take(t + 1).drop_last() =~= tv.take(t as int));
                assert(tv.take(t + 1).last() == tv[t as int]);
                assert(Seq::new(rows@.len(), |i: int| rows@[i]@)
                    =~= spec_gauge_rows(self.cert_map(), tv.take(t + 1)));
            }
        }
        proof {
            assert(self.targets_view().take(nt as int) =~= self.targets_view());
        }
        rows
    }
}

/// In a table without repeated keys, the entry found under a key carries
/// the mapped certificate.
proof fn lemma_cert_entry_value(entries: Seq<(crate::cert::CertificateIdentifier, crate::cert::ParsedCertificate)>, i: int)
    requires
        0 <= i < entries.len(),
        forall|a: int, b: int| 0 <= a < b < entries.len()
            ==> (#[trigger] entries[a].0)@ != (#[trigger] entries[b].0)@,
    ensures
        crate::store::spec_cert_map_of(entries)[entries[i].0@] == entries[i].1@,
    decreases entries.len(),
{
    if i == entries.len() - 1 {
    } else {
        assert(forall|j: int| 0 <= j < entries.len() - 1 ==> #[trigger] entries.drop_last()[j] == entries[j]);
        lemma_cert_entry_value(entries.drop_last(), i);
        assert(entries.last().0@ != entries[i].0@);
    }
}

} // verus!
