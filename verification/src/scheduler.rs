//! The probe scheduler's timing decisions: which targets are due, how long
//! to sleep before the next cycle, and how a finished probe re-schedules
//! its target. The timer loop itself lives outside and feeds these
//! functions the wall clock as epoch milliseconds; a target has at most
//! one probe in flight, tracked by its in-flight flag.

use vstd::prelude::*;

use crate::config::SchedulerConfig;
use crate::store::{Store, TargetStateV};
use crate::target::Target;

verus! {

/// Whether a target is due for probing: never scheduled, or scheduled at
/// or before now.
pub open spec fn spec_due(st: TargetStateV, now: i64) -> bool {
    match st.next_probe {
        None => true,
        Some(np) => np <= now,
    }
}

/// How long one target asks the scheduler to wait: zero when due, else
/// the time left until its next probe.
pub open spec fn spec_entry_wait(st: TargetStateV, now: i64) -> int {
    match st.next_probe {
        None => 0,
        Some(np) => if np <= now { 0 } else { np - now },
    }
}

/// The scheduler's wait: the smallest per-target wait, bounded by the
/// configured interval.
pub open spec fn spec_wait(ts: Seq<((Seq<char>, u16), TargetStateV)>, now: i64, interval_ms: u64) -> int
    decreases ts.len(),
{
    if ts.len() == 0 {
        interval_ms as int
    } else {
        let rest = spec_wait(ts.drop_last(), now, interval_ms);
        let this = spec_entry_wait(ts.last().1, now);
        if this < rest { this } else { rest }
    }
}

/// The wait is never negative and never exceeds the configured interval.
pub proof fn lemma_wait_duration_bounds(ts: Seq<((Seq<char>, u16), TargetStateV)>, now: i64, interval_ms: u64)
    ensures
        0 <= spec_wait(ts, now, interval_ms) <= interval_ms,
    decreases ts.len(),
{
    if ts.len() > 0 {
        lemma_wait_duration_bounds(ts.drop_last(), now, interval_ms)
    }
}

/// The due targets, in registration order.
pub open spec fn spec_due_targets(ts: Seq<((Seq<char>, u16), TargetStateV)>, now: i64) -> Seq<(Seq<char>, u16)>
    decreases ts.len(),
{
    if ts.len() == 0 {
        Seq::empty()
    } else {
        let rest = spec_due_targets(ts.drop_last(), now);
        if spec_due(ts.last().1, now) { rest.push(ts.last().0) } else { rest }
    }
}

/// How many in-flight probes the target list holds for one target key.
pub open spec fn spec_inflight_count(ts: Seq<((Seq<char>, u16), TargetStateV)>, t: (Seq<char>, u16)) -> nat
    decreases ts.len(),
{
    if ts.len() == 0 {
        0
    } else {
        spec_inflight_count(ts.drop_last(), t)
            + if ts.last().0 == t && ts.last().1.in_flight { 1 as nat } else { 0 as nat }
    }
}

/// A target list without the key holds no in-flight probe for it.
proof fn lemma_inflight_count_absent(ts: Seq<((Seq<char>, u16), TargetStateV)>, t: (Seq<char>, u16))
    requires
        forall|i: int| 0 <= i < ts.len() ==> (#[trigger] ts[i]).0 != t,
    ensures
        spec_inflight_count(ts, t) == 0,
    decreases ts.len(),
{
    if ts.len() > 0 {
        assert(forall|i: int| 0 <= i < ts.len() - 1 ==> #[trigger] ts.drop_last()[i] == ts[i]);
        lemma_inflight_count_absent(ts.drop_last(), t);
    }
}

/// For each target, at any moment, at most one probe is in flight: a
/// well-formed store registers each target once, and its in-flight state
/// is one flag.
pub proof fn lemma_at_most_one_inflight(s: Store, t: (Seq<char>, u16))
    requires
        s.wf(),
    ensures
        spec_inflight_count(s.targets_view(), t) <= 1,
{
    lemma_inflight_count_unique_keys(s.targets_view(), t);
}

/// In-flight probes per key are bounded by one wherever keys are unique.
proof fn lemma_inflight_count_unique_keys(ts: Seq<((Seq<char>, u16), TargetStateV)>, t: (Seq<char>, u16))
    requires
        forall|i: int, j: int| 0 <= i < j < ts.len() ==> (#[trigger] ts[i]).0 != (#[trigger] ts[j]).0,
    ensures
        spec_inflight_count(ts, t) <= 1,
    decreases ts.len(),
{
    if ts.len() > 0 {
        let prefix = ts.drop_last();
        assert(forall|i: int| 0 <= i < prefix.len() ==> #[trigger] prefix[i] == ts[i]);
        if ts.last().0 == t && ts.last().1.in_flight {
            assert forall|i: int| 0 <= i < prefix.len() implies (#[trigger] prefix[i]).0 != t by {
                assert(ts[i].0 != ts[ts.len() - 1].0);
            }
            lemma_inflight_count_absent(prefix, t);
        } else {
            lemma_inflight_count_unique_keys(prefix, t);
        }
    }
}

/// `now + delta`, milliseconds, saturating at the far end of time.
pub open spec fn spec_sat_add(now: i64, delta: u64) -> i64 {
    if now + delta <= i64::MAX { (now + delta) as i64 } else { i64::MAX }
}

/// Adds a delay to an instant, saturating.
pub fn sat_add_ms(now: i64, delta: u64) -> (r: i64)
    ensures
        r == spec_sat_add(now, delta),
{
    let sum: i128 = now as i128 + delta as i128;
    if sum > i64::MAX as i128 {
        i64::MAX
    } else {
        sum as i64
    }
}

/// The state a freshly registered target starts in.
pub open spec fn spec_fresh_target_state(interval_ms: Option<u64>) -> TargetStateV {
    TargetStateV {
        endpoints: Seq::empty(),
        schedule_interval_ms: interval_ms,
        last_probe: None,
        next_probe: None,
        in_flight: false,
    }
}

/// The probe scheduler: its global configuration, and the decision
/// functions the timer loop drives. The per-target state lives in the
/// store it is given.
#[derive(Clone, Copy, Debug)]
pub struct ProbeScheduler {
    pub config: SchedulerConfig,
}

impl ProbeScheduler {
    /// A scheduler with the given global configuration.
    pub fn new(config: SchedulerConfig) -> (r: ProbeScheduler)
        ensures
            r.config == config,
    {
        ProbeScheduler { config }
    }

    /// Registers a target with its profile; re-registering replaces the
    /// target's state with a fresh, never-probed one.
    #[verifier::loop_isolation(false)]
    pub fn add_target(
        &self,
        store: &mut Store,
        target: Target,
        conn_params: crate::config::ConnectionParameters,
        schedule_config: crate::config::SchedulerOverrideConfig,
    )
        requires
            old(store).wf(),
        ensures
            final(store).wf(),
            final(store).cert_map() == old(store).cert_map(),
            // a re-registered target is replaced in place; a new one is
            // appended: nothing else changes
            (exists|i: int| 0 <= i < old(store).targets_view().len()
                && (#[trigger] old(store).targets_view()[i]).0 == target@)
                ==> final(store).targets_view().len() == old(store).targets_view().len(),
            (forall|i: int| 0 <= i < old(store).targets_view().len()
                ==> (#[trigger] old(store).targets_view()[i]).0 != target@)
                ==> final(store).targets_view() == old(store).targets_view().push(
                    (target@, spec_fresh_target_state(schedule_config.interval_ms))),
            forall|i: int| 0 <= i < old(store).targets_view().len()
                && (#[trigger] old(store).targets_view()[i]).0 == target@
                ==> final(store).targets_view()[i]
                    == (target@, spec_fresh_target_state(schedule_config.interval_ms)),
            forall|i: int| 0 <= i < old(store).targets_view().len()
                && (#[trigger] old(store).targets_view()[i]).0 != target@
                ==> final(store).targets_view()[i] == old(store).targets_view()[i],
    {
        let n: usize = store.target_store.len();
        for i in 0..n
            invariant
                n == store.target_store@.len(),
                *store == *old(store),
                forall|l: int| 0 <= l < i ==> (#[trigger] store.target_store@[l].0)@ != target@,
        {
            if &store.target_store[i].0 == &target {
                let st = &mut store.target_store[i].1;
                st.endpoints = Vec::new();
                st.conn_params = conn_params;
                st.schedule_config = schedule_config;
                st.last_probe = None;
                st.next_probe = None;
                st.in_flight = false;
                proof {
                    assert(store.targets_view()[i as int].0 == target@);
                    assert(old(store).targets_view()[i as int].0 == target@);
                    assert(store.targets_view()[i as int]
                        =~~= (target@, spec_fresh_target_state(schedule_config.interval_ms)));
                    assert forall|l: int| 0 <= l < old(store).targets_view().len()
                        && (#[trigger] old(store).targets_view()[l]).0 == target@
                        implies store.targets_view()[l]
                            == (target@, spec_fresh_target_state(schedule_config.interval_ms)) by {
                        if l != i {
                            assert(old(store).target_store@[l].0@ == old(store).target_store@[i as int].0@);
                        }
                    }
                    assert forall|a: int, b: int| 0 <= a < b < store.target_store@.len()
                        implies (#[trigger] store.target_store@[a].0)@
                            != (#[trigger] store.target_store@[b].0)@ by {
                        assert(old(store).target_store@[a].0@ != old(store).target_store@[b].0@);
                    }
                    assert forall|t: int, e: int, k: int|
                        0 <= t < store.target_states().len()
                        && 0 <= e < store.target_states()[t].endpoints.len()
                        && 0 <= k < store.target_states()[t].endpoints[e].cert_idents.len()
                        implies store.cert_map().dom().contains(
                            #[trigger] store.target_states()[t].endpoints[e].cert_idents[k]) by {
                        assert(t != i);
                        assert(store.target_states()[t] == old(store).target_states()[t]);
                    }
                }
                return;
            }
        }
        let state = crate::store::TargetState::new(conn_params, schedule_config);
        store.target_store.push((target, state));
        proof {
            let fin = *store;
            assert(fin.targets_view()[n as int].0 == target@);
            assert(fin.targets_view()
                =~~= old(store).targets_view().push(
                    (target@, spec_fresh_target_state(schedule_config.interval_ms))));
            assert forall|a: int, b: int| 0 <= a < b < fin.target_store@.len()
                implies (#[trigger] fin.target_store@[a].0)@ != (#[trigger] fin.target_store@[b].0)@ by {
                if b < fin.target_store@.len() - 1 {
                    assert(old(store).target_store@[a].0@ != old(store).target_store@[b].0@);
                } else {
                    assert(fin.target_store@[a].0@ != target@);
                }
            }
            assert forall|t: int, e: int, k: int|
                0 <= t < fin.target_states().len()
                && 0 <= e < fin.target_states()[t].endpoints.len()
                && 0 <= k < fin.target_states()[t].endpoints[e].cert_idents.len()
                implies fin.cert_map().dom().contains(
                    #[trigger] fin.target_states()[t].endpoints[e].cert_idents[k]) by {
                if t < fin.target_states().len() - 1 {
                    assert(fin.target_states()[t] == old(store).target_states()[t]);
                }
            }
        }
    }

    /// The duration to wait before the next probe cycle: the smallest
    /// non-negative time until any target is due, bounded by the
    /// configured interval. Due targets make it zero.
    #[verifier::loop_isolation(false)]
    pub fn wait_duration(&self, store: &Store, now_ms: i64) -> (r: u64)
        ensures
            r == spec_wait(store.targets_view(), now_ms, self.config.interval_ms),
            r <= self.config.interval_ms,
    {
        let mut wait: u64 = self.config.interval_ms;
        let n: usize = store.target_store.len();
        for i in 0..n
            invariant
                n == store.target_store@.len(),
                wait == spec_wait(store.targets_view().take(i as int), now_ms, self.config.interval_ms),
                wait <= self.config.interval_ms,
        {
            let this: u64 = match &store.target_store[i].1.next_probe {
                None => 0,
                Some(np) => {
                    if *np <= now_ms {
                        0
                    } else {
                        let d: i128 = *np as i128 - now_ms as i128;
                        d as u64
                    }
                },
            };
            if this < wait {
                wait = this;
            }
            proof {
                let tv = store.targets_view();
                assert(tv.take(i + 1).drop_last() =~= tv.take(i as int));
                assert(tv.take(i + 1).last() == tv[i as int]);
                assert(this == spec_entry_wait(tv[i as int].1, now_ms));
            }
        }
        proof {
            assert(store.targets_view().take(n as int) =~= store.targets_view());
        }
        wait
    }

    /// The targets due for probing now, in registration order.
    #[verifier::loop_isolation(false)]
    pub fn iter_need_probe(&self, store: &Store, now_ms: i64) -> (r: Vec<Target>)
        ensures
            Seq::new(r@.len(), |i: int| r@[i]@) == spec_due_targets(store.targets_view(), now_ms),
    {
        let mut due: Vec<Target> = Vec::new();
        let n: usize = store.target_store.len();
        for i in 0..n
            invariant
                n == store.target_store@.len(),
                Seq::new(due@.len(), |j: int| due@[j]@)
                    == spec_due_targets(store.targets_view().take(i as int), now_ms),
        {
            let entry = &store.target_store[i];
            let is_due: bool = match &entry.1.next_probe {
                None => true,
                Some(np) => *np <= now_ms,
            };
            if is_due {
                due.push(entry.0.duplicate());
            }
            proof {
                let tv = store.targets_view();
                assert(tv.take(i + 1).drop_last() =~= tv.take(i as int));
                assert(tv.take(i + 1).last() == tv[i as int]);
                assert(Seq::new(due@.len(), |j: int| due@[j]@)
                    =~= spec_due_targets(tv.take(i + 1), now_ms));
            }
        }
        proof {
            assert(store.targets_view().take(n as int) =~= store.targets_view());
        }
        due
    }

    /// Marks a due target's probe as started. Nothing changes when the
    /// target is unknown, not due, or already being probed.
    #[verifier::loop_isolation(false)]
    pub fn begin_probe(&self, store: &mut Store, target: &Target, now_ms: i64) -> (started: bool)
        requires
            old(store).wf(),
        ensures
            final(store).wf(),
            final(store).cert_map() == old(store).cert_map(),
            final(store).targets_view().len() == old(store).targets_view().len(),
            forall|i: int| 0 <= i < old(store).targets_view().len()
                && ((#[trigger] old(store).targets_view()[i]).0 != target@
                    || !started)
                ==> final(store).targets_view()[i] == old(store).targets_view()[i],
            started <==> exists|i: int| 0 <= i < old(store).targets_view().len()
                && (#[trigger] old(store).targets_view()[i]).0 == target@
                && spec_due(old(store).targets_view()[i].1, now_ms)
                && !old(store).targets_view()[i].1.in_flight,
            started ==> exists|i: int| 0 <= i < old(store).targets_view().len()
                && (#[trigger] old(store).targets_view()[i]).0 == target@
                && spec_due(old(store).targets_view()[i].1, now_ms)
                && !old(store).targets_view()[i].1.in_flight
                && final(store).targets_view()[i].1 == (TargetStateV {
                    in_flight: true,
                    ..old(store).targets_view()[i].1
                }),
    {
        let n: usize = store.target_store.len();
        for i in 0..n
            invariant
                n == store.target_store@.len(),
                *store == *old(store),
                forall|l: int| 0 <= l < i ==> (#[trigger] store.target_store@[l].0)@ != target@,
        {
            if &store.target_store[i].0 == target {
                let is_due: bool = match &store.target_store[i].1.next_probe {
                    None => true,
                    Some(np) => *np <= now_ms,
                };
                if is_due && !store.target_store[i].1.in_flight {
                    let st = &mut store.target_store[i].1;
                    st.in_flight = true;
                    proof {
                        lemma_single_state_change(*old(store), *store, i as int);
                        assert(store.targets_view()[i as int].1
                            =~~= TargetStateV { in_flight: true, ..old(store).targets_view()[i as int].1 });
                        assert(old(store).targets_view()[i as int].0 == target@
                            && spec_due(old(store).targets_view()[i as int].1, now_ms)
                            && !old(store).targets_view()[i as int].1.in_flight);
                    }
                    return true;
                }
                proof {
                    // the sole entry carrying this target is not startable
                    assert forall|w: int| 0 <= w < old(store).targets_view().len()
                        && (#[trigger] old(store).targets_view()[w]).0 == target@
                        implies !(spec_due(old(store).targets_view()[w].1, now_ms)
                            && !old(store).targets_view()[w].1.in_flight) by {
                        if w != i {
                            assert(old(store).target_store@[w].0@
                                == old(store).target_store@[i as int].0@);
                            if w < i {
                                assert(old(store).target_store@[w].0@
                                    != old(store).target_store@[i as int].0@);
                            } else {
                                assert(old(store).target_store@[i as int].0@
                                    != old(store).target_store@[w].0@);
                            }
                        }
                    }
                }
                return false;
            }
        }
        false
    }

    /// Re-schedules a target when its probe finishes: `last_probe` is set
    /// to now either way; the next probe is due after the effective
    /// interval on success, after the short backoff on failure; the
    /// in-flight flag is cleared. Nothing changes for an unknown target.
    #[verifier::loop_isolation(false)]
    pub fn reschedule(&self, store: &mut Store, target: &Target, success: bool, now_ms: i64)
        requires
            old(store).wf(),
        ensures
            final(store).wf(),
            final(store).cert_map() == old(store).cert_map(),
            final(store).targets_view().len() == old(store).targets_view().len(),
            forall|i: int| 0 <= i < old(store).targets_view().len()
                && (#[trigger] old(store).targets_view()[i]).0 != target@
                ==> final(store).targets_view()[i] == old(store).targets_view()[i],
            forall|i: int| 0 <= i < old(store).targets_view().len()
                && (#[trigger] old(store).targets_view()[i]).0 == target@
                ==> final(store).targets_view()[i].1 == (TargetStateV {
                    last_probe: Some(now_ms),
                    next_probe: Some(spec_sat_add(now_ms, if success {
                        match old(store).targets_view()[i].1.schedule_interval_ms {
                            Some(iv) => iv,
                            None => self.config.interval_ms,
                        }
                    } else {
                        20000
                    })),
                    in_flight: false,
                    ..old(store).targets_view()[i].1
                }),
    {
        let n: usize = store.target_store.len();
        for i in 0..n
            invariant
                n == store.target_store@.len(),
                *store == *old(store),
                forall|l: int| 0 <= l < i ==> (#[trigger] store.target_store@[l].0)@ != target@,
        {
            if &store.target_store[i].0 == target {
                let delta: u64 = if success {
                    match store.target_store[i].1.schedule_config.interval_ms {
                        Some(iv) => iv,
                        None => self.config.interval_ms,
                    }
                } else {
                    crate::config::backoff_interval()
                };
                let np = sat_add_ms(now_ms, delta);
                let st = &mut store.target_store[i].1;
                st.last_probe = Some(now_ms);
                st.next_probe = Some(np);
                st.in_flight = false;
                proof {
                    lemma_single_state_change(*old(store), *store, i as int);
                    assert forall|l: int| 0 <= l < old(store).targets_view().len()
                        && (#[trigger] old(store).targets_view()[l]).0 == target@
                        implies l == i by {
                        if l != i {
                            assert(old(store).target_store@[l].0@ == old(store).target_store@[i as int].0@);
                        }
                    }
                    assert(store.targets_view()[i as int].1 =~~= TargetStateV {
                        last_probe: Some(now_ms),
                        next_probe: Some(np),
                        in_flight: false,
                        ..old(store).targets_view()[i as int].1
                    });
                }
                return;
            }
        }
    }
}

/// A store whose target list changed only in the state of one entry, its
/// endpoints kept, stays well formed, and its other entries are untouched.
proof fn lemma_single_state_change(pre: Store, post: Store, i: int)
    requires
        pre.wf(),
        0 <= i < pre.target_store@.len(),
        post.cert_store == pre.cert_store,
        post.target_store@.len() == pre.target_store@.len(),
        forall|l: int| 0 <= l < pre.target_store@.len() && l != i
            ==> #[trigger] post.target_store@[l] == pre.target_store@[l],
        post.target_store@[i].0 == pre.target_store@[i].0,
        post.target_store@[i].1@.endpoints == pre.target_store@[i].1@.endpoints,
    ensures
        post.wf(),
        forall|l: int| 0 <= l < pre.targets_view().len() && l != i
            ==> #[trigger] post.targets_view()[l] == pre.targets_view()[l],
        post.targets_view()[i].0 == pre.targets_view()[i].0,
{
    assert forall|a: int, b: int| 0 <= a < b < post.target_store@.len()
        implies (#[trigger] post.target_store@[a].0)@ != (#[trigger] post.target_store@[b].0)@ by {
        assert(pre.target_store@[a].0@ != pre.target_store@[b].0@);
    }
    assert forall|t: int, e: int, k: int|
        0 <= t < post.target_states().len()
        && 0 <= e < post.target_states()[t].endpoints.len()
        && 0 <= k < post.target_states()[t].endpoints[e].cert_idents.len()
        implies post.cert_map().dom().contains(
            #[trigger] post.target_states()[t].endpoints[e].cert_idents[k]) by {
        assert(post.target_states()[t].endpoints == pre.target_states()[t].endpoints);
        assert(pre.cert_map().dom().contains(
            pre.target_states()[t].endpoints[e].cert_idents[k]));
    }
}

} // verus!
