//! What the detector guarantees across sequences of observations.

use crate::detector::{
    decide, history, in_window, observe, prune, threshold_of, window_of, window_pred, Decision,
    DetectorView, EventKind, NANOS_PER_SECOND,
};
use vstd::prelude::*;

verus! {

/// One observation: which observer, which source, at which monotonic instant.
pub type Observation = (EventKind, u32, u64);

/// The state after a sequence of observations, applied in order under the
/// detector's critical section, and the decision each one got.
pub open spec fn run(v: DetectorView, evs: Seq<Observation>) -> (DetectorView, Seq<Decision>)
    decreases evs.len(),
{
    if evs.len() == 0 {
        (v, Seq::empty())
    } else {
        let prev = run(v, evs.drop_last());
        let e = evs.last();
        let step = observe(prev.0, e.0, e.1, e.2);
        (step.0, prev.1.push(step.1))
    }
}

/// Observations of one source by one observer at the given instants.
pub open spec fn observations_of(kind: EventKind, ip: u32, times: Seq<u64>) -> Seq<Observation> {
    Seq::new(times.len(), |i: int| (kind, ip, times[i]))
}

proof fn lemma_run_len(v: DetectorView, evs: Seq<Observation>)
    ensures
        run(v, evs).1.len() == evs.len(),
        run(v, evs).0.config == v.config,
    decreases evs.len(),
{
    if evs.len() > 0 {
        lemma_run_len(v, evs.drop_last());
    }
}

/// An observation never takes a source out of the blocked set.
proof fn lemma_observe_keeps_blocked(v: DetectorView, kind: EventKind, ip: u32, now: u64)
    ensures
        v.blocked.subset_of(observe(v, kind, ip, now).0.blocked),
        observe(v, kind, ip, now).0.config == v.config,
{
}

/// Once a source is blocked, it stays blocked through any sequence of
/// observations of any sources, and every observation of it is ignored.
pub proof fn blocked_source_stays_ignored(v: DetectorView, evs: Seq<Observation>, a: u32)
    requires
        v.blocked.contains(a),
    ensures
        run(v, evs).0.blocked.contains(a),
        run(v, evs).1.len() == evs.len(),
        forall|i: int|
            0 <= i < evs.len() && (#[trigger] evs[i]).1 == a ==> run(v, evs).1[i]
                == Decision::Ignored,
    decreases evs.len(),
{
    lemma_run_len(v, evs);
    if evs.len() > 0 {
        let pre = evs.drop_last();
        blocked_source_stays_ignored(v, pre, a);
        let prev = run(v, pre);
        let e = evs.last();
        lemma_observe_keeps_blocked(prev.0, e.0, e.1, e.2);
        assert forall|i: int| 0 <= i < evs.len() && (#[trigger] evs[i]).1 == a implies run(
            v,
            evs,
        ).1[i] == Decision::Ignored by {
            if i < evs.len() - 1 {
                assert(pre[i] == evs[i]);
            }
        }
    }
}

/// With blocking enabled, once an observation of source `a` exceeds its
/// threshold, every later observation of `a` is ignored, whatever other
/// observations are interleaved with them.
pub proof fn exceeded_source_is_suppressed(
    v: DetectorView,
    kind: EventKind,
    a: u32,
    now: u64,
    later: Seq<Observation>,
)
    requires
        v.config.enable_ip_blocking,
        observe(v, kind, a, now).1 is Exceeded,
    ensures
        forall|i: int|
            0 <= i < later.len() && (#[trigger] later[i]).1 == a ==> run(
                observe(v, kind, a, now).0,
                later,
            ).1[i] == Decision::Ignored,
{
    blocked_source_stays_ignored(observe(v, kind, a, now).0, later, a);
}

/// Observing one source leaves every other source's histories and blocked
/// status unchanged, so the decision for another source is the same whether
/// or not the first observation came before it.
pub proof fn observation_locality(
    v: DetectorView,
    kind_b: EventKind,
    b: u32,
    now_b: u64,
    kind_a: EventKind,
    a: u32,
    now_a: u64,
)
    requires
        a != b,
    ensures
        history(observe(v, kind_b, b, now_b).0, EventKind::Ssh, a) == history(v, EventKind::Ssh, a),
        history(observe(v, kind_b, b, now_b).0, EventKind::Tcp, a) == history(v, EventKind::Tcp, a),
        observe(v, kind_b, b, now_b).0.blocked.contains(a) == v.blocked.contains(a),
        observe(observe(v, kind_b, b, now_b).0, kind_a, a, now_a).1 == observe(
            v,
            kind_a,
            a,
            now_a,
        ).1,
{
    let w = observe(v, kind_b, b, now_b).0;
    assert(history(w, kind_a, a) == history(v, kind_a, a));
}

proof fn lemma_filter_all(s: Seq<u64>, pred: spec_fn(u64) -> bool)
    requires
        forall|i: int| 0 <= i < s.len() ==> pred(#[trigger] s[i]),
    ensures
        s.filter(pred) == s,
    decreases s.len(),
{
    reveal(Seq::filter);
    if s.len() > 0 {
        let d = s.drop_last();
        assert forall|i: int| 0 <= i < d.len() implies pred(#[trigger] d[i]) by {
            assert(d[i] == s[i]);
        }
        lemma_filter_all(d, pred);
        assert(pred(s.last()));
        assert(d.push(s.last()) =~= s);
    }
}

/// Threshold strictness: a fresh source observed at most `T + 1` times, at
/// non-decreasing instants that all fit in one window, sees its count grow
/// by one per observation. The first `T` observations stay below the
/// threshold `T`, and an observation number `T + 1` is the one that exceeds it.
pub proof fn threshold_is_strict(v: DetectorView, kind: EventKind, a: u32, times: Seq<u64>)
    requires
        !v.blocked.contains(a),
        history(v, kind, a).len() == 0,
        forall|i: int, j: int| 0 <= i <= j < times.len() ==> times[i] <= times[j],
        times.len() > 0 ==> times.last() - times[0] < window_of(v.config, kind)
            * NANOS_PER_SECOND,
        times.len() <= threshold_of(v.config, kind) + 1,
    ensures
        ({
            let r = run(v, observations_of(kind, a, times));
            &&& r.1.len() == times.len()
            &&& history(r.0, kind, a) == times
            &&& times.len() <= threshold_of(v.config, kind) ==> !r.0.blocked.contains(a)
            &&& forall|i: int|
                0 <= i < times.len() ==> r.1[i] == decide(i + 1, threshold_of(v.config, kind))
            &&& forall|i: int|
                0 <= i < times.len() && i < threshold_of(v.config, kind) ==> r.1[i] is BelowThreshold
            &&& times.len() == threshold_of(v.config, kind) + 1 ==> r.1[times.len() - 1] is Exceeded
        }),
    decreases times.len(),
{
    let evs = observations_of(kind, a, times);
    let thr = threshold_of(v.config, kind);
    let w = window_of(v.config, kind);
    lemma_run_len(v, evs);
    if times.len() == 0 {
        assert(history(v, kind, a) =~= times);
    } else {
        let n = times.len();
        let pre = times.drop_last();
        assert(evs.drop_last() =~= observations_of(kind, a, pre));
        threshold_is_strict(v, kind, a, pre);
        let prev = run(v, observations_of(kind, a, pre));
        lemma_run_len(v, observations_of(kind, a, pre));
        assert forall|i: int| 0 <= i < n - 1 implies prev.1[i] == decide(i + 1, thr) by {}
        // No earlier observation exceeded the threshold, so `a` is not blocked.
        if n - 1 > 0 {
            assert(decide(n - 1, thr) is BelowThreshold);
        }
        assert(!prev.0.blocked.contains(a));
        let t = times.last();
        let pushed = pre.push(t);
        assert(pushed =~= times);
        assert forall|i: int| 0 <= i < times.len() implies window_pred(t, w)(#[trigger] times[i]) by {
            assert(times[0] <= times[i] <= t);
            assert(in_window(t, times[i], w));
        }
        lemma_filter_all(times, window_pred(t, w));
        assert(prune(pushed, t, w) == times);
        let r = run(v, evs);
        assert(evs.last() == (kind, a, t));
        assert(run(v, evs.drop_last()) == prev);
        let step = observe(prev.0, kind, a, t);
        assert(step.1 == decide(n as int, thr));
        assert(history(step.0, kind, a) == times);
        assert(r.1 == prev.1.push(decide(n as int, thr)));
        assert forall|i: int| 0 <= i < times.len() implies r.1[i] == decide(i + 1, thr) by {
            if i < n - 1 {
                assert(r.1[i] == prev.1[i]);
            }
        }
    }
}

/// Two states that agree on everything the detector reads for source `a`.
pub open spec fn agree_on(v1: DetectorView, v2: DetectorView, a: u32) -> bool {
    &&& v1.config == v2.config
    &&& history(v1, EventKind::Ssh, a) == history(v2, EventKind::Ssh, a)
    &&& history(v1, EventKind::Tcp, a) == history(v2, EventKind::Tcp, a)
    &&& v1.blocked.contains(a) == v2.blocked.contains(a)
}

/// The observations of source `a` in `evs`, in order.
pub open spec fn observations_for(evs: Seq<Observation>, a: u32) -> Seq<Observation> {
    evs.filter(|e: Observation| e.1 == a)
}

/// The decisions in `ds` taken at the positions where `evs` observes `a`.
pub open spec fn decisions_for(evs: Seq<Observation>, ds: Seq<Decision>, a: u32) -> Seq<Decision>
    decreases evs.len(),
{
    if evs.len() == 0 || ds.len() == 0 {
        Seq::empty()
    } else {
        let prev = decisions_for(evs.drop_last(), ds.drop_last(), a);
        if evs.last().1 == a {
            prev.push(ds.last())
        } else {
            prev
        }
    }
}

proof fn lemma_observe_congruent(v1: DetectorView, v2: DetectorView, kind: EventKind, a: u32, now: u64)
    requires
        agree_on(v1, v2, a),
    ensures
        observe(v1, kind, a, now).1 == observe(v2, kind, a, now).1,
        agree_on(observe(v1, kind, a, now).0, observe(v2, kind, a, now).0, a),
{
}

/// How observations of different sources interleave does not matter to any
/// one source: the decisions that source `a` gets in a sequence of
/// observations of many sources are those it gets when only its own
/// observations are made, in the same order.
pub proof fn interleaving_is_local(v: DetectorView, evs: Seq<Observation>, a: u32)
    ensures
        agree_on(run(v, evs).0, run(v, observations_for(evs, a)).0, a),
        decisions_for(evs, run(v, evs).1, a) == run(v, observations_for(evs, a)).1,
    decreases evs.len(),
{
    let pred = |e: Observation| e.1 == a;
    lemma_run_len(v, evs);
    if evs.len() == 0 {
        reveal(Seq::filter);
        assert(observations_for(evs, a) =~= evs);
    } else {
        let pre = evs.drop_last();
        let e = evs.last();
        interleaving_is_local(v, pre, a);
        lemma_run_len(v, pre);
        reveal(Seq::filter);
        assert(observations_for(evs, a) == if pred(e) {
            observations_for(pre, a).push(e)
        } else {
            observations_for(pre, a)
        });
        let full = run(v, pre);
        let own = run(v, observations_for(pre, a));
        assert(run(v, evs).1.drop_last() =~= full.1);
        if e.1 == a {
            let own_all = observations_for(evs, a);
            assert(own_all.drop_last() =~= observations_for(pre, a));
            lemma_observe_congruent(full.0, own.0, e.0, a, e.2);
        } else {
            observation_locality(full.0, e.0, e.1, e.2, e.0, a, e.2);
        }
    }
}

proof fn lemma_run_append(v: DetectorView, p: Seq<Observation>, q: Seq<Observation>)
    ensures
        run(v, p + q).0 == run(run(v, p).0, q).0,
        run(v, p + q).1 == run(v, p).1 + run(run(v, p).0, q).1,
    decreases q.len(),
{
    if q.len() == 0 {
        assert(p + q =~= p);
        assert(run(v, p).1 + Seq::<Decision>::empty() =~= run(v, p).1);
    } else {
        lemma_run_append(v, p, q.drop_last());
        assert((p + q).drop_last() =~= p + q.drop_last());
        assert((p + q).last() == q.last());
        let mid = run(v, p);
        let r = run(mid.0, q.drop_last());
        let step = observe(r.0, q.last().0, q.last().1, q.last().2);
        assert(mid.1 + r.1.push(step.1) =~= (mid.1 + r.1).push(step.1));
    }
}

/// With blocking enabled, a fresh source whose own observations all go to
/// one observer, at non-decreasing instants within one window, and number
/// more than the threshold `T`, gets exactly one `Exceeded`: at its
/// observation number `T + 1`, with count `T + 1`. This holds however its
/// observations are interleaved with those of other sources.
pub proof fn each_source_exceeds_once(v: DetectorView, evs: Seq<Observation>, a: u32, kind: EventKind)
    requires
        v.config.enable_ip_blocking,
        !v.blocked.contains(a),
        history(v, kind, a).len() == 0,
        forall|i: int|
            0 <= i < observations_for(evs, a).len() ==> (#[trigger] observations_for(evs, a)[i]).0
                == kind,
        forall|i: int, j: int|
            0 <= i <= j < observations_for(evs, a).len() ==> observations_for(evs, a)[i].2
                <= observations_for(evs, a)[j].2,
        observations_for(evs, a).len() > threshold_of(v.config, kind),
        observations_for(evs, a).last().2 - observations_for(evs, a)[0].2 < window_of(
            v.config,
            kind,
        ) * NANOS_PER_SECOND,
    ensures
        ({
            let ds = decisions_for(evs, run(v, evs).1, a);
            let t = threshold_of(v.config, kind) as int;
            &&& ds.len() == observations_for(evs, a).len()
            &&& ds[t] == decide(t + 1, threshold_of(v.config, kind))
            &&& ds[t] is Exceeded
            &&& forall|i: int| 0 <= i < ds.len() && i != t ==> !(#[trigger] ds[i] is Exceeded)
        }),
{
    let own = observations_for(evs, a);
    let t = threshold_of(v.config, kind) as int;
    interleaving_is_local(v, evs, a);
    lemma_run_len(v, own);
    let p = own.take(t + 1);
    let q = own.skip(t + 1);
    assert(own =~= p + q);
    lemma_run_append(v, p, q);
    let times = Seq::new(p.len(), |i: int| p[i].2);
    assert(p =~= observations_of(kind, a, times));
    threshold_is_strict(v, kind, a, times);
    let rp = run(v, p);
    // The last observation of `p` exceeded the threshold, so `a` is blocked after it.
    lemma_run_len(v, p.drop_last());
    let before = run(v, p.drop_last());
    assert(rp.1.last() is Exceeded);
    assert(rp.0 == observe(before.0, p.last().0, p.last().1, p.last().2).0);
    assert(rp.0.blocked.contains(a));
    blocked_source_stays_ignored(rp.0, q, a);
    let ds = run(v, own).1;
    assert forall|i: int| 0 <= i < ds.len() && i != t implies !(#[trigger] ds[i] is Exceeded) by {
        if i < t {
            assert(ds[i] == rp.1[i]);
        } else {
            assert(ds[i] == run(rp.0, q).1[i - (t + 1)]);
            assert(q[i - (t + 1)] == own[i]);
            assert(own.contains(own[i]));
        }
    }
}

} // verus!
