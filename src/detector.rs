//! The sliding-window rate detector and its blocked-source set.
//!
//! Each observation of a source address appends the current monotonic
//! instant to that address's history, drops the instants that fall out of
//! the window, and compares what is left against a strict threshold. A
//! source in the blocked set is ignored outright.

use crate::records::{SshEvent, TcpEvent};
use std::collections::{HashMap, HashSet};
use vstd::prelude::*;

verus! {

broadcast use vstd::std_specs::hash::group_hash_axioms;

/// Detection parameters, read once when the detector is built.
#[derive(Debug, Clone, Copy, PartialEq, Eq)]
pub struct Config {
    /// Span of the SSH sliding window, in seconds.
    pub ssh_window_seconds: u64,
    /// SSH strict threshold: a count above it fires.
    pub ssh_threshold: u64,
    /// Span of the TCP sliding window, in seconds.
    pub tcp_window_seconds: u64,
    /// TCP strict threshold: a count above it fires.
    pub tcp_threshold: u64,
    /// Whether a confirmed threat gets its source blocked.
    pub enable_ip_blocking: bool,
}

/// Which observer an event goes to.
#[derive(Debug, Clone, Copy, PartialEq, Eq)]
pub enum EventKind {
    Ssh,
    Tcp,
}

/// The outcome of one observation.
#[derive(Debug, Clone, Copy, PartialEq, Eq)]
pub enum Decision {
    /// The source is blocked; nothing was recorded.
    Ignored,
    /// The count within the window is at most the threshold.
    BelowThreshold(u64),
    /// The count within the window is above the threshold.
    Exceeded(u64),
}

/// Nanoseconds in one second; instants are monotonic nanoseconds.
pub const NANOS_PER_SECOND: u64 = 1_000_000_000;

/// Distance from `t` back to `now`; an instant after `now` counts as zero.
pub open spec fn elapsed(now: u64, t: u64) -> int {
    if now >= t {
        now - t
    } else {
        0
    }
}

/// Whether instant `t` lies within the window of `window_seconds` ending at `now`.
pub open spec fn in_window(now: u64, t: u64, window_seconds: u64) -> bool {
    elapsed(now, t) < window_seconds * NANOS_PER_SECOND
}

pub open spec fn window_pred(now: u64, window_seconds: u64) -> spec_fn(u64) -> bool {
    |t: u64| in_window(now, t, window_seconds)
}

/// The instants of `h` that lie within the window ending at `now`, in order.
pub open spec fn prune(h: Seq<u64>, now: u64, window_seconds: u64) -> Seq<u64> {
    h.filter(window_pred(now, window_seconds))
}

/// The decision for `count` instants in the window under a strict threshold.
pub open spec fn decide(count: int, threshold: u64) -> Decision {
    if count > threshold {
        Decision::Exceeded(count as u64)
    } else {
        Decision::BelowThreshold(count as u64)
    }
}

/// The abstract state of a detector.
pub struct DetectorView {
    pub config: Config,
    /// SSH attempt instants per source, in insertion order.
    pub ssh: Map<u32, Seq<u64>>,
    /// TCP connection instants per source, in insertion order.
    pub tcp: Map<u32, Seq<u64>>,
    /// Suppressed sources.
    pub blocked: Set<u32>,
}

pub open spec fn window_of(c: Config, kind: EventKind) -> u64 {
    match kind {
        EventKind::Ssh => c.ssh_window_seconds,
        EventKind::Tcp => c.tcp_window_seconds,
    }
}

pub open spec fn threshold_of(c: Config, kind: EventKind) -> u64 {
    match kind {
        EventKind::Ssh => c.ssh_threshold,
        EventKind::Tcp => c.tcp_threshold,
    }
}

/// The recorded instants of `ip` for `kind`; empty if none were recorded.
pub open spec fn history(v: DetectorView, kind: EventKind, ip: u32) -> Seq<u64> {
    let m = match kind {
        EventKind::Ssh => v.ssh,
        EventKind::Tcp => v.tcp,
    };
    if m.contains_key(ip) {
        m[ip]
    } else {
        Seq::empty()
    }
}

pub open spec fn with_history(v: DetectorView, kind: EventKind, ip: u32, h: Seq<u64>) -> DetectorView {
    match kind {
        EventKind::Ssh => DetectorView { ssh: v.ssh.insert(ip, h), ..v },
        EventKind::Tcp => DetectorView { tcp: v.tcp.insert(ip, h), ..v },
    }
}

/// One observation of source `ip` at monotonic instant `now`.
///
/// A blocked source is ignored and nothing changes. Otherwise `now` is
/// appended to the source's history, the history is pruned to the window
/// ending at `now`, and its length is held against the threshold. When the
/// threshold is exceeded and blocking is enabled, the source joins the
/// blocked set in the same step.
pub open spec fn observe(v: DetectorView, kind: EventKind, ip: u32, now: u64) -> (DetectorView, Decision) {
    if v.blocked.contains(ip) {
        (v, Decision::Ignored)
    } else {
        let h = prune(history(v, kind, ip).push(now), now, window_of(v.config, kind));
        let d = decide(h.len() as int, threshold_of(v.config, kind));
        let v1 = with_history(v, kind, ip, h);
        if d is Exceeded && v.config.enable_ip_blocking {
            (DetectorView { blocked: v1.blocked.insert(ip), ..v1 }, d)
        } else {
            (v1, d)
        }
    }
}

pub open spec fn seq_values(m: Map<u32, Vec<u64>>) -> Map<u32, Seq<u64>> {
    m.map_values(|v: Vec<u64>| v@)
}

/// Process-wide detector state: per-source histories for SSH attempts and
/// TCP connections, and the set of blocked sources.
pub struct ThreatDetector {
    config: Config,
    ssh_attempts: HashMap<u32, Vec<u64>>,
    tcp_connections: HashMap<u32, Vec<u64>>,
    blocked_ips: HashSet<u32>,
}

impl View for ThreatDetector {
    type V = DetectorView;

    closed spec fn view(&self) -> DetectorView {
        DetectorView {
            config: self.config,
            ssh: seq_values(self.ssh_attempts@),
            tcp: seq_values(self.tcp_connections@),
            blocked: self.blocked_ips@,
        }
    }
}

/// Appends `now` to the history of `ip` in `map` and prunes it to the window.
fn record_in_window(map: &mut HashMap<u32, Vec<u64>>, ip: u32, now: u64, window_seconds: u64) -> (count: usize)
    ensures
        seq_values(final(map)@) == seq_values(old(map)@).insert(
            ip,
            prune(
                (if old(map)@.contains_key(ip) {
                    old(map)@[ip]@
                } else {
                    Seq::empty()
                }).push(now),
                now,
                window_seconds,
            ),
        ),
        count == seq_values(final(map)@)[ip].len(),
{
    let ghost before = seq_values(map@);
    let mut h: Vec<u64> = match map.remove(&ip) {
        Some(v) => v,
        None => Vec::new(),
    };
    let ghost prior = h@;
    proof {
        if old(map)@.contains_key(ip) {
            assert(prior == old(map)@[ip]@);
        } else {
            assert(prior == Seq::<u64>::empty());
        }
    }
    h.push(now);
    let window_ns: u128 = (window_seconds as u128) * 1_000_000_000u128;
    let ghost pred = window_pred(now, window_seconds);
    let mut kept: Vec<u64> = Vec::new();
    let mut i: usize = 0;
    while i < h.len()
        invariant
            0 <= i <= h@.len(),
            h@ == prior.push(now),
            pred == window_pred(now, window_seconds),
            window_ns == window_seconds * NANOS_PER_SECOND,
            kept@ == h@.take(i as int).filter(pred),
        decreases h.len() - i,
    {
        let t = h[i];
        let e: u64 = if now >= t {
            now - t
        } else {
            0
        };
        let ghost before_kept = kept@;
        let keep = (e as u128) < window_ns;
        if keep {
            kept.push(t);
        }
        proof {
            assert(e == elapsed(now, t));
            assert(pred(t) == in_window(now, t, window_seconds));
            assert(keep == pred(t));
            let s = h@.take(i + 1);
            assert(s.drop_last() =~= h@.take(i as int));
            assert(s.last() == t);
            reveal(Seq::filter);
            assert(s.filter(pred) == (if pred(t) {
                before_kept.push(t)
            } else {
                before_kept
            }));
        }
        i += 1;
    }
    assert(h@.take(h@.len() as int) =~= h@);
    let count = kept.len();
    map.insert(ip, kept);
    assert(seq_values(map@) =~= before.insert(ip, prune(prior.push(now), now, window_seconds)));
    count
}

impl ThreatDetector {
    /// A detector with no recorded history and no blocked source.
    pub fn new(config: Config) -> (r: Self)
        ensures
            r@.config == config,
            r@.ssh == Map::<u32, Seq<u64>>::empty(),
            r@.tcp == Map::<u32, Seq<u64>>::empty(),
            r@.blocked == Set::<u32>::empty(),
    {
        let r = ThreatDetector {
            config,
            ssh_attempts: HashMap::new(),
            tcp_connections: HashMap::new(),
            blocked_ips: HashSet::new(),
        };
        assert(r@.ssh =~= Map::<u32, Seq<u64>>::empty());
        assert(r@.tcp =~= Map::<u32, Seq<u64>>::empty());
        r
    }

    /// The parameters the detector was built with.
    pub fn config(&self) -> (r: Config)
        ensures
            r == self@.config,
    {
        self.config
    }

    /// Whether `ip` is in the blocked set.
    pub fn is_blocked(&self, ip: u32) -> (r: bool)
        ensures
            r == self@.blocked.contains(ip),
    {
        self.blocked_ips.contains(&ip)
    }

    /// The recorded instants of `ip` for `kind`, oldest first.
    pub fn history_of(&self, kind: EventKind, ip: u32) -> (r: Vec<u64>)
        ensures
            r@ == history(self@, kind, ip),
    {
        let m = match kind {
            EventKind::Ssh => &self.ssh_attempts,
            EventKind::Tcp => &self.tcp_connections,
        };
        match m.get(&ip) {
            Some(h) => h.clone(),
            None => Vec::new(),
        }
    }

    /// Adds `ip` to the blocked set; returns whether it was not there before.
    fn block_ip(&mut self, ip: u32) -> (r: bool)
        ensures
            final(self)@ == (DetectorView { blocked: old(self)@.blocked.insert(ip), ..old(self)@ }),
            r == !old(self)@.blocked.contains(ip),
    {
        self.blocked_ips.insert(ip)
    }

    /// Observes source `ip` for `kind` at monotonic instant `now`, under the
    /// detector's single critical section.
    pub fn observe(&mut self, kind: EventKind, ip: u32, now: u64) -> (r: Decision)
        ensures
            (final(self)@, r) == observe(old(self)@, kind, ip, now),
            !old(self)@.blocked.contains(ip) ==> forall|i: int|
                0 <= i < history(final(self)@, kind, ip).len() ==> in_window(
                    now,
                    #[trigger] history(final(self)@, kind, ip)[i],
                    window_of(old(self)@.config, kind),
                ),
    {
        let ghost v = self@;
        if self.blocked_ips.contains(&ip) {
            return Decision::Ignored;
        }
        let (window, threshold) = match kind {
            EventKind::Ssh => (self.config.ssh_window_seconds, self.config.ssh_threshold),
            EventKind::Tcp => (self.config.tcp_window_seconds, self.config.tcp_threshold),
        };
        let count = match kind {
            EventKind::Ssh => record_in_window(&mut self.ssh_attempts, ip, now, window),
            EventKind::Tcp => record_in_window(&mut self.tcp_connections, ip, now, window),
        };
        let c = count as u64;
        let d = if c > threshold {
            Decision::Exceeded(c)
        } else {
            Decision::BelowThreshold(c)
        };
        proof {
            let h = prune(history(v, kind, ip).push(now), now, window_of(v.config, kind));
            assert(self@ == with_history(v, kind, ip, h));
        }
        if c > threshold && self.config.enable_ip_blocking {
            self.block_ip(ip);
        }
        d
    }

    /// Handles one SSH record: observes its source at monotonic instant `now`.
    pub fn process_ssh_event(&mut self, event: &SshEvent, now: u64) -> (r: Decision)
        ensures
            (final(self)@, r) == observe(old(self)@, EventKind::Ssh, event.ip, now),
    {
        self.observe(EventKind::Ssh, event.ip, now)
    }

    /// Handles one TCP record: observes its source at monotonic instant `now`.
    pub fn process_tcp_event(&mut self, event: &TcpEvent, now: u64) -> (r: Decision)
        ensures
            (final(self)@, r) == observe(old(self)@, EventKind::Tcp, event.src_ip, now),
    {
        self.observe(EventKind::Tcp, event.src_ip, now)
    }
}

} // verus!
