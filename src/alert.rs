//! Threat alerts and the reaction a confirmed threat calls for.

use crate::detector::{Config, Decision, EventKind};
use vstd::prelude::*;

verus! {

/// A source address. The current records only carry IPv4 sources.
#[derive(Debug, Clone, Copy, PartialEq, Eq)]
pub enum IpAddress {
    /// An IPv4 address as its 32-bit value (`10.0.0.1` is `0x0A000001`).
    V4(u32),
    /// An IPv6 address as its 128-bit value.
    V6(u128),
}

/// The kind of threat an alert reports.
#[derive(Debug, Clone, Copy, PartialEq, Eq)]
pub enum ThreatType {
    SshBruteForce,
    TcpPortScan,
    TcpFlood,
}

/// A confirmed threat from one source.
#[derive(Debug, Clone, Copy, PartialEq, Eq)]
pub struct ThreatAlert {
    pub ip: IpAddress,
    pub threat_type: ThreatType,
    /// Observations of the source within the window.
    pub count: u64,
    /// Wall-clock time of the alert, in milliseconds since the Unix epoch.
    pub timestamp_millis: i64,
}

/// What the reactor does on a confirmed threat: persist and notify the
/// alert, and, when `block` holds, drop the source at the firewall.
#[derive(Debug, Clone, Copy, PartialEq, Eq)]
pub struct Reaction {
    pub alert: ThreatAlert,
    pub block: bool,
}

/// Converts a record's 32-bit source to an address.
pub fn u32_to_ip(ip: u32) -> (r: IpAddress)
    ensures
        r == IpAddress::V4(ip),
{
    IpAddress::V4(ip)
}

/// The threat kind reported by each observer.
pub open spec fn threat_type_of(kind: EventKind) -> ThreatType {
    match kind {
        EventKind::Ssh => ThreatType::SshBruteForce,
        EventKind::Tcp => ThreatType::TcpPortScan,
    }
}

/// The threat kind reported by the observer for `kind`.
pub fn threat_type_for(kind: EventKind) -> (r: ThreatType)
    ensures
        r == threat_type_of(kind),
{
    match kind {
        EventKind::Ssh => ThreatType::SshBruteForce,
        EventKind::Tcp => ThreatType::TcpPortScan,
    }
}

/// The reaction to decision `d` on source `ip` for `kind`, stamped with
/// `timestamp_millis`: none unless the threshold was exceeded.
pub open spec fn reaction_of(
    config: Config,
    kind: EventKind,
    ip: u32,
    d: Decision,
    timestamp_millis: i64,
) -> Option<Reaction> {
    match d {
        Decision::Exceeded(count) => Some(
            Reaction {
                alert: ThreatAlert {
                    ip: IpAddress::V4(ip),
                    threat_type: threat_type_of(kind),
                    count,
                    timestamp_millis,
                },
                block: config.enable_ip_blocking,
            },
        ),
        _ => None,
    }
}

/// The reaction to decision `d` on source `ip`, stamped with the given time.
pub fn reaction_at(config: &Config, kind: EventKind, ip: u32, d: Decision, timestamp_millis: i64) -> (r:
    Option<Reaction>)
    ensures
        r == reaction_of(*config, kind, ip, d, timestamp_millis),
{
    match d {
        Decision::Exceeded(count) => Some(
            Reaction {
                alert: ThreatAlert {
                    ip: u32_to_ip(ip),
                    threat_type: threat_type_for(kind),
                    count,
                    timestamp_millis,
                },
                block: config.enable_ip_blocking,
            },
        ),
        _ => None,
    }
}

/// Relies on chrono's `From<SystemTime> for DateTime<Utc>` and
/// `DateTime::timestamp_millis`: the current wall-clock time in milliseconds
/// since the Unix epoch, negative for a clock set before the epoch. Nothing
/// is promised of its value. The conversion fails only for a clock outside
/// chrono's date range, some 262,000 years either side of the epoch.
#[verifier::external_body]
fn wall_clock_millis() -> (r: i64) {
    chrono::DateTime::<chrono::Utc>::from(std::time::SystemTime::now()).timestamp_millis()
}

/// The reaction to decision `d` on source `ip`, stamped with the current
/// wall-clock time.
pub fn reaction_now(config: &Config, kind: EventKind, ip: u32, d: Decision) -> (r: Option<Reaction>)
    ensures
        r is Some <==> d is Exceeded,
        r matches Some(x) ==> r == reaction_of(*config, kind, ip, d, x.alert.timestamp_millis),
{
    let ts = wall_clock_millis();
    reaction_at(config, kind, ip, d, ts)
}

} // verus!
