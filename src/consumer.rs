//! The per-record step of a ring consumer: parse a filled buffer and, when
//! it holds a whole record, hand the record to the detector.

use crate::detector::{observe, Decision, EventKind, ThreatDetector};
use crate::records::{
    parse_ssh_event, parse_tcp_event, ssh_event_of, tcp_event_of, SSH_EVENT_SIZE, TCP_EVENT_SIZE,
};
use vstd::prelude::*;

verus! {

/// Handles one buffer read from the SSH ring at monotonic instant `now`.
///
/// A buffer shorter than an SSH record is malformed: it gives `None` and the
/// detector is left untouched. Otherwise the record's source is observed and
/// its decision returned.
pub fn handle_ssh_buffer(detector: &mut ThreatDetector, buf: &[u8], now: u64) -> (r: Option<(u32, Decision)>)
    ensures
        buf@.len() < SSH_EVENT_SIZE ==> r is None && final(detector)@ == old(detector)@,
        buf@.len() >= SSH_EVENT_SIZE ==> {
            let step = observe(old(detector)@, EventKind::Ssh, ssh_event_of(buf@).ip, now);
            &&& r == Some((ssh_event_of(buf@).ip, step.1))
            &&& final(detector)@ == step.0
        },
{
    match parse_ssh_event(buf) {
        Some(event) => Some((event.ip, detector.process_ssh_event(&event, now))),
        None => None,
    }
}

/// Handles one buffer read from the TCP ring at monotonic instant `now`.
///
/// A buffer shorter than a TCP record is malformed: it gives `None` and the
/// detector is left untouched. Otherwise the record's source is observed and
/// its decision returned.
pub fn handle_tcp_buffer(detector: &mut ThreatDetector, buf: &[u8], now: u64) -> (r: Option<(u32, Decision)>)
    ensures
        buf@.len() < TCP_EVENT_SIZE ==> r is None && final(detector)@ == old(detector)@,
        buf@.len() >= TCP_EVENT_SIZE ==> {
            let step = observe(old(detector)@, EventKind::Tcp, tcp_event_of(buf@).src_ip, now);
            &&& r == Some((tcp_event_of(buf@).src_ip, step.1))
            &&& final(detector)@ == step.0
        },
{
    match parse_tcp_event(buf) {
        Some(event) => Some((event.src_ip, detector.process_tcp_event(&event, now))),
        None => None,
    }
}

} // verus!
