use ebpf_detector_agent::alert::{reaction_at, reaction_now, u32_to_ip, IpAddress, ThreatType};
use ebpf_detector_agent::consumer::{handle_ssh_buffer, handle_tcp_buffer};
use ebpf_detector_agent::detector::{Config, Decision, EventKind, ThreatDetector};
use ebpf_detector_agent::records::{encode_ssh_event, encode_tcp_event, SshEvent, TcpEvent};

const SEC: u64 = 1_000_000_000;

fn config(ssh_threshold: u64, ssh_window: u64, tcp_threshold: u64, tcp_window: u64, block: bool) -> Config {
    Config {
        ssh_window_seconds: ssh_window,
        ssh_threshold,
        tcp_window_seconds: tcp_window,
        tcp_threshold,
        enable_ip_blocking: block,
    }
}

fn ssh(ip: u32) -> SshEvent {
    SshEvent { ip, port: 22, pid: 1234, event_type: 1, timestamp: 0 }
}

fn tcp(src_ip: u32) -> TcpEvent {
    TcpEvent { src_ip, dst_ip: 0x0A0000FE, src_port: 40000, dst_port: 22, event_type: 2, timestamp: 0 }
}

#[test]
fn ssh_six_attempts_give_one_alert_without_blocking() {
    let cfg = config(5, 60, 100, 10, false);
    let mut d = ThreatDetector::new(cfg);
    let mut alerts = Vec::new();
    for i in 0..6u64 {
        let dec = d.process_ssh_event(&ssh(0x0A000001), i * SEC);
        if i < 5 {
            assert_eq!(dec, Decision::BelowThreshold(i + 1));
        }
        if let Some(r) = reaction_at(&cfg, EventKind::Ssh, 0x0A000001, dec, 1000) {
            alerts.push(r);
        }
    }
    assert_eq!(alerts.len(), 1);
    assert_eq!(alerts[0].alert.threat_type, ThreatType::SshBruteForce);
    assert_eq!(alerts[0].alert.count, 6);
    assert_eq!(alerts[0].alert.ip, IpAddress::V4(0x0A000001));
    assert!(!alerts[0].block);
    assert!(!d.is_blocked(0x0A000001));
}

#[test]
fn ssh_blocking_alerts_once_then_ignores() {
    let cfg = config(5, 60, 100, 10, true);
    let mut d = ThreatDetector::new(cfg);
    let mut alerts = 0;
    let mut firewall_calls = 0;
    for i in 0..10u64 {
        let dec = d.process_ssh_event(&ssh(0x0A000001), i * SEC);
        if i == 5 {
            assert_eq!(dec, Decision::Exceeded(6));
        }
        if i >= 6 {
            assert_eq!(dec, Decision::Ignored);
        }
        if let Some(r) = reaction_at(&cfg, EventKind::Ssh, 0x0A000001, dec, 0) {
            alerts += 1;
            if r.block {
                firewall_calls += 1;
            }
        }
    }
    assert_eq!(alerts, 1);
    assert_eq!(firewall_calls, 1);
    assert!(d.is_blocked(0x0A000001));
}

#[test]
fn ssh_short_window_never_alerts() {
    let cfg = config(3, 2, 100, 10, false);
    let mut d = ThreatDetector::new(cfg);
    let times = [0u64, 1, 2, 5];
    let expected = [1u64, 2, 2, 1];
    for k in 0..4 {
        let dec = d.process_ssh_event(&ssh(0x0A000001), times[k] * SEC);
        assert_eq!(dec, Decision::BelowThreshold(expected[k]));
    }
    assert_eq!(d.history_of(EventKind::Ssh, 0x0A000001), vec![5 * SEC]);
}

#[test]
fn tcp_burst_gives_port_scan_alert() {
    let cfg = config(5, 60, 100, 10, false);
    let mut d = ThreatDetector::new(cfg);
    let mut alerts = Vec::new();
    for i in 0..101u64 {
        let dec = d.process_tcp_event(&tcp(0xC0A80005), i * (SEC / 101));
        if let Some(r) = reaction_at(&cfg, EventKind::Tcp, 0xC0A80005, dec, 0) {
            alerts.push(r);
        }
    }
    assert_eq!(alerts.len(), 1);
    assert_eq!(alerts[0].alert.threat_type, ThreatType::TcpPortScan);
    assert_eq!(alerts[0].alert.count, 101);
    assert_eq!(alerts[0].alert.ip, IpAddress::V4(0xC0A80005));
}

#[test]
fn mixed_sources_alert_independently() {
    let cfg = config(5, 60, 100, 10, true);
    let mut d = ThreatDetector::new(cfg);
    let mut alerts = Vec::new();
    for i in 0..20u64 {
        let ip = if i % 2 == 0 { 0x0A000001 } else { 0x0A000002 };
        let dec = d.process_ssh_event(&ssh(ip), i * SEC);
        if let Some(r) = reaction_at(&cfg, EventKind::Ssh, ip, dec, 0) {
            alerts.push((i + 1, r));
        }
    }
    assert_eq!(alerts.len(), 2);
    assert_eq!(alerts[0].0, 11);
    assert_eq!(alerts[0].1.alert.ip, IpAddress::V4(0x0A000001));
    assert_eq!(alerts[0].1.alert.count, 6);
    assert_eq!(alerts[1].0, 12);
    assert_eq!(alerts[1].1.alert.ip, IpAddress::V4(0x0A000002));
    assert_eq!(alerts[1].1.alert.count, 6);
}

#[test]
fn short_ssh_buffer_is_dropped() {
    let mut d = ThreatDetector::new(config(5, 60, 100, 10, false));
    let buf = [0u8; 12];
    assert_eq!(handle_ssh_buffer(&mut d, &buf, 0), None);
    assert!(d.history_of(EventKind::Ssh, 0).is_empty());
    let long = encode_ssh_event(&ssh(0x0A000001));
    assert_eq!(handle_ssh_buffer(&mut d, &long[..23], 0), None);
    assert_eq!(handle_ssh_buffer(&mut d, &long, 0), Some((0x0A000001, Decision::BelowThreshold(1))));
    assert_eq!(d.history_of(EventKind::Ssh, 0x0A000001), vec![0]);
}

#[test]
fn short_tcp_buffer_is_dropped() {
    let mut d = ThreatDetector::new(config(5, 60, 100, 10, false));
    assert_eq!(handle_tcp_buffer(&mut d, &[0u8; 5], 0), None);
    let mut buf = encode_tcp_event(&tcp(0xC0A80005));
    buf.extend_from_slice(&[9, 9, 9]);
    assert_eq!(handle_tcp_buffer(&mut d, &buf, 7), Some((0xC0A80005, Decision::BelowThreshold(1))));
    assert_eq!(d.history_of(EventKind::Tcp, 0xC0A80005), vec![7]);
}

#[test]
fn pruned_instants_lie_within_window() {
    let mut d = ThreatDetector::new(config(100, 3, 100, 10, false));
    for t in [0u64, 1, 2, 3, 4, 10, 11, 12, 13] {
        d.observe(EventKind::Ssh, 1, t * SEC);
        for h in d.history_of(EventKind::Ssh, 1) {
            assert!(t * SEC - h < 3 * SEC);
        }
    }
    assert_eq!(d.history_of(EventKind::Ssh, 1), vec![11 * SEC, 12 * SEC, 13 * SEC]);
}

#[test]
fn instants_after_now_are_kept() {
    let mut d = ThreatDetector::new(config(100, 1, 100, 1, false));
    assert_eq!(d.observe(EventKind::Tcp, 1, 50 * SEC), Decision::BelowThreshold(1));
    assert_eq!(d.observe(EventKind::Tcp, 1, 10 * SEC), Decision::BelowThreshold(2));
    assert_eq!(d.history_of(EventKind::Tcp, 1), vec![50 * SEC, 10 * SEC]);
}

#[test]
fn threshold_equal_is_not_exceeded() {
    let mut d = ThreatDetector::new(config(3, 60, 100, 10, false));
    assert_eq!(d.observe(EventKind::Ssh, 9, 0), Decision::BelowThreshold(1));
    assert_eq!(d.observe(EventKind::Ssh, 9, 1), Decision::BelowThreshold(2));
    assert_eq!(d.observe(EventKind::Ssh, 9, 2), Decision::BelowThreshold(3));
    assert_eq!(d.observe(EventKind::Ssh, 9, 3), Decision::Exceeded(4));
    assert_eq!(d.observe(EventKind::Ssh, 9, 4), Decision::Exceeded(5));
}

#[test]
fn zero_threshold_fires_on_first() {
    let mut d = ThreatDetector::new(config(0, 60, 0, 10, true));
    assert_eq!(d.observe(EventKind::Tcp, 4, 0), Decision::Exceeded(1));
    assert_eq!(d.observe(EventKind::Tcp, 4, 1), Decision::Ignored);
    assert_eq!(d.observe(EventKind::Ssh, 4, 2), Decision::Ignored);
}

#[test]
fn blocked_source_does_not_touch_others() {
    let mut d = ThreatDetector::new(config(1, 60, 1, 60, true));
    d.observe(EventKind::Ssh, 1, 0);
    d.observe(EventKind::Ssh, 2, 0);
    assert_eq!(d.observe(EventKind::Ssh, 1, 1), Decision::Exceeded(2));
    assert_eq!(d.observe(EventKind::Ssh, 2, 1), Decision::Exceeded(2));
    assert!(d.is_blocked(1));
    assert!(d.is_blocked(2));
    assert!(!d.is_blocked(3));
    assert_eq!(d.observe(EventKind::Tcp, 3, 2), Decision::BelowThreshold(1));
}

#[test]
fn ssh_and_tcp_histories_are_separate() {
    let mut d = ThreatDetector::new(config(10, 60, 10, 60, false));
    d.observe(EventKind::Ssh, 5, 1);
    d.observe(EventKind::Ssh, 5, 2);
    assert_eq!(d.observe(EventKind::Tcp, 5, 3), Decision::BelowThreshold(1));
    assert_eq!(d.history_of(EventKind::Ssh, 5), vec![1, 2]);
    assert_eq!(d.config().tcp_window_seconds, 60);
}

#[test]
fn reaction_follows_decision() {
    let cfg = config(1, 1, 1, 1, true);
    assert_eq!(reaction_at(&cfg, EventKind::Ssh, 1, Decision::Ignored, 5), None);
    assert_eq!(reaction_at(&cfg, EventKind::Ssh, 1, Decision::BelowThreshold(1), 5), None);
    let r = reaction_at(&cfg, EventKind::Tcp, 7, Decision::Exceeded(3), 5).unwrap();
    assert_eq!(r.alert.ip, IpAddress::V4(7));
    assert_eq!(r.alert.threat_type, ThreatType::TcpPortScan);
    assert_eq!(r.alert.count, 3);
    assert_eq!(r.alert.timestamp_millis, 5);
    assert!(r.block);
    let now = reaction_now(&cfg, EventKind::Ssh, 2, Decision::Exceeded(4)).unwrap();
    assert!(now.alert.timestamp_millis > 1_600_000_000_000);
    assert_eq!(now.alert.count, 4);
    assert!(reaction_now(&cfg, EventKind::Ssh, 2, Decision::Ignored).is_none());
    assert_eq!(u32_to_ip(0x0A000001), IpAddress::V4(0x0A000001));
}

#[test]
fn other_interleaving_gives_same_alerts() {
    let cfg = config(5, 60, 100, 10, true);
    let mut d = ThreatDetector::new(cfg);
    let order = [2u32, 2, 2, 1, 1, 1, 2, 2, 2, 1, 1, 1, 2, 2, 2, 1, 1, 1, 2, 1];
    let mut alerts = Vec::new();
    for (i, &src) in order.iter().enumerate() {
        let ip = 0x0A000000 + src;
        let dec = d.process_ssh_event(&ssh(ip), i as u64 * SEC);
        if let Decision::Exceeded(c) = dec {
            alerts.push((ip, c));
        }
    }
    assert_eq!(alerts, vec![(0x0A000002, 6), (0x0A000001, 6)]);
}
