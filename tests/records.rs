use ebpf_detector_agent::records::{
    encode_ssh_event, encode_tcp_event, parse_ssh_event, parse_tcp_event, SshEvent, TcpEvent,
    SSH_EVENT_SIZE, TCP_EVENT_SIZE,
};

#[test]
fn layout_sizes_match_repr_c() {
    assert_eq!(SSH_EVENT_SIZE, 24);
    assert_eq!(TCP_EVENT_SIZE, 24);
    assert_eq!(SSH_EVENT_SIZE, std::mem::size_of::<SshEvent>());
    assert_eq!(TCP_EVENT_SIZE, std::mem::size_of::<TcpEvent>());
}

#[test]
fn ssh_encoding_is_little_endian() {
    let e = SshEvent { ip: 0x0A000001, port: 0x0016, pid: 0x01020304, event_type: 7, timestamp: 0x1122334455667788 };
    let b = encode_ssh_event(&e);
    assert_eq!(
        b,
        vec![1, 0, 0, 10, 0x16, 0, 0, 0, 4, 3, 2, 1, 7, 0, 0, 0, 0x88, 0x77, 0x66, 0x55, 0x44, 0x33, 0x22, 0x11]
    );
}

#[test]
fn tcp_encoding_is_little_endian() {
    let e = TcpEvent { src_ip: 0xC0A80005, dst_ip: 0x01020304, src_port: 0x1234, dst_port: 80, event_type: 3, timestamp: 1 };
    let b = encode_tcp_event(&e);
    assert_eq!(b, vec![5, 0, 0xA8, 0xC0, 4, 3, 2, 1, 0x34, 0x12, 80, 0, 3, 0, 0, 0, 1, 0, 0, 0, 0, 0, 0, 0]);
}

#[test]
fn records_round_trip() {
    let values = [0u64, 1, 0xFF, 0xFFFF_FFFF, u64::MAX, 0x8000_0000_0000_0001];
    for &v in &values {
        let s = SshEvent { ip: v as u32, port: v as u16, pid: (v >> 3) as u32, event_type: v as u8, timestamp: v };
        assert_eq!(parse_ssh_event(&encode_ssh_event(&s)), Some(s));
        let t = TcpEvent { src_ip: v as u32, dst_ip: !(v as u32), src_port: v as u16, dst_port: (v >> 8) as u16, event_type: !(v as u8), timestamp: !v };
        assert_eq!(parse_tcp_event(&encode_tcp_event(&t)), Some(t));
    }
}

#[test]
fn parse_matches_in_memory_layout() {
    let mut buf = vec![0u8; 30];
    for (i, b) in buf.iter_mut().enumerate() {
        *b = (i * 37 + 11) as u8;
    }
    let s = parse_ssh_event(&buf).unwrap();
    assert_eq!(s.ip, u32::from_le_bytes([buf[0], buf[1], buf[2], buf[3]]));
    assert_eq!(s.port, u16::from_le_bytes([buf[4], buf[5]]));
    assert_eq!(s.pid, u32::from_le_bytes([buf[8], buf[9], buf[10], buf[11]]));
    assert_eq!(s.event_type, buf[12]);
    assert_eq!(s.timestamp, u64::from_le_bytes(buf[16..24].try_into().unwrap()));
    let t = parse_tcp_event(&buf).unwrap();
    assert_eq!(t.dst_ip, u32::from_le_bytes([buf[4], buf[5], buf[6], buf[7]]));
    assert_eq!(t.src_port, u16::from_le_bytes([buf[8], buf[9]]));
    assert_eq!(t.dst_port, u16::from_le_bytes([buf[10], buf[11]]));
    assert_eq!(parse_ssh_event(&buf[..24]), Some(s));
}

#[test]
fn short_buffers_are_malformed() {
    for n in 0..24 {
        let buf = vec![0xAAu8; n];
        assert_eq!(parse_ssh_event(&buf), None);
        assert_eq!(parse_tcp_event(&buf), None);
    }
    assert!(parse_ssh_event(&[0u8; 24]).is_some());
}
