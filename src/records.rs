//! Fixed-layout records that the kernel probes emit.
//!
//! Both layouts are `repr(C)` with natural alignment, little-endian, and
//! 24 bytes long. A buffer shorter than the layout is malformed; a longer
//! one is read only up to the layout's size.

use vstd::prelude::*;

verus! {

/// Size in bytes of an encoded `SshEvent`.
pub const SSH_EVENT_SIZE: usize = 24;

/// Size in bytes of an encoded `TcpEvent`.
pub const TCP_EVENT_SIZE: usize = 24;

/// An SSH-related observation made by the kernel probe.
///
/// Layout: `ip` at 0, `port` at 4, `pid` at 8, `event_type` at 12,
/// `timestamp` at 16; the remaining bytes are padding.
#[derive(Debug, Clone, Copy, PartialEq, Eq)]
pub struct SshEvent {
    /// IPv4 source, network-byte-order value as a 32-bit integer.
    pub ip: u32,
    pub port: u16,
    pub pid: u32,
    /// Opaque subkind tag, carried but not interpreted.
    pub event_type: u8,
    /// Monotonic nanoseconds at kernel observation.
    pub timestamp: u64,
}

/// A TCP connection observation made by the kernel probe.
///
/// Layout: `src_ip` at 0, `dst_ip` at 4, `src_port` at 8, `dst_port` at 10,
/// `event_type` at 12, `timestamp` at 16; the remaining bytes are padding.
#[derive(Debug, Clone, Copy, PartialEq, Eq)]
pub struct TcpEvent {
    pub src_ip: u32,
    pub dst_ip: u32,
    pub src_port: u16,
    pub dst_port: u16,
    /// Opaque subkind tag, carried but not interpreted.
    pub event_type: u8,
    /// Monotonic nanoseconds at kernel observation.
    pub timestamp: u64,
}

/// The little-endian 16-bit value stored at `off`.
pub open spec fn le_u16(b: Seq<u8>, off: int) -> int {
    b[off] as int + 256 * b[off + 1] as int
}

/// The little-endian 32-bit value stored at `off`.
pub open spec fn le_u32(b: Seq<u8>, off: int) -> int {
    le_u16(b, off) + 65536 * le_u16(b, off + 2)
}

/// The little-endian 64-bit value stored at `off`.
pub open spec fn le_u64(b: Seq<u8>, off: int) -> int {
    le_u32(b, off) + 4294967296 * le_u32(b, off + 4)
}

/// The little-endian bytes of a 16-bit value.
pub open spec fn u16_bytes(x: int) -> Seq<u8> {
    seq![(x % 256) as u8, ((x / 256) % 256) as u8]
}

/// The little-endian bytes of a 32-bit value.
pub open spec fn u32_bytes(x: int) -> Seq<u8> {
    u16_bytes(x % 65536) + u16_bytes(x / 65536)
}

/// The little-endian bytes of a 64-bit value.
pub open spec fn u64_bytes(x: int) -> Seq<u8> {
    u32_bytes(x % 4294967296) + u32_bytes(x / 4294967296)
}

/// The record that the first `SSH_EVENT_SIZE` bytes of `b` hold.
pub open spec fn ssh_event_of(b: Seq<u8>) -> SshEvent {
    SshEvent {
        ip: le_u32(b, 0) as u32,
        port: le_u16(b, 4) as u16,
        pid: le_u32(b, 8) as u32,
        event_type: b[12],
        timestamp: le_u64(b, 16) as u64,
    }
}

/// The record that the first `TCP_EVENT_SIZE` bytes of `b` hold.
pub open spec fn tcp_event_of(b: Seq<u8>) -> TcpEvent {
    TcpEvent {
        src_ip: le_u32(b, 0) as u32,
        dst_ip: le_u32(b, 4) as u32,
        src_port: le_u16(b, 8) as u16,
        dst_port: le_u16(b, 10) as u16,
        event_type: b[12],
        timestamp: le_u64(b, 16) as u64,
    }
}

/// The encoding of an `SshEvent`, with zeroed padding.
pub open spec fn ssh_event_bytes(e: SshEvent) -> Seq<u8> {
    u32_bytes(e.ip as int) + u16_bytes(e.port as int) + seq![0u8, 0u8] + u32_bytes(e.pid as int)
        + seq![e.event_type, 0u8, 0u8, 0u8] + u64_bytes(e.timestamp as int)
}

/// The encoding of a `TcpEvent`, with zeroed padding.
pub open spec fn tcp_event_bytes(e: TcpEvent) -> Seq<u8> {
    u32_bytes(e.src_ip as int) + u32_bytes(e.dst_ip as int) + u16_bytes(e.src_port as int)
        + u16_bytes(e.dst_port as int) + seq![e.event_type, 0u8, 0u8, 0u8] + u64_bytes(
        e.timestamp as int,
    )
}

fn read_u16(b: &[u8], off: usize) -> (r: u16)
    requires
        off + 2 <= b@.len(),
        off <= 32,
    ensures
        r as int == le_u16(b@, off as int),
{
    (b[off] as u16) + (b[off + 1] as u16) * 256
}

fn read_u32(b: &[u8], off: usize) -> (r: u32)
    requires
        off + 4 <= b@.len(),
        off <= 24,
    ensures
        r as int == le_u32(b@, off as int),
{
    let lo = read_u16(b, off);
    let hi = read_u16(b, off + 2);
    (lo as u32) + (hi as u32) * 65536
}

fn read_u64(b: &[u8], off: usize) -> (r: u64)
    requires
        off + 8 <= b@.len(),
        off <= 16,
    ensures
        r as int == le_u64(b@, off as int),
{
    let lo = read_u32(b, off);
    let hi = read_u32(b, off + 4);
    (lo as u64) + (hi as u64) * 4294967296
}

fn push_u16(out: &mut Vec<u8>, x: u16)
    ensures
        final(out)@ == old(out)@ + u16_bytes(x as int),
{
    out.push((x % 256) as u8);
    out.push((x / 256) as u8);
    assert(final(out)@ =~= old(out)@ + u16_bytes(x as int));
}

fn push_u32(out: &mut Vec<u8>, x: u32)
    ensures
        final(out)@ == old(out)@ + u32_bytes(x as int),
{
    let ghost start = out@;
    push_u16(out, (x % 65536) as u16);
    push_u16(out, (x / 65536) as u16);
    assert(out@ =~= start + u32_bytes(x as int));
}

fn push_u64(out: &mut Vec<u8>, x: u64)
    ensures
        final(out)@ == old(out)@ + u64_bytes(x as int),
{
    let ghost start = out@;
    push_u32(out, (x % 4294967296) as u32);
    push_u32(out, (x / 4294967296) as u32);
    assert(out@ =~= start + u64_bytes(x as int));
}

/// Reads an `SshEvent` from a ring buffer.
///
/// A buffer shorter than `SSH_EVENT_SIZE` is malformed and gives `None`;
/// otherwise the record is read from the first `SSH_EVENT_SIZE` bytes and
/// any trailing bytes are ignored.
pub fn parse_ssh_event(b: &[u8]) -> (r: Option<SshEvent>)
    ensures
        b@.len() < SSH_EVENT_SIZE ==> r is None,
        b@.len() >= SSH_EVENT_SIZE ==> r == Some(ssh_event_of(b@)),
{
    if b.len() < SSH_EVENT_SIZE {
        return None;
    }
    Some(
        SshEvent {
            ip: read_u32(b, 0),
            port: read_u16(b, 4),
            pid: read_u32(b, 8),
            event_type: b[12],
            timestamp: read_u64(b, 16),
        },
    )
}

/// Reads a `TcpEvent` from a ring buffer.
///
/// A buffer shorter than `TCP_EVENT_SIZE` is malformed and gives `None`;
/// otherwise the record is read from the first `TCP_EVENT_SIZE` bytes and
/// any trailing bytes are ignored.
pub fn parse_tcp_event(b: &[u8]) -> (r: Option<TcpEvent>)
    ensures
        b@.len() < TCP_EVENT_SIZE ==> r is None,
        b@.len() >= TCP_EVENT_SIZE ==> r == Some(tcp_event_of(b@)),
{
    if b.len() < TCP_EVENT_SIZE {
        return None;
    }
    Some(
        TcpEvent {
            src_ip: read_u32(b, 0),
            dst_ip: read_u32(b, 4),
            src_port: read_u16(b, 8),
            dst_port: read_u16(b, 10),
            event_type: b[12],
            timestamp: read_u64(b, 16),
        },
    )
}

/// Encodes an `SshEvent` in the kernel's layout, padding zeroed.
pub fn encode_ssh_event(e: &SshEvent) -> (r: Vec<u8>)
    ensures
        r@ == ssh_event_bytes(*e),
        r@.len() == SSH_EVENT_SIZE,
{
    let mut out: Vec<u8> = Vec::new();
    push_u32(&mut out, e.ip);
    push_u16(&mut out, e.port);
    out.push(0);
    out.push(0);
    push_u32(&mut out, e.pid);
    out.push(e.event_type);
    out.push(0);
    out.push(0);
    out.push(0);
    push_u64(&mut out, e.timestamp);
    assert(out@ =~= ssh_event_bytes(*e));
    out
}

/// Encodes a `TcpEvent` in the kernel's layout, padding zeroed.
pub fn encode_tcp_event(e: &TcpEvent) -> (r: Vec<u8>)
    ensures
        r@ == tcp_event_bytes(*e),
        r@.len() == TCP_EVENT_SIZE,
{
    let mut out: Vec<u8> = Vec::new();
    push_u32(&mut out, e.src_ip);
    push_u32(&mut out, e.dst_ip);
    push_u16(&mut out, e.src_port);
    push_u16(&mut out, e.dst_port);
    out.push(e.event_type);
    out.push(0);
    out.push(0);
    out.push(0);
    push_u64(&mut out, e.timestamp);
    assert(out@ =~= tcp_event_bytes(*e));
    out
}

proof fn lemma_u16_at(s: Seq<u8>, off: int, x: int)
    requires
        0 <= x < 0x1_0000,
        0 <= off,
        off + 2 <= s.len(),
        s.subrange(off, off + 2) == u16_bytes(x),
    ensures
        le_u16(s, off) == x,
{
    assert(s[off] == s.subrange(off, off + 2)[0]);
    assert(s[off + 1] == s.subrange(off, off + 2)[1]);
}

proof fn lemma_u32_at(s: Seq<u8>, off: int, x: int)
    requires
        0 <= x < 0x1_0000_0000,
        0 <= off,
        off + 4 <= s.len(),
        s.subrange(off, off + 4) == u32_bytes(x),
    ensures
        le_u32(s, off) == x,
{
    assert(s.subrange(off, off + 2) =~= s.subrange(off, off + 4).subrange(0, 2));
    assert(s.subrange(off + 2, off + 4) =~= s.subrange(off, off + 4).subrange(2, 4));
    assert(u32_bytes(x).subrange(0, 2) =~= u16_bytes(x % 65536));
    assert(u32_bytes(x).subrange(2, 4) =~= u16_bytes(x / 65536));
    lemma_u16_at(s, off, x % 65536);
    lemma_u16_at(s, off + 2, x / 65536);
}

proof fn lemma_u64_at(s: Seq<u8>, off: int, x: int)
    requires
        0 <= x < 0x1_0000_0000_0000_0000,
        0 <= off,
        off + 8 <= s.len(),
        s.subrange(off, off + 8) == u64_bytes(x),
    ensures
        le_u64(s, off) == x,
{
    assert(s.subrange(off, off + 4) =~= s.subrange(off, off + 8).subrange(0, 4));
    assert(s.subrange(off + 4, off + 8) =~= s.subrange(off, off + 8).subrange(4, 8));
    assert(u64_bytes(x).subrange(0, 4) =~= u32_bytes(x % 4294967296));
    assert(u64_bytes(x).subrange(4, 8) =~= u32_bytes(x / 4294967296));
    lemma_u32_at(s, off, x % 4294967296);
    lemma_u32_at(s, off + 4, x / 4294967296);
}

/// Every field of an `SshEvent` survives encoding and parsing: the record
/// read back from its encoding is the record itself.
pub proof fn ssh_event_round_trip(e: SshEvent)
    ensures
        ssh_event_bytes(e).len() == SSH_EVENT_SIZE,
        ssh_event_of(ssh_event_bytes(e)) == e,
{
    let s = ssh_event_bytes(e);
    assert(s.subrange(0, 4) =~= u32_bytes(e.ip as int));
    assert(s.subrange(4, 6) =~= u16_bytes(e.port as int));
    assert(s.subrange(8, 12) =~= u32_bytes(e.pid as int));
    assert(s.subrange(16, 24) =~= u64_bytes(e.timestamp as int));
    lemma_u32_at(s, 0, e.ip as int);
    lemma_u16_at(s, 4, e.port as int);
    lemma_u32_at(s, 8, e.pid as int);
    lemma_u64_at(s, 16, e.timestamp as int);
    assert(s[12] == e.event_type);
}

/// Every field of a `TcpEvent` survives encoding and parsing: the record
/// read back from its encoding is the record itself.
pub proof fn tcp_event_round_trip(e: TcpEvent)
    ensures
        tcp_event_bytes(e).len() == TCP_EVENT_SIZE,
        tcp_event_of(tcp_event_bytes(e)) == e,
{
    let s = tcp_event_bytes(e);
    assert(s.subrange(0, 4) =~= u32_bytes(e.src_ip as int));
    assert(s.subrange(4, 8) =~= u32_bytes(e.dst_ip as int));
    assert(s.subrange(8, 10) =~= u16_bytes(e.src_port as int));
    assert(s.subrange(10, 12) =~= u16_bytes(e.dst_port as int));
    assert(s.subrange(16, 24) =~= u64_bytes(e.timestamp as int));
    lemma_u32_at(s, 0, e.src_ip as int);
    lemma_u32_at(s, 4, e.dst_ip as int);
    lemma_u16_at(s, 8, e.src_port as int);
    lemma_u16_at(s, 10, e.dst_port as int);
    lemma_u64_at(s, 16, e.timestamp as int);
    assert(s[12] == e.event_type);
}

proof fn lemma_u16_bytes_of(b: Seq<u8>, off: int)
    requires
        0 <= off,
        off + 2 <= b.len(),
    ensures
        0 <= le_u16(b, off) < 0x1_0000,
        u16_bytes(le_u16(b, off)) == b.subrange(off, off + 2),
{
    assert(u16_bytes(le_u16(b, off)) =~= b.subrange(off, off + 2));
}

proof fn lemma_u32_bytes_of(b: Seq<u8>, off: int)
    requires
        0 <= off,
        off + 4 <= b.len(),
    ensures
        0 <= le_u32(b, off) < 0x1_0000_0000,
        u32_bytes(le_u32(b, off)) == b.subrange(off, off + 4),
{
    lemma_u16_bytes_of(b, off);
    lemma_u16_bytes_of(b, off + 2);
    let x = le_u32(b, off);
    assert(x % 65536 == le_u16(b, off));
    assert(x / 65536 == le_u16(b, off + 2));
    assert(u32_bytes(x) =~= b.subrange(off, off + 4));
}

proof fn lemma_u64_bytes_of(b: Seq<u8>, off: int)
    requires
        0 <= off,
        off + 8 <= b.len(),
    ensures
        0 <= le_u64(b, off) < 0x1_0000_0000_0000_0000,
        u64_bytes(le_u64(b, off)) == b.subrange(off, off + 8),
{
    lemma_u32_bytes_of(b, off);
    lemma_u32_bytes_of(b, off + 4);
    let x = le_u64(b, off);
    assert(x % 4294967296 == le_u32(b, off));
    assert(x / 4294967296 == le_u32(b, off + 4));
    assert(u64_bytes(x) =~= b.subrange(off, off + 8));
}

/// Parsing a record of any bit pattern and encoding it again reproduces
/// every byte that belongs to a declared field; only padding may differ.
pub proof fn ssh_bytes_round_trip(b: Seq<u8>)
    requires
        b.len() == SSH_EVENT_SIZE,
    ensures
        ssh_event_bytes(ssh_event_of(b)).subrange(0, 6) == b.subrange(0, 6),
        ssh_event_bytes(ssh_event_of(b)).subrange(8, 13) == b.subrange(8, 13),
        ssh_event_bytes(ssh_event_of(b)).subrange(16, 24) == b.subrange(16, 24),
{
    let s = ssh_event_bytes(ssh_event_of(b));
    lemma_u32_bytes_of(b, 0);
    lemma_u16_bytes_of(b, 4);
    lemma_u32_bytes_of(b, 8);
    lemma_u64_bytes_of(b, 16);
    assert(s.subrange(0, 6) =~= b.subrange(0, 4) + b.subrange(4, 6));
    assert(b.subrange(0, 6) =~= b.subrange(0, 4) + b.subrange(4, 6));
    assert(s.subrange(8, 13) =~= b.subrange(8, 13));
    assert(s.subrange(16, 24) =~= b.subrange(16, 24));
}

/// Parsing a record of any bit pattern and encoding it again reproduces
/// every byte that belongs to a declared field; only padding may differ.
pub proof fn tcp_bytes_round_trip(b: Seq<u8>)
    requires
        b.len() == TCP_EVENT_SIZE,
    ensures
        tcp_event_bytes(tcp_event_of(b)).subrange(0, 13) == b.subrange(0, 13),
        tcp_event_bytes(tcp_event_of(b)).subrange(16, 24) == b.subrange(16, 24),
{
    let s = tcp_event_bytes(tcp_event_of(b));
    lemma_u32_bytes_of(b, 0);
    lemma_u32_bytes_of(b, 4);
    lemma_u16_bytes_of(b, 8);
    lemma_u16_bytes_of(b, 10);
    lemma_u64_bytes_of(b, 16);
    assert(s.subrange(0, 13) =~= b.subrange(0, 4) + b.subrange(4, 8) + b.subrange(8, 10)
        + b.subrange(10, 12) + seq![b[12]]);
    assert(b.subrange(0, 13) =~= b.subrange(0, 4) + b.subrange(4, 8) + b.subrange(8, 10)
        + b.subrange(10, 12) + seq![b[12]]);
    assert(s.subrange(16, 24) =~= b.subrange(16, 24));
}

} // verus!
