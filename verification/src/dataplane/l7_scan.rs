//! Signatures in the first octets of a TCP payload.

use crate::bytes::read_be16;
use crate::bytes::word_at;
use crate::common::DropEvent;
use crate::common::IpKey;
use crate::common::L7Pattern;
use crate::dataplane::parser::IPPROTO_TCP;
use crate::rules;
use vstd::prelude::*;

verus! {

pub const MAX_PATTERNS: usize = 16;
pub const SIGNATURE_BYTES: usize = 8;

/// Eight octets at `off`, the first the least significant.
pub open spec fn le_u64(p: Seq<u8>, off: int) -> int {
    p[off] + p[off + 1] * 0x100 + p[off + 2] * 0x1_0000 + p[off + 3] * 0x100_0000 + p[off + 4]
        * 0x1_0000_0000 + p[off + 5] * 0x100_0000_0000 + p[off + 6] * 0x1_0000_0000_0000 + p[off + 7]
        * 0x100_0000_0000_0000
}

pub fn read_le64(p: &[u8], off: usize) -> (r: u64)
    requires
        off + 8 <= p@.len(),
    ensures
        r == le_u64(p@, off as int),
{
    let _n: usize = p.len();
    p[off] as u64 + p[off + 1] as u64 * 0x100 + p[off + 2] as u64 * 0x1_0000 + p[off + 3] as u64
        * 0x100_0000 + p[off + 4] as u64 * 0x1_0000_0000 + p[off + 5] as u64 * 0x100_0000_0000
        + p[off + 6] as u64 * 0x1_0000_0000_0000 + p[off + 7] as u64 * 0x100_0000_0000_0000
}

/// Where the payload of the TCP packet starts.
pub open spec fn payload_at(p: Seq<u8>, ip_hdr_len: int) -> int {
    14 + ip_hdr_len + word_at(p, 14 + ip_hdr_len + 12) / 0x1000 * 4
}

/// The pattern is set and agrees with the payload in the bits of its mask.
pub open spec fn pattern_hits(pat: L7Pattern, chunk: u64) -> bool {
    pat.length != 0 && (chunk & pat.mask) == (pat.signature & pat.mask)
}

/// One of the patterns hits the packet: a TCP packet with at least eight octets of
/// payload.
pub open spec fn scan_hits(p: Seq<u8>, ip_hdr_len: int, protocol: u8, patterns: Seq<L7Pattern>) -> bool {
    &&& protocol == IPPROTO_TCP
    &&& 14 + ip_hdr_len + 20 <= p.len()
    &&& payload_at(p, ip_hdr_len) + 8 <= p.len()
    &&& exists|i: int|
        0 <= i < 16 && i < patterns.len() && pattern_hits(
            #[trigger] patterns[i],
            le_u64(p, payload_at(p, ip_hdr_len)) as u64,
        )
}

/// Compares the first eight octets of a TCP payload with the patterns.
pub fn scan(p: &[u8], ip_hdr_len: usize, protocol: u8, patterns: &Vec<L7Pattern>) -> (r: bool)
    requires
        ip_hdr_len <= 60,
    ensures
        r == scan_hits(p@, ip_hdr_len as int, protocol, patterns@),
{
    if protocol != IPPROTO_TCP {
        return false;
    }
    let off: usize = 14 + ip_hdr_len;
    if p.len() < off + 20 {
        return false;
    }
    let tcp_hdr_len: usize = (read_be16(p, off + 12) / 0x1000) as usize * 4;
    let payload_off: usize = off + tcp_hdr_len;
    if p.len() < payload_off + SIGNATURE_BYTES {
        return false;
    }
    let chunk: u64 = read_le64(p, payload_off);
    let mut i: usize = 0;
    while i < MAX_PATTERNS && i < patterns.len()
        invariant
            protocol == IPPROTO_TCP,
            14 + ip_hdr_len + 20 <= p@.len(),
            payload_at(p@, ip_hdr_len as int) + 8 <= p@.len(),
            chunk == le_u64(p@, payload_at(p@, ip_hdr_len as int)),
            forall|j: int| 0 <= j < i ==> !pattern_hits(#[trigger] patterns@[j], chunk),
        decreases 16 - i,
    {
        let pat: L7Pattern = patterns[i];
        if pat.length != 0 && (chunk & pat.mask) == (pat.signature & pat.mask) {
            assert(pattern_hits(patterns@[i as int], chunk));
            return true;
        }
        i = i + 1;
    }
    false
}

/// The event of a hit.
pub open spec fn l7_event(src: IpKey, protocol: u8, dport: u16, time_ns: u64) -> DropEvent {
    DropEvent {
        timestamp_ns: time_ns,
        src_ip: src.addr,
        family: src.family,
        protocol,
        rule_id: rules::L7_PATTERN,
        dst_port: dport,
    }
}

pub fn emit_l7_event(src: &IpKey, protocol: u8, dport: u16, time_ns: u64) -> (r: DropEvent)
    ensures
        r == l7_event(*src, protocol, dport, time_ns),
{
    DropEvent {
        timestamp_ns: time_ns,
        src_ip: src.addr,
        family: src.family,
        protocol,
        rule_id: rules::L7_PATTERN,
        dst_port: dport,
    }
}

} // verus!
