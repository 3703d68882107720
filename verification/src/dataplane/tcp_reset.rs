//! Answering a dropped TCP packet with a reset.

use crate::bytes::dword_at;
use crate::bytes::read_be32;
use crate::common::GlobalStats;
use crate::dataplane::rewrite::compute_checksums;
use crate::dataplane::rewrite::law_rewritten_checksums_verify;
use crate::dataplane::rewrite::lemma_checksums_touch;
use crate::dataplane::rewrite::lemma_octets_make_up;
use crate::dataplane::rewrite::octet;
use crate::dataplane::rewrite::octet_of;
use crate::dataplane::rewrite::with_checksums;
use crate::dataplane::xdp::XDP_DROP;
use crate::dataplane::xdp::XDP_TX;
use crate::pure::ones_fold;
use vstd::prelude::*;

verus! {

/// Octets of a reset: Ethernet, IPv4 and TCP header without options.
pub const RST_FRAME_LEN: usize = 54;

/// The packet cut, or filled up with zeros, to the length of a reset.
pub open spec fn resized(p: Seq<u8>) -> Seq<u8> {
    Seq::new(54, |i: int| if i < p.len() { p[i] } else { 0u8 })
}

/// The acknowledgement number of the reset: the sequence number that came in, plus one.
pub open spec fn rst_ack(q: Seq<u8>) -> int {
    (dword_at(q, 38) + 1) % 0x1_0000_0000
}

/// Octet `i` of the reset that answers `q`, before checksums.
pub open spec fn rst_octet(q: Seq<u8>, i: int) -> u8 {
    if i < 6 {
        q[i + 6]  // destination MAC
    } else if i < 12 {
        q[i - 6]  // source MAC
    } else if i == 16 {
        0  // total length
    } else if i == 17 {
        40
    } else if i == 24 || i == 25 {
        0  // header checksum
    } else if 26 <= i < 30 {
        q[i + 4]  // source address
    } else if 30 <= i < 34 {
        q[i - 4]  // destination address
    } else if i == 34 || i == 35 {
        q[i + 2]  // source port
    } else if i == 36 || i == 37 {
        q[i - 2]  // destination port
    } else if 38 <= i < 42 {
        0  // sequence number
    } else if 42 <= i < 46 {
        octet_of(rst_ack(q), i - 42)
    } else if i == 46 {
        0x50  // header length
    } else if i == 47 {
        0x14  // RST and ACK
    } else if i >= 48 {
        0  // window, checksum, urgent pointer
    } else {
        q[i]
    }
}

fn rst_octet_at(q: &Vec<u8>, ack: u32, i: usize) -> (r: u8)
    requires
        q@.len() == 54,
        i < 54,
        ack == rst_ack(q@),
    ensures
        r == rst_octet(q@, i as int),
{
    if i < 6 {
        q[i + 6]
    } else if i < 12 {
        q[i - 6]
    } else if i == 16 {
        0
    } else if i == 17 {
        40
    } else if i == 24 || i == 25 {
        0
    } else if 26 <= i && i < 30 {
        q[i + 4]
    } else if 30 <= i && i < 34 {
        q[i - 4]
    } else if i == 34 || i == 35 {
        q[i + 2]
    } else if i == 36 || i == 37 {
        q[i - 2]
    } else if 38 <= i && i < 42 {
        0
    } else if 42 <= i && i < 46 {
        octet(ack, i - 42)
    } else if i == 46 {
        0x50
    } else if i == 47 {
        0x14
    } else if i >= 48 {
        0
    } else {
        q[i]
    }
}

/// The reset that answers `p`, before checksums.
pub open spec fn rst_base(p: Seq<u8>) -> Seq<u8> {
    Seq::new(54, |i: int| rst_octet(resized(p), i))
}

/// The reset that answers `p`.
pub open spec fn rst_of(p: Seq<u8>) -> Seq<u8> {
    with_checksums(rst_base(p), 20)
}

/// Whether a packet can be answered: the driver resized it and it is TCP.
pub open spec fn answerable(p: Seq<u8>, resize_ok: bool) -> bool {
    resize_ok && resized(p)[23] == 6
}

fn resize(p: &mut Vec<u8>)
    ensures
        final(p)@ == resized(old(p)@),
{
    let ghost before = p@;
    if p.len() > RST_FRAME_LEN {
        p.truncate(RST_FRAME_LEN);
    }
    while p.len() < RST_FRAME_LEN
        invariant
            p@.len() <= 54,
            forall|i: int|
                0 <= i < p@.len() ==> p@[i] == if i < before.len() {
                    before[i]
                } else {
                    0u8
                },
            p@.len() >= before.len() || p@.len() == 54,
        decreases 54 - p@.len(),
    {
        p.push(0);
    }
    assert(p@ =~= resized(before));
}

fn reply_tcp_rst_v4(p: &mut Vec<u8>, stats: &mut GlobalStats, resize_ok: bool) -> (r: u32)
    ensures
        r == (if answerable(old(p)@, resize_ok) {
            XDP_TX
        } else {
            XDP_DROP
        }),
        final(p)@ == (if answerable(old(p)@, resize_ok) {
            rst_of(old(p)@)
        } else if resize_ok {
            resized(old(p)@)
        } else {
            old(p)@
        }),
        *final(stats) == (if answerable(old(p)@, resize_ok) {
            GlobalStats { tcp_rst_sent: old(stats).tcp_rst_sent.wrapping_add(1), ..*old(stats) }
        } else {
            GlobalStats { tcp_rst_fail: old(stats).tcp_rst_fail.wrapping_add(1), ..*old(stats) }
        }),
{
    let ghost before = p@;
    if !resize_ok {
        stats.tcp_rst_fail = stats.tcp_rst_fail.wrapping_add(1);
        return XDP_DROP;
    }
    resize(p);
    if p[23] != 6 {
        stats.tcp_rst_fail = stats.tcp_rst_fail.wrapping_add(1);
        return XDP_DROP;
    }
    let ack: u32 = read_be32(p.as_slice(), 38).wrapping_add(1);
    let mut out: Vec<u8> = Vec::new();
    for i in 0..54usize
        invariant
            p@ == resized(before),
            ack == rst_ack(p@),
            out@.len() == i,
            forall|j: int| 0 <= j < i ==> out@[j] == rst_octet(resized(before), j),
    {
        out.push(rst_octet_at(p, ack, i));
    }
    assert(out@ =~= rst_base(before));
    compute_checksums(&mut out, 20);
    *p = out;
    stats.tcp_rst_sent = stats.tcp_rst_sent.wrapping_add(1);
    XDP_TX
}

/// Whether a dropped packet is answered with a reset: only IPv4 without header options.
pub open spec fn resets(p: Seq<u8>, ip_hdr_len: int, resize_ok: bool) -> bool {
    ip_hdr_len == 20 && answerable(p, resize_ok)
}

/// The packet after an attempt to answer it.
pub open spec fn packet_after_reset(p: Seq<u8>, ip_hdr_len: int, resize_ok: bool) -> Seq<u8> {
    if resets(p, ip_hdr_len, resize_ok) {
        rst_of(p)
    } else if ip_hdr_len == 20 && resize_ok {
        resized(p)
    } else {
        p
    }
}

pub open spec fn stats_after_reset(s: GlobalStats, sent: bool) -> GlobalStats {
    if sent {
        GlobalStats { tcp_rst_sent: s.tcp_rst_sent.wrapping_add(1), ..s }
    } else {
        GlobalStats { tcp_rst_fail: s.tcp_rst_fail.wrapping_add(1), ..s }
    }
}

/// Turns a TCP packet that is to be dropped into a reset and sends it back. `resize_ok`
/// is the driver's answer to the change of length. Where no reset is sent the packet is
/// dropped.
pub fn reply_tcp_rst(
    p: &mut Vec<u8>,
    ip_hdr_len: usize,
    stats: &mut GlobalStats,
    resize_ok: bool,
) -> (r: u32)
    ensures
        r == (if resets(old(p)@, ip_hdr_len as int, resize_ok) {
            XDP_TX
        } else {
            XDP_DROP
        }),
        final(p)@ == packet_after_reset(old(p)@, ip_hdr_len as int, resize_ok),
        *final(stats) == stats_after_reset(
            *old(stats),
            resets(old(p)@, ip_hdr_len as int, resize_ok),
        ),
{
    if ip_hdr_len == 20 {
        reply_tcp_rst_v4(p, stats, resize_ok)
    } else {
        stats.tcp_rst_fail = stats.tcp_rst_fail.wrapping_add(1);
        XDP_DROP
    }
}

/// A reset goes back where the packet came from, acknowledges the sequence number that
/// came in, and carries checksums that a receiver finds right.
pub proof fn law_reset_answers_packet(p: Seq<u8>)
    requires
        p.len() >= 54,
        p[14] > 0,
    ensures
        rst_of(p).len() == 54,
        rst_of(p).subrange(0, 6) == p.subrange(6, 12),
        rst_of(p).subrange(6, 12) == p.subrange(0, 6),
        dword_at(rst_of(p), 26) == dword_at(p, 30),
        dword_at(rst_of(p), 30) == dword_at(p, 26),
        crate::bytes::word_at(rst_of(p), 34) == crate::bytes::word_at(p, 36),
        crate::bytes::word_at(rst_of(p), 36) == crate::bytes::word_at(p, 34),
        dword_at(rst_of(p), 42) == (dword_at(p, 38) + 1) % 0x1_0000_0000,
        ones_fold(crate::dataplane::rewrite::ip_sum(rst_of(p))) == 0xffff,
        ones_fold(crate::dataplane::rewrite::tcp_sum(rst_of(p), 20)) == 0xffff,
{
    let q: Seq<u8> = resized(p);
    let b: Seq<u8> = rst_base(p);
    let r: Seq<u8> = rst_of(p);
    law_rewritten_checksums_verify(b, 20);
    lemma_checksums_touch(b, 20);
    lemma_octets_make_up(rst_ack(q));
    assert(dword_at(q, 38) == dword_at(p, 38));
    assert(r.subrange(0, 6) =~= p.subrange(6, 12));
    assert(r.subrange(6, 12) =~= p.subrange(0, 6));
    assert(r[42] == octet_of(rst_ack(q), 0));
    assert(r[43] == octet_of(rst_ack(q), 1));
    assert(r[44] == octet_of(rst_ack(q), 2));
    assert(r[45] == octet_of(rst_ack(q), 3));
}

} // verus!
