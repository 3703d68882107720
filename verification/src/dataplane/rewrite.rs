//! Checksums of packets that are rewritten in place.

use crate::bytes::dword_at;
use crate::bytes::read_be32;
use crate::bytes::with_word;
use crate::bytes::word_at;
use crate::bytes::write_be16;
use crate::pure::fold_sum;
use crate::pure::law_checksum_completes_sum;
use crate::pure::lemma_word_sum_bound;
use crate::pure::lemma_word_sum_update;
use crate::pure::ones_checksum;
use crate::pure::ones_fold;
use crate::pure::segment_sum;
use crate::pure::sum_words;
use crate::pure::word_sum;
use vstd::prelude::*;
use vstd::slice::slice_subrange;

verus! {

/// Octet `k` of the 32-bit value `v`, the most significant first.
pub open spec fn octet_of(v: int, k: int) -> u8 {
    if k == 0 {
        (v / 0x100_0000) as u8
    } else if k == 1 {
        (v / 0x1_0000 % 0x100) as u8
    } else if k == 2 {
        (v / 0x100 % 0x100) as u8
    } else {
        (v % 0x100) as u8
    }
}

pub fn octet(v: u32, k: usize) -> (r: u8)
    ensures
        r == octet_of(v as int, k as int),
{
    if k == 0 {
        (v / 0x100_0000) as u8
    } else if k == 1 {
        (v / 0x1_0000 % 0x100) as u8
    } else if k == 2 {
        (v / 0x100 % 0x100) as u8
    } else {
        (v % 0x100) as u8
    }
}

/// The checksum that is written for a word sum: zero is written as `0xffff`.
pub open spec fn written_checksum(n: nat) -> int {
    if ones_checksum(n) == 0 {
        0xffff
    } else {
        ones_checksum(n)
    }
}

/// The checksum to write for a sum.
pub fn finalize_csum(sum: u32) -> (r: u16)
    ensures
        r == written_checksum(sum as nat),
{
    let r: u16 = 0xffff - fold_sum(sum);
    if r == 0 {
        0xffff
    } else {
        r
    }
}

/// The word sum of the IPv4 header of a packet with a 20-octet header.
pub open spec fn ip_sum(p: Seq<u8>) -> nat {
    word_sum(p.subrange(14, 34))
}

/// The word sum, with pseudo header, of `tcp_len` octets of TCP after that header.
pub open spec fn tcp_sum(p: Seq<u8>, tcp_len: int) -> nat {
    segment_sum(
        dword_at(p, 26) as u32,
        dword_at(p, 30) as u32,
        6,
        p.subrange(34, 34 + tcp_len),
    )
}

/// The packet with IPv4 and TCP checksums written. The checksum fields of `p` are zero.
#[verifier::opaque]
pub open spec fn with_checksums(p: Seq<u8>, tcp_len: int) -> Seq<u8> {
    with_word(
        with_word(p, 24, written_checksum(ip_sum(p))),
        50,
        written_checksum(tcp_sum(p, tcp_len)),
    )
}

/// Computes and writes the IPv4 and TCP checksums of a packet whose checksum fields are
/// zero.
pub fn compute_checksums(p: &mut Vec<u8>, tcp_hdr_len: usize)
    requires
        20 <= tcp_hdr_len <= 60,
        34 + tcp_hdr_len <= old(p)@.len(),
    ensures
        final(p)@ == with_checksums(old(p)@, tcp_hdr_len as int),
{
    let ghost before = p@;
    let ip_part: &[u8] = slice_subrange(p.as_slice(), 14, 34);
    let tcp_part: &[u8] = slice_subrange(p.as_slice(), 34, 34 + tcp_hdr_len);
    proof {
        lemma_word_sum_bound(ip_part@);
        lemma_word_sum_bound(tcp_part@);
    }
    let ip_check: u16 = finalize_csum(sum_words(0, ip_part));
    let saddr: u32 = read_be32(p.as_slice(), 26);
    let daddr: u32 = read_be32(p.as_slice(), 30);
    let pseudo: u32 = saddr / 0x1_0000 + saddr % 0x1_0000 + daddr / 0x1_0000 + daddr % 0x1_0000 + 6
        + tcp_hdr_len as u32;
    let tcp_check: u16 = finalize_csum(sum_words(pseudo, tcp_part));
    write_be16(p, 24, ip_check);
    write_be16(p, 50, tcp_check);
    proof {
        reveal(with_checksums);
    }
}

/// Writing the checksums touches nothing else.
pub proof fn lemma_checksums_touch(p: Seq<u8>, tcp_len: int)
    requires
        p.len() >= 52,
    ensures
        with_checksums(p, tcp_len).len() == p.len(),
        forall|i: int|
            0 <= i < p.len() && i != 24 && i != 25 && i != 50 && i != 51 ==> #[trigger] with_checksums(
                p,
                tcp_len,
            )[i] == p[i],
{
    reveal(with_checksums);
}

/// The four octets of a value make it up.
pub proof fn lemma_octets_make_up(v: int)
    requires
        0 <= v <= 0xffff_ffff,
    ensures
        crate::common::be_u32(octet_of(v, 0), octet_of(v, 1), octet_of(v, 2), octet_of(v, 3)) == v,
{
    assert(v / 0x1_0000 == (v / 0x100_0000) * 0x100 + v / 0x1_0000 % 0x100);
    assert(v / 0x100 == (v / 0x1_0000) * 0x100 + v / 0x100 % 0x100);
}

/// What was swapped in or out of a stretch that does not hold the word stays out of it.
proof fn lemma_subrange_with_word(s: Seq<u8>, i: int, v: int, a: int, b: int)
    requires
        0 <= a <= b <= s.len(),
        0 <= i,
        i + 2 <= s.len(),
    ensures
        (i + 2 <= a || b <= i) ==> with_word(s, i, v).subrange(a, b) == s.subrange(a, b),
        (a <= i && i + 2 <= b) ==> with_word(s, i, v).subrange(a, b) == with_word(
            s.subrange(a, b),
            i - a,
            v,
        ),
{
    if i + 2 <= a || b <= i {
        assert(with_word(s, i, v).subrange(a, b) =~= s.subrange(a, b));
    }
    if a <= i && i + 2 <= b {
        assert(with_word(s, i, v).subrange(a, b) =~= with_word(s.subrange(a, b), i - a, v));
    }
}

/// A receiver finds both checksums right: header and segment fold to `0xffff`.
pub proof fn law_rewritten_checksums_verify(p: Seq<u8>, tcp_len: int)
    requires
        20 <= tcp_len <= 60,
        34 + tcp_len <= p.len(),
        word_at(p, 24) == 0,
        word_at(p, 50) == 0,
        p[14] > 0,
    ensures
        ones_fold(ip_sum(with_checksums(p, tcp_len))) == 0xffff,
        ones_fold(tcp_sum(with_checksums(p, tcp_len), tcp_len)) == 0xffff,
{
    reveal(with_checksums);
    let c1: int = written_checksum(ip_sum(p));
    let c2: int = written_checksum(tcp_sum(p, tcp_len));
    let q: Seq<u8> = with_word(p, 24, c1);
    let r: Seq<u8> = with_word(q, 50, c2);
    let head: Seq<u8> = p.subrange(14, 34);
    let seg: Seq<u8> = p.subrange(34, 34 + tcp_len);
    law_checksum_completes_sum(ip_sum(p));
    law_checksum_completes_sum(tcp_sum(p, tcp_len));
    lemma_subrange_with_word(p, 24, c1, 14, 34);
    lemma_subrange_with_word(p, 24, c1, 34, 34 + tcp_len);
    lemma_subrange_with_word(q, 50, c2, 14, 34);
    lemma_subrange_with_word(q, 50, c2, 34, 34 + tcp_len);
    assert(head[0] == p[14]);
    assert(word_sum(head) > 0) by {
        assert(word_sum(head) >= head[0] * 0x100 + head[1]);
    }
    assert(word_at(head, 10) == word_at(p, 24));
    assert(word_at(seg, 16) == word_at(p, 50));
    lemma_word_sum_update(head, 10, c1);
    lemma_word_sum_update(seg, 16, c2);
    assert(dword_at(r, 26) == dword_at(p, 26));
    assert(dword_at(r, 30) == dword_at(p, 30));
}

} // verus!
