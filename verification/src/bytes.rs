//! Fixed-width integers in wire order.
//!
//! The machines this runs on are little-endian, so a value "in wire order" is the
//! value with its octets reversed.

use crate::common::be_u32;
use vstd::prelude::*;

verus! {

/// The value of two octets in network order.
pub open spec fn be_u16(a: u8, b: u8) -> int {
    a * 0x100 + b
}

/// `v` with its two octets exchanged.
pub open spec fn swapped16(v: u16) -> int {
    (v as int % 0x100) * 0x100 + v as int / 0x100
}

/// `v` with its four octets in reverse order.
pub open spec fn swapped32(v: u32) -> int {
    (v as int % 0x100) * 0x100_0000 + (v as int / 0x100 % 0x100) * 0x1_0000 + (v as int / 0x1_0000
        % 0x100) * 0x100 + v as int / 0x100_0000
}

/// A 16-bit value in the other byte order.
pub fn swap16(v: u16) -> (r: u16)
    ensures
        r == swapped16(v),
        swapped16(r) == v,
{
    (v % 0x100) * 0x100 + v / 0x100
}

/// The octets of a value composed of four octets.
pub proof fn lemma_octets(a: int, b: int, c: int, d: int)
    requires
        0 <= a <= 0xff,
        0 <= b <= 0xff,
        0 <= c <= 0xff,
        0 <= d <= 0xff,
    ensures
        ({
            let v: int = a * 0x100_0000 + b * 0x1_0000 + c * 0x100 + d;
            &&& v / 0x100_0000 == a
            &&& v / 0x1_0000 % 0x100 == b
            &&& v / 0x100 % 0x100 == c
            &&& v % 0x100 == d
            &&& 0 <= v <= 0xffff_ffff
        }),
{
    let v: int = a * 0x100_0000 + b * 0x1_0000 + c * 0x100 + d;
    assert(v / 0x100 == a * 0x1_0000 + b * 0x100 + c);
    assert(v / 0x1_0000 == a * 0x100 + b);
    assert(v / 0x100_0000 == a);
}

proof fn lemma_swapped32_twice(w: u32)
    ensures
        0 <= swapped32(w) <= 0xffff_ffff,
        swapped32(swapped32(w) as u32) == w,
{
    let a: int = w as int / 0x100_0000;
    let b: int = w as int / 0x1_0000 % 0x100;
    let c: int = w as int / 0x100 % 0x100;
    let d: int = w as int % 0x100;
    assert(w as int / 0x1_0000 == a * 0x100 + b);
    assert(w as int / 0x100 == (w as int / 0x1_0000) * 0x100 + c);
    lemma_octets(d, c, b, a);
}

/// A 32-bit value in the other byte order.
pub fn swap32(v: u32) -> (r: u32)
    ensures
        r == swapped32(v),
        swapped32(r) == v,
{
    proof {
        lemma_swapped32_twice(v);
    }
    (v % 0x100) * 0x100_0000 + (v / 0x100 % 0x100) * 0x1_0000 + (v / 0x1_0000 % 0x100) * 0x100 + v
        / 0x100_0000
}

/// Reversing the octets twice gives the value back.
pub proof fn law_swap_is_involution(v: u16, w: u32)
    ensures
        0 <= swapped16(v) <= 0xffff,
        0 <= swapped32(w) <= 0xffff_ffff,
        swapped16(swapped16(v) as u16) == v,
        swapped32(swapped32(w) as u32) == w,
{
    lemma_swapped32_twice(w);
}

/// The 16-bit value at octet `i`.
pub open spec fn word_at(s: Seq<u8>, i: int) -> int {
    be_u16(s[i], s[i + 1])
}

/// The 32-bit value at octet `i`.
pub open spec fn dword_at(s: Seq<u8>, i: int) -> int {
    be_u32(s[i], s[i + 1], s[i + 2], s[i + 3])
}

pub fn read_be16(data: &[u8], i: usize) -> (r: u16)
    requires
        i + 2 <= data@.len(),
    ensures
        r == word_at(data@, i as int),
{
    data[i] as u16 * 0x100 + data[i + 1] as u16
}

pub fn read_be32(data: &[u8], i: usize) -> (r: u32)
    requires
        i + 4 <= data@.len(),
    ensures
        r == dword_at(data@, i as int),
{
    data[i] as u32 * 0x100_0000 + data[i + 1] as u32 * 0x1_0000 + data[i + 2] as u32 * 0x100
        + data[i + 3] as u32
}

/// `s` with the two octets at `i` replaced by those of `v`.
pub open spec fn with_word(s: Seq<u8>, i: int, v: int) -> Seq<u8> {
    s.update(i, (v / 0x100) as u8).update(i + 1, (v % 0x100) as u8)
}

/// `s` with the four octets at `i` replaced by those of `v`.
pub open spec fn with_dword(s: Seq<u8>, i: int, v: int) -> Seq<u8> {
    s.update(i, (v / 0x100_0000) as u8).update(i + 1, (v / 0x1_0000 % 0x100) as u8).update(
        i + 2,
        (v / 0x100 % 0x100) as u8,
    ).update(i + 3, (v % 0x100) as u8)
}

pub fn write_be16(data: &mut Vec<u8>, i: usize, v: u16)
    requires
        i + 2 <= old(data)@.len(),
    ensures
        final(data)@ == with_word(old(data)@, i as int, v as int),
        word_at(final(data)@, i as int) == v,
{
    let _n: usize = data.len();
    data.set(i, (v / 0x100) as u8);
    data.set(i + 1, (v % 0x100) as u8);
}

pub fn write_be32(data: &mut Vec<u8>, i: usize, v: u32)
    requires
        i + 4 <= old(data)@.len(),
    ensures
        final(data)@ == with_dword(old(data)@, i as int, v as int),
        dword_at(final(data)@, i as int) == v,
{
    let _n: usize = data.len();
    proof {
        lemma_octets(
            v as int / 0x100_0000,
            v as int / 0x1_0000 % 0x100,
            v as int / 0x100 % 0x100,
            v as int % 0x100,
        );
        assert(v as int / 0x1_0000 == (v as int / 0x100_0000) * 0x100 + v as int / 0x1_0000 % 0x100);
        assert(v as int / 0x100 == (v as int / 0x1_0000) * 0x100 + v as int / 0x100 % 0x100);
    }
    data.set(i, (v / 0x100_0000) as u8);
    data.set(i + 1, (v / 0x1_0000 % 0x100) as u8);
    data.set(i + 2, (v / 0x100 % 0x100) as u8);
    data.set(i + 3, (v % 0x100) as u8);
}

} // verus!
