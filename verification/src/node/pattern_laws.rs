//! Configured patterns and whole packets.

use crate::common::L7Pattern;
use crate::dataplane::l7_scan::le_u64;
use crate::dataplane::l7_scan::pattern_hits;
use crate::dataplane::l7_scan::payload_at;
use crate::dataplane::l7_scan::scan_hits;
use crate::node::config::L7PatternConfig;
use crate::node::records::law_pattern_hits_its_text;
use crate::node::records::padded;
use crate::node::records::pattern_record;
use crate::node::records::pattern_records;
use vstd::prelude::*;
use vstd::utf8::encode_utf8;

verus! {

/// A pattern that the packet path can hold: one to eight octets, and a mask of as many
/// where there is one.
pub open spec fn is_usable(c: L7PatternConfig) -> bool {
    &&& 1 <= encode_utf8(c.pattern@).len() <= 8
    &&& match c.mask {
        None => true,
        Some(m) => encode_utf8(m@).len() == encode_utf8(c.pattern@).len(),
    }
}

/// The payload starts with the pattern; where there is a mask, in the bits of the mask.
pub open spec fn opens_with(payload: Seq<u8>, c: L7PatternConfig) -> bool {
    let o: Seq<u8> = encode_utf8(c.pattern@);
    match c.mask {
        None => forall|j: int| 0 <= j < o.len() ==> #[trigger] payload[j] == o[j],
        Some(m) => forall|j: int|
            0 <= j < o.len() ==> (#[trigger] payload[j] & encode_utf8(m@)[j]) == (o[j]
                & encode_utf8(m@)[j]),
    }
}

/// One of the patterns is what the payload starts with.
pub open spec fn opens_with_one(payload: Seq<u8>, list: Seq<L7PatternConfig>) -> bool {
    exists|i: int| 0 <= i < list.len() && opens_with(payload, #[trigger] list[i])
}

/// The octets that make up a number.
proof fn lemma_octets(p: Seq<u8>)
    requires
        p.len() == 8,
    ensures
        ({
            let x: int = le_u64(p, 0);
            &&& 0 <= x <= u64::MAX
            &&& x % 0x100 == p[0]
            &&& x / 0x100 % 0x100 == p[1]
            &&& x / 0x1_0000 % 0x100 == p[2]
            &&& x / 0x100_0000 % 0x100 == p[3]
            &&& x / 0x1_0000_0000 % 0x100 == p[4]
            &&& x / 0x100_0000_0000 % 0x100 == p[5]
            &&& x / 0x1_0000_0000_0000 % 0x100 == p[6]
            &&& x / 0x100_0000_0000_0000 % 0x100 == p[7]
        }),
{
    let x: int = le_u64(p, 0);
    let x1: int = p[1] + p[2] * 0x100 + p[3] * 0x1_0000 + p[4] * 0x100_0000 + p[5] * 0x1_0000_0000
        + p[6] * 0x100_0000_0000 + p[7] * 0x1_0000_0000_0000;
    let x2: int = p[2] + p[3] * 0x100 + p[4] * 0x1_0000 + p[5] * 0x100_0000 + p[6] * 0x1_0000_0000
        + p[7] * 0x100_0000_0000;
    let x3: int = p[3] + p[4] * 0x100 + p[5] * 0x1_0000 + p[6] * 0x100_0000 + p[7] * 0x1_0000_0000;
    let x4: int = p[4] + p[5] * 0x100 + p[6] * 0x1_0000 + p[7] * 0x100_0000;
    let x5: int = p[5] + p[6] * 0x100 + p[7] * 0x1_0000;
    let x6: int = p[6] + p[7] * 0x100;
    assert(x == p[0] + 0x100 * x1);
    assert(x1 == p[1] + 0x100 * x2);
    assert(x2 == p[2] + 0x100 * x3);
    assert(x3 == p[3] + 0x100 * x4);
    assert(x4 == p[4] + 0x100 * x5);
    assert(x5 == p[5] + 0x100 * x6);
    assert(x / 0x100 == x1);
    assert(x / 0x1_0000 == x2);
    assert(x / 0x100_0000 == x3);
    assert(x / 0x1_0000_0000 == x4);
    assert(x / 0x100_0000_0000 == x5);
    assert(x / 0x1_0000_0000_0000 == x6);
    assert(x / 0x100_0000_0000_0000 == p[7]);
}

/// Two numbers agree under a mask where each octet does.
proof fn lemma_masked(x: u64, y: u64, m: u64)
    ensures
        (x & m) == (y & m) <==> {
            &&& ((x % 0x100) as u8 & (m % 0x100) as u8) == ((y % 0x100) as u8 & (m % 0x100) as u8)
            &&& ((x / 0x100 % 0x100) as u8 & (m / 0x100 % 0x100) as u8) == ((y / 0x100
                % 0x100) as u8 & (m / 0x100 % 0x100) as u8)
            &&& ((x / 0x1_0000 % 0x100) as u8 & (m / 0x1_0000 % 0x100) as u8) == ((y / 0x1_0000
                % 0x100) as u8 & (m / 0x1_0000 % 0x100) as u8)
            &&& ((x / 0x100_0000 % 0x100) as u8 & (m / 0x100_0000 % 0x100) as u8) == ((y
                / 0x100_0000 % 0x100) as u8 & (m / 0x100_0000 % 0x100) as u8)
            &&& ((x / 0x1_0000_0000 % 0x100) as u8 & (m / 0x1_0000_0000 % 0x100) as u8) == ((y
                / 0x1_0000_0000 % 0x100) as u8 & (m / 0x1_0000_0000 % 0x100) as u8)
            &&& ((x / 0x100_0000_0000 % 0x100) as u8 & (m / 0x100_0000_0000 % 0x100) as u8) == ((y
                / 0x100_0000_0000 % 0x100) as u8 & (m / 0x100_0000_0000 % 0x100) as u8)
            &&& ((x / 0x1_0000_0000_0000 % 0x100) as u8 & (m / 0x1_0000_0000_0000 % 0x100) as u8)
                == ((y / 0x1_0000_0000_0000 % 0x100) as u8 & (m / 0x1_0000_0000_0000
                % 0x100) as u8)
            &&& ((x / 0x100_0000_0000_0000 % 0x100) as u8 & (m / 0x100_0000_0000_0000
                % 0x100) as u8) == ((y / 0x100_0000_0000_0000 % 0x100) as u8 & (m
                / 0x100_0000_0000_0000 % 0x100) as u8)
        },
{
    assert((x & m) == (y & m) <==> {
        &&& ((x % 0x100) as u8 & (m % 0x100) as u8) == ((y % 0x100) as u8 & (m % 0x100) as u8)
        &&& ((x / 0x100 % 0x100) as u8 & (m / 0x100 % 0x100) as u8) == ((y / 0x100 % 0x100) as u8 & (
        m / 0x100 % 0x100) as u8)
        &&& ((x / 0x1_0000 % 0x100) as u8 & (m / 0x1_0000 % 0x100) as u8) == ((y / 0x1_0000
            % 0x100) as u8 & (m / 0x1_0000 % 0x100) as u8)
        &&& ((x / 0x100_0000 % 0x100) as u8 & (m / 0x100_0000 % 0x100) as u8) == ((y / 0x100_0000
            % 0x100) as u8 & (m / 0x100_0000 % 0x100) as u8)
        &&& ((x / 0x1_0000_0000 % 0x100) as u8 & (m / 0x1_0000_0000 % 0x100) as u8) == ((y
            / 0x1_0000_0000 % 0x100) as u8 & (m / 0x1_0000_0000 % 0x100) as u8)
        &&& ((x / 0x100_0000_0000 % 0x100) as u8 & (m / 0x100_0000_0000 % 0x100) as u8) == ((y
            / 0x100_0000_0000 % 0x100) as u8 & (m / 0x100_0000_0000 % 0x100) as u8)
        &&& ((x / 0x1_0000_0000_0000 % 0x100) as u8 & (m / 0x1_0000_0000_0000 % 0x100) as u8) == ((y
            / 0x1_0000_0000_0000 % 0x100) as u8 & (m / 0x1_0000_0000_0000 % 0x100) as u8)
        &&& ((x / 0x100_0000_0000_0000 % 0x100) as u8 & (m / 0x100_0000_0000_0000 % 0x100) as u8)
            == ((y / 0x100_0000_0000_0000 % 0x100) as u8 & (m / 0x100_0000_0000_0000
            % 0x100) as u8)
    }) by (bit_vector);
}

/// The first eight octets agree with eight others under a mask where each octet does.
proof fn lemma_masked_octets(a: Seq<u8>, b: Seq<u8>, m: Seq<u8>)
    requires
        a.len() == 8,
        b.len() == 8,
        m.len() == 8,
    ensures
        (le_u64(a, 0) as u64 & le_u64(m, 0) as u64) == (le_u64(b, 0) as u64 & le_u64(m, 0) as u64)
            <==> forall|j: int| 0 <= j < 8 ==> (#[trigger] a[j] & m[j]) == (b[j] & m[j]),
{
    lemma_octets(a);
    lemma_octets(b);
    lemma_octets(m);
    lemma_masked(le_u64(a, 0) as u64, le_u64(b, 0) as u64, le_u64(m, 0) as u64);
    if forall|j: int| 0 <= j < 8 ==> (#[trigger] a[j] & m[j]) == (b[j] & m[j]) {
        assert((a[0] & m[0]) == (b[0] & m[0]));
        assert((a[1] & m[1]) == (b[1] & m[1]));
        assert((a[2] & m[2]) == (b[2] & m[2]));
        assert((a[3] & m[3]) == (b[3] & m[3]));
        assert((a[4] & m[4]) == (b[4] & m[4]));
        assert((a[5] & m[5]) == (b[5] & m[5]));
        assert((a[6] & m[6]) == (b[6] & m[6]));
        assert((a[7] & m[7]) == (b[7] & m[7]));
    }
}

/// The record of a usable pattern hits what starts with the pattern.
proof fn lemma_record(c: L7PatternConfig, i: usize, payload: Seq<u8>)
    requires
        is_usable(c),
        payload.len() >= 8,
    ensures
        pattern_record(c, i) is Ok,
        pattern_hits(pattern_record(c, i)->Ok_0, le_u64(payload.take(8), 0) as u64) <==> opens_with(
            payload,
            c,
        ),
{
    let o: Seq<u8> = encode_utf8(c.pattern@);
    let first: Seq<u8> = payload.take(8);
    match c.mask {
        None => {
            law_pattern_hits_its_text(c, i, first);
            if first.take(o.len() as int) == o {
                assert forall|j: int| 0 <= j < o.len() implies #[trigger] payload[j] == o[j] by {
                    assert(first.take(o.len() as int)[j] == payload[j]);
                }
            }
            if opens_with(payload, c) {
                assert forall|j: int| 0 <= j < o.len() implies first.take(o.len() as int)[j]
                    == o[j] by {
                    assert(payload[j] == o[j]);
                }
                assert(first.take(o.len() as int) =~= o);
            }
        },
        Some(t) => {
            let m: Seq<u8> = encode_utf8(t@);
            lemma_masked_octets(first, padded(o), padded(m));
            assert forall|j: int| o.len() <= j < 8 implies (#[trigger] first[j] & padded(m)[j]) == (
            padded(o)[j] & padded(m)[j]) by {
                let x: u8 = first[j];
                assert((x & 0) == 0u8 && (0u8 & 0u8) == 0u8) by (bit_vector);
            }
            if opens_with(payload, c) {
                assert forall|j: int| 0 <= j < 8 implies (#[trigger] first[j] & padded(m)[j]) == (
                padded(o)[j] & padded(m)[j]) by {
                    if j < o.len() {
                        assert(first[j] == payload[j]);
                    }
                }
            }
            if forall|j: int|
                0 <= j < 8 ==> (#[trigger] first[j] & padded(m)[j]) == (padded(o)[j] & padded(
                    m,
                )[j]) {
                assert forall|j: int| 0 <= j < o.len() implies (#[trigger] payload[j] & m[j]) == (o[j]
                    & m[j]) by {
                    assert((first[j] & padded(m)[j]) == (padded(o)[j] & padded(m)[j]));
                }
            }
        },
    }
}

proof fn lemma_records(list: Seq<L7PatternConfig>, i: int)
    requires
        0 <= i <= list.len() <= 8,
        forall|j: int| 0 <= j < list.len() ==> is_usable(#[trigger] list[j]),
    ensures
        pattern_records(list, i).1 is None,
        pattern_records(list, i).0.len() == list.len() - i,
        forall|j: int|
            i <= j < list.len() ==> pattern_record(#[trigger] list[j], j as usize) == Ok::<
                L7Pattern,
                crate::node::records::RecordError,
            >(pattern_records(list, i).0[j - i]),
    decreases list.len() - i,
{
    if i < list.len() {
        lemma_records(list, i + 1);
        assert(is_usable(list[i]));
        let all: Seq<L7Pattern> = pattern_records(list, i).0;
        let rest: Seq<L7Pattern> = pattern_records(list, i + 1).0;
        assert(pattern_record(list[i], i as usize) is Ok);
        assert forall|j: int| i <= j < list.len() implies pattern_record(
            #[trigger] list[j],
            j as usize,
        ) == Ok::<L7Pattern, crate::node::records::RecordError>(all[j - i]) by {
            if j > i {
                assert(all[j - i] == rest[j - i - 1]);
            }
        }
    }
}

/// A TCP packet of an IPv4 header of `l` octets, a TCP header whose data offset field says
/// its length, and a payload of eight octets or more is hit where one of the configured
/// patterns is what the payload starts with, and only there; whatever options the headers
/// have.
pub proof fn law_packet_is_hit_by_its_payload(
    head: Seq<u8>,
    tcp: Seq<u8>,
    payload: Seq<u8>,
    l: int,
    d: int,
    list: Seq<L7PatternConfig>,
)
    requires
        20 <= l <= 60,
        head.len() == 14 + l,
        5 <= d <= 15,
        tcp.len() == 4 * d,
        tcp[12] as int / 16 == d,
        payload.len() >= 8,
        list.len() <= 8,
        forall|i: int| 0 <= i < list.len() ==> is_usable(#[trigger] list[i]),
    ensures
        pattern_records(list, 0).1 is None,
        scan_hits(head + tcp + payload, l, 6, pattern_records(list, 0).0) <==> opens_with_one(
            payload,
            list,
        ),
{
    let p: Seq<u8> = head + tcp + payload;
    let records: Seq<L7Pattern> = pattern_records(list, 0).0;
    lemma_records(list, 0);
    assert(p[14 + l + 12] == tcp[12]);
    assert(p[14 + l + 13] == tcp[13]);
    assert(payload_at(p, l) == 14 + l + 4 * d);
    let chunk: u64 = le_u64(p, payload_at(p, l)) as u64;
    assert(forall|j: int| 0 <= j < 8 ==> p[14 + l + 4 * d + j] == #[trigger] payload.take(8)[j]);
    assert(le_u64(p, payload_at(p, l)) == le_u64(payload.take(8), 0)) by {
        let at: int = payload_at(p, l);
        assert(p[at] == payload.take(8)[0]);
        assert(p[at + 1] == payload.take(8)[1]);
        assert(p[at + 2] == payload.take(8)[2]);
        assert(p[at + 3] == payload.take(8)[3]);
        assert(p[at + 4] == payload.take(8)[4]);
        assert(p[at + 5] == payload.take(8)[5]);
        assert(p[at + 6] == payload.take(8)[6]);
        assert(p[at + 7] == payload.take(8)[7]);
    }
    assert forall|i: int| 0 <= i < list.len() implies (pattern_hits(#[trigger] records[i], chunk)
        <==> opens_with(payload, list[i])) by {
        lemma_record(list[i], i as usize, payload);
    }
    if opens_with_one(payload, list) {
        let i: int = choose|i: int| 0 <= i < list.len() && opens_with(payload, #[trigger] list[i]);
        assert(pattern_hits(records[i], chunk));
    }
    if scan_hits(p, l, 6, records) {
        let i: int = choose|i: int|
            0 <= i < 16 && i < records.len() && pattern_hits(#[trigger] records[i], chunk);
        assert(opens_with(payload, list[i]));
    }
}

/// A packet of another protocol, or with fewer than eight octets of payload, is hit by no
/// pattern.
pub proof fn law_other_packets_are_not_hit(
    head: Seq<u8>,
    tcp: Seq<u8>,
    payload: Seq<u8>,
    l: int,
    d: int,
    protocol: u8,
    records: Seq<L7Pattern>,
)
    requires
        20 <= l <= 60,
        head.len() == 14 + l,
        5 <= d <= 15,
        tcp.len() == 4 * d,
        tcp[12] as int / 16 == d,
        payload.len() < 8 || protocol != 6,
    ensures
        !scan_hits(head + tcp + payload, l, protocol, records),
{
    let p: Seq<u8> = head + tcp + payload;
    assert(p[14 + l + 12] == tcp[12]);
    assert(p[14 + l + 13] == tcp[13]);
    assert(payload_at(p, l) == 14 + l + 4 * d);
}

} // verus!
