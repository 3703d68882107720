//! What the hash behind a cookie tells apart.

use crate::bytes::swapped32;
use crate::dataplane::syn_cookie::cookie_for;
use crate::pure::cookie_hash;
use crate::pure::cookie_value;
use crate::pure::mixed;
use crate::pure::mixed_octets;
use vstd::prelude::*;

verus! {

proof fn lemma_turned(a: u32, b: u32)
    requires
        ((a << 5u32) | (a >> 27u32)) ^ (((a << 5u32) | (a >> 27u32)) >> 16u32) == ((b << 5u32) | (b
            >> 27u32)) ^ (((b << 5u32) | (b >> 27u32)) >> 16u32),
    ensures
        a == b,
{
    assert(((a << 5u32) | (a >> 27u32)) ^ (((a << 5u32) | (a >> 27u32)) >> 16u32) == ((b << 5u32)
        | (b >> 27u32)) ^ (((b << 5u32) | (b >> 27u32)) >> 16u32) ==> a == b) by (bit_vector);
}

proof fn lemma_mixed(g: u32, h: u32, v: u32, w: u32)
    requires
        mixed(g, v) == mixed(h, w),
    ensures
        g == h ==> v == w,
        v == w ==> g == h,
{
    lemma_turned(g.wrapping_add(v), h.wrapping_add(w));
}

proof fn lemma_octets_keep_apart(g: u32, h: u32, secret: Seq<u8>)
    requires
        mixed_octets(g, secret) == mixed_octets(h, secret),
    ensures
        g == h,
    decreases secret.len(),
{
    if secret.len() > 0 {
        let front: Seq<u8> = secret.drop_last();
        let v: u32 = secret.last() as u32;
        lemma_mixed(mixed_octets(g, front), mixed_octets(h, front), v, v);
        lemma_octets_keep_apart(g, h, front);
    }
}

proof fn lemma_octet_counts(h: u32, secret: Seq<u8>, i: int, x: u8)
    requires
        0 <= i < secret.len(),
        mixed_octets(h, secret) == mixed_octets(h, secret.update(i, x)),
    ensures
        secret[i] == x,
    decreases secret.len(),
{
    let other: Seq<u8> = secret.update(i, x);
    let a: u32 = mixed_octets(h, secret.drop_last());
    let b: u32 = mixed_octets(h, other.drop_last());
    lemma_mixed(a, b, secret.last() as u32, other.last() as u32);
    if i < secret.len() - 1 {
        assert(other.last() == secret.last());
        assert(other.drop_last() =~= secret.drop_last().update(i, x));
        lemma_octet_counts(h, secret.drop_last(), i, x);
    } else {
        assert(other.drop_last() =~= secret.drop_last());
    }
}

/// Two numbers differ in the other byte order too.
proof fn lemma_swap_keeps_apart(a: u32, b: u32)
    requires
        swapped32(a) as u32 == swapped32(b) as u32,
    ensures
        a == b,
{
    crate::bytes::law_swap_is_involution(0, a);
    crate::bytes::law_swap_is_involution(0, b);
}

/// Two requests that differ in one thing only have different hashes: in the source, in the
/// destination, in the ports, in the minute, in the class of the segment size, or in one
/// octet of the secret.
pub proof fn law_hash_tells_requests_apart(
    saddr: u32,
    daddr: u32,
    sport: u16,
    dport: u16,
    bucket: u32,
    class: u8,
    secret: Seq<u8>,
    other: u32,
    sport2: u16,
    dport2: u16,
    class2: u8,
    i: int,
    octet: u8,
)
    ensures
        ({
            let n: u32 = cookie_hash(saddr, daddr, sport, dport, bucket, class, secret);
            &&& other != saddr ==> n != cookie_hash(
                other,
                daddr,
                sport,
                dport,
                bucket,
                class,
                secret,
            )
            &&& other != daddr ==> n != cookie_hash(
                saddr,
                other,
                sport,
                dport,
                bucket,
                class,
                secret,
            )
            &&& sport2 != sport || dport2 != dport ==> n != cookie_hash(
                saddr,
                daddr,
                sport2,
                dport2,
                bucket,
                class,
                secret,
            )
            &&& other != bucket ==> n != cookie_hash(
                saddr,
                daddr,
                sport,
                dport,
                other,
                class,
                secret,
            )
            &&& class2 != class ==> n != cookie_hash(
                saddr,
                daddr,
                sport,
                dport,
                bucket,
                class2,
                secret,
            )
            &&& 0 <= i < secret.len() && octet != secret[i] ==> n != cookie_hash(
                saddr,
                daddr,
                sport,
                dport,
                bucket,
                class,
                secret.update(i, octet),
            )
        }),
{
    lemma_first_apart(saddr, other, daddr, sport, dport, bucket, class, secret);
    lemma_second_apart(saddr, daddr, other, sport, dport, bucket, class, secret);
    lemma_ports_apart(saddr, daddr, sport, dport, sport2, dport2, bucket, class, secret);
    lemma_rest_apart(saddr, daddr, sport, dport, bucket, other, class, class2, secret);
    let a: u32 = mixed(0x9e37_79b9u32, swapped32(saddr) as u32);
    let b: u32 = mixed(a, swapped32(daddr) as u32);
    let c: u32 = mixed(b, (sport * 0x1_0000 + dport) as u32);
    let e: u32 = mixed(mixed(c, bucket), class as u32);
    if 0 <= i < secret.len() && octet != secret[i] && mixed_octets(e, secret) == mixed_octets(
        e,
        secret.update(i, octet),
    ) {
        lemma_octet_counts(e, secret, i, octet);
    }
}

/// What is mixed in after the ports keeps two hashes apart.
proof fn lemma_tail_apart(g: u32, h: u32, bucket: u32, class: u8, secret: Seq<u8>)
    requires
        mixed_octets(mixed(mixed(g, bucket), class as u32), secret) == mixed_octets(
            mixed(mixed(h, bucket), class as u32),
            secret,
        ),
    ensures
        g == h,
{
    let a: u32 = mixed(g, bucket);
    let b: u32 = mixed(h, bucket);
    lemma_octets_keep_apart(mixed(a, class as u32), mixed(b, class as u32), secret);
    lemma_mixed(a, b, class as u32, class as u32);
    lemma_mixed(g, h, bucket, bucket);
}

proof fn lemma_first_apart(
    saddr: u32,
    other: u32,
    daddr: u32,
    sport: u16,
    dport: u16,
    bucket: u32,
    class: u8,
    secret: Seq<u8>,
)
    ensures
        other != saddr ==> cookie_hash(saddr, daddr, sport, dport, bucket, class, secret)
            != cookie_hash(other, daddr, sport, dport, bucket, class, secret),
{
    if cookie_hash(saddr, daddr, sport, dport, bucket, class, secret) == cookie_hash(
        other,
        daddr,
        sport,
        dport,
        bucket,
        class,
        secret,
    ) {
        let k: u32 = 0x9e37_79b9u32;
        let d: u32 = swapped32(daddr) as u32;
        let p: u32 = (sport * 0x1_0000 + dport) as u32;
        let a: u32 = mixed(k, swapped32(saddr) as u32);
        let b: u32 = mixed(k, swapped32(other) as u32);
        lemma_tail_apart(mixed(mixed(a, d), p), mixed(mixed(b, d), p), bucket, class, secret);
        lemma_mixed(mixed(a, d), mixed(b, d), p, p);
        lemma_mixed(a, b, d, d);
        lemma_mixed(k, k, swapped32(saddr) as u32, swapped32(other) as u32);
        lemma_swap_keeps_apart(saddr, other);
    }
}

proof fn lemma_second_apart(
    saddr: u32,
    daddr: u32,
    other: u32,
    sport: u16,
    dport: u16,
    bucket: u32,
    class: u8,
    secret: Seq<u8>,
)
    ensures
        other != daddr ==> cookie_hash(saddr, daddr, sport, dport, bucket, class, secret)
            != cookie_hash(saddr, other, sport, dport, bucket, class, secret),
{
    if cookie_hash(saddr, daddr, sport, dport, bucket, class, secret) == cookie_hash(
        saddr,
        other,
        sport,
        dport,
        bucket,
        class,
        secret,
    ) {
        let p: u32 = (sport * 0x1_0000 + dport) as u32;
        let a: u32 = mixed(0x9e37_79b9u32, swapped32(saddr) as u32);
        let v: u32 = swapped32(daddr) as u32;
        let w: u32 = swapped32(other) as u32;
        lemma_tail_apart(mixed(mixed(a, v), p), mixed(mixed(a, w), p), bucket, class, secret);
        lemma_mixed(mixed(a, v), mixed(a, w), p, p);
        lemma_mixed(a, a, v, w);
        lemma_swap_keeps_apart(daddr, other);
    }
}

proof fn lemma_ports_apart(
    saddr: u32,
    daddr: u32,
    sport: u16,
    dport: u16,
    sport2: u16,
    dport2: u16,
    bucket: u32,
    class: u8,
    secret: Seq<u8>,
)
    ensures
        sport2 != sport || dport2 != dport ==> cookie_hash(
            saddr,
            daddr,
            sport,
            dport,
            bucket,
            class,
            secret,
        ) != cookie_hash(saddr, daddr, sport2, dport2, bucket, class, secret),
{
    if cookie_hash(saddr, daddr, sport, dport, bucket, class, secret) == cookie_hash(
        saddr,
        daddr,
        sport2,
        dport2,
        bucket,
        class,
        secret,
    ) {
        let a: u32 = mixed(0x9e37_79b9u32, swapped32(saddr) as u32);
        let b: u32 = mixed(a, swapped32(daddr) as u32);
        let p: u32 = (sport * 0x1_0000 + dport) as u32;
        let q: u32 = (sport2 * 0x1_0000 + dport2) as u32;
        lemma_tail_apart(mixed(b, p), mixed(b, q), bucket, class, secret);
        lemma_mixed(b, b, p, q);
        assert(sport * 0x1_0000 + dport == sport2 * 0x1_0000 + dport2);
    }
}

proof fn lemma_rest_apart(
    saddr: u32,
    daddr: u32,
    sport: u16,
    dport: u16,
    bucket: u32,
    other: u32,
    class: u8,
    class2: u8,
    secret: Seq<u8>,
)
    ensures
        other != bucket ==> cookie_hash(saddr, daddr, sport, dport, bucket, class, secret)
            != cookie_hash(saddr, daddr, sport, dport, other, class, secret),
        class2 != class ==> cookie_hash(saddr, daddr, sport, dport, bucket, class, secret)
            != cookie_hash(saddr, daddr, sport, dport, bucket, class2, secret),
{
    let a: u32 = mixed(0x9e37_79b9u32, swapped32(saddr) as u32);
    let b: u32 = mixed(a, swapped32(daddr) as u32);
    let c: u32 = mixed(b, (sport * 0x1_0000 + dport) as u32);
    let k: u32 = class as u32;
    let l: u32 = class2 as u32;
    let d: u32 = mixed(c, bucket);
    let e: u32 = mixed(c, other);
    if mixed_octets(mixed(d, k), secret) == mixed_octets(mixed(e, k), secret) {
        lemma_octets_keep_apart(mixed(d, k), mixed(e, k), secret);
        lemma_mixed(d, e, k, k);
        lemma_mixed(c, c, bucket, other);
    }
    if mixed_octets(mixed(d, k), secret) == mixed_octets(mixed(d, l), secret) {
        lemma_octets_keep_apart(mixed(d, k), mixed(d, l), secret);
        lemma_mixed(d, d, k, l);
    }
}

/// A cookie starts with the class of the segment size and ends with the hash.
pub proof fn law_cookie_ends_with_the_hash(
    saddr: u32,
    daddr: u32,
    sport: u16,
    dport: u16,
    bucket: u32,
    class: u8,
    secret: Seq<u8>,
)
    ensures
        cookie_value(saddr, daddr, sport, dport, bucket, class, secret) % 0x100_0000 == cookie_hash(
            saddr,
            daddr,
            sport,
            dport,
            bucket,
            class,
            secret,
        ) as int % 0x100_0000,
        cookie_value(saddr, daddr, sport, dport, bucket, class, secret) / 0x100_0000 == class,
{
}

/// The cookie of a request without IP options is made from its addresses and ports, as they
/// stand in its octets.
pub proof fn law_cookie_is_made_from_the_connection(
    p: Seq<u8>,
    bucket: u64,
    class: u8,
    secret: Seq<u8>,
    from: u32,
    to: u32,
    sport: u16,
    dport: u16,
)
    requires
        p.len() >= 38,
        from == p[26] * 0x100_0000 + p[27] * 0x1_0000 + p[28] * 0x100 + p[29],
        to == p[30] * 0x100_0000 + p[31] * 0x1_0000 + p[32] * 0x100 + p[33],
        sport == p[34] * 256 + p[35],
        dport == p[36] * 256 + p[37],
        bucket <= u32::MAX,
    ensures
        cookie_for(p, 34, bucket, class, secret) == cookie_value(
            swapped32(from) as u32,
            swapped32(to) as u32,
            sport,
            dport,
            bucket as u32,
            class,
            secret,
        ),
{
    reveal(cookie_for);
    assert(crate::bytes::dword_at(p, 26) == from);
    assert(crate::bytes::dword_at(p, 30) == to);
    assert(crate::bytes::word_at(p, 34) == sport);
    assert(crate::bytes::word_at(p, 36) == dport);
    assert(bucket % 0x1_0000_0000 == bucket);
}

} // verus!
