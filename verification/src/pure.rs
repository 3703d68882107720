//! Calculations of the packet path that need no state: SYN cookies, Internet
//! checksums, counter decay and port rules.

use crate::bytes::swap32;
use crate::bytes::swapped32;
use vstd::prelude::*;

verus! {

/// One round of the cookie hash.
pub open spec fn mixed(h: u32, v: u32) -> u32 {
    let a: u32 = h.wrapping_add(v);
    let b: u32 = (a << 5u32) | (a >> 27u32);
    b ^ (b >> 16u32)
}

/// Adds `v` to the cookie hash `h`.
pub fn mix(h: &mut u32, v: u32)
    ensures
        *final(h) == mixed(*old(h), v),
{
    let a: u32 = (*h).wrapping_add(v);
    let b: u32 = (a << 5u32) | (a >> 27u32);
    *h = b ^ (b >> 16u32);
}

pub const COOKIE_SECRET_LEN: usize = 16;

/// The hash after mixing in every octet of `secret`, first to last.
pub open spec fn mixed_octets(h: u32, secret: Seq<u8>) -> u32
    decreases secret.len(),
{
    if secret.len() == 0 {
        h
    } else {
        mixed(mixed_octets(h, secret.drop_last()), secret.last() as u32)
    }
}

/// The hash behind a SYN cookie. Addresses are in wire order, ports in host order.
pub open spec fn cookie_hash(
    saddr: u32,
    daddr: u32,
    sport: u16,
    dport: u16,
    bucket: u32,
    mss_idx: u8,
    secret: Seq<u8>,
) -> u32 {
    let h: u32 = mixed(0x9e37_79b9u32, swapped32(saddr) as u32);
    let h: u32 = mixed(h, swapped32(daddr) as u32);
    let h: u32 = mixed(h, (sport * 0x1_0000 + dport) as u32);
    let h: u32 = mixed(h, bucket);
    let h: u32 = mixed(h, mss_idx as u32);
    mixed_octets(h, secret)
}

/// The cookie: the MSS class above the low 24 bits of the hash.
pub open spec fn cookie_value(
    saddr: u32,
    daddr: u32,
    sport: u16,
    dport: u16,
    bucket: u32,
    mss_idx: u8,
    secret: Seq<u8>,
) -> int {
    mss_idx * 0x100_0000 + cookie_hash(saddr, daddr, sport, dport, bucket, mss_idx, secret) as int
        % 0x100_0000
}

/// Builds a SYN cookie. The top eight bits carry the MSS class, so that it can be
/// read back from the acknowledgement.
pub fn build_cookie(
    saddr: u32,
    daddr: u32,
    sport: u16,
    dport: u16,
    bucket: u32,
    mss_idx: u8,
    secret: &[u8; COOKIE_SECRET_LEN],
) -> (r: u32)
    ensures
        r == cookie_value(saddr, daddr, sport, dport, bucket, mss_idx, secret@),
{
    let mut h: u32 = 0x9e37_79b9;
    mix(&mut h, swap32(saddr));
    mix(&mut h, swap32(daddr));
    mix(&mut h, sport as u32 * 0x1_0000 + dport as u32);
    mix(&mut h, bucket);
    mix(&mut h, mss_idx as u32);
    let ghost start = h;
    for i in 0..16usize
        invariant
            secret@.len() == 16,
            h == mixed_octets(start, secret@.take(i as int)),
    {
        assert(secret@.take(i + 1).drop_last() == secret@.take(i as int));
        mix(&mut h, secret[i] as u32);
    }
    assert(secret@.take(16) == secret@);
    mss_idx as u32 * 0x100_0000 + h % 0x100_0000
}

/// The MSS class can be read back from a cookie.
pub proof fn law_cookie_carries_mss_class(
    saddr: u32,
    daddr: u32,
    sport: u16,
    dport: u16,
    bucket: u32,
    mss_idx: u8,
    secret: Seq<u8>,
)
    ensures
        cookie_value(saddr, daddr, sport, dport, bucket, mss_idx, secret) / 0x100_0000 == mss_idx,
        0 <= cookie_value(saddr, daddr, sport, dport, bucket, mss_idx, secret) <= u32::MAX,
{
}

/// The class of a client's maximum segment size.
pub open spec fn mss_class(mss: u16) -> u8 {
    if mss >= 1460 {
        2
    } else if mss >= 1300 {
        1
    } else {
        0
    }
}

pub fn mss_to_idx(mss: u16) -> (r: u8)
    ensures
        r == mss_class(mss),
{
    if mss >= 1460 {
        2
    } else if mss >= 1300 {
        1
    } else {
        0
    }
}

/// Sum of the 16-bit words of `s` in network order; an odd last octet is the high
/// half of a word.
pub open spec fn word_sum(s: Seq<u8>) -> nat
    decreases s.len(),
{
    if s.len() == 0 {
        0
    } else if s.len() == 1 {
        (s[0] * 0x100) as nat
    } else {
        (s[0] * 0x100 + s[1]) as nat + word_sum(s.skip(2))
    }
}

/// A sum reduced to sixteen bits in one's complement arithmetic: zero only for zero,
/// otherwise the representative modulo `0xffff` in `1..=0xffff`.
pub open spec fn ones_fold(n: nat) -> nat {
    if n == 0 {
        0
    } else {
        ((n - 1) % 0xffff + 1) as nat
    }
}

/// The Internet checksum of a word sum.
pub open spec fn ones_checksum(n: nat) -> int {
    0xffff - ones_fold(n)
}

proof fn lemma_fold_step(n: nat)
    requires
        n > 0xffff,
    ensures
        n % 0x1_0000 + n / 0x1_0000 > 0,
        ones_fold((n % 0x1_0000 + n / 0x1_0000) as nat) == ones_fold(n),
{
    let q: int = n as int / 0x1_0000;
    let r: int = n as int % 0x1_0000;
    assert(n - 1 == (q + r - 1) + 0xffff * q);
    vstd::arithmetic::div_mod::lemma_mod_multiples_vanish(q, q + r - 1, 0xffff);
}

/// Carries the upper half of a sum back into the lower until it fits.
pub fn fold_sum(sum: u32) -> (r: u16)
    ensures
        r == ones_fold(sum as nat),
{
    let mut s: u32 = sum;
    while s > 0xffff
        invariant
            ones_fold(s as nat) == ones_fold(sum as nat),
        decreases s,
    {
        proof {
            lemma_fold_step(s as nat);
        }
        s = s % 0x1_0000 + s / 0x1_0000;
    }
    s as u16
}

/// Adds the words of `data` to `start`.
pub fn sum_words(start: u32, data: &[u8]) -> (r: u32)
    requires
        start + word_sum(data@) <= u32::MAX,
    ensures
        r == start + word_sum(data@),
{
    let mut sum: u32 = start;
    let mut i: usize = 0;
    let n: usize = data.len();
    assert(data@.skip(0) == data@);
    while n - i >= 2
        invariant
            n == data@.len(),
            i <= n,
            sum + word_sum(data@.skip(i as int)) == start + word_sum(data@),
            start + word_sum(data@) <= u32::MAX,
        decreases n - i,
    {
        assert(data@.skip(i as int).skip(2) == data@.skip(i + 2));
        sum = sum + (data[i] as u32 * 0x100 + data[i + 1] as u32);
        i = i + 2;
    }
    if i < n {
        sum = sum + data[i] as u32 * 0x100;
    }
    sum
}

/// The Internet checksum of `data` (RFC 1071).
pub fn checksum(data: &[u8]) -> (r: u16)
    requires
        word_sum(data@) <= u32::MAX,
    ensures
        r == ones_checksum(word_sum(data@)),
{
    0xffff - fold_sum(sum_words(0, data))
}

/// The word sum of a TCP or UDP segment of an IPv4 packet with its pseudo header.
pub open spec fn segment_sum(saddr: u32, daddr: u32, proto: u8, segment: Seq<u8>) -> nat {
    (saddr / 0x1_0000 + saddr % 0x1_0000 + daddr / 0x1_0000 + daddr % 0x1_0000 + proto
        + segment.len() + word_sum(segment)) as nat
}

/// The TCP checksum: over the pseudo header, the TCP header and the data. Addresses
/// are in host order.
pub fn tcp_checksum(saddr: u32, daddr: u32, proto: u8, tcp_data: &[u8]) -> (r: u16)
    requires
        segment_sum(saddr, daddr, proto, tcp_data@) <= u32::MAX,
    ensures
        r == ones_checksum(segment_sum(saddr, daddr, proto, tcp_data@)),
{
    let start: u32 = saddr / 0x1_0000 + saddr % 0x1_0000 + daddr / 0x1_0000 + daddr % 0x1_0000
        + proto as u32 + tcp_data.len() as u32;
    0xffff - fold_sum(sum_words(start, tcp_data))
}

/// Every word is at most `0xffff`.
pub proof fn lemma_word_sum_bound(s: Seq<u8>)
    ensures
        word_sum(s) <= 0xffff * ((s.len() + 1) / 2),
    decreases s.len(),
{
    if s.len() >= 2 {
        lemma_word_sum_bound(s.skip(2));
    }
}

/// The word sum of two stretches, the first of even length, is the sum of theirs.
pub proof fn lemma_word_sum_concat(a: Seq<u8>, b: Seq<u8>)
    requires
        a.len() % 2 == 0,
    ensures
        word_sum(a + b) == word_sum(a) + word_sum(b),
    decreases a.len(),
{
    if a.len() == 0 {
        assert(a + b == b);
    } else {
        assert((a + b).skip(2) == a.skip(2) + b);
        lemma_word_sum_concat(a.skip(2), b);
    }
}

/// Replacing the word at an even place changes the sum by the difference.
pub proof fn lemma_word_sum_update(s: Seq<u8>, i: int, v: int)
    requires
        0 <= i,
        i + 2 <= s.len(),
        i % 2 == 0,
        0 <= v <= 0xffff,
    ensures
        word_sum(crate::bytes::with_word(s, i, v)) == word_sum(s) - crate::bytes::word_at(s, i) + v,
{
    let t: Seq<u8> = crate::bytes::with_word(s, i, v);
    let head: Seq<u8> = s.take(i);
    let tail: Seq<u8> = s.skip(i);
    assert(s == head + tail);
    assert(t.take(i) == head);
    assert(t == head + t.skip(i));
    assert(t.skip(i).skip(2) == tail.skip(2));
    lemma_word_sum_concat(head, tail);
    lemma_word_sum_concat(head, t.skip(i));
}

/// A sum completed by its own checksum folds to `0xffff`, which is what a receiver
/// looks for. It does so too when a checksum of zero is sent as `0xffff`.
pub proof fn law_checksum_completes_sum(n: nat)
    ensures
        ones_fold((n + ones_checksum(n)) as nat) == 0xffff,
        ones_checksum((n + ones_checksum(n)) as nat) == 0,
        ones_checksum(n) == 0 ==> ones_fold((n + 0xffff) as nat) == 0xffff,
        0 <= ones_checksum(n) <= 0xffff,
{
    if n > 0 {
        let q: int = (n - 1) / 0xffff;
        assert(n == 0xffff * q + ones_fold(n));
        let t: int = n + ones_checksum(n);
        assert(t - 1 == 0xffff * q + (0xffff - 1));
        vstd::arithmetic::div_mod::lemma_mod_multiples_vanish(q, 0xffff - 1, 0xffff);
        if ones_checksum(n) == 0 {
            assert(n + 0xffff - 1 == 0xffff * (q + 1) + (0xffff - 1));
            vstd::arithmetic::div_mod::lemma_mod_multiples_vanish(q + 1, 0xffff - 1, 0xffff);
        }
    }
}

/// A header of even place `i` whose checksum word was zero verifies once its checksum
/// is written there.
pub proof fn law_written_checksum_verifies(s: Seq<u8>, i: int)
    requires
        0 <= i,
        i + 2 <= s.len(),
        i % 2 == 0,
        crate::bytes::word_at(s, i) == 0,
    ensures
        ones_checksum(
            word_sum(crate::bytes::with_word(s, i, ones_checksum(word_sum(s)))),
        ) == 0,
{
    law_checksum_completes_sum(word_sum(s));
    lemma_word_sum_update(s, i, ones_checksum(word_sum(s)));
}

/// `counter` after `ticks` decay steps. Each multiplies by `num`, keeping 64 bits, and
/// divides by `den`.
pub open spec fn decayed(counter: u64, ticks: nat, num: u64, den: u64) -> u64
    decreases ticks,
{
    if ticks == 0 {
        counter
    } else {
        decayed(counter, (ticks - 1) as nat, num, den).wrapping_mul(num) / den
    }
}

/// Number of decay steps in a time span: at most 64.
pub open spec fn decay_ticks(elapsed_ns: u64, tick_ns: u64) -> nat {
    let t: u64 = elapsed_ns / tick_ns;
    if t < 64 {
        t as nat
    } else {
        64
    }
}

/// The counter after the time span; unchanged where a parameter is zero.
pub open spec fn decayed_over(
    counter: u64,
    elapsed_ns: u64,
    tick_ns: u64,
    num: u64,
    den: u64,
) -> u64 {
    if tick_ns == 0 || den == 0 {
        counter
    } else {
        decayed(counter, decay_ticks(elapsed_ns, tick_ns), num, den)
    }
}

/// Exponential decay of a counter. The caller adds its own event afterwards.
pub fn decay_counter(
    counter: u64,
    elapsed_ns: u64,
    tick_ns: u64,
    decay_num: u64,
    decay_den: u64,
) -> (r: u64)
    ensures
        r == decayed_over(counter, elapsed_ns, tick_ns, decay_num, decay_den),
{
    if tick_ns == 0 || decay_den == 0 {
        return counter;
    }
    let ticks: u64 = elapsed_ns / tick_ns;
    let effective_ticks: u64 = if ticks < 64 {
        ticks
    } else {
        64
    };
    let mut value: u64 = counter;
    for i in 0..effective_ticks
        invariant
            decay_den != 0,
            value == decayed(counter, i as nat, decay_num, decay_den),
    {
        value = value.wrapping_mul(decay_num) / decay_den;
    }
    value
}

/// Where the factor is at most one and the product fits, decay never raises a counter.
pub proof fn law_decay_never_raises(counter: u64, ticks: nat, num: u64, den: u64)
    requires
        0 < den,
        num <= den,
        counter * num <= u64::MAX,
    ensures
        decayed(counter, ticks, num, den) <= counter,
    decreases ticks,
{
    if ticks > 0 {
        law_decay_never_raises(counter, (ticks - 1) as nat, num, den);
        let c: u64 = decayed(counter, (ticks - 1) as nat, num, den);
        assert(0 <= c * num <= counter * num) by (nonlinear_arith)
            requires
                c <= counter,
        ;
        assert((c * num) / (den as int) <= c) by (nonlinear_arith)
            requires
                0 < den,
                num <= den,
                c >= 0,
        ;
    }
}

/// What a matching port rule says.
#[derive(Clone, Copy, Debug, PartialEq, Eq, Structural)]
pub enum AclMatch {
    Allow,
    Drop,
}

/// Whether a rule's protocol and ports cover a packet.
pub open spec fn acl_covers(
    protocol: u8,
    dport: u16,
    entry_protocol: u8,
    dport_low: u16,
    dport_high: u16,
) -> bool {
    &&& entry_protocol == 0 || entry_protocol == protocol
    &&& if dport_low == 0 {
        true
    } else if dport_high == 0 {
        dport == dport_low
    } else {
        dport_low <= dport <= dport_high
    }
}

/// What one rule says of a packet: nothing, unless it covers the packet and its action
/// is 1 (allow) or 2 (drop).
pub open spec fn acl_verdict(
    protocol: u8,
    dport: u16,
    entry_protocol: u8,
    dport_low: u16,
    dport_high: u16,
    action: u8,
) -> Option<AclMatch> {
    if !acl_covers(protocol, dport, entry_protocol, dport_low, dport_high) {
        None
    } else if action == 1 {
        Some(AclMatch::Allow)
    } else if action == 2 {
        Some(AclMatch::Drop)
    } else {
        None
    }
}

/// Matches a packet against one port rule. Protocol 0 is any protocol, a low port of 0
/// any port, a high port of 0 the low port alone.
pub fn match_port_acl_entry(
    protocol: u8,
    dport: u16,
    entry_protocol: u8,
    dport_low: u16,
    dport_high: u16,
    action: u8,
) -> (r: Option<AclMatch>)
    ensures
        r == acl_verdict(protocol, dport, entry_protocol, dport_low, dport_high, action),
{
    if action == 0 {
        return None;
    }
    if entry_protocol != 0 && entry_protocol != protocol {
        return None;
    }
    if dport_low != 0 {
        if dport_high != 0 {
            if dport < dport_low || dport > dport_high {
                return None;
            }
        } else if dport != dport_low {
            return None;
        }
    }
    match action {
        1 => Some(AclMatch::Allow),
        2 => Some(AclMatch::Drop),
        _ => None,
    }
}

} // verus!
