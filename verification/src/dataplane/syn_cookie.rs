//! SYN cookies.
//!
//! A source below its rate threshold connects as if nothing were there. Over the
//! threshold its connection requests are answered with a cookie instead, and the source
//! stays under challenge until it sends the cookie back or the challenge times out.

use crate::bytes::dword_at;
use crate::bytes::read_be16;
use crate::bytes::read_be32;
use crate::bytes::swap32;
use crate::bytes::swapped32;
use crate::bytes::word_at;
use crate::common::CookieSecret;
use crate::common::RateLimitConfig;
use crate::common::RuntimeConfig;
use crate::dataplane::rate_counter::after_count;
use crate::dataplane::rate_counter::later_by;
use crate::dataplane::rate_counter::over_limit;
use crate::dataplane::rate_counter::update_rate_counter;
use crate::dataplane::rate_counter::RateUpdate;
use crate::dataplane::rewrite::compute_checksums;
use crate::dataplane::rewrite::law_rewritten_checksums_verify;
use crate::dataplane::rewrite::lemma_checksums_touch;
use crate::dataplane::rewrite::lemma_octets_make_up;
use crate::dataplane::rewrite::octet;
use crate::dataplane::rewrite::octet_of;
use crate::dataplane::rewrite::with_checksums;
use crate::dataplane::source::SourceState;
use crate::dataplane::xdp::NO_ACTION;
use crate::dataplane::xdp::XDP_PASS;
use crate::dataplane::xdp::XDP_TX;
use crate::pure::build_cookie;
use crate::pure::cookie_value;
use crate::pure::mss_class;
use crate::pure::mss_to_idx;
use crate::pure::ones_fold;
use vstd::prelude::*;

verus! {

pub const TCP_FLAG_SYN: u8 = 0x02;
pub const TCP_FLAG_ACK: u8 = 0x10;
pub const TCP_OPT_MSS: u8 = 2;
/// Seconds for which one secret makes cookies.
pub const BUCKET_DURATION_S: u64 = 60;
/// How many buckets back a cookie is still good.
pub const VALID_BUCKETS: u64 = 2;
/// A source is let go after this long without an answer.
pub const CHALLENGE_TIMEOUT_NS: u64 = 120_000_000_000;

/// The bucket that a time falls into.
pub open spec fn bucket_of(now_ns: u64) -> u64 {
    now_ns / 1_000_000_000 / 60
}

/// TCP flags of the header at `off`.
pub open spec fn flags_at(p: Seq<u8>, off: int) -> int {
    word_at(p, off + 12) % 0x40
}

/// Octets of the TCP header at `off`.
pub open spec fn tcp_len_at(p: Seq<u8>, off: int) -> int {
    word_at(p, off + 12) / 0x1000 * 4
}

/// The source is under challenge at `now_ns`.
pub open spec fn challenged(state: SourceState, now_ns: u64) -> bool {
    state.challenge is Some && later_by(now_ns, state.challenge->0) < CHALLENGE_TIMEOUT_NS
}

/// The source without a challenge that has timed out.
pub open spec fn without_stale(state: SourceState, now_ns: u64) -> SourceState {
    if challenged(state, now_ns) {
        state
    } else {
        SourceState { challenge: None, ..state }
    }
}

/// A connection request of the source is to be challenged: it is under challenge, or the
/// request takes it over its threshold.
pub open spec fn to_challenge(
    state: SourceState,
    cfg: Option<RateLimitConfig>,
    runtime: Option<RuntimeConfig>,
    now_ns: u64,
) -> bool {
    challenged(state, now_ns) || over_limit(without_stale(state, now_ns), cfg, runtime, now_ns)
}

/// The source after a connection request.
pub open spec fn after_request(
    state: SourceState,
    cfg: Option<RateLimitConfig>,
    runtime: Option<RuntimeConfig>,
    now_ns: u64,
) -> SourceState {
    if challenged(state, now_ns) {
        state
    } else {
        let s: SourceState = after_count(without_stale(state, now_ns), cfg, now_ns);
        if over_limit(without_stale(state, now_ns), cfg, runtime, now_ns) {
            SourceState { challenge: Some(now_ns), ..s }
        } else {
            s
        }
    }
}

pub fn is_challenged_or_trigger(
    state: &mut SourceState,
    cfg: Option<RateLimitConfig>,
    runtime: Option<RuntimeConfig>,
    now_ns: u64,
) -> (r: bool)
    ensures
        r == to_challenge(*old(state), cfg, runtime, now_ns),
        *final(state) == after_request(*old(state), cfg, runtime, now_ns),
{
    if let Some(ts) = state.challenge {
        if now_ns.saturating_sub(ts) < CHALLENGE_TIMEOUT_NS {
            return true;
        }
        state.challenge = None;
    }
    let mut update: RateUpdate = RateUpdate { counter: 0, threshold: 0, block_duration_s: 0 };
    if update_rate_counter(state, cfg, runtime, now_ns, &mut update) && update.counter
        > update.threshold {
        state.challenge = Some(now_ns);
        return true;
    }
    false
}

/// The MSS option of a request: the only one, in a header of 24 octets.
pub open spec fn mss_option(p: Seq<u8>, tcp_len: int) -> Option<u16> {
    if tcp_len == 24 && p[54] == 2 && p[55] == 4 {
        Some(word_at(p, 56) as u16)
    } else {
        None
    }
}

pub fn parse_mss(p: &[u8], tcp_hdr_len: usize) -> (r: Option<u16>)
    requires
        tcp_hdr_len == 24 ==> p@.len() >= 58,
    ensures
        r == mss_option(p@, tcp_hdr_len as int),
{
    if tcp_hdr_len != 24 {
        return None;
    }
    if p[54] != TCP_OPT_MSS || p[55] != 4 {
        return None;
    }
    Some(read_be16(p, 56))
}

/// The MSS class in which a request is answered.
pub open spec fn class_of(p: Seq<u8>, tcp_len: int) -> u8 {
    match mss_option(p, tcp_len) {
        Some(m) => mss_class(m),
        None => 0,
    }
}

/// The segment size that stands for a class.
pub open spec fn mss_of_class(idx: u8) -> int {
    if idx == 0 {
        536
    } else if idx == 1 {
        1300
    } else {
        1460
    }
}

fn mss_value(idx: u8) -> (r: u16)
    ensures
        r == mss_of_class(idx),
{
    if idx == 0 {
        536
    } else if idx == 1 {
        1300
    } else {
        1460
    }
}

/// The secret that makes the cookies of `bucket`.
pub open spec fn signing_secret(secret: CookieSecret, bucket: u64) -> Seq<u8> {
    if bucket == secret.bucket_index {
        secret.current@
    } else if bucket == later_by(secret.bucket_index, 1) {
        secret.previous@
    } else {
        secret.current@
    }
}

/// The cookie of the connection of an IPv4 packet whose TCP header is at `off`, in a
/// bucket and MSS class.
#[verifier::opaque]
pub open spec fn cookie_for(p: Seq<u8>, off: int, bucket: u64, idx: u8, secret: Seq<u8>) -> int {
    cookie_value(
        swapped32(dword_at(p, 26) as u32) as u32,
        swapped32(dword_at(p, 30) as u32) as u32,
        word_at(p, off) as u16,
        word_at(p, off + 2) as u16,
        (bucket % 0x1_0000_0000) as u32,
        idx,
        secret,
    )
}

fn cookie_of(p: &[u8], off: usize, bucket: u64, idx: u8, secret: &[u8; 16]) -> (r: u32)
    requires
        34 <= off,
        off + 20 <= p@.len(),
    ensures
        r == cookie_for(p@, off as int, bucket, idx, secret@),
{
    let _n: usize = p.len();
    proof {
        reveal(cookie_for);
    }
    let saddr: u32 = swap32(read_be32(p, 26));
    let daddr: u32 = swap32(read_be32(p, 30));
    let sport: u16 = read_be16(p, off);
    let dport: u16 = read_be16(p, off + 2);
    build_cookie(saddr, daddr, sport, dport, (bucket % 0x1_0000_0000) as u32, idx, secret)
}

/// Octet `i` of the answer to request `p`, before checksums.
pub open spec fn synack_octet(p: Seq<u8>, tcp_len: int, idx: u8, cookie: int, i: int) -> u8 {
    if i < 6 {
        p[i + 6]  // destination MAC
    } else if i < 12 {
        p[i - 6]  // source MAC
    } else if i == 22 {
        64  // time to live
    } else if i == 24 || i == 25 {
        0  // header checksum
    } else if 26 <= i < 30 {
        p[i + 4]  // source address
    } else if 30 <= i < 34 {
        p[i - 4]  // destination address
    } else if i == 34 || i == 35 {
        p[i + 2]  // source port
    } else if i == 36 || i == 37 {
        p[i - 2]  // destination port
    } else if 38 <= i < 42 {
        octet_of(cookie, i - 38)
    } else if 42 <= i < 46 {
        octet_of((dword_at(p, 38) + 1) % 0x1_0000_0000, i - 42)
    } else if i == 46 {
        (tcp_len / 4 * 16) as u8  // header length
    } else if i == 47 {
        0x12  // SYN and ACK
    } else if i == 48 || i == 49 {
        0xff  // window
    } else if i == 50 || i == 51 {
        0  // checksum
    } else if tcp_len == 24 && i == 54 {
        2  // MSS option
    } else if tcp_len == 24 && i == 55 {
        4
    } else if tcp_len == 24 && i == 56 {
        (mss_of_class(idx) / 0x100) as u8
    } else if tcp_len == 24 && i == 57 {
        (mss_of_class(idx) % 0x100) as u8
    } else {
        p[i]
    }
}

fn synack_octet_at(p: &Vec<u8>, tcp_len: usize, idx: u8, cookie: u32, ack: u32, i: usize) -> (r: u8)
    requires
        tcp_len == 20 || tcp_len == 24,
        34 + tcp_len <= p@.len(),
        i < p@.len(),
        ack == (dword_at(p@, 38) + 1) % 0x1_0000_0000,
    ensures
        r == synack_octet(p@, tcp_len as int, idx, cookie as int, i as int),
{
    if i < 6 {
        p[i + 6]
    } else if i < 12 {
        p[i - 6]
    } else if i == 22 {
        64
    } else if i == 24 || i == 25 {
        0
    } else if 26 <= i && i < 30 {
        p[i + 4]
    } else if 30 <= i && i < 34 {
        p[i - 4]
    } else if i == 34 || i == 35 {
        p[i + 2]
    } else if i == 36 || i == 37 {
        p[i - 2]
    } else if 38 <= i && i < 42 {
        octet(cookie, i - 38)
    } else if 42 <= i && i < 46 {
        octet(ack, i - 42)
    } else if i == 46 {
        (tcp_len / 4 * 16) as u8
    } else if i == 47 {
        TCP_FLAG_SYN + TCP_FLAG_ACK
    } else if i == 48 || i == 49 {
        0xff
    } else if i == 50 || i == 51 {
        0
    } else if tcp_len == 24 && i == 54 {
        TCP_OPT_MSS
    } else if tcp_len == 24 && i == 55 {
        4
    } else if tcp_len == 24 && i == 56 {
        (mss_value(idx) / 0x100) as u8
    } else if tcp_len == 24 && i == 57 {
        (mss_value(idx) % 0x100) as u8
    } else {
        p[i]
    }
}

pub open spec fn synack_base(p: Seq<u8>, tcp_len: int, idx: u8, cookie: int) -> Seq<u8> {
    Seq::new(p.len(), |i: int| synack_octet(p, tcp_len, idx, cookie, i))
}

/// The answer to request `p` that carries the cookie.
pub open spec fn synack_of(p: Seq<u8>, tcp_len: int, idx: u8, cookie: int) -> Seq<u8> {
    with_checksums(synack_base(p, tcp_len, idx, cookie), tcp_len)
}

/// Rewrites a connection request into the answer that carries the cookie.
pub fn send_synack(p: &mut Vec<u8>, tcp_hdr_len: usize, mss_idx: u8, cookie: u32)
    requires
        tcp_hdr_len == 20 || tcp_hdr_len == 24,
        34 + tcp_hdr_len <= old(p)@.len(),
    ensures
        final(p)@ == synack_of(old(p)@, tcp_hdr_len as int, mss_idx, cookie as int),
{
    let ack: u32 = read_be32(p.as_slice(), 38).wrapping_add(1);
    let mut out: Vec<u8> = Vec::new();
    let n: usize = p.len();
    for i in 0..n
        invariant
            n == p@.len(),
            tcp_hdr_len == 20 || tcp_hdr_len == 24,
            34 + tcp_hdr_len <= p@.len(),
            ack == (dword_at(p@, 38) + 1) % 0x1_0000_0000,
            out@.len() == i,
            forall|j: int|
                0 <= j < i ==> out@[j] == synack_octet(
                    p@,
                    tcp_hdr_len as int,
                    mss_idx,
                    cookie as int,
                    j,
                ),
    {
        out.push(synack_octet_at(p, tcp_hdr_len, mss_idx, cookie, ack, i));
    }
    assert(out@ =~= synack_base(p@, tcp_hdr_len as int, mss_idx, cookie as int));
    compute_checksums(&mut out, tcp_hdr_len);
    *p = out;
}

/// The cookie in which a request at `now_ns` is answered.
pub open spec fn request_cookie(p: Seq<u8>, secret: CookieSecret, now_ns: u64) -> int {
    cookie_for(
        p,
        34,
        bucket_of(now_ns),
        class_of(p, tcp_len_at(p, 34)),
        signing_secret(secret, bucket_of(now_ns)),
    )
}

/// Whether a request can be answered with a cookie: no IPv4 options, and a TCP header
/// that is whole and has no options or one.
pub open spec fn answerable(p: Seq<u8>, ip_hdr_len: int) -> bool {
    let n: int = tcp_len_at(p, 14 + ip_hdr_len);
    ip_hdr_len == 20 && (n == 20 || n == 24) && 34 + n <= p.len()
}

/// What is done about a request of a source that is challenged.
pub open spec fn challenge_action(p: Seq<u8>, ip_hdr_len: int, secret: Option<CookieSecret>) -> u32 {
    if !answerable(p, ip_hdr_len) {
        NO_ACTION
    } else if secret is None {
        XDP_PASS
    } else {
        XDP_TX
    }
}

/// The packet after a challenge.
pub open spec fn challenge_packet(
    p: Seq<u8>,
    ip_hdr_len: int,
    secret: Option<CookieSecret>,
    now_ns: u64,
) -> Seq<u8> {
    if answerable(p, ip_hdr_len) && secret is Some {
        synack_of(
            p,
            tcp_len_at(p, 34),
            class_of(p, tcp_len_at(p, 34)),
            request_cookie(p, secret->0, now_ns),
        )
    } else {
        p
    }
}

fn syn_challenge(
    p: &mut Vec<u8>,
    tcp_hdr_len: usize,
    secret: Option<CookieSecret>,
    now_ns: u64,
) -> (r: u32)
    requires
        old(p)@.len() >= 54,
        tcp_hdr_len == tcp_len_at(old(p)@, 34),
        tcp_hdr_len == 20 || tcp_hdr_len == 24,
    ensures
        r == challenge_action(old(p)@, 20, secret),
        final(p)@ == challenge_packet(old(p)@, 20, secret, now_ns),
{
    if tcp_hdr_len == 24 && p.len() < 58 {
        return NO_ACTION;
    }
    let mss_idx: u8 = match parse_mss(p.as_slice(), tcp_hdr_len) {
        Some(m) => mss_to_idx(m),
        None => 0,
    };
    let secret: CookieSecret = match secret {
        Some(s) => s,
        None => {
            return XDP_PASS;
        },
    };
    let bucket: u64 = now_ns / 1_000_000_000 / BUCKET_DURATION_S;
    let secret_bytes: &[u8; 16] = if bucket == secret.bucket_index {
        &secret.current
    } else if bucket == secret.bucket_index.saturating_sub(1) {
        &secret.previous
    } else {
        &secret.current
    };
    let cookie: u32 = cookie_of(p.as_slice(), 34, bucket, mss_idx, secret_bytes);
    send_synack(p, tcp_hdr_len, mss_idx, cookie);
    XDP_TX
}

/// Handles a TCP packet whose only flag is SYN; others are left alone. Below its
/// threshold a source is not touched; over it the request is answered with a cookie.
pub fn handle_syn(
    p: &mut Vec<u8>,
    ip_hdr_len: usize,
    now_ns: u64,
    state: &mut SourceState,
    cfg: Option<RateLimitConfig>,
    runtime: Option<RuntimeConfig>,
    secret: Option<CookieSecret>,
) -> (r: u32)
    requires
        20 <= ip_hdr_len <= 60,
        14 + ip_hdr_len + 20 <= old(p)@.len(),
    ensures
        ({
            let syn: bool = flags_at(old(p)@, 14 + ip_hdr_len) == TCP_FLAG_SYN;
            let hit: bool = syn && to_challenge(*old(state), cfg, runtime, now_ns);
            &&& *final(state) == if syn {
                after_request(*old(state), cfg, runtime, now_ns)
            } else {
                *old(state)
            }
            &&& r == if hit {
                challenge_action(old(p)@, ip_hdr_len as int, secret)
            } else {
                NO_ACTION
            }
            &&& final(p)@ == if hit {
                challenge_packet(old(p)@, ip_hdr_len as int, secret, now_ns)
            } else {
                old(p)@
            }
        }),
{
    let off: usize = 14 + ip_hdr_len;
    let doff_flags: u16 = read_be16(p.as_slice(), off + 12);
    if doff_flags % 0x40 != 2 {
        return NO_ACTION;
    }
    if !is_challenged_or_trigger(state, cfg, runtime, now_ns) {
        return NO_ACTION;
    }
    if ip_hdr_len != 20 {
        return NO_ACTION;
    }
    let tcp_hdr_len: usize = (doff_flags / 0x1000) as usize * 4;
    if tcp_hdr_len != 20 && tcp_hdr_len != 24 {
        return NO_ACTION;
    }
    syn_challenge(p, tcp_hdr_len, secret, now_ns)
}

/// The secret against which a cookie of `bucket` is checked, if there is one.
pub open spec fn checking_secret(secret: CookieSecret, bucket: u64) -> Option<Seq<u8>> {
    if bucket == secret.bucket_index {
        Some(secret.current@)
    } else if bucket == later_by(secret.bucket_index, 1) {
        Some(secret.previous@)
    } else {
        None
    }
}

/// The packet acknowledges the cookie of `bucket`.
pub open spec fn acks_bucket(p: Seq<u8>, off: int, secret: CookieSecret, bucket: u64) -> bool {
    let expected: int = (dword_at(p, off + 8) - 1) % 0x1_0000_0000;
    match checking_secret(secret, bucket) {
        Some(s) => cookie_for(p, off, bucket, (expected / 0x100_0000) as u8, s) == expected,
        None => false,
    }
}

/// The packet acknowledges a cookie of the bucket of `now_ns` or of the one before.
pub open spec fn acks_cookie(p: Seq<u8>, off: int, secret: CookieSecret, now_ns: u64) -> bool {
    acks_bucket(p, off, secret, bucket_of(now_ns)) || acks_bucket(
        p,
        off,
        secret,
        later_by(bucket_of(now_ns), 1),
    )
}

fn bucket_matches(p: &[u8], off: usize, secret: &CookieSecret, bucket: u64, expected: u32) -> (r: bool)
    requires
        34 <= off,
        off + 20 <= p@.len(),
        expected == (dword_at(p@, off + 8) - 1) % 0x1_0000_0000,
    ensures
        r == acks_bucket(p@, off as int, *secret, bucket),
{
    let idx: u8 = (expected / 0x100_0000) as u8;
    if bucket == secret.bucket_index {
        cookie_of(p, off, bucket, idx, &secret.current) == expected
    } else if bucket == secret.bucket_index.saturating_sub(1) {
        cookie_of(p, off, bucket, idx, &secret.previous) == expected
    } else {
        false
    }
}

/// The packet is an acknowledgement: ACK without SYN.
pub open spec fn is_ack(p: Seq<u8>, off: int) -> bool {
    flags_at(p, off) % 32 / 16 == 1 && flags_at(p, off) % 4 / 2 == 0
}

/// The packet frees its source from challenge.
pub open spec fn frees(
    p: Seq<u8>,
    off: int,
    state: SourceState,
    secret: Option<CookieSecret>,
    now_ns: u64,
) -> bool {
    is_ack(p, off) && challenged(state, now_ns) && secret is Some && acks_cookie(
        p,
        off,
        secret->0,
        now_ns,
    )
}

/// Handles an acknowledgement of a source under challenge: one that carries a good
/// cookie is passed and frees the source; others are left alone.
pub fn handle_ack(
    p: &[u8],
    ip_hdr_len: usize,
    now_ns: u64,
    state: &mut SourceState,
    secret: Option<CookieSecret>,
) -> (r: u32)
    requires
        20 <= ip_hdr_len <= 60,
        14 + ip_hdr_len + 20 <= p@.len(),
    ensures
        ({
            let off: int = 14 + ip_hdr_len;
            &&& r == if frees(p@, off, *old(state), secret, now_ns) {
                XDP_PASS
            } else {
                NO_ACTION
            }
            &&& *final(state) == if frees(p@, off, *old(state), secret, now_ns) {
                SourceState { challenge: None, ..*old(state) }
            } else if is_ack(p@, off) {
                without_stale(*old(state), now_ns)
            } else {
                *old(state)
            }
        }),
{
    let off: usize = 14 + ip_hdr_len;
    let flags: u16 = read_be16(p, off + 12) % 0x40;
    if flags % 32 / 16 == 0 || flags % 4 / 2 == 1 {
        return NO_ACTION;
    }
    match state.challenge {
        Some(ts) => {
            if now_ns.saturating_sub(ts) >= CHALLENGE_TIMEOUT_NS {
                state.challenge = None;
                return NO_ACTION;
            }
        },
        None => {
            return NO_ACTION;
        },
    }
    let expected: u32 = read_be32(p, off + 8).wrapping_sub(1);
    let held: CookieSecret = match secret {
        Some(s) => s,
        None => {
            return NO_ACTION;
        },
    };
    let current_bucket: u64 = now_ns / 1_000_000_000 / BUCKET_DURATION_S;
    let mut i: u64 = 0;
    while i < VALID_BUCKETS
        invariant
            34 <= off,
            off + 20 <= p@.len(),
            off == 14 + ip_hdr_len,
            expected == (dword_at(p@, off + 8) - 1) % 0x1_0000_0000,
            current_bucket == bucket_of(now_ns),
            secret == Some(held),
            is_ack(p@, off as int),
            challenged(*old(state), now_ns),
            *state == *old(state),
            i <= 2,
            i >= 1 ==> !acks_bucket(p@, off as int, held, current_bucket),
            i == 2 ==> !acks_bucket(p@, off as int, held, later_by(current_bucket, 1)),
        decreases 2 - i,
    {
        let bucket: u64 = current_bucket.saturating_sub(i);
        if bucket_matches(p, off, &held, bucket, expected) {
            state.challenge = None;
            return XDP_PASS;
        }
        i = i + 1;
    }
    NO_ACTION
}

/// The answer to a request goes back where the request came from, carries the cookie as
/// its sequence number, acknowledges the request, and has checksums that a receiver
/// finds right.
pub proof fn law_answer_carries_cookie(p: Seq<u8>, tcp_len: int, idx: u8, cookie: int)
    requires
        tcp_len == 20 || tcp_len == 24,
        34 + tcp_len <= p.len(),
        p[14] > 0,
        0 <= cookie <= u32::MAX,
    ensures
        ({
            let r: Seq<u8> = synack_of(p, tcp_len, idx, cookie);
            &&& r.len() == p.len()
            &&& dword_at(r, 26) == dword_at(p, 30)
            &&& dword_at(r, 30) == dword_at(p, 26)
            &&& word_at(r, 34) == word_at(p, 36)
            &&& word_at(r, 36) == word_at(p, 34)
            &&& dword_at(r, 38) == cookie
            &&& dword_at(r, 42) == (dword_at(p, 38) + 1) % 0x1_0000_0000
            &&& flags_at(r, 34) == 0x12
            &&& tcp_len_at(r, 34) == tcp_len
            &&& ones_fold(crate::dataplane::rewrite::ip_sum(r)) == 0xffff
            &&& ones_fold(crate::dataplane::rewrite::tcp_sum(r, tcp_len)) == 0xffff
        }),
{
    let b: Seq<u8> = synack_base(p, tcp_len, idx, cookie);
    let r: Seq<u8> = synack_of(p, tcp_len, idx, cookie);
    let v: int = (dword_at(p, 38) + 1) % 0x1_0000_0000;
    law_rewritten_checksums_verify(b, tcp_len);
    lemma_checksums_touch(b, tcp_len);
    lemma_octets_make_up(v);
    lemma_octets_make_up(cookie);
    assert(r[38] == octet_of(cookie, 0));
    assert(r[39] == octet_of(cookie, 1));
    assert(r[40] == octet_of(cookie, 2));
    assert(r[41] == octet_of(cookie, 3));
    assert(r[42] == octet_of(v, 0));
    assert(r[43] == octet_of(v, 1));
    assert(r[44] == octet_of(v, 2));
    assert(r[45] == octet_of(v, 3));
    assert(r[46] == (tcp_len / 4 * 16) as u8);
    assert(r[47] == 0x12);
}

proof fn lemma_cookie_range(p: Seq<u8>, off: int, bucket: u64, idx: u8, secret: Seq<u8>)
    ensures
        0 <= cookie_for(p, off, bucket, idx, secret) <= u32::MAX,
        cookie_for(p, off, bucket, idx, secret) / 0x100_0000 == idx,
{
    reveal(cookie_for);
}

/// The secrets are those of `bucket`: made for it, or rotated once since.
pub open spec fn secrets_cover(made: CookieSecret, held: CookieSecret, bucket: u64) -> bool {
    ||| made.bucket_index == bucket && held == made
    ||| made.bucket_index == bucket && held.bucket_index == bucket + 1 && held.previous@
        == made.current@
}

/// A client that sends the cookie back is freed: where a request of a challenged source
/// was answered in some bucket, the acknowledgement of that answer, in the same bucket or
/// the next, on the same connection, ends the challenge.
pub proof fn law_cookie_frees_client(
    request: Seq<u8>,
    ack: Seq<u8>,
    off: int,
    made: CookieSecret,
    held: CookieSecret,
    t0: u64,
    t1: u64,
    state: SourceState,
)
    requires
        answerable(request, 20),
        34 <= off,
        off + 20 <= ack.len(),
        dword_at(ack, 26) == dword_at(request, 26),
        dword_at(ack, 30) == dword_at(request, 30),
        word_at(ack, off) == word_at(request, 34),
        word_at(ack, off + 2) == word_at(request, 36),
        dword_at(ack, off + 8) == (request_cookie(request, made, t0) + 1) % 0x1_0000_0000,
        is_ack(ack, off),
        challenged(state, t1),
        bucket_of(t1) == bucket_of(t0) || bucket_of(t1) == bucket_of(t0) + 1,
        secrets_cover(made, held, bucket_of(t0)),
    ensures
        frees(ack, off, state, Some(held), t1),
{
    let c: int = request_cookie(request, made, t0);
    let idx: u8 = class_of(request, tcp_len_at(request, 34));
    let b0: u64 = bucket_of(t0);
    let s: Seq<u8> = made.current@;
    lemma_cookie_range(request, 34, b0, idx, s);
    assert(((c + 1) % 0x1_0000_0000 - 1) % 0x1_0000_0000 == c);
    assert(cookie_for(ack, off, b0, idx, s) == c) by {
        reveal(cookie_for);
    }
    assert(checking_secret(held, b0) == Some(s));
    assert(acks_bucket(ack, off, held, b0));
    assert(bucket_of(t1) == b0 || later_by(bucket_of(t1), 1) == b0);
}

} // verus!
