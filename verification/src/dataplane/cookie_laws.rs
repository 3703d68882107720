//! What the SYN proxy promises of the packets of a connection, octet by octet.

use crate::bytes::dword_at;
use crate::bytes::swapped32;
use crate::bytes::word_at;
use crate::common::CookieSecret;
use crate::common::RateLimitConfig;
use crate::common::RuntimeConfig;
use crate::dataplane::engine::first_checks;
use crate::dataplane::engine::flood_checks;
use crate::dataplane::engine::gate_checks;
use crate::dataplane::engine::judged;
use crate::dataplane::parser::Headers;
use crate::dataplane::pipeline::tcp_step;
use crate::dataplane::pipeline::Env;
use crate::dataplane::pipeline::FlowView;
use crate::dataplane::pipeline::Step;
use crate::dataplane::pipeline::Tables;
use crate::dataplane::rate_counter::threshold_for;
use crate::dataplane::rate_laws::law_packets_within_a_tick_all_count;
use crate::dataplane::rate_laws::one_more;
use crate::dataplane::rate_laws::within_tick;
use crate::dataplane::source::SourceState;
use crate::dataplane::syn_cookie::answerable;
use crate::dataplane::syn_cookie::class_of;
use crate::dataplane::syn_cookie::cookie_for;
use crate::dataplane::syn_cookie::frees;
use crate::dataplane::syn_cookie::is_ack;
use crate::dataplane::syn_cookie::law_answer_carries_cookie;
use crate::dataplane::syn_cookie::law_cookie_frees_client;
use crate::dataplane::syn_cookie::request_cookie;
use crate::dataplane::syn_cookie::synack_of;
use crate::dataplane::syn_cookie::tcp_len_at;
use crate::dataplane::xdp::NO_ACTION;
use crate::dataplane::xdp::XDP_PASS;
use crate::dataplane::xdp::XDP_TX;
use crate::prefix;
use crate::pure::cookie_value;
use vstd::prelude::*;

verus! {

/// How long a source stays under challenge, in nanoseconds.
pub open spec fn two_minutes() -> int {
    120_000_000_000
}

/// The source was put under challenge less than two minutes ago.
pub open spec fn under_challenge(state: SourceState, now_ns: u64) -> bool {
    state.challenge is Some && now_ns - state.challenge->0 < two_minutes()
}

/// An IPv4 TCP packet without IP options for the SYN proxy.
pub open spec fn for_proxy(p: Seq<u8>, h: Headers, rt: RuntimeConfig) -> bool {
    &&& h.protocol == 6
    &&& h.src.family == 4
    &&& h.ip_hdr_len == 20
    &&& rt.syn_proxy_enabled != 0
    &&& p.len() >= 54
    &&& p[14] > 0
}

/// The packet asks for a connection, with no TCP options or four octets of them.
pub open spec fn asks_plainly(p: Seq<u8>) -> bool {
    &&& p[47] as int % 64 == 2
    &&& p[46] as int / 16 == 5 || (p[46] as int / 16 == 6 && p.len() >= 58)
}

/// `q` answers the connection request `p`: it goes back to where the request came from,
/// accepts it, and acknowledges the octet that follows its number.
pub open spec fn answers(q: Seq<u8>, p: Seq<u8>) -> bool {
    &&& q.len() == p.len()
    &&& forall|i: int| 0 <= i < 4 ==> #[trigger] q[26 + i] == p[30 + i] && q[30 + i] == p[26 + i]
    &&& q[34] == p[36] && q[35] == p[37] && q[36] == p[34] && q[37] == p[35]
    &&& q[47] == 0x12
    &&& dword_at(q, 42) == (dword_at(p, 38) + 1) % 0x1_0000_0000
}

proof fn lemma_answer(p: Seq<u8>, tcp_len: int, idx: u8, cookie: int)
    requires
        tcp_len == 20 || tcp_len == 24,
        34 + tcp_len <= p.len(),
        p[14] > 0,
        0 <= cookie <= u32::MAX,
    ensures
        answers(synack_of(p, tcp_len, idx, cookie), p),
        dword_at(synack_of(p, tcp_len, idx, cookie), 38) == cookie,
{
    law_answer_carries_cookie(p, tcp_len, idx, cookie);
    let q: Seq<u8> = synack_of(p, tcp_len, idx, cookie);
    lemma_same_dword(q, 26, p, 30);
    lemma_same_dword(q, 30, p, 26);
    assert(q[34] * 0x100 + q[35] == p[36] * 0x100 + p[37]);
    assert(q[36] * 0x100 + q[37] == p[34] * 0x100 + p[35]);
    assert(q[47] == 0x12) by {
        crate::dataplane::rewrite::lemma_checksums_touch(
            crate::dataplane::syn_cookie::synack_base(p, tcp_len, idx, cookie),
            tcp_len,
        );
    }
    assert forall|i: int| 0 <= i < 4 implies #[trigger] q[26 + i] == p[30 + i] && q[30 + i] == p[26
        + i] by {
        if i == 0 {
        } else if i == 1 {
        } else if i == 2 {
        } else {
        }
    }
}

/// Two places that hold the same number hold the same octets.
proof fn lemma_same_dword(a: Seq<u8>, i: int, b: Seq<u8>, j: int)
    requires
        dword_at(a, i) == dword_at(b, j),
    ensures
        a[i] == b[j],
        a[i + 1] == b[j + 1],
        a[i + 2] == b[j + 2],
        a[i + 3] == b[j + 3],
{
    crate::bytes::lemma_octets(a[i] as int, a[i + 1] as int, a[i + 2] as int, a[i + 3] as int);
    crate::bytes::lemma_octets(b[j] as int, b[j + 1] as int, b[j + 2] as int, b[j + 3] as int);
}

proof fn lemma_plain_request(p: Seq<u8>)
    requires
        p.len() >= 54,
        asks_plainly(p),
    ensures
        answerable(p, 20),
        crate::dataplane::syn_cookie::flags_at(p, 34) == 2,
        tcp_len_at(p, 34) == 20 || tcp_len_at(p, 34) == 24,
        34 + tcp_len_at(p, 34) <= p.len(),
{
    let w: int = word_at(p, 46);
    assert(w == p[46] * 0x100 + p[47]);
    assert(w % 0x40 == p[47] as int % 64);
    assert(w / 0x1000 == p[46] as int / 16);
}

proof fn lemma_cookie_fits(p: Seq<u8>, secret: CookieSecret, now_ns: u64)
    ensures
        0 <= request_cookie(p, secret, now_ns) <= u32::MAX,
{
    reveal(cookie_for);
}

/// While a source is under challenge every plain connection request of it is answered with
/// a cookie and goes no further, whatever its rate; it stays under challenge.
pub proof fn law_challenged_request_is_answered(
    f: FlowView,
    h: Headers,
    t: Tables,
    rt: RuntimeConfig,
    env: Env,
)
    requires
        for_proxy(f.packet, h, rt),
        asks_plainly(f.packet),
        under_challenge(f.state, env.now_ns),
        t.secret is Some,
    ensures
        tcp_step(f, h, t, rt, env).action == XDP_TX,
        answers(tcp_step(f, h, t, rt, env).flow.packet, f.packet),
        tcp_step(f, h, t, rt, env).flow.state == f.state,
        tcp_step(f, h, t, rt, env).flow.stats.syn_flood_blocked
            == f.stats.syn_flood_blocked.wrapping_add(1),
{
    let p: Seq<u8> = f.packet;
    lemma_plain_request(p);
    lemma_cookie_fits(p, t.secret->0, env.now_ns);
    lemma_answer(
        p,
        tcp_len_at(p, 34),
        class_of(p, tcp_len_at(p, 34)),
        request_cookie(p, t.secret->0, env.now_ns),
    );
}

/// A source that is not under challenge, or no longer, is put under challenge by the
/// request that takes it over its threshold, and the request is answered with a cookie. A
/// request that does not is left alone, and the source with it.
pub proof fn law_threshold_starts_the_challenge(
    f: FlowView,
    h: Headers,
    t: Tables,
    rt: RuntimeConfig,
    env: Env,
    cfg: RateLimitConfig,
    n: int,
)
    requires
        for_proxy(f.packet, h, rt),
        asks_plainly(f.packet),
        !under_challenge(f.state, env.now_ns),
        t.secret is Some,
        t.rate == Some(cfg),
        t.runtime == Some(rt),
        cfg.tick_ms > 0,
        f.state.rate is None && n == 1 || f.state.rate is Some && within_tick(
            f.state.rate->0,
            cfg,
            env.now_ns,
        ) && n == one_more(f.state.rate->0.counter),
    ensures
        ({
            let s: Step = tcp_step(f, h, t, rt, env);
            let limit: u64 = threshold_for(f.state, cfg, rt);
            &&& s.flow.state.rate is Some && s.flow.state.rate->0.counter == n
            &&& n > limit ==> s.action == XDP_TX && answers(s.flow.packet, f.packet)
                && s.flow.state.challenge == Some(env.now_ns)
            &&& n <= limit ==> s.action == NO_ACTION && s.flow.packet == f.packet
                && s.flow.state.challenge is None && s.flow.stats == f.stats
        }),
{
    let p: Seq<u8> = f.packet;
    let state: SourceState = SourceState { challenge: None, ..f.state };
    lemma_plain_request(p);
    lemma_cookie_fits(p, t.secret->0, env.now_ns);
    lemma_answer(
        p,
        tcp_len_at(p, 34),
        class_of(p, tcp_len_at(p, 34)),
        request_cookie(p, t.secret->0, env.now_ns),
    );
    law_packets_within_a_tick_all_count(state, cfg, rt, env.now_ns);
    assert(crate::dataplane::syn_cookie::without_stale(f.state, env.now_ns) == state);
    assert(threshold_for(state, cfg, rt) == threshold_for(f.state, cfg, rt));
    assert(!is_ack(p, 34));
}

/// The minute in which a time lies.
pub open spec fn minute(t_ns: u64) -> int {
    t_ns as int / 60_000_000_000
}

/// The packet `ack` acknowledges the answer `q` on the connection of the request `p`.
pub open spec fn acknowledges(ack: Seq<u8>, q: Seq<u8>, p: Seq<u8>) -> bool {
    &&& forall|i: int| 26 <= i < 38 ==> #[trigger] ack[i] == p[i]
    &&& ack[47] as int / 16 % 2 == 1
    &&& ack[47] as int / 2 % 2 == 0
    &&& dword_at(ack, 42) == (dword_at(q, 38) + 1) % 0x1_0000_0000
}

/// A client that acknowledges the answer to its request is freed and its packet passes: in
/// the minute of the answer or the next, with the secrets of the answer or those after one
/// rotation.
pub proof fn law_acknowledged_answer_frees(
    f: FlowView,
    h: Headers,
    t: Tables,
    rt: RuntimeConfig,
    env: Env,
    g: FlowView,
    u: Tables,
    later: Env,
)
    requires
        for_proxy(f.packet, h, rt),
        asks_plainly(f.packet),
        under_challenge(f.state, env.now_ns),
        t.secret is Some,
        u.secret is Some,
        for_proxy(g.packet, h, rt),
        acknowledges(g.packet, tcp_step(f, h, t, rt, env).flow.packet, f.packet),
        under_challenge(g.state, later.now_ns),
        t.secret->0.bucket_index == minute(env.now_ns),
        minute(later.now_ns) == minute(env.now_ns) || minute(later.now_ns) == minute(env.now_ns)
            + 1,
        u.secret == t.secret || u.secret->0.bucket_index == t.secret->0.bucket_index + 1
            && u.secret->0.previous@ == t.secret->0.current@,
    ensures
        tcp_step(g, h, u, rt, later).action == XDP_PASS,
        tcp_step(g, h, u, rt, later).flow.state.challenge is None,
        tcp_step(g, h, u, rt, later).flow.packet == g.packet,
{
    let p: Seq<u8> = f.packet;
    let made: CookieSecret = t.secret->0;
    let q: Seq<u8> = tcp_step(f, h, t, rt, env).flow.packet;
    lemma_answer_sent(f, h, t, rt, env);
    lemma_ack_of_answer(p, q, g.packet, made, env.now_ns);
    lemma_minute(env.now_ns);
    lemma_minute(later.now_ns);
    lemma_plain_request(p);
    law_cookie_frees_client(
        p,
        g.packet,
        34,
        made,
        u.secret->0,
        env.now_ns,
        later.now_ns,
        g.state,
    );
    lemma_freed(g, h, u, rt, later);
}

proof fn lemma_minute(t_ns: u64)
    ensures
        crate::dataplane::syn_cookie::bucket_of(t_ns) == minute(t_ns),
{
}

/// The answer to a request of a challenged source carries its cookie.
proof fn lemma_answer_sent(f: FlowView, h: Headers, t: Tables, rt: RuntimeConfig, env: Env)
    requires
        for_proxy(f.packet, h, rt),
        asks_plainly(f.packet),
        under_challenge(f.state, env.now_ns),
        t.secret is Some,
    ensures
        dword_at(tcp_step(f, h, t, rt, env).flow.packet, 38) == request_cookie(
            f.packet,
            t.secret->0,
            env.now_ns,
        ),
{
    let p: Seq<u8> = f.packet;
    let c: int = request_cookie(p, t.secret->0, env.now_ns);
    lemma_plain_request(p);
    lemma_cookie_fits(p, t.secret->0, env.now_ns);
    lemma_answer(p, tcp_len_at(p, 34), class_of(p, tcp_len_at(p, 34)), c);
}

proof fn lemma_ack_of_answer(p: Seq<u8>, q: Seq<u8>, a: Seq<u8>, made: CookieSecret, t_ns: u64)
    requires
        acknowledges(a, q, p),
        dword_at(q, 38) == request_cookie(p, made, t_ns),
    ensures
        is_ack(a, 34),
        dword_at(a, 26) == dword_at(p, 26),
        dword_at(a, 30) == dword_at(p, 30),
        word_at(a, 34) == word_at(p, 34),
        word_at(a, 36) == word_at(p, 36),
        dword_at(a, 42) == (request_cookie(p, made, t_ns) + 1) % 0x1_0000_0000,
{
    let w: int = word_at(a, 46);
    assert(w == a[46] * 0x100 + a[47]);
    assert(w % 0x40 == a[47] as int % 64);
    assert(a[47] as int % 64 % 32 / 16 == a[47] as int / 16 % 2);
    assert(a[47] as int % 64 % 4 / 2 == a[47] as int / 2 % 2);
    assert(a[26] == p[26] && a[27] == p[27] && a[28] == p[28] && a[29] == p[29]);
    assert(a[30] == p[30] && a[31] == p[31] && a[32] == p[32] && a[33] == p[33]);
    assert(a[34] == p[34] && a[35] == p[35] && a[36] == p[36] && a[37] == p[37]);
}

proof fn lemma_freed(g: FlowView, h: Headers, u: Tables, rt: RuntimeConfig, env: Env)
    requires
        for_proxy(g.packet, h, rt),
        frees(g.packet, 34, g.state, u.secret, env.now_ns),
    ensures
        tcp_step(g, h, u, rt, env).action == XDP_PASS,
        tcp_step(g, h, u, rt, env).flow.state.challenge is None,
        tcp_step(g, h, u, rt, env).flow.packet == g.packet,
{
}

/// The number before the one that the packet acknowledges is the cookie of its connection,
/// for this minute or the one before, under a secret that is held.
pub open spec fn brings_cookie(p: Seq<u8>, secret: CookieSecret, now_ns: u64) -> bool {
    let n: int = (dword_at(p, 42) - 1) % 0x1_0000_0000;
    exists|bucket: u64, key: Seq<u8>|
        (bucket == minute(now_ns) || bucket + 1 == minute(now_ns) || bucket == 0) && (key
            == secret.current@ || key == secret.previous@) && n == #[trigger] cookie_value(
            swapped32(dword_at(p, 26) as u32) as u32,
            swapped32(dword_at(p, 30) as u32) as u32,
            word_at(p, 34) as u16,
            word_at(p, 36) as u16,
            (bucket % 0x1_0000_0000) as u32,
            (n / 0x100_0000) as u8,
            key,
        )
}

proof fn lemma_bucket_cookie(p: Seq<u8>, secret: CookieSecret, now_ns: u64, bucket: u64)
    requires
        crate::dataplane::syn_cookie::acks_bucket(p, 34, secret, bucket),
        bucket == minute(now_ns) || bucket + 1 == minute(now_ns) || bucket == 0,
    ensures
        brings_cookie(p, secret, now_ns),
{
    reveal(cookie_for);
    let n: int = (dword_at(p, 42) - 1) % 0x1_0000_0000;
    let key: Seq<u8> = crate::dataplane::syn_cookie::checking_secret(secret, bucket)->0;
    assert(n == cookie_value(
        swapped32(dword_at(p, 26) as u32) as u32,
        swapped32(dword_at(p, 30) as u32) as u32,
        word_at(p, 34) as u16,
        word_at(p, 36) as u16,
        (bucket % 0x1_0000_0000) as u32,
        (n / 0x100_0000) as u8,
        key,
    ));
}

proof fn lemma_acks_bring_cookies(p: Seq<u8>, secret: CookieSecret, now_ns: u64)
    requires
        crate::dataplane::syn_cookie::acks_cookie(p, 34, secret, now_ns),
    ensures
        brings_cookie(p, secret, now_ns),
{
    let b: u64 = crate::dataplane::syn_cookie::bucket_of(now_ns);
    lemma_minute(now_ns);
    if crate::dataplane::syn_cookie::acks_bucket(p, 34, secret, b) {
        lemma_bucket_cookie(p, secret, now_ns, b);
    } else {
        lemma_bucket_cookie(
            p,
            secret,
            now_ns,
            crate::dataplane::rate_counter::later_by(b, 1),
        );
    }
}

proof fn lemma_no_request(p: Seq<u8>)
    requires
        p.len() >= 54,
        p[47] as int / 2 % 2 == 0,
    ensures
        crate::dataplane::syn_cookie::flags_at(p, 34) != 2,
        is_ack(p, 34) == (p[47] as int / 16 % 2 == 1),
{
    let w: int = word_at(p, 46);
    assert(w == p[46] * 0x100 + p[47]);
    assert(w % 0x40 == p[47] as int % 64);
    assert(p[47] as int % 64 % 32 / 16 == p[47] as int / 16 % 2);
    assert(p[47] as int % 64 % 4 / 2 == p[47] as int / 2 % 2);
}

/// Nothing but a cookie frees a source: a TCP packet without SYN that the proxy passes on
/// its own comes from a source under challenge and brings a cookie; every other is left
/// alone, and so is the challenge of its source.
pub proof fn law_only_a_cookie_frees(
    f: FlowView,
    h: Headers,
    t: Tables,
    rt: RuntimeConfig,
    env: Env,
)
    requires
        for_proxy(f.packet, h, rt),
        f.packet[47] as int / 2 % 2 == 0,
    ensures
        ({
            let s: Step = tcp_step(f, h, t, rt, env);
            let p: Seq<u8> = f.packet;
            &&& s.action == NO_ACTION || s.action == XDP_PASS
            &&& s.flow.packet == p
            &&& s.flow.state.rate == f.state.rate
            &&& s.action == XDP_PASS ==> p[47] as int / 16 % 2 == 1 && under_challenge(
                f.state,
                env.now_ns,
            ) && t.secret is Some && brings_cookie(p, t.secret->0, env.now_ns)
            &&& s.action == NO_ACTION ==> s.flow.stats == f.stats && (under_challenge(
                f.state,
                env.now_ns,
            ) ==> s.flow.state.challenge == f.state.challenge)
        }),
{
    let p: Seq<u8> = f.packet;
    lemma_no_request(p);
    if frees(p, 34, f.state, t.secret, env.now_ns) {
        lemma_acks_bring_cookies(p, t.secret->0, env.now_ns);
    }
}

/// The flood of a challenged source does not get through the whole of the checks: a packet
/// that reaches the proxy, asks for a connection and comes from a source under challenge is
/// sent back as an answer.
pub proof fn law_challenged_flood_is_kept_out(
    f: FlowView,
    h: Headers,
    t: Tables,
    rt: RuntimeConfig,
    env: Env,
)
    requires
        !prefix::table_holds(t.whitelist@, h.src),
        for_proxy(f.packet, h, rt),
        asks_plainly(f.packet),
        under_challenge(f.state, env.now_ns),
        t.secret is Some,
    ensures
        ({
            let gate: Step = gate_checks(f, h, t, rt, env);
            let first: Step = first_checks(gate.flow, h, t, rt, env);
            gate.action == NO_ACTION && first.action == NO_ACTION ==> judged(
                f,
                h,
                t,
                rt,
                env,
            ).action == XDP_TX && answers(judged(f, h, t, rt, env).flow.packet, f.packet)
        }),
{
    let gate: Step = gate_checks(f, h, t, rt, env);
    let first: Step = first_checks(gate.flow, h, t, rt, env);
    if gate.action == NO_ACTION && first.action == NO_ACTION {
        assert(first.flow.packet == f.packet);
        assert(first.flow.state.challenge == f.state.challenge);
        law_challenged_request_is_answered(first.flow, h, t, rt, env);
        assert(flood_checks(first.flow, h, t, rt, env) == tcp_step(first.flow, h, t, rt, env));
    }
}

/// Without a secret there are no cookies: the request of a challenged source gets through
/// as it is, and the source stays under challenge.
pub proof fn law_without_a_secret_requests_pass(
    f: FlowView,
    h: Headers,
    t: Tables,
    rt: RuntimeConfig,
    env: Env,
)
    requires
        for_proxy(f.packet, h, rt),
        asks_plainly(f.packet),
        under_challenge(f.state, env.now_ns),
        t.secret is None,
    ensures
        tcp_step(f, h, t, rt, env).action == XDP_PASS,
        tcp_step(f, h, t, rt, env).flow.packet == f.packet,
        tcp_step(f, h, t, rt, env).flow.state == f.state,
        tcp_step(f, h, t, rt, env).flow.events == f.events,
{
    lemma_plain_request(f.packet);
}

} // verus!
