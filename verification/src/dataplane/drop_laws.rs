//! What is told of a packet that does not get through, and what its source is left with.

use crate::common::DropEvent;
use crate::common::RateLimitConfig;
use crate::common::RuntimeConfig;
use crate::dataplane::blacklist::after_blocking;
use crate::dataplane::laws::stopped;
use crate::dataplane::parser::parses_to;
use crate::dataplane::parser::Headers;
use crate::dataplane::pipeline::blacklist_step;
use crate::dataplane::pipeline::geoip_step;
use crate::dataplane::pipeline::icmp_step;
use crate::dataplane::pipeline::l7_step;
use crate::dataplane::pipeline::port_acl_step;
use crate::dataplane::pipeline::port_rate_step;
use crate::dataplane::pipeline::project_step;
use crate::dataplane::pipeline::quiet_drop_step;
use crate::dataplane::pipeline::rate_step;
use crate::dataplane::pipeline::tcp_step;
use crate::dataplane::pipeline::track_step;
use crate::dataplane::pipeline::udp_step;
use crate::dataplane::pipeline::Env;
use crate::dataplane::pipeline::FlowView;
use crate::dataplane::pipeline::Step;
use crate::dataplane::pipeline::Tables;
use crate::dataplane::rate_counter::over_limit;
use crate::dataplane::source::SourceState;
use crate::dataplane::syn_cookie::class_of;
use crate::dataplane::syn_cookie::mss_of_class;
use crate::pure::mss_class;
use vstd::prelude::*;

verus! {

/// The event tells of the packet: its source, its protocol, its port and the rule.
pub open spec fn is_told(e: DropEvent, h: Headers, rule_id: int, time_ns: u64) -> bool {
    &&& e.timestamp_ns == time_ns
    &&& e.src_ip == h.src.addr
    &&& e.family == h.src.family
    &&& e.protocol == h.protocol
    &&& e.dst_port == h.dport
    &&& e.rule_id == rule_id
}

/// The step tells of its packet in one more event, where it stops the packet.
pub open spec fn tells(f: FlowView, s: Step, h: Headers, rule_id: int, env: Env) -> bool {
    if stopped(s) {
        &&& s.flow.events.len() == f.events.len() + 1
        &&& s.flow.events.drop_last() == f.events
        &&& is_told(s.flow.events.last(), h, rule_id, env.event_ns)
    } else {
        s.flow.events == f.events
    }
}

/// Each check that stops a packet tells of it under its own rule; a packet of a blocked
/// source is dropped in silence.
pub proof fn law_stopped_packet_is_told(
    f: FlowView,
    h: Headers,
    t: Tables,
    rt: RuntimeConfig,
    env: Env,
)
    ensures
        tells(f, port_acl_step(f, h, t, rt, env), h, 7, env),
        tells(f, project_step(f, h, t, rt, env), h, 12, env),
        tells(f, geoip_step(f, h, t, rt, env), h, 10, env),
        tells(f, track_step(f, h, t, rt, env), h, 15, env),
        tells(f, udp_step(f, h, t, rt, env), h, 8, env),
        tells(f, port_rate_step(f, h, t, rt, env), h, 2, env),
        tells(f, rate_step(f, h, t, rt, env), h, 2, env),
        blacklist_step(f, h, rt, env).flow.events == f.events,
{
    let e: DropEvent = crate::dataplane::pipeline::drop_event(h, 0, env.event_ns);
    assert(f.events.push(e).drop_last() =~= f.events);
    lemma_pushed(f.events);
}

proof fn lemma_pushed(list: Seq<DropEvent>)
    ensures
        forall|e: DropEvent| (#[trigger] list.push(e)).drop_last() == list,
{
    assert forall|e: DropEvent| (#[trigger] list.push(e)).drop_last() == list by {
        assert(list.push(e).drop_last() =~= list);
    }
}

/// A flood of echoes, and one of requests where they are not answered, is told of under its
/// rule.
pub proof fn law_flood_is_told(f: FlowView, h: Headers, t: Tables, rt: RuntimeConfig, env: Env)
    ensures
        tells(f, icmp_step(f, h, t, rt, env), h, 9, env),
        rt.syn_proxy_enabled == 0 || h.src.family != 4 ==> tells(
            f,
            tcp_step(f, h, t, rt, env),
            h,
            3,
            env,
        ),
{
    lemma_pushed(f.events);
}

/// A packet that a pattern hits is told of twice: that it was hit, and that it was dropped.
pub proof fn law_hit_is_told_twice(f: FlowView, h: Headers, t: Tables, rt: RuntimeConfig, env: Env)
    ensures
        ({
            let s: Step = l7_step(f, h, t, rt, env);
            let n: int = f.events.len() as int;
            &&& stopped(s) ==> {
                &&& s.flow.events.len() == n + 2
                &&& s.flow.events.take(n) == f.events
                &&& is_told(s.flow.events[n], h, 4, env.event_ns)
                &&& is_told(s.flow.events[n + 1], h, 4, env.event_ns)
            }
            &&& !stopped(s) ==> s.flow.events == f.events
        }),
{
    let s: Step = l7_step(f, h, t, rt, env);
    let n: int = f.events.len() as int;
    if stopped(s) {
        assert(s.flow.events.take(n) =~= f.events);
    }
}

/// A source that is blocked loses all its trust and its rating, and the block is not hit yet.
pub proof fn law_blocked_source_has_no_trust(
    state: SourceState,
    now_ns: u64,
    seconds: u64,
    reason: u8,
)
    ensures
        ({
            let s: SourceState = after_blocking(state, now_ns, seconds, reason);
            &&& s.block is Some
            &&& s.block->0.block_reason == reason
            &&& s.block->0.hit_count == 0
            &&& s.block->0.first_seen_ns == now_ns
            &&& s.trust is Some
            &&& s.trust->0.trust_score == 0
            &&& s.trust->0.level == 0
            &&& s.trust->0.last_update_ns == now_ns
            &&& s.rate == state.rate
            &&& s.conn == state.conn
        }),
{
}

/// A source that goes over its limit is blocked for the configured time and left without
/// trust.
pub proof fn law_limited_source_loses_its_trust(
    f: FlowView,
    h: Headers,
    t: Tables,
    rt: RuntimeConfig,
    env: Env,
    cfg: RateLimitConfig,
)
    requires
        t.runtime == Some(rt),
        t.rate == Some(cfg),
        rt.rate_limit_enabled != 0,
        over_limit(f.state, t.rate, t.runtime, env.now_ns),
        0 < cfg.block_duration_s,
        env.now_ns + cfg.block_duration_s * 1_000_000_000 <= u64::MAX,
    ensures
        ({
            let s: SourceState = rate_step(f, h, t, rt, env).flow.state;
            &&& s.block is Some
            &&& s.block->0.blocked_until_ns == env.now_ns + cfg.block_duration_s * 1_000_000_000
            &&& s.trust is Some
            &&& s.trust->0.trust_score == 0
        }),
{
}

/// One drop in sixteen of a blocked source is written down for all of them.
pub proof fn law_hits_of_a_block_are_counted(f: FlowView, h: Headers, rt: RuntimeConfig, env: Env)
    requires
        f.state.block is Some,
        f.state.block->0.blocked_until_ns == 0 || f.state.block->0.blocked_until_ns > env.now_ns,
        f.state.block->0.hit_count + 16 <= u32::MAX,
    ensures
        ({
            let s: Step = blacklist_step(f, h, rt, env);
            &&& stopped(s)
            &&& s.flow.rule_id == 1
            &&& s.flow.state.block is Some
            &&& s.flow.state.block->0.blocked_until_ns == f.state.block->0.blocked_until_ns
            &&& s.flow.state.block->0.hit_count == f.state.block->0.hit_count + if env.draw % 16
                == 0 {
                16int
            } else {
                0int
            }
            &&& s.flow.stats.blacklist_blocked == f.stats.blacklist_blocked.wrapping_add(1)
        }),
{
}

/// Each dropped packet counts as one for which a reset was considered; of those that are
/// answered with one it is counted whether it could be sent.
pub proof fn law_resets_are_counted(f: FlowView, h: Headers, reset: u8, env: Env)
    requires
        f.packet.len() >= 34,
        h.protocol == f.packet[23],
    ensures
        ({
            let s: Step = quiet_drop_step(f, h, reset, env);
            let wanted: bool = reset != 0 && h.protocol == 6;
            let sent: bool = wanted && h.ip_hdr_len == 20 && env.resize_ok;
            &&& s.flow.stats.tcp_rst_attempt == f.stats.tcp_rst_attempt.wrapping_add(1)
            &&& s.flow.stats.tcp_rst_sent == if sent {
                f.stats.tcp_rst_sent.wrapping_add(1)
            } else {
                f.stats.tcp_rst_sent
            }
            &&& s.flow.stats.tcp_rst_fail == if wanted && !sent {
                f.stats.tcp_rst_fail.wrapping_add(1)
            } else {
                f.stats.tcp_rst_fail
            }
        }),
{
    assert(crate::dataplane::tcp_reset::resized(f.packet)[23] == f.packet[23]);
}

/// A packet that is cut off inside the header of its transport protocol is not for the
/// checks.
pub proof fn law_cut_packets_are_not_read(p: Seq<u8>, r: Option<Headers>, w: int)
    requires
        parses_to(p, r),
        p.len() >= 14,
    ensures
        p[12] == 0x86 && p[13] == 0xdd && p.len() < 54 ==> r is None,
        p[12] == 0x86 && p[13] == 0xdd && p.len() >= 54 && p[20] == 6 && p.len() < 74 ==> r is None,
        p[12] == 0x86 && p[13] == 0xdd && p.len() >= 54 && p[20] == 17 && p.len() < 62
            ==> r is None,
        p[12] == 8 && p[13] == 0 && p.len() < 34 ==> r is None,
        p[12] == 8 && p[13] == 0 && p.len() >= 34 && 5 <= w <= 15 && p[14] == 64 + w && p[23] == 6
            && p.len() < 14 + 4 * w + 20 ==> r is None,
        p[12] == 8 && p[13] == 0 && p.len() >= 34 && 5 <= w <= 15 && p[14] == 64 + w && p[23] == 17
            && p.len() < 14 + 4 * w + 8 ==> r is None,
        p[12] == 8 && p[13] == 0 && p.len() >= 34 && 0 <= w < 5 && p[14] == 64 + w ==> r is None,
{
    if p.len() >= 34 && 0 <= w <= 15 && p[14] == 64 + w {
        assert(p[14] % 16 == w);
    }
}

/// A request is answered with the largest of the three segment sizes that it allows, and at
/// least with the smallest.
pub proof fn law_answer_keeps_the_segment_size(mss: u16)
    ensures
        mss >= 536 ==> mss_of_class(mss_class(mss)) <= mss,
        mss_of_class(mss_class(mss)) == 536 || mss_of_class(mss_class(mss)) == 1300 || mss_of_class(
            mss_class(mss),
        ) == 1460,
        mss >= 1300 ==> mss_of_class(mss_class(mss)) >= 1300,
        mss >= 1460 ==> mss_of_class(mss_class(mss)) == 1460,
{
}

/// The segment size of a request is read from its only option; without one the smallest
/// counts.
pub proof fn law_segment_size_is_read(p: Seq<u8>, tcp_len: int)
    requires
        p.len() >= 58,
    ensures
        tcp_len == 24 && p[54] == 2 && p[55] == 4 && p[56] * 256 + p[57] >= 1460 ==> class_of(
            p,
            tcp_len,
        ) == 2,
        tcp_len == 24 && p[54] == 2 && p[55] == 4 && 1300 <= p[56] * 256 + p[57] < 1460 ==> class_of(
            p,
            tcp_len,
        ) == 1,
        tcp_len == 24 && p[54] == 2 && p[55] == 4 && p[56] * 256 + p[57] < 1300 ==> class_of(
            p,
            tcp_len,
        ) == 0,
        tcp_len == 20 ==> class_of(p, tcp_len) == 0,
{
}

} // verus!
