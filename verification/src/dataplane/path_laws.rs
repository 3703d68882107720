//! A packet's whole way: what gets through, what does not, and what it leaves behind.

use crate::common::RuntimeConfig;
use crate::common::TrustEntry;
use crate::dataplane::blacklist::blocked;
use crate::dataplane::conn_track;
use crate::dataplane::engine::flood_checks;
use crate::dataplane::engine::judged;
use crate::dataplane::engine::logged;
use crate::dataplane::engine::sample_len;
use crate::dataplane::engine::sampled;
use crate::dataplane::laws::stopped;
use crate::dataplane::parser::parses_to;
use crate::dataplane::parser::Headers;
use crate::dataplane::pipeline::blacklist_step;
use crate::dataplane::pipeline::geoip_step;
use crate::dataplane::pipeline::icmp_step;
use crate::dataplane::pipeline::l7_step;
use crate::dataplane::pipeline::pass_step;
use crate::dataplane::pipeline::port_acl_step;
use crate::dataplane::pipeline::port_rate_step;
use crate::dataplane::pipeline::project_step;
use crate::dataplane::pipeline::quiet_drop_step;
use crate::dataplane::pipeline::rate_step;
use crate::dataplane::pipeline::tcp_step;
use crate::dataplane::pipeline::track_step;
use crate::dataplane::pipeline::udp_step;
use crate::dataplane::pipeline::Env;
use crate::dataplane::pipeline::FlowView;
use crate::dataplane::pipeline::Step;
use crate::dataplane::pipeline::Tables;
use crate::dataplane::port_acl::acl_drops;
use crate::dataplane::port_rate::port_over;
use crate::dataplane::rate_counter::over_limit;
use crate::dataplane::tcp_reset::rst_of;
use crate::dataplane::trust::trust_after_pass;
use crate::dataplane::xdp::NO_ACTION;
use crate::dataplane::xdp::XDP_DROP;
use crate::dataplane::xdp::XDP_PASS;
use crate::dataplane::xdp::XDP_TX;
use crate::prefix::table_holds;
use vstd::prelude::*;

verus! {

/// A port rule in force drops the packet.
pub open spec fn is_ruled_out(h: Headers, t: Tables) -> bool {
    acl_drops(t.acl@, h.protocol, h.dport, t.acl_count as int)
}

/// A pattern hits the packet.
pub open spec fn is_hit(p: Seq<u8>, h: Headers, t: Tables) -> bool {
    crate::dataplane::l7_scan::scan_hits(p, h.ip_hdr_len as int, h.protocol, t.patterns@)
}

/// A packet that passes without a whitelist, a project's policy or the SYN proxy has
/// offended against nothing: no port rule drops it, its source is neither blocked nor from
/// a region that is dropped, no pattern hits it and its port is not over its limit.
pub proof fn law_passed_packet_offends_nothing(
    f: FlowView,
    h: Headers,
    t: Tables,
    rt: RuntimeConfig,
    env: Env,
)
    requires
        !table_holds(t.whitelist@, h.src),
        rt.project_enabled == 0 || h.src.family != 4,
        rt.syn_proxy_enabled == 0 || h.src.family != 4,
        judged(f, h, t, rt, env).action == XDP_PASS,
    ensures
        !is_ruled_out(h, t),
        !blocked(f.state, env.now_ns),
        rt.geoip_enabled != 0 ==> table_holds(t.geoip_allow@, h.src) || (!table_holds(
            t.geoip@,
            h.src,
        ) && !t.geoip_default_drop),
        rt.l7_scan_enabled != 0 ==> !is_hit(f.packet, h, t),
        !port_over(f.port, t.port_rate, env.now_ns),
{
    let s1: Step = port_acl_step(f, h, t, rt, env);
    let s2: Step = blacklist_step(s1.flow, h, rt, env);
    let s3: Step = project_step(s2.flow, h, t, rt, env);
    let s4: Step = geoip_step(s3.flow, h, t, rt, env);
    let s5: Step = track_step(s4.flow, h, t, rt, env);
    let s6: Step = tcp_step(s5.flow, h, t, rt, env);
    let s7: Step = udp_step(s6.flow, h, t, rt, env);
    let s8: Step = icmp_step(s7.flow, h, t, rt, env);
    let s9: Step = port_rate_step(s8.flow, h, t, rt, env);
    let s10: Step = l7_step(s9.flow, h, t, rt, env);
    let s11: Step = rate_step(s10.flow, h, t, rt, env);
    assert(s1.action == NO_ACTION || stopped(s1));
    assert(s2.action == NO_ACTION || stopped(s2));
    assert(s3.action == NO_ACTION);
    assert(s4.action == NO_ACTION || stopped(s4));
    assert(s5.action == NO_ACTION || stopped(s5));
    assert(s6.action == NO_ACTION || stopped(s6));
    assert(s7.action == NO_ACTION || stopped(s7));
    assert(s8.action == NO_ACTION || stopped(s8));
    assert(s9.action == NO_ACTION || stopped(s9));
    assert(s10.action == NO_ACTION || stopped(s10));
    assert(s11.action == NO_ACTION || stopped(s11));
    assert(s9.flow.packet == f.packet || stopped(s9));
    assert(s8.flow.port == f.port);
}

/// A source whose packet takes it over its threshold gets it through by no way but those
/// of the whitelist, a project's policy and the SYN proxy, where the rate of sources is
/// limited.
pub proof fn law_passed_packet_keeps_the_rate(
    f: FlowView,
    h: Headers,
    t: Tables,
    rt: RuntimeConfig,
    env: Env,
)
    requires
        !table_holds(t.whitelist@, h.src),
        rt.project_enabled == 0 || h.src.family != 4,
        t.runtime == Some(rt),
        rt.rate_limit_enabled != 0,
        f.state.block is None,
        h.protocol != 6 && h.protocol != 17 && h.protocol != 1 && h.protocol != 58,
        judged(f, h, t, rt, env).action == XDP_PASS,
    ensures
        !over_limit(f.state, t.rate, t.runtime, env.now_ns),
{
    let s1: Step = port_acl_step(f, h, t, rt, env);
    let s2: Step = blacklist_step(s1.flow, h, rt, env);
    let s3: Step = project_step(s2.flow, h, t, rt, env);
    let s4: Step = geoip_step(s3.flow, h, t, rt, env);
    let s9: Step = port_rate_step(s4.flow, h, t, rt, env);
    let s10: Step = l7_step(s9.flow, h, t, rt, env);
    let s11: Step = rate_step(s10.flow, h, t, rt, env);
    assert(s11.action == NO_ACTION || stopped(s11));
    assert(s1.action == NO_ACTION ==> s2.flow == f);
}

/// The UDP and ICMP packets of a source over its threshold do not pass where those are
/// limited.
pub proof fn law_passed_datagram_keeps_the_rate(
    f: FlowView,
    h: Headers,
    t: Tables,
    rt: RuntimeConfig,
    env: Env,
)
    requires
        !table_holds(t.whitelist@, h.src),
        rt.project_enabled == 0 || h.src.family != 4,
        t.runtime == Some(rt),
        f.state.block is None,
        (h.protocol == 17 && rt.udp_flood_enabled != 0) || ((h.protocol == 1 || h.protocol == 58)
            && rt.icmp_flood_enabled != 0),
        judged(f, h, t, rt, env).action == XDP_PASS,
    ensures
        !over_limit(f.state, t.rate, t.runtime, env.now_ns),
{
    let s1: Step = port_acl_step(f, h, t, rt, env);
    let s2: Step = blacklist_step(s1.flow, h, rt, env);
    let s3: Step = project_step(s2.flow, h, t, rt, env);
    let s4: Step = geoip_step(s3.flow, h, t, rt, env);
    let s7: Step = udp_step(s4.flow, h, t, rt, env);
    let s8: Step = icmp_step(s7.flow, h, t, rt, env);
    assert(s7.action == NO_ACTION || stopped(s7));
    assert(s8.action == NO_ACTION || stopped(s8));
    assert(s1.action == NO_ACTION ==> s2.flow == f);
}

/// The requests of a source over its threshold do not pass where the SYN proxy is off.
pub proof fn law_passed_request_keeps_the_rate(
    f: FlowView,
    h: Headers,
    t: Tables,
    rt: RuntimeConfig,
    env: Env,
)
    requires
        !table_holds(t.whitelist@, h.src),
        rt.project_enabled == 0 || h.src.family != 4,
        rt.syn_proxy_enabled == 0 || h.src.family != 4,
        t.runtime == Some(rt),
        f.state.block is None,
        h.protocol == 6,
        20 <= h.ip_hdr_len <= 60,
        14 + h.ip_hdr_len + 20 <= f.packet.len(),
        f.packet[14 + h.ip_hdr_len + 13] % 64 == 2,
        judged(f, h, t, rt, env).action == XDP_PASS,
    ensures
        !over_limit(f.state, t.rate, t.runtime, env.now_ns),
        t.conn_track is Some ==> !conn_track::track_step(
            f.state.conn,
            2,
            env.now_ns,
            t.conn_track->0.threshold,
            t.conn_track->0.window_ms,
        ).drop,
{
    let s1: Step = port_acl_step(f, h, t, rt, env);
    let s2: Step = blacklist_step(s1.flow, h, rt, env);
    let s3: Step = project_step(s2.flow, h, t, rt, env);
    let s4: Step = geoip_step(s3.flow, h, t, rt, env);
    let s5: Step = track_step(s4.flow, h, t, rt, env);
    let s6: Step = tcp_step(s5.flow, h, t, rt, env);
    let off: int = 14 + h.ip_hdr_len;
    let a: u8 = f.packet[off + 12];
    let b: u8 = f.packet[off + 13];
    assert((a * 256 + b) % 64 == b as int % 64);
    assert(s5.action == NO_ACTION || stopped(s5));
    assert(s6.action == NO_ACTION || stopped(s6));
    assert(s1.action == NO_ACTION ==> s2.flow == f);
    assert(s5.action == NO_ACTION ==> over_limit(s5.flow.state, t.rate, t.runtime, env.now_ns)
        == over_limit(s4.flow.state, t.rate, t.runtime, env.now_ns));
    assert(s6.action != NO_ACTION ==> flood_checks(s5.flow, h, t, rt, env) == s6);
}

/// With every check off, a packet whose source is not blocked passes as it came, and
/// nothing is reported of it.
pub proof fn law_unchecked_packet_passes(
    f: FlowView,
    h: Headers,
    t: Tables,
    rt: RuntimeConfig,
    env: Env,
)
    requires
        f.state.block is None,
        t.acl_count == 0,
        rt.project_enabled == 0,
        rt.geoip_enabled == 0,
        t.conn_track is None,
        t.rate is None,
        rt.syn_proxy_enabled == 0,
        t.port_rate is None,
        rt.l7_scan_enabled == 0,
    ensures
        judged(f, h, t, rt, env).action == XDP_PASS,
        judged(f, h, t, rt, env).flow.packet == f.packet,
        judged(f, h, t, rt, env).flow.events == f.events,
        judged(f, h, t, rt, env).flow.state.block is None,
        judged(f, h, t, rt, env).flow.stats.total_passed == f.stats.total_passed.wrapping_add(1),
        judged(f, h, t, rt, env).flow.stats.total_dropped == f.stats.total_dropped,
{
    let s1: Step = port_acl_step(f, h, t, rt, env);
    let s2: Step = blacklist_step(s1.flow, h, rt, env);
    let s3: Step = project_step(s2.flow, h, t, rt, env);
    let s4: Step = geoip_step(s3.flow, h, t, rt, env);
    let s5: Step = track_step(s4.flow, h, t, rt, env);
    let s6: Step = tcp_step(s5.flow, h, t, rt, env);
    let s7: Step = udp_step(s6.flow, h, t, rt, env);
    let s8: Step = icmp_step(s7.flow, h, t, rt, env);
    let s9: Step = port_rate_step(s8.flow, h, t, rt, env);
    let s10: Step = l7_step(s9.flow, h, t, rt, env);
    let s11: Step = rate_step(s10.flow, h, t, rt, env);
    assert(s1.action == NO_ACTION && s1.flow == f);
    assert(s2.action == NO_ACTION && s2.flow == f);
    assert(s5.action == NO_ACTION && s5.flow == f);
    assert(s6.action == NO_ACTION && s6.flow == f);
    assert(s7.action == NO_ACTION && s7.flow == f);
    assert(s8.action == NO_ACTION && s8.flow == f);
    assert(s11.action == NO_ACTION && s11.flow == f);
}

/// What a score says of a source: 1 from 700 on, 2 from 300 on, 3 from 100 on, 4 below.
pub open spec fn is_level(level: u8, score: u32) -> bool {
    &&& level == 1 <==> score >= 700
    &&& level == 2 <==> 300 <= score < 700
    &&& level == 3 <==> 100 <= score < 300
    &&& level == 4 <==> score < 100
}

/// One passed packet in sixty-four is written down and stands for all of them: each adds
/// a hundredth of what the score lacks of a thousand.
pub proof fn law_passing_earns_trust(f: FlowView, env: Env)
    requires
        f.state.trust is Some ==> f.state.trust->0.trust_score <= 1000,
    ensures
        ({
            let s: Step = pass_step(f, env);
            let score: int = match f.state.trust {
                Some(e) => e.trust_score as int,
                None => 500,
            };
            let risen: int = score + 64 * ((1000 - score) / 100);
            &&& s.action == XDP_PASS
            &&& s.flow.packet == f.packet
            &&& s.flow.events == f.events
            &&& env.draw % 64 != 0 ==> s.flow.state == f.state
            &&& env.draw % 64 == 0 ==> {
                &&& s.flow.state.trust is Some
                &&& s.flow.state.trust->0.trust_score == if risen > 1000 {
                    1000
                } else {
                    risen
                }
                &&& is_level(s.flow.state.trust->0.level, s.flow.state.trust->0.trust_score)
                &&& s.flow.state.trust->0.last_update_ns == env.now_ns
                &&& s.flow.state.block == f.state.block
                &&& s.flow.state.rate == f.state.rate
            }
        }),
{
}

/// A dropped packet costs its source a third of its score, and counts against it on the
/// list of attackers, where one drop in sixteen is written down for all of them.
pub proof fn law_dropping_costs_trust(f: FlowView, h: Headers, reset: u8, env: Env)
    ensures
        ({
            let s: Step = quiet_drop_step(f, h, reset, env);
            let score: int = match f.state.trust {
                Some(e) => e.trust_score as int,
                None => 500,
            };
            &&& stopped(s)
            &&& s.flow.state.trust is Some
            &&& s.flow.state.trust->0.trust_score == score - score / 3
            &&& score != 0 ==> is_level(
                s.flow.state.trust->0.level,
                s.flow.state.trust->0.trust_score,
            )
            &&& env.draw % 16 != 0 ==> s.flow.state.attacks == f.state.attacks
            &&& env.draw % 16 == 0 ==> s.flow.state.attacks is Some
            &&& env.draw % 16 == 0 && f.state.attacks is None ==> s.flow.state.attacks->0 == 16
            &&& env.draw % 16 == 0 && f.state.attacks is Some && f.state.attacks->0 + 16 <= u64::MAX
                ==> s.flow.state.attacks->0 == f.state.attacks->0 + 16
            &&& s.flow.state.block == f.state.block
            &&& s.flow.state.rate == f.state.rate
            &&& s.flow.state.conn == f.state.conn
        }),
{
}

/// A dropped TCP packet over IPv4 without header options is answered with a reset where
/// that is switched on and the driver can change its length; any other is dropped.
pub proof fn law_reset_goes_to_tcp_only(f: FlowView, h: Headers, reset: u8, env: Env)
    requires
        f.packet.len() >= 34,
        h.protocol == f.packet[23],
    ensures
        ({
            let s: Step = quiet_drop_step(f, h, reset, env);
            let answered: bool = reset != 0 && h.protocol == 6 && h.ip_hdr_len == 20
                && env.resize_ok;
            &&& answered ==> s.action == XDP_TX && s.flow.packet == rst_of(f.packet)
                && s.flow.stats.tcp_rst_sent == f.stats.tcp_rst_sent.wrapping_add(1)
            &&& !answered ==> s.action == XDP_DROP
            &&& reset == 0 || h.protocol != 6 ==> s.flow.packet == f.packet
        }),
{
    assert(crate::dataplane::tcp_reset::resized(f.packet)[23] == f.packet[23]);
}

/// A reset is a TCP header without options or payload, with the flags RST and ACK and no
/// sequence number, and its IPv4 header says so.
pub proof fn law_reset_is_a_bare_header(p: Seq<u8>)
    requires
        p.len() >= 54,
    ensures
        rst_of(p).len() == 54,
        rst_of(p)[12] == p[12] && rst_of(p)[13] == p[13] && rst_of(p)[14] == p[14],
        rst_of(p)[16] == 0 && rst_of(p)[17] == 40,
        rst_of(p)[23] == p[23],
        rst_of(p)[38] == 0 && rst_of(p)[39] == 0 && rst_of(p)[40] == 0 && rst_of(p)[41] == 0,
        rst_of(p)[46] == 80,
        rst_of(p)[47] == 20,
{
    let b: Seq<u8> = crate::dataplane::tcp_reset::rst_base(p);
    crate::dataplane::rewrite::lemma_checksums_touch(b, 20);
}

/// What the headers of an IPv4 packet say, told from its octets: the header is as long as
/// its length field says, and behind it stand the ports of TCP and UDP.
pub proof fn law_ipv4_headers_are_read(p: Seq<u8>, r: Option<Headers>, w: int)
    requires
        parses_to(p, r),
        5 <= w <= 15,
        p.len() >= 14 + 4 * w + 20,
        p[12] == 8 && p[13] == 0,
        p[14] == 64 + w,
    ensures
        r is Some,
        r->0.src.family == 4,
        r->0.src.addr@.subrange(12, 16) == p.subrange(26, 30),
        forall|i: int| 0 <= i < 12 ==> #[trigger] r->0.src.addr@[i] == 0,
        r->0.protocol == p[23],
        r->0.ip_hdr_len == 4 * w,
        p[23] == 6 || p[23] == 17 ==> r->0.sport == p[14 + 4 * w] * 256 + p[14 + 4 * w + 1]
            && r->0.dport == p[14 + 4 * w + 2] * 256 + p[14 + 4 * w + 3],
        p[23] != 6 && p[23] != 17 ==> r->0.sport == 0 && r->0.dport == 0,
{
    let m: Seq<u8> = crate::common::IpKey::mapped(p.subrange(26, 30));
    assert(p[14] % 16 == w);
    assert(crate::dataplane::parser::is_ipv4(p));
    assert(r->0.src.addr@ == m);
    assert(m.subrange(12, 16) =~= p.subrange(26, 30));
}

/// What the headers of an IPv6 packet say, told from its octets.
pub proof fn law_ipv6_headers_are_read(p: Seq<u8>, r: Option<Headers>)
    requires
        parses_to(p, r),
        p.len() >= 74,
        p[12] == 0x86 && p[13] == 0xdd,
    ensures
        r is Some,
        r->0.src.family == 6,
        r->0.src.addr@ == p.subrange(22, 38),
        r->0.protocol == p[20],
        r->0.ip_hdr_len == 40,
        p[20] == 6 || p[20] == 17 ==> r->0.sport == p[54] * 256 + p[55] && r->0.dport == p[56]
            * 256 + p[57],
        p[20] != 6 && p[20] != 17 ==> r->0.sport == 0 && r->0.dport == 0,
{
    assert(crate::dataplane::parser::is_ipv6(p));
}

/// A packet of another Ethernet type is not for the checks.
pub proof fn law_other_types_are_not_read(p: Seq<u8>, r: Option<Headers>)
    requires
        parses_to(p, r),
        p.len() < 14 || !((p[12] == 8 && p[13] == 0) || (p[12] == 0x86 && p[13] == 0xdd)),
    ensures
        r is None,
{
}

/// The sample log takes nothing while it is off, everything at a rate of one, and at a
/// rate of `n` one roll in `n`.
pub proof fn law_sample_log_takes_its_share(rt: RuntimeConfig, roll: u32)
    ensures
        rt.packet_log_enabled == 0 || rt.packet_log_sample_rate == 0 ==> !sampled(rt, roll),
        rt.packet_log_enabled != 0 && rt.packet_log_sample_rate == 1 ==> sampled(rt, roll),
        rt.packet_log_enabled != 0 && rt.packet_log_sample_rate > 0 ==> forall|k: u32|
            #![trigger sampled(rt, k)]
            k / rt.packet_log_sample_rate as u32 == roll / rt.packet_log_sample_rate as u32
                && sampled(rt, k) ==> k == roll / rt.packet_log_sample_rate as u32
                * rt.packet_log_sample_rate,
{
    if rt.packet_log_enabled != 0 && rt.packet_log_sample_rate > 0 {
        let n: int = rt.packet_log_sample_rate as int;
        assert forall|k: u32|
            #![trigger sampled(rt, k)]
            k / rt.packet_log_sample_rate as u32 == roll / rt.packet_log_sample_rate as u32
                && sampled(rt, k) implies k == roll / rt.packet_log_sample_rate as u32
            * rt.packet_log_sample_rate by {
            let q: int = k as int / n;
            assert(k == q * n) by (nonlinear_arith)
                requires
                    n > 0,
                    q == k as int / n,
                    k as int % n == 0,
            ;
        }
    }
}

/// A sample holds the first 64 octets of a packet, or all of a shorter one.
pub proof fn law_sample_holds_the_start(p: Seq<u8>)
    requires
        p.len() < 0x1_0000,
    ensures
        p.len() >= 64 ==> sample_len(p) == 64,
        p.len() < 64 ==> sample_len(p) == p.len(),
{
}

/// Only a packet that does not pass is offered to the sample log.
pub proof fn law_only_stopped_packets_are_logged(
    f: FlowView,
    h: Headers,
    t: Tables,
    rt: RuntimeConfig,
    env: Env,
)
    ensures
        judged(f, h, t, rt, env).action == XDP_PASS ==> !logged(f, h, t, rt, env),
        judged(f, h, t, rt, env).action == XDP_DROP ==> logged(f, h, t, rt, env),
        judged(f, h, t, rt, env).action == XDP_TX ==> logged(f, h, t, rt, env),
{
}

/// A packet that passes brings its source a hundredth of what it lacks of full trust.
pub proof fn law_one_pass_earns_a_hundredth(t: Option<TrustEntry>, now_ns: u64)
    requires
        t is Some ==> t->0.trust_score <= 1000,
    ensures
        ({
            let e: TrustEntry = trust_after_pass(t, now_ns);
            let score: int = match t {
                Some(e) => e.trust_score as int,
                None => 500,
            };
            &&& e.trust_score == score + (1000 - score) / 100
            &&& e.last_update_ns == now_ns
            &&& is_level(e.level, e.trust_score)
            &&& t is Some && t->0.pass_count < u32::MAX ==> e.pass_count == t->0.pass_count + 1
            &&& t is Some ==> e.drop_count == t->0.drop_count
        }),
{
}

} // verus!
