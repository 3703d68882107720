//! What each check does with the packets it is for, and what it leaves alone.

use crate::common::ConnTrackEntry;
use crate::common::GlobalStats;
use crate::common::IpKey;
use crate::common::PortAclEntry;
use crate::common::RuntimeConfig;
use crate::dataplane::conn_track::ConnTrackLimits;
use crate::dataplane::laws::stopped;
use crate::dataplane::parser::Headers;
use crate::dataplane::pipeline::blacklist_step;
use crate::dataplane::pipeline::geoip_step;
use crate::dataplane::pipeline::icmp_step;
use crate::dataplane::pipeline::l7_step;
use crate::dataplane::pipeline::port_acl_step;
use crate::dataplane::pipeline::port_rate_step;
use crate::dataplane::pipeline::rate_step;
use crate::dataplane::pipeline::tcp_step;
use crate::dataplane::pipeline::track_step;
use crate::dataplane::pipeline::udp_step;
use crate::dataplane::pipeline::Env;
use crate::dataplane::pipeline::FlowView;
use crate::dataplane::pipeline::Step;
use crate::dataplane::pipeline::Tables;
use crate::dataplane::rate_counter::over_limit;
use crate::dataplane::source::SourceState;
use crate::dataplane::xdp::NO_ACTION;
use crate::prefix::covers;
use crate::prefix::IpPrefix;
use vstd::prelude::*;

verus! {

/// A port as the rules hold it: the octets in wire order.
pub open spec fn wire(port: u16) -> int {
    (port as int % 0x100) * 0x100 + port as int / 0x100
}

/// The rule names the protocol, or all, and the port: all of them, one, or one in a range.
pub open spec fn rule_names(e: PortAclEntry, protocol: u8, dport: u16) -> bool {
    &&& e.protocol == 0 || e.protocol == protocol
    &&& e.dport_low == 0 || (e.dport_high == 0 && dport == wire(e.dport_low)) || (e.dport_high != 0
        && wire(e.dport_low) <= dport <= wire(e.dport_high))
}

/// The rule is one that says something: to allow or to drop.
pub open spec fn rule_speaks(e: PortAclEntry, protocol: u8, dport: u16) -> bool {
    (e.action == 1 || e.action == 2) && rule_names(e, protocol, dport)
}

proof fn lemma_wire(port: u16)
    ensures
        0 <= wire(port) <= 0xffff,
        wire(port) == 0 <==> port == 0,
{
}

proof fn lemma_verdict(e: PortAclEntry, protocol: u8, dport: u16)
    ensures
        crate::dataplane::port_acl::entry_verdict(e, protocol, dport) is Some <==> rule_speaks(
            e,
            protocol,
            dport,
        ),
        rule_speaks(e, protocol, dport) ==> (crate::dataplane::port_acl::entry_verdict(
            e,
            protocol,
            dport,
        ) == Some(crate::pure::AclMatch::Drop) <==> e.action == 2),
{
    lemma_wire(e.dport_low);
    lemma_wire(e.dport_high);
}

/// The first rule in force that names the packet decides: one that drops stops it, one
/// that allows leaves it to the other checks.
pub proof fn law_first_port_rule_decides(
    f: FlowView,
    h: Headers,
    t: Tables,
    rt: RuntimeConfig,
    env: Env,
    i: int,
)
    requires
        0 <= i < t.acl@.len(),
        i < t.acl_count,
        rule_speaks(t.acl@[i], h.protocol, h.dport),
        forall|j: int| 0 <= j < i ==> !rule_speaks(#[trigger] t.acl@[j], h.protocol, h.dport),
    ensures
        ({
            let s: Step = port_acl_step(f, h, t, rt, env);
            &&& t.acl@[i].action == 2 ==> stopped(s) && s.flow.rule_id == 7
            &&& t.acl@[i].action == 1 ==> s.action == NO_ACTION && s.flow == f
        }),
{
    assert forall|j: int| 0 <= j <= i implies (crate::dataplane::port_acl::entry_verdict(
        #[trigger] t.acl@[j],
        h.protocol,
        h.dport,
    ) is Some <==> j == i) by {
        lemma_verdict(t.acl@[j], h.protocol, h.dport);
    }
    lemma_verdict(t.acl@[i], h.protocol, h.dport);
    if crate::dataplane::port_acl::acl_drops(t.acl@, h.protocol, h.dport, t.acl_count as int) {
        let k: int = choose|k: int|
            #![trigger t.acl@[k]]
            0 <= k < t.acl@.len() && k < t.acl_count && crate::dataplane::port_acl::entry_verdict(
                t.acl@[k],
                h.protocol,
                h.dport,
            ) == Some(crate::pure::AclMatch::Drop) && forall|j: int|
                0 <= j < k ==> crate::dataplane::port_acl::entry_verdict(
                    #[trigger] t.acl@[j],
                    h.protocol,
                    h.dport,
                ) is None;
        if k < i {
            lemma_verdict(t.acl@[k], h.protocol, h.dport);
        }
        assert(k == i);
    }
}

/// A packet that no rule in force names is left to the other checks.
pub proof fn law_no_port_rule_no_decision(
    f: FlowView,
    h: Headers,
    t: Tables,
    rt: RuntimeConfig,
    env: Env,
)
    requires
        forall|j: int|
            0 <= j < t.acl@.len() && j < t.acl_count ==> !rule_speaks(
                #[trigger] t.acl@[j],
                h.protocol,
                h.dport,
            ),
    ensures
        port_acl_step(f, h, t, rt, env).action == NO_ACTION,
        port_acl_step(f, h, t, rt, env).flow == f,
{
    assert forall|j: int|
        0 <= j < t.acl@.len() && j
            < t.acl_count implies crate::dataplane::port_acl::entry_verdict(
        #[trigger] t.acl@[j],
        h.protocol,
        h.dport,
    ) is None by {
        lemma_verdict(t.acl@[j], h.protocol, h.dport);
    }
}

/// A blocked source is stopped until its block ends, and one without a block is not; a
/// block that ends at zero never ends.
pub proof fn law_block_decides(f: FlowView, h: Headers, rt: RuntimeConfig, env: Env)
    ensures
        ({
            let s: Step = blacklist_step(f, h, rt, env);
            &&& f.state.block is None ==> s.action == NO_ACTION && s.flow == f
            &&& f.state.block matches Some(b) ==> {
                let holds: bool = b.blocked_until_ns == 0 || env.now_ns < b.blocked_until_ns;
                &&& stopped(s) <==> holds
                &&& holds ==> s.flow.rule_id == 1 && s.flow.state.block is Some
                    && s.flow.state.block->0.blocked_until_ns == b.blocked_until_ns
                    && s.flow.state.block->0.block_reason == b.block_reason
                    && s.flow.stats.blacklist_blocked == f.stats.blacklist_blocked.wrapping_add(1)
                &&& !holds ==> s.action == NO_ACTION && s.flow.state.block is None
                    && s.flow.packet == f.packet && s.flow.stats == f.stats
            }
        }),
{
}

/// The address lies in one of the networks.
pub open spec fn is_in(list: Seq<IpPrefix>, key: IpKey) -> bool {
    exists|i: int| 0 <= i < list.len() && covers(#[trigger] list[i], key)
}

/// With regions on, what comes from an allowed network is let on, what comes from a
/// blocked one is stopped, and what comes from neither is stopped only where that is the
/// default. With regions off nothing is stopped.
pub proof fn law_region_decides(f: FlowView, h: Headers, t: Tables, rt: RuntimeConfig, env: Env)
    ensures
        ({
            let s: Step = geoip_step(f, h, t, rt, env);
            let allowed: bool = is_in(t.geoip_allow@, h.src);
            let listed: bool = is_in(t.geoip@, h.src);
            &&& rt.geoip_enabled == 0 || allowed ==> s.action == NO_ACTION && s.flow == f
            &&& rt.geoip_enabled != 0 && !allowed && listed ==> stopped(s) && s.flow.rule_id == 10
            &&& rt.geoip_enabled != 0 && !allowed && !listed && t.geoip_default_drop ==> stopped(s)
                && s.flow.rule_id == 10
            &&& rt.geoip_enabled != 0 && !allowed && !listed && !t.geoip_default_drop ==> s.action
                == NO_ACTION && s.flow == f
            &&& stopped(s) ==> s.flow.stats.geoip_blocked == f.stats.geoip_blocked.wrapping_add(1)
        }),
{
}

/// The flag octet asks for a connection: SYN, and neither ACK nor RST.
pub open spec fn opens(flags: u8) -> bool {
    flags / 2 % 2 == 1 && flags / 16 % 2 == 0 && flags / 4 % 2 == 0
}

/// The flag octet answers or ends one: RST, or ACK without SYN.
pub open spec fn closes(flags: u8) -> bool {
    flags / 4 % 2 == 1 || (flags / 16 % 2 == 1 && flags / 2 % 2 == 0)
}

/// How many half-open connections of a source are remembered.
pub open spec fn half_open(e: Option<ConnTrackEntry>, now_ns: u64, window_ms: u64) -> int {
    match e {
        None => 0,
        Some(c) => if now_ns - c.last_seen_ns >= window_ms * 1_000_000 {
            0
        } else {
            c.half_open as int
        },
    }
}

/// What is remembered of a source with so many half-open connections.
pub open spec fn remembered(n: int, now_ns: u64) -> Option<ConnTrackEntry> {
    if n <= 0 {
        None
    } else {
        Some(ConnTrackEntry { last_seen_ns: now_ns, half_open: n as u32 })
    }
}

proof fn lemma_flags(word: int, b: u8, a: u8)
    requires
        word == a * 256 + b,
    ensures
        ({
            let flags: u8 = (word % 0x40) as u8;
            &&& crate::dataplane::parser::is_syn(flags) <==> opens(b)
            &&& crate::dataplane::parser::is_ack_or_rst(flags) <==> closes(b)
        }),
{
    let flags: u8 = (word % 0x40) as u8;
    assert(flags == b % 64);
    assert((flags % 4 / 2 == 1) == (b / 2 % 2 == 1) && (flags % 32 / 16 == 0) == (b / 16 % 2 == 0)
        && (flags % 8 / 4 == 0) == (b / 4 % 2 == 0) && (flags % 8 / 4 == 1) == (b / 4 % 2 == 1) && (
    flags % 32 / 16 == 1) == (b / 16 % 2 == 1) && (flags % 4 / 2 == 0) == (b / 2 % 2 == 0))
        by (bit_vector)
        requires
            flags == b % 64,
    ;
}

/// A request opens one connection more, an answer or a reset closes one, and any other
/// TCP packet does neither; connections of which nothing was seen for a window are
/// forgotten. The packet is stopped where more are half-open than the limit.
pub proof fn law_half_open_connections_are_counted(
    f: FlowView,
    h: Headers,
    t: Tables,
    rt: RuntimeConfig,
    env: Env,
)
    requires
        h.protocol == 6,
        20 <= h.ip_hdr_len <= 60,
        14 + h.ip_hdr_len + 20 <= f.packet.len(),
        t.conn_track is Some,
        t.conn_track->0.window_ms * 1_000_000 <= u64::MAX,
        t.conn_track->0.window_ms > 0,
        f.state.conn is Some ==> f.state.conn->0.half_open < u32::MAX
            && f.state.conn->0.last_seen_ns <= env.now_ns,
    ensures
        ({
            let s: Step = track_step(f, h, t, rt, env);
            let limits: ConnTrackLimits = t.conn_track->0;
            let flags: u8 = f.packet[14 + h.ip_hdr_len + 13];
            let n: int = half_open(f.state.conn, env.now_ns, limits.window_ms);
            &&& opens(flags) ==> {
                &&& s.flow.state.conn == remembered(n + 1, env.now_ns)
                &&& stopped(s) <==> n + 1 > limits.threshold
            }
            &&& closes(flags) ==> {
                &&& s.flow.state.conn == remembered(n - 1, env.now_ns)
                &&& stopped(s) <==> n - 1 > limits.threshold
            }
            &&& !opens(flags) && !closes(flags) ==> s.action == NO_ACTION && s.flow == f
            &&& !stopped(s) ==> s.action == NO_ACTION && s.flow.stats == f.stats
            &&& stopped(s) ==> s.flow.rule_id == 15 && s.flow.stats.conn_track_blocked
                == f.stats.conn_track_blocked.wrapping_add(1)
        }),
{
    let off: int = 14 + h.ip_hdr_len;
    let a: u8 = f.packet[off + 12];
    let b: u8 = f.packet[off + 13];
    lemma_flags(crate::bytes::word_at(f.packet, off + 12), b, a);
    let limits: ConnTrackLimits = t.conn_track->0;
    assert(crate::dataplane::rate_counter::ms_ns(limits.window_ms) == limits.window_ms * 1_000_000);
}

/// A packet of another protocol, and every packet while connections are not tracked, is
/// left to the other checks.
pub proof fn law_only_tcp_is_tracked(f: FlowView, h: Headers, t: Tables, rt: RuntimeConfig, env: Env)
    requires
        h.protocol != 6 || t.conn_track is None,
    ensures
        track_step(f, h, t, rt, env).action == NO_ACTION,
        track_step(f, h, t, rt, env).flow == f,
{
}

/// Packets to a port are counted from the first of a window to its end, whoever sends
/// them; what takes the port over its threshold is stopped, and its source is not blocked
/// for it. The first packet after the window starts the next.
pub proof fn law_port_window_adds_up(f: FlowView, h: Headers, t: Tables, rt: RuntimeConfig, env: Env)
    requires
        t.port_rate is Some,
        t.port_rate->0.tick_ms > 0,
        t.port_rate->0.tick_ms * 1_000_000 <= u64::MAX,
        f.port is Some ==> f.port->0.counter < u64::MAX && f.port->0.last_decay_ns <= env.now_ns,
    ensures
        ({
            let s: Step = port_rate_step(f, h, t, rt, env);
            let running: bool = f.port is Some && env.now_ns - f.port->0.last_decay_ns
                < t.port_rate->0.tick_ms * 1_000_000;
            let n: int = if running {
                f.port->0.counter + 1
            } else {
                1
            };
            &&& s.flow.port is Some
            &&& s.flow.port->0.counter == n
            &&& s.flow.port->0.last_decay_ns == if running {
                f.port->0.last_decay_ns
            } else {
                env.now_ns
            }
            &&& stopped(s) <==> n > t.port_rate->0.threshold
            &&& !stopped(s) ==> s.action == NO_ACTION && s.flow.stats == f.stats && s.flow.state
                == f.state && s.flow.packet == f.packet
            &&& stopped(s) ==> s.flow.rule_id == 2
            &&& s.flow.state.block == f.state.block
            &&& s.flow.state.rate == f.state.rate
        }),
{
    let ms: u64 = t.port_rate->0.tick_ms;
    assert(crate::dataplane::rate_counter::ms_ns(ms) == ms * 1_000_000);
}

/// While ports have no limit nothing is counted for them.
pub proof fn law_unlimited_ports_pass(f: FlowView, h: Headers, t: Tables, rt: RuntimeConfig, env: Env)
    requires
        t.port_rate is None || t.port_rate->0.tick_ms == 0,
    ensures
        port_rate_step(f, h, t, rt, env).action == NO_ACTION,
        port_rate_step(f, h, t, rt, env).flow == f,
{
}

/// The source is blocked from now on: for so many seconds, or for ever where that is zero.
pub open spec fn is_blocked_for(s: SourceState, now_ns: u64, seconds: u64, reason: u8) -> bool {
    match s.block {
        None => false,
        Some(b) => {
            &&& b.block_reason == reason
            &&& seconds == 0 ==> b.blocked_until_ns == 0
            &&& seconds != 0 && now_ns + seconds * 1_000_000_000 <= u64::MAX
                ==> b.blocked_until_ns == now_ns + seconds * 1_000_000_000
            &&& seconds != 0 && now_ns + seconds * 1_000_000_000 > u64::MAX ==> b.blocked_until_ns
                == u64::MAX
        },
    }
}

/// What a check on the rate of a source does: over the threshold the packet is stopped and
/// the source blocked; else the packet is counted and goes on.
pub open spec fn limits_source(f: FlowView, s: Step, t: Tables, env: Env, rule: u8) -> bool {
    if over_limit(f.state, t.rate, t.runtime, env.now_ns) {
        &&& stopped(s)
        &&& s.flow.rule_id == rule
        &&& is_blocked_for(s.flow.state, env.now_ns, t.rate->0.block_duration_s, rule)
    } else {
        &&& s.action == NO_ACTION
        &&& s.flow.packet == f.packet
        &&& s.flow.stats == f.stats
        &&& s.flow.state.block == f.state.block
        &&& s.flow.state.rate == crate::dataplane::rate_counter::after_count(
            f.state,
            t.rate,
            env.now_ns,
        ).rate
    }
}

/// UDP packets are limited where that is switched on; packets of other protocols are not.
pub proof fn law_udp_flood_is_stopped(f: FlowView, h: Headers, t: Tables, rt: RuntimeConfig, env: Env)
    requires
        t.runtime == Some(rt),
    ensures
        ({
            let s: Step = udp_step(f, h, t, rt, env);
            &&& h.protocol == 17 && rt.udp_flood_enabled != 0 ==> limits_source(f, s, t, env, 8) && (
            stopped(s) ==> s.flow.stats.udp_flood_blocked == f.stats.udp_flood_blocked.wrapping_add(
                1,
            ))
            &&& h.protocol != 17 || rt.udp_flood_enabled == 0 ==> s.action == NO_ACTION && s.flow
                == f
        }),
{
}

/// ICMP packets of both families are limited where that is switched on; packets of other
/// protocols are not.
pub proof fn law_echo_flood_is_stopped(f: FlowView, h: Headers, t: Tables, rt: RuntimeConfig, env: Env)
    requires
        t.runtime == Some(rt),
    ensures
        ({
            let s: Step = icmp_step(f, h, t, rt, env);
            let echo: bool = h.protocol == 1 || h.protocol == 58;
            &&& echo && rt.icmp_flood_enabled != 0 ==> limits_source(f, s, t, env, 9) && (stopped(
                s,
            ) ==> s.flow.stats.icmp_flood_blocked == f.stats.icmp_flood_blocked.wrapping_add(1))
            &&& !echo || rt.icmp_flood_enabled == 0 ==> s.action == NO_ACTION && s.flow == f
        }),
{
}

/// Without the SYN proxy, packets whose only flag is SYN are limited; other TCP packets
/// and other protocols are not.
pub proof fn law_syn_flood_is_stopped(f: FlowView, h: Headers, t: Tables, rt: RuntimeConfig, env: Env)
    requires
        t.runtime == Some(rt),
        h.src.family != 4 || rt.syn_proxy_enabled == 0,
        20 <= h.ip_hdr_len <= 60,
        h.protocol == 6 ==> 14 + h.ip_hdr_len + 20 <= f.packet.len(),
    ensures
        ({
            let s: Step = tcp_step(f, h, t, rt, env);
            let syn: bool = h.protocol == 6 && f.packet[14 + h.ip_hdr_len + 13] % 64 == 2;
            &&& syn ==> limits_source(f, s, t, env, 3) && (stopped(s)
                ==> s.flow.stats.syn_flood_blocked == f.stats.syn_flood_blocked.wrapping_add(1))
            &&& !syn ==> s.action == NO_ACTION && s.flow == f
        }),
{
    let off: int = 14 + h.ip_hdr_len;
    if h.protocol == 6 {
        let a: u8 = f.packet[off + 12];
        let b: u8 = f.packet[off + 13];
        assert((a * 256 + b) % 64 == b as int % 64);
    }
}

/// The packets of a source are limited, whatever their protocol, where that is switched
/// on.
pub proof fn law_rate_is_limited(f: FlowView, h: Headers, t: Tables, rt: RuntimeConfig, env: Env)
    requires
        t.runtime == Some(rt),
    ensures
        ({
            let s: Step = rate_step(f, h, t, rt, env);
            &&& rt.rate_limit_enabled != 0 ==> limits_source(f, s, t, env, 2) && (stopped(s)
                ==> s.flow.stats.rate_limited == f.stats.rate_limited.wrapping_add(1))
            &&& rt.rate_limit_enabled == 0 ==> s.action == NO_ACTION && s.flow == f
        }),
{
}

/// A packet that a pattern hits is stopped where patterns are on, and others are let on.
pub proof fn law_hit_packet_is_stopped(f: FlowView, h: Headers, t: Tables, rt: RuntimeConfig, env: Env)
    ensures
        ({
            let s: Step = l7_step(f, h, t, rt, env);
            let hit: bool = rt.l7_scan_enabled != 0 && crate::dataplane::l7_scan::scan_hits(
                f.packet,
                h.ip_hdr_len as int,
                h.protocol,
                t.patterns@,
            );
            &&& hit ==> stopped(s) && s.flow.rule_id == 4 && s.flow.stats.l7_blocked
                == f.stats.l7_blocked.wrapping_add(1) && s.flow.state.block == f.state.block
            &&& !hit ==> s.action == NO_ACTION && s.flow == f
        }),
{
}

/// The counters of dropped packets by protocol.
pub open spec fn by_protocol(s: GlobalStats) -> (u64, u64, u64, u64) {
    (s.tcp_dropped, s.udp_dropped, s.icmp_dropped, s.other_dropped)
}

/// A dropped packet counts once in total and once under its protocol: TCP, UDP, ICMP of
/// either family, or another.
pub proof fn law_drop_counts_under_its_protocol(s: GlobalStats, protocol: u8)
    ensures
        ({
            let d: GlobalStats = crate::dataplane::pipeline::one_dropped(s, protocol);
            &&& d.total_dropped == s.total_dropped.wrapping_add(1)
            &&& d.total_passed == s.total_passed
            &&& d.total_packets == s.total_packets
            &&& protocol == 6 ==> by_protocol(d) == (
                s.tcp_dropped.wrapping_add(1),
                s.udp_dropped,
                s.icmp_dropped,
                s.other_dropped,
            )
            &&& protocol == 17 ==> by_protocol(d) == (
                s.tcp_dropped,
                s.udp_dropped.wrapping_add(1),
                s.icmp_dropped,
                s.other_dropped,
            )
            &&& protocol == 1 || protocol == 58 ==> by_protocol(d) == (
                s.tcp_dropped,
                s.udp_dropped,
                s.icmp_dropped.wrapping_add(1),
                s.other_dropped,
            )
            &&& protocol != 6 && protocol != 17 && protocol != 1 && protocol != 58 ==> by_protocol(
                d,
            ) == (s.tcp_dropped, s.udp_dropped, s.icmp_dropped, s.other_dropped.wrapping_add(1))
        }),
{
}

} // verus!
