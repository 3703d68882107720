//! The order of the checks, and what becomes of a packet.

use crate::bytes::read_be16;
use crate::bytes::read_be32;
use crate::bytes::swap16;
use crate::bytes::swap32;
use crate::bytes::swapped16;
use crate::bytes::swapped32;
use crate::bytes::dword_at;
use crate::common::CookieSecret;
use crate::common::DropEvent;
use crate::common::GlobalStats;
use crate::common::IpKey;
use crate::common::L7Pattern;
use crate::common::PortAclEntry;
use crate::common::ProjectPolicy;
use crate::common::ProjectPolicyKey;
use crate::common::RateCounter;
use crate::common::RateLimitConfig;
use crate::common::RuntimeConfig;
use crate::dataplane::blacklist;
use crate::dataplane::conn_track;
use crate::dataplane::conn_track::ConnTrackLimits;
use crate::dataplane::icmp_flood;
use crate::dataplane::l7_scan;
use crate::dataplane::parser;
use crate::dataplane::parser::Headers;
use crate::dataplane::port_acl;
use crate::dataplane::port_rate;
use crate::dataplane::rate_counter;
use crate::dataplane::rate_limit;
use crate::dataplane::source::SourceState;
use crate::dataplane::syn_cookie;
use crate::dataplane::syn_flood;
use crate::dataplane::tcp_reset;
use crate::dataplane::trust;
use crate::dataplane::udp_flood;
use crate::dataplane::xdp::NO_ACTION;
use crate::dataplane::xdp::XDP_DROP;
use crate::dataplane::xdp::XDP_PASS;
use crate::dataplane::xdp::XDP_TX;
use crate::prefix;
use crate::prefix::IpPrefix;
use crate::project_action;
use crate::rules;
use vstd::prelude::*;

verus! {

/// What the control plane has written for the packet path.
pub struct Tables {
    pub runtime: Option<RuntimeConfig>,
    pub rate: Option<RateLimitConfig>,
    /// The limit of each destination port, where ports are limited.
    pub port_rate: Option<RateLimitConfig>,
    /// The limits on half-open connections, where they are tracked.
    pub conn_track: Option<ConnTrackLimits>,
    pub secret: Option<CookieSecret>,
    pub whitelist: Vec<IpPrefix>,
    /// The networks of blocked regions.
    pub geoip: Vec<IpPrefix>,
    /// The networks of allowed regions.
    pub geoip_allow: Vec<IpPrefix>,
    /// What belongs to no listed region is dropped.
    pub geoip_default_drop: bool,
    pub acl: Vec<PortAclEntry>,
    /// How many port rules are in force.
    pub acl_count: u8,
    pub patterns: Vec<L7Pattern>,
    pub projects: Vec<(ProjectPolicyKey, ProjectPolicy)>,
}

/// What the outside gives while a packet is looked at.
#[derive(Clone, Copy, Debug)]
pub struct Env {
    /// When the packet came.
    pub now_ns: u64,
    /// When an event about it is written.
    pub event_ns: u64,
    /// The driver's answer to a change of the packet's length.
    pub resize_ok: bool,
    /// A random number, for the sample log.
    pub roll: u32,
    /// A random number, for the counters of a source that are written by samples.
    pub draw: u32,
}

/// What a packet's way through the checks changes.
pub struct Flow {
    pub packet: Vec<u8>,
    pub state: SourceState,
    /// The window of the packet's protocol and destination port.
    pub port: Option<RateCounter>,
    pub stats: GlobalStats,
    pub rule_id: u16,
    pub events: Vec<DropEvent>,
}

/// The contents of a [`Flow`].
pub struct FlowView {
    pub packet: Seq<u8>,
    pub state: SourceState,
    pub port: Option<RateCounter>,
    pub stats: GlobalStats,
    pub rule_id: u16,
    pub events: Seq<DropEvent>,
}

impl View for Flow {
    type V = FlowView;

    open spec fn view(&self) -> FlowView {
        FlowView {
            packet: self.packet@,
            state: self.state,
            port: self.port,
            stats: self.stats,
            rule_id: self.rule_id,
            events: self.events@,
        }
    }
}

/// A check's decision and what it changed.
pub struct Step {
    pub flow: FlowView,
    pub action: u32,
}

/// No decision, nothing changed.
pub open spec fn undecided(f: FlowView) -> Step {
    Step { flow: f, action: NO_ACTION }
}

/// The headers of a TCP packet are there.
pub open spec fn fits(p: Seq<u8>, h: Headers) -> bool {
    &&& 20 <= h.ip_hdr_len <= 60
    &&& 34 <= p.len()
    &&& h.protocol == parser::IPPROTO_TCP ==> 14 + h.ip_hdr_len + 20 <= p.len()
}

/// One more dropped packet of a protocol.
pub open spec fn proto_dropped(s: GlobalStats, protocol: u8) -> GlobalStats {
    if protocol == parser::IPPROTO_TCP {
        GlobalStats { tcp_dropped: s.tcp_dropped.wrapping_add(1), ..s }
    } else if protocol == parser::IPPROTO_UDP {
        GlobalStats { udp_dropped: s.udp_dropped.wrapping_add(1), ..s }
    } else if protocol == parser::IPPROTO_ICMP || protocol == parser::IPPROTO_ICMPV6 {
        GlobalStats { icmp_dropped: s.icmp_dropped.wrapping_add(1), ..s }
    } else {
        GlobalStats { other_dropped: s.other_dropped.wrapping_add(1), ..s }
    }
}

/// One more dropped packet, in total and of its protocol.
pub open spec fn one_dropped(s: GlobalStats, protocol: u8) -> GlobalStats {
    proto_dropped(GlobalStats { total_dropped: s.total_dropped.wrapping_add(1), ..s }, protocol)
}

pub fn inc_protocol_dropped(stats: &mut GlobalStats, protocol: u8)
    ensures
        *final(stats) == proto_dropped(*old(stats), protocol),
{
    if protocol == parser::IPPROTO_TCP {
        stats.tcp_dropped = stats.tcp_dropped.wrapping_add(1);
    } else if protocol == parser::IPPROTO_UDP {
        stats.udp_dropped = stats.udp_dropped.wrapping_add(1);
    } else if protocol == parser::IPPROTO_ICMP || protocol == parser::IPPROTO_ICMPV6 {
        stats.icmp_dropped = stats.icmp_dropped.wrapping_add(1);
    } else {
        stats.other_dropped = stats.other_dropped.wrapping_add(1);
    }
}

fn count_drop(stats: &mut GlobalStats, protocol: u8)
    ensures
        *final(stats) == one_dropped(*old(stats), protocol),
{
    stats.total_dropped = stats.total_dropped.wrapping_add(1);
    inc_protocol_dropped(stats, protocol);
}

/// The event of a dropped packet.
pub open spec fn drop_event(h: Headers, rule_id: u16, time_ns: u64) -> DropEvent {
    DropEvent {
        timestamp_ns: time_ns,
        src_ip: h.src.addr,
        family: h.src.family,
        protocol: h.protocol,
        rule_id,
        dst_port: h.dport,
    }
}

pub fn emit_drop_event(h: &Headers, rule_id: u16, time_ns: u64) -> (r: DropEvent)
    ensures
        r == drop_event(*h, rule_id, time_ns),
{
    DropEvent {
        timestamp_ns: time_ns,
        src_ip: h.src.addr,
        family: h.src.family,
        protocol: h.protocol,
        rule_id,
        dst_port: h.dport,
    }
}

/// A dropped packet is answered with a reset where that is switched on and it is TCP.
pub open spec fn wants_reset(h: Headers, reset: u8) -> bool {
    reset != 0 && h.protocol == parser::IPPROTO_TCP
}

/// How often the source is on the hot list after a drop: one drop in sixteen is written
/// and counts for all of them.
pub open spec fn attacks_after(attacks: Option<u64>, draw: u32) -> Option<u64> {
    if blacklist::hit_weight(draw) == 0 {
        attacks
    } else {
        Some(
            trust::sat_add64(
                match attacks {
                    Some(n) => n,
                    None => 0,
                },
                blacklist::hit_weight(draw) as u64,
            ),
        )
    }
}

/// Dropping a packet without an event: reputation falls, the hot list counts the source,
/// and a TCP packet may be answered with a reset.
pub open spec fn quiet_drop_step(f: FlowView, h: Headers, reset: u8, env: Env) -> Step {
    let tried: GlobalStats = GlobalStats {
        tcp_rst_attempt: f.stats.tcp_rst_attempt.wrapping_add(1),
        ..f.stats
    };
    let sent: bool = tcp_reset::resets(f.packet, h.ip_hdr_len as int, env.resize_ok);
    Step {
        flow: FlowView {
            packet: if wants_reset(h, reset) {
                tcp_reset::packet_after_reset(f.packet, h.ip_hdr_len as int, env.resize_ok)
            } else {
                f.packet
            },
            state: SourceState {
                trust: trust::sampled_drop(f.state.trust, env.now_ns, env.draw),
                attacks: attacks_after(f.state.attacks, env.draw),
                ..f.state
            },
            port: f.port,
            stats: if wants_reset(h, reset) {
                tcp_reset::stats_after_reset(tried, sent)
            } else {
                tried
            },
            rule_id: f.rule_id,
            events: f.events,
        },
        action: if wants_reset(h, reset) && sent {
            XDP_TX
        } else {
            XDP_DROP
        },
    }
}

/// Dropping a packet and sending an event about it.
pub open spec fn drop_step(f: FlowView, h: Headers, reset: u8, env: Env) -> Step {
    quiet_drop_step(
        FlowView { events: f.events.push(drop_event(h, f.rule_id, env.event_ns)), ..f },
        h,
        reset,
        env,
    )
}

/// One more dropped packet on the hot list, sampled by `draw`.
fn count_attack(attacks: Option<u64>, draw: u32) -> (r: Option<u64>)
    ensures
        r == attacks_after(attacks, draw),
{
    let weight: u32 = blacklist::weigh_hit(draw);
    if weight == 0 {
        return attacks;
    }
    let prev: u64 = match attacks {
        Some(n) => n,
        None => 0,
    };
    Some(prev.saturating_add(weight as u64))
}

pub fn drop_packet(f: &mut Flow, h: &Headers, reset: u8, env: &Env) -> (r: u32)
    ensures
        (Step { flow: final(f)@, action: r }) == drop_step(old(f)@, *h, reset, *env),
{
    f.events.push(emit_drop_event(h, f.rule_id, env.event_ns));
    drop_quietly(f, h, reset, env)
}

/// Drops a packet of which no event is sent.
pub fn drop_quietly(f: &mut Flow, h: &Headers, reset: u8, env: &Env) -> (r: u32)
    ensures
        (Step { flow: final(f)@, action: r }) == quiet_drop_step(old(f)@, *h, reset, *env),
{
    f.stats.tcp_rst_attempt = f.stats.tcp_rst_attempt.wrapping_add(1);
    trust::sample_drop(&mut f.state, env.now_ns, env.draw);
    f.state.attacks = count_attack(f.state.attacks, env.draw);
    if reset != 0 && h.protocol == parser::IPPROTO_TCP {
        tcp_reset::reply_tcp_rst(&mut f.packet, h.ip_hdr_len, &mut f.stats, env.resize_ok)
    } else {
        XDP_DROP
    }
}

/// A rule drops the packet: counted, in total, for its protocol and for the rule by the
/// caller, and dropped under the rule's number.
pub open spec fn ruled_out(
    f: FlowView,
    h: Headers,
    reset: u8,
    env: Env,
    stats: GlobalStats,
    rule_id: u16,
) -> Step {
    drop_step(FlowView { stats, rule_id, ..f }, h, reset, env)
}

pub open spec fn port_acl_step(f: FlowView, h: Headers, t: Tables, rt: RuntimeConfig, env: Env) -> Step {
    if port_acl::acl_drops(t.acl@, h.protocol, h.dport, t.acl_count as int) {
        ruled_out(
            f,
            h,
            rt.tcp_reset_on_drop,
            env,
            one_dropped(f.stats, h.protocol),
            rules::PORT_ACL,
        )
    } else {
        undecided(f)
    }
}

pub fn check_port_acl_drop(f: &mut Flow, h: &Headers, t: &Tables, rt: &RuntimeConfig, env: &Env) -> (r:
    u32)
    ensures
        (Step { flow: final(f)@, action: r }) == port_acl_step(old(f)@, *h, *t, *rt, *env),
{
    if port_acl::check_port_acl(&t.acl, h.protocol, h.dport, t.acl_count) {
        f.rule_id = rules::PORT_ACL;
        count_drop(&mut f.stats, h.protocol);
        drop_packet(f, h, rt.tcp_reset_on_drop, env)
    } else {
        NO_ACTION
    }
}

/// The policy in the first entry of a key.
pub open spec fn policy_in(
    list: Seq<(ProjectPolicyKey, ProjectPolicy)>,
    key: ProjectPolicyKey,
) -> Option<ProjectPolicy>
    decreases list.len(),
{
    if list.len() == 0 {
        None
    } else if list[0].0 == key {
        Some(list[0].1)
    } else {
        policy_in(list.skip(1), key)
    }
}

pub fn find_policy(list: &Vec<(ProjectPolicyKey, ProjectPolicy)>, key: &ProjectPolicyKey) -> (r: Option<
    ProjectPolicy,
>)
    ensures
        r == policy_in(list@, *key),
{
    assert(list@.skip(0) == list@);
    for i in 0..list.len()
        invariant
            policy_in(list@.skip(i as int), *key) == policy_in(list@, *key),
    {
        assert(list@.skip(i as int)[0] == list@[i as int]);
        assert(list@.skip(i as int).skip(1) == list@.skip(i + 1));
        if list[i].0 == *key {
            return Some(list[i].1);
        }
    }
    assert(list@.skip(list@.len() as int).len() == 0);
    None
}

/// The policy for a destination: that for the port and protocol, else for the port, else
/// for the protocol, else for the address alone.
pub open spec fn best_policy(
    list: Seq<(ProjectPolicyKey, ProjectPolicy)>,
    addr: u32,
    dport: u16,
    protocol: u8,
) -> Option<ProjectPolicy> {
    let a: Option<ProjectPolicy> = policy_in(list, ProjectPolicyKey { addr, dport, protocol });
    let b: Option<ProjectPolicy> = policy_in(list, ProjectPolicyKey { addr, dport, protocol: 0 });
    let c: Option<ProjectPolicy> = policy_in(list, ProjectPolicyKey { addr, dport: 0, protocol });
    if a is Some {
        a
    } else if b is Some {
        b
    } else if c is Some {
        c
    } else {
        policy_in(list, ProjectPolicyKey { addr, dport: 0, protocol: 0 })
    }
}

fn find_best_policy(
    list: &Vec<(ProjectPolicyKey, ProjectPolicy)>,
    addr: u32,
    dport: u16,
    protocol: u8,
) -> (r: Option<ProjectPolicy>)
    ensures
        r == best_policy(list@, addr, dport, protocol),
{
    let exact: Option<ProjectPolicy> = find_policy(
        list,
        &ProjectPolicyKey { addr, dport, protocol },
    );
    if exact.is_some() {
        return exact;
    }
    let port_only: Option<ProjectPolicy> = find_policy(
        list,
        &ProjectPolicyKey { addr, dport, protocol: 0 },
    );
    if port_only.is_some() {
        return port_only;
    }
    let protocol_only: Option<ProjectPolicy> = find_policy(
        list,
        &ProjectPolicyKey { addr, dport: 0, protocol },
    );
    if protocol_only.is_some() {
        return protocol_only;
    }
    find_policy(list, &ProjectPolicyKey { addr, dport: 0, protocol: 0 })
}

/// The policy of the packet's destination; only IPv4, and only where projects are on.
pub open spec fn project_policy(p: Seq<u8>, h: Headers, t: Tables, rt: RuntimeConfig) -> Option<
    ProjectPolicy,
> {
    if rt.project_enabled == 0 || h.src.family != 4 {
        None
    } else {
        best_policy(
            t.projects@,
            swapped32(dword_at(p, 30) as u32) as u32,
            swapped16(h.dport) as u16,
            h.protocol,
        )
    }
}

/// A passed packet: counted, and the reputation rises.
pub open spec fn pass_step(f: FlowView, env: Env) -> Step {
    Step {
        flow: FlowView {
            state: SourceState {
                trust: trust::sampled_pass(f.state.trust, env.now_ns, env.draw),
                ..f.state
            },
            stats: GlobalStats { total_passed: f.stats.total_passed.wrapping_add(1), ..f.stats },
            ..f
        },
        action: XDP_PASS,
    }
}

pub fn pass_packet(f: &mut Flow, env: &Env) -> (r: u32)
    ensures
        (Step { flow: final(f)@, action: r }) == pass_step(old(f)@, *env),
{
    f.stats.total_passed = f.stats.total_passed.wrapping_add(1);
    trust::sample_pass(&mut f.state, env.now_ns, env.draw);
    XDP_PASS
}

pub open spec fn project_step(f: FlowView, h: Headers, t: Tables, rt: RuntimeConfig, env: Env) -> Step {
    match project_policy(f.packet, h, t, rt) {
        None => undecided(f),
        Some(policy) => if policy.action == project_action::PASS {
            pass_step(FlowView { rule_id: rules::PROJECT_POLICY, ..f }, env)
        } else if policy.action == project_action::DROP {
            ruled_out(
                f,
                h,
                rt.tcp_reset_on_drop,
                env,
                one_dropped(f.stats, h.protocol),
                rules::PROJECT_POLICY,
            )
        } else {
            undecided(f)
        },
    }
}

/// Protection projects: the policy of the packet's destination passes it, drops it, or
/// leaves it to the other checks.
pub fn check_project_policy(f: &mut Flow, h: &Headers, t: &Tables, rt: &RuntimeConfig, env: &Env) -> (r:
    u32)
    requires
        fits(old(f)@.packet, *h),
    ensures
        (Step { flow: final(f)@, action: r }) == project_step(old(f)@, *h, *t, *rt, *env),
{
    if rt.project_enabled == 0 {
        return NO_ACTION;
    }
    if h.src.family != 4 {
        return NO_ACTION;
    }
    let addr: u32 = swap32(read_be32(f.packet.as_slice(), 30));
    match find_best_policy(&t.projects, addr, swap16(h.dport), h.protocol) {
        None => NO_ACTION,
        Some(policy) => {
            if policy.action == project_action::PASS {
                f.rule_id = rules::PROJECT_POLICY;
                pass_packet(f, env)
            } else if policy.action == project_action::DROP {
                f.rule_id = rules::PROJECT_POLICY;
                count_drop(&mut f.stats, h.protocol);
                drop_packet(f, h, rt.tcp_reset_on_drop, env)
            } else {
                NO_ACTION
            }
        },
    }
}

/// The source belongs to a region that gets nothing through: to a blocked one, or to none
/// that is listed where those are dropped. An allowed region is exempt from both.
pub open spec fn region_drops(t: Tables, src: IpKey) -> bool {
    !prefix::table_holds(t.geoip_allow@, src) && (prefix::table_holds(t.geoip@, src)
        || t.geoip_default_drop)
}

/// Whether the region of a source is dropped.
pub fn is_region_dropped(t: &Tables, src: &IpKey) -> (r: bool)
    ensures
        r == region_drops(*t, *src),
{
    if prefix::lookup(&t.geoip_allow, src) {
        return false;
    }
    prefix::lookup(&t.geoip, src) || t.geoip_default_drop
}

pub open spec fn geoip_step(f: FlowView, h: Headers, t: Tables, rt: RuntimeConfig, env: Env) -> Step {
    if rt.geoip_enabled != 0 && region_drops(t, h.src) {
        let s: GlobalStats = GlobalStats {
            geoip_blocked: f.stats.geoip_blocked.wrapping_add(1),
            ..f.stats
        };
        ruled_out(f, h, rt.tcp_reset_on_drop, env, one_dropped(s, h.protocol), rules::GEOIP)
    } else {
        undecided(f)
    }
}

pub fn check_geoip_drop(f: &mut Flow, h: &Headers, t: &Tables, rt: &RuntimeConfig, env: &Env) -> (r: u32)
    ensures
        (Step { flow: final(f)@, action: r }) == geoip_step(old(f)@, *h, *t, *rt, *env),
{
    if rt.geoip_enabled != 0 && is_region_dropped(t, &h.src) {
        f.rule_id = rules::GEOIP;
        f.stats.geoip_blocked = f.stats.geoip_blocked.wrapping_add(1);
        count_drop(&mut f.stats, h.protocol);
        drop_packet(f, h, rt.tcp_reset_on_drop, env)
    } else {
        NO_ACTION
    }
}

/// Half-open connections of the source of a TCP packet: over the limit it is dropped.
pub open spec fn track_step(f: FlowView, h: Headers, t: Tables, rt: RuntimeConfig, env: Env) -> Step {
    if h.protocol != parser::IPPROTO_TCP || t.conn_track is None {
        undecided(f)
    } else {
        let limits: ConnTrackLimits = t.conn_track->0;
        let flags: u8 = syn_cookie::flags_at(f.packet, 14 + h.ip_hdr_len) as u8;
        let g: FlowView = FlowView {
            state: SourceState {
                conn: conn_track::entry_after(
                    f.state.conn,
                    flags,
                    env.now_ns,
                    limits.threshold,
                    limits.window_ms,
                ),
                ..f.state
            },
            ..f
        };
        if conn_track::touches(flags) && conn_track::track_step(
            f.state.conn,
            flags,
            env.now_ns,
            limits.threshold,
            limits.window_ms,
        ).drop {
            let s: GlobalStats = GlobalStats {
                conn_track_blocked: f.stats.conn_track_blocked.wrapping_add(1),
                ..f.stats
            };
            ruled_out(
                g,
                h,
                rt.tcp_reset_on_drop,
                env,
                one_dropped(s, parser::IPPROTO_TCP),
                rules::CONN_TRACK,
            )
        } else {
            undecided(g)
        }
    }
}

pub fn check_conn_track_drop(f: &mut Flow, h: &Headers, t: &Tables, rt: &RuntimeConfig, env: &Env) -> (r:
    u32)
    requires
        fits(old(f)@.packet, *h),
    ensures
        (Step { flow: final(f)@, action: r }) == track_step(old(f)@, *h, *t, *rt, *env),
{
    if h.protocol != parser::IPPROTO_TCP {
        return NO_ACTION;
    }
    let limits: ConnTrackLimits = match t.conn_track {
        Some(l) => l,
        None => {
            return NO_ACTION;
        },
    };
    let word: u16 = read_be16(f.packet.as_slice(), 14 + h.ip_hdr_len + 12);
    let flags: u8 = low_flags(word);
    if conn_track::check_conn_track(
        &mut f.state.conn,
        flags,
        env.now_ns,
        limits.threshold,
        limits.window_ms,
    ) {
        f.rule_id = rules::CONN_TRACK;
        f.stats.conn_track_blocked = f.stats.conn_track_blocked.wrapping_add(1);
        count_drop(&mut f.stats, parser::IPPROTO_TCP);
        return drop_packet(f, h, rt.tcp_reset_on_drop, env);
    }
    NO_ACTION
}

/// SYN cookies stand for flood detection: IPv4 with the SYN proxy on.
pub open spec fn proxied(h: Headers, rt: RuntimeConfig) -> bool {
    h.src.family == 4 && rt.syn_proxy_enabled != 0
}

/// A TCP packet behind the SYN proxy.
pub open spec fn proxy_step(f: FlowView, h: Headers, t: Tables, rt: RuntimeConfig, env: Env) -> Step {
    let off: int = 14 + h.ip_hdr_len;
    let p: Seq<u8> = f.packet;
    let syn: bool = syn_cookie::flags_at(p, off) == syn_cookie::TCP_FLAG_SYN;
    let hit: bool = syn && syn_cookie::to_challenge(f.state, t.rate, t.runtime, env.now_ns);
    let action: u32 = if hit {
        syn_cookie::challenge_action(p, h.ip_hdr_len as int, t.secret)
    } else {
        NO_ACTION
    };
    let state: SourceState = if syn {
        syn_cookie::after_request(f.state, t.rate, t.runtime, env.now_ns)
    } else {
        f.state
    };
    if action == XDP_TX {
        Step {
            flow: FlowView {
                packet: syn_cookie::challenge_packet(
                    p,
                    h.ip_hdr_len as int,
                    t.secret,
                    env.now_ns,
                ),
                state,
                stats: GlobalStats {
                    syn_flood_blocked: f.stats.syn_flood_blocked.wrapping_add(1),
                    ..f.stats
                },
                rule_id: rules::SYN_FLOOD,
                ..f
            },
            action,
        }
    } else if action == XDP_PASS {
        Step {
            flow: FlowView {
                state,
                stats: one_dropped(f.stats, parser::IPPROTO_TCP),
                rule_id: rules::SYN_FLOOD,
                ..f
            },
            action,
        }
    } else if syn_cookie::frees(p, off, state, t.secret, env.now_ns) {
        pass_step(FlowView { state: SourceState { challenge: None, ..state }, ..f }, env)
    } else if syn_cookie::is_ack(p, off) {
        undecided(FlowView { state: syn_cookie::without_stale(state, env.now_ns), ..f })
    } else {
        undecided(FlowView { state, ..f })
    }
}

/// A TCP packet that is not behind the SYN proxy.
pub open spec fn flood_step(f: FlowView, h: Headers, t: Tables, rt: RuntimeConfig, env: Env) -> Step {
    let syn: bool = syn_cookie::flags_at(f.packet, 14 + h.ip_hdr_len) == syn_flood::TCP_FLAG_SYN;
    let state: SourceState = if syn {
        rate_counter::after_limit(f.state, t.rate, t.runtime, env.now_ns, rules::SYN_FLOOD)
    } else {
        f.state
    };
    if syn && rate_counter::over_limit(f.state, t.rate, t.runtime, env.now_ns) {
        let s: GlobalStats = GlobalStats {
            syn_flood_blocked: f.stats.syn_flood_blocked.wrapping_add(1),
            ..f.stats
        };
        ruled_out(
            FlowView { state, ..f },
            h,
            rt.tcp_reset_on_drop,
            env,
            one_dropped(s, parser::IPPROTO_TCP),
            rules::SYN_FLOOD,
        )
    } else {
        undecided(FlowView { state, ..f })
    }
}

pub open spec fn tcp_step(f: FlowView, h: Headers, t: Tables, rt: RuntimeConfig, env: Env) -> Step {
    if h.protocol != parser::IPPROTO_TCP {
        undecided(f)
    } else if proxied(h, rt) {
        proxy_step(f, h, t, rt, env)
    } else {
        flood_step(f, h, t, rt, env)
    }
}

fn check_tcp_proxy(f: &mut Flow, h: &Headers, t: &Tables, rt: &RuntimeConfig, env: &Env) -> (r: u32)
    requires
        fits(old(f)@.packet, *h),
        h.protocol == parser::IPPROTO_TCP,
    ensures
        (Step { flow: final(f)@, action: r }) == proxy_step(old(f)@, *h, *t, *rt, *env),
{
    let action: u32 = syn_cookie::handle_syn(
        &mut f.packet,
        h.ip_hdr_len,
        env.now_ns,
        &mut f.state,
        t.rate,
        t.runtime,
        t.secret,
    );
    if action != NO_ACTION {
        f.rule_id = rules::SYN_FLOOD;
        if action == XDP_TX {
            f.stats.syn_flood_blocked = f.stats.syn_flood_blocked.wrapping_add(1);
        } else {
            count_drop(&mut f.stats, parser::IPPROTO_TCP);
        }
        return action;
    }
    let action: u32 = syn_cookie::handle_ack(
        f.packet.as_slice(),
        h.ip_hdr_len,
        env.now_ns,
        &mut f.state,
        t.secret,
    );
    if action != NO_ACTION {
        return pass_packet(f, env);
    }
    NO_ACTION
}

pub fn check_tcp_drop(f: &mut Flow, h: &Headers, t: &Tables, rt: &RuntimeConfig, env: &Env) -> (r: u32)
    requires
        fits(old(f)@.packet, *h),
    ensures
        (Step { flow: final(f)@, action: r }) == tcp_step(old(f)@, *h, *t, *rt, *env),
{
    if h.protocol != parser::IPPROTO_TCP {
        return NO_ACTION;
    }
    if h.src.family == 4 && rt.syn_proxy_enabled != 0 {
        return check_tcp_proxy(f, h, t, rt, env);
    }
    let word: u16 = read_be16(f.packet.as_slice(), 14 + h.ip_hdr_len + 12);
    let flags: u8 = low_flags(word);
    if syn_flood::handle_syn_flood(&mut f.state, flags, t.rate, t.runtime, env.now_ns) {
        f.rule_id = rules::SYN_FLOOD;
        f.stats.syn_flood_blocked = f.stats.syn_flood_blocked.wrapping_add(1);
        count_drop(&mut f.stats, parser::IPPROTO_TCP);
        return drop_packet(f, h, rt.tcp_reset_on_drop, env);
    }
    NO_ACTION
}

fn low_flags(word: u16) -> (r: u8)
    ensures
        r == word as int % 0x40,
{
    (word % 0x40) as u8
}

pub open spec fn udp_step(f: FlowView, h: Headers, t: Tables, rt: RuntimeConfig, env: Env) -> Step {
    if h.protocol == parser::IPPROTO_UDP && rt.udp_flood_enabled != 0 && udp_flood::on(t.runtime) {
        let g: FlowView = FlowView {
            state: rate_counter::after_limit(
                f.state,
                t.rate,
                t.runtime,
                env.now_ns,
                rules::UDP_FLOOD,
            ),
            ..f
        };
        if rate_counter::over_limit(f.state, t.rate, t.runtime, env.now_ns) {
            let s: GlobalStats = GlobalStats {
                udp_flood_blocked: f.stats.udp_flood_blocked.wrapping_add(1),
                ..f.stats
            };
            ruled_out(g, h, rt.tcp_reset_on_drop, env, one_dropped(s, h.protocol), rules::UDP_FLOOD)
        } else {
            undecided(g)
        }
    } else {
        undecided(f)
    }
}

pub fn check_udp_drop(f: &mut Flow, h: &Headers, t: &Tables, rt: &RuntimeConfig, env: &Env) -> (r: u32)
    ensures
        (Step { flow: final(f)@, action: r }) == udp_step(old(f)@, *h, *t, *rt, *env),
{
    if h.protocol == parser::IPPROTO_UDP && rt.udp_flood_enabled != 0
        && udp_flood::handle_udp_flood(&mut f.state, t.rate, t.runtime, env.now_ns) {
        f.rule_id = rules::UDP_FLOOD;
        f.stats.udp_flood_blocked = f.stats.udp_flood_blocked.wrapping_add(1);
        count_drop(&mut f.stats, h.protocol);
        return drop_packet(f, h, rt.tcp_reset_on_drop, env);
    }
    NO_ACTION
}

pub open spec fn icmp_step(f: FlowView, h: Headers, t: Tables, rt: RuntimeConfig, env: Env) -> Step {
    if (h.protocol == parser::IPPROTO_ICMP || h.protocol == parser::IPPROTO_ICMPV6)
        && rt.icmp_flood_enabled != 0 && icmp_flood::on(t.runtime) {
        let g: FlowView = FlowView {
            state: rate_counter::after_limit(
                f.state,
                t.rate,
                t.runtime,
                env.now_ns,
                rules::ICMP_FLOOD,
            ),
            ..f
        };
        if rate_counter::over_limit(f.state, t.rate, t.runtime, env.now_ns) {
            let s: GlobalStats = GlobalStats {
                icmp_flood_blocked: f.stats.icmp_flood_blocked.wrapping_add(1),
                ..f.stats
            };
            ruled_out(
                g,
                h,
                rt.tcp_reset_on_drop,
                env,
                one_dropped(s, h.protocol),
                rules::ICMP_FLOOD,
            )
        } else {
            undecided(g)
        }
    } else {
        undecided(f)
    }
}

pub fn check_icmp_drop(f: &mut Flow, h: &Headers, t: &Tables, rt: &RuntimeConfig, env: &Env) -> (r: u32)
    ensures
        (Step { flow: final(f)@, action: r }) == icmp_step(old(f)@, *h, *t, *rt, *env),
{
    if (h.protocol == parser::IPPROTO_ICMP || h.protocol == parser::IPPROTO_ICMPV6)
        && rt.icmp_flood_enabled != 0 && icmp_flood::handle_icmp_flood(
        &mut f.state,
        t.rate,
        t.runtime,
        env.now_ns,
    ) {
        f.rule_id = rules::ICMP_FLOOD;
        f.stats.icmp_flood_blocked = f.stats.icmp_flood_blocked.wrapping_add(1);
        count_drop(&mut f.stats, h.protocol);
        return drop_packet(f, h, rt.tcp_reset_on_drop, env);
    }
    NO_ACTION
}

/// The rate of the packet's protocol and destination port: over the limit the packet is
/// dropped, and its source is not blocked for it.
pub open spec fn port_rate_step(
    f: FlowView,
    h: Headers,
    t: Tables,
    rt: RuntimeConfig,
    env: Env,
) -> Step {
    let g: FlowView = FlowView {
        port: port_rate::port_after(f.port, t.port_rate, env.now_ns),
        ..f
    };
    if port_rate::port_over(f.port, t.port_rate, env.now_ns) {
        let s: GlobalStats = GlobalStats {
            rate_limited: f.stats.rate_limited.wrapping_add(1),
            ..f.stats
        };
        ruled_out(g, h, rt.tcp_reset_on_drop, env, one_dropped(s, h.protocol), rules::RATE_LIMIT)
    } else {
        undecided(g)
    }
}

pub fn check_port_rate_drop(f: &mut Flow, h: &Headers, t: &Tables, rt: &RuntimeConfig, env: &Env) -> (r:
    u32)
    ensures
        (Step { flow: final(f)@, action: r }) == port_rate_step(old(f)@, *h, *t, *rt, *env),
{
    if port_rate::check_port_rate(&mut f.port, t.port_rate, env.now_ns) {
        f.rule_id = rules::RATE_LIMIT;
        f.stats.rate_limited = f.stats.rate_limited.wrapping_add(1);
        count_drop(&mut f.stats, h.protocol);
        return drop_packet(f, h, rt.tcp_reset_on_drop, env);
    }
    NO_ACTION
}

pub open spec fn l7_step(f: FlowView, h: Headers, t: Tables, rt: RuntimeConfig, env: Env) -> Step {
    if rt.l7_scan_enabled != 0 && l7_scan::scan_hits(
        f.packet,
        h.ip_hdr_len as int,
        h.protocol,
        t.patterns@,
    ) {
        let s: GlobalStats = GlobalStats { l7_blocked: f.stats.l7_blocked.wrapping_add(1), ..f.stats };
        let g: FlowView = FlowView {
            events: f.events.push(l7_scan::l7_event(h.src, h.protocol, h.dport, env.event_ns)),
            ..f
        };
        ruled_out(g, h, rt.tcp_reset_on_drop, env, one_dropped(s, h.protocol), rules::L7_PATTERN)
    } else {
        undecided(f)
    }
}

pub fn check_l7_drop(f: &mut Flow, h: &Headers, t: &Tables, rt: &RuntimeConfig, env: &Env) -> (r: u32)
    requires
        fits(old(f)@.packet, *h),
    ensures
        (Step { flow: final(f)@, action: r }) == l7_step(old(f)@, *h, *t, *rt, *env),
{
    if rt.l7_scan_enabled != 0 && l7_scan::scan(
        f.packet.as_slice(),
        h.ip_hdr_len,
        h.protocol,
        &t.patterns,
    ) {
        f.events.push(l7_scan::emit_l7_event(&h.src, h.protocol, h.dport, env.event_ns));
        f.rule_id = rules::L7_PATTERN;
        f.stats.l7_blocked = f.stats.l7_blocked.wrapping_add(1);
        count_drop(&mut f.stats, h.protocol);
        return drop_packet(f, h, rt.tcp_reset_on_drop, env);
    }
    NO_ACTION
}

pub open spec fn rate_step(f: FlowView, h: Headers, t: Tables, rt: RuntimeConfig, env: Env) -> Step {
    if rate_limit::on(t.runtime) {
        let g: FlowView = FlowView {
            state: rate_counter::after_limit(
                f.state,
                t.rate,
                t.runtime,
                env.now_ns,
                rules::RATE_LIMIT,
            ),
            ..f
        };
        if rate_counter::over_limit(f.state, t.rate, t.runtime, env.now_ns) {
            let s: GlobalStats = GlobalStats {
                rate_limited: f.stats.rate_limited.wrapping_add(1),
                ..f.stats
            };
            ruled_out(
                g,
                h,
                rt.tcp_reset_on_drop,
                env,
                one_dropped(s, h.protocol),
                rules::RATE_LIMIT,
            )
        } else {
            undecided(g)
        }
    } else {
        undecided(f)
    }
}

pub fn check_rate_limit_drop(f: &mut Flow, h: &Headers, t: &Tables, rt: &RuntimeConfig, env: &Env) -> (r:
    u32)
    ensures
        (Step { flow: final(f)@, action: r }) == rate_step(old(f)@, *h, *t, *rt, *env),
{
    if rate_limit::check_rate_limit(&mut f.state, t.rate, t.runtime, env.now_ns) {
        f.rule_id = rules::RATE_LIMIT;
        f.stats.rate_limited = f.stats.rate_limited.wrapping_add(1);
        count_drop(&mut f.stats, h.protocol);
        return drop_packet(f, h, rt.tcp_reset_on_drop, env);
    }
    NO_ACTION
}

/// A blocked source: its packets are dropped and counted, and no event is sent of them.
pub open spec fn blacklist_step(f: FlowView, h: Headers, rt: RuntimeConfig, env: Env) -> Step {
    let state: SourceState = blacklist::after_hits(
        f.state,
        env.now_ns,
        blacklist::hit_weight(env.draw),
    );
    if blacklist::blocked(f.state, env.now_ns) {
        let s: GlobalStats = GlobalStats {
            blacklist_blocked: f.stats.blacklist_blocked.wrapping_add(1),
            ..f.stats
        };
        quiet_drop_step(
            FlowView { state, stats: one_dropped(s, h.protocol), rule_id: rules::BLACKLIST, ..f },
            h,
            rt.tcp_reset_on_drop,
            env,
        )
    } else {
        undecided(FlowView { state, ..f })
    }
}

pub fn check_blacklist_drop(f: &mut Flow, h: &Headers, rt: &RuntimeConfig, env: &Env) -> (r: u32)
    ensures
        (Step { flow: final(f)@, action: r }) == blacklist_step(old(f)@, *h, *rt, *env),
{
    let weight: u32 = blacklist::weigh_hit(env.draw);
    if blacklist::look_up_block(&mut f.state, env.now_ns, weight) {
        f.rule_id = rules::BLACKLIST;
        f.stats.blacklist_blocked = f.stats.blacklist_blocked.wrapping_add(1);
        count_drop(&mut f.stats, h.protocol);
        return drop_quietly(f, h, rt.tcp_reset_on_drop, env);
    }
    NO_ACTION
}

} // verus!
