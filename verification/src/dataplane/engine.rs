//! A packet's whole way: parsing, the checks in their order, the sample log.

use crate::common::DropEvent;
use crate::common::GlobalStats;
use crate::common::IpKey;
use crate::common::PacketSample;
use crate::common::PortRateKey;
use crate::common::RateCounter;
use crate::common::RuntimeConfig;
use crate::dataplane::blacklist;
use crate::dataplane::parser;
use crate::dataplane::parser::Headers;
use crate::dataplane::pipeline::blacklist_step;
use crate::dataplane::pipeline::check_blacklist_drop;
use crate::dataplane::pipeline::check_conn_track_drop;
use crate::dataplane::pipeline::check_geoip_drop;
use crate::dataplane::pipeline::check_icmp_drop;
use crate::dataplane::pipeline::check_l7_drop;
use crate::dataplane::pipeline::check_port_acl_drop;
use crate::dataplane::pipeline::check_port_rate_drop;
use crate::dataplane::pipeline::check_project_policy;
use crate::dataplane::pipeline::check_rate_limit_drop;
use crate::dataplane::pipeline::check_tcp_drop;
use crate::dataplane::pipeline::check_udp_drop;
use crate::dataplane::pipeline::fits;
use crate::dataplane::pipeline::geoip_step;
use crate::dataplane::pipeline::icmp_step;
use crate::dataplane::pipeline::l7_step;
use crate::dataplane::pipeline::one_dropped;
use crate::dataplane::pipeline::pass_packet;
use crate::dataplane::pipeline::pass_step;
use crate::dataplane::pipeline::port_acl_step;
use crate::dataplane::pipeline::port_rate_step;
use crate::dataplane::pipeline::project_step;
use crate::dataplane::pipeline::proxied;
use crate::dataplane::pipeline::rate_step;
use crate::dataplane::pipeline::tcp_step;
use crate::dataplane::pipeline::track_step;
use crate::dataplane::pipeline::udp_step;
use crate::dataplane::pipeline::Env;
use crate::dataplane::pipeline::Flow;
use crate::dataplane::pipeline::FlowView;
use crate::dataplane::pipeline::Step;
use crate::dataplane::pipeline::Tables;
use crate::dataplane::port_rate::PortTable;
use crate::dataplane::source::SourceState;
use crate::dataplane::source::SourceTable;
use crate::dataplane::xdp::NO_ACTION;
use crate::dataplane::xdp::XDP_DROP;
use crate::dataplane::xdp::XDP_PASS;
use crate::dataplane::xdp::XDP_TX;
use crate::prefix;
use crate::rules;
use vstd::prelude::*;

verus! {

/// Port rules, then blocked sources.
pub open spec fn gate_checks(
    f: FlowView,
    h: Headers,
    t: Tables,
    rt: RuntimeConfig,
    env: Env,
) -> Step {
    let s: Step = port_acl_step(f, h, t, rt, env);
    if s.action != NO_ACTION {
        s
    } else {
        blacklist_step(s.flow, h, rt, env)
    }
}

/// Projects, regions, half-open connections.
pub open spec fn first_checks(
    f: FlowView,
    h: Headers,
    t: Tables,
    rt: RuntimeConfig,
    env: Env,
) -> Step {
    let s: Step = project_step(f, h, t, rt, env);
    if s.action != NO_ACTION {
        s
    } else {
        let s: Step = geoip_step(s.flow, h, t, rt, env);
        if s.action != NO_ACTION {
            s
        } else {
            track_step(s.flow, h, t, rt, env)
        }
    }
}

/// The flood checks, in order.
pub open spec fn flood_checks(
    f: FlowView,
    h: Headers,
    t: Tables,
    rt: RuntimeConfig,
    env: Env,
) -> Step {
    let s: Step = tcp_step(f, h, t, rt, env);
    if s.action != NO_ACTION {
        s
    } else {
        let s: Step = udp_step(s.flow, h, t, rt, env);
        if s.action != NO_ACTION {
            s
        } else {
            icmp_step(s.flow, h, t, rt, env)
        }
    }
}

/// The rate of the destination port, signatures, the rate of the source.
pub open spec fn last_checks(
    f: FlowView,
    h: Headers,
    t: Tables,
    rt: RuntimeConfig,
    env: Env,
) -> Step {
    let s: Step = port_rate_step(f, h, t, rt, env);
    if s.action != NO_ACTION {
        s
    } else {
        let s: Step = l7_step(s.flow, h, t, rt, env);
        if s.action != NO_ACTION {
            s
        } else {
            rate_step(s.flow, h, t, rt, env)
        }
    }
}

/// All checks: port rules, blocked sources, projects, regions, half-open connections,
/// TCP, UDP and ICMP floods, the rate of the destination port, signatures, the rate of the
/// source. The first that decides ends the search.
pub open spec fn all_checks(
    f: FlowView,
    h: Headers,
    t: Tables,
    rt: RuntimeConfig,
    env: Env,
) -> Step {
    let s: Step = gate_checks(f, h, t, rt, env);
    if s.action != NO_ACTION {
        s
    } else {
        let s: Step = first_checks(s.flow, h, t, rt, env);
        if s.action != NO_ACTION {
            s
        } else {
            let s: Step = flood_checks(s.flow, h, t, rt, env);
            if s.action != NO_ACTION {
                s
            } else {
                last_checks(s.flow, h, t, rt, env)
            }
        }
    }
}

/// What becomes of a packet whose headers were read: a whitelisted source passes; else
/// the checks decide, and what none of them stops passes.
pub open spec fn judged(f: FlowView, h: Headers, t: Tables, rt: RuntimeConfig, env: Env) -> Step {
    if prefix::table_holds(t.whitelist@, h.src) {
        pass_step(f, env)
    } else {
        let s: Step = all_checks(f, h, t, rt, env);
        if s.action != NO_ACTION {
            s
        } else {
            pass_step(s.flow, env)
        }
    }
}

/// The packet does not pass, so it is offered to the sample log.
pub open spec fn logged(f: FlowView, h: Headers, t: Tables, rt: RuntimeConfig, env: Env) -> bool {
    judged(f, h, t, rt, env).action != XDP_PASS
}

fn run_gate_checks(f: &mut Flow, h: &Headers, t: &Tables, rt: &RuntimeConfig, env: &Env) -> (r: u32)
    ensures
        (Step { flow: final(f)@, action: r }) == gate_checks(old(f)@, *h, *t, *rt, *env),
        r == NO_ACTION ==> final(f)@.packet == old(f)@.packet,
{
    let action: u32 = check_port_acl_drop(f, h, t, rt, env);
    if action != NO_ACTION {
        return action;
    }
    check_blacklist_drop(f, h, rt, env)
}

fn run_first_checks(f: &mut Flow, h: &Headers, t: &Tables, rt: &RuntimeConfig, env: &Env) -> (r: u32)
    requires
        fits(old(f)@.packet, *h),
    ensures
        (Step { flow: final(f)@, action: r }) == first_checks(old(f)@, *h, *t, *rt, *env),
        r == NO_ACTION ==> final(f)@.packet == old(f)@.packet,
{
    let action: u32 = check_project_policy(f, h, t, rt, env);
    if action != NO_ACTION {
        return action;
    }
    let action: u32 = check_geoip_drop(f, h, t, rt, env);
    if action != NO_ACTION {
        return action;
    }
    check_conn_track_drop(f, h, t, rt, env)
}

fn run_flood_checks(f: &mut Flow, h: &Headers, t: &Tables, rt: &RuntimeConfig, env: &Env) -> (r: u32)
    requires
        fits(old(f)@.packet, *h),
    ensures
        (Step { flow: final(f)@, action: r }) == flood_checks(old(f)@, *h, *t, *rt, *env),
        r == NO_ACTION ==> final(f)@.packet == old(f)@.packet,
{
    let action: u32 = check_tcp_drop(f, h, t, rt, env);
    if action != NO_ACTION {
        return action;
    }
    let action: u32 = check_udp_drop(f, h, t, rt, env);
    if action != NO_ACTION {
        return action;
    }
    check_icmp_drop(f, h, t, rt, env)
}

fn run_last_checks(f: &mut Flow, h: &Headers, t: &Tables, rt: &RuntimeConfig, env: &Env) -> (r: u32)
    requires
        fits(old(f)@.packet, *h),
    ensures
        (Step { flow: final(f)@, action: r }) == last_checks(old(f)@, *h, *t, *rt, *env),
{
    let action: u32 = check_port_rate_drop(f, h, t, rt, env);
    if action != NO_ACTION {
        return action;
    }
    let action: u32 = check_l7_drop(f, h, t, rt, env);
    if action != NO_ACTION {
        return action;
    }
    check_rate_limit_drop(f, h, t, rt, env)
}

/// Runs all checks; [`NO_ACTION`] where none decides.
pub fn run_checks(f: &mut Flow, h: &Headers, t: &Tables, rt: &RuntimeConfig, env: &Env) -> (r: u32)
    requires
        fits(old(f)@.packet, *h),
    ensures
        (Step { flow: final(f)@, action: r }) == all_checks(old(f)@, *h, *t, *rt, *env),
{
    let action: u32 = run_gate_checks(f, h, t, rt, env);
    if action != NO_ACTION {
        return action;
    }
    let action: u32 = run_first_checks(f, h, t, rt, env);
    if action != NO_ACTION {
        return action;
    }
    let action: u32 = run_flood_checks(f, h, t, rt, env);
    if action != NO_ACTION {
        return action;
    }
    run_last_checks(f, h, t, rt, env)
}

/// The destination address in the packet, as the packet now stands.
pub open spec fn dst_octets(p: Seq<u8>, family: u8) -> Seq<u8> {
    if family == 4 && p.len() >= 34 {
        IpKey::mapped(p.subrange(30, 34))
    } else if family == 6 && p.len() >= 54 {
        p.subrange(38, 54)
    } else {
        Seq::new(16, |i: int| 0u8)
    }
}

fn dst_of(p: &Vec<u8>, family: u8) -> (r: [u8; 16])
    ensures
        r@ == dst_octets(p@, family),
{
    let mut a: [u8; 16] = [0u8; 16];
    if family == 4 && p.len() >= 34 {
        a[12] = p[30];
        a[13] = p[31];
        a[14] = p[32];
        a[15] = p[33];
        assert(a@ =~= IpKey::mapped(p@.subrange(30, 34)));
    } else if family == 6 && p.len() >= 54 {
        for i in 0..16usize
            invariant
                p@.len() >= 54,
                forall|j: int| 0 <= j < i ==> a@[j] == p@[38 + j],
        {
            a[i] = p[38 + i];
        }
        assert(a@ =~= p@.subrange(38, 54));
    } else {
        assert(a@ =~= Seq::new(16, |i: int| 0u8));
    }
    a
}

/// The sample log takes the packet: it is on and the roll falls on one in `rate`.
pub open spec fn sampled(rt: RuntimeConfig, roll: u32) -> bool {
    rt.packet_log_enabled != 0 && rt.packet_log_sample_rate != 0 && roll as int
        % rt.packet_log_sample_rate as int == 0
}

/// How many octets of a packet a sample holds.
pub open spec fn sample_len(p: Seq<u8>) -> int {
    if p.len() % 0x1_0000 >= 64 {
        64
    } else {
        p.len() as int % 0x1_0000
    }
}

/// `s` is the sample of the packet.
pub open spec fn is_sample(
    s: PacketSample,
    p: Seq<u8>,
    h: Headers,
    rule_id: u16,
    action: u32,
    now_ns: u64,
) -> bool {
    &&& s.timestamp_ns == now_ns
    &&& s.src_ip == h.src.addr
    &&& s.dst_ip@ == dst_octets(p, h.src.family)
    &&& s.src_port == h.sport
    &&& s.dst_port == h.dport
    &&& s.rule_id == rule_id
    &&& s.packet_len == p.len() % 0x1_0000
    &&& s.family == h.src.family
    &&& s.protocol == h.protocol
    &&& s.action == if action == XDP_PASS {
        1u8
    } else {
        0u8
    }
    &&& s.payload_bytes == sample_len(p)
    &&& forall|i: int|
        0 <= i < 64 ==> #[trigger] s.payload_sample@[i] == if i < sample_len(p) {
            p[i]
        } else {
            0u8
        }
}

/// Samples a packet with what was decided about it.
pub fn log_packet_sample(
    p: &Vec<u8>,
    h: &Headers,
    rule_id: u16,
    action: u32,
    rt: &RuntimeConfig,
    now_ns: u64,
    roll: u32,
) -> (r: Option<PacketSample>)
    ensures
        r is Some == sampled(*rt, roll),
        r is Some ==> is_sample(r->0, p@, *h, rule_id, action, now_ns),
{
    if rt.packet_log_enabled == 0 || rt.packet_log_sample_rate == 0 {
        return None;
    }
    if roll % rt.packet_log_sample_rate as u32 != 0 {
        return None;
    }
    let packet_len: u16 = (p.len() % 0x1_0000) as u16;
    let copy_len: u8 = if packet_len >= 64 {
        64
    } else {
        packet_len as u8
    };
    let mut payload: [u8; 64] = [0u8; 64];
    for i in 0..copy_len
        invariant
            copy_len <= 64,
            copy_len <= p@.len(),
            forall|j: int|
                0 <= j < 64 ==> #[trigger] payload@[j] == if j < i {
                    p@[j]
                } else {
                    0u8
                },
    {
        payload[i as usize] = p[i as usize];
    }
    Some(
        PacketSample {
            timestamp_ns: now_ns,
            src_ip: h.src.addr,
            dst_ip: dst_of(p, h.src.family),
            src_port: h.sport,
            dst_port: h.dport,
            rule_id,
            packet_len,
            family: h.src.family,
            protocol: h.protocol,
            action: if action == XDP_PASS {
                1
            } else {
                0
            },
            payload_bytes: copy_len,
            payload_sample: payload,
        },
    )
}

/// What a packet's way came to.
pub struct Outcome {
    pub action: u32,
    /// What was read of the packet; nothing where it is not for the checks.
    pub headers: Option<Headers>,
    pub events: Vec<DropEvent>,
    pub sample: Option<PacketSample>,
}

/// The port whose rate a packet counts towards.
pub open spec fn port_key(h: Headers) -> PortRateKey {
    PortRateKey { protocol: h.protocol, dport: h.dport }
}

/// A packet at the start of the checks: counted, no rule yet.
pub open spec fn starting(
    p: Seq<u8>,
    state: SourceState,
    port: Option<RateCounter>,
    stats: GlobalStats,
) -> FlowView {
    FlowView {
        packet: p,
        state,
        port,
        stats: GlobalStats { total_packets: stats.total_packets.wrapping_add(1), ..stats },
        rule_id: rules::UNKNOWN,
        events: Seq::empty(),
    }
}

/// Takes a packet through the checks. A packet that is not IP, or is cut short, passes
/// unseen; so does every packet while there are no switches.
pub fn try_eshield(
    packet: &mut Vec<u8>,
    tables: &Tables,
    sources: &mut SourceTable,
    ports: &mut PortTable,
    stats: &mut GlobalStats,
    env: &Env,
) -> (r: Outcome)
    ensures
        parser::parses_to(old(packet)@, r.headers),
        match r.headers {
            None => {
                &&& r.action == XDP_PASS
                &&& r.events@.len() == 0
                &&& r.sample is None
                &&& final(packet)@ == old(packet)@
                &&& *final(stats) == *old(stats)
                &&& forall|k: IpKey| final(sources).state(k) == old(sources).state(k)
                &&& forall|k: PortRateKey| final(ports).window(k) == old(ports).window(k)
            },
            Some(h) => {
                let f: FlowView = starting(
                    old(packet)@,
                    old(sources).state(h.src),
                    old(ports).window(port_key(h)),
                    *old(stats),
                );
                &&& forall|k: IpKey|
                    k != h.src ==> final(sources).state(k) == old(sources).state(k)
                &&& forall|k: PortRateKey|
                    k != port_key(h) ==> final(ports).window(k) == old(ports).window(k)
                &&& match tables.runtime {
                    None => {
                        &&& r.action == XDP_PASS
                        &&& r.events@.len() == 0
                        &&& r.sample is None
                        &&& final(packet)@ == old(packet)@
                        &&& *final(stats) == f.stats
                        &&& final(sources).state(h.src) == f.state
                        &&& final(ports).window(port_key(h)) == f.port
                    },
                    Some(rt) => {
                        let s: Step = judged(f, h, *tables, rt, *env);
                        &&& r.action == s.action
                        &&& r.events@ == s.flow.events
                        &&& final(packet)@ == s.flow.packet
                        &&& *final(stats) == s.flow.stats
                        &&& final(sources).state(h.src) == s.flow.state
                        &&& final(ports).window(port_key(h)) == s.flow.port
                        &&& r.sample is Some == (logged(f, h, *tables, rt, *env) && sampled(
                            rt,
                            env.roll,
                        ))
                        &&& r.sample is Some ==> is_sample(
                            r.sample->0,
                            s.flow.packet,
                            h,
                            s.flow.rule_id,
                            s.action,
                            env.now_ns,
                        )
                    },
                }
            },
        },
{
    let h: Headers = match parser::parse_packet(packet.as_slice()) {
        Some(h) => h,
        None => {
            return Outcome {
                action: XDP_PASS,
                headers: None,
                events: Vec::new(),
                sample: None,
            };
        },
    };
    assert(fits(packet@, h)) by {
        assert(parser::ihl(packet@) <= 60);
    }
    stats.total_packets = stats.total_packets.wrapping_add(1);
    let rt: RuntimeConfig = match tables.runtime {
        Some(c) => c,
        None => {
            return Outcome {
                action: XDP_PASS,
                headers: Some(h),
                events: Vec::new(),
                sample: None,
            };
        },
    };
    let state: SourceState = sources.get(&h.src);
    let key: PortRateKey = PortRateKey { protocol: h.protocol, dport: h.dport };
    let port: Option<RateCounter> = ports.get(&key);
    let mut bytes: Vec<u8> = Vec::new();
    std::mem::swap(&mut bytes, packet);
    let mut f: Flow = Flow {
        packet: bytes,
        state,
        port,
        stats: *stats,
        rule_id: rules::UNKNOWN,
        events: Vec::new(),
    };
    assert(f@ == starting(
        old(packet)@,
        old(sources).state(h.src),
        old(ports).window(port_key(h)),
        *old(stats),
    ));
    let mut sample: Option<PacketSample> = None;
    let action: u32 = if prefix::lookup(&tables.whitelist, &h.src) {
        pass_packet(&mut f, env)
    } else {
        let action: u32 = run_checks(&mut f, &h, tables, &rt, env);
        if action != NO_ACTION {
            if action != XDP_PASS {
                sample =
                log_packet_sample(&f.packet, &h, f.rule_id, action, &rt, env.now_ns, env.roll);
            }
            action
        } else {
            pass_packet(&mut f, env)
        }
    };
    sources.put(&h.src, f.state);
    if let Some(w) = f.port {
        ports.put(&key, w);
    }
    *stats = f.stats;
    let Flow { packet: bytes, state: _, port: _, stats: _, rule_id: _, events } = f;
    *packet = bytes;
    Outcome { action, headers: Some(h), events, sample }
}

/// One packet more was passed, none dropped.
pub open spec fn passed_one(a: GlobalStats, b: GlobalStats) -> bool {
    &&& b.total_passed == a.total_passed.wrapping_add(1)
    &&& b.total_dropped == a.total_dropped
    &&& b.tcp_dropped == a.tcp_dropped
    &&& b.udp_dropped == a.udp_dropped
    &&& b.icmp_dropped == a.icmp_dropped
    &&& b.other_dropped == a.other_dropped
}

/// One packet more was dropped, in total and under one protocol, none passed.
pub open spec fn dropped_one(a: GlobalStats, b: GlobalStats, protocol: u8) -> bool {
    let d: GlobalStats = one_dropped(a, protocol);
    &&& b.total_passed == a.total_passed
    &&& b.total_dropped == d.total_dropped
    &&& b.tcp_dropped == d.tcp_dropped
    &&& b.udp_dropped == d.udp_dropped
    &&& b.icmp_dropped == d.icmp_dropped
    &&& b.other_dropped == d.other_dropped
}

/// One packet more was answered with a cookie, none passed or dropped.
pub open spec fn challenged_one(a: GlobalStats, b: GlobalStats) -> bool {
    b == (GlobalStats { syn_flood_blocked: a.syn_flood_blocked.wrapping_add(1), ..a })
}

/// The counters tell what became of one packet.
pub open spec fn accounted(a: GlobalStats, b: GlobalStats, protocol: u8) -> bool {
    passed_one(a, b) || dropped_one(a, b, protocol) || challenged_one(a, b)
}

/// A check that decides accounts for the packet; one that does not leaves the counters,
/// the packet and the events alone.
pub open spec fn keeps_account(f: FlowView, s: Step, protocol: u8) -> bool {
    if s.action == NO_ACTION {
        s.flow.stats == f.stats && s.flow.packet == f.packet && s.flow.events == f.events
    } else {
        accounted(f.stats, s.flow.stats, protocol)
    }
}

proof fn lemma_port_acl_account(f: FlowView, h: Headers, t: Tables, rt: RuntimeConfig, env: Env)
    ensures
        keeps_account(f, port_acl_step(f, h, t, rt, env), h.protocol),
{
}

proof fn lemma_project_account(f: FlowView, h: Headers, t: Tables, rt: RuntimeConfig, env: Env)
    ensures
        keeps_account(f, project_step(f, h, t, rt, env), h.protocol),
{
}

proof fn lemma_geoip_account(f: FlowView, h: Headers, t: Tables, rt: RuntimeConfig, env: Env)
    ensures
        keeps_account(f, geoip_step(f, h, t, rt, env), h.protocol),
{
}

proof fn lemma_udp_account(f: FlowView, h: Headers, t: Tables, rt: RuntimeConfig, env: Env)
    ensures
        keeps_account(f, udp_step(f, h, t, rt, env), h.protocol),
{
}

proof fn lemma_icmp_account(f: FlowView, h: Headers, t: Tables, rt: RuntimeConfig, env: Env)
    ensures
        keeps_account(f, icmp_step(f, h, t, rt, env), h.protocol),
{
}

proof fn lemma_l7_account(f: FlowView, h: Headers, t: Tables, rt: RuntimeConfig, env: Env)
    ensures
        keeps_account(f, l7_step(f, h, t, rt, env), h.protocol),
{
}

proof fn lemma_rate_account(f: FlowView, h: Headers, t: Tables, rt: RuntimeConfig, env: Env)
    ensures
        keeps_account(f, rate_step(f, h, t, rt, env), h.protocol),
{
}

proof fn lemma_blacklist_account(f: FlowView, h: Headers, t: Tables, rt: RuntimeConfig, env: Env)
    ensures
        keeps_account(f, blacklist_step(f, h, rt, env), h.protocol),
{
}

proof fn lemma_track_account(f: FlowView, h: Headers, t: Tables, rt: RuntimeConfig, env: Env)
    ensures
        keeps_account(f, track_step(f, h, t, rt, env), h.protocol),
{
}

proof fn lemma_port_rate_account(f: FlowView, h: Headers, t: Tables, rt: RuntimeConfig, env: Env)
    ensures
        keeps_account(f, port_rate_step(f, h, t, rt, env), h.protocol),
{
}

proof fn lemma_tcp_account(f: FlowView, h: Headers, t: Tables, rt: RuntimeConfig, env: Env)
    ensures
        keeps_account(f, tcp_step(f, h, t, rt, env), h.protocol),
{
    if h.protocol == parser::IPPROTO_TCP && proxied(h, rt) {
        let s: Step = crate::dataplane::pipeline::proxy_step(f, h, t, rt, env);
        assert(keeps_account(f, s, h.protocol));
    }
}

proof fn lemma_checks_keep_account(f: FlowView, h: Headers, t: Tables, rt: RuntimeConfig, env: Env)
    ensures
        keeps_account(f, all_checks(f, h, t, rt, env), h.protocol),
{
    let s1: Step = port_acl_step(f, h, t, rt, env);
    lemma_port_acl_account(f, h, t, rt, env);
    let s2: Step = blacklist_step(s1.flow, h, rt, env);
    lemma_blacklist_account(s1.flow, h, t, rt, env);
    let s3: Step = project_step(s2.flow, h, t, rt, env);
    lemma_project_account(s2.flow, h, t, rt, env);
    let s4: Step = geoip_step(s3.flow, h, t, rt, env);
    lemma_geoip_account(s3.flow, h, t, rt, env);
    let s5: Step = track_step(s4.flow, h, t, rt, env);
    lemma_track_account(s4.flow, h, t, rt, env);
    let s6: Step = tcp_step(s5.flow, h, t, rt, env);
    lemma_tcp_account(s5.flow, h, t, rt, env);
    let s7: Step = udp_step(s6.flow, h, t, rt, env);
    lemma_udp_account(s6.flow, h, t, rt, env);
    let s8: Step = icmp_step(s7.flow, h, t, rt, env);
    lemma_icmp_account(s7.flow, h, t, rt, env);
    let s9: Step = port_rate_step(s8.flow, h, t, rt, env);
    lemma_port_rate_account(s8.flow, h, t, rt, env);
    let s10: Step = l7_step(s9.flow, h, t, rt, env);
    lemma_l7_account(s9.flow, h, t, rt, env);
    lemma_rate_account(s10.flow, h, t, rt, env);
    let a: Step = gate_checks(f, h, t, rt, env);
    let b: Step = first_checks(a.flow, h, t, rt, env);
    let c: Step = flood_checks(b.flow, h, t, rt, env);
    assert(keeps_account(f, a, h.protocol));
    assert(a.action == NO_ACTION ==> keeps_account(a.flow, b, h.protocol));
    assert(a.action == NO_ACTION && b.action == NO_ACTION ==> keeps_account(b.flow, c, h.protocol));
    assert(a.action == NO_ACTION && b.action == NO_ACTION && c.action == NO_ACTION
        ==> keeps_account(c.flow, last_checks(c.flow, h, t, rt, env), h.protocol));
}

/// Every packet that reaches the checks is counted once: as passed, as dropped (in total
/// and under its protocol), or as answered with a cookie.
pub proof fn law_every_packet_is_accounted(
    f: FlowView,
    h: Headers,
    t: Tables,
    rt: RuntimeConfig,
    env: Env,
)
    ensures
        accounted(f.stats, judged(f, h, t, rt, env).flow.stats, h.protocol),
{
    lemma_checks_keep_account(f, h, t, rt, env);
}

/// A whitelisted source passes whatever the checks would say: no event is sent and the
/// packet is not touched.
pub proof fn law_whitelisted_source_passes(
    f: FlowView,
    h: Headers,
    t: Tables,
    rt: RuntimeConfig,
    env: Env,
    i: int,
)
    requires
        0 <= i < t.whitelist@.len(),
        prefix::covers(t.whitelist@[i], h.src),
    ensures
        judged(f, h, t, rt, env).action == XDP_PASS,
        judged(f, h, t, rt, env).flow.events == f.events,
        judged(f, h, t, rt, env).flow.packet == f.packet,
        passed_one(f.stats, judged(f, h, t, rt, env).flow.stats),
{
}

/// A source that is blocked, and not whitelisted, gets nothing through: its packets are
/// dropped, and what no port rule drops is counted as blocked.
pub proof fn law_blocked_source_is_stopped(
    f: FlowView,
    h: Headers,
    t: Tables,
    rt: RuntimeConfig,
    env: Env,
)
    requires
        blacklist::blocked(f.state, env.now_ns),
        !prefix::table_holds(t.whitelist@, h.src),
    ensures
        judged(f, h, t, rt, env).action == XDP_DROP || judged(f, h, t, rt, env).action == XDP_TX,
        dropped_one(f.stats, judged(f, h, t, rt, env).flow.stats, h.protocol),
        port_acl_step(f, h, t, rt, env).action == NO_ACTION ==> {
            let g: FlowView = judged(f, h, t, rt, env).flow;
            &&& g.stats.blacklist_blocked == f.stats.blacklist_blocked.wrapping_add(1)
            &&& g.rule_id == rules::BLACKLIST
            &&& g.events == f.events
        },
{
    lemma_port_acl_account(f, h, t, rt, env);
    lemma_blacklist_account(f, h, t, rt, env);
}

/// A dropped packet is reported: its last event carries the number of the rule that
/// dropped it. Of a blocked source no event is sent.
pub proof fn law_drop_is_reported(f: FlowView, h: Headers, t: Tables, rt: RuntimeConfig, env: Env)
    requires
        judged(f, h, t, rt, env).action == XDP_DROP,
    ensures
        ({
            let g: FlowView = judged(f, h, t, rt, env).flow;
            &&& g.rule_id != rules::UNKNOWN
            &&& if g.rule_id == rules::BLACKLIST {
                g.events == f.events
            } else {
                &&& g.events.len() > f.events.len()
                &&& g.events.last() == crate::dataplane::pipeline::drop_event(
                    h,
                    g.rule_id,
                    env.event_ns,
                )
            }
        }),
{
    let s1: Step = port_acl_step(f, h, t, rt, env);
    let s2: Step = blacklist_step(s1.flow, h, rt, env);
    let s3: Step = project_step(s2.flow, h, t, rt, env);
    let s4: Step = geoip_step(s3.flow, h, t, rt, env);
    let s5: Step = track_step(s4.flow, h, t, rt, env);
    let s6: Step = tcp_step(s5.flow, h, t, rt, env);
    let s7: Step = udp_step(s6.flow, h, t, rt, env);
    let s8: Step = icmp_step(s7.flow, h, t, rt, env);
    let s9: Step = port_rate_step(s8.flow, h, t, rt, env);
    let s10: Step = l7_step(s9.flow, h, t, rt, env);
    let s11: Step = rate_step(s10.flow, h, t, rt, env);
    lemma_checks_keep_account(f, h, t, rt, env);
}

} // verus!
