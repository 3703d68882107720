//! The packet path, from octets to decisions.

use eshield::bytes::read_be16;
use eshield::bytes::read_be32;
use eshield::bytes::swap16;
use eshield::bytes::swap32;
use eshield::bytes::write_be16;
use eshield::bytes::write_be32;
use eshield::common::CookieSecret;
use eshield::common::GlobalStats;
use eshield::common::IpKey;
use eshield::common::L7Pattern;
use eshield::common::PortAclEntry;
use eshield::common::ProjectPolicy;
use eshield::common::ProjectPolicyKey;
use eshield::common::RateLimitConfig;
use eshield::common::RuntimeConfig;
use eshield::common::TrustEntry;
use eshield::dataplane::blacklist::add_to_blacklist;
use eshield::dataplane::blacklist::block_until;
use eshield::dataplane::blacklist::is_blacklisted;
use eshield::dataplane::blacklist::look_up_block;
use eshield::dataplane::challenge::is_allowed;
use eshield::dataplane::challenge::remove;
use eshield::dataplane::challenge::Allowlist;
use eshield::dataplane::conn_track::check_conn_track;
use eshield::dataplane::conn_track::ConnTrackLimits;
use eshield::dataplane::engine::try_eshield;
use eshield::dataplane::engine::Outcome;
use eshield::dataplane::icmp_flood::handle_icmp_flood;
use eshield::dataplane::l7_scan::scan;
use eshield::dataplane::parser::parse_packet;
use eshield::dataplane::parser::Protocol;
use eshield::dataplane::pipeline::Env;
use eshield::dataplane::pipeline::Tables;
use eshield::dataplane::port_acl::check_port_acl;
use eshield::dataplane::port_rate::check_port_rate;
use eshield::dataplane::port_rate::PortTable;
use eshield::dataplane::rate_limit::check_rate_limit;
use eshield::dataplane::source::SourceState;
use eshield::dataplane::source::SourceTable;
use eshield::dataplane::syn_cookie::handle_ack;
use eshield::dataplane::syn_cookie::handle_syn;
use eshield::dataplane::tcp_reset::reply_tcp_rst;
use eshield::dataplane::trust::sample_drop;
use eshield::dataplane::trust::sample_pass;
use eshield::dataplane::trust::trust_drop;
use eshield::dataplane::trust::trust_factor;
use eshield::dataplane::trust::trust_pass;
use eshield::dataplane::udp_flood::handle_udp_flood;
use eshield::dataplane::waf::check;
use eshield::dataplane::waf::HttpMethod;
use eshield::dataplane::waf::WafAction;
use eshield::dataplane::waf::WafRule;
use eshield::dataplane::xdp::NO_ACTION;
use eshield::dataplane::xdp::XDP_DROP;
use eshield::dataplane::xdp::XDP_PASS;
use eshield::dataplane::xdp::XDP_TX;
use eshield::prefix::IpPrefix;
use eshield::pure::checksum;
use eshield::pure::tcp_checksum;

const SYN: u8 = 0x02;
const ACK: u8 = 0x10;
const S: u64 = 1_000_000_000;

fn frame(protocol: u8, dport: u16, flags: u8, payload: &[u8]) -> Vec<u8> {
    let mut p: Vec<u8> = vec![0; 12];
    p[..6].copy_from_slice(&[1; 6]);
    p[6..12].copy_from_slice(&[2; 6]);
    p.extend_from_slice(&[0x08, 0x00]);
    let l4 = if protocol == 17 { 8 } else { 20 };
    let total = (20 + l4 + payload.len()) as u16;
    p.extend_from_slice(&[0x45, 0]);
    p.extend_from_slice(&total.to_be_bytes());
    p.extend_from_slice(&[0, 0, 0, 0, 64, protocol, 0, 0]);
    p.extend_from_slice(&[10, 0, 0, 1]);
    p.extend_from_slice(&[192, 0, 2, 1]);
    p.extend_from_slice(&40000u16.to_be_bytes());
    p.extend_from_slice(&dport.to_be_bytes());
    if protocol == 17 {
        p.extend_from_slice(&[0, 8, 0, 0]);
    } else {
        p.extend_from_slice(&100u32.to_be_bytes());
        p.extend_from_slice(&0u32.to_be_bytes());
        p.extend_from_slice(&[0x50, flags, 0x20, 0x00, 0, 0, 0, 0]);
    }
    p.extend_from_slice(payload);
    p
}

fn switches() -> RuntimeConfig {
    RuntimeConfig {
        rate_limit_enabled: 1,
        syn_proxy_enabled: 0,
        l7_scan_enabled: 1,
        ebpf_debug: 0,
        udp_flood_enabled: 1,
        icmp_flood_enabled: 1,
        geoip_enabled: 1,
        tcp_reset_on_drop: 0,
        trust_enabled: 0,
        danger_level: 0,
        packet_log_enabled: 0,
        project_enabled: 0,
        packet_log_sample_rate: 0,
    }
}

fn limits(threshold: u64) -> RateLimitConfig {
    RateLimitConfig { threshold, tick_ms: 100, decay_num: 7, decay_den: 8, block_duration_s: 60 }
}

fn tables() -> Tables {
    Tables {
        runtime: Some(switches()),
        rate: Some(limits(1_000)),
        port_rate: None,
        conn_track: None,
        secret: None,
        whitelist: Vec::new(),
        geoip: Vec::new(),
        geoip_allow: Vec::new(),
        geoip_default_drop: false,
        acl: Vec::new(),
        acl_count: 0,
        patterns: Vec::new(),
        projects: Vec::new(),
    }
}

fn env() -> Env {
    Env { now_ns: 10 * S, event_ns: 10 * S, resize_ok: true, roll: 1, draw: 0 }
}

fn client() -> IpKey {
    IpKey::from_ipv4([10, 0, 0, 1])
}

fn judge(p: &mut Vec<u8>, t: &Tables, sources: &mut SourceTable) -> (Outcome, GlobalStats) {
    let mut stats = GlobalStats::default();
    let r = try_eshield(p, t, sources, &mut PortTable::new(), &mut stats, &env());
    (r, stats)
}

fn service_80() -> ProjectPolicyKey {
    ProjectPolicyKey {
        addr: u32::from_le_bytes([192, 0, 2, 1]),
        dport: 80u16.swap_bytes(),
        protocol: 0,
    }
}

#[test]
fn octets_are_read_back_and_swapped_twice() {
    let mut v = vec![0u8; 8];
    write_be16(&mut v, 1, 0x1234);
    write_be32(&mut v, 3, 0x0102_0304);
    assert_eq!(v, vec![0, 0x12, 0x34, 1, 2, 3, 4, 0]);
    assert_eq!(read_be16(&v, 1), 0x1234);
    assert_eq!(read_be32(&v, 3), 0x0102_0304);
    assert_eq!(swap16(0x1234), 0x3412);
    assert_eq!(swap32(swap32(0x0102_0304)), 0x0102_0304);
}

#[test]
fn headers_are_read_from_a_packet() {
    let h = parse_packet(&frame(6, 443, SYN, &[])).unwrap();
    assert_eq!(h.src, client());
    assert_eq!(h.protocol, 6);
    assert_eq!((h.sport, h.dport), (40000, 443));
    assert_eq!(h.ip_hdr_len, 20);
    assert!(parse_packet(&[0; 10]).is_none());
    let mut short = frame(6, 443, SYN, &[]);
    short.truncate(40);
    assert!(parse_packet(&short).is_none());
    assert_eq!(Protocol::from(58), Protocol::IcmpV6);
    assert_eq!(Protocol::from(99), Protocol::Other(99));
}

#[test]
fn a_block_lasts_and_ends() {
    let mut s = SourceState::unknown();
    assert!(!is_blacklisted(&mut s, 5));
    add_to_blacklist(&mut s, 5, 1, 2);
    assert_eq!(block_until(5, 1), S + 5);
    assert_eq!(block_until(5, 0), 0);
    assert!(is_blacklisted(&mut s, 6));
    assert_eq!(s.block.unwrap().hit_count, 1);
    assert!(!is_blacklisted(&mut s, 2 * S));
    assert!(s.block.is_none());
}

#[test]
fn a_source_over_the_limit_is_blocked() {
    let mut s = SourceState::unknown();
    let rt = Some(switches());
    for _ in 0..3 {
        assert!(!check_rate_limit(&mut s, Some(limits(3)), rt, 7));
    }
    assert!(check_rate_limit(&mut s, Some(limits(3)), rt, 7));
    assert_eq!(s.block.unwrap().block_reason, 2);
    let mut off = SourceState::unknown();
    let quiet = Some(RuntimeConfig { rate_limit_enabled: 0, ..switches() });
    for _ in 0..9 {
        assert!(!check_rate_limit(&mut off, Some(limits(3)), quiet, 7));
    }
    let mut udp = SourceState::unknown();
    assert!(!handle_udp_flood(&mut udp, Some(limits(1)), rt, 7));
    assert!(handle_udp_flood(&mut udp, Some(limits(1)), rt, 7));
    assert_eq!(udp.block.unwrap().block_reason, 8);
    let mut echo = SourceState::unknown();
    assert!(!handle_icmp_flood(&mut echo, Some(limits(1)), rt, 7));
    assert!(handle_icmp_flood(&mut echo, Some(limits(1)), rt, 7));
    assert_eq!(echo.block.unwrap().block_reason, 9);
}

#[test]
fn reputation_moves_with_what_a_source_does() {
    let mut s = SourceState::unknown();
    trust_pass(&mut s, 1);
    let up = s.trust.unwrap();
    assert!(up.trust_score > 500);
    assert_eq!((up.pass_count, up.drop_count), (1, 0));
    trust_drop(&mut s, 2);
    let down = s.trust.unwrap();
    assert!(down.trust_score < up.trust_score);
    assert_eq!(down.drop_count, 1);
    s.trust = Some(TrustEntry { trust_score: 1000, ..TrustEntry::default() });
    trust_pass(&mut s, 3);
    assert_eq!(s.trust.unwrap().trust_score, 1000);
}

#[test]
fn reputation_scales_the_threshold() {
    let mut s = SourceState::unknown();
    assert_eq!(trust_factor(&s), 667);
    for (score, factor) in [(1000, 1000), (500, 667), (0, 333)] {
        s.trust = Some(TrustEntry { trust_score: score, ..TrustEntry::default() });
        assert_eq!(trust_factor(&s), factor);
    }
}

#[test]
fn frequent_counters_are_written_by_samples() {
    let mut s = SourceState::unknown();
    sample_pass(&mut s, 1, 63);
    assert!(s.trust.is_none());
    sample_pass(&mut s, 1, 64);
    let up = s.trust.unwrap();
    assert_eq!((up.trust_score, up.pass_count), (500 + 64 * 5, 64));
    sample_drop(&mut s, 2, 1);
    assert_eq!(s.trust.unwrap().trust_score, 820 - 273);
    s.trust = Some(TrustEntry { trust_score: 0, ..TrustEntry::default() });
    sample_drop(&mut s, 3, 1);
    assert_eq!(s.trust.unwrap().drop_count, 0);
    sample_drop(&mut s, 3, 16);
    assert_eq!(s.trust.unwrap().drop_count, 1);
    add_to_blacklist(&mut s, 5, 0, 2);
    assert!(look_up_block(&mut s, 6, 0));
    assert_eq!(s.block.unwrap().hit_count, 0);
    assert!(look_up_block(&mut s, 6, 16));
    assert_eq!(s.block.unwrap().hit_count, 16);
}

#[test]
fn half_open_connections_are_counted() {
    let mut entry = None;
    assert!(!check_conn_track(&mut entry, SYN, S, 2, 1_000));
    assert!(!check_conn_track(&mut entry, SYN, S, 2, 1_000));
    assert!(check_conn_track(&mut entry, SYN, S, 2, 1_000));
    assert!(!check_conn_track(&mut entry, ACK, S, 2, 1_000));
    let mut quiet = None;
    assert!(!check_conn_track(&mut quiet, ACK, S, 2, 1_000));
    assert!(quiet.is_none());
}

#[test]
fn a_port_is_limited_on_its_own() {
    let mut window = None;
    assert!(!check_port_rate(&mut window, Some(limits(1)), S));
    assert!(check_port_rate(&mut window, Some(limits(1)), S));
    assert!(!check_port_rate(&mut window, Some(limits(1)), 3 * S));
    assert!(!check_port_rate(&mut None, None, S));
}

#[test]
fn the_first_port_rule_that_fits_decides() {
    let rule = |port: u16, action| PortAclEntry {
        protocol: 6,
        dport_low: u16::to_be(port),
        dport_high: u16::to_be(port),
        action,
    };
    let list = vec![rule(80, 1), rule(80, 2), rule(443, 2)];
    assert!(!check_port_acl(&list, 6, 80, 3));
    assert!(check_port_acl(&list, 6, 443, 3));
    assert!(!check_port_acl(&list, 6, 443, 2));
    assert!(!check_port_acl(&list, 17, 443, 3));
}

#[test]
fn a_signature_hits_its_text() {
    let get = L7Pattern { signature: 0x0054_4547, mask: 0x00ff_ffff, length: 3, action: 2 };
    let hit = frame(6, 80, ACK, b"GET / HTTP/1.1");
    let miss = frame(6, 80, ACK, b"PUT / HTTP/1.1");
    assert!(scan(&hit, 20, 6, &vec![get]));
    assert!(!scan(&miss, 20, 6, &vec![get]));
    assert!(!scan(&hit, 20, 6, &Vec::new()));
}

#[test]
fn web_rules_judge_requests() {
    let mut p = frame(6, 80, ACK, b"GET /admin HTTP/1.1\r\nHost: a\r\n\r\n\0\0");
    let off = 54;
    let rule = |action| WafRule {
        enabled: true,
        match_method: true,
        match_path: true,
        method: HttpMethod::Get,
        path_sig: *b"/admin\0\0",
        path_mask: [0xff, 0xff, 0xff, 0xff, 0xff, 0xff, 0, 0],
        action,
    };
    let mut stats = GlobalStats::default();
    let mut events = Vec::new();
    let list = vec![rule(WafAction::Log), rule(WafAction::Drop)];
    let r = check(&p, &client(), off, &list, &mut stats, &mut events, 1);
    assert_eq!(r, Some(WafAction::Drop));
    assert_eq!(stats.waf_blocked, 1);
    p[off] = b'P';
    let r = check(&p, &client(), off, &list, &mut stats, &mut events, 1);
    assert_eq!(r, None);
    p.truncate(60);
    assert_eq!(check(&p, &client(), off, &list, &mut stats, &mut events, 1), None);
    assert_eq!(stats.waf_blocked, 1);
}

#[test]
fn a_source_that_passed_the_challenge_is_let_through_for_a_while() {
    let mut list = Allowlist { entries: vec![(client(), 10 * S)] };
    assert!(is_allowed(&list, &client(), S));
    assert!(!is_allowed(&list, &client(), 11 * S));
    assert!(!is_allowed(&list, &IpKey::from_ipv4([1, 1, 1, 1]), S));
    remove(&mut list, &client());
    assert!(list.entries.is_empty());
}

#[test]
fn a_reset_answers_the_packet() {
    let mut p = frame(6, 80, ACK, b"hello");
    let mut stats = GlobalStats::default();
    assert_eq!(reply_tcp_rst(&mut p, 20, &mut stats, true), XDP_TX);
    assert_eq!(p.len(), 54);
    assert_eq!(&p[..6], &[2; 6]);
    assert_eq!(&p[26..30], &[192, 0, 2, 1]);
    assert_eq!(&p[30..34], &[10, 0, 0, 1]);
    assert_eq!(read_be16(&p, 34), 80);
    assert_eq!(read_be16(&p, 36), 40000);
    assert_eq!(p[47] & 0x04, 0x04);
    assert_eq!(checksum(&p[14..34]), 0);
    let (s, d) = (read_be32(&p, 26), read_be32(&p, 30));
    assert_eq!(tcp_checksum(s, d, 6, &p[34..54]), 0);
    assert_eq!(stats.tcp_rst_sent, 1);
    let mut q = frame(6, 80, ACK, b"hello");
    assert_eq!(reply_tcp_rst(&mut q, 20, &mut stats, false), XDP_DROP);
    assert_eq!(stats.tcp_rst_fail, 1);
}

#[test]
fn a_cookie_frees_the_client() {
    let secret = CookieSecret { current: [7; 16], previous: [8; 16], bucket_index: 0 };
    let mut state = SourceState::unknown();
    let rt = Some(RuntimeConfig { syn_proxy_enabled: 1, ..switches() });
    let now = 10 * S;
    let mut syn = frame(6, 80, SYN, &[]);
    let r = handle_syn(&mut syn, 20, now, &mut state, Some(limits(0)), rt, Some(secret));
    assert_eq!(r, XDP_TX);
    assert!(state.challenge.is_some());
    assert_eq!(syn[47], SYN | ACK);
    assert_eq!(read_be32(&syn, 42), 101);
    assert_eq!(checksum(&syn[14..34]), 0);
    let cookie = read_be32(&syn, 38);

    let mut wrong = frame(6, 80, ACK, &[]);
    wrong[42..46].copy_from_slice(&cookie.wrapping_add(2).to_be_bytes());
    wrong[38..42].copy_from_slice(&101u32.to_be_bytes());
    assert_eq!(handle_ack(&wrong, 20, now, &mut state, Some(secret)), NO_ACTION);
    assert!(state.challenge.is_some());

    let mut ack = frame(6, 80, ACK, &[]);
    ack[42..46].copy_from_slice(&cookie.wrapping_add(1).to_be_bytes());
    ack[38..42].copy_from_slice(&101u32.to_be_bytes());
    assert_eq!(handle_ack(&ack, 20, now, &mut state, Some(secret)), XDP_PASS);
    assert!(state.challenge.is_none());
}

#[test]
fn a_plain_packet_passes_and_is_counted() {
    let mut p = frame(6, 80, ACK, b"hello");
    let before = p.clone();
    let (r, stats) = judge(&mut p, &tables(), &mut SourceTable::new());
    assert_eq!(r.action, XDP_PASS);
    assert_eq!((stats.total_packets, stats.total_passed, stats.total_dropped), (1, 1, 0));
    assert!(r.events.is_empty());
    assert_eq!(p, before);
}

#[test]
fn a_blocked_source_is_stopped_unless_it_is_trusted() {
    let mut sources = SourceTable::new();
    let mut state = SourceState::unknown();
    add_to_blacklist(&mut state, S, 60, 6);
    sources.put(&client(), state);
    let (r, stats) = judge(&mut frame(6, 80, ACK, &[]), &tables(), &mut sources);
    assert_eq!(r.action, XDP_DROP);
    assert_eq!((stats.total_dropped, stats.blacklist_blocked, stats.tcp_dropped), (1, 1, 1));
    assert!(r.events.is_empty());
    let held = sources.get(&client());
    assert_eq!((held.block.unwrap().hit_count, held.attacks), (16, Some(16)));
    let mut t = tables();
    t.runtime = Some(RuntimeConfig { project_enabled: 1, ..switches() });
    t.projects = vec![(service_80(), ProjectPolicy { flags: 0, action: 1 })];
    let (r, stats) = judge(&mut frame(6, 80, ACK, &[]), &t, &mut sources);
    assert_eq!((r.action, stats.blacklist_blocked), (XDP_DROP, 1));
    t.runtime = Some(RuntimeConfig { syn_proxy_enabled: 1, ..switches() });
    let (r, _) = judge(&mut frame(6, 80, SYN, &[]), &t, &mut sources);
    assert_eq!(r.action, XDP_DROP);
    let mut t = tables();
    t.whitelist = vec![IpPrefix { key: IpKey::from_ipv4([10, 0, 0, 0]), len: 8 }];
    let (r, _) = judge(&mut frame(6, 80, ACK, &[]), &t, &mut sources);
    assert_eq!(r.action, XDP_PASS);
}

#[test]
fn each_check_stops_what_it_is_for() {
    let mut t = tables();
    t.geoip = vec![IpPrefix { key: IpKey::from_ipv4([10, 0, 0, 0]), len: 8 }];
    let (r, stats) = judge(&mut frame(17, 53, 0, &[]), &t, &mut SourceTable::new());
    assert_eq!((r.action, stats.geoip_blocked, stats.udp_dropped), (XDP_DROP, 1, 1));

    let mut t = tables();
    t.acl = vec![PortAclEntry { protocol: 6, dport_low: 0, dport_high: 0, action: 2 }];
    t.acl_count = 1;
    let (r, _) = judge(&mut frame(6, 80, ACK, &[]), &t, &mut SourceTable::new());
    assert_eq!(r.action, XDP_DROP);
    assert_eq!(r.events[0].rule_id, 7);

    let mut t = tables();
    t.patterns = vec![L7Pattern { signature: 0x0054_4547, mask: 0x00ff_ffff, length: 3, action: 2 }];
    let (r, stats) = judge(&mut frame(6, 80, ACK, b"GET /xyzw"), &t, &mut SourceTable::new());
    assert_eq!((r.action, stats.l7_blocked), (XDP_DROP, 1));

    let mut t = tables();
    t.runtime = Some(RuntimeConfig { project_enabled: 1, ..switches() });
    t.projects = vec![(service_80(), ProjectPolicy { flags: 0, action: 2 })];
    let (r, _) = judge(&mut frame(6, 80, ACK, &[]), &t, &mut SourceTable::new());
    assert_eq!(r.action, XDP_DROP);
    assert_eq!(r.events[0].rule_id, 12);
    let (r, _) = judge(&mut frame(6, 81, ACK, &[]), &t, &mut SourceTable::new());
    assert_eq!(r.action, XDP_PASS);

    let mut t = tables();
    t.rate = Some(limits(0));
    let (r, stats) = judge(&mut frame(6, 80, ACK, &[]), &t, &mut SourceTable::new());
    assert_eq!((r.action, stats.rate_limited), (XDP_DROP, 1));
    let (r, stats) = judge(&mut frame(17, 53, 0, &[]), &t, &mut SourceTable::new());
    assert_eq!((r.action, stats.udp_flood_blocked), (XDP_DROP, 1));
}

#[test]
fn half_open_connections_and_ports_are_limited_on_the_way() {
    let mut t = tables();
    t.conn_track = Some(ConnTrackLimits { threshold: 1, window_ms: 1_000 });
    let mut sources = SourceTable::new();
    let (r, _) = judge(&mut frame(6, 80, SYN, &[]), &t, &mut sources);
    assert_eq!(r.action, XDP_PASS);
    let (r, stats) = judge(&mut frame(6, 80, SYN, &[]), &t, &mut sources);
    assert_eq!((r.action, stats.conn_track_blocked, stats.tcp_dropped), (XDP_DROP, 1, 1));
    assert_eq!(r.events[0].rule_id, 15);
    assert!(sources.get(&client()).block.is_none());

    let mut t = tables();
    t.port_rate = Some(limits(1));
    let mut sources = SourceTable::new();
    let mut ports = PortTable::new();
    let mut stats = GlobalStats::default();
    let mut go = |p: &mut Vec<u8>, stats: &mut GlobalStats| {
        try_eshield(p, &t, &mut sources, &mut ports, stats, &env()).action
    };
    assert_eq!(go(&mut frame(17, 53, 0, &[]), &mut stats), XDP_PASS);
    assert_eq!(go(&mut frame(17, 53, 0, &[]), &mut stats), XDP_DROP);
    assert_eq!(go(&mut frame(17, 54, 0, &[]), &mut stats), XDP_PASS);
    assert_eq!(go(&mut frame(6, 53, ACK, &[]), &mut stats), XDP_PASS);
    assert_eq!((stats.rate_limited, stats.udp_dropped), (1, 1));
    assert!(sources.get(&client()).block.is_none());
}

#[test]
fn an_allowed_region_passes_and_the_rest_may_be_dropped() {
    let net = |len| vec![IpPrefix { key: IpKey::from_ipv4([10, 0, 0, 0]), len }];
    let mut t = tables();
    t.geoip_default_drop = true;
    let (r, stats) = judge(&mut frame(17, 53, 0, &[]), &t, &mut SourceTable::new());
    assert_eq!((r.action, stats.geoip_blocked), (XDP_DROP, 1));
    t.geoip = net(8);
    t.geoip_allow = net(24);
    let (r, _) = judge(&mut frame(17, 53, 0, &[]), &t, &mut SourceTable::new());
    assert_eq!(r.action, XDP_PASS);
}

#[test]
fn passed_packets_are_not_sampled() {
    let mut t = tables();
    t.runtime = Some(RuntimeConfig {
        project_enabled: 1,
        packet_log_enabled: 1,
        packet_log_sample_rate: 1,
        ..switches()
    });
    t.projects = vec![(service_80(), ProjectPolicy { flags: 0, action: 1 })];
    let (r, _) = judge(&mut frame(6, 80, ACK, &[]), &t, &mut SourceTable::new());
    assert_eq!(r.action, XDP_PASS);
    assert!(r.sample.is_none());
}

#[test]
fn a_drop_can_be_answered_and_sampled() {
    let mut t = tables();
    t.rate = Some(limits(0));
    t.runtime = Some(RuntimeConfig {
        tcp_reset_on_drop: 1,
        packet_log_enabled: 1,
        packet_log_sample_rate: 1,
        ..switches()
    });
    let mut p = frame(6, 80, ACK, b"hello");
    let (r, stats) = judge(&mut p, &t, &mut SourceTable::new());
    assert_eq!(r.action, XDP_TX);
    assert_eq!((stats.tcp_rst_sent, stats.tcp_rst_attempt), (1, 1));
    let sample = r.sample.unwrap();
    assert_eq!((sample.rule_id, sample.action), (2, 0));
    assert_eq!(sample.timestamp_ns, 10 * S);
}

#[test]
fn without_settings_every_packet_passes() {
    let mut t = tables();
    t.runtime = None;
    let (r, stats) = judge(&mut frame(6, 80, SYN, &[]), &t, &mut SourceTable::new());
    assert_eq!((r.action, stats.total_packets), (XDP_PASS, 1));
}
