//! The control plane of a node: blocks, logins, logs, tables and the hub.

use eshield::common::BlockEntry;
use eshield::common::IpKey;
use eshield::common::PacketSample;
use eshield::common::TrustEntry;
use eshield::hub::models::NodePolicy;
use eshield::hub::models::RuleBundle;
use eshield::hub::models::SharedPolicy;
use eshield::hub::store::Store;
use eshield::ip::IpError;
use eshield::key_table::KeyTable;
use eshield::node::audit::audit_page;
use eshield::node::audit::list_tail;
use eshield::node::audit::log_lines;
use eshield::node::audit::max_file_size;
use eshield::node::audit::rotation;
use eshield::node::audit::rotation_due;
use eshield::node::audit::AuditAction;
use eshield::node::audit::AuditEntry;
use eshield::node::audit::AuditQuery;
use eshield::node::audit::MemoryAuditBackend;
use eshield::node::audit::TailReader;
use eshield::node::auth::sends_to_login;
use eshield::node::auth::token_text;
use eshield::node::auth::AuthState;
use eshield::node::blacklist_sync::block_reason_to_origin;
use eshield::node::blacklist_sync::BlacklistSync;
use eshield::node::config::BlockOrigin;
use eshield::node::config::Config;
use eshield::node::config::HubConfig;
use eshield::node::config::L7PatternConfig;
use eshield::node::config::PortAclItem;
use eshield::node::control::actor_name;
use eshield::node::control::ended_blocks;
use eshield::node::control::removes_row;
use eshield::node::control::restore_blocks;
use eshield::node::control::BlacklistRow;
use eshield::node::control::ControlState;
use eshield::node::control::PublishLimits;
use eshield::node::geoip::GeoIpBlock;
use eshield::node::hub_client::HubClient;
use eshield::node::ip_report::activity;
use eshield::node::ip_report::ip_series;
use eshield::node::ip_report::series_from;
use eshield::node::ip_report::series_query;
use eshield::node::ip_report::standing;
use eshield::node::login_limiter::LoginLimiter;
use eshield::node::login_limiter::TooManyAttempts;
use eshield::node::modules::protection_modules;
use eshield::node::modules::FieldValue;
use eshield::node::packet_log::PacketLog;
use eshield::node::packet_log::PacketLogQuery;
use eshield::node::snapshot::RuntimeConfigSnapshot;
use eshield::node::table_plan::plan_blacklist;
use eshield::node::table_plan::plan_regions;
use eshield::node::table_plan::plan_whitelist;
use eshield::node::table_plan::v4_nets;
use eshield::node::table_plan::v6_nets;
use eshield::node::web::body_too_large;
use eshield::node::web::hub_proxy_url;
use eshield::node::web::list_too_long;
use eshield::node::web::log_in;
use eshield::node::web::sample_limit;
use eshield::node::web::LoginOutcome;
use eshield::node::web::RuleList;

const S: u64 = 1_000_000_000;

fn host(last: u8) -> IpKey {
    IpKey::from_ipv4([10, 0, 0, last])
}

fn state() -> ControlState {
    let hub = HubConfig { node_name: "me".to_string(), ..HubConfig::default() };
    ControlState::new(&Config::default(), hub, "1")
}

fn entry(actor: &str) -> AuditEntry {
    AuditEntry {
        timestamp: "2026-01-01T00:00:00Z".to_string(),
        actor: actor.to_string(),
        action: AuditAction::BlockIp,
        detail: "{}".to_string(),
        source_ip: None,
    }
}

#[test]
fn memory_backend_keeps_last_n() {
    let mut backend = MemoryAuditBackend::new(2);
    for name in ["a", "b", "c"] {
        backend.append(entry(name));
    }
    let listed = backend.list(10);
    assert_eq!(listed.len(), 2);
    assert_eq!(listed[0].actor, "b");
    assert_eq!(listed[1].actor, "c");
}

#[test]
fn file_backend_reads_tail() {
    let mut file: Vec<u8> = Vec::new();
    for name in ["a", "b", "c", "d"] {
        file.extend_from_slice(name.as_bytes());
        file.push(b'\n');
    }
    let mut reader = TailReader::new(file.len() as u64, 2);
    let mut tail: Vec<u8> = Vec::new();
    while let Some((at, len)) = reader.next_chunk() {
        let chunk = &file[at as usize..(at + len) as usize];
        reader.take_chunk(chunk);
        let mut joined = chunk.to_vec();
        joined.extend_from_slice(&tail);
        tail = joined;
    }
    let parsed = log_lines(&tail).iter().map(|line| Some(entry(line))).collect();
    let listed = list_tail(parsed, 2);
    assert_eq!(listed.len(), 2);
    assert_eq!(listed[0].actor, "c");
    assert_eq!(listed[1].actor, "d");
}

#[test]
fn the_end_of_a_long_log_holds_its_last_lines() {
    let lines: Vec<String> = (0..5_000).map(|i| format!("line {} {}", i, "x".repeat(40))).collect();
    let file = lines.join("\n").into_bytes();
    for limit in [0, 1, 7, 2_000, 9_000] {
        let mut reader = TailReader::new(file.len() as u64, limit);
        while let Some((at, len)) = reader.next_chunk() {
            reader.take_chunk(&file[at as usize..(at + len) as usize]);
        }
        let shown = log_lines(&file[reader.pos as usize..]);
        let n = limit.min(lines.len());
        assert_eq!(shown[shown.len() - n..], lines[lines.len() - n..]);
    }
}

#[test]
fn a_long_log_is_read_from_its_end() {
    let mut reader = TailReader::new(200_000, 1);
    assert_eq!(reader.next_chunk(), Some((200_000 - 65_536, 65_536)));
    reader.take_chunk(b"x\ny\n");
    assert_eq!(reader.next_chunk(), None);
    assert_eq!(log_lines(b"a\n\n \xff\n"), vec!["a".to_string(), "\u{fffd}".to_string()]);
    assert_eq!(list_tail(vec![None, Some(entry("a")), None], 5).len(), 1);
}

#[test]
fn a_full_log_is_put_aside() {
    assert!(!rotation_due(0, Some(9)));
    assert!(!rotation_due(10, None));
    assert!(!rotation_due(10, Some(10)));
    assert!(rotation_due(10, Some(11)));
    assert_eq!(max_file_size(2), 2_097_152);
    assert_eq!(max_file_size(u64::MAX), u64::MAX);
    assert_eq!(rotation(&[true, true]), vec![(2, 3), (1, 2), (0, 1)]);
    assert_eq!(rotation(&[false, true]), vec![(2, 3), (0, 1)]);
    assert_eq!(rotation(&[false, false]), vec![(0, 1)]);
}

#[test]
fn pages_of_the_log_join() {
    let mut entries: Vec<AuditEntry> = Vec::new();
    for (i, name) in ["anna", "Bert", "anna", "carl"].iter().enumerate() {
        let mut e = entry(name);
        e.timestamp = format!("2026-01-0{}T00:00:00Z", i + 1);
        e.source_ip = Some(format!("10.0.0.{}", i));
        entries.push(e);
    }
    entries[3].action = AuditAction::Login;
    let ask = |q: AuditQuery| audit_page(&entries, &q);
    let all = AuditQuery { limit: 3, ..AuditQuery::default() };
    let (first, total) = ask(all.clone());
    assert_eq!((first.len(), total), (3, 4));
    let (second, _) = ask(AuditQuery { offset: 3, ..all.clone() });
    assert_eq!(second.len(), 1);
    assert_eq!(ask(AuditQuery { filter: Some("BERT".to_string()), ..all.clone() }).1, 1);
    assert_eq!(ask(AuditQuery { ip: Some("10.0.0.2".to_string()), ..all.clone() }).1, 1);
    assert_eq!(ask(AuditQuery { action: Some("LOGIN".to_string()), ..all.clone() }).1, 1);
    assert_eq!(ask(AuditQuery { from: Some("2026-01-03".to_string()), ..all.clone() }).1, 2);
    assert_eq!(ask(AuditQuery { to: Some("2026-01-03".to_string()), ..all }).1, 2);
    assert_eq!(AuditAction::BlockIp.name(), "block_ip");
}

#[test]
fn only_the_token_opens() {
    let auth = AuthState::new(Some("secret".to_string()));
    assert!(auth.verify("secret"));
    assert!(!auth.verify("secret "));
    assert!(!auth.verify(""));
    assert!(!AuthState::new(None).verify(""));
    assert_eq!(token_text(0xab), "000000000000000000000000000000ab");
    let mut auth = auth;
    let fresh = auth.reset_token();
    assert_eq!(fresh.len(), 32);
    assert_eq!(auth.get_token(), Some(fresh.clone()));
    assert!(auth.verify(&fresh));
    auth.set_token("other".to_string());
    assert!(auth.verify("other"));
}

#[test]
fn the_page_asks_for_the_token() {
    let auth = AuthState::new(Some("secret".to_string()));
    for path in ["/", "/api/stats", "/metrics"] {
        assert!(!auth.lets_in(path, false, None, None));
        assert!(auth.lets_in(path, true, None, None));
        assert!(auth.lets_in(path, false, Some("Bearer secret"), None));
        assert!(!auth.lets_in(path, false, Some("secret"), None));
        assert!(!auth.lets_in(path, false, Some("Bearer secrets"), None));
        assert!(auth.lets_in(path, false, None, Some("a=b; eshield-token=secret; c=d")));
        assert!(!auth.lets_in(path, false, None, Some("eshield-token=other")));
        assert!(!auth.lets_in(path, false, None, Some("x-eshield-token=secret")));
        assert!(AuthState::new(None).lets_in(path, false, None, None));
    }
    for path in ["/healthz", "/ready", "/login", "/blocked", "/api/auth/login"] {
        assert!(auth.lets_in(path, false, None, None));
    }
    assert!(sends_to_login("/", Some("text/html,x")));
    assert!(!sends_to_login("/", None));
    assert!(!sends_to_login("/api/stats", Some("text/html")));
}

#[test]
fn five_failures_lock_out() {
    let mut limiter = LoginLimiter::new();
    let ip = host(1);
    for i in 0..5 {
        assert_eq!(limiter.check(&ip, i), Ok(()));
        limiter.record_failure(&ip, i);
    }
    assert_eq!(limiter.check(&ip, 5), Err(TooManyAttempts));
    assert_eq!(limiter.check(&host(2), 5), Ok(()));
    for t in [59, 60, 61, 200, 299] {
        assert_eq!(limiter.check(&ip, t * S), Err(TooManyAttempts));
    }
    assert_eq!(limiter.check(&ip, 301 * S), Ok(()));
    limiter.record_failure(&ip, 301 * S);
    limiter.record_success(&ip);
    assert_eq!(limiter.check(&ip, 301 * S), Ok(()));
}

#[test]
fn a_login_gives_a_cookie_or_counts_against_its_source() {
    let mut limiter = LoginLimiter::default();
    let auth = AuthState::new(Some("secret".to_string()));
    match log_in(&mut limiter, &auth, &host(1), "secret", 0) {
        LoginOutcome::Accepted { cookie } => {
            assert_eq!(cookie, "eshield-token=secret; Path=/; HttpOnly; SameSite=Lax")
        }
        _ => panic!("the token opens"),
    }
    for _ in 0..5 {
        let r = log_in(&mut limiter, &auth, &host(1), "wrong", 0);
        assert!(matches!(r, LoginOutcome::Refused));
    }
    let r = log_in(&mut limiter, &auth, &host(1), "secret", 0);
    assert!(matches!(r, LoginOutcome::TooMany));
}

#[test]
fn requests_of_the_console_are_bounded() {
    assert!(!body_too_large(None));
    assert!(!body_too_large(Some("1048576")));
    assert!(body_too_large(Some("1048577")));
    assert!(!body_too_large(Some("x")));
    assert_eq!(sample_limit(5), 5);
    assert_eq!(sample_limit(5_000), 1_000);
    assert!(!list_too_long(RuleList::PortRules, 32));
    assert!(list_too_long(RuleList::PortRules, 33));
    assert!(list_too_long(RuleList::Patterns, 9));
    assert!(!list_too_long(RuleList::Projects, 256));
    assert!(list_too_long(RuleList::Projects, 257));
}

#[test]
fn requests_to_the_hub_go_through_its_address() {
    let mut hub = HubConfig::default();
    assert_eq!(hub_proxy_url(&hub, "/api/v1/nodes", None), None);
    hub.enabled = true;
    hub.token = "t".to_string();
    hub.urls = vec!["http://hub:9/".to_string()];
    assert_eq!(
        hub_proxy_url(&hub, "/api/v1/nodes", Some("limit=1")),
        Some("http://hub:9/api/v1/nodes?limit=1".to_string())
    );
}

#[test]
fn a_block_has_its_end_and_its_row() {
    let s = state();
    let plan = s.block_ip("10.0.0.1", 60, S).unwrap();
    assert_eq!(plan.key, host(1));
    assert_eq!(plan.entry.blocked_until_ns, 61 * S);
    assert_eq!(plan.entry.block_reason, 6);
    assert_eq!(plan.row.origin, BlockOrigin::Api);
    assert_eq!(plan.row.blocked_until_ns, 61 * S);
    assert_eq!(s.block_ip("10.0.0.1", 0, S).unwrap().entry.blocked_until_ns, 0);
    assert!(matches!(s.block_ip("10.0.0.0/8", 0, S), Err(IpError::HostRequired(32))));
    let feed = s.block_ip_threat_intel(&host(2), 60, S);
    assert_eq!((feed.entry.block_reason, feed.row.origin), (11, BlockOrigin::ThreatIntel));
    let own = s.block_ip_key(&host(3), 1, 5, BlockOrigin::Adaptive, S);
    assert_eq!((own.entry.block_reason, own.row.origin), (5, BlockOrigin::Adaptive));
    assert_eq!(actor_name(BlockOrigin::Api), "api");
}

#[test]
fn lists_forget_what_is_taken_out() {
    let mut s = state();
    s.blacklist = vec![host(1), host(2), host(1)];
    assert_eq!(s.unblock_ip("10.0.0.1"), Ok(host(1)));
    assert_eq!(s.blacklist, vec![host(2)]);
    s.unblock_ip_key(&host(2));
    assert!(s.blacklist.is_empty());
    assert_eq!(s.unblock_ip("x"), Err(IpError::InvalidCidr));
    let net = s.allow_cidr("10.0.0.0/24").unwrap();
    s.whitelist = vec![net];
    assert_eq!(s.disallow_cidr("10.0.0.0/24"), Ok(net));
    assert!(s.whitelist.is_empty());
}

#[test]
fn rules_of_the_hub_are_taken_over() {
    let mut s = state();
    let bundle = |protocol: &str| RuleBundle {
        port_acl: vec![PortAclItem {
            protocol: protocol.to_string(),
            dport: "22".to_string(),
            action: "drop".to_string(),
        }],
        l7_patterns: vec![L7PatternConfig { pattern: "GET".to_string(), mask: None }],
        protection_projects: Vec::new(),
        updated_at_ns: 1,
    };
    let bad = s.apply_hub_rules(bundle("gre"));
    assert!(bad.port_fault.is_some());
    assert!(bad.patterns.is_none());
    assert!(bad.projects.is_none());
    assert!(s.runtime.port_acl.is_empty());
    let good = s.apply_hub_rules(bundle("tcp"));
    assert_eq!(good.ports.len(), 1);
    assert_eq!(good.patterns.unwrap().0.len(), 1);
    assert_eq!(good.projects.unwrap().unwrap().len(), 0);
    assert_eq!(s.runtime.port_acl.len(), 1);
    assert_eq!(s.runtime.l7_scan.patterns.len(), 1);
}

fn row(until: u64, reason: u8, origin: BlockOrigin) -> BlacklistRow {
    BlacklistRow { blocked_until_ns: until, block_reason: reason, first_seen_ns: 5, origin }
}

#[test]
fn kept_blocks_come_back_after_a_start() {
    let rows = vec![
        (host(1), row(0, 6, BlockOrigin::Api)),
        (host(2), row(70 * S, 6, BlockOrigin::Api)),
        (host(3), row(5 * S, 6, BlockOrigin::Api)),
        (host(4), row(0, 1, BlockOrigin::Local)),
        (host(5), row(10 * S + S / 2, 6, BlockOrigin::Api)),
    ];
    let back = restore_blocks(&rows, 10 * S);
    let shown: Vec<(IpKey, u64)> = back.iter().map(|b| (b.0, b.1.blocked_until_ns)).collect();
    assert_eq!(shown, vec![(host(1), 0), (host(2), 70 * S), (host(5), 10 * S + S / 2)]);
    assert_eq!(ended_blocks(&rows, 10 * S), vec![host(3)]);
}

#[test]
fn a_kept_network_goes_only_with_its_own_prefix() {
    assert!(removes_row(24, 24));
    assert!(!removes_row(24, 16));
}

#[test]
fn a_node_tells_the_hub_of_its_own_blocks() {
    let s = state();
    let mut held: KeyTable<BlockEntry> = KeyTable::new();
    for i in 1..=3u8 {
        held.put(
            &host(i),
            BlockEntry { blocked_until_ns: 0, block_reason: 6, hit_count: 4, first_seen_ns: 0 },
        );
    }
    let mut trust: KeyTable<TrustEntry> = KeyTable::new();
    trust.put(&host(1), TrustEntry { trust_score: 250, ..TrustEntry::default() });
    let rows = vec![
        (host(1), row(0, 6, BlockOrigin::Api)),
        (host(2), row(0, 6, BlockOrigin::Hub)),
        (host(3), row(100 * S, 6, BlockOrigin::Adaptive)),
        (host(9), row(0, 6, BlockOrigin::Api)),
    ];
    let limits = PublishLimits { since_ns: 0, min_hits: 1, min_trust: 100, max: 10 };
    let told = s.collect_hub_publishable_policies(&rows, &held, &trust, &limits, 40 * S);
    let ips: Vec<IpKey> = told.iter().map(|p| p.ip).collect();
    assert_eq!(ips, vec![host(1), host(3)]);
    assert_eq!((told[0].trust_score, told[0].ttl_s, told[0].hit_count), (25, 0, 4));
    assert_eq!(told[1].ttl_s, 60);
    let late = s.collect_hub_publishable_policies(&rows, &held, &trust, &limits, 99 * S + 1);
    assert_eq!((late[0].ttl_s, late[1].ttl_s), (0, 1));
    let one = PublishLimits { max: 1, ..limits };
    assert_eq!(s.collect_hub_publishable_policies(&rows, &held, &trust, &one, 40 * S).len(), 1);
    let strict = PublishLimits { min_trust: 20, ..limits };
    let told = s.collect_hub_publishable_policies(&rows, &held, &trust, &strict, 40 * S);
    assert_eq!(told.len(), 1);
    assert_eq!(ControlState::lookup_trust_score(&trust, &host(1)), 25);
    assert_eq!(ControlState::lookup_trust_score(&trust, &host(2)), 0);
}

fn shared(ip: IpKey, node: &str, ttl_s: u64) -> SharedPolicy {
    SharedPolicy {
        ip,
        reason: 3,
        hit_count: 1,
        trust_score: 30,
        first_seen_ns: 0,
        last_seen_ns: 0,
        source_nodes: vec![node.to_string()],
        ttl_s,
    }
}

#[test]
fn policies_of_other_nodes_block_here() {
    let mut s = state();
    s.runtime.trust_enabled = true;
    let held: KeyTable<BlockEntry> = KeyTable::new();
    let list =
        vec![shared(host(1), "me", 60), shared(host(2), "you", 5), shared(host(3), "you", 0)];
    let blocks = s.apply_hub_policies(&list, &held, S);
    assert_eq!(blocks.len(), 2);
    assert_eq!(blocks[1].plan.entry.blocked_until_ns, 0);
    assert_eq!(blocks[0].plan.key, host(2));
    assert_eq!(blocks[0].plan.entry.blocked_until_ns, 61 * S);
    assert_eq!(blocks[0].plan.row.origin, BlockOrigin::Hub);
    assert_eq!(blocks[0].trust.unwrap().trust_score, 300);
    let rows = vec![(host(1), row(0, 6, BlockOrigin::Hub)), (host(2), row(0, 6, BlockOrigin::Api))];
    assert_eq!(s.unblock_hub_policies(&vec![host(1), host(2)], &rows), vec![host(1)]);
}

#[test]
fn a_reported_block_reaches_other_nodes() {
    let mut hub = Store::new();
    let report = NodePolicy {
        ip: host(7),
        reason: 5,
        hit_count: 9,
        trust_score: 10,
        blocked_until_ns: 0,
        ttl_s: 120,
    };
    hub.merge("you", &vec![report], 50);
    let (page, _) = hub.query_since(0, 10);
    let held: KeyTable<BlockEntry> = KeyTable::new();
    let blocks = state().apply_hub_policies(&page, &held, S);
    assert_eq!(blocks.len(), 1);
    assert_eq!(blocks[0].plan.entry.blocked_until_ns, 121 * S);
    hub.delete_policy(&host(7), 60);
    let (gone, _) = hub.query_tombstones_since(0, 10);
    let rows = vec![(host(7), blocks[0].plan.row)];
    assert_eq!(state().unblock_hub_policies(&gone, &rows), vec![host(7)]);
}

#[test]
fn a_block_is_written_once() {
    let mut sync = BlacklistSync::new();
    let held =
        |reason| BlockEntry { blocked_until_ns: 9, block_reason: reason, hit_count: 1, first_seen_ns: 0 };
    let seen = vec![(host(1), held(2)), (host(2), held(1)), (host(3), held(5))];
    let changes = sync.changed(&seen);
    assert_eq!(changes.len(), 2);
    assert_eq!(changes[0].origin, BlockOrigin::Local);
    let mut origins: KeyTable<BlockOrigin> = KeyTable::new();
    origins.put(&host(3), BlockOrigin::Hub);
    let kept = BlacklistSync::to_save(&changes, &origins);
    assert_eq!(kept.len(), 1);
    sync.saved(&kept[0]);
    assert_eq!(sync.changed(&seen).len(), 1);
    assert!(!sync.prune_due(59 * S));
    assert!(sync.prune_due(60 * S));
    assert!(!sync.prune_due(61 * S));
    assert_eq!(block_reason_to_origin(6), Some(BlockOrigin::Api));
    assert_eq!(block_reason_to_origin(1), None);
}

#[test]
fn a_plan_reaches_its_target() {
    let text = |list: &[&str]| list.iter().map(|s| s.to_string()).collect::<Vec<String>>();
    let net = |a, b, p| (IpKey::from_ipv4([10, a, b, 0]), p);
    let current = vec![net(1, 0, 16), net(2, 0, 16)];
    let plan =
        plan_whitelist(&text(&["10.2.0.0/16", "10.3.0.0/16", "10.3.0.0/16"]), &current).unwrap();
    assert_eq!(plan.remove, vec![net(1, 0, 16)]);
    assert_eq!(plan.insert, vec![net(3, 0, 16)]);
    assert_eq!(plan.next, vec![net(2, 0, 16), net(3, 0, 16)]);
    assert_eq!(plan_whitelist(&text(&["x"]), &current).err(), Some(IpError::InvalidCidr));

    let mut held: KeyTable<BlockEntry> = KeyTable::new();
    let of = |reason| BlockEntry { blocked_until_ns: 0, block_reason: reason, hit_count: 0, first_seen_ns: 0 };
    held.put(&host(1), of(1));
    held.put(&host(2), of(6));
    let plan = plan_blacklist(&text(&["10.0.0.3"]), &vec![host(1), host(2)], &held).unwrap();
    assert_eq!(plan.remove, vec![host(1)]);
    assert_eq!(plan.insert.len(), 1);
    assert_eq!(plan.insert[0].0, host(3));
    assert_eq!(plan.next, vec![host(3)]);
}

#[test]
fn regions_are_replaced_as_a_whole() {
    let v6 = IpKey::from_ipv6([0x20, 1, 0, 0, 0, 0, 0, 0, 0, 0, 0, 0, 0, 0, 0, 0]);
    let blocks = vec![
        GeoIpBlock { key: host(0), prefix: 24, reason: String::new() },
        GeoIpBlock { key: v6, prefix: 16, reason: String::new() },
    ];
    let plan = plan_regions(true, &blocks, vec![(host(9), 32)]);
    assert_eq!(plan.remove, vec![(host(9), 32)]);
    assert_eq!(plan.next.len(), 2);
    assert_eq!(v4_nets(&plan.insert).len(), 1);
    assert_eq!(v4_nets(&plan.insert)[0].1, 24);
    assert_eq!(v6_nets(&plan.insert), vec![(v6.addr, 16)]);
    assert!(plan_regions(false, &blocks, plan.next).insert.is_empty());
}

fn sample(last: u8, at: u64, dst_port: u16, action: u8) -> PacketSample {
    PacketSample {
        timestamp_ns: at,
        src_ip: host(last).addr,
        dst_ip: host(200).addr,
        src_port: 1000,
        dst_port,
        rule_id: 2,
        packet_len: 60,
        family: 4,
        protocol: 6,
        action,
        payload_bytes: 2,
        payload_sample: [0xab; 64],
    }
}

#[test]
fn the_packet_log_shows_what_is_asked_for() {
    let mut log = PacketLog::new(3);
    for i in 1..=4u8 {
        log.push(sample(i, i as u64, 80 + i as u16, 1));
    }
    let all = PacketLogQuery { limit: 10, ..PacketLogQuery::default() };
    let shown = log.query(&all);
    let ips: Vec<&str> = shown.iter().map(|e| e.src_ip.as_str()).collect();
    assert_eq!(ips, vec!["10.0.0.4", "10.0.0.3", "10.0.0.2"]);
    assert_eq!(shown[0].payload_hex, "abab");
    assert_eq!(log.latest(1).len(), 1);
    let by = |q: PacketLogQuery| log.query(&q).len();
    assert_eq!(by(PacketLogQuery { ip: Some("0.0.3".to_string()), ..all.clone() }), 1);
    assert_eq!(by(PacketLogQuery { port: Some(84), ..all.clone() }), 1);
    assert_eq!(by(PacketLogQuery { protocol: Some(17), ..all.clone() }), 0);
    assert_eq!(by(PacketLogQuery { action: Some(2), ..all.clone() }), 0);
    assert_eq!(by(PacketLogQuery { rule: Some(2), ..all.clone() }), 3);
    assert_eq!(by(PacketLogQuery { from_ns: Some(3), ..all.clone() }), 2);
    assert_eq!(by(PacketLogQuery { to_ns: Some(3), ..all.clone() }), 2);
    assert_eq!(by(PacketLogQuery { limit: 2, ..all }), 2);
}

#[test]
fn the_report_of_a_source_counts_its_samples() {
    let mut log = PacketLog::new(10);
    log.push(sample(1, 30 * S, 80, 0));
    log.push(sample(1, 90 * S, 80, 0));
    log.push(sample(1, 95 * S, 443, 1));
    let from = series_from(60, 100 * S);
    assert_eq!(from, 40 * S);
    let recent = log.query(&series_query("10.0.0.1", Some(from), 10));
    assert_eq!(recent.len(), 2);
    let all = log.query(&series_query("10.0.0.1", None, 10));
    let a = activity(&all);
    assert_eq!((a.drop_count, a.pass_count), (2, 1));
    assert_eq!(a.top_ports[0], (80, 2));
    let points = ip_series(&recent, from, 100 * S, 1_000 * S);
    assert_eq!(points.len(), 2);
    assert_eq!(points.iter().filter_map(|p| p.drop_count).sum::<u64>(), 1);
    assert_eq!(points.iter().filter_map(|p| p.pass_count).sum::<u64>(), 1);
    assert_eq!(standing(None), (50, 0));
    let known = TrustEntry { trust_score: 800, level: 1, ..TrustEntry::default() };
    assert_eq!(standing(Some(known)), (80, 1));
}

#[test]
fn modules_show_the_settings() {
    let mut rt = RuntimeConfigSnapshot::default();
    rt.rate_limit.threshold = 42;
    rt.udp_flood_enabled = true;
    let list = protection_modules(&rt);
    let udp = list.iter().find(|m| m.id == "udp_flood").unwrap();
    assert!(udp.enabled);
    let limit = list.iter().find(|m| m.id == "rate_limit").unwrap();
    let threshold = limit.editable_fields.iter().find(|f| f.id == "threshold").unwrap();
    assert_eq!(threshold.value, FieldValue::Number(42));
}

#[test]
fn every_hub_is_tried() {
    let mut client = HubClient::new(HubConfig {
        urls: vec!["http://a/".to_string(), "http://b".to_string()],
        token: "t".to_string(),
        ..HubConfig::default()
    });
    assert_eq!(client.auth_header(), "Bearer t");
    let mut tries = client.start();
    assert_eq!(client.next_target(&mut tries, "/x"), Some("http://a/x".to_string()));
    client.rotate_hub_url();
    assert_eq!(client.next_target(&mut tries, "/x"), Some("http://b/x".to_string()));
    client.rotate_hub_url();
    assert_eq!(client.next_target(&mut tries, "/x"), None);
    assert_eq!(client.active_hub_url(), "http://a");
    client.mark_connected();
    assert!(client.connected);
}

#[test]
fn the_place_in_the_hubs_pages_moves_on() {
    let mut client = HubClient::new(HubConfig::default());
    client.pulled("17");
    assert!(client.pull_path().starts_with("/api/v1/policies?since=17"));
    client.pulled("x");
    assert!(client.pull_path().starts_with("/api/v1/policies?since=17"));
    client.pulled_deleted("18");
    assert!(client.deleted_path().starts_with("/api/v1/policies/deleted?since=18"));
    client.pushed(19);
    assert_eq!(client.last_push_ns, 19);
    let bundle = RuleBundle {
        port_acl: Vec::new(),
        l7_patterns: Vec::new(),
        protection_projects: Vec::new(),
        updated_at_ns: 5,
    };
    assert!(client.rules_are_new(&bundle));
    client.rules_applied(5);
    assert!(!client.rules_are_new(&bundle));
}
