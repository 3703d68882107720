//! The configuration: port rules, validation, snapshots and patches.

use eshield::node::config::ConnTrackConfig;
use eshield::node::snapshot::conn_track_limits;
use eshield::node::snapshot::port_limits;
use eshield::common::ProjectPolicyKey;
use eshield::dataplane::pipeline::find_policy;
use eshield::ip::IpError;
use eshield::node::config::Config;
use eshield::node::config::L7PatternConfig;
use eshield::node::config::PortAclItem;
use eshield::node::config::ProtectionProject;
use eshield::node::config::ThreatFeed;
use eshield::node::port_rule::PortRuleError;
use eshield::node::projects::project_policies;
use eshield::node::projects::ProjectsError;
use eshield::node::records::l7_records;
use eshield::node::records::port_records;
use eshield::node::records::to_pattern;
use eshield::node::records::RecordError;
use eshield::node::snapshot::rate_limits;
use eshield::node::snapshot::RateLimitParams;
use eshield::node::snapshot::RuntimeConfigPatch;
use eshield::node::snapshot::RuntimeConfigSnapshot;
use eshield::node::startup::console_token;
use eshield::node::startup::web_bind;
use eshield::node::validate::ConfigError;

fn port_rule(protocol: &str, dport: &str, action: &str) -> PortAclItem {
    PortAclItem {
        protocol: protocol.to_string(),
        dport: dport.to_string(),
        action: action.to_string(),
    }
}

fn pattern(text: &str, mask: Option<&str>) -> L7PatternConfig {
    L7PatternConfig { pattern: text.to_string(), mask: mask.map(|m| m.to_string()) }
}

fn feed() -> ThreatFeed {
    ThreatFeed {
        name: "list".to_string(),
        url: "http://list".to_string(),
        interval_s: 60,
        confidence: 80,
        category: None,
        action: "drop".to_string(),
    }
}

fn project() -> ProtectionProject {
    ProtectionProject {
        name: "web".to_string(),
        description: String::new(),
        protocol: "tcp".to_string(),
        dport: "443".to_string(),
        target_ips: vec!["192.0.2.1".to_string()],
        enabled_modules: vec!["syn_flood".to_string()],
        action: "Defend".to_string(),
    }
}

fn good() -> Config {
    Config { interface: "lo".to_string(), web_port: 8080, ..Config::default() }
}

fn fault(change: fn(&mut Config)) -> ConfigError {
    let mut c = good();
    change(&mut c);
    c.validate(true, true).unwrap_err()
}

#[test]
fn test_port_acl_item_to_entry() {
    let item = PortAclItem {
        protocol: "tcp".to_string(),
        dport: "80".to_string(),
        action: "drop".to_string(),
    };
    let entry = item.to_entry().unwrap();
    assert_eq!(entry.protocol, 6);
    // Ports are kept in the order of the wire.
    assert_eq!(entry.dport_low, u16::to_be(80));
    assert_eq!(entry.dport_high, u16::to_be(80));
    assert_eq!(entry.action, 2);
}

#[test]
fn test_port_acl_item_range_to_entry() {
    let item = PortAclItem {
        protocol: "udp".to_string(),
        dport: "1000-2000".to_string(),
        action: "allow".to_string(),
    };
    let entry = item.to_entry().unwrap();
    assert_eq!(entry.protocol, 17);
    assert_eq!(entry.dport_low, u16::to_be(1000));
    assert_eq!(entry.dport_high, u16::to_be(2000));
    assert_eq!(entry.action, 1);
}

#[test]
fn test_port_acl_item_any_to_entry() {
    let item = PortAclItem {
        protocol: "any".to_string(),
        dport: "any".to_string(),
        action: "drop".to_string(),
    };
    let entry = item.to_entry().unwrap();
    assert_eq!(entry.protocol, 0);
    assert_eq!(entry.dport_low, 0);
    assert_eq!(entry.dport_high, 0);
    assert_eq!(entry.action, 2);
}

#[test]
fn each_fault_of_a_port_rule_is_told_apart() {
    let fault = |p, d, a| port_rule(p, d, a).to_entry().err();
    assert_eq!(fault("sctp", "80", "drop"), Some(PortRuleError::Protocol));
    assert_eq!(fault("tcp", "80", "reject"), Some(PortRuleError::Action));
    assert_eq!(fault("tcp", "x-80", "drop"), Some(PortRuleError::DportLow));
    assert_eq!(fault("tcp", "80-65536", "drop"), Some(PortRuleError::DportHigh));
    assert_eq!(fault("tcp", "80-79", "drop"), Some(PortRuleError::Range));
    assert_eq!(fault("tcp", "http", "drop"), Some(PortRuleError::Dport));
    assert_eq!(port_rule("TCP", "80", "DROP").to_entry().unwrap().protocol, 6);
}

#[test]
fn test_runtime_snapshot_from_config_preserves_ebpf_debug() {
    let mut config = Config {
        interface: "lo".to_string(),
        ebpf_log_enabled: true,
        ..Config::default()
    };
    config.rate_limit.enabled = true;
    config.rate_limit.threshold = 100;

    let snapshot = RuntimeConfigSnapshot::from_config(&config, "0.5.0");
    assert!(snapshot.ebpf_debug_enabled);
    assert!(snapshot.rate_limit_enabled);
    assert_eq!(snapshot.rate_limit.threshold, 100);
    assert_eq!(snapshot.version, "0.5.0");
}

#[test]
fn a_plain_configuration_is_accepted() {
    assert_eq!(good().validate(true, true), Ok(()));
    let mut c = good();
    c.whitelist.push("10.0.0.0/8".to_string());
    c.blacklist.push("192.0.2.7".to_string());
    c.port_acl.push(port_rule("tcp", "22", "allow"));
    c.l7_scan.patterns.push(pattern("GET /a", None));
    c.threat_intel.enabled = true;
    c.threat_intel.feeds.push(feed());
    c.protection_projects.push(project());
    assert_eq!(c.validate(true, true), Ok(()));
    let hosts = c.parse_blacklist().unwrap();
    assert_eq!(hosts.len(), 1);
    assert_eq!(hosts[0].ipv4(), 0xc000_0207);
}

#[test]
fn faults_of_the_host_are_told_apart() {
    assert_eq!(fault(|c| c.interface = String::new()), ConfigError::InterfaceEmpty);
    assert_eq!(good().validate(false, true), Err(ConfigError::InterfaceMissing));
    assert_eq!(good().validate(true, false), Err(ConfigError::StoreDirectory));
    assert_eq!(fault(|c| c.web_port = 0), ConfigError::WebPort);
    assert_eq!(
        fault(|c| c.whitelist.push("10.0.0.1".to_string())),
        ConfigError::Whitelist(0, IpError::InvalidCidr)
    );
    assert_eq!(
        fault(|c| c.blacklist.push("10.0.0.0/8".to_string())),
        ConfigError::Blacklist(0, IpError::HostRequired(32))
    );
}

#[test]
fn faults_of_the_limits_are_told_apart() {
    assert_eq!(
        fault(|c| { c.rate_limit.enabled = true; c.rate_limit.threshold = 0 }),
        ConfigError::RateThreshold
    );
    assert_eq!(
        fault(|c| { c.rate_limit.enabled = true; c.rate_limit.tick_ms = 0 }),
        ConfigError::RateTick
    );
    assert_eq!(
        fault(|c| { c.rate_limit.enabled = true; c.rate_limit.decay_den = 0 }),
        ConfigError::RateDecayDen
    );
    assert_eq!(
        fault(|c| { c.port_rate_limit.enabled = true; c.port_rate_limit.threshold = 0 }),
        ConfigError::PortRateThreshold
    );
    assert_eq!(
        fault(|c| { c.port_rate_limit.enabled = true; c.port_rate_limit.tick_ms = 0 }),
        ConfigError::PortRateTick
    );
    assert_eq!(
        fault(|c| { c.port_rate_limit.enabled = true; c.port_rate_limit.decay_den = 0 }),
        ConfigError::PortRateDecayDen
    );
    assert_eq!(
        fault(|c| { c.adaptive.enabled = true; c.adaptive.threshold = 0 }),
        ConfigError::AdaptiveThreshold
    );
    assert_eq!(
        fault(|c| { c.conn_track.enabled = true; c.conn_track.threshold = 0 }),
        ConfigError::ConnTrackThreshold
    );
    assert_eq!(
        fault(|c| { c.conn_track.enabled = true; c.conn_track.window_ms = 0 }),
        ConfigError::ConnTrackWindow
    );
}

#[test]
fn faults_of_the_filters_are_told_apart() {
    assert_eq!(
        fault(|c| c.port_acl = vec![port_rule("tcp", "80", "drop"); 33]),
        ConfigError::TooManyPortRules
    );
    assert_eq!(
        fault(|c| c.port_acl.push(port_rule("tcp", "80", "reject"))),
        ConfigError::PortRule(0, PortRuleError::Action)
    );
    assert_eq!(
        fault(|c| c.l7_scan.patterns = vec![pattern("a", None); 9]),
        ConfigError::TooManyPatterns
    );
    assert_eq!(fault(|c| c.l7_scan.patterns.push(pattern("", None))), ConfigError::PatternEmpty(0));
    assert_eq!(
        fault(|c| c.l7_scan.patterns.push(pattern("GET /abcd", None))),
        ConfigError::PatternTooLong(0)
    );
    assert_eq!(
        fault(|c| c.l7_scan.patterns.push(pattern("GET", Some("ab")))),
        ConfigError::PatternMask(0)
    );
}

#[test]
fn faults_of_regions_and_feeds_are_told_apart() {
    assert_eq!(
        fault(|c| { c.geoip.enabled = true; c.geoip.default_action = "deny".to_string() }),
        ConfigError::GeoIpAction
    );
    assert_eq!(
        fault(|c| {
            c.geoip.enabled = true;
            c.geoip.default_action = "pass".to_string();
            c.geoip.block_countries.push("CHN".to_string())
        }),
        ConfigError::BlockCountry(0)
    );
    assert_eq!(
        fault(|c| {
            c.geoip.enabled = true;
            c.geoip.default_action = "drop".to_string();
            c.geoip.allow_countries.push("U".to_string())
        }),
        ConfigError::AllowCountry(0)
    );
    let with = |change: fn(&mut ThreatFeed)| {
        let mut f = feed();
        change(&mut f);
        let mut c = good();
        c.threat_intel.enabled = true;
        c.threat_intel.feeds.push(f);
        c.validate(true, true).unwrap_err()
    };
    assert_eq!(with(|f| f.name = String::new()), ConfigError::FeedName(0));
    assert_eq!(with(|f| f.url = String::new()), ConfigError::FeedUrl(0));
    assert_eq!(with(|f| f.interval_s = 0), ConfigError::FeedInterval(0));
    assert_eq!(with(|f| f.confidence = 101), ConfigError::FeedConfidence(0));
    assert_eq!(with(|f| f.action = "log".to_string()), ConfigError::FeedAction(0));
}

#[test]
fn faults_of_projects_are_told_apart() {
    let with = |change: fn(&mut ProtectionProject)| {
        let mut p = project();
        change(&mut p);
        let mut c = good();
        c.protection_projects.push(p);
        c.validate(true, true).unwrap_err()
    };
    assert_eq!(with(|p| p.name = String::new()), ConfigError::ProjectName(0));
    assert_eq!(with(|p| p.protocol = "gre".to_string()), ConfigError::ProjectProtocol(0));
    assert_eq!(with(|p| p.dport = String::new()), ConfigError::ProjectDportEmpty(0));
    assert_eq!(with(|p| p.dport = "1-2".to_string()), ConfigError::ProjectDport(0));
    assert_eq!(with(|p| p.action = "log".to_string()), ConfigError::ProjectAction(0));
    assert_eq!(
        with(|p| p.enabled_modules.push("dns".to_string())),
        ConfigError::ProjectModule(0, 1)
    );
    assert_eq!(with(|p| p.target_ips = Vec::new()), ConfigError::ProjectNoTarget(0));
    assert_eq!(
        with(|p| p.target_ips.push("host".to_string())),
        ConfigError::ProjectTarget(0, 1, IpError::InvalidCidr)
    );
    assert_eq!(
        with(|p| p.target_ips.push("10.0.0.0/23".to_string())),
        ConfigError::ProjectTargetTooBroad(0, 1)
    );
    assert_eq!(
        with(|p| p.target_ips = vec!["2001:db8::1".to_string()]),
        ConfigError::ProjectNoIpv4Target(0)
    );
}

#[test]
fn faults_of_the_hub_are_told_apart() {
    let with = |change: fn(&mut Config)| {
        let mut c = good();
        c.hub.enabled = true;
        c.hub.node_name = "n".to_string();
        c.hub.urls = vec!["http://hub".to_string()];
        c.hub.token = "t".to_string();
        c.hub.sync_pull_interval_s = 1;
        c.hub.sync_push_interval_s = 1;
        c.hub.push_min_hit_count = 1;
        c.hub.sync_rules_interval_s = 1;
        change(&mut c);
        c.validate(true, true)
    };
    assert_eq!(with(|_| {}), Ok(()));
    assert_eq!(with(|c| c.hub.node_name = String::new()), Err(ConfigError::HubNodeName));
    assert_eq!(with(|c| c.hub.urls = Vec::new()), Err(ConfigError::HubNoUrls));
    assert_eq!(with(|c| c.hub.token = String::new()), Err(ConfigError::HubToken));
    assert_eq!(with(|c| c.hub.urls.push(String::new())), Err(ConfigError::HubUrlEmpty(1)));
    assert_eq!(with(|c| c.hub.urls.push("ftp://h".to_string())), Err(ConfigError::HubUrlScheme(1)));
    assert_eq!(with(|c| c.hub.sync_pull_interval_s = 0), Err(ConfigError::HubPullInterval));
    assert_eq!(with(|c| c.hub.sync_push_interval_s = 0), Err(ConfigError::HubPushInterval));
    assert_eq!(with(|c| c.hub.push_min_hit_count = 0), Err(ConfigError::HubMinHitCount));
    assert_eq!(with(|c| c.hub.sync_rules_interval_s = 0), Err(ConfigError::HubRulesInterval));
}

#[test]
fn records_hold_what_the_lists_say() {
    let p = to_pattern(&pattern("GET", None), 0).unwrap();
    assert_eq!(p.signature, 0x0054_4547);
    assert_eq!(p.mask, 0x00ff_ffff);
    assert_eq!(p.length, 3);
    assert_eq!(to_pattern(&pattern("123456789", None), 2), Err(RecordError::PatternTooLong(2)));
    assert_eq!(to_pattern(&pattern("abc", Some("a")), 1), Err(RecordError::MaskLength(1)));

    let (records, fault) = l7_records(&vec![pattern("a", None), pattern("bb", None)]);
    assert_eq!(records.len(), 2);
    assert_eq!(fault, None);
    let (records, fault) = l7_records(&vec![pattern("a", None); 8]);
    assert_eq!((records.len(), fault), (8, None));
    let (records, fault) = l7_records(&vec![pattern("a", None); 9]);
    assert_eq!((records.len(), fault), (8, Some(RecordError::TooManyPatterns)));

    let (ports, fault) = port_records(&vec![port_rule("tcp", "80", "drop"), port_rule("x", "1", "drop")]);
    assert_eq!(ports.len(), 1);
    assert_eq!(fault, Some(RecordError::PortRule(1, PortRuleError::Protocol)));
    let (_, fault) = port_records(&vec![port_rule("tcp", "80", "drop"); 33]);
    assert_eq!(fault, Some(RecordError::TooManyPortRules));
}

#[test]
fn limits_are_handed_on_where_they_are_on() {
    let mut c = good();
    c.port_rate_limit.enabled = false;
    c.conn_track.enabled = false;
    assert_eq!(port_limits(&c), None);
    assert_eq!(conn_track_limits(&c), None);
    c.port_rate_limit.enabled = true;
    c.port_rate_limit.threshold = 9;
    c.conn_track = ConnTrackConfig { enabled: true, threshold: 20, window_ms: 10_000 };
    assert_eq!(port_limits(&c).unwrap().threshold, 9);
    let limits = conn_track_limits(&c).unwrap();
    assert_eq!((limits.threshold, limits.window_ms), (20, 10_000));
}

#[test]
fn a_patch_changes_what_it_names_and_nothing_else() {
    let mut c = good();
    c.rate_limit.enabled = true;
    let mut snapshot = RuntimeConfigSnapshot::from_config(&c, "1");
    snapshot.danger_level = 2;
    let before = snapshot.switches();
    assert_eq!(before.danger_level, 0);

    let plan = snapshot.patch_runtime(&RuntimeConfigPatch::default());
    assert_eq!(plan.config, before);
    assert_eq!(plan.rate_limit, None);

    let patch = RuntimeConfigPatch {
        udp_flood_enabled: Some(!snapshot.udp_flood_enabled),
        rate_limit: Some(RateLimitParams {
            enabled: true,
            threshold: 7,
            tick_ms: 8,
            decay_num: 1,
            decay_den: 2,
            block_duration_s: 9,
        }),
        ..RuntimeConfigPatch::default()
    };
    let first = snapshot.patch_runtime(&patch);
    assert_eq!(first.config.udp_flood_enabled, 1 - before.udp_flood_enabled);
    assert_eq!(first.config.icmp_flood_enabled, before.icmp_flood_enabled);
    assert_eq!(first.rate_limit.unwrap().threshold, 7);
    assert_eq!(snapshot.rate_limit.block_duration_s, 9);
    assert_eq!(first.config.project_enabled, 0);
    snapshot.protection_projects.push(project());
    assert_eq!(snapshot.switches().project_enabled, 1);
    snapshot.protection_projects.clear();
    let again = snapshot.patch_runtime(&patch);
    assert_eq!(again.config, first.config);
    assert_eq!(again.rate_limit, first.rate_limit);
}

#[test]
fn limits_of_the_configuration_reach_the_packet_path() {
    let mut c = good();
    c.rate_limit.threshold = 11;
    c.rate_limit.block_duration_s = 12;
    let r = rate_limits(&c);
    assert_eq!(r.threshold, 11);
    assert_eq!(r.block_duration_s, 12);
}

#[test]
fn the_console_listens_where_it_is_told() {
    let mut c = good();
    assert_eq!(web_bind(&c), "0.0.0.0:8080");
    c.web_bind = Some("127.0.0.1:9000".to_string());
    assert_eq!(web_bind(&c), "127.0.0.1:9000");
    c.api_token = Some("secret".to_string());
    assert_eq!(console_token(&c), "secret");
    c.api_token = None;
    let token = console_token(&c);
    assert_eq!(token.len(), 32);
    assert_ne!(token, console_token(&c));
}

fn wire(octets: [u8; 4]) -> u32 {
    u32::from_le_bytes(octets)
}

#[test]
fn a_service_is_protected_at_each_of_its_addresses() {
    let mut web = project();
    web.target_ips = vec![
        "192.0.2.1".to_string(),
        "198.51.100.4/30".to_string(),
        "2001:db8::1".to_string(),
    ];
    web.enabled_modules = vec!["udp_flood".to_string(), "port_acl".to_string()];
    let mut dns = project();
    dns.protocol = "any".to_string();
    dns.dport = "any".to_string();
    dns.action = "drop".to_string();
    dns.target_ips = vec!["192.0.2.2".to_string()];
    let table = project_policies(&vec![web.clone(), dns]).unwrap();
    assert_eq!(table.len(), 6);
    let at = |octets, dport: u16, protocol| {
        find_policy(
            &table,
            &ProjectPolicyKey { addr: wire(octets), dport: dport.swap_bytes(), protocol },
        )
    };
    let policy = at([198, 51, 100, 7], 443, 6).unwrap();
    assert_eq!((policy.flags, policy.action), (2 + 256, 3));
    assert!(at([198, 51, 100, 8], 443, 6).is_none());
    assert!(at([192, 0, 2, 1], 80, 6).is_none());
    assert_eq!(at([192, 0, 2, 2], 0, 0).unwrap().action, 2);

    let mut open = web.clone();
    open.action = "PASS".to_string();
    open.target_ips = vec!["192.0.2.1".to_string()];
    let table = project_policies(&vec![web, open]).unwrap();
    let key = ProjectPolicyKey {
        addr: wire([192, 0, 2, 1]),
        dport: 443u16.swap_bytes(),
        protocol: 6,
    };
    assert_eq!(find_policy(&table, &key).unwrap().action, 1);
    assert_eq!(table.len(), 5);
}

#[test]
fn services_that_do_not_fit_are_refused() {
    let mut broad = project();
    broad.target_ips = (0..33).map(|i| format!("10.0.{}.0/24", i)).collect();
    assert_eq!(project_policies(&vec![broad.clone()]).err(), Some(ProjectsError::TooMany));
    broad.target_ips.pop();
    assert_eq!(project_policies(&vec![broad.clone()]).unwrap().len(), 8192);
    broad.name = String::new();
    assert_eq!(
        project_policies(&vec![broad]).err(),
        Some(ProjectsError::Invalid(ConfigError::ProjectName(0)))
    );
}
