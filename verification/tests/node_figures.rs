//! The figures of a node: counters, time series, events, alerts and reports.

use eshield::common::DropEvent;
use eshield::common::GlobalStats;
use eshield::common::IpKey;
use eshield::common::RuntimeConfig;
use eshield::common::TrustEntry;
use eshield::node::adaptive::AdaptiveEngine;
use eshield::node::alert::AlertConfig;
use eshield::node::alert::AlertManager;
use eshield::node::alert::AlertPayload;
use eshield::node::attackers::top_attackers;
use eshield::node::attackers::Attacker;
use eshield::node::config::AdaptiveConfig;
use eshield::node::danger::danger_level;
use eshield::node::danger::read_cpu_times;
use eshield::node::danger::read_memory;
use eshield::node::danger::CpuMeter;
use eshield::node::danger::DangerState;
use eshield::node::events::consume;
use eshield::node::ip_report::attack_report;
use eshield::node::ip_report::attacker_series;
use eshield::node::ip_report::rule_name;
use eshield::node::report::metrics_text;
use eshield::node::report::stats_snapshot;
use eshield::node::report::MapInfo;
use eshield::node::startup::DropMeter;
use eshield::node::status::status_text;
use eshield::node::status::StatusFigures;
use eshield::node::stats::Stats;
use eshield::node::sync::drop_future_points;
use eshield::node::sync::retention_start;
use eshield::node::sync::rotate_with;
use eshield::node::sync::rotate_cookie_secrets;
use eshield::node::sync::first_cookie_secret;
use eshield::node::sync::first_with;
use eshield::node::sync::sync_top_attackers;
use eshield::node::sync::sync_trust_scores;
use eshield::node::sync::with_danger_level;
use eshield::node::sync::GlobalSync;
use eshield::node::timeseries::MetricPoint;
use eshield::node::timeseries::TimeSeriesWindow;
use eshield::node::tui::attacker_rows;
use eshield::node::tui::figures_text;
use eshield::node::tui::StatsSnapshot;
use std::collections::HashMap;

fn event(port: u16) -> DropEvent {
    DropEvent {
        timestamp_ns: 1,
        src_ip: [0u8; 16],
        family: 4,
        protocol: 6,
        rule_id: 1,
        dst_port: port,
    }
}

#[test]
fn test_add_dropped_batch_aggregates_ports() {
    let mut stats = Stats::default();
    let mut by_port = HashMap::new();
    by_port.insert(443, 5);
    by_port.insert(80, 3);

    stats.add_dropped_batch(&by_port);

    assert_eq!(*stats.port_dropped.get(&443).unwrap(), 5);
    assert_eq!(*stats.port_dropped.get(&80).unwrap(), 3);

    stats.add_dropped_batch(&by_port);
    assert_eq!(*stats.port_dropped.get(&443).unwrap(), 10);
}

#[test]
fn test_add_dropped_batch_empty_is_noop() {
    let mut stats = Stats::default();
    stats.add_dropped_batch(&HashMap::new());
    assert!(stats.port_dropped.is_empty());
}

#[test]
fn test_push_attack_events_batches() {
    let mut stats = Stats::default();
    stats.push_attack_events(&[event(80), event(443)]);
    let events = stats.attack_events(10);
    assert_eq!(events.len(), 2);
    assert_eq!(events[0].dst_port, 443);
    assert_eq!(events[1].dst_port, 80);
}

#[test]
fn only_the_latest_attacks_are_kept() {
    let mut stats = Stats::default();
    let many: Vec<DropEvent> = (0..1005u16).map(event).collect();
    stats.push_attack_events(&many);
    let events = stats.attack_events(2000);
    assert_eq!(events.len(), 1000);
    assert_eq!(events[0].dst_port, 1004);
    assert_eq!(events[999].dst_port, 5);
}

#[test]
fn times_are_counted_by_class() {
    let mut stats = Stats::default();
    for us in [1, 1_000, 1_001, 1_000_000] {
        stats.record_process_time_us(us);
    }
    assert_eq!(stats.process_hist, [2, 1, 0, 0, 0, 1]);
}

fn make_stats(total_packets: u64, total_dropped: u64, total_passed: u64) -> Stats {
    Stats { total_packets, total_dropped, total_passed, ..Stats::default() }
}

#[test]
fn test_window_records_and_snapshots() {
    let mut window = TimeSeriesWindow::new(10, 10);
    let stats = make_stats(100, 10, 90);
    window.record(&stats, 1_000);
    assert_eq!(window.snapshot(0, 1_000).len(), 1);
}

#[test]
fn test_window_drops_oldest_when_full() {
    let mut window = TimeSeriesWindow::new(2, 10);
    window.record(&make_stats(10, 1, 9), 1_000);
    // Each second has one point.
    window.record(&make_stats(20, 2, 18), 1_001);
    window.record(&make_stats(30, 3, 27), 1_002);

    let snap = window.snapshot(0, 1_002);
    assert_eq!(snap.len(), 2);
    assert_eq!(snap[0].total_packets, 20);
    assert_eq!(snap[1].total_packets, 30);
    assert_eq!(snap[1].dps, Some(1));
    assert_eq!(snap[1].pps, Some(9));
    assert!(snap[1].has_data);
}

#[test]
fn a_second_has_one_point_and_old_points_are_left_out() {
    let mut window = TimeSeriesWindow::new(5, 10);
    window.record(&make_stats(10, 1, 9), 1_000);
    window.record(&make_stats(99, 9, 90), 1_000);
    assert_eq!(window.snapshot(0, 1_000).len(), 1);
    assert_eq!(window.snapshot(0, 1_000)[0].total_packets, 10);
    assert_eq!(window.snapshot(0, 1_000)[0].dps, None);
    window.record(&make_stats(20, 5, 15), 1_010);
    assert_eq!(window.snapshot(5, 1_010).len(), 1);
    assert_eq!(window.snapshot(10, 1_010).len(), 2);
}

#[test]
fn loaded_points_are_shown() {
    let mut window = TimeSeriesWindow::new(2, 10);
    let points: Vec<MetricPoint> = (1..=3)
        .map(|t| MetricPoint { timestamp: t, ..MetricPoint::default() })
        .collect();
    window.load(points);
    let shown: Vec<u64> = window.snapshot(0, 3).iter().map(|p| p.timestamp).collect();
    assert_eq!(shown, vec![2, 3]);
    let mut none = TimeSeriesWindow::new(0, 10);
    none.load(vec![MetricPoint { timestamp: 7, ..MetricPoint::default() }]);
    assert_eq!((none.slots.len(), none.head_timestamp), (0, 0));
}

#[test]
fn points_from_the_future_are_dropped() {
    let points: Vec<MetricPoint> = [1, 9, 5]
        .iter()
        .map(|&t| MetricPoint { timestamp: t, ..MetricPoint::default() })
        .collect();
    let kept: Vec<u64> = drop_future_points(points, 5).iter().map(|p| p.timestamp).collect();
    assert_eq!(kept, vec![1, 5]);
    assert_eq!(retention_start(1_000_000, 1), 1_000_000 - 86_400);
    assert_eq!(retention_start(10, 1), 0);
}

fn engine(enabled: bool) -> AdaptiveEngine {
    AdaptiveEngine::new(AdaptiveConfig {
        enabled,
        threshold: 3,
        window_s: 10,
        block_duration_s: 60,
    })
}

#[test]
fn a_source_that_goes_on_is_blocked_once() {
    let mut engine = engine(true);
    let src = IpKey::from_ipv4([10, 0, 0, 1]);
    let other = IpKey::from_ipv4([10, 0, 0, 2]);
    assert!(engine.on_event(&src, 100, 5).is_none());
    assert!(engine.on_event(&src, 101, 5).is_none());
    assert!(engine.on_event(&other, 101, 5).is_none());
    let block = engine.on_event(&src, 102, 5).unwrap();
    assert_eq!(block.block_reason, 5);
    assert_eq!(block.blocked_until_ns, 60_000_000_005);
    assert_eq!(block.first_seen_ns, 5);
    assert!(engine.on_events(&src, 100, 161, 5).is_none());
    assert!(engine.on_events(&src, 3, 162, 5).is_some());
}

#[test]
fn old_events_do_not_count() {
    let mut engine = engine(true);
    let src = IpKey::from_ipv4([10, 0, 0, 1]);
    assert!(engine.on_events(&src, 2, 100, 0).is_none());
    assert!(engine.on_event(&src, 111, 0).is_none());
    assert!(engine.on_event(&src, 121, 0).is_none());
    engine.update_config(AdaptiveConfig { enabled: false, ..engine.config });
    assert!(!engine.is_enabled());
    assert!(engine.on_events(&src, 9, 122, 0).is_none());
}

#[test]
fn a_batch_of_events_is_counted_and_told() {
    let mut stats = Stats { program_start_ns: 5_000_000_000, ..Stats::default() };
    let mut engine = engine(true);
    let src = IpKey::from_ipv4([10, 0, 0, 1]);
    let at = |timestamp_ns, rule_id, dst_port| DropEvent {
        timestamp_ns,
        src_ip: src.addr,
        family: 4,
        protocol: 6,
        rule_id,
        dst_port,
    };
    let events = vec![
        at(1, 2, 80),
        at(6_000_000_000, 7, 80),
        at(6_000_000_000, 7, 80),
        at(6_000_000_000, 7, 443),
        at(6_000_000_000, 1, 443),
    ];
    let (seen, blocks) = consume(&mut stats, &mut engine, &events, 6, 6_000_000_000);
    assert_eq!(seen, 4);
    assert_eq!(stats.recent_attacks.len(), 4);
    assert_eq!(*stats.port_dropped.get(&80).unwrap(), 2);
    assert_eq!(*stats.port_dropped.get(&443).unwrap(), 2);
    assert_eq!(blocks.len(), 1);
    assert_eq!(blocks[0].0, src);
}

fn alerts(kind: &str) -> AlertManager {
    AlertManager::new(AlertConfig {
        webhook_url: Some("http://hook".to_string()),
        webhook_type: kind.to_string(),
        threshold_dps: 10,
        cooldown_s: 60,
        interface: "eth0".to_string(),
    })
}

#[test]
fn alerts_keep_their_distance() {
    let mut manager = alerts("slack");
    let stats = make_stats(100, 50, 50);
    assert!(manager.check(&stats, 99, 10, 1_000).is_none());
    let event = manager.check(&stats, 100, 10, 1_000).unwrap();
    assert_eq!(event.dps, 10);
    assert_eq!(event.alert_type, "drop_rate");
    assert_eq!(event.message, "eShield [eth0] 告警：DROP 速率 10 pps 超过阈值 10 pps");
    assert!(manager.check(&stats, 1_000, 10, 1_059).is_none());
    assert!(manager.check(&stats, 1_000, 10, 1_060).is_some());
    assert!(manager.check(&stats, 1_000, 0, 2_000).is_none());
}

#[test]
fn each_kind_of_webhook_has_its_text() {
    let stats = make_stats(100, 50, 50);
    let mut slack = alerts("slack");
    let mut event = slack.check(&stats, 100, 10, 1_000).unwrap();
    event.top_attackers = vec![
        Attacker { ip: "a".to_string(), count: 2 },
        Attacker { ip: "b".to_string(), count: 1 },
    ];
    match slack.format_payload(&event) {
        AlertPayload::Slack { text, section } => {
            assert_eq!(text, event.message);
            assert!(section.ends_with("TOP 攻击源：a(2), b(1)"));
        }
        _ => panic!("slack takes sections"),
    }
    match alerts("dingtalk").format_payload(&event) {
        AlertPayload::Text { content } => assert!(content.ends_with("\nTOP：a(2), b(1)")),
        _ => panic!("dingtalk takes text"),
    }
    assert!(matches!(alerts("generic").format_payload(&event), AlertPayload::Event));
}

#[test]
fn the_largest_sources_come_first() {
    let mut stats = Stats::default();
    let keys: Vec<(IpKey, u64)> =
        (1..=4u8).map(|i| (IpKey::from_ipv4([10, 0, 0, i]), i as u64 * 10)).collect();
    sync_top_attackers(&mut stats, &keys);
    let top = top_attackers(&stats.top_attackers, 2);
    assert_eq!(top.len(), 2);
    assert_eq!((top[0].ip.as_str(), top[0].count), ("10.0.0.4", 40));
    assert_eq!((top[1].ip.as_str(), top[1].count), ("10.0.0.3", 30));
    sync_top_attackers(&mut stats, &Vec::new());
    assert_eq!(top_attackers(&stats.top_attackers, 2).len(), 0);
}

#[test]
fn counters_of_the_packet_path_are_summed() {
    let mut sync = GlobalSync::new();
    let mut stats = Stats::default();
    let one = GlobalStats { total_packets: 5, total_dropped: 2, ..GlobalStats::default() };
    let two = GlobalStats { total_packets: 7, total_dropped: 1, ..GlobalStats::default() };
    sync.sync_global_stats(&mut stats, &vec![one, two]);
    assert_eq!((stats.total_packets, stats.total_dropped), (12, 3));
    assert_eq!((stats.current_pps, stats.current_dps), (12, 3));
    sync.sync_global_stats(&mut stats, &vec![one, two]);
    assert_eq!((stats.current_pps, stats.current_dps), (0, 0));
}

#[test]
fn sources_are_counted_by_reputation() {
    let mut stats = Stats::default();
    let of = |level| TrustEntry { level, ..TrustEntry::default() };
    sync_trust_scores(&mut stats, &vec![of(1), of(2), of(2), of(4), of(9)]);
    assert_eq!(
        (stats.trust_trusted, stats.trust_neutral, stats.trust_suspicious, stats.trust_malicious),
        (1, 2, 0, 1)
    );
}

#[test]
fn first_secrets_hold_the_octets_and_the_bucket() {
    let s = first_with(185, [7u8; 16], [9u8; 16]);
    assert_eq!(s.current, [7u8; 16]);
    assert_eq!(s.previous, [9u8; 16]);
    assert_eq!(s.bucket_index, 3);
}

#[test]
fn a_new_secret_keeps_the_last_one() {
    let first = first_cookie_secret(120);
    assert_eq!(first.bucket_index, 2);
    assert!(rotate_with(Some(first), 150, [7; 16]).is_none());
    let next = rotate_with(Some(first), 180, [7; 16]).unwrap();
    assert_eq!(next.current, [7; 16]);
    assert_eq!(next.previous, first.current);
    assert_eq!(next.bucket_index, 3);
    let drawn = rotate_cookie_secrets(Some(first), 240).unwrap();
    assert_eq!(drawn.previous, first.current);
    assert_ne!(drawn.current, first.current);
}

#[test]
fn danger_is_read_from_the_kernel() {
    let text = "cpu  10 0 20 70 0 0 0 0 0 0\ncpu0 1 1 1 1\n";
    assert_eq!(read_cpu_times(text), Some((70, 100)));
    assert_eq!(read_cpu_times("intr 1\n"), None);
    let mut meter = CpuMeter::new();
    assert_eq!(meter.look(text), None);
    assert_eq!(meter.look("cpu  20 0 40 140 0 0 0 0 0 0\n"), Some((70, 100)));
    assert_eq!(read_memory("MemTotal: 100 kB\nMemAvailable: 30 kB\n"), Some((70, 100)));
}

#[test]
fn danger_rises_with_trouble() {
    assert_eq!(danger_level(false, false, false), 0);
    assert_eq!(danger_level(true, false, false), 1);
    assert_eq!(danger_level(false, false, true), 1);
    assert_eq!(danger_level(true, false, true), 2);
    assert_eq!(danger_level(false, true, false), 2);
    let mut state = DangerState::new();
    assert_eq!(state.update(0), None);
    assert_eq!(state.update(2), Some(0));
    assert_eq!(state.update(2), None);
    let config = RuntimeConfig { danger_level: 0, ..eshield_switches() };
    assert_eq!(with_danger_level(config, 2).danger_level, 2);
}

fn eshield_switches() -> RuntimeConfig {
    eshield::node::snapshot::RuntimeConfigSnapshot::default().switches()
}

#[test]
fn drops_since_the_last_look() {
    let mut meter = DropMeter::new();
    assert_eq!(meter.look(10), 10);
    assert_eq!(meter.look(15), 5);
    assert_eq!(meter.look(3), 0);
}

#[test]
fn rules_have_names() {
    assert_eq!(rule_name(1), "黑名单");
    assert_eq!(rule_name(2), "速率限制");
    assert_eq!(rule_name(9), "ICMP Flood");
    assert_eq!(rule_name(999), "未知");
}

#[test]
fn the_report_of_attacks_shows_the_newest_first() {
    let mut stats = Stats::default();
    stats.push_attack_events(&[
        DropEvent { src_ip: IpKey::from_ipv4([10, 0, 0, 7]).addr, ..event(80) },
        DropEvent { rule_id: 2, ..event(443) },
    ]);
    let shown = attack_report(&stats, 10);
    assert_eq!(shown.len(), 2);
    assert_eq!((shown[0].dst_port, shown[0].rule_name), (443, "速率限制"));
    assert_eq!(shown[1].src_ip, "10.0.0.7");
    assert_eq!(attack_report(&stats, 1).len(), 1);
}

#[test]
fn the_series_of_a_source_follows_its_points() {
    let point = |timestamp, list: Vec<(&str, u64)>| MetricPoint {
        timestamp,
        top_attackers: list.iter().map(|(ip, n)| (ip.to_string(), *n)).collect(),
        ..MetricPoint::default()
    };
    let points = vec![point(1, vec![("a", 5)]), point(2, vec![("b", 1)]), point(3, vec![("a", 9)])];
    let series = attacker_series(&points, "a");
    assert_eq!(series.first(), Some(&(1, 5)));
    assert_eq!(series.last(), Some(&(3, 9)));
}

#[test]
fn metrics_are_written_as_text() {
    let mut stats = make_stats(100, 10, 90);
    stats.conn_track_blocked = 4;
    let shown = stats_snapshot(&stats);
    assert_eq!(shown.total_packets, 100);
    let maps = vec![MapInfo {
        name: "BLACKLIST".to_string(),
        map_type: "LruHashMap".to_string(),
        max_entries: 1024,
    }];
    let text = metrics_text(&shown, &[1, 2, 3, 4, 5, 6], "eth0", &maps, Some(3), None);
    assert!(text.starts_with(
        "# HELP eshield_dropped_total Total dropped packets\n# TYPE eshield_dropped_total counter\n"
    ));
    assert!(text.contains("eshield_dropped_total{interface=\"eth0\"} 10\n"));
    assert!(text.contains("eshield_passed_total{interface=\"eth0\"} 90\n"));
    assert!(text.contains("eshield_conn_track_blocked_total{interface=\"eth0\"} 4\n"));
    assert!(text.contains("1024"));
}

#[test]
fn the_console_shows_the_largest_sources() {
    let list: Vec<Attacker> = (0..12u64)
        .map(|i| Attacker { ip: format!("10.0.0.{}", i), count: i % 6 })
        .collect();
    let rows = attacker_rows(&list);
    assert_eq!(rows.len(), 10);
    assert_eq!((rows[0].ip.as_str(), rows[0].count), ("10.0.0.5", 5));
    assert_eq!((rows[1].ip.as_str(), rows[1].count), ("10.0.0.11", 5));
    assert_eq!(rows[9].count, 1);
    let shown = StatsSnapshot { total_dropped: 7, top_attackers: list };
    assert_eq!(
        figures_text(Some(&shown)),
        "Endpoint: local eShield\nDropped: 7\nTop Attackers: 12"
    );
    assert_eq!(figures_text(None), "Endpoint: local eShield\nDropped: 0\nTop Attackers: 0");
}

#[test]
fn the_command_line_shows_the_figures() {
    let mut f = StatusFigures {
        total_dropped: 1,
        blacklist_blocked: 2,
        rate_limited: 3,
        syn_flood_blocked: 4,
        l7_blocked: 5,
        adaptive_blocked: 6,
        udp_flood_blocked: 7,
        icmp_flood_blocked: 8,
        top_attackers: Vec::new(),
    };
    let figures = "eShield 运行状态\n----------------\n总丢弃包数: 1\n黑名单拦截: 2\n速率限制拦截: 3\nSYN Flood 拦截: 4\nL7 指纹拦截: 5\n自适应阈值拦截: 6\nUDP Flood 拦截: 7\nICMP Flood 拦截: 8\n";
    assert_eq!(status_text(&f), figures);
    f.top_attackers = (0..11).map(|i| Attacker { ip: format!("a{}", i), count: i }).collect();
    let shown = status_text(&f);
    assert!(shown.starts_with(&format!("{}\nTOP 攻击源:\n  a0 -> 0 包\n", figures)));
    assert!(shown.ends_with("  a9 -> 9 包\n"));
}
