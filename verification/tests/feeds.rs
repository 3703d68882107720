//! Lists of addresses and regions.

use eshield::common::IpKey;
use eshield::feed::FeedError;
use eshield::node::config::GeoIpConfig;
use eshield::node::config::ThreatFeed;
use eshield::node::geoip::load_geoip_allows;
use eshield::node::geoip::drops_unlisted;
use eshield::node::geoip::load_geoip_blocks;
use eshield::node::geoip::GeoIpError;
use eshield::node::threat_intel::parse_feed;
use eshield::node::threat_intel::plan_feed;
use eshield::node::threat_intel::FeedPlan;

fn feed(action: &str) -> ThreatFeed {
    ThreatFeed {
        name: "test".to_string(),
        url: "http://test".to_string(),
        interval_s: 60,
        confidence: 80,
        category: None,
        action: action.to_string(),
    }
}

#[test]
fn test_parse_text_feed_plain() {
    let text = "# comment\n192.0.2.1\n2001:db8::1\n\n";
    let entries = parse_feed(text).unwrap();
    assert_eq!(entries.len(), 2);
    assert!(matches!(plan_feed(&feed("drop"), entries), FeedPlan::Block(..)));
}

#[test]
fn test_parse_text_feed_csv() {
    let text = "192.0.2.0/24,US,malware\n2001:db8::/32,CN\n";
    let entries = parse_feed(text).unwrap();
    assert_eq!(entries.len(), 2);
    assert!(matches!(plan_feed(&feed("drop"), entries), FeedPlan::Block(..)));
}

#[test]
fn test_parse_json_feed_abuseipdb() {
    let text = r#"{"data":[{"ipAddress":"192.0.2.5"},{"ipAddress":"2001:db8::5"}]}"#;
    let entries = parse_feed(text).unwrap();
    assert_eq!(entries.len(), 2);
    assert_eq!(entries[0].ipv4(), 0xc000_0205);
    assert!(matches!(plan_feed(&feed("drop"), entries), FeedPlan::Block(..)));
}

#[test]
fn a_broken_document_is_refused() {
    assert_eq!(parse_feed("{\"data\":[").err(), Some(FeedError::Json));
    assert_eq!(parse_feed("{}").unwrap().len(), 0);
    assert_eq!(parse_feed("[1, 2]").unwrap().len(), 0);
}

#[test]
fn a_feed_says_what_is_done_with_its_entries() {
    let key = IpKey::from_ipv4([192, 0, 2, 1]);
    match plan_feed(&feed("drop"), vec![key]) {
        FeedPlan::Block(keys, seconds) => {
            assert_eq!(keys, vec![key]);
            assert_eq!(seconds, 3600);
        }
        _ => panic!("a list to drop blocks"),
    }
    let long = ThreatFeed { interval_s: 7200, ..feed("drop") };
    assert!(matches!(plan_feed(&long, vec![key]), FeedPlan::Block(_, 21600)));
    match plan_feed(&feed("allow"), vec![key]) {
        FeedPlan::Allow(nets) => assert_eq!(nets, vec![(key, 32)]),
        _ => panic!("a list to allow lets through"),
    }
    assert!(matches!(plan_feed(&feed("log"), vec![key]), FeedPlan::Unsupported));
}

#[test]
fn test_load_country_csv() {
    let csv = b"network,country_iso\n10.0.0.0/8,US\n192.168.1.0/24,CN\n";

    let mut cfg = GeoIpConfig::default();
    cfg.country_blocks_csv = Some("country.csv".to_string());
    cfg.block_countries = vec!["CN".to_string()];

    let blocks = load_geoip_blocks(&cfg, Some(csv), None).unwrap();
    assert_eq!(blocks.len(), 1);
    assert_eq!(blocks[0].prefix, 24);
    assert!(blocks[0].reason.contains("CN"));
}

#[test]
fn test_load_asn_csv() {
    let csv = b"network,asn,asn_org\n10.1.0.0/16,12345,Example\n";

    let mut cfg = GeoIpConfig::default();
    cfg.asn_blocks_csv = Some("asn.csv".to_string());
    cfg.block_asns = vec![12345];

    let blocks = load_geoip_blocks(&cfg, None, Some(csv)).unwrap();
    assert_eq!(blocks.len(), 1);
    assert_eq!(blocks[0].prefix, 16);
}

#[test]
fn regions_let_through_are_read_the_same_way() {
    let mut cfg = GeoIpConfig::default();
    cfg.allow_countries = vec!["us".to_string()];
    let csv = b"network,country_iso\n10.0.0.0/8,US\n192.168.1.0/24,CN\n";
    let nets = load_geoip_allows(&cfg, Some(csv), None).unwrap();
    assert_eq!(nets.len(), 1);
    assert_eq!(nets[0].prefix, 8);
    assert_eq!(load_geoip_blocks(&cfg, Some(csv), None).unwrap().len(), 0);
}

#[test]
fn what_is_not_listed_is_dropped_where_that_is_configured() {
    let mut cfg = GeoIpConfig::default();
    cfg.default_action = "drop".to_string();
    assert!(!drops_unlisted(&cfg));
    cfg.enabled = true;
    assert!(drops_unlisted(&cfg));
    cfg.default_action = "pass".to_string();
    assert!(!drops_unlisted(&cfg));
}

#[test]
fn a_broken_table_of_regions_is_refused() {
    let mut cfg = GeoIpConfig::default();
    cfg.block_countries = vec!["CN".to_string()];
    cfg.block_asns = vec![1];
    let broken = b"a,b\n1,2,3\n";
    assert_eq!(load_geoip_blocks(&cfg, Some(broken), None).err(), Some(GeoIpError::CountryCsv));
    assert_eq!(load_geoip_blocks(&cfg, None, Some(broken)).err(), Some(GeoIpError::AsnCsv));
}
