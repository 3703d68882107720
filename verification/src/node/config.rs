//! The configuration of a node, and what makes one acceptable.

use vstd::prelude::*;

verus! {

/// Where a block came from.
#[derive(Clone, Copy, Debug, PartialEq, Eq, Structural)]
pub enum BlockOrigin {
    Local,
    Api,
    Adaptive,
    ThreatIntel,
    Hub,
}

impl BlockOrigin {
    /// Whether blocks of this origin are reported to the hub: all but those that the hub
    /// itself sent, so that policies do not run in circles.
    pub fn publishable(&self) -> (r: bool)
        ensures
            r == (*self != BlockOrigin::Hub),
    {
        match self {
            BlockOrigin::Hub => false,
            _ => true,
        }
    }
}

impl Default for BlockOrigin {
    fn default() -> (r: Self)
        ensures
            r == BlockOrigin::Api,
    {
        BlockOrigin::Api
    }
}

#[derive(Clone, Debug)]
pub struct PortAclItem {
    pub protocol: String,
    pub dport: String,
    pub action: String,
}

/// What protects one service: an address, port and protocol with a set of modules.
#[derive(Clone, Debug)]
pub struct ProtectionProject {
    pub name: String,
    pub description: String,
    pub protocol: String,
    pub dport: String,
    pub target_ips: Vec<String>,
    pub enabled_modules: Vec<String>,
    pub action: String,
}

#[derive(Clone, Debug)]
pub struct ThreatFeed {
    pub name: String,
    pub url: String,
    pub interval_s: u64,
    pub confidence: u8,
    pub category: Option<String>,
    pub action: String,
}

#[derive(Clone, Debug)]
pub struct L7PatternConfig {
    pub pattern: String,
    pub mask: Option<String>,
}

/// Where the audit log is kept.
#[derive(Clone, Debug)]
pub struct AuditConfig {
    pub enabled: bool,
    pub path: String,
    pub max_size_mb: u64,
}

impl Default for AuditConfig {
    fn default() -> (r: Self)
        ensures
            r.enabled == false,
            r.path@ == "/var/log/eshield/audit.log"@,
            r.max_size_mb == 100,
    {
        AuditConfig {
            enabled: false,
            path: "/var/log/eshield/audit.log".to_string(),
            max_size_mb: 100,
        }
    }
}

/// Reputation of sources.
#[derive(Clone, Debug)]
pub struct TrustScoreConfig {
    pub enabled: bool,
    pub add_divisor: u32,
    pub sub_divisor: u32,
}

impl Default for TrustScoreConfig {
    fn default() -> (r: Self)
        ensures
            r.enabled == false,
            r.add_divisor == 100,
            r.sub_divisor == 3,
    {
        TrustScoreConfig {
            enabled: false,
            add_divisor: 100,
            sub_divisor: 3,
        }
    }
}

/// Watching the load of the machine.
#[derive(Clone, Debug)]
pub struct DangerSignalConfig {
    pub enabled: bool,
    pub sample_interval_s: u64,
}

impl Default for DangerSignalConfig {
    fn default() -> (r: Self)
        ensures
            r.enabled == false,
            r.sample_interval_s == 5,
    {
        DangerSignalConfig {
            enabled: false,
            sample_interval_s: 5,
        }
    }
}

/// TLS towards the hub.
#[derive(Clone, Debug)]
pub struct HubTlsConfig {
    pub enabled: bool,
    pub ca_cert: Option<String>,
    pub client_cert: Option<String>,
    pub client_key: Option<String>,
    pub verify: bool,
}

impl Default for HubTlsConfig {
    fn default() -> (r: Self)
        ensures
            r.enabled == true,
            r.ca_cert is None,
            r.client_cert is None,
            r.client_key is None,
            r.verify == true,
    {
        HubTlsConfig {
            enabled: true,
            ca_cert: None,
            client_cert: None,
            client_key: None,
            verify: true,
        }
    }
}

/// Sharing policies through a hub.
#[derive(Clone, Debug)]
pub struct HubConfig {
    pub enabled: bool,
    pub urls: Vec<String>,
    pub node_name: String,
    pub token: String,
    pub sync_pull_interval_s: u64,
    pub sync_push_interval_s: u64,
    pub push_min_hit_count: u32,
    pub push_min_trust: u32,
    pub push_max_batch_size: usize,
    pub sync_rules_enabled: bool,
    pub sync_rules_interval_s: u64,
    pub tls: HubTlsConfig,
}

impl Default for HubConfig {
    fn default() -> (r: Self)
        ensures
            r.enabled == false,
            r.urls@.len() == 0,
            r.node_name@.len() == 0,
            r.token@.len() == 0,
            r.sync_pull_interval_s == 10,
            r.sync_push_interval_s == 5,
            r.push_min_hit_count == 10,
            r.push_min_trust == 100,
            r.push_max_batch_size == 100,
            r.sync_rules_enabled == false,
            r.sync_rules_interval_s == 30,
            r.tls.enabled && r.tls.verify,
            r.tls.ca_cert is None && r.tls.client_cert is None && r.tls.client_key is None,
    {
        HubConfig {
            enabled: false,
            urls: Vec::new(),
            node_name: String::new(),
            token: String::new(),
            sync_pull_interval_s: 10,
            sync_push_interval_s: 5,
            push_min_hit_count: 10,
            push_min_trust: 100,
            push_max_batch_size: 100,
            sync_rules_enabled: false,
            sync_rules_interval_s: 30,
            tls: HubTlsConfig::default(),
        }
    }
}

/// The log of sampled packets.
#[derive(Clone, Debug)]
pub struct PacketLogConfig {
    pub enabled: bool,
    pub sample_rate: u16,
    pub memory_max_entries: usize,
    pub payload_hex: bool,
}

impl Default for PacketLogConfig {
    fn default() -> (r: Self)
        ensures
            r.enabled == false,
            r.sample_rate == 10000,
            r.memory_max_entries == 50000,
            r.payload_hex == true,
    {
        PacketLogConfig {
            enabled: false,
            sample_rate: 10000,
            memory_max_entries: 50000,
            payload_hex: true,
        }
    }
}

/// Lists of bad addresses from outside.
#[derive(Clone, Debug)]
pub struct ThreatIntelConfig {
    pub enabled: bool,
    pub feeds: Vec<ThreatFeed>,
}

impl Default for ThreatIntelConfig {
    fn default() -> (r: Self)
        ensures
            r.enabled == false,
            r.feeds@.len() == 0,
    {
        ThreatIntelConfig {
            enabled: false,
            feeds: Vec::new(),
        }
    }
}

/// Blocking sources that break rules again and again.
#[derive(Clone, Copy, Debug)]
pub struct AdaptiveConfig {
    pub enabled: bool,
    pub threshold: u64,
    pub window_s: u64,
    pub block_duration_s: u64,
}

impl Default for AdaptiveConfig {
    fn default() -> (r: Self)
        ensures
            r.enabled == false,
            r.threshold == 10,
            r.window_s == 5,
            r.block_duration_s == 300,
    {
        AdaptiveConfig {
            enabled: false,
            threshold: 10,
            window_s: 5,
            block_duration_s: 300,
        }
    }
}

/// SYN cookies.
#[derive(Clone, Debug)]
pub struct SynProxyConfig {
    pub enabled: bool,
    pub backend_ports: Vec<u16>,
    pub max_conns: u32,
    pub conn_timeout_s: u32,
}

impl Default for SynProxyConfig {
    fn default() -> (r: Self)
        ensures
            r.enabled == false,
            r.backend_ports@.len() == 0,
            r.max_conns == 1048576,
            r.conn_timeout_s == 60,
    {
        SynProxyConfig {
            enabled: false,
            backend_ports: Vec::new(),
            max_conns: 1048576,
            conn_timeout_s: 60,
        }
    }
}

/// Payload signatures.
#[derive(Clone, Debug)]
pub struct L7ScanConfig {
    pub enabled: bool,
    pub patterns: Vec<L7PatternConfig>,
}

impl Default for L7ScanConfig {
    fn default() -> (r: Self)
        ensures
            r.enabled == false,
            r.patterns@.len() == 0,
    {
        L7ScanConfig {
            enabled: false,
            patterns: Vec::new(),
        }
    }
}

/// The rate limit of a source.
#[derive(Clone, Debug)]
pub struct RateLimitConfig {
    pub enabled: bool,
    pub threshold: u64,
    pub tick_ms: u64,
    pub decay_num: u64,
    pub decay_den: u64,
    pub block_duration_s: u64,
}

impl Default for RateLimitConfig {
    fn default() -> (r: Self)
        ensures
            r.enabled == true,
            r.threshold == 200,
            r.tick_ms == 100,
            r.decay_num == 7,
            r.decay_den == 8,
            r.block_duration_s == 300,
    {
        RateLimitConfig {
            enabled: true,
            threshold: 200,
            tick_ms: 100,
            decay_num: 7,
            decay_den: 8,
            block_duration_s: 300,
        }
    }
}

/// The rate limit of a destination port, whoever sends.
#[derive(Clone, Debug)]
pub struct PortRateLimitConfig {
    pub enabled: bool,
    pub threshold: u64,
    pub tick_ms: u64,
    pub decay_num: u64,
    pub decay_den: u64,
}

impl Default for PortRateLimitConfig {
    fn default() -> (r: Self)
        ensures
            r.enabled == false,
            r.threshold == 2000,
            r.tick_ms == 100,
            r.decay_num == 7,
            r.decay_den == 8,
    {
        PortRateLimitConfig {
            enabled: false,
            threshold: 2000,
            tick_ms: 100,
            decay_num: 7,
            decay_den: 8,
        }
    }
}

/// Counting half-open connections of a source.
#[derive(Clone, Debug)]
pub struct ConnTrackConfig {
    pub enabled: bool,
    pub threshold: u32,
    pub window_ms: u64,
}

impl Default for ConnTrackConfig {
    fn default() -> (r: Self)
        ensures
            r.enabled == false,
            r.threshold == 20,
            r.window_ms == 10000,
    {
        ConnTrackConfig {
            enabled: false,
            threshold: 20,
            window_ms: 10000,
        }
    }
}

/// Blocking by region or network operator.
#[derive(Clone, Debug)]
pub struct GeoIpConfig {
    pub enabled: bool,
    pub db_path: Option<String>,
    pub country_blocks_csv: Option<String>,
    pub asn_blocks_csv: Option<String>,
    pub block_countries: Vec<String>,
    pub allow_countries: Vec<String>,
    pub block_asns: Vec<u32>,
    pub allow_asns: Vec<u32>,
    pub default_action: String,
}

impl Default for GeoIpConfig {
    fn default() -> (r: Self)
        ensures
            r.enabled == false,
            r.db_path is None,
            r.country_blocks_csv is None,
            r.asn_blocks_csv is None,
            r.block_countries@.len() == 0,
            r.allow_countries@.len() == 0,
            r.block_asns@.len() == 0,
            r.allow_asns@.len() == 0,
            r.default_action@.len() == 0,
    {
        GeoIpConfig {
            enabled: false,
            db_path: None,
            country_blocks_csv: None,
            asn_blocks_csv: None,
            block_countries: Vec::new(),
            allow_countries: Vec::new(),
            block_asns: Vec::new(),
            allow_asns: Vec::new(),
            default_action: String::new(),
        }
    }
}

/// The whole configuration.
#[derive(Clone, Debug, Default)]
pub struct Config {
    pub interface: String,
    pub whitelist: Vec<String>,
    pub blacklist: Vec<String>,
    pub log_level: String,
    pub ebpf_log_enabled: bool,
    pub udp_flood_enabled: bool,
    pub icmp_flood_enabled: bool,
    pub tcp_reset_on_drop: bool,
    pub rate_limit: RateLimitConfig,
    pub port_rate_limit: PortRateLimitConfig,
    pub syn_proxy: SynProxyConfig,
    pub l7_scan: L7ScanConfig,
    pub adaptive: AdaptiveConfig,
    pub port_acl: Vec<PortAclItem>,
    pub protection_projects: Vec<ProtectionProject>,
    pub geoip: GeoIpConfig,
    pub threat_intel: ThreatIntelConfig,
    pub conn_track: ConnTrackConfig,
    pub web_port: u16,
    pub web_bind: Option<String>,
    pub api_token: Option<String>,
    pub log_json: bool,
    pub store_path: String,
    pub timeseries_retention_days: u64,
    pub alert_webhook_url: Option<String>,
    pub alert_webhook_type: String,
    pub alert_threshold_dps: u64,
    pub alert_cooldown_s: u64,
    pub audit: AuditConfig,
    pub trust_score: TrustScoreConfig,
    pub danger_signal: DangerSignalConfig,
    pub hub: HubConfig,
    pub packet_log: PacketLogConfig,
}

pub fn default_web_port() -> (r: u16)
    ensures
        r == 8720,
{
    8720
}

pub fn default_store_path() -> (r: String)
    ensures
        r@ == "/var/lib/eshield/rules.redb"@,
{
    "/var/lib/eshield/rules.redb".to_string()
}

pub fn default_timeseries_retention_days() -> (r: u64)
    ensures
        r == 30,
{
    30
}

pub fn default_alert_webhook_type() -> (r: String)
    ensures
        r@ == "generic"@,
{
    "generic".to_string()
}

pub fn default_alert_threshold_dps() -> (r: u64)
    ensures
        r == 1000,
{
    1000
}

pub fn default_alert_cooldown_s() -> (r: u64)
    ensures
        r == 60,
{
    60
}

pub fn default_project_action() -> (r: String)
    ensures
        r@ == "defend"@,
{
    "defend".to_string()
}

pub fn default_geoip_action() -> (r: String)
    ensures
        r@ == "pass"@,
{
    "pass".to_string()
}

pub fn default_feed_interval_s() -> (r: u64)
    ensures
        r == 3600,
{
    3600
}

pub fn default_feed_confidence() -> (r: u8)
    ensures
        r == 80,
{
    80
}

pub fn default_feed_action() -> (r: String)
    ensures
        r@ == "drop"@,
{
    "drop".to_string()
}

} // verus!
