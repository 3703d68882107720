//! The settings that a node runs with.

use crate::common::RateLimitConfig;
use crate::common::RuntimeConfig;
use crate::dataplane::conn_track::ConnTrackLimits;
use crate::node::config::AdaptiveConfig;
use crate::node::config::Config;
use crate::node::config::GeoIpConfig;
use crate::node::config::L7ScanConfig;
use crate::node::config::PortAclItem;
use crate::node::config::ProtectionProject;
use crate::node::config::ThreatFeed;
use crate::node::copies::copy_feeds;
use crate::node::copies::copy_geoip;
use crate::node::copies::copy_l7;
use crate::node::copies::copy_list;
use crate::node::copies::copy_port_acl;
use crate::node::copies::copy_projects;
use crate::node::copies::copy_text;
use crate::node::copies::same_geoip;
use crate::node::copies::same_l7;
use crate::node::copies::same_projects;
use vstd::prelude::*;

verus! {

/// The rate limit that a node runs with.
#[derive(Clone, Copy, Debug, Default, PartialEq, Eq)]
pub struct RateLimitParams {
    pub enabled: bool,
    pub threshold: u64,
    pub tick_ms: u64,
    pub decay_num: u64,
    pub decay_den: u64,
    pub block_duration_s: u64,
}

impl RateLimitParams {
    /// The parameters as the packet path holds them.
    pub fn limits(&self) -> (r: RateLimitConfig)
        ensures
            r == limits_of(*self),
    {
        RateLimitConfig {
            threshold: self.threshold,
            tick_ms: self.tick_ms,
            decay_num: self.decay_num,
            decay_den: self.decay_den,
            block_duration_s: self.block_duration_s,
        }
    }
}

/// The settings that a node runs with, for display and change.
#[derive(Clone, Debug, Default)]
pub struct RuntimeConfigSnapshot {
    pub version: String,
    pub interface: String,
    pub web_port: u16,
    pub web_bind: Option<String>,
    pub log_level: String,
    pub log_json: bool,
    pub store_path: String,
    pub alert_webhook_url: Option<String>,
    pub alert_threshold_dps: u64,
    pub alert_cooldown_s: u64,
    pub rate_limit_enabled: bool,
    pub syn_proxy_enabled: bool,
    pub l7_scan_enabled: bool,
    pub ebpf_debug_enabled: bool,
    pub udp_flood_enabled: bool,
    pub icmp_flood_enabled: bool,
    pub geoip_enabled: bool,
    pub tcp_reset_on_drop: bool,
    pub trust_enabled: bool,
    pub danger_level: u8,
    pub rate_limit: RateLimitParams,
    pub adaptive: AdaptiveConfig,
    pub port_acl: Vec<PortAclItem>,
    pub protection_projects: Vec<ProtectionProject>,
    pub l7_scan: L7ScanConfig,
    pub geoip: GeoIpConfig,
    pub threat_intel_feeds: Vec<ThreatFeed>,
    pub whitelist_entries: Vec<String>,
    pub blacklist_entries: Vec<String>,
    pub hub_enabled: bool,
    pub hub_node_name: String,
    pub hub_urls: Vec<String>,
    pub packet_log_enabled: bool,
    pub packet_log_sample_rate: u16,
}

/// Changes to the settings; what is `None` stays.
#[derive(Clone, Copy, Debug, Default)]
pub struct RuntimeConfigPatch {
    pub rate_limit_enabled: Option<bool>,
    pub syn_proxy_enabled: Option<bool>,
    pub l7_scan_enabled: Option<bool>,
    pub ebpf_debug_enabled: Option<bool>,
    pub udp_flood_enabled: Option<bool>,
    pub icmp_flood_enabled: Option<bool>,
    pub geoip_enabled: Option<bool>,
    pub tcp_reset_on_drop: Option<bool>,
    pub trust_enabled: Option<bool>,
    pub rate_limit: Option<RateLimitParams>,
    pub adaptive: Option<AdaptiveConfig>,
}

/// The rate limit of a configuration.
pub open spec fn params_of(c: Config) -> RateLimitParams {
    RateLimitParams {
        enabled: c.rate_limit.enabled,
        threshold: c.rate_limit.threshold,
        tick_ms: c.rate_limit.tick_ms,
        decay_num: c.rate_limit.decay_num,
        decay_den: c.rate_limit.decay_den,
        block_duration_s: c.rate_limit.block_duration_s,
    }
}

/// The settings are those of a configuration.
pub open spec fn is_snapshot(s: RuntimeConfigSnapshot, c: Config, version: Seq<char>) -> bool {
    &&& s.version@ == version
    &&& s.interface == c.interface
    &&& s.web_port == c.web_port
    &&& s.web_bind == c.web_bind
    &&& s.log_level == c.log_level
    &&& s.log_json == c.log_json
    &&& s.store_path == c.store_path
    &&& s.alert_webhook_url == c.alert_webhook_url
    &&& s.alert_threshold_dps == c.alert_threshold_dps
    &&& s.alert_cooldown_s == c.alert_cooldown_s
    &&& s.rate_limit_enabled == c.rate_limit.enabled
    &&& s.syn_proxy_enabled == c.syn_proxy.enabled
    &&& s.l7_scan_enabled == c.l7_scan.enabled
    &&& s.ebpf_debug_enabled == c.ebpf_log_enabled
    &&& s.udp_flood_enabled == c.udp_flood_enabled
    &&& s.icmp_flood_enabled == c.icmp_flood_enabled
    &&& s.geoip_enabled == c.geoip.enabled
    &&& s.tcp_reset_on_drop == c.tcp_reset_on_drop
    &&& s.trust_enabled == c.trust_score.enabled
    &&& s.danger_level == 0
    &&& s.rate_limit == params_of(c)
    &&& s.adaptive == c.adaptive
    &&& s.port_acl@ == c.port_acl@
    &&& same_projects(s.protection_projects@, c.protection_projects@)
    &&& same_l7(s.l7_scan, c.l7_scan)
    &&& same_geoip(s.geoip, c.geoip)
    &&& s.threat_intel_feeds@ == c.threat_intel.feeds@
    &&& s.whitelist_entries@ == c.whitelist@
    &&& s.blacklist_entries@ == c.blacklist@
    &&& s.hub_enabled == c.hub.enabled
    &&& s.hub_node_name == c.hub.node_name
    &&& s.hub_urls@ == c.hub.urls@
    &&& s.packet_log_enabled == c.packet_log.enabled
    &&& s.packet_log_sample_rate == c.packet_log.sample_rate
}

/// A switch as the packet path holds it.
pub open spec fn switch(on: bool) -> u8 {
    if on {
        1
    } else {
        0
    }
}

fn flag(on: bool) -> (r: u8)
    ensures
        r == switch(on),
{
    if on {
        1
    } else {
        0
    }
}

/// The switches of the packet path. Protected services are matched there where there are
/// any; a change of settings starts from the normal danger level.
pub open spec fn switches_of(s: RuntimeConfigSnapshot) -> RuntimeConfig {
    RuntimeConfig {
        rate_limit_enabled: switch(s.rate_limit_enabled),
        syn_proxy_enabled: switch(s.syn_proxy_enabled),
        l7_scan_enabled: switch(s.l7_scan_enabled),
        ebpf_debug: switch(s.ebpf_debug_enabled),
        udp_flood_enabled: switch(s.udp_flood_enabled),
        icmp_flood_enabled: switch(s.icmp_flood_enabled),
        geoip_enabled: switch(s.geoip_enabled),
        tcp_reset_on_drop: switch(s.tcp_reset_on_drop),
        trust_enabled: switch(s.trust_enabled),
        danger_level: 0,
        packet_log_enabled: switch(s.packet_log_enabled),
        project_enabled: switch(s.protection_projects@.len() > 0),
        packet_log_sample_rate: s.packet_log_sample_rate,
    }
}

/// The parameters of the rate limit as the packet path holds them.
pub open spec fn limits_of(p: RateLimitParams) -> RateLimitConfig {
    RateLimitConfig {
        threshold: p.threshold,
        tick_ms: p.tick_ms,
        decay_num: p.decay_num,
        decay_den: p.decay_den,
        block_duration_s: p.block_duration_s,
    }
}

/// The changed value of a setting.
pub open spec fn changed<T>(new: Option<T>, now: T) -> T {
    match new {
        Some(v) => v,
        None => now,
    }
}

fn change(new: Option<bool>, now: bool) -> (r: bool)
    ensures
        r == changed(new, now),
{
    match new {
        Some(v) => v,
        None => now,
    }
}

/// The rate limit after a change: new parameters replace it, else its switch may change.
pub open spec fn limit_after(s: RuntimeConfigSnapshot, p: RuntimeConfigPatch) -> RateLimitParams {
    match p.rate_limit {
        Some(rl) => rl,
        None => match p.rate_limit_enabled {
            Some(on) => RateLimitParams { enabled: on, ..s.rate_limit },
            None => s.rate_limit,
        },
    }
}

/// Whether sources are limited after a change.
pub open spec fn limit_on_after(s: RuntimeConfigSnapshot, p: RuntimeConfigPatch) -> bool {
    match p.rate_limit {
        Some(rl) => rl.enabled,
        None => changed(p.rate_limit_enabled, s.rate_limit_enabled),
    }
}

/// The settings after a change.
pub open spec fn patched(s: RuntimeConfigSnapshot, p: RuntimeConfigPatch) -> RuntimeConfigSnapshot {
    RuntimeConfigSnapshot {
        rate_limit_enabled: limit_on_after(s, p),
        rate_limit: limit_after(s, p),
        syn_proxy_enabled: changed(p.syn_proxy_enabled, s.syn_proxy_enabled),
        l7_scan_enabled: changed(p.l7_scan_enabled, s.l7_scan_enabled),
        ebpf_debug_enabled: changed(p.ebpf_debug_enabled, s.ebpf_debug_enabled),
        udp_flood_enabled: changed(p.udp_flood_enabled, s.udp_flood_enabled),
        icmp_flood_enabled: changed(p.icmp_flood_enabled, s.icmp_flood_enabled),
        geoip_enabled: changed(p.geoip_enabled, s.geoip_enabled),
        tcp_reset_on_drop: changed(p.tcp_reset_on_drop, s.tcp_reset_on_drop),
        trust_enabled: changed(p.trust_enabled, s.trust_enabled),
        adaptive: changed(p.adaptive, s.adaptive),
        ..s
    }
}

/// What the packet path and the adaptive engine are to be told after a change.
pub struct PatchPlan {
    pub config: RuntimeConfig,
    pub rate_limit: Option<RateLimitConfig>,
    pub adaptive: Option<AdaptiveConfig>,
}

impl RuntimeConfigSnapshot {
    /// The settings of a configuration.
    pub fn from_config(config: &Config, version: &str) -> (r: Self)
        ensures
            is_snapshot(r, *config, version@),
    {
        RuntimeConfigSnapshot {
            version: version.to_string(),
            interface: config.interface.clone(),
            web_port: config.web_port,
            web_bind: copy_text(&config.web_bind),
            log_level: config.log_level.clone(),
            log_json: config.log_json,
            store_path: config.store_path.clone(),
            alert_webhook_url: copy_text(&config.alert_webhook_url),
            alert_threshold_dps: config.alert_threshold_dps,
            alert_cooldown_s: config.alert_cooldown_s,
            rate_limit_enabled: config.rate_limit.enabled,
            syn_proxy_enabled: config.syn_proxy.enabled,
            l7_scan_enabled: config.l7_scan.enabled,
            ebpf_debug_enabled: config.ebpf_log_enabled,
            udp_flood_enabled: config.udp_flood_enabled,
            icmp_flood_enabled: config.icmp_flood_enabled,
            geoip_enabled: config.geoip.enabled,
            tcp_reset_on_drop: config.tcp_reset_on_drop,
            trust_enabled: config.trust_score.enabled,
            danger_level: 0,
            rate_limit: RateLimitParams {
                enabled: config.rate_limit.enabled,
                threshold: config.rate_limit.threshold,
                tick_ms: config.rate_limit.tick_ms,
                decay_num: config.rate_limit.decay_num,
                decay_den: config.rate_limit.decay_den,
                block_duration_s: config.rate_limit.block_duration_s,
            },
            adaptive: config.adaptive,
            port_acl: copy_port_acl(&config.port_acl),
            protection_projects: copy_projects(&config.protection_projects),
            l7_scan: copy_l7(&config.l7_scan),
            geoip: copy_geoip(&config.geoip),
            threat_intel_feeds: copy_feeds(&config.threat_intel.feeds),
            whitelist_entries: copy_list(&config.whitelist),
            blacklist_entries: copy_list(&config.blacklist),
            hub_enabled: config.hub.enabled,
            hub_node_name: config.hub.node_name.clone(),
            hub_urls: copy_list(&config.hub.urls),
            packet_log_enabled: config.packet_log.enabled,
            packet_log_sample_rate: config.packet_log.sample_rate,
        }
    }

    /// The switches of the packet path.
    pub fn switches(&self) -> (r: RuntimeConfig)
        ensures
            r == switches_of(*self),
    {
        RuntimeConfig {
            rate_limit_enabled: flag(self.rate_limit_enabled),
            syn_proxy_enabled: flag(self.syn_proxy_enabled),
            l7_scan_enabled: flag(self.l7_scan_enabled),
            ebpf_debug: flag(self.ebpf_debug_enabled),
            udp_flood_enabled: flag(self.udp_flood_enabled),
            icmp_flood_enabled: flag(self.icmp_flood_enabled),
            geoip_enabled: flag(self.geoip_enabled),
            tcp_reset_on_drop: flag(self.tcp_reset_on_drop),
            trust_enabled: flag(self.trust_enabled),
            danger_level: 0,
            packet_log_enabled: flag(self.packet_log_enabled),
            project_enabled: flag(self.protection_projects.len() > 0),
            packet_log_sample_rate: self.packet_log_sample_rate,
        }
    }

    fn next_limit(&self, patch: &RuntimeConfigPatch) -> (r: RateLimitParams)
        ensures
            r == limit_after(*self, *patch),
    {
        match patch.rate_limit {
            Some(rl) => rl,
            None => {
                let mut limit: RateLimitParams = self.rate_limit;
                if let Some(enabled) = patch.rate_limit_enabled {
                    limit.enabled = enabled;
                }
                limit
            },
        }
    }

    fn next_limit_on(&self, patch: &RuntimeConfigPatch) -> (r: bool)
        ensures
            r == limit_on_after(*self, *patch),
    {
        match patch.rate_limit {
            Some(rl) => rl.enabled,
            None => change(patch.rate_limit_enabled, self.rate_limit_enabled),
        }
    }

    fn apply_limits(&mut self, patch: &RuntimeConfigPatch)
        ensures
            *final(self) == (RuntimeConfigSnapshot {
                rate_limit_enabled: limit_on_after(*old(self), *patch),
                rate_limit: limit_after(*old(self), *patch),
                adaptive: changed(patch.adaptive, old(self).adaptive),
                ..*old(self)
            }),
    {
        let limit: RateLimitParams = self.next_limit(patch);
        let limit_on: bool = self.next_limit_on(patch);
        let adaptive: AdaptiveConfig = match patch.adaptive {
            Some(a) => a,
            None => self.adaptive,
        };
        self.rate_limit = limit;
        self.rate_limit_enabled = limit_on;
        self.adaptive = adaptive;
    }

    fn apply_flood_switches(&mut self, patch: &RuntimeConfigPatch)
        ensures
            *final(self) == (RuntimeConfigSnapshot {
                syn_proxy_enabled: changed(patch.syn_proxy_enabled, old(self).syn_proxy_enabled),
                udp_flood_enabled: changed(patch.udp_flood_enabled, old(self).udp_flood_enabled),
                icmp_flood_enabled: changed(patch.icmp_flood_enabled, old(self).icmp_flood_enabled),
                ..*old(self)
            }),
    {
        let syn_proxy_enabled: bool = change(patch.syn_proxy_enabled, self.syn_proxy_enabled);
        let udp_flood_enabled: bool = change(patch.udp_flood_enabled, self.udp_flood_enabled);
        let icmp_flood_enabled: bool = change(patch.icmp_flood_enabled, self.icmp_flood_enabled);
        self.syn_proxy_enabled = syn_proxy_enabled;
        self.udp_flood_enabled = udp_flood_enabled;
        self.icmp_flood_enabled = icmp_flood_enabled;
    }

    fn apply_filter_switches(&mut self, patch: &RuntimeConfigPatch)
        ensures
            *final(self) == (RuntimeConfigSnapshot {
                l7_scan_enabled: changed(patch.l7_scan_enabled, old(self).l7_scan_enabled),
                geoip_enabled: changed(patch.geoip_enabled, old(self).geoip_enabled),
                trust_enabled: changed(patch.trust_enabled, old(self).trust_enabled),
                ..*old(self)
            }),
    {
        let l7_scan_enabled: bool = change(patch.l7_scan_enabled, self.l7_scan_enabled);
        let geoip_enabled: bool = change(patch.geoip_enabled, self.geoip_enabled);
        let trust_enabled: bool = change(patch.trust_enabled, self.trust_enabled);
        self.l7_scan_enabled = l7_scan_enabled;
        self.geoip_enabled = geoip_enabled;
        self.trust_enabled = trust_enabled;
    }

    fn apply_path_switches(&mut self, patch: &RuntimeConfigPatch)
        ensures
            *final(self) == (RuntimeConfigSnapshot {
                ebpf_debug_enabled: changed(patch.ebpf_debug_enabled, old(self).ebpf_debug_enabled),
                tcp_reset_on_drop: changed(patch.tcp_reset_on_drop, old(self).tcp_reset_on_drop),
                ..*old(self)
            }),
    {
        let ebpf_debug_enabled: bool = change(patch.ebpf_debug_enabled, self.ebpf_debug_enabled);
        let tcp_reset_on_drop: bool = change(patch.tcp_reset_on_drop, self.tcp_reset_on_drop);
        self.ebpf_debug_enabled = ebpf_debug_enabled;
        self.tcp_reset_on_drop = tcp_reset_on_drop;
    }

    /// Changes settings while the node runs.
    pub fn patch_runtime(&mut self, patch: &RuntimeConfigPatch) -> (r: PatchPlan)
        ensures
            *final(self) == patched(*old(self), *patch),
            r.config == switches_of(*final(self)),
            r.rate_limit == match patch.rate_limit {
                Some(rl) => Some(limits_of(rl)),
                None => None,
            },
            r.adaptive == patch.adaptive,
    {
        self.apply_limits(patch);
        self.apply_flood_switches(patch);
        self.apply_filter_switches(patch);
        self.apply_path_switches(patch);
        let limits: Option<RateLimitConfig> = match patch.rate_limit {
            Some(rl) => Some(rl.limits()),
            None => None,
        };
        let config: RuntimeConfig = self.switches();
        PatchPlan { config, rate_limit: limits, adaptive: patch.adaptive }
    }
}

/// The parameters of the rate limit of a configuration as the packet path holds them.
pub fn rate_limits(config: &Config) -> (r: RateLimitConfig)
    ensures
        r == limits_of(params_of(*config)),
{
    RateLimitConfig {
        threshold: config.rate_limit.threshold,
        tick_ms: config.rate_limit.tick_ms,
        decay_num: config.rate_limit.decay_num,
        decay_den: config.rate_limit.decay_den,
        block_duration_s: config.rate_limit.block_duration_s,
    }
}

/// The limit of each destination port as the packet path holds it; none where ports are
/// not limited. Going over it blocks no source.
pub open spec fn port_limits_of(c: Config) -> Option<RateLimitConfig> {
    if c.port_rate_limit.enabled {
        Some(
            RateLimitConfig {
                threshold: c.port_rate_limit.threshold,
                tick_ms: c.port_rate_limit.tick_ms,
                decay_num: c.port_rate_limit.decay_num,
                decay_den: c.port_rate_limit.decay_den,
                block_duration_s: 0,
            },
        )
    } else {
        None
    }
}

/// The limit of each destination port of a configuration.
pub fn port_limits(config: &Config) -> (r: Option<RateLimitConfig>)
    ensures
        r == port_limits_of(*config),
{
    if !config.port_rate_limit.enabled {
        return None;
    }
    Some(
        RateLimitConfig {
            threshold: config.port_rate_limit.threshold,
            tick_ms: config.port_rate_limit.tick_ms,
            decay_num: config.port_rate_limit.decay_num,
            decay_den: config.port_rate_limit.decay_den,
            block_duration_s: 0,
        },
    )
}

/// The limits on half-open connections of a configuration; none where they are not
/// tracked.
pub fn conn_track_limits(config: &Config) -> (r: Option<ConnTrackLimits>)
    ensures
        r == if config.conn_track.enabled {
            Some(
                ConnTrackLimits {
                    threshold: config.conn_track.threshold,
                    window_ms: config.conn_track.window_ms,
                },
            )
        } else {
            None
        },
{
    if !config.conn_track.enabled {
        return None;
    }
    Some(
        ConnTrackLimits {
            threshold: config.conn_track.threshold,
            window_ms: config.conn_track.window_ms,
        },
    )
}

/// A change that names nothing changes nothing.
pub proof fn law_empty_patch_keeps_settings(s: RuntimeConfigSnapshot, p: RuntimeConfigPatch)
    requires
        p.rate_limit_enabled is None && p.syn_proxy_enabled is None && p.l7_scan_enabled is None,
        p.ebpf_debug_enabled is None && p.udp_flood_enabled is None,
        p.icmp_flood_enabled is None && p.geoip_enabled is None,
        p.tcp_reset_on_drop is None && p.trust_enabled is None,
        p.rate_limit is None && p.adaptive is None,
    ensures
        patched(s, p) == s,
{
}

/// The same change twice is the change once.
pub proof fn law_patch_twice_is_once(s: RuntimeConfigSnapshot, p: RuntimeConfigPatch)
    ensures
        patched(patched(s, p), p) == patched(s, p),
{
}

/// The two switches of the rate limit that the settings hold stay equal.
pub proof fn law_rate_limit_switches_agree(s: RuntimeConfigSnapshot, p: RuntimeConfigPatch)
    requires
        s.rate_limit_enabled == s.rate_limit.enabled,
    ensures
        patched(s, p).rate_limit_enabled == patched(s, p).rate_limit.enabled,
{
}

} // verus!
