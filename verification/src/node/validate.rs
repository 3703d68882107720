//! What makes a configuration acceptable.

use crate::common::IpKey;
use crate::ip::cidr_value;
use crate::ip::host_value;
use crate::ip::ip_value;
use crate::ip::parse_cidr;
use crate::ip::parse_ip;
use crate::ip::parse_ip_or_cidr;
use crate::ip::IpError;
use crate::node::config::Config;
use crate::node::config::L7PatternConfig;
use crate::node::config::PortAclItem;
use crate::node::config::ProtectionProject;
use crate::node::config::ThreatFeed;
use crate::node::port_rule::entry_value;
use crate::node::port_rule::parse_port;
use crate::node::port_rule::parse_protocol;
use crate::node::port_rule::protocol_number;
use crate::node::port_rule::PortRuleError;
use crate::text::chars_of;
use crate::text::has_prefix;
use crate::text::lower_is;
use crate::text::lowered;
use crate::text::same_text;
use crate::text::starts_with;
use crate::text::uint_value;
use vstd::prelude::*;
use vstd::utf8::encode_utf8;

verus! {

/// How many port rules and payload signatures there may be.
pub const MAX_PORT_RULES: usize = 32;
pub const MAX_L7_PATTERNS: usize = 8;

/// What is wrong with a configuration. The numbers are places in lists.
#[derive(Clone, Copy, Debug, PartialEq, Eq, Structural)]
pub enum ConfigError {
    InterfaceEmpty,
    InterfaceMissing,
    Whitelist(usize, IpError),
    Blacklist(usize, IpError),
    StoreDirectory,
    TooManyPortRules,
    PortRule(usize, PortRuleError),
    RateThreshold,
    RateTick,
    RateDecayDen,
    PortRateThreshold,
    PortRateTick,
    PortRateDecayDen,
    AdaptiveThreshold,
    ConnTrackThreshold,
    ConnTrackWindow,
    TooManyPatterns,
    PatternEmpty(usize),
    PatternTooLong(usize),
    PatternMask(usize),
    WebPort,
    GeoIpAction,
    BlockCountry(usize),
    AllowCountry(usize),
    FeedName(usize),
    FeedUrl(usize),
    FeedInterval(usize),
    FeedConfidence(usize),
    FeedAction(usize),
    ProjectName(usize),
    ProjectProtocol(usize),
    ProjectDportEmpty(usize),
    ProjectDport(usize),
    ProjectAction(usize),
    ProjectModule(usize, usize),
    ProjectNoTarget(usize),
    ProjectTarget(usize, usize, IpError),
    ProjectTargetTooBroad(usize, usize),
    ProjectNoIpv4Target(usize),
    HubNodeName,
    HubNoUrls,
    HubToken,
    HubUrlEmpty(usize),
    HubUrlScheme(usize),
    HubPullInterval,
    HubPushInterval,
    HubMinHitCount,
    HubRulesInterval,
}

/// The first of two faults.
pub open spec fn or(a: Option<ConfigError>, b: Option<ConfigError>) -> Option<ConfigError> {
    if a is Some {
        a
    } else {
        b
    }
}

/// A fault where the condition holds.
pub open spec fn fault_if(bad: bool, e: ConfigError) -> Option<ConfigError> {
    if bad {
        Some(e)
    } else {
        None
    }
}

/// The result of a check that found this fault, or none.
pub open spec fn as_result(f: Option<ConfigError>) -> Result<(), ConfigError> {
    match f {
        Some(e) => Err(e),
        None => Ok(()),
    }
}

pub open spec fn whitelist_fault(list: Seq<String>, i: int) -> Option<ConfigError>
    decreases list.len() - i,
{
    if i >= list.len() {
        None
    } else {
        match cidr_value(list[i]@) {
            Err(e) => Some(ConfigError::Whitelist(i as usize, e)),
            Ok(_) => whitelist_fault(list, i + 1),
        }
    }
}

fn check_whitelist(list: &Vec<String>) -> (r: Result<(), ConfigError>)
    ensures
        r == as_result(whitelist_fault(list@, 0)),
{
    for i in 0..list.len()
        invariant
            whitelist_fault(list@, 0) == whitelist_fault(list@, i as int),
    {
        match parse_cidr(list[i].as_str()) {
            Err(e) => {
                return Err(ConfigError::Whitelist(i, e));
            },
            Ok(_) => {},
        }
    }
    Ok(())
}

pub open spec fn blacklist_fault(list: Seq<String>, i: int) -> Option<ConfigError>
    decreases list.len() - i,
{
    if i >= list.len() {
        None
    } else {
        match host_value(list[i]@) {
            Err(e) => Some(ConfigError::Blacklist(i as usize, e)),
            Ok(_) => blacklist_fault(list, i + 1),
        }
    }
}

fn check_blacklist(list: &Vec<String>) -> (r: Result<(), ConfigError>)
    ensures
        r == as_result(blacklist_fault(list@, 0)),
{
    for i in 0..list.len()
        invariant
            blacklist_fault(list@, 0) == blacklist_fault(list@, i as int),
    {
        match parse_ip_or_cidr(list[i].as_str()) {
            Err(e) => {
                return Err(ConfigError::Blacklist(i, e));
            },
            Ok(_) => {},
        }
    }
    Ok(())
}

pub open spec fn port_rules_fault(list: Seq<PortAclItem>, i: int) -> Option<ConfigError>
    decreases list.len() - i,
{
    if i >= list.len() {
        None
    } else {
        match entry_value(list[i].protocol@, list[i].dport@, list[i].action@) {
            Err(e) => Some(ConfigError::PortRule(i as usize, e)),
            Ok(_) => port_rules_fault(list, i + 1),
        }
    }
}

pub open spec fn port_acl_fault(c: &Config) -> Option<ConfigError> {
    or(
        fault_if(c.port_acl@.len() > MAX_PORT_RULES, ConfigError::TooManyPortRules),
        port_rules_fault(c.port_acl@, 0),
    )
}

fn validate_port_acl(c: &Config) -> (r: Result<(), ConfigError>)
    ensures
        r == as_result(port_acl_fault(c)),
{
    if c.port_acl.len() > MAX_PORT_RULES {
        return Err(ConfigError::TooManyPortRules);
    }
    for i in 0..c.port_acl.len()
        invariant
            port_rules_fault(c.port_acl@, 0) == port_rules_fault(c.port_acl@, i as int),
            c.port_acl@.len() <= MAX_PORT_RULES,
    {
        match c.port_acl[i].to_entry() {
            Err(e) => {
                return Err(ConfigError::PortRule(i, e));
            },
            Ok(_) => {},
        }
    }
    Ok(())
}

pub open spec fn limits_fault(c: &Config) -> Option<ConfigError> {
    let r = c.rate_limit;
    let p = c.port_rate_limit;
    or(
        or(
            or(
                fault_if(r.enabled && r.threshold == 0, ConfigError::RateThreshold),
                fault_if(r.enabled && r.tick_ms == 0, ConfigError::RateTick),
            ),
            or(
                fault_if(r.enabled && r.decay_den == 0, ConfigError::RateDecayDen),
                fault_if(p.enabled && p.threshold == 0, ConfigError::PortRateThreshold),
            ),
        ),
        or(
            or(
                fault_if(p.enabled && p.tick_ms == 0, ConfigError::PortRateTick),
                fault_if(p.enabled && p.decay_den == 0, ConfigError::PortRateDecayDen),
            ),
            or(
                fault_if(
                    c.adaptive.enabled && c.adaptive.threshold == 0,
                    ConfigError::AdaptiveThreshold,
                ),
                or(
                    fault_if(c.conn_track.threshold == 0, ConfigError::ConnTrackThreshold),
                    fault_if(c.conn_track.window_ms == 0, ConfigError::ConnTrackWindow),
                ),
            ),
        ),
    )
}

fn validate_limits(c: &Config) -> (r: Result<(), ConfigError>)
    ensures
        r == as_result(limits_fault(c)),
{
    if c.rate_limit.enabled {
        if c.rate_limit.threshold == 0 {
            return Err(ConfigError::RateThreshold);
        }
        if c.rate_limit.tick_ms == 0 {
            return Err(ConfigError::RateTick);
        }
        if c.rate_limit.decay_den == 0 {
            return Err(ConfigError::RateDecayDen);
        }
    }
    if c.port_rate_limit.enabled {
        if c.port_rate_limit.threshold == 0 {
            return Err(ConfigError::PortRateThreshold);
        }
        if c.port_rate_limit.tick_ms == 0 {
            return Err(ConfigError::PortRateTick);
        }
        if c.port_rate_limit.decay_den == 0 {
            return Err(ConfigError::PortRateDecayDen);
        }
    }
    if c.adaptive.enabled && c.adaptive.threshold == 0 {
        return Err(ConfigError::AdaptiveThreshold);
    }
    if c.conn_track.threshold == 0 {
        return Err(ConfigError::ConnTrackThreshold);
    }
    if c.conn_track.window_ms == 0 {
        return Err(ConfigError::ConnTrackWindow);
    }
    Ok(())
}

/// How many octets a text takes.
pub open spec fn octets(s: Seq<char>) -> nat {
    encode_utf8(s).len()
}

pub open spec fn pattern_fault(p: L7PatternConfig, i: int) -> Option<ConfigError> {
    let n: nat = octets(p.pattern@);
    if n == 0 {
        Some(ConfigError::PatternEmpty(i as usize))
    } else if n > 8 {
        Some(ConfigError::PatternTooLong(i as usize))
    } else {
        match p.mask {
            Some(m) => fault_if(octets(m@) != n, ConfigError::PatternMask(i as usize)),
            None => None,
        }
    }
}

pub open spec fn patterns_fault(list: Seq<L7PatternConfig>, i: int) -> Option<ConfigError>
    decreases list.len() - i,
{
    if i >= list.len() {
        None
    } else {
        or(pattern_fault(list[i], i), patterns_fault(list, i + 1))
    }
}

pub open spec fn l7_fault(c: &Config) -> Option<ConfigError> {
    or(
        fault_if(c.l7_scan.patterns@.len() > MAX_L7_PATTERNS, ConfigError::TooManyPatterns),
        patterns_fault(c.l7_scan.patterns@, 0),
    )
}

fn validate_l7(c: &Config) -> (r: Result<(), ConfigError>)
    ensures
        r == as_result(l7_fault(c)),
{
    if c.l7_scan.patterns.len() > MAX_L7_PATTERNS {
        return Err(ConfigError::TooManyPatterns);
    }
    for i in 0..c.l7_scan.patterns.len()
        invariant
            patterns_fault(c.l7_scan.patterns@, 0) == patterns_fault(
                c.l7_scan.patterns@,
                i as int,
            ),
            c.l7_scan.patterns@.len() <= MAX_L7_PATTERNS,
    {
        let p: &L7PatternConfig = &c.l7_scan.patterns[i];
        let n: usize = p.pattern.as_str().as_bytes().len();
        if n == 0 {
            return Err(ConfigError::PatternEmpty(i));
        }
        if n > 8 {
            return Err(ConfigError::PatternTooLong(i));
        }
        if let Some(m) = &p.mask {
            if m.as_str().as_bytes().len() != n {
                return Err(ConfigError::PatternMask(i));
            }
        }
        assert(pattern_fault(c.l7_scan.patterns@[i as int], i as int) is None);
    }
    Ok(())
}

pub open spec fn countries_fault(list: Seq<String>, i: int, block: bool) -> Option<ConfigError>
    decreases list.len() - i,
{
    if i >= list.len() {
        None
    } else if octets(list[i]@) != 2 {
        if block {
            Some(ConfigError::BlockCountry(i as usize))
        } else {
            Some(ConfigError::AllowCountry(i as usize))
        }
    } else {
        countries_fault(list, i + 1, block)
    }
}

fn check_countries(list: &Vec<String>, block: bool) -> (r: Result<(), ConfigError>)
    ensures
        r == as_result(countries_fault(list@, 0, block)),
{
    for i in 0..list.len()
        invariant
            countries_fault(list@, 0, block) == countries_fault(list@, i as int, block),
    {
        if list[i].as_str().as_bytes().len() != 2 {
            return if block {
                Err(ConfigError::BlockCountry(i))
            } else {
                Err(ConfigError::AllowCountry(i))
            };
        }
    }
    Ok(())
}

pub open spec fn geoip_fault(c: &Config) -> Option<ConfigError> {
    let a: Seq<char> = c.geoip.default_action@;
    if !c.geoip.enabled {
        None
    } else {
        or(
            fault_if(a != "pass"@ && a != "drop"@, ConfigError::GeoIpAction),
            or(
                countries_fault(c.geoip.block_countries@, 0, true),
                countries_fault(c.geoip.allow_countries@, 0, false),
            ),
        )
    }
}

fn validate_geoip(c: &Config) -> (r: Result<(), ConfigError>)
    ensures
        r == as_result(geoip_fault(c)),
{
    if !c.geoip.enabled {
        return Ok(());
    }
    let a: &str = c.geoip.default_action.as_str();
    if !same_text(a, "pass") && !same_text(a, "drop") {
        return Err(ConfigError::GeoIpAction);
    }
    if let Err(e) = check_countries(&c.geoip.block_countries, true) {
        return Err(e);
    }
    check_countries(&c.geoip.allow_countries, false)
}

pub open spec fn feed_fault(f: ThreatFeed, i: int) -> Option<ConfigError> {
    let n: usize = i as usize;
    or(
        or(
            fault_if(f.name@.len() == 0, ConfigError::FeedName(n)),
            fault_if(f.url@.len() == 0, ConfigError::FeedUrl(n)),
        ),
        or(
            or(
                fault_if(f.interval_s == 0, ConfigError::FeedInterval(n)),
                fault_if(f.confidence > 100, ConfigError::FeedConfidence(n)),
            ),
            fault_if(f.action@ != "drop"@ && f.action@ != "allow"@, ConfigError::FeedAction(n)),
        ),
    )
}

pub open spec fn feeds_fault(list: Seq<ThreatFeed>, i: int) -> Option<ConfigError>
    decreases list.len() - i,
{
    if i >= list.len() {
        None
    } else {
        or(feed_fault(list[i], i), feeds_fault(list, i + 1))
    }
}

pub open spec fn threat_intel_fault(c: &Config) -> Option<ConfigError> {
    if !c.threat_intel.enabled {
        None
    } else {
        feeds_fault(c.threat_intel.feeds@, 0)
    }
}

fn check_feed(f: &ThreatFeed, i: usize) -> (r: Result<(), ConfigError>)
    ensures
        r == as_result(feed_fault(*f, i as int)),
{
    if f.name.as_str().is_empty() {
        return Err(ConfigError::FeedName(i));
    }
    if f.url.as_str().is_empty() {
        return Err(ConfigError::FeedUrl(i));
    }
    if f.interval_s == 0 {
        return Err(ConfigError::FeedInterval(i));
    }
    if f.confidence > 100 {
        return Err(ConfigError::FeedConfidence(i));
    }
    if !same_text(f.action.as_str(), "drop") && !same_text(f.action.as_str(), "allow") {
        return Err(ConfigError::FeedAction(i));
    }
    Ok(())
}

fn validate_threat_intel(c: &Config) -> (r: Result<(), ConfigError>)
    ensures
        r == as_result(threat_intel_fault(c)),
{
    if !c.threat_intel.enabled {
        return Ok(());
    }
    for i in 0..c.threat_intel.feeds.len()
        invariant
            feeds_fault(c.threat_intel.feeds@, 0) == feeds_fault(
                c.threat_intel.feeds@,
                i as int,
            ),
            c.threat_intel.enabled,
    {
        if let Err(e) = check_feed(&c.threat_intel.feeds[i], i) {
            return Err(e);
        }
    }
    Ok(())
}

/// The names of the modules that a project can switch on.
pub open spec fn is_module(s: Seq<char>) -> bool {
    ||| s == "syn_flood"@
    ||| s == "udp_flood"@
    ||| s == "icmp_flood"@
    ||| s == "rate_limit"@
    ||| s == "adaptive"@
    ||| s == "l7_scan"@
    ||| s == "geoip"@
    ||| s == "tcp_reset"@
    ||| s == "port_acl"@
}

pub fn known_module(s: &str) -> (r: bool)
    ensures
        r == is_module(s@),
{
    same_text(s, "syn_flood") || same_text(s, "udp_flood") || same_text(s, "icmp_flood")
        || same_text(s, "rate_limit") || same_text(s, "adaptive") || same_text(s, "l7_scan")
        || same_text(s, "geoip") || same_text(s, "tcp_reset") || same_text(s, "port_acl")
}

pub open spec fn modules_fault(list: Seq<String>, i: int, j: int) -> Option<ConfigError>
    decreases list.len() - j,
{
    if j >= list.len() {
        None
    } else if !is_module(list[j]@) {
        Some(ConfigError::ProjectModule(i as usize, j as usize))
    } else {
        modules_fault(list, i, j + 1)
    }
}

fn check_modules(list: &Vec<String>, i: usize) -> (r: Result<(), ConfigError>)
    ensures
        r == as_result(modules_fault(list@, i as int, 0)),
{
    for j in 0..list.len()
        invariant
            modules_fault(list@, i as int, 0) == modules_fault(list@, i as int, j as int),
    {
        if !known_module(list[j].as_str()) {
            return Err(ConfigError::ProjectModule(i, j));
        }
    }
    Ok(())
}

/// The family of a target: a plain address, or a network not broader than /24 in IPv4;
/// or what is wrong with it.
pub open spec fn target_family(s: Seq<char>, i: int, j: int) -> Result<u8, ConfigError> {
    match ip_value(s) {
        Some(a) => Ok(a.0),
        None => match cidr_value(s) {
            Err(e) => Err(ConfigError::ProjectTarget(i as usize, j as usize, e)),
            Ok(n) => if n.0 == 4 && n.2 < 24 {
                Err(ConfigError::ProjectTargetTooBroad(i as usize, j as usize))
            } else {
                Ok(n.0)
            },
        },
    }
}

fn check_target(s: &str, i: usize, j: usize) -> (r: Result<u8, ConfigError>)
    ensures
        r == target_family(s@, i as int, j as int),
{
    if let Ok(k) = parse_ip(s) {
        return Ok(k.family);
    }
    match parse_cidr(s) {
        Err(e) => Err(ConfigError::ProjectTarget(i, j, e)),
        Ok(n) => {
            if n.0.family == 4 && n.1 < 24 {
                Err(ConfigError::ProjectTargetTooBroad(i, j))
            } else {
                Ok(n.0.family)
            }
        },
    }
}

/// The first bad target from `j` on; where none is bad, there must be an IPv4 target.
pub open spec fn targets_fault(list: Seq<String>, i: int, j: int, v4: bool) -> Option<ConfigError>
    decreases list.len() - j,
{
    if j >= list.len() {
        fault_if(!v4, ConfigError::ProjectNoIpv4Target(i as usize))
    } else {
        match target_family(list[j]@, i, j) {
            Err(e) => Some(e),
            Ok(f) => targets_fault(list, i, j + 1, v4 || f == 4),
        }
    }
}

fn check_targets(list: &Vec<String>, i: usize) -> (r: Result<(), ConfigError>)
    ensures
        r == as_result(targets_fault(list@, i as int, 0, false)),
{
    let mut v4: bool = false;
    for j in 0..list.len()
        invariant
            targets_fault(list@, i as int, 0, false) == targets_fault(
                list@,
                i as int,
                j as int,
                v4,
            ),
    {
        match check_target(list[j].as_str(), i, j) {
            Err(e) => {
                return Err(e);
            },
            Ok(f) => {
                v4 = v4 || f == 4;
            },
        }
    }
    if !v4 {
        return Err(ConfigError::ProjectNoIpv4Target(i));
    }
    Ok(())
}

pub open spec fn is_project_action(s: Seq<char>) -> bool {
    lowered(s) == "pass"@ || lowered(s) == "drop"@ || lowered(s) == "defend"@
}

pub open spec fn project_fault(p: ProtectionProject, i: int) -> Option<ConfigError> {
    let n: usize = i as usize;
    or(
        or(
            fault_if(p.name@.len() == 0, ConfigError::ProjectName(n)),
            fault_if(protocol_number(p.protocol@) is None, ConfigError::ProjectProtocol(n)),
        ),
        or(
            or(
                fault_if(p.dport@.len() == 0, ConfigError::ProjectDportEmpty(n)),
                fault_if(
                    p.dport@ != "any"@ && uint_value(p.dport@, 0xffff) is None,
                    ConfigError::ProjectDport(n),
                ),
            ),
            or(
                or(
                    fault_if(!is_project_action(p.action@), ConfigError::ProjectAction(n)),
                    modules_fault(p.enabled_modules@, i, 0),
                ),
                or(
                    fault_if(p.target_ips@.len() == 0, ConfigError::ProjectNoTarget(n)),
                    targets_fault(p.target_ips@, i, 0, false),
                ),
            ),
        ),
    )
}

fn check_project(p: &ProtectionProject, i: usize) -> (r: Result<(), ConfigError>)
    ensures
        r == as_result(project_fault(*p, i as int)),
{
    if p.name.as_str().is_empty() {
        return Err(ConfigError::ProjectName(i));
    }
    if parse_protocol(p.protocol.as_str()).is_none() {
        return Err(ConfigError::ProjectProtocol(i));
    }
    if p.dport.as_str().is_empty() {
        return Err(ConfigError::ProjectDportEmpty(i));
    }
    if !same_text(p.dport.as_str(), "any") && parse_port(&chars_of(p.dport.as_str())).is_none() {
        return Err(ConfigError::ProjectDport(i));
    }
    let a: &str = p.action.as_str();
    if !lower_is(a, "pass") && !lower_is(a, "drop") && !lower_is(a, "defend") {
        return Err(ConfigError::ProjectAction(i));
    }
    if let Err(e) = check_modules(&p.enabled_modules, i) {
        return Err(e);
    }
    if p.target_ips.len() == 0 {
        return Err(ConfigError::ProjectNoTarget(i));
    }
    check_targets(&p.target_ips, i)
}

pub open spec fn projects_fault(list: Seq<ProtectionProject>, i: int) -> Option<ConfigError>
    decreases list.len() - i,
{
    if i >= list.len() {
        None
    } else {
        or(project_fault(list[i], i), projects_fault(list, i + 1))
    }
}

pub fn validate_protection_projects(list: &Vec<ProtectionProject>) -> (r: Result<(), ConfigError>)
    ensures
        r == as_result(projects_fault(list@, 0)),
{
    for i in 0..list.len()
        invariant
            projects_fault(list@, 0) == projects_fault(list@, i as int),
    {
        if let Err(e) = check_project(&list[i], i) {
            return Err(e);
        }
    }
    Ok(())
}

pub open spec fn urls_fault(list: Seq<String>, i: int) -> Option<ConfigError>
    decreases list.len() - i,
{
    if i >= list.len() {
        None
    } else if list[i]@.len() == 0 {
        Some(ConfigError::HubUrlEmpty(i as usize))
    } else if !starts_with(list[i]@, "http://"@) && !starts_with(list[i]@, "https://"@) {
        Some(ConfigError::HubUrlScheme(i as usize))
    } else {
        urls_fault(list, i + 1)
    }
}

fn check_urls(list: &Vec<String>) -> (r: Result<(), ConfigError>)
    ensures
        r == as_result(urls_fault(list@, 0)),
{
    for i in 0..list.len()
        invariant
            urls_fault(list@, 0) == urls_fault(list@, i as int),
    {
        let u: &str = list[i].as_str();
        if u.is_empty() {
            return Err(ConfigError::HubUrlEmpty(i));
        }
        if !has_prefix(u, "http://") && !has_prefix(u, "https://") {
            return Err(ConfigError::HubUrlScheme(i));
        }
    }
    Ok(())
}

pub open spec fn hub_fault(c: &Config) -> Option<ConfigError> {
    let h = c.hub;
    if !h.enabled {
        None
    } else {
        or(
            or(
                fault_if(h.node_name@.len() == 0, ConfigError::HubNodeName),
                or(
                    fault_if(h.urls@.len() == 0, ConfigError::HubNoUrls),
                    fault_if(h.token@.len() == 0, ConfigError::HubToken),
                ),
            ),
            or(
                or(
                    urls_fault(h.urls@, 0),
                    fault_if(h.sync_pull_interval_s == 0, ConfigError::HubPullInterval),
                ),
                or(
                    fault_if(h.sync_push_interval_s == 0, ConfigError::HubPushInterval),
                    or(
                        fault_if(h.push_min_hit_count == 0, ConfigError::HubMinHitCount),
                        fault_if(h.sync_rules_interval_s == 0, ConfigError::HubRulesInterval),
                    ),
                ),
            ),
        )
    }
}

fn validate_hub(c: &Config) -> (r: Result<(), ConfigError>)
    ensures
        r == as_result(hub_fault(c)),
{
    if !c.hub.enabled {
        return Ok(());
    }
    if c.hub.node_name.as_str().is_empty() {
        return Err(ConfigError::HubNodeName);
    }
    if c.hub.urls.len() == 0 {
        return Err(ConfigError::HubNoUrls);
    }
    if c.hub.token.as_str().is_empty() {
        return Err(ConfigError::HubToken);
    }
    if let Err(e) = check_urls(&c.hub.urls) {
        return Err(e);
    }
    if c.hub.sync_pull_interval_s == 0 {
        return Err(ConfigError::HubPullInterval);
    }
    if c.hub.sync_push_interval_s == 0 {
        return Err(ConfigError::HubPushInterval);
    }
    if c.hub.push_min_hit_count == 0 {
        return Err(ConfigError::HubMinHitCount);
    }
    if c.hub.sync_rules_interval_s == 0 {
        return Err(ConfigError::HubRulesInterval);
    }
    Ok(())
}

/// The first fault of a configuration, in the order in which it is read through.
/// `interface_visible` says whether the interface is there, `store_writable` whether the
/// directory of the store is there or could be made.
pub open spec fn config_fault(c: &Config, interface_visible: bool, store_writable: bool) -> Option<
    ConfigError,
> {
    or(
        or(
            or(
                fault_if(c.interface@.len() == 0, ConfigError::InterfaceEmpty),
                fault_if(!interface_visible, ConfigError::InterfaceMissing),
            ),
            or(whitelist_fault(c.whitelist@, 0), blacklist_fault(c.blacklist@, 0)),
        ),
        or(
            or(
                or(fault_if(!store_writable, ConfigError::StoreDirectory), port_acl_fault(c)),
                or(limits_fault(c), l7_fault(c)),
            ),
            or(
                or(fault_if(c.web_port == 0, ConfigError::WebPort), geoip_fault(c)),
                or(
                    threat_intel_fault(c),
                    or(projects_fault(c.protection_projects@, 0), hub_fault(c)),
                ),
            ),
        ),
    )
}

impl Config {
    /// Checks the configuration and reports the first fault.
    pub fn validate(&self, interface_visible: bool, store_writable: bool) -> (r: Result<
        (),
        ConfigError,
    >)
        ensures
            r == as_result(config_fault(self, interface_visible, store_writable)),
    {
        if self.interface.as_str().is_empty() {
            return Err(ConfigError::InterfaceEmpty);
        }
        if !interface_visible {
            return Err(ConfigError::InterfaceMissing);
        }
        if let Err(e) = check_whitelist(&self.whitelist) {
            return Err(e);
        }
        if let Err(e) = check_blacklist(&self.blacklist) {
            return Err(e);
        }
        if !store_writable {
            return Err(ConfigError::StoreDirectory);
        }
        if let Err(e) = validate_port_acl(self) {
            return Err(e);
        }
        if let Err(e) = validate_limits(self) {
            return Err(e);
        }
        if let Err(e) = validate_l7(self) {
            return Err(e);
        }
        if self.web_port == 0 {
            return Err(ConfigError::WebPort);
        }
        if let Err(e) = validate_geoip(self) {
            return Err(e);
        }
        if let Err(e) = validate_threat_intel(self) {
            return Err(e);
        }
        if let Err(e) = validate_protection_projects(&self.protection_projects) {
            return Err(e);
        }
        validate_hub(self)
    }

    /// The blocked addresses of the configuration.
    pub fn parse_blacklist(&self) -> (r: Result<Vec<IpKey>, IpError>)
        ensures
            match r {
                Ok(keys) => keys@.len() == self.blacklist@.len() && forall|i: int|
                    0 <= i < keys@.len() ==> host_value(self.blacklist@[i]@) == Ok::<
                        (u8, Seq<u8>),
                        IpError,
                    >((#[trigger] keys@[i].family, keys@[i].addr@)),
                Err(e) => exists|i: int|
                    0 <= i < self.blacklist@.len() && host_value(self.blacklist@[i]@) == Err::<
                        (u8, Seq<u8>),
                        IpError,
                    >(e) && forall|j: int|
                        0 <= j < i ==> host_value(#[trigger] self.blacklist@[j]@) is Ok,
            },
    {
        let mut keys: Vec<IpKey> = Vec::new();
        for i in 0..self.blacklist.len()
            invariant
                keys@.len() == i,
                forall|j: int|
                    0 <= j < i ==> host_value(self.blacklist@[j]@) == Ok::<
                        (u8, Seq<u8>),
                        IpError,
                    >((#[trigger] keys@[j].family, keys@[j].addr@)),
        {
            match parse_ip_or_cidr(self.blacklist[i].as_str()) {
                Ok(k) => {
                    keys.push(k);
                },
                Err(e) => {
                    assert forall|j: int| 0 <= j < i implies host_value(
                        #[trigger] self.blacklist@[j]@,
                    ) is Ok by {
                        assert(host_value(self.blacklist@[j]@) == Ok::<(u8, Seq<u8>), IpError>(
                            (keys@[j].family, keys@[j].addr@),
                        ));
                    }
                    return Err(e);
                },
            }
        }
        Ok(keys)
    }
}

proof fn lemma_blacklist_readable(list: Seq<String>, i: int, k: int)
    requires
        0 <= i <= k < list.len(),
        blacklist_fault(list, i) is None,
    ensures
        host_value(list[k]@) is Ok,
    decreases k - i,
{
    if i < k {
        lemma_blacklist_readable(list, i + 1, k);
    }
}

proof fn lemma_whitelist_readable(list: Seq<String>, i: int, k: int)
    requires
        0 <= i <= k < list.len(),
        whitelist_fault(list, i) is None,
    ensures
        cidr_value(list[k]@) is Ok,
    decreases k - i,
{
    if i < k {
        lemma_whitelist_readable(list, i + 1, k);
    }
}

proof fn lemma_rules_readable(list: Seq<PortAclItem>, i: int, k: int)
    requires
        0 <= i <= k < list.len(),
        port_rules_fault(list, i) is None,
    ensures
        entry_value(list[k].protocol@, list[k].dport@, list[k].action@) is Ok,
    decreases k - i,
{
    if i < k {
        lemma_rules_readable(list, i + 1, k);
    }
}

/// Every network, host and port rule of an accepted configuration can be read.
pub proof fn law_accepted_config_is_readable(c: &Config, k: int)
    requires
        config_fault(c, true, true) is None,
        k >= 0,
    ensures
        k < c.whitelist@.len() ==> cidr_value(c.whitelist@[k]@) is Ok,
        k < c.blacklist@.len() ==> host_value(c.blacklist@[k]@) is Ok,
        k < c.port_acl@.len() ==> entry_value(
            c.port_acl@[k].protocol@,
            c.port_acl@[k].dport@,
            c.port_acl@[k].action@,
        ) is Ok,
        c.port_acl@.len() <= MAX_PORT_RULES,
        c.l7_scan.patterns@.len() <= MAX_L7_PATTERNS,
{
    if k < c.whitelist@.len() {
        lemma_whitelist_readable(c.whitelist@, 0, k);
    }
    if k < c.blacklist@.len() {
        lemma_blacklist_readable(c.blacklist@, 0, k);
    }
    if k < c.port_acl@.len() {
        lemma_rules_readable(c.port_acl@, 0, k);
    }
}

} // verus!
