//! Which configurations are accepted, and why others are not.

use crate::ip::cidr_value;
use crate::ip::host_value;
use crate::ip::ip_value;
use crate::node::config::Config;
use crate::node::config::L7PatternConfig;
use crate::node::config::PortAclItem;
use crate::node::config::ProtectionProject;
use crate::node::config::ThreatFeed;
use crate::node::port_rule::entry_value;
use crate::node::port_rule::protocol_number;
use crate::node::validate::blacklist_fault;
use crate::node::validate::config_fault;
use crate::node::validate::countries_fault;
use crate::node::validate::feeds_fault;
use crate::node::validate::modules_fault;
use crate::node::validate::patterns_fault;
use crate::node::validate::port_rules_fault;
use crate::node::validate::project_fault;
use crate::node::validate::projects_fault;
use crate::node::validate::target_family;
use crate::node::validate::targets_fault;
use crate::node::validate::urls_fault;
use crate::node::validate::whitelist_fault;
use crate::node::validate::ConfigError;
use crate::text::lowered;
use crate::text::starts_with;
use crate::text::uint_value;
use vstd::prelude::*;
use vstd::utf8::encode_utf8;

verus! {

/// The text is a network.
pub open spec fn is_network(s: Seq<char>) -> bool {
    cidr_value(s) is Ok
}

/// The text is a single host.
pub open spec fn is_host(s: Seq<char>) -> bool {
    host_value(s) is Ok
}

/// The port rule can be read.
pub open spec fn is_rule(r: PortAclItem) -> bool {
    entry_value(r.protocol@, r.dport@, r.action@) is Ok
}

/// The pattern has one to eight octets, and its mask as many.
pub open spec fn is_pattern(p: L7PatternConfig) -> bool {
    let n: nat = encode_utf8(p.pattern@).len();
    &&& 1 <= n <= 8
    &&& p.mask is Some ==> encode_utf8(p.mask->0@).len() == n
}

/// The country has a name of two octets.
pub open spec fn is_country(s: Seq<char>) -> bool {
    encode_utf8(s).len() == 2
}

/// The feed has a name, an address, an interval, a confidence out of a hundred, and drops or
/// allows.
pub open spec fn is_feed(f: ThreatFeed) -> bool {
    &&& f.name@.len() > 0
    &&& f.url@.len() > 0
    &&& f.interval_s > 0
    &&& f.confidence <= 100
    &&& f.action@ == "drop"@ || f.action@ == "allow"@
}

/// The address of a hub names its scheme.
pub open spec fn is_hub_url(s: Seq<char>) -> bool {
    s.len() > 0 && (starts_with(s, "http://"@) || starts_with(s, "https://"@))
}

/// The text names a module that a service can switch on.
pub open spec fn names_module(s: Seq<char>) -> bool {
    ||| s == "syn_flood"@
    ||| s == "udp_flood"@
    ||| s == "icmp_flood"@
    ||| s == "rate_limit"@
    ||| s == "adaptive"@
    ||| s == "l7_scan"@
    ||| s == "geoip"@
    ||| s == "tcp_reset"@
    ||| s == "port_acl"@
}

/// The text names an address, or a network that is no broader than /24 in IPv4.
pub open spec fn is_target(s: Seq<char>) -> bool {
    ip_value(s) is Some || match cidr_value(s) {
        Ok(n) => n.0 != 4 || n.2 >= 24,
        Err(_) => false,
    }
}

/// The text names something in IPv4.
pub open spec fn is_ipv4_target(s: Seq<char>) -> bool {
    match ip_value(s) {
        Some(a) => a.0 == 4,
        None => match cidr_value(s) {
            Ok(n) => n.0 == 4,
            Err(_) => false,
        },
    }
}

/// The service is well described: it has a name, a protocol, a port or all, an action, known
/// modules, and targets of which one at least is in IPv4.
pub open spec fn is_service(p: ProtectionProject) -> bool {
    &&& p.name@.len() > 0
    &&& protocol_number(p.protocol@) is Some
    &&& p.dport@.len() > 0
    &&& p.dport@ == "any"@ || uint_value(p.dport@, 0xffff) is Some
    &&& lowered(p.action@) == "pass"@ || lowered(p.action@) == "drop"@ || lowered(p.action@)
        == "defend"@
    &&& forall|j: int|
        0 <= j < p.enabled_modules@.len() ==> names_module((#[trigger] p.enabled_modules@[j])@)
    &&& p.target_ips@.len() > 0
    &&& forall|j: int| 0 <= j < p.target_ips@.len() ==> is_target((#[trigger] p.target_ips@[j])@)
    &&& exists|j: int|
        0 <= j < p.target_ips@.len() && is_ipv4_target((#[trigger] p.target_ips@[j])@)
}

proof fn lemma_whitelist(list: Seq<String>, i: int)
    requires
        0 <= i <= list.len(),
    ensures
        whitelist_fault(list, i) is None <==> forall|k: int| i <= k < list.len() ==> is_network((#[trigger] list[k])@),
    decreases list.len() - i,
{
    if i < list.len() {
        lemma_whitelist(list, i + 1);
        if whitelist_fault(list, i) is None {
            assert forall|k: int| i <= k < list.len() implies is_network((#[trigger] list[k])@) by {
                if k > i {
                    assert(i + 1 <= k);
                }
            }
        }
    }
}

proof fn lemma_blacklist(list: Seq<String>, i: int)
    requires
        0 <= i <= list.len(),
    ensures
        blacklist_fault(list, i) is None <==> forall|k: int| i <= k < list.len() ==> is_host((#[trigger] list[k])@),
    decreases list.len() - i,
{
    if i < list.len() {
        lemma_blacklist(list, i + 1);
        if blacklist_fault(list, i) is None {
            assert forall|k: int| i <= k < list.len() implies is_host((#[trigger] list[k])@) by {
                if k > i {
                    assert(i + 1 <= k);
                }
            }
        }
    }
}

proof fn lemma_rules(list: Seq<PortAclItem>, i: int)
    requires
        0 <= i <= list.len(),
    ensures
        port_rules_fault(list, i) is None <==> forall|k: int| i <= k < list.len() ==> is_rule(#[trigger] list[k]),
    decreases list.len() - i,
{
    if i < list.len() {
        lemma_rules(list, i + 1);
        if port_rules_fault(list, i) is None {
            assert forall|k: int| i <= k < list.len() implies is_rule(#[trigger] list[k]) by {
                if k > i {
                    assert(i + 1 <= k);
                }
            }
        }
    }
}

proof fn lemma_patterns(list: Seq<L7PatternConfig>, i: int)
    requires
        0 <= i <= list.len(),
    ensures
        patterns_fault(list, i) is None <==> forall|k: int| i <= k < list.len() ==> is_pattern(#[trigger] list[k]),
    decreases list.len() - i,
{
    if i < list.len() {
        lemma_patterns(list, i + 1);
        if patterns_fault(list, i) is None {
            assert forall|k: int| i <= k < list.len() implies is_pattern(#[trigger] list[k]) by {
                if k > i {
                    assert(i + 1 <= k);
                }
            }
        }
    }
}

proof fn lemma_countries(list: Seq<String>, i: int, block: bool)
    requires
        0 <= i <= list.len(),
    ensures
        countries_fault(list, i, block) is None <==> forall|k: int| i <= k < list.len() ==> is_country((#[trigger] list[k])@),
    decreases list.len() - i,
{
    if i < list.len() {
        lemma_countries(list, i + 1, block);
        if countries_fault(list, i, block) is None {
            assert forall|k: int| i <= k < list.len() implies is_country((#[trigger] list[k])@) by {
                if k > i {
                    assert(i + 1 <= k);
                }
            }
        }
    }
}

proof fn lemma_feeds(list: Seq<ThreatFeed>, i: int)
    requires
        0 <= i <= list.len(),
    ensures
        feeds_fault(list, i) is None <==> forall|k: int| i <= k < list.len() ==> is_feed(#[trigger] list[k]),
    decreases list.len() - i,
{
    if i < list.len() {
        lemma_feeds(list, i + 1);
        if feeds_fault(list, i) is None {
            assert forall|k: int| i <= k < list.len() implies is_feed(#[trigger] list[k]) by {
                if k > i {
                    assert(i + 1 <= k);
                }
            }
        }
    }
}

proof fn lemma_urls(list: Seq<String>, i: int)
    requires
        0 <= i <= list.len(),
    ensures
        urls_fault(list, i) is None <==> forall|k: int| i <= k < list.len() ==> is_hub_url((#[trigger] list[k])@),
    decreases list.len() - i,
{
    if i < list.len() {
        lemma_urls(list, i + 1);
        if urls_fault(list, i) is None {
            assert forall|k: int| i <= k < list.len() implies is_hub_url((#[trigger] list[k])@) by {
                if k > i {
                    assert(i + 1 <= k);
                }
            }
        }
    }
}

proof fn lemma_modules(list: Seq<String>, i: int, n: int)
    requires
        0 <= i <= list.len(),
    ensures
        modules_fault(list, n, i) is None <==> forall|k: int| i <= k < list.len() ==> names_module((#[trigger] list[k])@),
    decreases list.len() - i,
{
    if i < list.len() {
        lemma_modules(list, i + 1, n);
        if modules_fault(list, n, i) is None {
            assert forall|k: int| i <= k < list.len() implies names_module((#[trigger] list[k])@) by {
                if k > i {
                    assert(i + 1 <= k);
                }
            }
        }
    }
}

proof fn lemma_targets(list: Seq<String>, n: int, i: int, v4: bool)
    requires
        0 <= i <= list.len(),
    ensures
        targets_fault(list, n, i, v4) is None <==> (forall|k: int|
            i <= k < list.len() ==> is_target((#[trigger] list[k])@)) && (v4 || exists|k: int|
            i <= k < list.len() && is_ipv4_target((#[trigger] list[k])@)),
    decreases list.len() - i,
{
    if i < list.len() {
        let f: Result<u8, ConfigError> = target_family(list[i]@, n, i);
        match f {
            Ok(g) => {
                assert(is_target(list[i]@));
                assert(g == 4 <==> is_ipv4_target(list[i]@));
                lemma_targets(list, n, i + 1, v4 || g == 4);
                if targets_fault(list, n, i, v4) is None {
                    assert forall|k: int| i <= k < list.len() implies is_target(
                        (#[trigger] list[k])@,
                    ) by {
                        if k > i {
                            assert(i + 1 <= k);
                        }
                    }
                }
            },
            Err(e) => {
                assert(!is_target(list[i]@));
            },
        }
    }
}

proof fn lemma_service(p: ProtectionProject, i: int)
    ensures
        project_fault(p, i) is None <==> is_service(p),
{
    lemma_modules(p.enabled_modules@, 0, i);
    lemma_targets(p.target_ips@, i, 0, false);
}

proof fn lemma_services(list: Seq<ProtectionProject>, i: int)
    requires
        0 <= i <= list.len(),
    ensures
        projects_fault(list, i) is None <==> forall|k: int| i <= k < list.len() ==> is_service(#[trigger] list[k]),
    decreases list.len() - i,
{
    if i < list.len() {
        lemma_services(list, i + 1);
        lemma_service(list[i], i);
        if projects_fault(list, i) is None {
            assert forall|k: int| i <= k < list.len() implies is_service(#[trigger] list[k]) by {
                if k > i {
                    assert(i + 1 <= k);
                }
            }
        }
    }
}

/// The limits of a configuration make sense: none of those that are on is zero.
pub open spec fn has_limits(c: &Config) -> bool {
    &&& c.rate_limit.enabled ==> c.rate_limit.threshold > 0 && c.rate_limit.tick_ms > 0
        && c.rate_limit.decay_den > 0
    &&& c.port_rate_limit.enabled ==> c.port_rate_limit.threshold > 0 && c.port_rate_limit.tick_ms
        > 0 && c.port_rate_limit.decay_den > 0
    &&& c.adaptive.enabled ==> c.adaptive.threshold > 0
    &&& c.conn_track.threshold > 0
    &&& c.conn_track.window_ms > 0
}

/// The rules of a configuration can be handed to the packet path.
pub open spec fn has_rules(c: &Config) -> bool {
    &&& forall|k: int| 0 <= k < c.whitelist@.len() ==> is_network((#[trigger] c.whitelist@[k])@)
    &&& forall|k: int| 0 <= k < c.blacklist@.len() ==> is_host((#[trigger] c.blacklist@[k])@)
    &&& c.port_acl@.len() <= 32
    &&& forall|k: int| 0 <= k < c.port_acl@.len() ==> is_rule(#[trigger] c.port_acl@[k])
    &&& c.l7_scan.patterns@.len() <= 8
    &&& forall|k: int|
        0 <= k < c.l7_scan.patterns@.len() ==> is_pattern(#[trigger] c.l7_scan.patterns@[k])
    &&& forall|k: int|
        0 <= k < c.protection_projects@.len() ==> is_service(#[trigger] c.protection_projects@[k])
}

/// What a configuration takes from outside is well described, as far as it is on: regions,
/// feeds and the hub.
pub open spec fn has_sources(c: &Config) -> bool {
    &&& c.geoip.enabled ==> {
        &&& c.geoip.default_action@ == "pass"@ || c.geoip.default_action@ == "drop"@
        &&& forall|k: int|
            0 <= k < c.geoip.block_countries@.len() ==> is_country(
                (#[trigger] c.geoip.block_countries@[k])@,
            )
        &&& forall|k: int|
            0 <= k < c.geoip.allow_countries@.len() ==> is_country(
                (#[trigger] c.geoip.allow_countries@[k])@,
            )
    }
    &&& c.threat_intel.enabled ==> forall|k: int|
        0 <= k < c.threat_intel.feeds@.len() ==> is_feed(#[trigger] c.threat_intel.feeds@[k])
    &&& c.hub.enabled ==> {
        &&& c.hub.node_name@.len() > 0
        &&& c.hub.urls@.len() > 0
        &&& c.hub.token@.len() > 0
        &&& forall|k: int| 0 <= k < c.hub.urls@.len() ==> is_hub_url((#[trigger] c.hub.urls@[k])@)
        &&& c.hub.sync_pull_interval_s > 0
        &&& c.hub.sync_push_interval_s > 0
        &&& c.hub.push_min_hit_count > 0
        &&& c.hub.sync_rules_interval_s > 0
    }
}

/// A configuration is accepted where its interface is there, its store can be written, its
/// console has a port, and its limits, its rules and its sources are in order; and only
/// there.
pub proof fn law_sound_configuration_is_accepted(
    c: &Config,
    interface_visible: bool,
    store_writable: bool,
)
    ensures
        config_fault(c, interface_visible, store_writable) is None <==> {
            &&& c.interface@.len() > 0
            &&& interface_visible
            &&& store_writable
            &&& c.web_port > 0
            &&& has_limits(c)
            &&& has_rules(c)
            &&& has_sources(c)
        },
{
    lemma_whitelist(c.whitelist@, 0);
    lemma_blacklist(c.blacklist@, 0);
    lemma_rules(c.port_acl@, 0);
    lemma_patterns(c.l7_scan.patterns@, 0);
    lemma_countries(c.geoip.block_countries@, 0, true);
    lemma_countries(c.geoip.allow_countries@, 0, false);
    lemma_feeds(c.threat_intel.feeds@, 0);
    lemma_services(c.protection_projects@, 0);
    lemma_urls(c.hub.urls@, 0);
    let base: bool = c.interface@.len() > 0 && interface_visible && store_writable && c.web_port
        > 0;
    let f: Option<ConfigError> = config_fault(c, interface_visible, store_writable);
    assert(crate::node::validate::limits_fault(c) is None <==> has_limits(c));
    let rules: bool = whitelist_fault(c.whitelist@, 0) is None && blacklist_fault(c.blacklist@, 0)
        is None && crate::node::validate::port_acl_fault(c) is None
        && crate::node::validate::l7_fault(c) is None && projects_fault(c.protection_projects@, 0)
        is None;
    assert(rules <==> has_rules(c));
    let sources: bool = crate::node::validate::geoip_fault(c) is None
        && crate::node::validate::threat_intel_fault(c) is None
        && crate::node::validate::hub_fault(c) is None;
    assert(sources <==> has_sources(c));
    assert(f is None <==> base && crate::node::validate::limits_fault(c) is None && rules
        && sources);
}

/// The first network, host or port rule that cannot be read is the one that is named.
pub proof fn law_first_bad_entry_is_named(list: Seq<String>, rules: Seq<PortAclItem>, i: int)
    requires
        0 <= i,
        forall|k: int| 0 <= k < i && k < list.len() ==> is_network((#[trigger] list[k])@) && is_host(
            list[k]@,
        ),
        forall|k: int| 0 <= k < i && k < rules.len() ==> is_rule(#[trigger] rules[k]),
    ensures
        i < list.len() && i <= usize::MAX ==> (cidr_value(list[i]@) matches Err(e)
            ==> whitelist_fault(list, 0) == Some(ConfigError::Whitelist(i as usize, e))),
        i < list.len() && i <= usize::MAX ==> (host_value(list[i]@) matches Err(e)
            ==> blacklist_fault(list, 0) == Some(ConfigError::Blacklist(i as usize, e))),
        i < rules.len() && i <= usize::MAX ==> (entry_value(
            rules[i].protocol@,
            rules[i].dport@,
            rules[i].action@,
        ) matches Err(e) ==> port_rules_fault(rules, 0) == Some(
            ConfigError::PortRule(i as usize, e),
        )),
{
    if i < list.len() {
        lemma_first_network(list, 0, i);
        lemma_first_host(list, 0, i);
    }
    if i < rules.len() {
        lemma_first_rule(rules, 0, i);
    }
}

proof fn lemma_first_network(list: Seq<String>, j: int, i: int)
    requires
        0 <= j <= i < list.len(),
        forall|k: int| j <= k < i ==> is_network((#[trigger] list[k])@),
    ensures
        whitelist_fault(list, j) == whitelist_fault(list, i),
    decreases i - j,
{
    if j < i {
        assert(is_network((list[j])@));
        lemma_first_network(list, j + 1, i);
    }
}

proof fn lemma_first_host(list: Seq<String>, j: int, i: int)
    requires
        0 <= j <= i < list.len(),
        forall|k: int| j <= k < i ==> is_host((#[trigger] list[k])@),
    ensures
        blacklist_fault(list, j) == blacklist_fault(list, i),
    decreases i - j,
{
    if j < i {
        assert(is_host((list[j])@));
        lemma_first_host(list, j + 1, i);
    }
}

proof fn lemma_first_rule(list: Seq<PortAclItem>, j: int, i: int)
    requires
        0 <= j <= i < list.len(),
        forall|k: int| j <= k < i ==> is_rule(#[trigger] list[k]),
    ensures
        port_rules_fault(list, j) == port_rules_fault(list, i),
    decreases i - j,
{
    if j < i {
        assert(is_rule(list[j]));
        lemma_first_rule(list, j + 1, i);
    }
}

} // verus!
