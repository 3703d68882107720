//! Copies of parts of a configuration.

use crate::node::config::GeoIpConfig;
use crate::node::config::L7PatternConfig;
use crate::node::config::L7ScanConfig;
use crate::node::config::PortAclItem;
use crate::node::config::ProtectionProject;
use crate::node::config::ThreatFeed;
use vstd::prelude::*;

verus! {

/// Two projects say the same.
pub open spec fn same_project(a: ProtectionProject, b: ProtectionProject) -> bool {
    &&& a.name == b.name
    &&& a.description == b.description
    &&& a.protocol == b.protocol
    &&& a.dport == b.dport
    &&& a.target_ips@ == b.target_ips@
    &&& a.enabled_modules@ == b.enabled_modules@
    &&& a.action == b.action
}

/// Two lists of projects say the same.
pub open spec fn same_projects(a: Seq<ProtectionProject>, b: Seq<ProtectionProject>) -> bool {
    &&& a.len() == b.len()
    &&& forall|i: int| 0 <= i < a.len() ==> same_project(#[trigger] a[i], b[i])
}

/// Two region filters say the same.
pub open spec fn same_geoip(a: GeoIpConfig, b: GeoIpConfig) -> bool {
    &&& a.enabled == b.enabled
    &&& a.db_path == b.db_path
    &&& a.country_blocks_csv == b.country_blocks_csv
    &&& a.asn_blocks_csv == b.asn_blocks_csv
    &&& a.block_countries@ == b.block_countries@
    &&& a.allow_countries@ == b.allow_countries@
    &&& a.block_asns@ == b.block_asns@
    &&& a.allow_asns@ == b.allow_asns@
    &&& a.default_action == b.default_action
}

/// Two signature scans say the same.
pub open spec fn same_l7(a: L7ScanConfig, b: L7ScanConfig) -> bool {
    a.enabled == b.enabled && a.patterns@ == b.patterns@
}

pub fn copy_text(s: &Option<String>) -> (r: Option<String>)
    ensures
        r == *s,
{
    match s {
        Some(t) => Some(t.clone()),
        None => None,
    }
}

pub fn copy_list(v: &Vec<String>) -> (r: Vec<String>)
    ensures
        r@ == v@,
{
    let mut out: Vec<String> = Vec::new();
    for i in 0..v.len()
        invariant
            out@ == v@.take(i as int),
    {
        out.push(v[i].clone());
        assert(out@ =~= v@.take(i + 1));
    }
    assert(v@.take(v@.len() as int) =~= v@);
    out
}

fn copy_numbers(v: &Vec<u32>) -> (r: Vec<u32>)
    ensures
        r@ == v@,
{
    let mut out: Vec<u32> = Vec::new();
    for i in 0..v.len()
        invariant
            out@ == v@.take(i as int),
    {
        out.push(v[i]);
        assert(out@ =~= v@.take(i + 1));
    }
    assert(v@.take(v@.len() as int) =~= v@);
    out
}

pub fn copy_port_acl(v: &Vec<PortAclItem>) -> (r: Vec<PortAclItem>)
    ensures
        r@ == v@,
{
    let mut out: Vec<PortAclItem> = Vec::new();
    for i in 0..v.len()
        invariant
            out@ == v@.take(i as int),
    {
        let item: &PortAclItem = &v[i];
        out.push(
            PortAclItem {
                protocol: item.protocol.clone(),
                dport: item.dport.clone(),
                action: item.action.clone(),
            },
        );
        assert(out@ =~= v@.take(i + 1));
    }
    assert(v@.take(v@.len() as int) =~= v@);
    out
}

pub fn copy_patterns(v: &Vec<L7PatternConfig>) -> (r: Vec<L7PatternConfig>)
    ensures
        r@ == v@,
{
    let mut out: Vec<L7PatternConfig> = Vec::new();
    for i in 0..v.len()
        invariant
            out@ == v@.take(i as int),
    {
        let p: &L7PatternConfig = &v[i];
        out.push(L7PatternConfig { pattern: p.pattern.clone(), mask: copy_text(&p.mask) });
        assert(out@ =~= v@.take(i + 1));
    }
    assert(v@.take(v@.len() as int) =~= v@);
    out
}

pub fn copy_feeds(v: &Vec<ThreatFeed>) -> (r: Vec<ThreatFeed>)
    ensures
        r@ == v@,
{
    let mut out: Vec<ThreatFeed> = Vec::new();
    for i in 0..v.len()
        invariant
            out@ == v@.take(i as int),
    {
        let f: &ThreatFeed = &v[i];
        out.push(
            ThreatFeed {
                name: f.name.clone(),
                url: f.url.clone(),
                interval_s: f.interval_s,
                confidence: f.confidence,
                category: copy_text(&f.category),
                action: f.action.clone(),
            },
        );
        assert(out@ =~= v@.take(i + 1));
    }
    assert(v@.take(v@.len() as int) =~= v@);
    out
}

pub fn copy_projects(v: &Vec<ProtectionProject>) -> (r: Vec<ProtectionProject>)
    ensures
        same_projects(r@, v@),
{
    let mut out: Vec<ProtectionProject> = Vec::new();
    for i in 0..v.len()
        invariant
            same_projects(out@, v@.take(i as int)),
    {
        let p: &ProtectionProject = &v[i];
        let c: ProtectionProject = ProtectionProject {
            name: p.name.clone(),
            description: p.description.clone(),
            protocol: p.protocol.clone(),
            dport: p.dport.clone(),
            target_ips: copy_list(&p.target_ips),
            enabled_modules: copy_list(&p.enabled_modules),
            action: p.action.clone(),
        };
        let ghost before = out@;
        assert(same_project(c, v@[i as int]));
        out.push(c);
        assert forall|j: int| 0 <= j < out@.len() implies same_project(
            #[trigger] out@[j],
            v@.take(i + 1)[j],
        ) by {
            if j < i {
                assert(out@[j] == before[j]);
                assert(v@.take(i + 1)[j] == v@.take(i as int)[j]);
            }
        }
    }
    assert(v@.take(v@.len() as int) =~= v@);
    out
}

pub fn copy_geoip(g: &GeoIpConfig) -> (r: GeoIpConfig)
    ensures
        same_geoip(r, *g),
{
    GeoIpConfig {
        enabled: g.enabled,
        db_path: copy_text(&g.db_path),
        country_blocks_csv: copy_text(&g.country_blocks_csv),
        asn_blocks_csv: copy_text(&g.asn_blocks_csv),
        block_countries: copy_list(&g.block_countries),
        allow_countries: copy_list(&g.allow_countries),
        block_asns: copy_numbers(&g.block_asns),
        allow_asns: copy_numbers(&g.allow_asns),
        default_action: g.default_action.clone(),
    }
}

pub fn copy_l7(c: &L7ScanConfig) -> (r: L7ScanConfig)
    ensures
        same_l7(r, *c),
{
    L7ScanConfig { enabled: c.enabled, patterns: copy_patterns(&c.patterns) }
}

} // verus!
