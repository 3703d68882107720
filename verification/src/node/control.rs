//! The decisions of the control plane: what to write where when something is blocked, let
//! through or changed.

use crate::common::BlockEntry;
use crate::common::IpKey;
use crate::common::L7Pattern;
use crate::common::PortAclEntry;
use crate::common::ProjectPolicy;
use crate::common::ProjectPolicyKey;
use crate::common::TrustEntry;
use crate::common::BLOCK_PERMANENT;
use crate::dataplane::blacklist::block_end;
use crate::dataplane::blacklist::block_holds;
use crate::dataplane::blacklist::block_until;
use crate::hub::models::NodePolicy;
use crate::hub::models::RuleBundle;
use crate::hub::models::SharedPolicy;
use crate::ip::cidr_value;
use crate::ip::host_value;
use crate::ip::parse_cidr;
use crate::ip::parse_ip_or_cidr;
use crate::ip::IpError;
use crate::key_table::KeyTable;
use crate::node::config::BlockOrigin;
use crate::node::config::Config;
use crate::node::config::HubConfig;
use crate::node::config::L7PatternConfig;
use crate::node::config::PortAclItem;
use crate::node::config::ProtectionProject;
use crate::node::projects::project_policies;
use crate::node::projects::project_table;
use crate::node::projects::ProjectsError;
use crate::node::records::l7_records;
use crate::node::records::pattern_records;
use crate::node::records::port_records;
use crate::node::records::rule_records;
use crate::node::records::RecordError;
use crate::node::snapshot::is_snapshot;
use crate::node::snapshot::RuntimeConfigSnapshot;
use crate::node::table_plan::host_of;
use crate::node::table_plan::lacking;
use crate::node::table_plan::net_of;
use crate::node::table_plan::take_out;
use crate::rules;
use crate::text::same_text;
use vstd::prelude::*;

verus! {

/// A block as the store keeps it.
#[derive(Clone, Copy, Debug)]
pub struct BlacklistRow {
    pub blocked_until_ns: u64,
    pub block_reason: u8,
    pub first_seen_ns: u64,
    pub origin: BlockOrigin,
}

/// The entry of a source that is blocked from `now_ns` on.
pub open spec fn entry_of(now_ns: u64, duration_s: u64, reason: u8) -> BlockEntry {
    BlockEntry {
        blocked_until_ns: block_end(now_ns, duration_s),
        block_reason: reason,
        hit_count: 0,
        first_seen_ns: now_ns,
    }
}

fn block_entry(now_ns: u64, duration_s: u64, reason: u8) -> (r: BlockEntry)
    ensures
        r == entry_of(now_ns, duration_s, reason),
{
    BlockEntry {
        blocked_until_ns: block_until(now_ns, duration_s),
        block_reason: reason,
        hit_count: 0,
        first_seen_ns: now_ns,
    }
}

/// The row of a source that is blocked from `now_ns` on.
pub open spec fn row_of(now_ns: u64, duration_s: u64, reason: u8, origin: BlockOrigin) -> BlacklistRow {
    BlacklistRow {
        blocked_until_ns: block_end(now_ns, duration_s),
        block_reason: reason,
        first_seen_ns: now_ns,
        origin,
    }
}

/// Who blocks, as the audit log names it.
pub open spec fn actor_text(origin: BlockOrigin) -> Seq<char> {
    match origin {
        BlockOrigin::Api => "api"@,
        BlockOrigin::Adaptive => "adaptive"@,
        BlockOrigin::ThreatIntel => "threat_intel"@,
        BlockOrigin::Hub => "hub"@,
        BlockOrigin::Local => "local"@,
    }
}

/// Who blocks, as the audit log names it.
pub fn actor_name(origin: BlockOrigin) -> (r: &'static str)
    ensures
        r@ == actor_text(origin),
{
    match origin {
        BlockOrigin::Api => "api",
        BlockOrigin::Adaptive => "adaptive",
        BlockOrigin::ThreatIntel => "threat_intel",
        BlockOrigin::Hub => "hub",
        BlockOrigin::Local => "local",
    }
}

/// A source to block: the entry for the packet path and the row for the store.
#[derive(Clone, Copy, Debug)]
pub struct BlockPlan {
    pub key: IpKey,
    pub entry: BlockEntry,
    pub row: BlacklistRow,
}

/// `p` blocks a source.
pub open spec fn blocks(
    p: BlockPlan,
    key: IpKey,
    duration_s: u64,
    reason: u8,
    origin: BlockOrigin,
    now_ns: u64,
) -> bool {
    &&& p.key == key
    &&& p.entry == entry_of(now_ns, duration_s, reason)
    &&& p.row == row_of(now_ns, duration_s, reason, origin)
}

/// A source that the hub has blocked: how to block it, and the reputation it then has.
#[derive(Clone, Copy, Debug)]
pub struct HubBlock {
    pub plan: BlockPlan,
    pub trust: Option<TrustEntry>,
}

/// What the control plane knows.
pub struct ControlState {
    pub runtime: RuntimeConfigSnapshot,
    /// The networks that the configuration lets through.
    pub whitelist: Vec<(IpKey, u32)>,
    /// The sources that the configuration blocks.
    pub blacklist: Vec<IpKey>,
    /// The networks that are blocked by region.
    pub geoip_blocks: Vec<(IpKey, u32)>,
    /// The networks that are let through by region.
    pub geoip_allows: Vec<(IpKey, u32)>,
    pub hub_connected: bool,
    pub hub_active_url: String,
    pub hub_config: HubConfig,
}

impl ControlState {
    pub fn new(config: &Config, hub_config: HubConfig, version: &str) -> (r: Self)
        ensures
            is_snapshot(r.runtime, *config, version@),
            r.whitelist@.len() == 0,
            r.blacklist@.len() == 0,
            r.geoip_blocks@.len() == 0,
            r.geoip_allows@.len() == 0,
            !r.hub_connected,
            r.hub_active_url@.len() == 0,
            r.hub_config == hub_config,
    {
        ControlState {
            runtime: RuntimeConfigSnapshot::from_config(config, version),
            whitelist: Vec::new(),
            blacklist: Vec::new(),
            geoip_blocks: Vec::new(),
            geoip_allows: Vec::new(),
            hub_connected: false,
            hub_active_url: String::new(),
            hub_config,
        }
    }

    /// Blocks a source that is named in text.
    pub fn block_ip(&self, ip_str: &str, duration_s: u64, now_ns: u64) -> (r: Result<
        BlockPlan,
        IpError,
    >)
        ensures
            match r {
                Ok(p) => host_of(ip_str@, p.key) && blocks(
                    p,
                    p.key,
                    duration_s,
                    rules::API_BLOCK as u8,
                    BlockOrigin::Api,
                    now_ns,
                ),
                Err(e) => host_value(ip_str@) == Err::<(u8, Seq<u8>), IpError>(e),
            },
    {
        match parse_ip_or_cidr(ip_str) {
            Ok(key) => Ok(
                self.block_ip_key(
                    &key,
                    duration_s,
                    rules::API_BLOCK as u8,
                    BlockOrigin::Api,
                    now_ns,
                ),
            ),
            Err(e) => Err(e),
        }
    }

    /// Blocks a source of a threat feed.
    pub fn block_ip_threat_intel(&self, key: &IpKey, duration_s: u64, now_ns: u64) -> (r: BlockPlan)
        ensures
            blocks(
                r,
                *key,
                duration_s,
                rules::THREAT_INTEL as u8,
                BlockOrigin::ThreatIntel,
                now_ns,
            ),
    {
        self.block_ip_key(
            key,
            duration_s,
            rules::THREAT_INTEL as u8,
            BlockOrigin::ThreatIntel,
            now_ns,
        )
    }

    /// Blocks a source; no seconds are for ever.
    pub fn block_ip_key(
        &self,
        key: &IpKey,
        duration_s: u64,
        reason: u8,
        origin: BlockOrigin,
        now_ns: u64,
    ) -> (r: BlockPlan)
        ensures
            blocks(r, *key, duration_s, reason, origin, now_ns),
    {
        let entry: BlockEntry = block_entry(now_ns, duration_s, reason);
        BlockPlan {
            key: *key,
            entry,
            row: BlacklistRow {
                blocked_until_ns: entry.blocked_until_ns,
                block_reason: reason,
                first_seen_ns: now_ns,
                origin,
            },
        }
    }

    /// Unblocks a source that is named in text; the source is returned.
    pub fn unblock_ip(&mut self, ip_str: &str) -> (r: Result<IpKey, IpError>)
        ensures
            match r {
                Ok(k) => host_of(ip_str@, k) && final(self).blacklist@ == lacking(
                    old(self).blacklist@,
                    k,
                ),
                Err(e) => host_value(ip_str@) == Err::<(u8, Seq<u8>), IpError>(e)
                    && final(self).blacklist@ == old(self).blacklist@,
            },
            *final(self) == (ControlState { blacklist: final(self).blacklist, ..*old(self) }),
    {
        match parse_ip_or_cidr(ip_str) {
            Ok(key) => {
                self.unblock_ip_key(&key);
                Ok(key)
            },
            Err(e) => Err(e),
        }
    }

    /// Unblocks a source.
    pub fn unblock_ip_key(&mut self, key: &IpKey)
        ensures
            final(self).blacklist@ == lacking(old(self).blacklist@, *key),
            *final(self) == (ControlState { blacklist: final(self).blacklist, ..*old(self) }),
    {
        take_out(&mut self.blacklist, key);
    }

    /// The network to let through that a text names.
    pub fn allow_cidr(&self, cidr: &str) -> (r: Result<(IpKey, u32), IpError>)
        ensures
            match r {
                Ok(n) => net_of(cidr@, n),
                Err(e) => cidr_value(cidr@) == Err::<(u8, Seq<u8>, u32), IpError>(e),
            },
    {
        parse_cidr(cidr)
    }

    /// The network that is no longer let through.
    pub fn disallow_cidr(&mut self, cidr: &str) -> (r: Result<(IpKey, u32), IpError>)
        ensures
            match r {
                Ok(n) => net_of(cidr@, n) && final(self).whitelist@ == lacking(
                    old(self).whitelist@,
                    n,
                ),
                Err(e) => cidr_value(cidr@) == Err::<(u8, Seq<u8>, u32), IpError>(e)
                    && final(self).whitelist@ == old(self).whitelist@,
            },
            *final(self) == (ControlState { whitelist: final(self).whitelist, ..*old(self) }),
    {
        match parse_cidr(cidr) {
            Ok(n) => {
                take_out(&mut self.whitelist, &n);
                Ok(n)
            },
            Err(e) => Err(e),
        }
    }

    /// Replaces the payload signatures. The records before the first pattern that has none
    /// are returned with what is wrong with that one; the settings change only where all
    /// have one.
    pub fn set_l7_patterns(&mut self, patterns: Vec<L7PatternConfig>) -> (r: (
        Vec<L7Pattern>,
        Option<RecordError>,
    ))
        ensures
            (r.0@, r.1) == pattern_records(patterns@, 0),
            final(self).runtime.l7_scan.patterns@ == if r.1 is None {
                patterns@
            } else {
                old(self).runtime.l7_scan.patterns@
            },
            final(self).runtime.l7_scan.enabled == old(self).runtime.l7_scan.enabled,
            final(self).runtime == (RuntimeConfigSnapshot {
                l7_scan: final(self).runtime.l7_scan,
                ..old(self).runtime
            }),
            *final(self) == (ControlState { runtime: final(self).runtime, ..*old(self) }),
    {
        let r: (Vec<L7Pattern>, Option<RecordError>) = l7_records(&patterns);
        if r.1.is_none() {
            self.runtime.l7_scan.patterns = patterns;
        }
        r
    }

    /// Replaces the port rules. The records before the first rule that has none are
    /// returned with what is wrong with that one; the settings change only where all have
    /// one.
    pub fn set_port_acl(&mut self, items: Vec<PortAclItem>) -> (r: (
        Vec<PortAclEntry>,
        Option<RecordError>,
    ))
        ensures
            (r.0@, r.1) == rule_records(items@, 0),
            final(self).runtime.port_acl@ == if r.1 is None {
                items@
            } else {
                old(self).runtime.port_acl@
            },
            final(self).runtime == (RuntimeConfigSnapshot {
                port_acl: final(self).runtime.port_acl,
                ..old(self).runtime
            }),
            *final(self) == (ControlState { runtime: final(self).runtime, ..*old(self) }),
    {
        let r: (Vec<PortAclEntry>, Option<RecordError>) = port_records(&items);
        if r.1.is_none() {
            self.runtime.port_acl = items;
        }
        r
    }

    /// Replaces the protected services, unless they cannot be handed to the packet path.
    pub fn set_protection_projects(&mut self, projects: Vec<ProtectionProject>) -> (r: Result<
        Vec<(ProjectPolicyKey, ProjectPolicy)>,
        ProjectsError,
    >)
        ensures
            project_table(projects@, r),
            final(self).runtime.protection_projects@ == if r is Ok {
                projects@
            } else {
                old(self).runtime.protection_projects@
            },
            final(self).runtime == (RuntimeConfigSnapshot {
                protection_projects: final(self).runtime.protection_projects,
                ..old(self).runtime
            }),
            *final(self) == (ControlState { runtime: final(self).runtime, ..*old(self) }),
    {
        let r: Result<Vec<(ProjectPolicyKey, ProjectPolicy)>, ProjectsError> = project_policies(
            &projects,
        );
        if r.is_ok() {
            self.runtime.protection_projects = projects;
        }
        r
    }

    /// The reputation of a source as the hub is told it, from 0 to 100.
    pub fn lookup_trust_score(trust: &KeyTable<TrustEntry>, key: &IpKey) -> (r: u32)
        requires
            trust.wf(),
        ensures
            r == trust_percent(trust.map(), *key),
    {
        match trust.get(key) {
            Some(e) => {
                let p: u32 = e.trust_score / 10;
                if p > 100 {
                    100
                } else {
                    p
                }
            },
            None => 0,
        }
    }

    /// The blocks that the hub is told of, the first that fit.
    pub fn collect_hub_publishable_policies(
        &self,
        rows: &Vec<(IpKey, BlacklistRow)>,
        held: &KeyTable<BlockEntry>,
        trust: &KeyTable<TrustEntry>,
        limits: &PublishLimits,
        now_ns: u64,
    ) -> (r: Vec<NodePolicy>)
        requires
            held.wf(),
            trust.wf(),
        ensures
            r@ == publishable(rows@, held.map(), trust.map(), *limits, now_ns, limits.batch()),
    {
        let mut out: Vec<NodePolicy> = Vec::new();
        let max: usize = if limits.max == 0 {
            1
        } else {
            limits.max
        };
        let ghost all = publishable(
            rows@,
            held.map(),
            trust.map(),
            *limits,
            now_ns,
            limits.batch(),
        );
        let mut i: usize = 0;
        assert(rows@.skip(0) =~= rows@);
        assert(all =~= out@ + all);
        while i < rows.len() && out.len() < max
            invariant
                held.wf(),
                trust.wf(),
                max == limits.batch(),
                i <= rows@.len(),
                out@.len() <= max,
                all == out@ + publishable(
                    rows@.skip(i as int),
                    held.map(),
                    trust.map(),
                    *limits,
                    now_ns,
                    (max - out@.len()) as nat,
                ),
            decreases rows@.len() - i,
        {
            let ghost rest = rows@.skip(i as int);
            let ghost before = out@;
            assert(rest[0] == rows@[i as int]);
            assert(rest.skip(1) =~= rows@.skip(i + 1));
            let key: IpKey = rows[i].0;
            let row: BlacklistRow = rows[i].1;
            if row.first_seen_ns >= limits.since_ns && row.origin.publishable() {
                if let Some(e) = held.get(&key) {
                    let score: u32 = ControlState::lookup_trust_score(trust, &key);
                    let ended: bool = row.blocked_until_ns != BLOCK_PERMANENT
                        && row.blocked_until_ns <= now_ns;
                    let weak: bool = e.hit_count < limits.min_hits && ended;
                    if !weak && score <= limits.min_trust {
                        let ttl_s: u64 = remaining_s(row.blocked_until_ns, now_ns);
                        let p: NodePolicy = NodePolicy {
                            ip: key,
                            reason: row.block_reason,
                            hit_count: e.hit_count,
                            trust_score: score,
                            blocked_until_ns: row.blocked_until_ns,
                            ttl_s,
                        };
                        out.push(p);
                        assert(published(
                            rest[0],
                            held.map(),
                            trust.map(),
                            *limits,
                            now_ns,
                        ) == Some(p));
                        assert(all =~= out@ + publishable(
                            rows@.skip(i + 1),
                            held.map(),
                            trust.map(),
                            *limits,
                            now_ns,
                            (max - out@.len()) as nat,
                        ));
                    }
                }
            }
            i = i + 1;
        }
        assert(all =~= out@);
        out
    }

    /// What the policies of the hub block here: not what is blocked already, and not what
    /// this node itself reported.
    pub fn apply_hub_policies(
        &self,
        policies: &Vec<SharedPolicy>,
        held: &KeyTable<BlockEntry>,
        now_ns: u64,
    ) -> (r: Vec<HubBlock>)
        requires
            held.wf(),
        ensures
            r@ == hub_blocks(
                policies@,
                held.map(),
                self.hub_config.node_name@,
                self.runtime.trust_enabled,
                now_ns,
            ),
    {
        let mut out: Vec<HubBlock> = Vec::new();
        for i in 0..policies.len()
            invariant
                held.wf(),
                out@ == hub_blocks(
                    policies@.take(i as int),
                    held.map(),
                    self.hub_config.node_name@,
                    self.runtime.trust_enabled,
                    now_ns,
                ),
        {
            assert(policies@.take(i + 1).drop_last() =~= policies@.take(i as int));
            assert(policies@.take(i + 1).last() == policies@[i as int]);
            let p: &SharedPolicy = &policies[i];
            let known: bool = held.get(&p.ip).is_some();
            if !known && !comes_from_node(p, self.hub_config.node_name.as_str()) {
                let duration_s: u64 = hub_duration(p.ttl_s);
                let plan: BlockPlan = self.block_ip_key(
                    &p.ip,
                    duration_s,
                    p.reason,
                    BlockOrigin::Hub,
                    now_ns,
                );
                let trust: Option<TrustEntry> = if p.trust_score > 0 && self.runtime.trust_enabled {
                    let score: u32 = if p.trust_score >= 100 {
                        1000
                    } else {
                        p.trust_score * 10
                    };
                    Some(TrustEntry::blank(score, now_ns))
                } else {
                    None
                };
                out.push(HubBlock { plan, trust });
            }
        }
        assert(policies@.take(policies@.len() as int) =~= policies@);
        out
    }

    /// Which of the addresses that the hub no longer blocks are to be unblocked here: those
    /// that the hub had blocked.
    pub fn unblock_hub_policies(&self, ips: &Vec<IpKey>, rows: &Vec<(IpKey, BlacklistRow)>) -> (r:
        Vec<IpKey>)
        ensures
            r@ == hubs_own(ips@, rows@),
    {
        let mut out: Vec<IpKey> = Vec::new();
        for i in 0..ips.len()
            invariant
                out@ == hubs_own(ips@.take(i as int), rows@),
        {
            assert(ips@.take(i + 1).drop_last() =~= ips@.take(i as int));
            assert(ips@.take(i + 1).last() == ips@[i as int]);
            if hub_holds(rows, &ips[i]) {
                out.push(ips[i]);
            }
        }
        assert(ips@.take(ips@.len() as int) =~= ips@);
        out
    }

    fn set_filters(
        &mut self,
        patterns: Vec<L7PatternConfig>,
        projects: Vec<ProtectionProject>,
    ) -> (r: (
        (Vec<L7Pattern>, Option<RecordError>),
        Option<Result<Vec<(ProjectPolicyKey, ProjectPolicy)>, ProjectsError>>,
    ))
        ensures
            (r.0.0@, r.0.1) == pattern_records(patterns@, 0),
            r.1 is Some == r.0.1 is None,
            r.1 is Some ==> project_table(projects@, r.1->0),
            final(self).runtime.l7_scan.patterns@ == if r.0.1 is None {
                patterns@
            } else {
                old(self).runtime.l7_scan.patterns@
            },
            final(self).runtime.l7_scan.enabled == old(self).runtime.l7_scan.enabled,
            final(self).runtime.protection_projects@ == if r.1 is Some && r.1->0 is Ok {
                projects@
            } else {
                old(self).runtime.protection_projects@
            },
            final(self).runtime == (RuntimeConfigSnapshot {
                l7_scan: final(self).runtime.l7_scan,
                protection_projects: final(self).runtime.protection_projects,
                ..old(self).runtime
            }),
            *final(self) == (ControlState { runtime: final(self).runtime, ..*old(self) }),
    {
        let r: (Vec<L7Pattern>, Option<RecordError>) = self.set_l7_patterns(patterns);
        if r.1.is_some() {
            return (r, None);
        }
        let table: Result<Vec<(ProjectPolicyKey, ProjectPolicy)>, ProjectsError> =
            self.set_protection_projects(projects);
        (r, Some(table))
    }

    /// Takes over the rules that the hub hands out: the port rules, then the payload
    /// signatures, then the protected services. It stops at the first that cannot be
    /// handed to the packet path.
    pub fn apply_hub_rules(&mut self, bundle: RuleBundle) -> (r: HubRules)
        ensures
            ({
                let ports = rule_records(bundle.port_acl@, 0);
                let patterns = pattern_records(bundle.l7_patterns@, 0);
                &&& (r.ports@, r.port_fault) == ports
                &&& (match r.patterns {
                    Some(p) => ports.1 is None && (p.0@, p.1) == patterns,
                    None => ports.1 is Some,
                })
                &&& (match r.projects {
                    Some(t) => ports.1 is None && patterns.1 is None && project_table(
                        bundle.protection_projects@,
                        t,
                    ),
                    None => ports.1 is Some || patterns.1 is Some,
                })
                &&& final(self).runtime.port_acl@ == if ports.1 is None {
                    bundle.port_acl@
                } else {
                    old(self).runtime.port_acl@
                }
                &&& final(self).runtime.l7_scan.patterns@ == if ports.1 is None && patterns.1
                    is None {
                    bundle.l7_patterns@
                } else {
                    old(self).runtime.l7_scan.patterns@
                }
            }),
            final(self).runtime.protection_projects@ == if r.projects is Some && r.projects->0
                is Ok {
                bundle.protection_projects@
            } else {
                old(self).runtime.protection_projects@
            },
            final(self).runtime.l7_scan.enabled == old(self).runtime.l7_scan.enabled,
            final(self).runtime == (RuntimeConfigSnapshot {
                port_acl: final(self).runtime.port_acl,
                l7_scan: final(self).runtime.l7_scan,
                protection_projects: final(self).runtime.protection_projects,
                ..old(self).runtime
            }),
            *final(self) == (ControlState { runtime: final(self).runtime, ..*old(self) }),
    {
        let ports: (Vec<PortAclEntry>, Option<RecordError>) = self.set_port_acl(bundle.port_acl);
        if ports.1.is_some() {
            return HubRules {
                ports: ports.0,
                port_fault: ports.1,
                patterns: None,
                projects: None,
            };
        }
        let rest = self.set_filters(bundle.l7_patterns, bundle.protection_projects);
        HubRules {
            ports: ports.0,
            port_fault: None,
            patterns: Some(rest.0),
            projects: rest.1,
        }
    }
}

/// Whether the kept row of a network goes: it is of the prefix that was asked for. A row
/// of another network with the same address stays.
pub fn removes_row(stored: u32, asked: u32) -> (r: bool)
    ensures
        r == (stored == asked),
{
    stored == asked
}

/// What the rules of the hub put into the tables of the packet path; the signatures only
/// where the port rules were good, the protected services only where both were.
pub struct HubRules {
    pub ports: Vec<PortAclEntry>,
    pub port_fault: Option<RecordError>,
    pub patterns: Option<(Vec<L7Pattern>, Option<RecordError>)>,
    pub projects: Option<Result<Vec<(ProjectPolicyKey, ProjectPolicy)>, ProjectsError>>,
}

/// The reputation of a source from 0 to 100; 0 where it has none.
pub open spec fn trust_percent(trust: Map<IpKey, TrustEntry>, k: IpKey) -> u32 {
    if trust.contains_key(k) {
        if trust[k].trust_score / 10 > 100 {
            100
        } else {
            trust[k].trust_score / 10
        }
    } else {
        0
    }
}

/// Which blocks the hub is told of.
#[derive(Clone, Copy, Debug)]
pub struct PublishLimits {
    /// Blocks from before this time were told already.
    pub since_ns: u64,
    /// A block that has ended needs as many hits.
    pub min_hits: u32,
    /// A source with a better reputation is not told.
    pub min_trust: u32,
    /// How many are told at once; one at least.
    pub max: usize,
}

impl PublishLimits {
    pub open spec fn batch(&self) -> nat {
        if self.max == 0 {
            1
        } else {
            self.max as nat
        }
    }
}

/// For how many full seconds a block still holds, one at least; 0 where it never ends.
pub open spec fn left_s(until: u64, now_ns: u64) -> u64 {
    if until == 0 {
        0
    } else if until - now_ns < 2_000_000_000 {
        1
    } else {
        ((until - now_ns) / 1_000_000_000) as u64
    }
}

fn remaining_s(until: u64, now_ns: u64) -> (r: u64)
    ensures
        r == left_s(until, now_ns),
{
    if until == BLOCK_PERMANENT {
        return 0;
    }
    let left: u64 = until.saturating_sub(now_ns) / 1_000_000_000;
    if left == 0 {
        1
    } else {
        left
    }
}

/// What the hub is told of a block, where it is told at all.
pub open spec fn published(
    item: (IpKey, BlacklistRow),
    held: Map<IpKey, BlockEntry>,
    trust: Map<IpKey, TrustEntry>,
    limits: PublishLimits,
    now_ns: u64,
) -> Option<NodePolicy> {
    let k: IpKey = item.0;
    let row: BlacklistRow = item.1;
    if row.first_seen_ns < limits.since_ns || row.origin == BlockOrigin::Hub || !held.contains_key(
        k,
    ) {
        None
    } else if held[k].hit_count < limits.min_hits && !block_holds(row.blocked_until_ns, now_ns) {
        None
    } else if trust_percent(trust, k) > limits.min_trust {
        None
    } else {
        Some(
            NodePolicy {
                ip: k,
                reason: row.block_reason,
                hit_count: held[k].hit_count,
                trust_score: trust_percent(trust, k),
                blocked_until_ns: row.blocked_until_ns,
                ttl_s: left_s(row.blocked_until_ns, now_ns),
            },
        )
    }
}

/// What the hub is told of a list of blocks, the first `n` at most.
pub open spec fn publishable(
    rows: Seq<(IpKey, BlacklistRow)>,
    held: Map<IpKey, BlockEntry>,
    trust: Map<IpKey, TrustEntry>,
    limits: PublishLimits,
    now_ns: u64,
    n: nat,
) -> Seq<NodePolicy>
    decreases rows.len(),
{
    if rows.len() == 0 || n == 0 {
        Seq::empty()
    } else {
        match published(rows[0], held, trust, limits, now_ns) {
            Some(p) => seq![p] + publishable(
                rows.skip(1),
                held,
                trust,
                limits,
                now_ns,
                (n - 1) as nat,
            ),
            None => publishable(rows.skip(1), held, trust, limits, now_ns, n),
        }
    }
}

/// The node reported the policy itself.
pub open spec fn reported_by(p: SharedPolicy, node: Seq<char>) -> bool {
    node.len() > 0 && exists|i: int|
        0 <= i < p.source_nodes@.len() && (#[trigger] p.source_nodes@[i])@ == node
}

fn comes_from_node(p: &SharedPolicy, node: &str) -> (r: bool)
    ensures
        r == reported_by(*p, node@),
{
    if same_text(node, "") {
        proof {
            reveal_strlit("");
        }
        return false;
    }
    proof {
        reveal_strlit("");
        if node@.len() == 0 {
            assert(node@ =~= ""@);
        }
    }
    for i in 0..p.source_nodes.len()
        invariant
            node@.len() > 0,
            forall|j: int| 0 <= j < i ==> (#[trigger] p.source_nodes@[j])@ != node@,
    {
        if same_text(p.source_nodes[i].as_str(), node) {
            assert(p.source_nodes@[i as int]@ == node@);
            return true;
        }
    }
    false
}

/// For how many seconds a policy of the hub blocks: a minute at least, 0 for ever.
pub open spec fn hub_seconds(ttl_s: u64) -> u64 {
    if ttl_s == 0 {
        0
    } else if ttl_s < 60 {
        60
    } else {
        ttl_s
    }
}

/// For how many seconds a policy of the hub blocks.
pub fn hub_duration(ttl_s: u64) -> (r: u64)
    ensures
        r == hub_seconds(ttl_s),
{
    if ttl_s != 0 && ttl_s < 60 {
        60
    } else {
        ttl_s
    }
}

/// What a policy of the hub blocks here, where it does. A policy holds for a minute at
/// least, and one without an end for ever.
pub open spec fn hub_block(
    p: SharedPolicy,
    held: Map<IpKey, BlockEntry>,
    node: Seq<char>,
    trust_enabled: bool,
    now_ns: u64,
) -> Option<HubBlock> {
    if held.contains_key(p.ip) || reported_by(p, node) {
        None
    } else {
        let d: u64 = hub_seconds(p.ttl_s);
        Some(
            HubBlock {
                plan: BlockPlan {
                    key: p.ip,
                    entry: entry_of(now_ns, d, p.reason),
                    row: row_of(now_ns, d, p.reason, BlockOrigin::Hub),
                },
                trust: if p.trust_score > 0 && trust_enabled {
                    Some(
                        TrustEntry::blank_spec(
                            if p.trust_score >= 100 {
                                1000
                            } else {
                                (p.trust_score * 10) as u32
                            },
                            now_ns,
                        ),
                    )
                } else {
                    None
                },
            },
        )
    }
}

/// What a list of policies of the hub blocks here.
pub open spec fn hub_blocks(
    list: Seq<SharedPolicy>,
    held: Map<IpKey, BlockEntry>,
    node: Seq<char>,
    trust_enabled: bool,
    now_ns: u64,
) -> Seq<HubBlock>
    decreases list.len(),
{
    if list.len() == 0 {
        Seq::empty()
    } else {
        let front: Seq<HubBlock> = hub_blocks(list.drop_last(), held, node, trust_enabled, now_ns);
        match hub_block(list.last(), held, node, trust_enabled, now_ns) {
            Some(b) => front.push(b),
            None => front,
        }
    }
}

/// The store holds a block of the address that came from the hub.
pub open spec fn hub_row(rows: Seq<(IpKey, BlacklistRow)>, k: IpKey) -> bool {
    exists|i: int|
        0 <= i < rows.len() && (#[trigger] rows[i]).0 == k && rows[i].1.origin == BlockOrigin::Hub
}

fn hub_holds(rows: &Vec<(IpKey, BlacklistRow)>, k: &IpKey) -> (r: bool)
    ensures
        r == hub_row(rows@, *k),
{
    for i in 0..rows.len()
        invariant
            forall|j: int|
                0 <= j < i ==> !((#[trigger] rows@[j]).0 == *k && rows@[j].1.origin
                    == BlockOrigin::Hub),
    {
        if rows[i].0.same(k) && rows[i].1.origin == BlockOrigin::Hub {
            assert(rows@[i as int].0 == *k);
            return true;
        }
    }
    false
}

/// The addresses of a list that the hub had blocked, in order.
pub open spec fn hubs_own(ips: Seq<IpKey>, rows: Seq<(IpKey, BlacklistRow)>) -> Seq<IpKey>
    decreases ips.len(),
{
    if ips.len() == 0 {
        ips
    } else if hub_row(rows, ips.last()) {
        hubs_own(ips.drop_last(), rows).push(ips.last())
    } else {
        hubs_own(ips.drop_last(), rows)
    }
}

/// The entry that a kept block gets when a node starts, where it still holds: it ends when
/// the block was to end. Blocks of the configuration come from the configuration.
pub open spec fn restored(row: BlacklistRow, now_ns: u64) -> Option<BlockEntry> {
    if row.block_reason == rules::BLACKLIST as u8 || !block_holds(row.blocked_until_ns, now_ns) {
        None
    } else {
        Some(
            BlockEntry {
                blocked_until_ns: row.blocked_until_ns,
                block_reason: row.block_reason,
                hit_count: 0,
                first_seen_ns: now_ns,
            },
        )
    }
}

/// The entries that kept blocks get when a node starts.
pub open spec fn restored_all(rows: Seq<(IpKey, BlacklistRow)>, now_ns: u64) -> Seq<
    (IpKey, BlockEntry),
>
    decreases rows.len(),
{
    if rows.len() == 0 {
        Seq::empty()
    } else {
        let front: Seq<(IpKey, BlockEntry)> = restored_all(rows.drop_last(), now_ns);
        match restored(rows.last().1, now_ns) {
            Some(e) => front.push((rows.last().0, e)),
            None => front,
        }
    }
}

/// The entries that kept blocks get when a node starts or reads its configuration anew.
pub fn restore_blocks(rows: &Vec<(IpKey, BlacklistRow)>, now_ns: u64) -> (r: Vec<
    (IpKey, BlockEntry),
>)
    ensures
        r@ == restored_all(rows@, now_ns),
{
    let mut out: Vec<(IpKey, BlockEntry)> = Vec::new();
    for i in 0..rows.len()
        invariant
            out@ == restored_all(rows@.take(i as int), now_ns),
    {
        assert(rows@.take(i + 1).drop_last() =~= rows@.take(i as int));
        assert(rows@.take(i + 1).last() == rows@[i as int]);
        let row: BlacklistRow = rows[i].1;
        let ended: bool = row.blocked_until_ns != BLOCK_PERMANENT && row.blocked_until_ns <= now_ns;
        if row.block_reason != rules::BLACKLIST as u8 && !ended {
            let entry: BlockEntry = BlockEntry {
                blocked_until_ns: row.blocked_until_ns,
                block_reason: row.block_reason,
                hit_count: 0,
                first_seen_ns: now_ns,
            };
            out.push((rows[i].0, entry));
        }
    }
    assert(rows@.take(rows@.len() as int) =~= rows@);
    out
}

/// The addresses whose kept blocks have ended.
pub open spec fn ended_of(rows: Seq<(IpKey, BlacklistRow)>, now_ns: u64) -> Seq<IpKey>
    decreases rows.len(),
{
    if rows.len() == 0 {
        Seq::empty()
    } else {
        let front: Seq<IpKey> = ended_of(rows.drop_last(), now_ns);
        if block_holds(rows.last().1.blocked_until_ns, now_ns) {
            front
        } else {
            front.push(rows.last().0)
        }
    }
}

/// The addresses whose kept blocks have ended and can go from the store.
pub fn ended_blocks(rows: &Vec<(IpKey, BlacklistRow)>, now_ns: u64) -> (r: Vec<IpKey>)
    ensures
        r@ == ended_of(rows@, now_ns),
{
    let mut out: Vec<IpKey> = Vec::new();
    for i in 0..rows.len()
        invariant
            out@ == ended_of(rows@.take(i as int), now_ns),
    {
        assert(rows@.take(i + 1).drop_last() =~= rows@.take(i as int));
        assert(rows@.take(i + 1).last() == rows@[i as int]);
        let until: u64 = rows[i].1.blocked_until_ns;
        if until != BLOCK_PERMANENT && until <= now_ns {
            out.push(rows[i].0);
        }
    }
    assert(rows@.take(rows@.len() as int) =~= rows@);
    out
}

/// A block that is kept and restored ends when it was to end.
pub proof fn law_restored_block_ends_in_time(row: BlacklistRow, now_ns: u64, t: u64)
    requires
        restored(row, now_ns) is Some,
    ensures
        block_holds(restored(row, now_ns)->0.blocked_until_ns, t) == block_holds(
            row.blocked_until_ns,
            t,
        ),
{
}

/// A block that ends is told to the hub as one that ends, and only a block for ever as one
/// for ever.
pub proof fn law_told_block_keeps_its_kind(
    item: (IpKey, BlacklistRow),
    held: Map<IpKey, BlockEntry>,
    trust: Map<IpKey, TrustEntry>,
    limits: PublishLimits,
    now_ns: u64,
)
    requires
        published(item, held, trust, limits, now_ns) is Some,
    ensures
        published(item, held, trust, limits, now_ns)->0.ttl_s == 0 <==> item.1.blocked_until_ns
            == 0,
{
}

/// A policy without an end blocks for ever, and one that ends does not.
pub proof fn law_hub_block_keeps_its_kind(
    p: SharedPolicy,
    held: Map<IpKey, BlockEntry>,
    node: Seq<char>,
    trust_enabled: bool,
    now_ns: u64,
)
    requires
        hub_block(p, held, node, trust_enabled, now_ns) is Some,
    ensures
        hub_block(p, held, node, trust_enabled, now_ns)->0.plan.entry.blocked_until_ns
            == BLOCK_PERMANENT <==> p.ttl_s == 0,
{
}

/// A block for ever is restored for ever.
pub proof fn law_permanent_block_is_restored(row: BlacklistRow, now_ns: u64)
    requires
        row.blocked_until_ns == 0,
        row.block_reason != rules::BLACKLIST as u8,
    ensures
        restored(row, now_ns) is Some,
        restored(row, now_ns)->0.blocked_until_ns == 0,
{
}

/// What a node reported does not come back to it from the hub.
pub proof fn law_own_policies_do_not_return(
    p: SharedPolicy,
    held: Map<IpKey, BlockEntry>,
    node: Seq<char>,
    trust_enabled: bool,
    now_ns: u64,
    i: int,
)
    requires
        node.len() > 0,
        0 <= i < p.source_nodes@.len(),
        p.source_nodes@[i]@ == node,
    ensures
        hub_block(p, held, node, trust_enabled, now_ns) is None,
{
}

/// What the hub blocked is not reported to the hub.
pub proof fn law_hub_blocks_are_not_reported(
    row: BlacklistRow,
    k: IpKey,
    held: Map<IpKey, BlockEntry>,
    trust: Map<IpKey, TrustEntry>,
    limits: PublishLimits,
    now_ns: u64,
)
    requires
        row.origin == BlockOrigin::Hub,
    ensures
        published((k, row), held, trust, limits, now_ns) is None,
{
}

} // verus!
