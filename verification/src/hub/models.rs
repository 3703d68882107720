//! What nodes and hub tell each other.

use crate::common::IpKey;
use crate::node::config::L7PatternConfig;
use crate::node::config::PortAclItem;
use crate::node::config::ProtectionProject;
use crate::text::texts;
use vstd::prelude::*;

verus! {

/// A policy that the hub shares.
#[derive(Debug)]
pub struct SharedPolicy {
    pub ip: IpKey,
    pub reason: u8,
    pub hit_count: u32,
    pub trust_score: u32,
    pub first_seen_ns: u64,
    pub last_seen_ns: u64,
    pub source_nodes: Vec<String>,
    /// For how long after it was last seen the policy holds; zero is for ever.
    pub ttl_s: u64,
}

/// The contents of a [`SharedPolicy`].
pub struct PolicyView {
    pub ip: IpKey,
    pub reason: u8,
    pub hit_count: u32,
    pub trust_score: u32,
    pub first_seen_ns: u64,
    pub last_seen_ns: u64,
    pub source_nodes: Seq<Seq<char>>,
    pub ttl_s: u64,
}

impl View for SharedPolicy {
    type V = PolicyView;

    open spec fn view(&self) -> PolicyView {
        PolicyView {
            ip: self.ip,
            reason: self.reason,
            hit_count: self.hit_count,
            trust_score: self.trust_score,
            first_seen_ns: self.first_seen_ns,
            last_seen_ns: self.last_seen_ns,
            source_nodes: texts(self.source_nodes@),
            ttl_s: self.ttl_s,
        }
    }
}

/// A copy of several texts.
pub fn copy_texts(v: &Vec<String>) -> (r: Vec<String>)
    ensures
        texts(r@) == texts(v@),
{
    let mut out: Vec<String> = Vec::new();
    for i in 0..v.len()
        invariant
            texts(out@) == texts(v@.take(i as int)),
    {
        let ghost before = texts(out@);
        out.push(v[i].clone());
        assert(texts(out@) =~= before.push(v@[i as int]@));
        assert(texts(v@.take(i + 1)) =~= texts(v@.take(i as int)).push(v@[i as int]@));
    }
    assert(v@.take(v@.len() as int) == v@);
    out
}

impl SharedPolicy {
    pub fn copy(&self) -> (r: SharedPolicy)
        ensures
            r@ == self@,
    {
        SharedPolicy {
            ip: self.ip,
            reason: self.reason,
            hit_count: self.hit_count,
            trust_score: self.trust_score,
            first_seen_ns: self.first_seen_ns,
            last_seen_ns: self.last_seen_ns,
            source_nodes: copy_texts(&self.source_nodes),
            ttl_s: self.ttl_s,
        }
    }
}

/// A policy that a node reports.
#[derive(Clone, Copy, Debug)]
pub struct NodePolicy {
    pub ip: IpKey,
    pub reason: u8,
    pub hit_count: u32,
    pub trust_score: u32,
    pub blocked_until_ns: u64,
    pub ttl_s: u64,
}

#[derive(Debug)]
pub struct PolicyPush {
    pub node_name: String,
    pub policies: Vec<NodePolicy>,
}

#[derive(Debug)]
pub struct PolicyPull {
    pub policies: Vec<SharedPolicy>,
    pub cursor: String,
    pub deleted: Vec<IpKey>,
    pub deleted_cursor: String,
}

#[derive(Debug)]
pub struct PolicyDelete {
    pub node_name: String,
    pub ips: Vec<IpKey>,
}

#[derive(Debug)]
pub struct DeletedPolicies {
    pub ips: Vec<IpKey>,
    pub cursor: String,
}

/// The rules that the hub hands to every node.
#[derive(Debug)]
pub struct RuleBundle {
    pub port_acl: Vec<PortAclItem>,
    pub l7_patterns: Vec<L7PatternConfig>,
    pub protection_projects: Vec<ProtectionProject>,
    pub updated_at_ns: u64,
}

#[derive(Debug)]
pub struct RulesResponse {
    pub rules: Option<RuleBundle>,
}

/// A sign of life of a node; its statistics are text that the hub does not read.
#[derive(Debug)]
pub struct NodeHeartbeat {
    pub node_name: String,
    pub stats: Option<String>,
}

#[derive(Debug)]
pub struct NodeInfo {
    pub name: String,
    pub last_seen_ns: u64,
    pub online: bool,
}

#[derive(Debug)]
pub struct NodesResponse {
    pub nodes: Vec<NodeInfo>,
}

#[derive(Clone, Copy, Debug)]
pub struct StatsResponse {
    pub policy_count: u64,
    pub node_count: usize,
    pub online_node_count: usize,
}

} // verus!
