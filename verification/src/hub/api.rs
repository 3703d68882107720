//! What the hub does of each request.

use crate::common::IpKey;
use crate::hub::auth::NodeIdentity;
use crate::hub::limiter::bucket_of;
use crate::hub::limiter::refilled;
use crate::hub::limiter::spent;
use crate::hub::limiter::RateLimiter;
use crate::hub::models::DeletedPolicies;
use crate::hub::models::NodeHeartbeat;
use crate::hub::models::NodeInfo;
use crate::hub::models::PolicyDelete;
use crate::hub::models::PolicyPull;
use crate::hub::models::PolicyPush;
use crate::hub::models::PolicyView;
use crate::hub::models::StatsResponse;
use crate::hub::registry::hub_stats;
use crate::hub::registry::lists_nodes;
use crate::hub::registry::online_in;
use crate::hub::registry::NodeRegistry;
use crate::hub::store::mark_page;
use crate::hub::store::merge_all;
use crate::hub::store::page;
use crate::hub::store::policy_of;
use crate::hub::store::rows_of;
use crate::hub::store::with_mark;
use crate::hub::store::without;
use crate::hub::store::RowKey;
use crate::hub::store::Store;
use crate::text::dec;
use crate::text::dec_text;
use vstd::prelude::*;

verus! {

/// How many policies are handed out at once where nothing else was asked for.
pub const DEFAULT_LIMIT: usize = 1000;

/// What the hub knows.
pub struct AppState {
    pub store: Store,
    pub registry: NodeRegistry,
    pub rate_limiter: RateLimiter,
    /// A node that was not heard of for so long counts as gone.
    pub node_timeout_ns: u64,
}

/// The node that a request is booked to.
pub open spec fn booked_to(who: NodeIdentity, claimed: Seq<char>) -> Seq<char> {
    match who.0 {
        Some(node) => node@,
        None => claimed,
    }
}

/// The bucket of a node at a request.
pub open spec fn bucket_at(l: RateLimiter, node: Seq<char>, now_ns: u64) -> (u64, u64) {
    refilled(bucket_of(l.held(), node, now_ns, l.burst), now_ns, l.rate_per_s, l.burst)
}

/// A request of a node was counted.
pub open spec fn counted(after: RateLimiter, l: RateLimiter, node: Seq<char>, now_ns: u64) -> bool {
    &&& after.held() == l.held().insert(node, spent(bucket_at(l, node, now_ns)))
    &&& after.rate_per_s == l.rate_per_s
    &&& after.burst == l.burst
}

/// How many items are asked for.
pub open spec fn asked(limit: Option<usize>) -> usize {
    match limit {
        Some(n) => n,
        None => 1000,
    }
}

fn limit_or_default(limit: Option<usize>) -> (r: usize)
    ensures
        r == asked(limit),
{
    match limit {
        Some(n) => n,
        None => DEFAULT_LIMIT,
    }
}

/// The rows without those of some addresses.
pub open spec fn without_all(rows: Seq<PolicyView>, ips: Seq<IpKey>) -> Seq<PolicyView>
    decreases ips.len(),
{
    if ips.len() == 0 {
        rows
    } else {
        without(without_all(rows, ips.drop_last()), ips.last())
    }
}

/// The marks with one for each of some addresses.
pub open spec fn marked_all(marks: Seq<RowKey>, ips: Seq<IpKey>, now_ns: u64) -> Seq<RowKey>
    decreases ips.len(),
{
    if ips.len() == 0 {
        marks
    } else {
        with_mark(
            marked_all(marks, ips.drop_last(), now_ns),
            RowKey { at_ns: now_ns, ip: ips.last() },
        )
    }
}

/// How many of the addresses had a row when it was their turn.
pub open spec fn removed_of(rows: Seq<PolicyView>, ips: Seq<IpKey>) -> nat
    decreases ips.len(),
{
    if ips.len() == 0 {
        0
    } else {
        removed_of(rows, ips.drop_last()) + if policy_of(
            without_all(rows, ips.drop_last()),
            ips.last(),
        ) is Some {
            1nat
        } else {
            0nat
        }
    }
}

impl AppState {
    pub open spec fn wf(&self) -> bool {
        self.store.wf()
    }

    /// A node reports policies. Returns how many; nothing where it reports too often.
    pub fn push_policies(&mut self, who: &NodeIdentity, push: &PolicyPush, now_ns: u64) -> (r: Option<
        usize,
    >)
        requires
            old(self).wf(),
        ensures
            final(self).wf(),
            ({
                let node: Seq<char> = booked_to(*who, push.node_name@);
                let allowed: bool = bucket_at(old(self).rate_limiter, node, now_ns).0 > 0;
                &&& counted(final(self).rate_limiter, old(self).rate_limiter, node, now_ns)
                &&& r == if allowed {
                    Some(push.policies@.len() as usize)
                } else {
                    None
                }
                &&& final(self).store.rows() == if allowed {
                    merge_all(old(self).store.rows(), push.policies@, node, now_ns)
                } else {
                    old(self).store.rows()
                }
            }),
            final(self).store.tombstones == old(self).store.tombstones,
            final(self).store.rules == old(self).store.rules,
            final(self).registry == old(self).registry,
            final(self).node_timeout_ns == old(self).node_timeout_ns,
    {
        let node: String = who.effective_name(push.node_name.as_str());
        if !self.rate_limiter.check(node.as_str(), now_ns) {
            return None;
        }
        Some(self.store.merge(node.as_str(), &push.policies, now_ns))
    }

    /// The policies since a time.
    pub fn pull_policies(&self, since: u64, limit: Option<usize>) -> (r: PolicyPull)
        requires
            self.wf(),
        ensures
            rows_of(r.policies@) == page(self.store.rows(), since, asked(limit) as int),
            r.cursor@ == dec(
                (if r.policies@.len() == 0 {
                    since
                } else {
                    r.policies@.last().last_seen_ns
                }) as nat,
            ),
            r.deleted@.len() == 0,
            r.deleted_cursor@ == dec(since as nat),
    {
        let found = self.store.query_since(since, limit_or_default(limit));
        PolicyPull {
            cursor: dec_text(found.1),
            policies: found.0,
            deleted: Vec::new(),
            deleted_cursor: dec_text(since),
        }
    }

    /// The addresses whose policies were taken back since a time.
    pub fn deleted_policies(&self, since: u64, limit: Option<usize>) -> (r: DeletedPolicies)
        requires
            self.wf(),
        ensures
            ({
                let marks: Seq<RowKey> = mark_page(
                    self.store.tombstones@,
                    since,
                    asked(limit) as int,
                );
                &&& r.ips@ == marks.map_values(|k: RowKey| k.ip)
                &&& r.cursor@ == dec(
                    (if marks.len() == 0 {
                        since
                    } else {
                        marks.last().at_ns
                    }) as nat,
                )
            }),
    {
        let found = self.store.query_tombstones_since(since, limit_or_default(limit));
        DeletedPolicies { cursor: dec_text(found.1), ips: found.0 }
    }

    /// A node takes policies back. Returns how many there were; nothing where it asks too
    /// often.
    pub fn delete_policies(&mut self, who: &NodeIdentity, req: &PolicyDelete, now_ns: u64) -> (r:
        Option<usize>)
        requires
            old(self).wf(),
        ensures
            final(self).wf(),
            ({
                let node: Seq<char> = booked_to(*who, req.node_name@);
                let allowed: bool = bucket_at(old(self).rate_limiter, node, now_ns).0 > 0;
                &&& counted(final(self).rate_limiter, old(self).rate_limiter, node, now_ns)
                &&& r == if allowed {
                    Some(removed_of(old(self).store.rows(), req.ips@) as usize)
                } else {
                    None
                }
                &&& final(self).store.rows() == if allowed {
                    without_all(old(self).store.rows(), req.ips@)
                } else {
                    old(self).store.rows()
                }
                &&& final(self).store.tombstones@ == if allowed {
                    marked_all(old(self).store.tombstones@, req.ips@, now_ns)
                } else {
                    old(self).store.tombstones@
                }
            }),
            final(self).store.rules == old(self).store.rules,
            final(self).registry == old(self).registry,
            final(self).node_timeout_ns == old(self).node_timeout_ns,
    {
        let node: String = who.effective_name(req.node_name.as_str());
        if !self.rate_limiter.check(node.as_str(), now_ns) {
            return None;
        }
        let ghost rows = self.store.rows();
        let ghost marks = self.store.tombstones@;
        let ghost limiter = self.rate_limiter;
        let mut removed: usize = 0;
        for i in 0..req.ips.len()
            invariant
                self.wf(),
                self.store.rows() == without_all(rows, req.ips@.take(i as int)),
                self.store.tombstones@ == marked_all(marks, req.ips@.take(i as int), now_ns),
                removed == removed_of(rows, req.ips@.take(i as int)),
                removed <= i,
                self.store.rules == old(self).store.rules,
                self.rate_limiter == limiter,
                self.registry == old(self).registry,
                self.node_timeout_ns == old(self).node_timeout_ns,
        {
            assert(req.ips@.take(i + 1).drop_last() =~= req.ips@.take(i as int));
            assert(req.ips@.take(i + 1).last() == req.ips@[i as int]);
            if self.store.delete_policy(&req.ips[i], now_ns) {
                removed = removed + 1;
            }
        }
        assert(req.ips@.take(req.ips@.len() as int) =~= req.ips@);
        Some(removed)
    }

    /// A node gives a sign of life.
    pub fn heartbeat(&mut self, who: &NodeIdentity, hb: &NodeHeartbeat, now_ns: u64)
        ensures
            final(self).registry.held() == old(self).registry.held().insert(
                booked_to(*who, hb.node_name@),
                (now_ns, 1u64),
            ),
            *final(self) == (AppState { registry: final(self).registry, ..*old(self) }),
    {
        let node: String = who.effective_name(hb.node_name.as_str());
        self.registry.heartbeat(node, now_ns);
    }

    /// The numbers of the hub.
    pub fn stats(&self, now_ns: u64) -> (r: StatsResponse)
        ensures
            r.policy_count == self.store.rows().len(),
            exists|nodes: Seq<NodeInfo>| #[trigger]
                lists_nodes(nodes, self.registry.held(), now_ns, self.node_timeout_ns)
                    && r.node_count == nodes.len() && r.online_node_count == online_in(nodes),
    {
        let nodes: Vec<NodeInfo> = self.registry.list(now_ns, self.node_timeout_ns);
        assert(lists_nodes(nodes@, self.registry.held(), now_ns, self.node_timeout_ns));
        hub_stats(self.store.count(), &nodes)
    }
}

/// With the token of a node a request is booked to that node, whatever node it names.
pub proof fn law_node_cannot_speak_for_another(who: NodeIdentity, claimed: Seq<char>)
    requires
        who.0 is Some,
    ensures
        booked_to(who, claimed) == who.0->0@,
{
}

} // verus!
