//! Which nodes are alive.

use crate::hub::models::NodeInfo;
use crate::hub::models::StatsResponse;
use crate::maps::lists_names;
use crate::maps::names_held;
use crate::maps::names_insert;
use crate::maps::names_list;
use crate::maps::names_new;
use crate::maps::names_remove;
use dashmap::DashMap;
use vstd::prelude::*;

verus! {

/// The nodes that reported, each with when it did last.
pub struct NodeRegistry {
    pub nodes: DashMap<String, (u64, u64)>,
}

/// A node last seen at `seen_ns` counts as alive.
pub open spec fn alive(seen_ns: u64, now_ns: u64, timeout_ns: u64) -> bool {
    now_ns <= seen_ns || now_ns - seen_ns <= timeout_ns
}

/// `list` names the nodes of `held`, each once, with when it was seen and whether that
/// was lately.
pub open spec fn lists_nodes(
    list: Seq<NodeInfo>,
    held: Map<Seq<char>, (u64, u64)>,
    now_ns: u64,
    timeout_ns: u64,
) -> bool {
    &&& forall|i: int|
        0 <= i < list.len() ==> {
            &&& held.contains_key((#[trigger] list[i]).name@)
            &&& list[i].last_seen_ns == held[list[i].name@].0
            &&& list[i].online == alive(list[i].last_seen_ns, now_ns, timeout_ns)
        }
    &&& forall|i: int, j: int|
        #![trigger list[i], list[j]]
        0 <= i < j < list.len() ==> list[i].name@ != list[j].name@
    &&& forall|k: Seq<char>|
        held.contains_key(k) ==> exists|i: int|
            0 <= i < list.len() && (#[trigger] list[i]).name@ == k
}

impl NodeRegistry {
    /// What the registry holds of each node.
    pub open spec fn held(&self) -> Map<Seq<char>, (u64, u64)> {
        names_held(self.nodes)
    }

    pub fn new() -> (r: Self)
        ensures
            forall|k: Seq<char>| !r.held().contains_key(k),
    {
        NodeRegistry { nodes: names_new() }
    }

    /// A node gave a sign of life.
    pub fn heartbeat(&mut self, name: String, now_ns: u64)
        ensures
            final(self).held() == old(self).held().insert(name@, (now_ns, 1u64)),
    {
        names_insert(&mut self.nodes, name.as_str(), (now_ns, 1));
    }

    /// All nodes, in some order.
    pub fn list(&self, now_ns: u64, timeout_ns: u64) -> (r: Vec<NodeInfo>)
        ensures
            lists_nodes(r@, self.held(), now_ns, timeout_ns),
    {
        let all: Vec<(String, (u64, u64))> = names_list(&self.nodes);
        let mut out: Vec<NodeInfo> = Vec::new();
        for i in 0..all.len()
            invariant
                lists_names(all@, self.held()),
                out@.len() == i,
                forall|j: int|
                    0 <= j < i ==> {
                        &&& (#[trigger] out@[j]).name@ == all@[j].0@
                        &&& out@[j].last_seen_ns == all@[j].1.0
                        &&& out@[j].online == alive(out@[j].last_seen_ns, now_ns, timeout_ns)
                    },
        {
            let seen: u64 = all[i].1.0;
            out.push(
                NodeInfo {
                    name: all[i].0.clone(),
                    last_seen_ns: seen,
                    online: now_ns.saturating_sub(seen) <= timeout_ns,
                },
            );
        }
        proof {
            let held = self.held();
            assert forall|i: int| 0 <= i < out@.len() implies {
                &&& held.contains_key((#[trigger] out@[i]).name@)
                &&& out@[i].last_seen_ns == held[out@[i].name@].0
                &&& out@[i].online == alive(out@[i].last_seen_ns, now_ns, timeout_ns)
            } by {
                assert(held.contains_key(all@[i].0@));
            }
            assert forall|i: int, j: int|
                #![trigger out@[i], out@[j]]
                0 <= i < j < out@.len() implies out@[i].name@ != out@[j].name@ by {
                assert(all@[i].0@ != all@[j].0@);
            }
            assert forall|k: Seq<char>| held.contains_key(k) implies exists|i: int|
                0 <= i < out@.len() && (#[trigger] out@[i]).name@ == k by {
                let i: int = choose|i: int| 0 <= i < all@.len() && (#[trigger] all@[i]).0@ == k;
                assert(out@[i].name@ == k);
            }
        }
        out
    }

    /// Forgets the nodes that were not seen lately.
    pub fn prune(&mut self, now_ns: u64, timeout_ns: u64)
        ensures
            forall|k: Seq<char>| #[trigger]
                final(self).held().contains_key(k) == (old(self).held().contains_key(k) && alive(
                    old(self).held()[k].0,
                    now_ns,
                    timeout_ns,
                )),
            forall|k: Seq<char>| #[trigger]
                final(self).held().contains_key(k) ==> final(self).held()[k] == old(
                    self,
                ).held()[k],
    {
        let all: Vec<(String, (u64, u64))> = names_list(&self.nodes);
        let ghost start = self.held();
        for i in 0..all.len()
            invariant
                start == old(self).held(),
                lists_names(all@, start),
                forall|k: Seq<char>| #[trigger]
                    self.held().contains_key(k) ==> start.contains_key(k) && self.held()[k]
                        == start[k],
                forall|j: int|
                    0 <= j < i ==> self.held().contains_key((#[trigger] all@[j]).0@) == alive(
                        all@[j].1.0,
                        now_ns,
                        timeout_ns,
                    ),
                forall|j: int|
                    i <= j < all@.len() ==> self.held().contains_key((#[trigger] all@[j]).0@),
        {
            let ghost before = self.held();
            if now_ns.saturating_sub(all[i].1.0) > timeout_ns {
                names_remove(&mut self.nodes, all[i].0.as_str());
                proof {
                    let gone: Seq<char> = all@[i as int].0@;
                    assert forall|j: int| 0 <= j < all@.len() && j != i implies (
                    #[trigger] all@[j]).0@ != gone by {
                        if j < i {
                            assert(all@[j].0@ != all@[i as int].0@);
                        } else {
                            assert(all@[i as int].0@ != all@[j].0@);
                        }
                    }
                }
            }
        }
        proof {
            assert forall|k: Seq<char>| #[trigger]
                self.held().contains_key(k) == (start.contains_key(k) && alive(
                    start[k].0,
                    now_ns,
                    timeout_ns,
                )) by {
                if start.contains_key(k) {
                    let i: int = choose|i: int|
                        0 <= i < all@.len() && (#[trigger] all@[i]).0@ == k;
                    assert(start[k] == all@[i].1);
                }
            }
        }
    }
}

impl Default for NodeRegistry {
    fn default() -> (r: Self)
        ensures
            forall|k: Seq<char>| !r.held().contains_key(k),
    {
        NodeRegistry::new()
    }
}

/// How many nodes of a list are alive.
pub open spec fn online_in(list: Seq<NodeInfo>) -> nat
    decreases list.len(),
{
    if list.len() == 0 {
        0
    } else {
        online_in(list.drop_last()) + if list.last().online {
            1nat
        } else {
            0nat
        }
    }
}

/// The numbers of the hub.
pub fn hub_stats(policy_count: u64, nodes: &Vec<NodeInfo>) -> (r: StatsResponse)
    ensures
        r.policy_count == policy_count,
        r.node_count == nodes@.len(),
        r.online_node_count == online_in(nodes@),
{
    let mut online: usize = 0;
    for i in 0..nodes.len()
        invariant
            online == online_in(nodes@.take(i as int)),
            online <= i,
    {
        assert(nodes@.take(i + 1).drop_last() == nodes@.take(i as int));
        assert(nodes@.take(i + 1).last() == nodes@[i as int]);
        if nodes[i].online {
            online = online + 1;
        }
    }
    assert(nodes@.take(nodes@.len() as int) == nodes@);
    StatsResponse { policy_count, node_count: nodes.len(), online_node_count: online }
}

} // verus!
