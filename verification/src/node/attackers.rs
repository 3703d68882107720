//! The sources of which most was dropped.

use crate::maps::counts_held;
use crate::maps::counts_list;
use crate::maps::lists_counts;
use crate::node::timeseries::name_keys;
use crate::node::timeseries::names_key;
use crate::rank::first_of;
use crate::rank::ranked;
use crate::rank::top;
use dashmap::DashMap;
use vstd::prelude::*;

verus! {

/// A source and how much was dropped of it.
#[derive(Clone, Debug)]
pub struct Attacker {
    pub ip: String,
    pub count: u64,
}

/// The list names the given sources, one by one.
pub open spec fn shows(list: Seq<Attacker>, keys: Seq<([u8; 17], u64)>) -> bool {
    &&& list.len() == keys.len()
    &&& forall|i: int|
        #![trigger list[i]]
        #![trigger keys[i]]
        0 <= i < list.len() ==> names_key((list[i].ip, list[i].count), keys[i])
}

/// The list names the `n` sources of a map with the largest numbers, the largest first.
pub open spec fn shows_top(list: Seq<Attacker>, held: Map<Seq<u8>, u64>, n: nat) -> bool {
    exists|keys: Seq<([u8; 17], u64)>|
        #![trigger lists_counts(keys, held)]
        lists_counts(keys, held) && shows(list, first_of(ranked(keys), n))
}

/// The `n` sources with the largest numbers, the largest first.
pub fn top_attackers(m: &DashMap<[u8; 17], u64>, n: usize) -> (r: Vec<Attacker>)
    ensures
        shows_top(r@, counts_held(*m), n as nat),
{
    let keys: Vec<([u8; 17], u64)> = counts_list(m);
    let best: Vec<([u8; 17], u64)> = top(&keys, n);
    let mut named: Vec<(String, u64)> = name_keys(&best);
    let ghost all = named@;
    let mut out: Vec<Attacker> = Vec::new();
    while named.len() > 0
        invariant
            all == out@.map_values(|a: Attacker| (a.ip, a.count)) + named@,
        decreases named@.len(),
    {
        let ghost before = out@;
        let ghost rest = named@;
        let item: (String, u64) = named.remove(0);
        out.push(Attacker { ip: item.0, count: item.1 });
        assert(all =~= out@.map_values(|a: Attacker| (a.ip, a.count)) + named@) by {
            assert(out@.map_values(|a: Attacker| (a.ip, a.count)) =~= before.map_values(
                |a: Attacker| (a.ip, a.count),
            ).push(rest[0]));
        }
    }
    assert(all =~= out@.map_values(|a: Attacker| (a.ip, a.count)));
    assert(shows(out@, best@)) by {
        assert forall|i: int|
            #![trigger out@[i]]
            #![trigger best@[i]]
            0 <= i < out@.len() implies names_key((out@[i].ip, out@[i].count), best@[i]) by {
            assert(all[i] == (out@[i].ip, out@[i].count));
        }
    }
    out
}

} // verus!
