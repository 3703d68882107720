//! What the terminal console shows.

use crate::node::attackers::Attacker;
use crate::rank::first_of;
use crate::rank::ranked;
use crate::rank::top;
use crate::text::dec;
use crate::text::push_dec;
use vstd::prelude::*;

verus! {

/// The part of a node's figures that the console shows.
#[derive(Clone, Debug)]
pub struct StatsSnapshot {
    pub total_dropped: u64,
    pub top_attackers: Vec<Attacker>,
}

/// How many sources the console lists.
pub const MAX_ROWS: usize = 10;

/// The text of the box of figures.
pub open spec fn figures(dropped: u64, sources: nat) -> Seq<char> {
    "Endpoint: local eShield\nDropped: "@ + dec(dropped as nat) + "\nTop Attackers: "@ + dec(
        sources,
    )
}

/// The text of the box of figures; without a snapshot the figures are zero.
pub fn figures_text(snapshot: Option<&StatsSnapshot>) -> (r: String)
    ensures
        r@ == match snapshot {
            Some(s) => figures(s.total_dropped, s.top_attackers@.len()),
            None => figures(0, 0),
        },
{
    let (dropped, sources): (u64, u64) = match snapshot {
        Some(s) => (s.total_dropped, s.top_attackers.len() as u64),
        None => (0, 0),
    };
    let mut out: String = String::from_str("Endpoint: local eShield\nDropped: ");
    push_dec(&mut out, dropped);
    out.append("\nTop Attackers: ");
    push_dec(&mut out, sources);
    out
}

/// Each source's place in the list, with its number.
pub open spec fn places(list: Seq<Attacker>) -> Seq<(usize, u64)> {
    Seq::new(list.len(), |i: int| (i as usize, list[i].count))
}

/// The rows show the sources at the given places, one by one.
pub open spec fn rows_show(
    rows: Seq<Attacker>,
    list: Seq<Attacker>,
    at: Seq<(usize, u64)>,
) -> bool {
    &&& rows.len() == at.len()
    &&& forall|i: int|
        #![trigger rows[i]]
        0 <= i < rows.len() ==> at[i].0 < list.len() && rows[i].ip@ == list[at[i].0 as int].ip@
            && rows[i].count == list[at[i].0 as int].count
}

proof fn lemma_ranked_places(list: Seq<(usize, u64)>, n: nat)
    requires
        forall|i: int| 0 <= i < list.len() ==> (#[trigger] list[i]).0 < n,
    ensures
        ranked(list).len() == list.len(),
        forall|i: int| 0 <= i < ranked(list).len() ==> (#[trigger] ranked(list)[i]).0 < n,
    decreases list.len(),
{
    crate::rank::law_ranked_is_ordered(list);
    list.to_multiset_ensures();
    ranked(list).to_multiset_ensures();
    assert forall|i: int| 0 <= i < ranked(list).len() implies (#[trigger] ranked(list)[i]).0
        < n by {
        let x: (usize, u64) = ranked(list)[i];
        assert(ranked(list).contains(x));
        assert(list.to_multiset().count(x) > 0);
        assert(list.contains(x));
    }
}

/// The rows of the table: the sources with the largest numbers, the largest first.
pub fn attacker_rows(list: &Vec<Attacker>) -> (r: Vec<Attacker>)
    ensures
        rows_show(r@, list@, first_of(ranked(places(list@)), MAX_ROWS as nat)),
{
    let mut at: Vec<(usize, u64)> = Vec::new();
    for i in 0..list.len()
        invariant
            at@ == places(list@.take(i as int)),
    {
        at.push((i, list[i].count));
        assert(at@ =~= places(list@.take(i + 1)));
    }
    assert(list@.take(list@.len() as int) =~= list@);
    let best: Vec<(usize, u64)> = top(&at, MAX_ROWS);
    proof {
        lemma_ranked_places(at@, list@.len());
    }
    let mut out: Vec<Attacker> = Vec::new();
    for i in 0..best.len()
        invariant
            rows_show(out@, list@, best@.take(i as int)),
            forall|k: int| 0 <= k < best@.len() ==> (#[trigger] best@[k]).0 < list@.len(),
    {
        let a: &Attacker = &list[best[i].0];
        let ghost before = out@;
        out.push(Attacker { ip: a.ip.clone(), count: a.count });
        assert forall|k: int| #![trigger out@[k]] 0 <= k < out@.len() implies best@.take(
            i + 1,
        )[k].0 < list@.len() && out@[k].ip@ == list@[best@.take(i + 1)[k].0 as int].ip@
            && out@[k].count == list@[best@.take(i + 1)[k].0 as int].count by {
            if k < before.len() {
                assert(out@[k] == before[k]);
                assert(best@.take(i as int)[k] == best@.take(i + 1)[k]);
            }
        }
    }
    assert(best@.take(best@.len() as int) =~= best@);
    out
}

} // verus!
