//! Sources that passed a challenge.

use crate::common::IpKey;
use vstd::prelude::*;

verus! {

/// Until when each source that passed a challenge is let through. A source has at most
/// one entry.
pub struct Allowlist {
    pub entries: Vec<(IpKey, u64)>,
}

impl Allowlist {
    /// No source has two entries.
    pub open spec fn wf(&self) -> bool {
        forall|i: int, j: int|
            #![trigger self.entries@[i], self.entries@[j]]
            0 <= i < j < self.entries@.len() ==> self.entries@[i].0 != self.entries@[j].0
    }

    /// The source has an entry that ends at `expiry`.
    pub open spec fn holds(&self, src: IpKey, expiry: u64) -> bool {
        exists|i: int| 0 <= i < self.entries@.len() && self.entries@[i] == (src, expiry)
    }
}

/// The source passed a challenge and its pass has not ended.
pub fn is_allowed(list: &Allowlist, src: &IpKey, now_ns: u64) -> (r: bool)
    requires
        list.wf(),
    ensures
        r == exists|expiry: u64| list.holds(*src, expiry) && expiry > now_ns,
{
    for i in 0..list.entries.len()
        invariant
            list.wf(),
            forall|j: int| 0 <= j < i ==> list.entries@[j].0 != *src,
    {
        if list.entries[i].0.same(src) {
            let found: u64 = list.entries[i].1;
            assert(list.entries@[i as int] == (*src, found));
            assert(list.holds(*src, found));
            assert forall|e: u64| list.holds(*src, e) implies e == found by {
                let k: int = choose|k: int|
                    0 <= k < list.entries@.len() && list.entries@[k] == (*src, e);
                assert(list.entries@[k].0 == list.entries@[i as int].0);
                assert(k == i);
            }
            return found > now_ns;
        }
    }
    assert forall|e: u64| !list.holds(*src, e) by {
        if list.holds(*src, e) {
            let k: int = choose|k: int|
                0 <= k < list.entries@.len() && list.entries@[k] == (*src, e);
            assert(list.entries@[k].0 == *src);
        }
    }
    false
}

/// Takes away the entry of a source; the others stay, in their order.
pub fn remove(list: &mut Allowlist, src: &IpKey)
    requires
        old(list).wf(),
    ensures
        final(list).wf(),
        final(list).entries@ == old(list).entries@.filter(|e: (IpKey, u64)| e.0 != *src),
{
    let mut kept: Vec<(IpKey, u64)> = Vec::new();
    let ghost keep = |e: (IpKey, u64)| e.0 != *src;
    let ghost mut places: Seq<int> = Seq::empty();
    assert(list.entries@.take(0).filter(keep) == Seq::<(IpKey, u64)>::empty()) by {
        reveal(Seq::filter);
    }
    for i in 0..list.entries.len()
        invariant
            list.wf(),
            keep == (|e: (IpKey, u64)| e.0 != *src),
            kept@ == list.entries@.take(i as int).filter(keep),
            places.len() == kept@.len(),
            forall|a: int| 0 <= a < places.len() ==> 0 <= #[trigger] places[a] < i,
            forall|a: int|
                0 <= a < places.len() ==> list.entries@[#[trigger] places[a]] == kept@[a],
            forall|a: int, b: int|
                #![trigger places[a], places[b]]
                0 <= a < b < places.len() ==> places[a] < places[b],
    {
        let e: (IpKey, u64) = list.entries[i];
        assert(list.entries@.take(i + 1).drop_last() == list.entries@.take(i as int));
        assert(list.entries@.take(i + 1).last() == e);
        proof {
            reveal(Seq::filter);
        }
        if !e.0.same(src) {
            kept.push(e);
            proof {
                places = places.push(i as int);
            }
        }
    }
    assert(list.entries@.take(list.entries@.len() as int) == list.entries@);
    assert forall|i: int, j: int|
        #![trigger kept@[i], kept@[j]]
        0 <= i < j < kept@.len() implies kept@[i].0 != kept@[j].0 by {
        assert(places[i] < places[j]);
        assert(list.entries@[places[i]] == kept@[i]);
        assert(list.entries@[places[j]] == kept@[j]);
    }
    list.entries = kept;
}

} // verus!
