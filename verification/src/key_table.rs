//! Tables by address.

use crate::common::IpKey;
use vstd::prelude::*;

verus! {

/// What a list of entries with different keys holds under each key.
pub open spec fn entries_map<V>(entries: Seq<(IpKey, V)>) -> Map<IpKey, V>
    decreases entries.len(),
{
    if entries.len() == 0 {
        Map::empty()
    } else {
        entries_map(entries.drop_last()).insert(entries.last().0, entries.last().1)
    }
}

/// No key has two entries.
pub open spec fn keys_differ<V>(entries: Seq<(IpKey, V)>) -> bool {
    forall|i: int, j: int|
        #![trigger entries[i], entries[j]]
        0 <= i < j < entries.len() ==> entries[i].0 != entries[j].0
}

/// Values by address.
pub struct KeyTable<V> {
    pub entries: Vec<(IpKey, V)>,
}

proof fn lemma_prefix_differs<V>(entries: Seq<(IpKey, V)>)
    requires
        keys_differ(entries),
        entries.len() > 0,
    ensures
        keys_differ(entries.drop_last()),
{
    let e: Seq<(IpKey, V)> = entries.drop_last();
    assert forall|i: int, j: int|
        #![trigger e[i], e[j]]
        0 <= i < j < e.len() implies e[i].0 != e[j].0 by {
        assert(e[i] == entries[i]);
        assert(e[j] == entries[j]);
    }
}

proof fn lemma_map_holds<V>(entries: Seq<(IpKey, V)>)
    requires
        keys_differ(entries),
    ensures
        forall|i: int|
            0 <= i < entries.len() ==> entries_map(entries).contains_key(
                (#[trigger] entries[i]).0,
            ) && entries_map(entries)[entries[i].0] == entries[i].1,
        forall|k: IpKey|
            entries_map(entries).contains_key(k) ==> exists|i: int|
                0 <= i < entries.len() && (#[trigger] entries[i]).0 == k,
    decreases entries.len(),
{
    if entries.len() > 0 {
        let init: Seq<(IpKey, V)> = entries.drop_last();
        lemma_prefix_differs(entries);
        lemma_map_holds(init);
        assert forall|i: int| 0 <= i < entries.len() implies entries_map(entries).contains_key(
            (#[trigger] entries[i]).0,
        ) && entries_map(entries)[entries[i].0] == entries[i].1 by {
            if i < init.len() {
                assert(init[i] == entries[i]);
                assert(entries[i].0 != entries[entries.len() - 1].0);
            }
        }
        assert forall|k: IpKey| entries_map(entries).contains_key(k) implies exists|i: int|
            0 <= i < entries.len() && (#[trigger] entries[i]).0 == k by {
            if k == entries.last().0 {
                assert(entries[entries.len() - 1].0 == k);
            } else {
                assert(entries_map(init).contains_key(k));
                let i: int = choose|i: int| 0 <= i < init.len() && (#[trigger] init[i]).0 == k;
                assert(entries[i].0 == k);
            }
        }
    }
}

/// Two lists with different keys that hold the same entries hold the same.
proof fn lemma_map_update<V>(entries: Seq<(IpKey, V)>, i: int, v: V)
    requires
        keys_differ(entries),
        0 <= i < entries.len(),
    ensures
        keys_differ(entries.update(i, (entries[i].0, v))),
        entries_map(entries.update(i, (entries[i].0, v))) == entries_map(entries).insert(
            entries[i].0,
            v,
        ),
{
    let k: IpKey = entries[i].0;
    let e: Seq<(IpKey, V)> = entries.update(i, (k, v));
    assert(keys_differ(e)) by {
        assert forall|a: int, b: int|
            #![trigger e[a], e[b]]
            0 <= a < b < e.len() implies e[a].0 != e[b].0 by {
            assert(e[a].0 == entries[a].0);
            assert(e[b].0 == entries[b].0);
        }
    }
    lemma_map_holds(entries);
    lemma_map_holds(e);
    let m: Map<IpKey, V> = entries_map(entries).insert(k, v);
    assert forall|x: IpKey|
        #![trigger entries_map(e).dom().contains(x)]
        #![trigger m.dom().contains(x)]
        entries_map(e).dom().contains(x) == m.dom().contains(x) && (m.dom().contains(x)
            ==> entries_map(e)[x] == m[x]) by {
        assert(entries_map(e).contains_key(x) == entries_map(e).dom().contains(x));
        assert(entries_map(entries).contains_key(x) == entries_map(entries).dom().contains(x));
        if entries_map(e).contains_key(x) {
            let j: int = choose|j: int| 0 <= j < e.len() && (#[trigger] e[j]).0 == x;
            assert(entries[j].0 == x);
        }
        if m.contains_key(x) && x != k {
            let j: int = choose|j: int| 0 <= j < entries.len() && (#[trigger] entries[j]).0 == x;
            assert(e[j].0 == x);
        }
        assert(e[i].0 == k);
    }
    assert(entries_map(e) =~= m);
}

proof fn lemma_map_remove<V>(entries: Seq<(IpKey, V)>, i: int)
    requires
        keys_differ(entries),
        0 <= i < entries.len(),
    ensures
        keys_differ(entries.remove(i)),
        entries_map(entries.remove(i)) == entries_map(entries).remove(entries[i].0),
{
    let k: IpKey = entries[i].0;
    let e: Seq<(IpKey, V)> = entries.remove(i);
    assert(keys_differ(e)) by {
        assert forall|a: int, b: int|
            #![trigger e[a], e[b]]
            0 <= a < b < e.len() implies e[a].0 != e[b].0 by {
            let x: int = if a < i {
                a
            } else {
                a + 1
            };
            let y: int = if b < i {
                b
            } else {
                b + 1
            };
            assert(e[a] == entries[x]);
            assert(e[b] == entries[y]);
        }
    }
    lemma_map_holds(entries);
    lemma_map_holds(e);
    let m: Map<IpKey, V> = entries_map(entries).remove(k);
    assert forall|x: IpKey|
        #![trigger entries_map(e).dom().contains(x)]
        #![trigger m.dom().contains(x)]
        entries_map(e).dom().contains(x) == m.dom().contains(x) && (m.dom().contains(x)
            ==> entries_map(e)[x] == m[x]) by {
        assert(entries_map(e).contains_key(x) == entries_map(e).dom().contains(x));
        assert(entries_map(entries).contains_key(x) == entries_map(entries).dom().contains(x));
        if entries_map(e).contains_key(x) {
            let j: int = choose|j: int| 0 <= j < e.len() && (#[trigger] e[j]).0 == x;
            let y: int = if j < i {
                j
            } else {
                j + 1
            };
            assert(e[j] == entries[y]);
            assert(x != k) by {
                if y < i {
                    assert(entries[y].0 != entries[i].0);
                } else {
                    assert(entries[i].0 != entries[y].0);
                }
            }
        }
        if m.contains_key(x) {
            let j: int = choose|j: int| 0 <= j < entries.len() && (#[trigger] entries[j]).0 == x;
            let y: int = if j < i {
                j
            } else {
                j - 1
            };
            assert(e[y] == entries[j]);
        }
    }
    assert(entries_map(e) =~= m);
}

impl<V> KeyTable<V> {
    pub open spec fn wf(&self) -> bool {
        keys_differ(self.entries@)
    }

    /// What the table holds.
    pub open spec fn map(&self) -> Map<IpKey, V> {
        entries_map(self.entries@)
    }

    pub fn new() -> (r: Self)
        ensures
            r.wf(),
            r.map() == Map::<IpKey, V>::empty(),
            r.entries@.len() == 0,
    {
        KeyTable { entries: Vec::new() }
    }

    /// Where the entry of a key is.
    pub fn find(&self, key: &IpKey) -> (r: Option<usize>)
        requires
            self.wf(),
        ensures
            match r {
                Some(i) => i < self.entries@.len() && self.entries@[i as int].0 == *key
                    && self.map().contains_key(*key) && self.map()[*key] == self.entries@[i as int].1,
                None => !self.map().contains_key(*key) && forall|j: int|
                    0 <= j < self.entries@.len() ==> (#[trigger] self.entries@[j]).0 != *key,
            },
    {
        proof {
            lemma_map_holds(self.entries@);
        }
        for i in 0..self.entries.len()
            invariant
                self.wf(),
                forall|j: int| 0 <= j < i ==> (#[trigger] self.entries@[j]).0 != *key,
        {
            if self.entries[i].0.same(key) {
                proof {
                    lemma_map_holds(self.entries@);
                }
                return Some(i);
            }
        }
        proof {
            lemma_map_holds(self.entries@);
        }
        None
    }

    /// What the table holds under a key.
    pub fn get(&self, key: &IpKey) -> (r: Option<&V>)
        requires
            self.wf(),
        ensures
            match r {
                Some(v) => self.map().contains_key(*key) && self.map()[*key] == *v,
                None => !self.map().contains_key(*key),
            },
    {
        match self.find(key) {
            Some(i) => Some(&self.entries[i].1),
            None => None,
        }
    }

    /// Holds the value under the key.
    pub fn put(&mut self, key: &IpKey, v: V)
        requires
            old(self).wf(),
        ensures
            final(self).wf(),
            final(self).map() == old(self).map().insert(*key, v),
    {
        let ghost before = self.entries@;
        match self.find(key) {
            Some(i) => {
                proof {
                    lemma_map_update(before, i as int, v);
                }
                self.entries.set(i, (*key, v));
            },
            None => {
                self.entries.push((*key, v));
                proof {
                    let e = self.entries@;
                    assert(e.drop_last() =~= before);
                    assert forall|a: int, b: int|
                        #![trigger e[a], e[b]]
                        0 <= a < b < e.len() implies e[a].0 != e[b].0 by {
                        assert(e[a] == before[a]);
                        if b < before.len() {
                            assert(e[b] == before[b]);
                        }
                    }
                }
            },
        }
    }

    /// Holds nothing under the key any more; what it held is returned.
    pub fn remove(&mut self, key: &IpKey) -> (r: Option<V>)
        requires
            old(self).wf(),
        ensures
            final(self).wf(),
            final(self).map() == old(self).map().remove(*key),
            match r {
                Some(v) => old(self).map().contains_key(*key) && old(self).map()[*key] == v,
                None => !old(self).map().contains_key(*key),
            },
    {
        let ghost before = self.entries@;
        match self.find(key) {
            Some(i) => {
                proof {
                    lemma_map_remove(before, i as int);
                }
                let e: (IpKey, V) = self.entries.remove(i);
                Some(e.1)
            },
            None => {
                assert(entries_map(before).remove(*key) =~= entries_map(before));
                None
            },
        }
    }
}

/// A list of different keys shows everything that it holds, each key once.
pub proof fn law_entries_show_map<V>(entries: Seq<(IpKey, V)>)
    requires
        keys_differ(entries),
    ensures
        forall|i: int|
            0 <= i < entries.len() ==> entries_map(entries).contains_key(
                (#[trigger] entries[i]).0,
            ) && entries_map(entries)[entries[i].0] == entries[i].1,
        forall|k: IpKey|
            entries_map(entries).contains_key(k) ==> exists|i: int|
                0 <= i < entries.len() && (#[trigger] entries[i]).0 == k,
{
    lemma_map_holds(entries);
}

} // verus!
