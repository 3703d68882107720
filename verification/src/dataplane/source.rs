//! What the packet path remembers of each source address.

use crate::common::BlockEntry;
use crate::common::ConnTrackEntry;
use crate::common::IpKey;
use crate::common::RateCounter;
use crate::common::TrustEntry;
use vstd::prelude::*;

verus! {

/// The entries of one source in the per-address tables.
#[derive(Clone, Copy, Debug)]
pub struct SourceState {
    pub block: Option<BlockEntry>,
    pub trust: Option<TrustEntry>,
    pub rate: Option<RateCounter>,
    /// When the source was put under SYN-cookie challenge.
    pub challenge: Option<u64>,
    /// How many packets of the source were dropped, where it is on the hot list.
    pub attacks: Option<u64>,
    /// Its half-open connections.
    pub conn: Option<ConnTrackEntry>,
}

impl SourceState {
    pub open spec fn unknown_spec() -> SourceState {
        SourceState {
            block: None,
            trust: None,
            rate: None,
            challenge: None,
            attacks: None,
            conn: None,
        }
    }

    /// A source of which nothing is remembered.
    pub fn unknown() -> (r: Self)
        ensures
            r == SourceState::unknown_spec(),
    {
        SourceState {
            block: None,
            trust: None,
            rate: None,
            challenge: None,
            attacks: None,
            conn: None,
        }
    }
}

/// The state in the first entry of `key`, or that of an unknown source.
pub open spec fn state_in(entries: Seq<(IpKey, SourceState)>, key: IpKey) -> SourceState
    decreases entries.len(),
{
    if entries.len() == 0 {
        SourceState::unknown_spec()
    } else if entries[0].0 == key {
        entries[0].1
    } else {
        state_in(entries.skip(1), key)
    }
}

proof fn lemma_state_at(entries: Seq<(IpKey, SourceState)>, key: IpKey, i: int)
    requires
        0 <= i < entries.len(),
        entries[i].0 == key,
        forall|j: int| 0 <= j < i ==> entries[j].0 != key,
    ensures
        state_in(entries, key) == entries[i].1,
    decreases i,
{
    if i > 0 {
        assert(entries.skip(1)[i - 1] == entries[i]);
        lemma_state_at(entries.skip(1), key, i - 1);
    }
}

proof fn lemma_state_absent(entries: Seq<(IpKey, SourceState)>, key: IpKey)
    requires
        forall|j: int| 0 <= j < entries.len() ==> entries[j].0 != key,
    ensures
        state_in(entries, key) == SourceState::unknown_spec(),
    decreases entries.len(),
{
    if entries.len() > 0 {
        lemma_state_absent(entries.skip(1), key);
    }
}

proof fn lemma_state_other(
    a: Seq<(IpKey, SourceState)>,
    b: Seq<(IpKey, SourceState)>,
    key: IpKey,
    i: int,
)
    requires
        0 <= i < b.len(),
        b[i].0 != key,
        a.len() == b.len() ==> a[i].0 != key && b == a.update(i, b[i]),
        a.len() != b.len() ==> i == a.len() && b == a.push(b[i]),
    ensures
        state_in(b, key) == state_in(a, key),
    decreases b.len(),
{
    if i > 0 {
        assert(b[0] == a[0]);
        assert(b.skip(1)[i - 1] == b[i]);
        if a.len() == b.len() {
            assert(b.skip(1) == a.skip(1).update(i - 1, b[i]));
        } else {
            assert(b.skip(1) == a.skip(1).push(b[i]));
        }
        lemma_state_other(a.skip(1), b.skip(1), key, i - 1);
    } else if a.len() == b.len() {
        assert(b.skip(1) == a.skip(1));
    } else {
        assert(state_in(b.skip(1), key) == SourceState::unknown_spec());
    }
}

/// The per-address tables of all sources.
pub struct SourceTable {
    pub entries: Vec<(IpKey, SourceState)>,
}

impl SourceTable {
    /// What is remembered of `key`.
    pub open spec fn state(&self, key: IpKey) -> SourceState {
        state_in(self.entries@, key)
    }

    pub fn new() -> (r: Self)
        ensures
            forall|k: IpKey| r.state(k) == SourceState::unknown_spec(),
    {
        SourceTable { entries: Vec::new() }
    }

    fn find(&self, key: &IpKey) -> (r: Option<usize>)
        ensures
            match r {
                Some(i) => i < self.entries@.len() && self.entries@[i as int].0 == *key && forall|
                    j: int,
                |
                    0 <= j < i ==> self.entries@[j].0 != *key,
                None => forall|j: int| 0 <= j < self.entries@.len() ==> self.entries@[j].0 != *key,
            },
    {
        for i in 0..self.entries.len()
            invariant
                forall|j: int| 0 <= j < i ==> self.entries@[j].0 != *key,
        {
            if self.entries[i].0.same(key) {
                return Some(i);
            }
        }
        None
    }

    pub fn get(&self, key: &IpKey) -> (r: SourceState)
        ensures
            r == self.state(*key),
    {
        match self.find(key) {
            Some(i) => {
                proof {
                    lemma_state_at(self.entries@, *key, i as int);
                }
                self.entries[i].1
            },
            None => {
                proof {
                    lemma_state_absent(self.entries@, *key);
                }
                SourceState::unknown()
            },
        }
    }

    /// Sets what is remembered of `key`; nothing else changes.
    pub fn put(&mut self, key: &IpKey, state: SourceState)
        ensures
            final(self).state(*key) == state,
            forall|k: IpKey| k != *key ==> final(self).state(k) == old(self).state(k),
    {
        let ghost before = self.entries@;
        let at: usize = match self.find(key) {
            Some(i) => {
                self.entries.set(i, (*key, state));
                i
            },
            None => {
                self.entries.push((*key, state));
                self.entries.len() - 1
            },
        };
        proof {
            lemma_state_at(self.entries@, *key, at as int);
            assert forall|k: IpKey| k != *key implies state_in(self.entries@, k) == state_in(
                before,
                k,
            ) by {
                lemma_state_other(before, self.entries@, k, at as int);
            }
        }
    }
}

} // verus!
