//! Keeping what the packet path blocked.

use crate::common::BlockEntry;
use crate::common::IpKey;
use crate::key_table::KeyTable;
use crate::maps::blocks_get;
use crate::maps::blocks_held;
use crate::maps::blocks_insert;
use crate::maps::blocks_new;
use crate::maps::ip_index_key;
use crate::maps::key_octets;
use crate::node::config::BlockOrigin;
use crate::rules;
use dashmap::DashMap;
use vstd::prelude::*;

verus! {

/// How long kept blocks that ended may stay, in nanoseconds.
pub const PRUNE_INTERVAL_NS: u64 = 60_000_000_000;

/// Who blocked, by the number of the rule; `None` where the block is not to be kept.
pub open spec fn origin_of(reason: u8) -> Option<BlockOrigin> {
    let r: u16 = reason as u16;
    if r == rules::RATE_LIMIT || r == rules::SYN_FLOOD || r == rules::UDP_FLOOD || r
        == rules::ICMP_FLOOD {
        Some(BlockOrigin::Local)
    } else if r == rules::ADAPTIVE {
        Some(BlockOrigin::Adaptive)
    } else if r == rules::API_BLOCK {
        Some(BlockOrigin::Api)
    } else if r == rules::THREAT_INTEL {
        Some(BlockOrigin::ThreatIntel)
    } else {
        None
    }
}

pub fn block_reason_to_origin(reason: u8) -> (r: Option<BlockOrigin>)
    ensures
        r == origin_of(reason),
{
    let rule: u16 = reason as u16;
    if rule == rules::RATE_LIMIT || rule == rules::SYN_FLOOD || rule == rules::UDP_FLOOD || rule
        == rules::ICMP_FLOOD {
        Some(BlockOrigin::Local)
    } else if rule == rules::ADAPTIVE {
        Some(BlockOrigin::Adaptive)
    } else if rule == rules::API_BLOCK {
        Some(BlockOrigin::Api)
    } else if rule == rules::THREAT_INTEL {
        Some(BlockOrigin::ThreatIntel)
    } else {
        None
    }
}

/// A block to keep.
#[derive(Clone, Copy)]
pub struct BlockChange {
    pub key: IpKey,
    pub entry: BlockEntry,
    pub origin: BlockOrigin,
}

/// What is remembered of a kept block.
pub open spec fn record_of(e: BlockEntry) -> (u64, u32, u8) {
    (e.blocked_until_ns, e.hit_count, e.block_reason)
}

/// The change that an entry of the packet path's table is, where it is one.
pub open spec fn change_of(
    kept: Map<Seq<u8>, (u64, u32, u8)>,
    item: (IpKey, BlockEntry),
) -> Option<BlockChange> {
    let o: Seq<u8> = key_octets(item.0);
    match origin_of(item.1.block_reason) {
        None => None,
        Some(origin) => if kept.contains_key(o) && kept[o] == record_of(item.1) {
            None
        } else {
            Some(BlockChange { key: item.0, entry: item.1, origin })
        },
    }
}

/// The changes among the entries of the packet path's table, in order.
pub open spec fn changes_of(
    kept: Map<Seq<u8>, (u64, u32, u8)>,
    items: Seq<(IpKey, BlockEntry)>,
) -> Seq<BlockChange>
    decreases items.len(),
{
    if items.len() == 0 {
        Seq::empty()
    } else {
        let front: Seq<BlockChange> = changes_of(kept, items.drop_last());
        match change_of(kept, items.last()) {
            Some(c) => front.push(c),
            None => front,
        }
    }
}

/// The hub's blocks stay the hub's: the change is kept unless the store holds the address
/// as the hub's.
pub open spec fn may_save(origins: Map<IpKey, BlockOrigin>, c: BlockChange) -> bool {
    c.origin == BlockOrigin::Hub || !(origins.contains_key(c.key) && origins[c.key]
        == BlockOrigin::Hub)
}

/// The changes that are kept, in order.
pub open spec fn savable(origins: Map<IpKey, BlockOrigin>, changes: Seq<BlockChange>) -> Seq<
    BlockChange,
>
    decreases changes.len(),
{
    if changes.len() == 0 {
        changes
    } else if may_save(origins, changes.last()) {
        savable(origins, changes.drop_last()).push(changes.last())
    } else {
        savable(origins, changes.drop_last())
    }
}

/// What was kept of the packet path's blocks, and when kept blocks were last looked through.
pub struct BlacklistSync {
    pub cache: DashMap<[u8; 17], (u64, u32, u8)>,
    pub last_prune_ns: u64,
}

impl BlacklistSync {
    pub fn new() -> (r: Self)
        ensures
            forall|k: Seq<u8>| !blocks_held(r.cache).contains_key(k),
            r.last_prune_ns == 0,
    {
        BlacklistSync { cache: blocks_new(), last_prune_ns: 0 }
    }

    /// What the packet path's table holds that is not kept yet.
    pub fn changed(&self, snapshot: &Vec<(IpKey, BlockEntry)>) -> (r: Vec<BlockChange>)
        ensures
            r@ == changes_of(blocks_held(self.cache), snapshot@),
    {
        let mut out: Vec<BlockChange> = Vec::new();
        for i in 0..snapshot.len()
            invariant
                out@ == changes_of(blocks_held(self.cache), snapshot@.take(i as int)),
        {
            assert(snapshot@.take(i + 1).drop_last() == snapshot@.take(i as int));
            assert(snapshot@.take(i + 1).last() == snapshot@[i as int]);
            let key: IpKey = snapshot[i].0;
            let entry: BlockEntry = snapshot[i].1;
            if let Some(origin) = block_reason_to_origin(entry.block_reason) {
                if origin.publishable() {
                    let known: bool = match blocks_get(&self.cache, &ip_index_key(&key)) {
                        Some(c) => c.0 == entry.blocked_until_ns && c.1 == entry.hit_count && c.2
                            == entry.block_reason,
                        None => false,
                    };
                    if !known {
                        out.push(BlockChange { key, entry, origin });
                    }
                }
            }
        }
        assert(snapshot@.take(snapshot@.len() as int) == snapshot@);
        out
    }

    /// The changes that are to be kept, given whose the blocks in the store are.
    pub fn to_save(changes: &Vec<BlockChange>, origins: &KeyTable<BlockOrigin>) -> (r: Vec<
        BlockChange,
    >)
        requires
            origins.wf(),
        ensures
            r@ == savable(origins.map(), changes@),
    {
        let mut out: Vec<BlockChange> = Vec::new();
        for i in 0..changes.len()
            invariant
                origins.wf(),
                out@ == savable(origins.map(), changes@.take(i as int)),
        {
            assert(changes@.take(i + 1).drop_last() == changes@.take(i as int));
            assert(changes@.take(i + 1).last() == changes@[i as int]);
            let c: BlockChange = changes[i];
            let hubs: bool = match origins.get(&c.key) {
                Some(o) => *o == BlockOrigin::Hub,
                None => false,
            };
            if c.origin == BlockOrigin::Hub || !hubs {
                out.push(c);
            }
        }
        assert(changes@.take(changes@.len() as int) == changes@);
        out
    }

    /// The change was written to the store.
    pub fn saved(&mut self, c: &BlockChange)
        ensures
            blocks_held(final(self).cache) == blocks_held(old(self).cache).insert(
                key_octets(c.key),
                record_of(c.entry),
            ),
            final(self).last_prune_ns == old(self).last_prune_ns,
    {
        blocks_insert(
            &mut self.cache,
            &ip_index_key(&c.key),
            (c.entry.blocked_until_ns, c.entry.hit_count, c.entry.block_reason),
        );
    }

    /// It is time to look for kept blocks that have ended.
    pub fn prune_due(&mut self, now_ns: u64) -> (r: bool)
        ensures
            r == (now_ns >= old(self).last_prune_ns && now_ns - old(self).last_prune_ns
                >= PRUNE_INTERVAL_NS),
            final(self).last_prune_ns == if r {
                now_ns
            } else {
                old(self).last_prune_ns
            },
            final(self).cache == old(self).cache,
    {
        let due: bool = now_ns.saturating_sub(self.last_prune_ns) >= PRUNE_INTERVAL_NS;
        if due {
            self.last_prune_ns = now_ns;
        }
        due
    }
}

/// A block that was kept is not written again until it changes.
pub proof fn law_kept_block_is_no_change(
    kept: Map<Seq<u8>, (u64, u32, u8)>,
    c: BlockChange,
    later: BlockEntry,
)
    ensures
        change_of(kept.insert(key_octets(c.key), record_of(c.entry)), (c.key, later)) is Some <==>
            origin_of(later.block_reason) is Some && record_of(later) != record_of(c.entry),
{
}

/// No change takes a block from the hub.
pub proof fn law_hub_block_stays_the_hubs(
    origins: Map<IpKey, BlockOrigin>,
    kept: Map<Seq<u8>, (u64, u32, u8)>,
    items: Seq<(IpKey, BlockEntry)>,
    i: int,
)
    requires
        0 <= i < savable(origins, changes_of(kept, items)).len(),
    ensures
        ({
            let c: BlockChange = savable(origins, changes_of(kept, items))[i];
            !(origins.contains_key(c.key) && origins[c.key] == BlockOrigin::Hub)
        }),
{
    lemma_no_hub_change(kept, items);
    lemma_saved_may(origins, changes_of(kept, items));
}

proof fn lemma_no_hub_change(kept: Map<Seq<u8>, (u64, u32, u8)>, items: Seq<(IpKey, BlockEntry)>)
    ensures
        forall|j: int|
            0 <= j < changes_of(kept, items).len() ==> (#[trigger] changes_of(kept, items)[j]).origin
                != BlockOrigin::Hub,
    decreases items.len(),
{
    if items.len() > 0 {
        lemma_no_hub_change(kept, items.drop_last());
    }
}

proof fn lemma_saved_may(origins: Map<IpKey, BlockOrigin>, changes: Seq<BlockChange>)
    requires
        forall|j: int|
            0 <= j < changes.len() ==> (#[trigger] changes[j]).origin != BlockOrigin::Hub,
    ensures
        forall|j: int|
            0 <= j < savable(origins, changes).len() ==> may_save(
                origins,
                #[trigger] savable(origins, changes)[j],
            ) && savable(origins, changes)[j].origin != BlockOrigin::Hub,
    decreases changes.len(),
{
    if changes.len() > 0 {
        let front: Seq<BlockChange> = changes.drop_last();
        assert forall|j: int| 0 <= j < front.len() implies (#[trigger] front[j]).origin
            != BlockOrigin::Hub by {
            assert(front[j] == changes[j]);
        }
        lemma_saved_may(origins, front);
    }
}

} // verus!
