//! Which blocks are kept, told and taken over, one by one.

use crate::common::BlockEntry;
use crate::common::IpKey;
use crate::common::TrustEntry;
use crate::hub::models::NodePolicy;
use crate::hub::models::SharedPolicy;
use crate::maps::key_octets;
use crate::node::blacklist_sync::changes_of;
use crate::node::blacklist_sync::savable;
use crate::node::blacklist_sync::BlockChange;
use crate::node::control::ended_of;
use crate::node::control::hub_blocks;
use crate::node::control::hubs_own;
use crate::node::control::publishable;
use crate::node::control::restored_all;
use crate::node::control::BlacklistRow;
use crate::node::control::HubBlock;
use crate::node::control::PublishLimits;
use crate::node::config::BlockOrigin;
use vstd::prelude::*;

verus! {

/// The block never ends, or has not ended yet.
pub open spec fn still_holds(until_ns: u64, now_ns: u64) -> bool {
    until_ns == 0 || now_ns < until_ns
}

/// Kept blocks are restored one by one: those that still hold, with their end and their
/// reason, but for those of the configuration.
pub proof fn law_blocks_are_restored(a: Seq<(IpKey, BlacklistRow)>, b: Seq<(IpKey, BlacklistRow)>, x: (IpKey, BlacklistRow), now_ns: u64)
    ensures
        restored_all(a + b, now_ns) == restored_all(a, now_ns) + restored_all(b, now_ns),
        x.1.block_reason == 1 || !still_holds(x.1.blocked_until_ns, now_ns) ==> restored_all(
            seq![x],
            now_ns,
        ) == Seq::<(IpKey, BlockEntry)>::empty(),
        x.1.block_reason != 1 && still_holds(x.1.blocked_until_ns, now_ns) ==> restored_all(
            seq![x],
            now_ns,
        ) == seq![
            (
                x.0,
                BlockEntry {
                    blocked_until_ns: x.1.blocked_until_ns,
                    block_reason: x.1.block_reason,
                    hit_count: 0,
                    first_seen_ns: now_ns,
                },
            ),
        ],
    decreases b.len(),
{
    if b.len() == 0 {
        assert(a + b =~= a);
        assert(restored_all(a, now_ns) + restored_all(b, now_ns) =~= restored_all(a, now_ns));
    } else {
        law_blocks_are_restored(a, b.drop_last(), x, now_ns);
        assert((a + b).drop_last() =~= a + b.drop_last());
        assert((a + b).last() == b.last());
        assert(restored_all(a + b, now_ns) =~= restored_all(a, now_ns) + restored_all(b, now_ns));
    }
    let one: Seq<(IpKey, BlacklistRow)> = seq![x];
    assert(one.drop_last().len() == 0);
    assert(restored_all(one.drop_last(), now_ns).len() == 0);
    assert(one.last() == x);
}

/// Kept blocks that have ended go from the store, and no others.
pub proof fn law_ended_blocks_go(a: Seq<(IpKey, BlacklistRow)>, b: Seq<(IpKey, BlacklistRow)>, x: (IpKey, BlacklistRow), now_ns: u64)
    ensures
        ended_of(a + b, now_ns) == ended_of(a, now_ns) + ended_of(b, now_ns),
        still_holds(x.1.blocked_until_ns, now_ns) ==> ended_of(seq![x], now_ns) == Seq::<
            IpKey,
        >::empty(),
        !still_holds(x.1.blocked_until_ns, now_ns) ==> ended_of(seq![x], now_ns) == seq![x.0],
    decreases b.len(),
{
    if b.len() == 0 {
        assert(a + b =~= a);
        assert(ended_of(a, now_ns) + ended_of(b, now_ns) =~= ended_of(a, now_ns));
    } else {
        law_ended_blocks_go(a, b.drop_last(), x, now_ns);
        assert((a + b).drop_last() =~= a + b.drop_last());
        assert((a + b).last() == b.last());
        assert(ended_of(a + b, now_ns) =~= ended_of(a, now_ns) + ended_of(b, now_ns));
    }
    let one: Seq<(IpKey, BlacklistRow)> = seq![x];
    assert(one.drop_last().len() == 0);
    assert(ended_of(one.drop_last(), now_ns).len() == 0);
    assert(one.last() == x);
}

/// Who a block of the packet path is kept for: its own limits, the adaptive engine, a
/// request or a feed. Others are not kept.
pub open spec fn keeper(reason: u8) -> Option<BlockOrigin> {
    if reason == 2 || reason == 3 || reason == 8 || reason == 9 {
        Some(BlockOrigin::Local)
    } else if reason == 5 {
        Some(BlockOrigin::Adaptive)
    } else if reason == 6 {
        Some(BlockOrigin::Api)
    } else if reason == 11 {
        Some(BlockOrigin::ThreatIntel)
    } else {
        None
    }
}

/// The block is kept as it is now: with its end, its hits and its reason.
pub open spec fn is_kept(kept: Map<Seq<u8>, (u64, u32, u8)>, k: IpKey, e: BlockEntry) -> bool {
    &&& kept.contains_key(key_octets(k))
    &&& kept[key_octets(k)] == (e.blocked_until_ns, e.hit_count, e.block_reason)
}

/// Blocks of the packet path are kept one by one: those of a limit, the adaptive engine, a
/// request or a feed that are not kept as they are now.
pub proof fn law_new_blocks_are_kept(a: Seq<(IpKey, BlockEntry)>, b: Seq<(IpKey, BlockEntry)>, x: (IpKey, BlockEntry), kept: Map<Seq<u8>, (u64, u32, u8)>)
    ensures
        changes_of(kept, a + b) == changes_of(kept, a) + changes_of(kept, b),
        keeper(x.1.block_reason) is None || is_kept(kept, x.0, x.1) ==> changes_of(kept, seq![x])
            == Seq::<BlockChange>::empty(),
        keeper(x.1.block_reason) is Some && !is_kept(kept, x.0, x.1) ==> changes_of(kept, seq![x])
            == seq![
            BlockChange { key: x.0, entry: x.1, origin: keeper(x.1.block_reason)->0 },
        ],
    decreases b.len(),
{
    if b.len() == 0 {
        assert(a + b =~= a);
        assert(changes_of(kept, a) + changes_of(kept, b) =~= changes_of(kept, a));
    } else {
        law_new_blocks_are_kept(a, b.drop_last(), x, kept);
        assert((a + b).drop_last() =~= a + b.drop_last());
        assert((a + b).last() == b.last());
        assert(changes_of(kept, a + b) =~= changes_of(kept, a) + changes_of(kept, b));
    }
    let one: Seq<(IpKey, BlockEntry)> = seq![x];
    assert(one.drop_last().len() == 0);
    assert(changes_of(kept, one.drop_last()).len() == 0);
    assert(one.last() == x);
}

/// Changes are written one by one, but for those of addresses that the hub has blocked and
/// that are not the hub's own.
pub proof fn law_changes_are_saved(a: Seq<BlockChange>, b: Seq<BlockChange>, x: BlockChange, origins: Map<IpKey, BlockOrigin>)
    ensures
        savable(origins, a + b) == savable(origins, a) + savable(origins, b),
        ({
            let hubs: bool = origins.contains_key(x.key) && origins[x.key] == BlockOrigin::Hub;
            savable(origins, seq![x]) == if hubs && x.origin != BlockOrigin::Hub {
                Seq::<BlockChange>::empty()
            } else {
                seq![x]
            }
        }),
    decreases b.len(),
{
    if b.len() == 0 {
        assert(a + b =~= a);
        assert(savable(origins, a) + savable(origins, b) =~= savable(origins, a));
    } else {
        law_changes_are_saved(a, b.drop_last(), x, origins);
        assert((a + b).drop_last() =~= a + b.drop_last());
        assert((a + b).last() == b.last());
        assert(savable(origins, a + b) =~= savable(origins, a) + savable(origins, b));
    }
    let one: Seq<BlockChange> = seq![x];
    assert(one.drop_last().len() == 0);
    assert(savable(origins, one.drop_last()).len() == 0);
    assert(one.last() == x);
}

/// The store holds the address as blocked by the hub.
pub open spec fn is_hubs(rows: Seq<(IpKey, BlacklistRow)>, k: IpKey) -> bool {
    exists|i: int|
        0 <= i < rows.len() && (#[trigger] rows[i]).0 == k && rows[i].1.origin == BlockOrigin::Hub
}

/// Of the addresses that the hub no longer blocks, those are unblocked that the hub had
/// blocked.
pub proof fn law_only_hub_blocks_are_lifted(a: Seq<IpKey>, b: Seq<IpKey>, x: IpKey, rows: Seq<(IpKey, BlacklistRow)>)
    ensures
        hubs_own(a + b, rows) == hubs_own(a, rows) + hubs_own(b, rows),
        is_hubs(rows, x) ==> hubs_own(seq![x], rows) == seq![x],
        !is_hubs(rows, x) ==> hubs_own(seq![x], rows) == Seq::<IpKey>::empty(),
    decreases b.len(),
{
    if b.len() == 0 {
        assert(a + b =~= a);
        assert(hubs_own(a, rows) + hubs_own(b, rows) =~= hubs_own(a, rows));
    } else {
        law_only_hub_blocks_are_lifted(a, b.drop_last(), x, rows);
        assert((a + b).drop_last() =~= a + b.drop_last());
        assert((a + b).last() == b.last());
        assert(hubs_own(a + b, rows) =~= hubs_own(a, rows) + hubs_own(b, rows));
    }
    let one: Seq<IpKey> = seq![x];
    assert(one.drop_last().len() == 0);
    assert(hubs_own(one.drop_last(), rows).len() == 0);
    assert(one.last() == x);
}

/// The node is one of those that reported the policy.
pub open spec fn is_own(p: SharedPolicy, node: Seq<char>) -> bool {
    node.len() > 0 && exists|i: int|
        0 <= i < p.source_nodes@.len() && (#[trigger] p.source_nodes@[i])@ == node
}

/// `b` is the block of a policy: for as long as the policy holds, a minute at least, and for
/// ever where it does; the reputation is ten times the policy's.
pub open spec fn takes_over(b: HubBlock, p: SharedPolicy, trust_enabled: bool, now_ns: u64) -> bool {
    let s: int = if p.ttl_s < 60 {
        60
    } else {
        p.ttl_s as int
    };
    &&& b.plan.key == p.ip
    &&& b.plan.entry.block_reason == p.reason
    &&& b.plan.entry.hit_count == 0
    &&& b.plan.entry.first_seen_ns == now_ns
    &&& p.ttl_s == 0 ==> b.plan.entry.blocked_until_ns == 0
    &&& p.ttl_s > 0 && now_ns + s * 1_000_000_000 <= u64::MAX ==> b.plan.entry.blocked_until_ns
        == now_ns + s * 1_000_000_000
    &&& b.plan.row.origin == BlockOrigin::Hub
    &&& b.plan.row.blocked_until_ns == b.plan.entry.blocked_until_ns
    &&& b.plan.row.block_reason == p.reason
    &&& b.plan.row.first_seen_ns == now_ns
    &&& b.trust is Some <==> p.trust_score > 0 && trust_enabled
    &&& b.trust is Some && p.trust_score <= 100 ==> b.trust->0.trust_score == p.trust_score * 10
    &&& b.trust is Some && p.trust_score > 100 ==> b.trust->0.trust_score == 1000
}

/// Policies of the hub are taken over one by one, but for those of addresses that are
/// blocked already and those that the node itself reported.
pub proof fn law_policies_are_taken_over(a: Seq<SharedPolicy>, b: Seq<SharedPolicy>, x: SharedPolicy, held: Map<IpKey, BlockEntry>, node: Seq<char>, trust_enabled: bool, now_ns: u64)
    ensures
        hub_blocks(a + b, held, node, trust_enabled, now_ns) == hub_blocks(a, held, node, trust_enabled, now_ns) + hub_blocks(b, held, node, trust_enabled, now_ns),
        held.contains_key(x.ip) || is_own(x, node) ==> hub_blocks(
            seq![x],
            held,
            node,
            trust_enabled,
            now_ns,
        ).len() == 0,
        !held.contains_key(x.ip) && !is_own(x, node) ==> hub_blocks(
            seq![x],
            held,
            node,
            trust_enabled,
            now_ns,
        ).len() == 1 && takes_over(
            hub_blocks(seq![x], held, node, trust_enabled, now_ns)[0],
            x,
            trust_enabled,
            now_ns,
        ),
    decreases b.len(),
{
    if b.len() == 0 {
        assert(a + b =~= a);
        assert(hub_blocks(a, held, node, trust_enabled, now_ns) + hub_blocks(b, held, node, trust_enabled, now_ns) =~= hub_blocks(a, held, node, trust_enabled, now_ns));
    } else {
        law_policies_are_taken_over(a, b.drop_last(), x, held, node, trust_enabled, now_ns);
        assert((a + b).drop_last() =~= a + b.drop_last());
        assert((a + b).last() == b.last());
        assert(hub_blocks(a + b, held, node, trust_enabled, now_ns) =~= hub_blocks(a, held, node, trust_enabled, now_ns) + hub_blocks(b, held, node, trust_enabled, now_ns));
    }
    let one: Seq<SharedPolicy> = seq![x];
    assert(one.drop_last().len() == 0);
    assert(hub_blocks(one.drop_last(), held, node, trust_enabled, now_ns).len() == 0);
    assert(one.last() == x);
}

/// The hub is told of the block: it is new, not the hub's own, in force in the packet path,
/// still holds or was hit often enough, and its source has no better reputation than the
/// limit.
pub open spec fn is_told(
    k: IpKey,
    row: BlacklistRow,
    held: Map<IpKey, BlockEntry>,
    trust: Map<IpKey, TrustEntry>,
    limits: PublishLimits,
    now_ns: u64,
) -> bool {
    &&& limits.since_ns <= row.first_seen_ns
    &&& row.origin != BlockOrigin::Hub
    &&& held.contains_key(k)
    &&& still_holds(row.blocked_until_ns, now_ns) || held[k].hit_count >= limits.min_hits
    &&& percent(trust, k) <= limits.min_trust
}

/// The reputation of a source out of a hundred, of whose thousand it is told.
pub open spec fn percent(trust: Map<IpKey, TrustEntry>, k: IpKey) -> int {
    if !trust.contains_key(k) {
        0
    } else if trust[k].trust_score > 1000 {
        100
    } else {
        trust[k].trust_score as int / 10
    }
}

/// `p` tells of the block.
pub open spec fn tells_of(
    p: NodePolicy,
    k: IpKey,
    row: BlacklistRow,
    held: Map<IpKey, BlockEntry>,
    trust: Map<IpKey, TrustEntry>,
    now_ns: u64,
) -> bool {
    &&& p.ip == k
    &&& p.reason == row.block_reason
    &&& p.hit_count == held[k].hit_count
    &&& p.trust_score == percent(trust, k)
    &&& p.blocked_until_ns == row.blocked_until_ns
    &&& row.blocked_until_ns == 0 ==> p.ttl_s == 0
    &&& row.blocked_until_ns != 0 && row.blocked_until_ns - now_ns < 1_000_000_000 ==> p.ttl_s == 1
    &&& row.blocked_until_ns != 0 && row.blocked_until_ns - now_ns >= 1_000_000_000
        ==> p.ttl_s * 1_000_000_000 <= row.blocked_until_ns - now_ns < (p.ttl_s + 1)
        * 1_000_000_000
}

/// One block is told of where it is to be, with what is known of it.
pub proof fn law_block_is_told(
    x: (IpKey, BlacklistRow),
    held: Map<IpKey, BlockEntry>,
    trust: Map<IpKey, TrustEntry>,
    limits: PublishLimits,
    now_ns: u64,
    n: nat,
)
    requires
        n > 0,
    ensures
        ({
            let r: Seq<NodePolicy> = publishable(seq![x], held, trust, limits, now_ns, n);
            &&& !is_told(x.0, x.1, held, trust, limits, now_ns) ==> r.len() == 0
            &&& is_told(x.0, x.1, held, trust, limits, now_ns) ==> r.len() == 1 && tells_of(
                r[0],
                x.0,
                x.1,
                held,
                trust,
                now_ns,
            )
        }),
{
    let one: Seq<(IpKey, BlacklistRow)> = seq![x];
    assert(one.skip(1).len() == 0);
    assert(publishable(one.skip(1), held, trust, limits, now_ns, n).len() == 0);
    assert(publishable(one.skip(1), held, trust, limits, now_ns, (n - 1) as nat).len() == 0);
    assert(one[0] == x);
}

/// Blocks are told of in order until as many are told as fit; what is left of a batch goes
/// to the blocks that follow.
pub proof fn law_batch_is_filled(
    a: Seq<(IpKey, BlacklistRow)>,
    b: Seq<(IpKey, BlacklistRow)>,
    held: Map<IpKey, BlockEntry>,
    trust: Map<IpKey, TrustEntry>,
    limits: PublishLimits,
    now_ns: u64,
    n: nat,
)
    ensures
        ({
            let first: Seq<NodePolicy> = publishable(a, held, trust, limits, now_ns, n);
            &&& first.len() <= n
            &&& publishable(a + b, held, trust, limits, now_ns, n) == first + publishable(
                b,
                held,
                trust,
                limits,
                now_ns,
                (n - first.len()) as nat,
            )
        }),
    decreases a.len(),
{
    let first: Seq<NodePolicy> = publishable(a, held, trust, limits, now_ns, n);
    if a.len() == 0 {
        assert(a + b =~= b);
        let rest: Seq<NodePolicy> = publishable(b, held, trust, limits, now_ns, n);
        assert(first + rest =~= rest);
    } else if n == 0 {
        assert(publishable(b, held, trust, limits, now_ns, 0).len() == 0);
        assert(publishable(a + b, held, trust, limits, now_ns, 0) =~= first + publishable(
            b,
            held,
            trust,
            limits,
            now_ns,
            0,
        ));
    } else {
        assert((a + b)[0] == a[0]);
        assert((a + b).skip(1) =~= a.skip(1) + b);
        law_batch_is_filled(a.skip(1), b, held, trust, limits, now_ns, (n - 1) as nat);
        law_batch_is_filled(a.skip(1), b, held, trust, limits, now_ns, n);
        assert(publishable(a + b, held, trust, limits, now_ns, n) =~= first + publishable(
            b,
            held,
            trust,
            limits,
            now_ns,
            (n - first.len()) as nat,
        ));
    }
}

} // verus!
