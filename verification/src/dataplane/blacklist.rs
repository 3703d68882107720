//! Blocked sources.

use crate::common::BlockEntry;
use crate::common::TrustEntry;
use crate::common::BLOCK_PERMANENT;
use crate::common::TRUST_DEFAULT;
use crate::common::TRUST_MIN;
use crate::dataplane::source::SourceState;
use crate::dataplane::trust::sat_add32;
use vstd::prelude::*;

verus! {

/// A block that ends at `until` holds at `now_ns`; zero never ends.
pub open spec fn block_holds(until: u64, now_ns: u64) -> bool {
    until == 0 || until > now_ns
}

/// The source is blocked at `now_ns`.
pub open spec fn blocked(state: SourceState, now_ns: u64) -> bool {
    match state.block {
        Some(e) => block_holds(e.blocked_until_ns, now_ns),
        None => false,
    }
}

/// The source after its block was looked up: a hit counts for `n`, a block that has ended
/// is taken away and the reputation starts anew.
pub open spec fn after_hits(state: SourceState, now_ns: u64, n: u32) -> SourceState {
    match state.block {
        None => state,
        Some(e) => if block_holds(e.blocked_until_ns, now_ns) {
            SourceState {
                block: Some(BlockEntry { hit_count: sat_add32(e.hit_count, n), ..e }),
                ..state
            }
        } else {
            SourceState { block: None, trust: Some(TrustEntry::blank_spec(500, 0)), ..state }
        },
    }
}

/// The source after its block was looked up, the hit counted once.
pub open spec fn after_block_lookup(state: SourceState, now_ns: u64) -> SourceState {
    after_hits(state, now_ns, 1)
}

/// Looks up the block of a source; a hit counts for `n`.
pub fn look_up_block(state: &mut SourceState, now_ns: u64, n: u32) -> (r: bool)
    ensures
        r == blocked(*old(state), now_ns),
        *final(state) == after_hits(*old(state), now_ns, n),
{
    match state.block {
        Some(entry) => {
            if entry.blocked_until_ns == BLOCK_PERMANENT || entry.blocked_until_ns > now_ns {
                let mut updated: BlockEntry = entry;
                updated.hit_count = updated.hit_count.saturating_add(n);
                state.block = Some(updated);
                return true;
            }
        },
        None => {
            return false;
        },
    }
    state.block = None;
    reset_trust(state);
    false
}

pub fn is_blacklisted(state: &mut SourceState, now_ns: u64) -> (r: bool)
    ensures
        r == blocked(*old(state), now_ns),
        *final(state) == after_block_lookup(*old(state), now_ns),
{
    look_up_block(state, now_ns, 1)
}

/// How many hits stand behind one that is written down.
pub const HIT_WEIGHT: u32 = 16;

/// For how many hits one counts: one in [`HIT_WEIGHT`] stands for all of them.
pub open spec fn hit_weight(draw: u32) -> u32 {
    if draw % HIT_WEIGHT == 0 {
        HIT_WEIGHT
    } else {
        0
    }
}

pub fn weigh_hit(draw: u32) -> (r: u32)
    ensures
        r == hit_weight(draw),
{
    if draw % HIT_WEIGHT == 0 {
        HIT_WEIGHT
    } else {
        0
    }
}

/// When a block of `seconds` that starts at `now_ns` ends; zero seconds is for ever. The
/// end saturates.
pub open spec fn block_end(now_ns: u64, seconds: u64) -> u64 {
    if seconds == 0 {
        0
    } else if now_ns + seconds * 1_000_000_000 > u64::MAX {
        u64::MAX
    } else {
        (now_ns + seconds * 1_000_000_000) as u64
    }
}

/// The end of a block, in nanoseconds.
pub fn block_until(now_ns: u64, block_duration_s: u64) -> (r: u64)
    ensures
        r == block_end(now_ns, block_duration_s),
{
    if block_duration_s == 0 {
        BLOCK_PERMANENT
    } else {
        let block_ns: u64 = if block_duration_s > u64::MAX / 1_000_000_000 {
            u64::MAX
        } else {
            block_duration_s * 1_000_000_000
        };
        now_ns.saturating_add(block_ns)
    }
}

pub open spec fn after_blocking(
    state: SourceState,
    now_ns: u64,
    seconds: u64,
    reason: u8,
) -> SourceState {
    SourceState {
        block: Some(
            BlockEntry {
                blocked_until_ns: block_end(now_ns, seconds),
                block_reason: reason,
                hit_count: 0,
                first_seen_ns: now_ns,
            },
        ),
        trust: Some(TrustEntry::blank_spec(0, now_ns)),
        ..state
    }
}

/// Blocks the source. Its reputation falls to zero: whatever trust it had gathered is
/// void.
pub fn add_to_blacklist(state: &mut SourceState, now_ns: u64, block_duration_s: u64, reason: u8)
    ensures
        *final(state) == after_blocking(*old(state), now_ns, block_duration_s, reason),
{
    state.block = Some(
        BlockEntry {
            blocked_until_ns: block_until(now_ns, block_duration_s),
            block_reason: reason,
            hit_count: 0,
            first_seen_ns: now_ns,
        },
    );
    state.trust = Some(TrustEntry::blank(TRUST_MIN, now_ns));
}

/// Gives the source a neutral reputation.
fn reset_trust(state: &mut SourceState)
    ensures
        *final(state) == (SourceState {
            trust: Some(TrustEntry::blank_spec(500, 0)),
            ..*old(state)
        }),
{
    state.trust = Some(TrustEntry::blank(TRUST_DEFAULT, 0));
}

/// A source blocked for some seconds is found blocked throughout them and no longer
/// after; blocked for zero seconds it is found blocked for ever. Looking it up while
/// blocked does not change that.
pub proof fn law_block_lasts(state: SourceState, t0: u64, seconds: u64, reason: u8, t: u64)
    requires
        t >= t0,
        t0 + seconds * 1_000_000_000 < u64::MAX,
    ensures
        ({
            let b: SourceState = after_blocking(state, t0, seconds, reason);
            &&& blocked(b, t) == (seconds == 0 || t < t0 + seconds * 1_000_000_000)
            &&& forall|n: u32| blocked(b, t) ==> blocked(#[trigger] after_hits(b, t, n), t)
        }),
{
}

/// Once a block has ended, a lookup leaves the source unblocked with a neutral score.
pub proof fn law_block_expires(state: SourceState, now_ns: u64)
    requires
        state.block is Some,
        !blocked(state, now_ns),
    ensures
        !blocked(after_block_lookup(state, now_ns), now_ns),
        after_block_lookup(state, now_ns).trust->0.trust_score == TRUST_DEFAULT,
{
}

} // verus!
