//! Reputation of a source: it rises slowly with passed packets, falls quickly with
//! dropped ones, and scales the source's rate threshold.

use crate::common::TrustEntry;
use crate::common::TRUST_ADD_DIVISOR;
use crate::common::TRUST_DEFAULT;
use crate::common::TRUST_MAX;
use crate::common::TRUST_SUB_DIVISOR;
use crate::dataplane::source::SourceState;
use vstd::prelude::*;

verus! {

pub open spec fn sat_add32(v: u32, n: u32) -> u32 {
    if v + n > u32::MAX {
        u32::MAX
    } else {
        (v + n) as u32
    }
}

pub open spec fn sat_add64(v: u64, n: u64) -> u64 {
    if v + n > u64::MAX {
        u64::MAX
    } else {
        (v + n) as u64
    }
}

pub open spec fn sat_inc32(v: u32) -> u32 {
    sat_add32(v, 1)
}

pub open spec fn sat_inc64(v: u64) -> u64 {
    sat_add64(v, 1)
}

/// The score after `n` passed packets that are counted in one go: each adds a hundredth
/// of what the score lacks.
pub open spec fn score_after_passes(score: u32, n: u32) -> u32 {
    if score >= 1000 || score + n * ((1000 - score) / 100) >= 1000 {
        1000
    } else {
        (score + n * ((1000 - score) / 100)) as u32
    }
}

/// The score after a dropped packet.
pub open spec fn score_after_drop(score: u32) -> u32 {
    (score - score as int / 3) as u32
}

/// The class of a score: 1 trusted, 2 neutral, 3 suspicious, 4 malicious.
pub open spec fn level_of(score: u32) -> u8 {
    if score >= 700 {
        1
    } else if score >= 300 {
        2
    } else if score >= 100 {
        3
    } else {
        4
    }
}

/// The entry of a source, a neutral one where it has none.
pub open spec fn entry_or_neutral(t: Option<TrustEntry>) -> TrustEntry {
    match t {
        Some(e) => e,
        None => TrustEntry::blank_spec(500, 0),
    }
}

/// The entry after `n` passed packets.
pub open spec fn trust_after_passes(t: Option<TrustEntry>, n: u32, now_ns: u64) -> TrustEntry {
    let e: TrustEntry = entry_or_neutral(t);
    TrustEntry {
        trust_score: score_after_passes(e.trust_score, n),
        pass_count: sat_add32(e.pass_count, n),
        drop_count: e.drop_count,
        last_update_ns: now_ns,
        level: level_of(score_after_passes(e.trust_score, n)),
    }
}

/// The entry after a passed packet.
pub open spec fn trust_after_pass(t: Option<TrustEntry>, now_ns: u64) -> TrustEntry {
    trust_after_passes(t, 1, now_ns)
}

pub open spec fn trust_after_drop(t: Option<TrustEntry>, now_ns: u64) -> TrustEntry {
    let e: TrustEntry = entry_or_neutral(t);
    TrustEntry {
        trust_score: score_after_drop(e.trust_score),
        pass_count: e.pass_count,
        drop_count: sat_inc32(e.drop_count),
        last_update_ns: now_ns,
        level: level_of(score_after_drop(e.trust_score)),
    }
}

/// `n` packets of the source were passed, counted in one go.
pub fn trust_passes(state: &mut SourceState, n: u32, now_ns: u64)
    ensures
        *final(state) == (SourceState {
            trust: Some(trust_after_passes(old(state).trust, n, now_ns)),
            ..*old(state)
        }),
{
    let mut entry: TrustEntry = match state.trust {
        Some(e) => e,
        None => TrustEntry::blank(TRUST_DEFAULT, 0),
    };
    entry.pass_count = entry.pass_count.saturating_add(n);
    let delta: u64 = (TRUST_MAX.saturating_sub(entry.trust_score) / TRUST_ADD_DIVISOR) as u64;
    assert(0 <= n * delta <= u32::MAX * 10) by (nonlinear_arith)
        requires
            n <= u32::MAX,
            0 <= delta <= 10,
    ;
    let risen: u64 = entry.trust_score as u64 + n as u64 * delta;
    entry.trust_score = if risen >= TRUST_MAX as u64 {
        TRUST_MAX
    } else {
        risen as u32
    };
    entry.last_update_ns = now_ns;
    entry.level = trust_level(entry.trust_score);
    state.trust = Some(entry);
}

/// A packet of the source was passed.
pub fn trust_pass(state: &mut SourceState, now_ns: u64)
    ensures
        *final(state) == (SourceState {
            trust: Some(trust_after_pass(old(state).trust, now_ns)),
            ..*old(state)
        }),
{
    trust_passes(state, 1, now_ns);
}

/// How many passed packets stand behind one that is written down.
pub const PASS_WEIGHT: u32 = 64;

/// How many packets of a source without any trust stand behind a drop that is written
/// down.
pub const DROP_WEIGHT: u32 = 16;

/// The reputation after a passed packet of which one in [`PASS_WEIGHT`] is written, with
/// the weight of all of them.
pub open spec fn sampled_pass(t: Option<TrustEntry>, now_ns: u64, draw: u32) -> Option<TrustEntry> {
    if draw % PASS_WEIGHT == 0 {
        Some(trust_after_passes(t, PASS_WEIGHT, now_ns))
    } else {
        t
    }
}

/// The reputation after a dropped packet. Where the score is zero already, one drop in
/// [`DROP_WEIGHT`] is written.
pub open spec fn sampled_drop(t: Option<TrustEntry>, now_ns: u64, draw: u32) -> Option<TrustEntry> {
    if t is Some && t->0.trust_score == 0 && draw % DROP_WEIGHT != 0 {
        t
    } else {
        Some(trust_after_drop(t, now_ns))
    }
}

/// A packet of the source was passed: sampled by `draw`.
pub fn sample_pass(state: &mut SourceState, now_ns: u64, draw: u32)
    ensures
        *final(state) == (SourceState {
            trust: sampled_pass(old(state).trust, now_ns, draw),
            ..*old(state)
        }),
{
    if draw % PASS_WEIGHT == 0 {
        trust_passes(state, PASS_WEIGHT, now_ns);
    }
}

/// A packet of the source was dropped: sampled by `draw` where its score is zero.
pub fn sample_drop(state: &mut SourceState, now_ns: u64, draw: u32)
    ensures
        *final(state) == (SourceState {
            trust: sampled_drop(old(state).trust, now_ns, draw),
            ..*old(state)
        }),
{
    if let Some(e) = state.trust {
        if e.trust_score == 0 && draw % DROP_WEIGHT != 0 {
            return ;
        }
    }
    trust_drop(state, now_ns);
}

/// A packet of the source was dropped.
pub fn trust_drop(state: &mut SourceState, now_ns: u64)
    ensures
        *final(state) == (SourceState {
            trust: Some(trust_after_drop(old(state).trust, now_ns)),
            ..*old(state)
        }),
{
    let mut entry: TrustEntry = match state.trust {
        Some(e) => e,
        None => TrustEntry::blank(TRUST_DEFAULT, 0),
    };
    entry.drop_count = entry.drop_count.saturating_add(1);
    entry.trust_score = entry.trust_score - entry.trust_score / TRUST_SUB_DIVISOR;
    entry.last_update_ns = now_ns;
    entry.level = trust_level(entry.trust_score);
    state.trust = Some(entry);
}

/// Thousandths by which a source's reputation scales its threshold: `(500 + score) / 1500`,
/// rounded to the nearest. A source of neutral score has two thirds of the threshold.
pub open spec fn trust_scale(t: Option<TrustEntry>) -> u64 {
    let score: u32 = match t {
        Some(e) => e.trust_score,
        None => 500,
    };
    (((500 + score) * 1000 + 750) / 1500) as u64
}

pub fn trust_factor(state: &SourceState) -> (r: u64)
    ensures
        r == trust_scale(state.trust),
{
    let trust: u64 = match state.trust {
        Some(e) => e.trust_score as u64,
        None => TRUST_DEFAULT as u64,
    };
    ((500 + trust) * 1000 + 750) / 1500
}

/// Thousandths by which the danger level scales every threshold.
pub open spec fn danger_scale(danger_level: u8) -> u64 {
    if danger_level == 2 {
        500
    } else if danger_level == 1 {
        750
    } else {
        1000
    }
}

pub fn danger_factor(danger_level: u8) -> (r: u64)
    ensures
        r == danger_scale(danger_level),
{
    match danger_level {
        2 => 500,
        1 => 750,
        _ => 1000,
    }
}

fn trust_level(score: u32) -> (r: u8)
    ensures
        r == level_of(score),
{
    if score >= 700 {
        1
    } else if score >= 300 {
        2
    } else if score >= 100 {
        3
    } else {
        4
    }
}

/// A score in range stays in range; passing never lowers it and dropping never raises
/// it.
pub proof fn law_score_moves_one_way(score: u32, n: u32)
    requires
        score <= 1000,
    ensures
        score <= score_after_passes(score, n) <= 1000,
        score_after_drop(score) <= score,
        score >= 3 ==> score_after_drop(score) < score,
{
    assert(0 <= n * ((1000 - score) / 100)) by (nonlinear_arith)
        requires
            n >= 0,
            score <= 1000,
    ;
}

/// Whatever the draw, a score in range stays in range; a passed packet never lowers it
/// and a dropped one never raises it.
pub proof fn law_sampling_keeps_direction(e: TrustEntry, now_ns: u64, draw: u32)
    requires
        e.trust_score <= 1000,
    ensures
        sampled_pass(Some(e), now_ns, draw) is Some,
        e.trust_score <= sampled_pass(Some(e), now_ns, draw)->0.trust_score <= 1000,
        sampled_drop(Some(e), now_ns, draw) is Some,
        sampled_drop(Some(e), now_ns, draw)->0.trust_score <= e.trust_score,
{
    law_score_moves_one_way(e.trust_score, PASS_WEIGHT);
}

/// With a score in range the scale lies between a third and one, and a better score
/// never gives a smaller one.
pub proof fn law_trust_scale_is_monotone(a: TrustEntry, b: TrustEntry)
    requires
        a.trust_score <= b.trust_score <= 1000,
    ensures
        333 <= trust_scale(Some(a)) <= trust_scale(Some(b)) <= 1000,
{
}

} // verus!
