//! Packet rate of a source against its threshold.

use crate::common::RateCounter;
use crate::common::RateLimitConfig;
use crate::common::RuntimeConfig;
use crate::dataplane::source::SourceState;
use crate::dataplane::trust::danger_factor;
use crate::dataplane::trust::danger_scale;
use crate::dataplane::trust::sat_inc64;
use crate::dataplane::trust::trust_factor;
use crate::dataplane::trust::trust_scale;
use crate::pure::decay_counter;
use crate::pure::decayed_over;
use vstd::prelude::*;

verus! {

/// What counting a packet found.
#[derive(Clone, Copy, Debug)]
pub struct RateUpdate {
    pub counter: u64,
    /// The threshold after reputation and danger level.
    pub threshold: u64,
    /// For how long a source over the threshold is blocked.
    pub block_duration_s: u64,
}

/// Milliseconds as nanoseconds, saturating.
pub open spec fn ms_ns(ms: u64) -> u64 {
    if ms * 1_000_000 > u64::MAX {
        u64::MAX
    } else {
        (ms * 1_000_000) as u64
    }
}

pub fn ms_to_ns(ms: u64) -> (r: u64)
    ensures
        r == ms_ns(ms),
{
    if ms > u64::MAX / 1_000_000 {
        u64::MAX
    } else {
        ms * 1_000_000
    }
}

pub open spec fn later_by(now_ns: u64, then_ns: u64) -> u64 {
    if now_ns < then_ns {
        0
    } else {
        (now_ns - then_ns) as u64
    }
}

/// The counter of a source with one more packet.
pub open spec fn counted(r: Option<RateCounter>, cfg: RateLimitConfig, now_ns: u64) -> RateCounter {
    RateCounter {
        counter: match r {
            None => 1,
            Some(e) => sat_inc64(
                decayed_over(
                    e.counter,
                    later_by(now_ns, e.last_decay_ns),
                    ms_ns(cfg.tick_ms),
                    cfg.decay_num,
                    cfg.decay_den,
                ),
            ),
        },
        last_decay_ns: now_ns,
    }
}

/// `base` scaled by `f` thousandths: divided first where the product would not fit.
pub open spec fn scaled(base: u64, f: u64) -> u64 {
    if base > u64::MAX / 1000 {
        (base / 1000).wrapping_mul(f)
    } else {
        base.wrapping_mul(f) / 1000
    }
}

/// The threshold of a source with reputation scale `trust_f` at danger scale `danger_f`.
pub open spec fn modulated(base: u64, trust_f: u64, danger_f: u64) -> u64 {
    scaled(scaled(base, trust_f), danger_f)
}

/// Scales down, and never wraps, for a factor of at most a thousand.
pub proof fn law_scaling_never_raises(base: u64, f: u64)
    requires
        f <= 1000,
    ensures
        scaled(base, f) <= base,
{
    if base > u64::MAX / 1000 {
        assert((base / 1000) * f <= (base / 1000) * 1000) by (nonlinear_arith)
            requires
                f <= 1000,
        ;
    } else {
        assert(0 <= base * f <= base * 1000) by (nonlinear_arith)
            requires
                f <= 1000,
        ;
    }
}

/// The threshold in force for a source.
pub open spec fn threshold_for(
    state: SourceState,
    cfg: RateLimitConfig,
    runtime: RuntimeConfig,
) -> u64 {
    if runtime.trust_enabled != 0 {
        modulated(cfg.threshold, trust_scale(state.trust), danger_scale(runtime.danger_level))
    } else {
        cfg.threshold
    }
}

/// A packet is counted only with rate parameters whose tick is not zero.
pub open spec fn counts(cfg: Option<RateLimitConfig>) -> bool {
    cfg is Some && ms_ns(cfg->0.tick_ms) != 0
}

pub open spec fn after_count(
    state: SourceState,
    cfg: Option<RateLimitConfig>,
    now_ns: u64,
) -> SourceState {
    if counts(cfg) {
        SourceState { rate: Some(counted(state.rate, cfg->0, now_ns)), ..state }
    } else {
        state
    }
}

/// The update that counting a packet gives; none without parameters or switches.
pub open spec fn update_of(
    state: SourceState,
    cfg: Option<RateLimitConfig>,
    runtime: Option<RuntimeConfig>,
    now_ns: u64,
) -> Option<RateUpdate> {
    if counts(cfg) && runtime is Some {
        Some(
            RateUpdate {
                counter: counted(state.rate, cfg->0, now_ns).counter,
                threshold: threshold_for(state, cfg->0, runtime->0),
                block_duration_s: cfg->0.block_duration_s,
            },
        )
    } else {
        None
    }
}

/// Counts a packet of the source and reports counter and threshold in `out`. Returns
/// whether it did.
pub fn update_rate_counter(
    state: &mut SourceState,
    cfg: Option<RateLimitConfig>,
    runtime: Option<RuntimeConfig>,
    now_ns: u64,
    out: &mut RateUpdate,
) -> (r: bool)
    ensures
        *final(state) == after_count(*old(state), cfg, now_ns),
        r == update_of(*old(state), cfg, runtime, now_ns).is_some(),
        *final(out) == (match update_of(*old(state), cfg, runtime, now_ns) {
            Some(u) => u,
            None => *old(out),
        }),
{
    let cfg: RateLimitConfig = match cfg {
        Some(c) => c,
        None => {
            return false;
        },
    };
    let tick_ns: u64 = ms_to_ns(cfg.tick_ms);
    if tick_ns == 0 {
        return false;
    }
    let mut counter: u64 = 1;
    if let Some(entry) = state.rate {
        let elapsed_ns: u64 = now_ns.saturating_sub(entry.last_decay_ns);
        let decayed: u64 = decay_counter(
            entry.counter,
            elapsed_ns,
            tick_ns,
            cfg.decay_num,
            cfg.decay_den,
        );
        counter = decayed.saturating_add(1);
    }
    state.rate = Some(RateCounter { counter, last_decay_ns: now_ns });
    let runtime: RuntimeConfig = match runtime {
        Some(r) => r,
        None => {
            return false;
        },
    };
    let threshold: u64 = if runtime.trust_enabled != 0 {
        modulate_threshold(cfg.threshold, trust_factor(state), danger_factor(runtime.danger_level))
    } else {
        cfg.threshold
    };
    out.counter = counter;
    out.threshold = threshold;
    out.block_duration_s = cfg.block_duration_s;
    true
}

fn modulate_threshold(base: u64, trust_f: u64, danger_f: u64) -> (r: u64)
    ensures
        r == modulated(base, trust_f, danger_f),
{
    let safe_max: u64 = u64::MAX / 1000;
    let step: u64 = if base > safe_max {
        (base / 1000).wrapping_mul(trust_f)
    } else {
        base.wrapping_mul(trust_f) / 1000
    };
    if step > safe_max {
        (step / 1000).wrapping_mul(danger_f)
    } else {
        step.wrapping_mul(danger_f) / 1000
    }
}

/// A source whose reputation is in range never gets a threshold above the configured one.
pub proof fn law_threshold_never_raised(
    state: SourceState,
    cfg: RateLimitConfig,
    runtime: RuntimeConfig,
)
    requires
        state.trust is Some ==> state.trust->0.trust_score <= 1000,
    ensures
        threshold_for(state, cfg, runtime) <= cfg.threshold,
{
    law_scaling_never_raises(cfg.threshold, trust_scale(state.trust));
    law_scaling_never_raises(
        scaled(cfg.threshold, trust_scale(state.trust)),
        danger_scale(runtime.danger_level),
    );
}

/// The packet that was counted took the source over its threshold.
pub open spec fn over_limit(
    state: SourceState,
    cfg: Option<RateLimitConfig>,
    runtime: Option<RuntimeConfig>,
    now_ns: u64,
) -> bool {
    match update_of(state, cfg, runtime, now_ns) {
        Some(u) => u.counter > u.threshold,
        None => false,
    }
}

/// The source after a packet was counted and, over the threshold, the source blocked.
pub open spec fn after_limit(
    state: SourceState,
    cfg: Option<RateLimitConfig>,
    runtime: Option<RuntimeConfig>,
    now_ns: u64,
    rule: u16,
) -> SourceState {
    let s: SourceState = after_count(state, cfg, now_ns);
    if over_limit(state, cfg, runtime, now_ns) {
        crate::dataplane::blacklist::after_blocking(s, now_ns, cfg->0.block_duration_s, rule as u8)
    } else {
        s
    }
}

/// Counts a packet and blocks the source where that takes it over its threshold.
pub fn limit_source(
    state: &mut SourceState,
    cfg: Option<RateLimitConfig>,
    runtime: Option<RuntimeConfig>,
    now_ns: u64,
    rule: u16,
) -> (r: bool)
    ensures
        r == over_limit(*old(state), cfg, runtime, now_ns),
        *final(state) == after_limit(*old(state), cfg, runtime, now_ns, rule),
{
    let mut update: RateUpdate = RateUpdate { counter: 0, threshold: 0, block_duration_s: 0 };
    if !update_rate_counter(state, cfg, runtime, now_ns, &mut update) {
        return false;
    }
    if update.counter > update.threshold {
        crate::dataplane::blacklist::add_to_blacklist(
            state,
            now_ns,
            update.block_duration_s,
            rule as u8,
        );
        return true;
    }
    false
}

} // verus!
