//! What the rate limits promise of a source's packets, from the times at which they come.

use crate::common::RateCounter;
use crate::common::RateLimitConfig;
use crate::common::RuntimeConfig;
use crate::dataplane::rate_counter::after_count;
use crate::dataplane::rate_counter::after_limit;
use crate::dataplane::rate_counter::law_threshold_never_raised;
use crate::dataplane::rate_counter::over_limit;
use crate::dataplane::rate_counter::scaled;
use crate::dataplane::rate_counter::threshold_for;
use crate::dataplane::source::SourceState;
use crate::pure::decay_ticks;
use crate::pure::decayed;
use vstd::arithmetic::div_mod::lemma_fundamental_div_mod_converse;
use vstd::prelude::*;

verus! {

/// Less than a tick has passed since the last packet of the source, and less than the
/// longest time that can be measured.
pub open spec fn within_tick(r: RateCounter, cfg: RateLimitConfig, now_ns: u64) -> bool {
    now_ns - r.last_decay_ns < cfg.tick_ms * 1_000_000 && now_ns - r.last_decay_ns < u64::MAX
}

/// One more, as far as it can be counted.
pub open spec fn one_more(n: u64) -> int {
    if n < u64::MAX {
        n + 1
    } else {
        u64::MAX as int
    }
}

/// Packets within one tick of each other all count: where less than a tick has passed since
/// the last packet of a source, its counter is one higher, and the packet is over the limit
/// where that is above the threshold. The first packet of a source counts one.
pub proof fn law_packets_within_a_tick_all_count(
    state: SourceState,
    cfg: RateLimitConfig,
    rt: RuntimeConfig,
    now_ns: u64,
)
    requires
        cfg.tick_ms > 0,
    ensures
        ({
            let next: SourceState = after_count(state, Some(cfg), now_ns);
            let over: bool = over_limit(state, Some(cfg), Some(rt), now_ns);
            let limit: u64 = threshold_for(state, cfg, rt);
            &&& next.rate is Some && next.rate->0.last_decay_ns == now_ns
            &&& next == (SourceState { rate: next.rate, ..state })
            &&& state.rate is None ==> next.rate->0.counter == 1 && over == (1 > limit)
            &&& state.rate is Some && within_tick(state.rate->0, cfg, now_ns)
                ==> next.rate->0.counter == one_more(state.rate->0.counter) && over == (one_more(
                state.rate->0.counter,
            ) > limit)
        }),
{
    if state.rate is Some && within_tick(state.rate->0, cfg, now_ns) {
        let r: RateCounter = state.rate->0;
        let e: u64 = crate::dataplane::rate_counter::later_by(now_ns, r.last_decay_ns);
        let tick: u64 = crate::dataplane::rate_counter::ms_ns(cfg.tick_ms);
        assert(e < tick);
        assert(e / tick == 0) by (nonlinear_arith)
            requires
                e < tick,
        ;
        assert(decay_ticks(e, tick) == 0);
    }
}

/// The source after packets at these times.
pub open spec fn after_packets(
    state: SourceState,
    cfg: RateLimitConfig,
    times: Seq<u64>,
) -> SourceState
    decreases times.len(),
{
    if times.len() == 0 {
        state
    } else {
        after_count(after_packets(state, cfg, times.drop_last()), Some(cfg), times.last())
    }
}

/// Each packet comes within a tick of the one before.
pub open spec fn is_burst(cfg: RateLimitConfig, times: Seq<u64>) -> bool {
    forall|i: int|
        0 < i < times.len() ==> #[trigger] times[i] - times[i - 1] < cfg.tick_ms * 1_000_000
            && times[i] - times[i - 1] < u64::MAX
}

/// A burst is counted packet by packet: after it the counter is at least the number of its
/// packets, and from a source that was never seen exactly that number.
pub proof fn law_burst_is_counted(state: SourceState, cfg: RateLimitConfig, times: Seq<u64>)
    requires
        cfg.tick_ms > 0,
        is_burst(cfg, times),
        0 < times.len() < u64::MAX,
    ensures
        ({
            let r: Option<RateCounter> = after_packets(state, cfg, times).rate;
            &&& r is Some
            &&& r->0.last_decay_ns == times.last()
            &&& r->0.counter >= times.len()
            &&& state.rate is None ==> r->0.counter == times.len()
            &&& after_packets(state, cfg, times) == (SourceState { rate: r, ..state })
        }),
    decreases times.len(),
{
    let front: Seq<u64> = times.drop_last();
    let before: SourceState = after_packets(state, cfg, front);
    let any: RuntimeConfig = arbitrary();
    if front.len() > 0 {
        assert(is_burst(cfg, front)) by {
            assert forall|i: int| 0 < i < front.len() implies #[trigger] front[i] - front[i - 1]
                < cfg.tick_ms * 1_000_000 && front[i] - front[i - 1] < u64::MAX by {
                assert(front[i] == times[i] && front[i - 1] == times[i - 1]);
            }
        }
        law_burst_is_counted(state, cfg, front);
        assert(times[times.len() - 1] - times[times.len() - 2] < cfg.tick_ms * 1_000_000);
        assert(front.last() == times[times.len() - 2]);
    }
    law_packets_within_a_tick_all_count(before, cfg, any, times.last());
}

/// A source that sends more packets than its threshold, each within a tick of the one
/// before, is over its limit with the last of them, and is blocked for the configured
/// time.
pub proof fn law_burst_over_threshold_is_blocked(
    state: SourceState,
    cfg: RateLimitConfig,
    rt: RuntimeConfig,
    times: Seq<u64>,
    rule: u16,
)
    requires
        cfg.tick_ms > 0,
        is_burst(cfg, times),
        cfg.threshold < times.len() < u64::MAX,
        state.trust is Some ==> state.trust->0.trust_score <= 1000,
        cfg.block_duration_s > 0,
        times.last() + cfg.block_duration_s * 1_000_000_000 <= u64::MAX,
        rule <= 255,
    ensures
        ({
            let before: SourceState = after_packets(state, cfg, times.drop_last());
            let s: SourceState = after_limit(before, Some(cfg), Some(rt), times.last(), rule);
            &&& over_limit(before, Some(cfg), Some(rt), times.last())
            &&& s.block is Some
            &&& s.block->0.blocked_until_ns == times.last() + cfg.block_duration_s * 1_000_000_000
            &&& s.block->0.block_reason == rule
        }),
{
    let front: Seq<u64> = times.drop_last();
    let before: SourceState = after_packets(state, cfg, front);
    law_burst_is_counted(state, cfg, times);
    if front.len() > 0 {
        assert(is_burst(cfg, front)) by {
            assert forall|i: int| 0 < i < front.len() implies #[trigger] front[i] - front[i - 1]
                < cfg.tick_ms * 1_000_000 && front[i] - front[i - 1] < u64::MAX by {
                assert(front[i] == times[i] && front[i - 1] == times[i - 1]);
            }
        }
        law_burst_is_counted(state, cfg, front);
    }
    assert(before.trust == state.trust);
    law_threshold_never_raised(before, cfg, rt);
}

/// A source that stays at or below its threshold in a burst is not over its limit and not
/// blocked. Without reputation its threshold is the configured one.
pub proof fn law_burst_below_threshold_passes(
    state: SourceState,
    cfg: RateLimitConfig,
    rt: RuntimeConfig,
    times: Seq<u64>,
    rule: u16,
)
    requires
        cfg.tick_ms > 0,
        is_burst(cfg, times),
        0 < times.len() <= cfg.threshold,
        times.len() < u64::MAX,
        state.rate is None,
        rt.trust_enabled == 0,
    ensures
        ({
            let before: SourceState = after_packets(state, cfg, times.drop_last());
            let s: SourceState = after_limit(before, Some(cfg), Some(rt), times.last(), rule);
            &&& !over_limit(before, Some(cfg), Some(rt), times.last())
            &&& s.block == state.block
            &&& s.rate is Some && s.rate->0.counter == times.len()
        }),
{
    let front: Seq<u64> = times.drop_last();
    law_burst_is_counted(state, cfg, times);
    if front.len() > 0 {
        assert(is_burst(cfg, front)) by {
            assert forall|i: int| 0 < i < front.len() implies #[trigger] front[i] - front[i - 1]
                < cfg.tick_ms * 1_000_000 && front[i] - front[i - 1] < u64::MAX by {
                assert(front[i] == times[i] && front[i - 1] == times[i - 1]);
            }
        }
        law_burst_is_counted(state, cfg, front);
    }
}

/// A tick without packets takes a counter down by the factor once, and ticks add up.
pub proof fn law_ticks_add_up(counter: u64, a: nat, b: nat, num: u64, den: u64)
    requires
        den > 0,
    ensures
        decayed(counter, 0, num, den) == counter,
        counter * num <= u64::MAX ==> decayed(counter, 1, num, den) == counter * num / den as int,
        decayed(counter, a + b, num, den) == decayed(decayed(counter, a, num, den), b, num, den),
    decreases b,
{
    reveal_with_fuel(decayed, 2);
    assert(0 <= counter * num) by (nonlinear_arith);
    if b > 0 {
        law_ticks_add_up(counter, a, (b - 1) as nat, num, den);
        assert(decayed(counter, a + b, num, den) == decayed(
            counter,
            (a + b - 1) as nat,
            num,
            den,
        ).wrapping_mul(num) / den);
        assert((a + b - 1) as nat == a + (b - 1) as nat);
    }
}

/// A source that was silent for some ticks, fewer than sixty-four, and then sends a packet
/// has its counter taken down as often, and one more for the packet.
pub proof fn law_silence_decays(
    state: SourceState,
    cfg: RateLimitConfig,
    now_ns: u64,
    ticks: nat,
    rest: nat,
)
    requires
        state.rate is Some,
        0 < cfg.tick_ms,
        cfg.tick_ms * 1_000_000 <= u64::MAX,
        cfg.decay_den > 0,
        ticks < 64,
        rest < cfg.tick_ms * 1_000_000,
        now_ns == state.rate->0.last_decay_ns + ticks * (cfg.tick_ms * 1_000_000) + rest,
    ensures
        after_count(state, Some(cfg), now_ns).rate->0.counter == one_more(
            decayed(state.rate->0.counter, ticks, cfg.decay_num, cfg.decay_den),
        ),
{
    let r: RateCounter = state.rate->0;
    let e: u64 = crate::dataplane::rate_counter::later_by(now_ns, r.last_decay_ns);
    let tick: u64 = crate::dataplane::rate_counter::ms_ns(cfg.tick_ms);
    assert(tick == cfg.tick_ms * 1_000_000);
    assert(0 <= ticks * tick) by (nonlinear_arith);
    assert(e == ticks * tick + rest);
    lemma_fundamental_div_mod_converse(e as int, tick as int, ticks as int, rest as int);
    assert(decay_ticks(e, tick) == ticks);
}

/// Without reputation the threshold is the configured one; with it, a neutral source has
/// two thirds and a fully trusted one all of it, and danger takes a quarter or a half off.
pub proof fn law_threshold_follows_trust_and_danger(
    state: SourceState,
    cfg: RateLimitConfig,
    rt: RuntimeConfig,
)
    requires
        cfg.threshold <= 1_000_000_000_000,
    ensures
        ({
            let limit: u64 = threshold_for(state, cfg, rt);
            let full: u64 = cfg.threshold;
            &&& rt.trust_enabled == 0 ==> limit == full
            &&& rt.trust_enabled != 0 && state.trust is Some && state.trust->0.trust_score == 1000
                ==> {
                &&& rt.danger_level == 0 ==> limit == full
                &&& rt.danger_level == 1 ==> limit == full * 750 / 1000
                &&& rt.danger_level == 2 ==> limit == full * 500 / 1000
            }
            &&& rt.trust_enabled != 0 && rt.danger_level == 0 && (state.trust is None
                || state.trust->0.trust_score == 500) ==> limit == full * 667 / 1000
            &&& rt.trust_enabled != 0 && rt.danger_level == 0 && state.trust is Some
                && state.trust->0.trust_score == 0 ==> limit == full * 333 / 1000
        }),
{
    let full: u64 = cfg.threshold;
    lemma_thousandths(full, 1000);
    lemma_thousandths(full, 667);
    lemma_thousandths(full, 333);
    lemma_thousandths(full, 750);
    lemma_thousandths(full, 500);
    lemma_thousandths((full * 667 / 1000) as u64, 1000);
    lemma_thousandths((full * 333 / 1000) as u64, 1000);
}

proof fn lemma_thousandths(base: u64, f: u64)
    requires
        base <= 1_000_000_000_000,
        f <= 1000,
    ensures
        scaled(base, f) == base * f / 1000,
{
    assert(0 <= base * f <= 1_000_000_000_000 * 1000) by (nonlinear_arith)
        requires
            base <= 1_000_000_000_000,
            f <= 1000,
    ;
}

} // verus!
