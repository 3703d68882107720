//! Checks the rate of a source's ICMP packets; a source over its threshold is blocked.

use crate::common::RateLimitConfig;
use crate::common::RuntimeConfig;
use crate::dataplane::rate_counter::after_limit;
use crate::dataplane::rate_counter::limit_source;
use crate::dataplane::rate_counter::over_limit;
use crate::dataplane::source::SourceState;
use crate::rules;
use vstd::prelude::*;

verus! {

/// The check is switched on.
pub open spec fn on(runtime: Option<RuntimeConfig>) -> bool {
    runtime is Some && runtime->0.icmp_flood_enabled != 0
}

/// Checks the rate of a source's ICMP packets. Returns whether the packet is over the threshold; the
/// source is then blocked.
pub fn handle_icmp_flood(
    state: &mut SourceState,
    cfg: Option<RateLimitConfig>,
    runtime: Option<RuntimeConfig>,
    now_ns: u64,
) -> (r: bool)
    ensures
        r == (on(runtime) && over_limit(*old(state), cfg, runtime, now_ns)),
        *final(state) == (if on(runtime) {
            after_limit(*old(state), cfg, runtime, now_ns, rules::ICMP_FLOOD)
        } else {
            *old(state)
        }),
{
    match runtime {
        Some(c) => {
            if c.icmp_flood_enabled == 0 {
                return false;
            }
        },
        None => {
            return false;
        },
    }
    limit_source(state, cfg, runtime, now_ns, rules::ICMP_FLOOD)
}

} // verus!
