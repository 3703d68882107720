//! Rate of a source's connection requests; a source over its threshold is blocked.

use crate::common::RateLimitConfig;
use crate::common::RuntimeConfig;
use crate::dataplane::rate_counter::after_limit;
use crate::dataplane::rate_counter::limit_source;
use crate::dataplane::rate_counter::over_limit;
use crate::dataplane::source::SourceState;
use crate::rules;
use vstd::prelude::*;

verus! {

pub const TCP_FLAG_SYN: u8 = 0x02;

/// Counts a packet whose only TCP flag is SYN. Returns whether it is over the threshold;
/// the source is then blocked.
pub fn handle_syn_flood(
    state: &mut SourceState,
    tcp_flags: u8,
    cfg: Option<RateLimitConfig>,
    runtime: Option<RuntimeConfig>,
    now_ns: u64,
) -> (r: bool)
    ensures
        r == (tcp_flags == TCP_FLAG_SYN && over_limit(*old(state), cfg, runtime, now_ns)),
        *final(state) == (if tcp_flags == TCP_FLAG_SYN {
            after_limit(*old(state), cfg, runtime, now_ns, rules::SYN_FLOOD)
        } else {
            *old(state)
        }),
{
    if tcp_flags != TCP_FLAG_SYN {
        return false;
    }
    limit_source(state, cfg, runtime, now_ns, rules::SYN_FLOOD)
}

} // verus!
