//! What becomes of a packet.

use vstd::prelude::*;

verus! {

pub const XDP_ABORTED: u32 = 0;
pub const XDP_DROP: u32 = 1;
pub const XDP_PASS: u32 = 2;
/// Sent back out of the interface it came from.
pub const XDP_TX: u32 = 3;
/// A check came to no decision and the next one is asked.
pub const NO_ACTION: u32 = 0xffff_ffff;

} // verus!
