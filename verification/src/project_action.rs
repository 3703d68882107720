//! Actions of a protection-project policy.

use vstd::prelude::*;

verus! {

pub const NONE: u8 = 0;
pub const PASS: u8 = 1;
pub const DROP: u8 = 2;
pub const DEFEND: u8 = 3;

} // verus!
