//! Bits of a protection-project policy's module set.

use vstd::prelude::*;

verus! {

pub const NONE: u16 = 0;
pub const SYN_FLOOD: u16 = 1;
pub const UDP_FLOOD: u16 = 2;
pub const ICMP_FLOOD: u16 = 4;
pub const RATE_LIMIT: u16 = 8;
pub const ADAPTIVE: u16 = 16;
pub const L7_SCAN: u16 = 32;
pub const GEOIP: u16 = 64;
pub const TCP_RESET: u16 = 128;
pub const PORT_ACL: u16 = 256;

} // verus!
