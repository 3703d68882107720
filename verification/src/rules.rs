//! Identifiers of the rules that drop or block traffic.

use vstd::prelude::*;

verus! {

pub const UNKNOWN: u16 = 0;
pub const BLACKLIST: u16 = 1;
pub const RATE_LIMIT: u16 = 2;
pub const SYN_FLOOD: u16 = 3;
pub const L7_PATTERN: u16 = 4;
pub const ADAPTIVE: u16 = 5;
pub const API_BLOCK: u16 = 6;
pub const PORT_ACL: u16 = 7;
pub const UDP_FLOOD: u16 = 8;
pub const ICMP_FLOOD: u16 = 9;
pub const GEOIP: u16 = 10;
pub const THREAT_INTEL: u16 = 11;
pub const PROJECT_POLICY: u16 = 12;
pub const WAF: u16 = 13;
pub const CHALLENGE: u16 = 14;
pub const CONN_TRACK: u16 = 15;

} // verus!
