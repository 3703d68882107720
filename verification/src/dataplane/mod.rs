//! The packet path.
//!
//! A packet is its octets; what the path remembers of a source is a plain record; the
//! tables filled by the control plane are plain lists. The clock, the random number and
//! the answer of the driver to a resize are arguments.

pub mod blacklist;
pub mod challenge;
pub mod check_laws;
pub mod conn_track;
pub mod cookie_laws;
pub mod drop_laws;
pub mod engine;
pub mod icmp_flood;
pub mod l7_scan;
pub mod laws;
pub mod parser;
pub mod path_laws;
pub mod pipeline;
pub mod port_acl;
pub mod port_rate;
pub mod rate_counter;
pub mod rate_laws;
pub mod rate_limit;
pub mod rewrite;
pub mod source;
pub mod syn_cookie;
pub mod syn_flood;
pub mod tcp_reset;
pub mod trust;
pub mod udp_flood;
pub mod waf;
pub mod xdp;
