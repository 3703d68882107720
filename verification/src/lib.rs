//! Host-level L3/L4 network protection: the decisions of the packet path, of the
//! node's control plane and of the policy hub, as verified functions on plain values.
//!
//! Nothing here touches the network, the disk or the clock. A caller reads the
//! outside world, hands plain values in, and carries out what comes back.

pub mod address_laws;
pub mod bytes;
pub mod common;
pub mod dataplane;
pub mod feed;
pub mod feed_laws;
pub mod hash_laws;
pub mod hub;
pub mod ip;
pub mod ip_format;
pub mod key_table;
pub mod maps;
pub mod network;
pub mod node;
pub mod outside;
pub mod prefix;
pub mod project_action;
pub mod project_modules;
pub mod pure;
pub mod rank;
pub mod rules;
pub mod sharing;
pub mod text;
