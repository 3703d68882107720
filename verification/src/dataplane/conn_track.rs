//! Half-open connections of a source.
//!
//! Only SYN, ACK and RST packets touch the record of a source. A SYN opens one
//! connection, an ACK or RST closes one; a window without either forgets them all; a
//! count of zero leaves no record.

use crate::common::ConnTrackEntry;
use crate::dataplane::parser::is_ack_or_rst_flags;
use crate::dataplane::parser::is_ack_or_rst;
use crate::dataplane::parser::is_syn;
use crate::dataplane::parser::is_syn_flags;
use crate::dataplane::rate_counter::later_by;
use crate::dataplane::rate_counter::ms_ns;
use crate::dataplane::rate_counter::ms_to_ns;
use crate::dataplane::trust::sat_inc32;
use vstd::prelude::*;

verus! {

/// How many half-open connections a source may have, and how long they are remembered.
#[derive(Clone, Copy, Debug, PartialEq, Eq, Structural)]
pub struct ConnTrackLimits {
    pub threshold: u32,
    pub window_ms: u64,
}

/// What a packet does to a source's half-open connections.
#[derive(Clone, Copy, Debug, PartialEq, Eq, Structural)]
pub struct ConnTrackStep {
    pub half_open: u32,
    pub last_seen_ns: u64,
    pub drop: bool,
}

/// The connections that are still half-open at `now_ns`.
pub open spec fn still_open(half_open: u32, last_seen_ns: u64, now_ns: u64, window_ns: u64) -> u32 {
    if later_by(now_ns, last_seen_ns) >= window_ns {
        0
    } else {
        half_open
    }
}

pub open spec fn step_of(
    half_open: u32,
    last_seen_ns: u64,
    now_ns: u64,
    syn: bool,
    ack_or_rst: bool,
    threshold: u32,
    window_ns: u64,
) -> ConnTrackStep {
    let base: u32 = still_open(half_open, last_seen_ns, now_ns, window_ns);
    let count: u32 = if syn {
        sat_inc32(base)
    } else if ack_or_rst && base > 0 {
        (base - 1) as u32
    } else {
        base
    };
    ConnTrackStep { half_open: count, last_seen_ns: now_ns, drop: count > threshold }
}

pub fn conn_track_step(
    half_open: u32,
    last_seen_ns: u64,
    now_ns: u64,
    syn: bool,
    ack_or_rst: bool,
    threshold: u32,
    window_ns: u64,
) -> (r: ConnTrackStep)
    ensures
        r == step_of(half_open, last_seen_ns, now_ns, syn, ack_or_rst, threshold, window_ns),
{
    let base: u32 = if now_ns.saturating_sub(last_seen_ns) >= window_ns {
        0
    } else {
        half_open
    };
    let count: u32 = if syn {
        base.saturating_add(1)
    } else if ack_or_rst && base > 0 {
        base - 1
    } else {
        base
    };
    ConnTrackStep { half_open: count, last_seen_ns: now_ns, drop: count > threshold }
}

/// The step of a packet with these TCP flags against the record of its source.
pub open spec fn track_step(
    entry: Option<ConnTrackEntry>,
    tcp_flags: u8,
    now_ns: u64,
    threshold: u32,
    window_ms: u64,
) -> ConnTrackStep {
    let e: ConnTrackEntry = match entry {
        Some(e) => e,
        None => ConnTrackEntry { last_seen_ns: 0, half_open: 0 },
    };
    step_of(
        e.half_open,
        e.last_seen_ns,
        now_ns,
        is_syn(tcp_flags),
        is_ack_or_rst(tcp_flags),
        threshold,
        ms_ns(window_ms),
    )
}

/// The packet's flags touch the record of its source.
pub open spec fn touches(tcp_flags: u8) -> bool {
    is_syn(tcp_flags) || is_ack_or_rst(tcp_flags)
}

/// The record of a source after a packet with these flags.
pub open spec fn entry_after(
    entry: Option<ConnTrackEntry>,
    tcp_flags: u8,
    now_ns: u64,
    threshold: u32,
    window_ms: u64,
) -> Option<ConnTrackEntry> {
    let step: ConnTrackStep = track_step(entry, tcp_flags, now_ns, threshold, window_ms);
    if !touches(tcp_flags) {
        entry
    } else if step.half_open == 0 {
        None
    } else {
        Some(ConnTrackEntry { last_seen_ns: step.last_seen_ns, half_open: step.half_open })
    }
}

/// Updates the record of a source and returns whether the packet is dropped.
pub fn check_conn_track(
    entry: &mut Option<ConnTrackEntry>,
    tcp_flags: u8,
    now_ns: u64,
    threshold: u32,
    window_ms: u64,
) -> (r: bool)
    ensures
        r == (touches(tcp_flags) && track_step(
            *old(entry),
            tcp_flags,
            now_ns,
            threshold,
            window_ms,
        ).drop),
        *final(entry) == entry_after(*old(entry), tcp_flags, now_ns, threshold, window_ms),
{
    let syn: bool = is_syn_flags(tcp_flags);
    let ack_or_rst: bool = is_ack_or_rst_flags(tcp_flags);
    if !syn && !ack_or_rst {
        return false;
    }
    let window_ns: u64 = ms_to_ns(window_ms);
    let known: ConnTrackEntry = match *entry {
        Some(e) => e,
        None => ConnTrackEntry { last_seen_ns: 0, half_open: 0 },
    };
    let step: ConnTrackStep = conn_track_step(
        known.half_open,
        known.last_seen_ns,
        now_ns,
        syn,
        ack_or_rst,
        threshold,
        window_ns,
    );
    if step.half_open == 0 {
        *entry = None;
    } else {
        *entry = Some(
            ConnTrackEntry { last_seen_ns: step.last_seen_ns, half_open: step.half_open },
        );
    }
    step.drop
}

/// Within a window, a SYN followed by its ACK leaves the count where it was.
pub proof fn law_handshake_closes(half_open: u32, t0: u64, t1: u64, t2: u64, limit: u32, window_ns: u64)
    requires
        t0 <= t1 <= t2,
        t1 - t0 < window_ns,
        t2 - t1 < window_ns,
        half_open < u32::MAX,
    ensures
        ({
            let a: ConnTrackStep = step_of(half_open, t0, t1, true, false, limit, window_ns);
            step_of(a.half_open, a.last_seen_ns, t2, false, true, limit, window_ns).half_open
                == half_open
        }),
{
}

} // verus!
