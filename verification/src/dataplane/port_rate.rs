//! Rate of a destination port, whoever sends.
//!
//! Packets are counted in fixed windows, so that traffic below the threshold passes
//! again as soon as the next window starts.

use crate::common::PortRateKey;
use crate::common::RateCounter;
use crate::common::RateLimitConfig;
use crate::dataplane::rate_counter::later_by;
use crate::dataplane::rate_counter::ms_ns;
use crate::dataplane::rate_counter::ms_to_ns;
use crate::dataplane::trust::sat_inc64;
use vstd::prelude::*;

verus! {

/// The window of a port with one more packet: the running window where it is still open,
/// else a new one.
pub open spec fn window_after(w: Option<RateCounter>, window_ns: u64, now_ns: u64) -> RateCounter {
    if w is Some && later_by(now_ns, w->0.last_decay_ns) < window_ns {
        RateCounter { counter: sat_inc64(w->0.counter), last_decay_ns: w->0.last_decay_ns }
    } else {
        RateCounter { counter: 1, last_decay_ns: now_ns }
    }
}

/// Ports are counted: there are parameters and their window is not zero.
pub open spec fn limited(cfg: Option<RateLimitConfig>) -> bool {
    cfg is Some && cfg->0.tick_ms != 0
}

/// The window of a port after a packet.
pub open spec fn port_after(
    w: Option<RateCounter>,
    cfg: Option<RateLimitConfig>,
    now_ns: u64,
) -> Option<RateCounter> {
    if limited(cfg) {
        Some(window_after(w, ms_ns(cfg->0.tick_ms), now_ns))
    } else {
        w
    }
}

/// The packet takes its port over the threshold.
pub open spec fn port_over(
    w: Option<RateCounter>,
    cfg: Option<RateLimitConfig>,
    now_ns: u64,
) -> bool {
    limited(cfg) && window_after(w, ms_ns(cfg->0.tick_ms), now_ns).counter > cfg->0.threshold
}

/// Counts a packet to a port and returns whether the port is over its threshold.
pub fn check_port_rate(
    window: &mut Option<RateCounter>,
    cfg: Option<RateLimitConfig>,
    now_ns: u64,
) -> (r: bool)
    ensures
        *final(window) == port_after(*old(window), cfg, now_ns),
        r == port_over(*old(window), cfg, now_ns),
{
    let cfg: RateLimitConfig = match cfg {
        Some(c) => c,
        None => {
            return false;
        },
    };
    let window_ns: u64 = ms_to_ns(cfg.tick_ms);
    if window_ns == 0 {
        return false;
    }
    let mut count: u64 = 1;
    let mut window_start: u64 = now_ns;
    if let Some(entry) = *window {
        if now_ns.saturating_sub(entry.last_decay_ns) < window_ns {
            count = entry.counter.saturating_add(1);
            window_start = entry.last_decay_ns;
        }
    }
    *window = Some(RateCounter { counter: count, last_decay_ns: window_start });
    count > cfg.threshold
}

/// A port that was over its threshold passes again with the first packet of the next
/// window, whatever the threshold, if it is at least one.
pub proof fn law_next_window_starts_anew(w: RateCounter, window_ns: u64, now_ns: u64)
    requires
        now_ns >= w.last_decay_ns + window_ns,
    ensures
        window_after(Some(w), window_ns, now_ns).counter == 1,
{
}

/// The window in the first entry of `key`.
pub open spec fn window_in(entries: Seq<(PortRateKey, RateCounter)>, key: PortRateKey) -> Option<
    RateCounter,
>
    decreases entries.len(),
{
    if entries.len() == 0 {
        None
    } else if entries[0].0 == key {
        Some(entries[0].1)
    } else {
        window_in(entries.skip(1), key)
    }
}

proof fn lemma_window_at(entries: Seq<(PortRateKey, RateCounter)>, key: PortRateKey, i: int)
    requires
        0 <= i < entries.len(),
        entries[i].0 == key,
        forall|j: int| 0 <= j < i ==> entries[j].0 != key,
    ensures
        window_in(entries, key) == Some(entries[i].1),
    decreases i,
{
    if i > 0 {
        assert(entries.skip(1)[i - 1] == entries[i]);
        lemma_window_at(entries.skip(1), key, i - 1);
    }
}

proof fn lemma_window_absent(entries: Seq<(PortRateKey, RateCounter)>, key: PortRateKey)
    requires
        forall|j: int| 0 <= j < entries.len() ==> entries[j].0 != key,
    ensures
        window_in(entries, key) is None,
    decreases entries.len(),
{
    if entries.len() > 0 {
        lemma_window_absent(entries.skip(1), key);
    }
}

proof fn lemma_window_other(
    a: Seq<(PortRateKey, RateCounter)>,
    b: Seq<(PortRateKey, RateCounter)>,
    key: PortRateKey,
    i: int,
)
    requires
        0 <= i < b.len(),
        b[i].0 != key,
        a.len() == b.len() ==> a[i].0 != key && b == a.update(i, b[i]),
        a.len() != b.len() ==> i == a.len() && b == a.push(b[i]),
    ensures
        window_in(b, key) == window_in(a, key),
    decreases b.len(),
{
    if i > 0 {
        assert(b[0] == a[0]);
        assert(b.skip(1)[i - 1] == b[i]);
        if a.len() == b.len() {
            assert(b.skip(1) == a.skip(1).update(i - 1, b[i]));
        } else {
            assert(b.skip(1) == a.skip(1).push(b[i]));
        }
        lemma_window_other(a.skip(1), b.skip(1), key, i - 1);
    } else if a.len() == b.len() {
        assert(b.skip(1) == a.skip(1));
    } else {
        assert(window_in(b.skip(1), key) is None);
    }
}

/// The windows of all protocols and destination ports.
pub struct PortTable {
    pub entries: Vec<(PortRateKey, RateCounter)>,
}

impl PortTable {
    /// The window of `key`.
    pub open spec fn window(&self, key: PortRateKey) -> Option<RateCounter> {
        window_in(self.entries@, key)
    }

    pub fn new() -> (r: Self)
        ensures
            forall|k: PortRateKey| r.window(k) is None,
    {
        PortTable { entries: Vec::new() }
    }

    fn find(&self, key: &PortRateKey) -> (r: Option<usize>)
        ensures
            match r {
                Some(i) => i < self.entries@.len() && self.entries@[i as int].0 == *key && forall|
                    j: int,
                |
                    0 <= j < i ==> self.entries@[j].0 != *key,
                None => forall|j: int| 0 <= j < self.entries@.len() ==> self.entries@[j].0 != *key,
            },
    {
        for i in 0..self.entries.len()
            invariant
                forall|j: int| 0 <= j < i ==> self.entries@[j].0 != *key,
        {
            if self.entries[i].0 == *key {
                return Some(i);
            }
        }
        None
    }

    pub fn get(&self, key: &PortRateKey) -> (r: Option<RateCounter>)
        ensures
            r == self.window(*key),
    {
        match self.find(key) {
            Some(i) => {
                proof {
                    lemma_window_at(self.entries@, *key, i as int);
                }
                Some(self.entries[i].1)
            },
            None => {
                proof {
                    lemma_window_absent(self.entries@, *key);
                }
                None
            },
        }
    }

    /// Sets the window of `key`; nothing else changes.
    pub fn put(&mut self, key: &PortRateKey, window: RateCounter)
        ensures
            final(self).window(*key) == Some(window),
            forall|k: PortRateKey| k != *key ==> final(self).window(k) == old(self).window(k),
    {
        let ghost before = self.entries@;
        let at: usize = match self.find(key) {
            Some(i) => {
                self.entries.set(i, (*key, window));
                i
            },
            None => {
                self.entries.push((*key, window));
                self.entries.len() - 1
            },
        };
        proof {
            lemma_window_at(self.entries@, *key, at as int);
            assert forall|k: PortRateKey| k != *key implies window_in(self.entries@, k)
                == window_in(before, k) by {
                lemma_window_other(before, self.entries@, k, at as int);
            }
        }
    }
}

} // verus!
