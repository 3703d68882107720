//! Blocking sources that break rules again and again.

use crate::common::BlockEntry;
use crate::common::IpKey;
use crate::dataplane::blacklist::block_end;
use crate::dataplane::blacklist::block_until;
use crate::maps::counts_get;
use crate::maps::counts_held;
use crate::maps::counts_insert;
use crate::maps::counts_new;
use crate::maps::ip_index_key;
use crate::maps::key_octets;
use crate::maps::law_keys_tell_addresses;
use crate::maps::times_get;
use crate::maps::times_held;
use crate::maps::times_insert;
use crate::maps::times_new;
use crate::node::config::AdaptiveConfig;
use crate::rules;
use dashmap::DashMap;
use vstd::prelude::*;

verus! {

/// The times, in seconds, at which each source broke a rule lately, and until when each
/// source is blocked.
pub struct AdaptiveEngine {
    pub config: AdaptiveConfig,
    pub windows: DashMap<[u8; 17], Vec<u64>>,
    pub blocked: DashMap<[u8; 17], u64>,
}

/// An event at `t` is still in the window.
pub open spec fn in_window(t: u64, now_s: u64, window_s: u64) -> bool {
    now_s < t || now_s - t <= window_s
}

/// The events that are still in the window, in order.
pub open spec fn windowed(times: Seq<u64>, now_s: u64, window_s: u64) -> Seq<u64>
    decreases times.len(),
{
    if times.len() == 0 {
        times
    } else if in_window(times.last(), now_s, window_s) {
        windowed(times.drop_last(), now_s, window_s).push(times.last())
    } else {
        windowed(times.drop_last(), now_s, window_s)
    }
}

/// The end of a block in seconds, saturating.
pub open spec fn end_s(now_s: u64, seconds: u64) -> u64 {
    if now_s + seconds > u64::MAX {
        u64::MAX
    } else {
        (now_s + seconds) as u64
    }
}

fn retain_window(times: &Vec<u64>, now_s: u64, window_s: u64) -> (r: Vec<u64>)
    ensures
        r@ == windowed(times@, now_s, window_s),
{
    let mut out: Vec<u64> = Vec::new();
    for i in 0..times.len()
        invariant
            out@ == windowed(times@.take(i as int), now_s, window_s),
    {
        assert(times@.take(i + 1).drop_last() == times@.take(i as int));
        assert(times@.take(i + 1).last() == times@[i as int]);
        if now_s.saturating_sub(times[i]) <= window_s {
            out.push(times[i]);
        }
    }
    assert(times@.take(times@.len() as int) == times@);
    out
}

impl AdaptiveEngine {
    pub fn new(config: AdaptiveConfig) -> (r: Self)
        ensures
            r.config == config,
            forall|k: Seq<u8>| !times_held(r.windows).contains_key(k),
            forall|k: Seq<u8>| !counts_held(r.blocked).contains_key(k),
    {
        AdaptiveEngine { config, windows: times_new(), blocked: counts_new() }
    }

    pub fn is_enabled(&self) -> (r: bool)
        ensures
            r == self.config.enabled,
    {
        self.config.enabled
    }

    pub fn update_config(&mut self, config: AdaptiveConfig)
        ensures
            final(self).config == config,
            final(self).windows == old(self).windows,
            final(self).blocked == old(self).blocked,
    {
        self.config = config;
    }

    /// The events of a source that count, with `count` more at `now_s`.
    pub open spec fn window_with(&self, src: IpKey, count: u64, now_s: u64) -> Seq<u64> {
        let k: Seq<u8> = key_octets(src);
        let times: Seq<u64> = if times_held(self.windows).contains_key(k) {
            times_held(self.windows)[k]
        } else {
            Seq::empty()
        };
        windowed(times, now_s, self.config.window_s) + Seq::new(count as nat, |i: int| now_s)
    }

    /// An event of a source counts: the engine is on and has not blocked the source.
    pub open spec fn counts(&self, src: IpKey, now_s: u64) -> bool {
        let k: Seq<u8> = key_octets(src);
        self.config.enabled && !(counts_held(self.blocked).contains_key(k) && counts_held(
            self.blocked,
        )[k] > now_s)
    }

    /// What the engine does of `count` events of a source at `now_s`: the block it gives.
    pub open spec fn verdict(&self, src: IpKey, count: u64, now_s: u64, now_ns: u64) -> Option<
        BlockEntry,
    > {
        if self.counts(src, now_s) && self.window_with(src, count, now_s).len()
            >= self.config.threshold {
            Some(
                BlockEntry {
                    blocked_until_ns: block_end(now_ns, self.config.block_duration_s),
                    block_reason: rules::ADAPTIVE as u8,
                    hit_count: 0,
                    first_seen_ns: now_ns,
                },
            )
        } else {
            None
        }
    }

    /// What the engine holds after `count` events of a source.
    pub open spec fn follows(
        &self,
        before: AdaptiveEngine,
        src: IpKey,
        count: u64,
        now_s: u64,
        now_ns: u64,
    ) -> bool {
        let k: Seq<u8> = key_octets(src);
        &&& self.config == before.config
        &&& times_held(self.windows) == if before.counts(src, now_s) {
            times_held(before.windows).insert(k, before.window_with(src, count, now_s))
        } else {
            times_held(before.windows)
        }
        &&& counts_held(self.blocked) == if before.verdict(src, count, now_s, now_ns) is Some {
            counts_held(before.blocked).insert(k, end_s(now_s, before.config.block_duration_s))
        } else {
            counts_held(before.blocked)
        }
    }

    /// A source broke a rule. Returns the block that it gets where that makes it too many.
    pub fn on_event(&mut self, src: &IpKey, now_s: u64, now_ns: u64) -> (r: Option<BlockEntry>)
        ensures
            r == old(self).verdict(*src, 1, now_s, now_ns),
            final(self).follows(*old(self), *src, 1, now_s, now_ns),
    {
        self.on_events(src, 1, now_s, now_ns)
    }

    /// A source broke rules `count` times in one batch of events. Returns the block that it
    /// gets where that makes it too many.
    pub fn on_events(&mut self, src: &IpKey, count: u64, now_s: u64, now_ns: u64) -> (r: Option<
        BlockEntry,
    >)
        ensures
            r == old(self).verdict(*src, count, now_s, now_ns),
            final(self).follows(*old(self), *src, count, now_s, now_ns),
    {
        if !self.config.enabled {
            return None;
        }
        let key: [u8; 17] = ip_index_key(src);
        if let Some(until) = counts_get(&self.blocked, &key) {
            if until > now_s {
                return None;
            }
        }
        let times: Vec<u64> = match times_get(&self.windows, &key) {
            Some(t) => t,
            None => Vec::new(),
        };
        let mut window: Vec<u64> = retain_window(&times, now_s, self.config.window_s);
        assert(times@ == if times_held(self.windows).contains_key(key@) {
            times_held(self.windows)[key@]
        } else {
            Seq::<u64>::empty()
        });
        let ghost kept = window@;
        for i in 0..count
            invariant
                window@ == kept + Seq::new(i as nat, |j: int| now_s),
        {
            window.push(now_s);
            assert(window@ =~= kept + Seq::new((i + 1) as nat, |j: int| now_s));
        }
        assert(kept + Seq::new(0nat, |j: int| now_s) =~= kept);
        let hits: u64 = window.len() as u64;
        times_insert(&mut self.windows, &key, window);
        if hits >= self.config.threshold {
            let seconds: u64 = self.config.block_duration_s;
            counts_insert(&mut self.blocked, &key, now_s.saturating_add(seconds));
            return Some(
                BlockEntry {
                    blocked_until_ns: block_until(now_ns, seconds),
                    block_reason: rules::ADAPTIVE as u8,
                    hit_count: 0,
                    first_seen_ns: now_ns,
                },
            );
        }
        None
    }
}

/// A block outlasts the events that led to it: after it, no event counts until it ends.
pub proof fn law_block_silences_source(
    before: AdaptiveEngine,
    after: AdaptiveEngine,
    src: IpKey,
    count: u64,
    now_s: u64,
    now_ns: u64,
    later_s: u64,
)
    requires
        after.follows(before, src, count, now_s, now_ns),
        before.verdict(src, count, now_s, now_ns) is Some,
        later_s < end_s(now_s, before.config.block_duration_s),
    ensures
        !after.counts(src, later_s),
{
}

/// What happens to one source leaves what is known of every other source alone.
pub proof fn law_sources_are_kept_apart(
    before: AdaptiveEngine,
    after: AdaptiveEngine,
    src: IpKey,
    count: u64,
    now_s: u64,
    now_ns: u64,
    other: IpKey,
    other_count: u64,
    later_s: u64,
)
    requires
        after.follows(before, src, count, now_s, now_ns),
        other != src,
    ensures
        after.counts(other, later_s) == before.counts(other, later_s),
        after.window_with(other, other_count, later_s) == before.window_with(
            other,
            other_count,
            later_s,
        ),
{
    law_keys_tell_addresses(src, other);
}

} // verus!
