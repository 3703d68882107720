//! Metrics over time.

use crate::common::IpKey;
use crate::ip_format::address_text;
use crate::ip_format::format_ip_key;
use crate::maps::counts_held;
use crate::maps::counts_list;
use crate::maps::key_of_octets;
use crate::maps::key_octets;
use crate::maps::lists_counts;
use crate::maps::lists_ports;
use crate::maps::ports_held;
use crate::maps::ports_list;
use crate::node::stats::last_of;
use crate::node::stats::Stats;
use dashmap::DashMap;
use std::collections::HashMap;
use vstd::prelude::*;
use vstd::slice::slice_subrange;
use vstd::std_specs::hash::group_hash_axioms;

verus! {

broadcast use group_hash_axioms;

/// The counters of a node at one time.
#[derive(Clone, Debug, Default)]
pub struct MetricPoint {
    pub timestamp: u64,
    pub total_packets: u64,
    pub total_passed: u64,
    pub total_dropped: u64,
    pub blacklist_blocked: u64,
    pub rate_limited: u64,
    pub syn_flood_blocked: u64,
    pub l7_blocked: u64,
    pub adaptive_blocked: u64,
    pub udp_flood_blocked: u64,
    pub icmp_flood_blocked: u64,
    pub geoip_blocked: u64,
    /// Dropped packets per second since the point before; `None` where no packet came.
    pub dps: Option<u64>,
    /// Passed packets per second since the point before; `None` where no packet came.
    pub pps: Option<u64>,
    pub dps_max: Option<u64>,
    pub pps_max: Option<u64>,
    /// A packet came since the point before.
    pub has_data: bool,
    /// The sources with what was dropped of each.
    pub top_attackers: Vec<(String, u64)>,
    /// The destination ports with what was dropped for each.
    pub port_dropped: HashMap<u16, u64>,
}

/// The latest points, the newest last.
pub struct TimeSeriesWindow {
    pub slots: Vec<MetricPoint>,
    pub capacity: usize,
    pub interval_s: u64,
    /// The time of the newest point, 0 where there is none.
    pub head_timestamp: u64,
    pub last_total_packets: u64,
    pub last_total_dropped: u64,
    pub last_total_passed: u64,
}

/// What a counter grew by.
pub open spec fn growth(now: u64, before: u64) -> u64 {
    if now >= before {
        (now - before) as u64
    } else {
        0
    }
}

/// A list names the sources of a map, each with its number.
pub open spec fn names_sources(list: Seq<(String, u64)>, held: Map<Seq<u8>, u64>) -> bool {
    exists|keys: Seq<([u8; 17], u64)>|
        #![trigger lists_counts(keys, held)]
        lists_counts(keys, held) && names_keys(list, keys)
}

/// A list names the given sources, one by one.
pub open spec fn names_keys(list: Seq<(String, u64)>, keys: Seq<([u8; 17], u64)>) -> bool {
    &&& list.len() == keys.len()
    &&& forall|i: int| 0 <= i < list.len() ==> names_key(#[trigger] list[i], keys[i])
}

/// An item names a source.
pub open spec fn names_key(item: (String, u64), key: ([u8; 17], u64)) -> bool {
    &&& item.0@ == address_text(key.0@[0], key.0@.skip(1))
    &&& item.1 == key.1
}

/// Names the given sources, one by one.
pub fn name_keys(keys: &Vec<([u8; 17], u64)>) -> (r: Vec<(String, u64)>)
    ensures
        names_keys(r@, keys@),
{
    let mut out: Vec<(String, u64)> = Vec::new();
    for i in 0..keys.len()
        invariant
            out@.len() == i,
            forall|j: int| 0 <= j < i ==> names_key(#[trigger] out@[j], keys@[j]),
    {
        let k: IpKey = key_of_octets(&keys[i].0);
        let text: String = format_ip_key(&k);
        let item: (String, u64) = (text, keys[i].1);
        assert(key_octets(k).skip(1) =~= k.addr@);
        assert(names_key(item, keys@[i as int]));
        out.push(item);
    }
    out
}

fn name_sources(m: &DashMap<[u8; 17], u64>) -> (r: Vec<(String, u64)>)
    ensures
        names_sources(r@, counts_held(*m)),
{
    let keys: Vec<([u8; 17], u64)> = counts_list(m);
    let out: Vec<(String, u64)> = name_keys(&keys);
    assert(names_keys(out@, keys@));
    out
}

fn port_counts(m: &DashMap<u16, u64>) -> (r: HashMap<u16, u64>)
    ensures
        r@ == ports_held(*m),
{
    let list: Vec<(u16, u64)> = ports_list(m);
    let ghost held = ports_held(*m);
    let mut out: HashMap<u16, u64> = HashMap::new();
    for i in 0..list.len()
        invariant
            lists_ports(list@, held),
            forall|p: u16|
                #![trigger out@.contains_key(p)]
                out@.contains_key(p) ==> held.contains_key(p) && out@[p] == held[p],
            forall|j: int| 0 <= j < i ==> out@.contains_key((#[trigger] list@[j]).0),
    {
        out.insert(list[i].0, list[i].1);
    }
    assert(out@ =~= held) by {
        assert forall|p: u16| held.contains_key(p) implies out@.contains_key(p) by {
            let i: int = choose|i: int| 0 <= i < list@.len() && (#[trigger] list@[i]).0 == p;
            assert(out@.contains_key(list@[i].0));
        }
    }
    out
}

impl TimeSeriesWindow {
    /// No more points are held than fit.
    pub open spec fn wf(&self) -> bool {
        self.capacity > 0 && self.fits()
    }

    /// No more points are held than the window is for.
    pub open spec fn fits(&self) -> bool {
        self.slots@.len() <= self.capacity
    }

    /// A window for up to `capacity` points, taken every `interval_s` seconds.
    pub fn new(capacity: usize, interval_s: u64) -> (r: Self)
        ensures
            r.slots@.len() == 0,
            r.capacity == capacity,
            r.interval_s == interval_s,
            r.head_timestamp == 0,
            r.last_total_packets == 0,
            r.last_total_dropped == 0,
            r.last_total_passed == 0,
            capacity > 0 ==> r.wf(),
    {
        TimeSeriesWindow {
            slots: Vec::new(),
            capacity,
            interval_s,
            head_timestamp: 0,
            last_total_packets: 0,
            last_total_dropped: 0,
            last_total_passed: 0,
        }
    }

    /// Seconds since the newest point, at least one.
    pub open spec fn elapsed(&self, now: u64) -> u64 {
        if growth(now, self.head_timestamp) == 0 {
            1
        } else {
            growth(now, self.head_timestamp)
        }
    }

    /// A packet came since the newest point.
    pub open spec fn saw_packets(&self, stats: Stats) -> bool {
        self.head_timestamp != 0 && growth(stats.total_packets, self.last_total_packets) > 0
    }

    /// What a counter grew by per second since the newest point.
    pub open spec fn rate(&self, stats: Stats, now: u64, count: u64, before: u64) -> Option<u64> {
        if self.saw_packets(stats) {
            Some(growth(count, before) / self.elapsed(now))
        } else {
            None
        }
    }

    /// `p` is the point that the window takes of the counters at `now`.
    pub open spec fn takes(&self, p: MetricPoint, stats: Stats, now: u64) -> bool {
        &&& p.timestamp == now
        &&& p.total_packets == stats.total_packets
        &&& p.total_passed == stats.total_passed
        &&& p.total_dropped == stats.total_dropped
        &&& p.blacklist_blocked == stats.blacklist_blocked
        &&& p.rate_limited == stats.rate_limited
        &&& p.syn_flood_blocked == stats.syn_flood_blocked
        &&& p.l7_blocked == stats.l7_blocked
        &&& p.adaptive_blocked == stats.adaptive_blocked
        &&& p.udp_flood_blocked == stats.udp_flood_blocked
        &&& p.icmp_flood_blocked == stats.icmp_flood_blocked
        &&& p.geoip_blocked == stats.geoip_blocked
        &&& p.dps == self.rate(stats, now, stats.total_dropped, self.last_total_dropped)
        &&& p.pps == self.rate(stats, now, stats.total_passed, self.last_total_passed)
        &&& p.dps_max == p.dps
        &&& p.pps_max == p.pps
        &&& p.has_data == self.saw_packets(stats)
        &&& names_sources(p.top_attackers@, counts_held(stats.top_attackers))
        &&& p.port_dropped@ == ports_held(stats.port_dropped)
    }

    /// A point for this second is there already.
    pub open spec fn has_point_at(&self, now: u64) -> bool {
        now == self.head_timestamp && self.slots@.len() > 0
    }

    fn point(&self, stats: &Stats, now: u64) -> (r: MetricPoint)
        ensures
            self.takes(r, *stats, now),
    {
        let packet_delta: u64 = stats.total_packets.saturating_sub(self.last_total_packets);
        let has_data: bool = self.head_timestamp != 0 && packet_delta > 0;
        let since: u64 = now.saturating_sub(self.head_timestamp);
        let elapsed: u64 = if since == 0 {
            1
        } else {
            since
        };
        let dps: Option<u64> = if has_data {
            Some(stats.total_dropped.saturating_sub(self.last_total_dropped) / elapsed)
        } else {
            None
        };
        let pps: Option<u64> = if has_data {
            Some(stats.total_passed.saturating_sub(self.last_total_passed) / elapsed)
        } else {
            None
        };
        MetricPoint {
            timestamp: now,
            total_packets: stats.total_packets,
            total_passed: stats.total_passed,
            total_dropped: stats.total_dropped,
            blacklist_blocked: stats.blacklist_blocked,
            rate_limited: stats.rate_limited,
            syn_flood_blocked: stats.syn_flood_blocked,
            l7_blocked: stats.l7_blocked,
            adaptive_blocked: stats.adaptive_blocked,
            udp_flood_blocked: stats.udp_flood_blocked,
            icmp_flood_blocked: stats.icmp_flood_blocked,
            geoip_blocked: stats.geoip_blocked,
            dps,
            pps,
            dps_max: dps,
            pps_max: pps,
            has_data,
            top_attackers: name_sources(&stats.top_attackers),
            port_dropped: port_counts(&stats.port_dropped),
        }
    }

    /// Records the counters at `now`, unless this second has its point.
    pub fn record(&mut self, stats: &Stats, now: u64)
        requires
            old(self).wf(),
        ensures
            final(self).wf(),
            final(self).capacity == old(self).capacity,
            final(self).interval_s == old(self).interval_s,
            old(self).has_point_at(now) ==> *final(self) == *old(self),
            !old(self).has_point_at(now) ==> {
                &&& final(self).slots@.len() > 0
                &&& final(self).slots@.drop_last() == last_of(
                    old(self).slots@,
                    (old(self).capacity - 1) as nat,
                )
                &&& old(self).takes(final(self).slots@.last(), *stats, now)
                &&& final(self).head_timestamp == now
                &&& final(self).last_total_packets == stats.total_packets
                &&& final(self).last_total_dropped == stats.total_dropped
                &&& final(self).last_total_passed == stats.total_passed
            },
    {
        if now == self.head_timestamp && self.slots.len() > 0 {
            return;
        }
        let ghost before = self.slots@;
        let point: MetricPoint = self.point(stats, now);
        if self.slots.len() == self.capacity {
            self.slots.remove(0);
        }
        self.slots.push(point);
        assert(self.slots@.drop_last() =~= last_of(before, (self.capacity - 1) as nat));
        self.head_timestamp = now;
        self.last_total_packets = stats.total_packets;
        self.last_total_dropped = stats.total_dropped;
        self.last_total_passed = stats.total_passed;
    }

    /// The points from the first that is no older than `duration_s` seconds on; all of
    /// them where `duration_s` is 0.
    pub fn snapshot(&self, duration_s: u64, now: u64) -> (r: &[MetricPoint])
        ensures
            r@ == if duration_s == 0 {
                self.slots@
            } else {
                self.slots@.skip(first_since(self.slots@, growth(now, duration_s)))
            },
    {
        let n: usize = self.slots.len();
        if duration_s == 0 {
            return self.slots.as_slice();
        }
        let cutoff: u64 = now.saturating_sub(duration_s);
        let mut i: usize = 0;
        assert(self.slots@.skip(0) =~= self.slots@);
        while i < n && self.slots[i].timestamp < cutoff
            invariant
                n == self.slots@.len(),
                0 <= i <= n,
                first_since(self.slots@, cutoff) == i + first_since(
                    self.slots@.skip(i as int),
                    cutoff,
                ),
            decreases n - i,
        {
            proof {
                let rest: Seq<MetricPoint> = self.slots@.skip(i as int);
                assert(rest[0] == self.slots@[i as int]);
                assert(rest.skip(1) =~= self.slots@.skip(i + 1));
            }
            i = i + 1;
        }
        proof {
            let rest: Seq<MetricPoint> = self.slots@.skip(i as int);
            if i < n {
                assert(rest[0] == self.slots@[i as int]);
            }
        }
        slice_subrange(self.slots.as_slice(), i, n)
    }

    /// Takes over points that were kept from an earlier run, the latest that fit. The
    /// counters start from 0 again. No points change nothing, and a window for none keeps
    /// none.
    pub fn load(&mut self, points: Vec<MetricPoint>)
        requires
            old(self).fits(),
        ensures
            final(self).fits(),
            final(self).capacity == old(self).capacity,
            final(self).interval_s == old(self).interval_s,
            points@.len() == 0 || old(self).capacity == 0 ==> *final(self) == *old(self),
            points@.len() > 0 && old(self).capacity > 0 ==> {
                &&& final(self).slots@ == last_of(points@, old(self).capacity as nat)
                &&& final(self).head_timestamp == points@.last().timestamp
                &&& final(self).last_total_packets == 0
                &&& final(self).last_total_dropped == 0
                &&& final(self).last_total_passed == 0
            },
    {
        let n: usize = points.len();
        if n == 0 || self.capacity == 0 {
            return;
        }
        let mut rest: Vec<MetricPoint> = points;
        let head: u64 = rest[n - 1].timestamp;
        if n > self.capacity {
            let start: usize = n - self.capacity;
            let kept: Vec<MetricPoint> = rest.split_off(start);
            assert(kept@ =~= last_of(points@, self.capacity as nat));
            self.slots = kept;
        } else {
            self.slots = rest;
        }
        self.head_timestamp = head;
        self.last_total_packets = 0;
        self.last_total_dropped = 0;
        self.last_total_passed = 0;
    }
}

/// The place of the first point at `cutoff` or later; the length where there is none.
pub open spec fn first_since(points: Seq<MetricPoint>, cutoff: u64) -> int
    decreases points.len(),
{
    if points.len() == 0 {
        0
    } else if points[0].timestamp >= cutoff {
        0
    } else {
        1 + first_since(points.skip(1), cutoff)
    }
}

/// What a window takes over is what it then shows, as far as it fits.
pub proof fn law_loaded_points_are_shown(w: TimeSeriesWindow, points: Seq<MetricPoint>)
    requires
        w.wf(),
        w.slots@ == last_of(points, w.capacity as nat),
    ensures
        points.len() <= w.capacity ==> w.slots@ == points,
        points.len() > w.capacity ==> w.slots@.len() == w.capacity,
        points.len() > 0 ==> w.slots@.last() == points.last(),
{
}

/// In a window whose points are in the order of their times, a snapshot leaves out exactly
/// the points before the cutoff.
pub proof fn law_snapshot_is_recent(points: Seq<MetricPoint>, cutoff: u64)
    requires
        forall|i: int, j: int|
            #![trigger points[i], points[j]]
            0 <= i < j < points.len() ==> points[i].timestamp <= points[j].timestamp,
    ensures
        0 <= first_since(points, cutoff) <= points.len(),
        forall|i: int|
            0 <= i < points.len() ==> ((#[trigger] points[i]).timestamp >= cutoff <==> i
                >= first_since(points, cutoff)),
    decreases points.len(),
{
    if points.len() > 0 && points[0].timestamp < cutoff {
        let rest: Seq<MetricPoint> = points.skip(1);
        assert forall|i: int, j: int|
            #![trigger rest[i], rest[j]]
            0 <= i < j < rest.len() implies rest[i].timestamp <= rest[j].timestamp by {
            assert(rest[i] == points[i + 1]);
            assert(rest[j] == points[j + 1]);
        }
        law_snapshot_is_recent(rest, cutoff);
        assert forall|i: int| 0 <= i < points.len() implies ((#[trigger] points[i]).timestamp
            >= cutoff <==> i >= first_since(points, cutoff)) by {
            if i > 0 {
                assert(rest[i - 1] == points[i]);
            }
        }
    }
}

} // verus!
