//! The counters of one node.

use crate::common::DropEvent;
use crate::maps::counts_held;
use crate::maps::counts_new;
use crate::maps::lists_ports;
use crate::maps::ports_get;
use crate::maps::ports_held;
use crate::maps::ports_insert;
use crate::maps::ports_new;
use dashmap::DashMap;
use std::collections::HashMap;
use std::collections::VecDeque;
use vstd::prelude::*;
use vstd::std_specs::hash::group_hash_axioms;
use vstd::std_specs::iter::IteratorSpec;

verus! {

broadcast use group_hash_axioms;

/// How many attack events are kept.
pub const MAX_ATTACKS: usize = 1000;

/// What a node counts.
pub struct Stats {
    pub total_packets: u64,
    pub total_dropped: u64,
    pub total_passed: u64,
    pub blacklist_blocked: u64,
    pub rate_limited: u64,
    pub syn_flood_blocked: u64,
    pub l7_blocked: u64,
    pub adaptive_blocked: u64,
    pub udp_flood_blocked: u64,
    pub icmp_flood_blocked: u64,
    pub geoip_blocked: u64,
    pub waf_blocked: u64,
    pub challenge_issued: u64,
    pub conn_track_blocked: u64,
    pub tcp_rst_sent: u64,
    pub tcp_rst_fail: u64,
    pub tcp_rst_attempt: u64,
    pub current_pps: u64,
    pub current_dps: u64,
    pub tcp_dropped: u64,
    pub udp_dropped: u64,
    pub icmp_dropped: u64,
    pub other_dropped: u64,
    /// The monotonic time at which the program started; events from before it are stale.
    pub program_start_ns: u64,
    /// Dropped packets by destination port.
    pub port_dropped: DashMap<u16, u64>,
    /// How often a batch of events took up to 1, 5, 10, 50 or 100 milliseconds, or longer.
    pub process_hist: [u64; 6],
    /// Dropped packets by source.
    pub top_attackers: DashMap<[u8; 17], u64>,
    pub trust_trusted: u64,
    pub trust_neutral: u64,
    pub trust_suspicious: u64,
    pub trust_malicious: u64,
    pub danger_level: u64,
    /// The latest attack events, the newest last.
    pub recent_attacks: VecDeque<DropEvent>,
}

/// The last `n` items of a list, or all of them.
pub open spec fn last_of<T>(s: Seq<T>, n: nat) -> Seq<T> {
    if s.len() <= n {
        s
    } else {
        s.skip(s.len() - n)
    }
}

/// The dropped packets of a port after a batch; port 0 stands for none.
pub open spec fn port_after(held: Map<u16, u64>, batch: Map<u16, u64>, port: u16) -> Option<u64> {
    if port != 0 && batch.contains_key(port) {
        Some(
            if held.contains_key(port) {
                ((held[port] + batch[port]) % 0x1_0000_0000_0000_0000) as u64
            } else {
                batch[port]
            },
        )
    } else if held.contains_key(port) {
        Some(held[port])
    } else {
        None
    }
}

/// What a map holds under a port.
pub open spec fn held_at(m: Map<u16, u64>, port: u16) -> Option<u64> {
    if m.contains_key(port) {
        Some(m[port])
    } else {
        None
    }
}

/// The class of a processing time in microseconds.
pub open spec fn time_class(us: u64) -> int {
    if us <= 1000 {
        0
    } else if us <= 5000 {
        1
    } else if us <= 10000 {
        2
    } else if us <= 50000 {
        3
    } else if us <= 100000 {
        4
    } else {
        5
    }
}

impl Default for Stats {
    fn default() -> (r: Self)
        ensures
            r.is_blank(),
    {
        Stats {
            total_packets: 0,
            total_dropped: 0,
            total_passed: 0,
            blacklist_blocked: 0,
            rate_limited: 0,
            syn_flood_blocked: 0,
            l7_blocked: 0,
            adaptive_blocked: 0,
            udp_flood_blocked: 0,
            icmp_flood_blocked: 0,
            geoip_blocked: 0,
            waf_blocked: 0,
            challenge_issued: 0,
            conn_track_blocked: 0,
            tcp_rst_sent: 0,
            tcp_rst_fail: 0,
            tcp_rst_attempt: 0,
            current_pps: 0,
            current_dps: 0,
            tcp_dropped: 0,
            udp_dropped: 0,
            icmp_dropped: 0,
            other_dropped: 0,
            program_start_ns: 0,
            port_dropped: ports_new(),
            process_hist: [0, 0, 0, 0, 0, 0],
            top_attackers: counts_new(),
            trust_trusted: 0,
            trust_neutral: 0,
            trust_suspicious: 0,
            trust_malicious: 0,
            danger_level: 0,
            recent_attacks: VecDeque::new(),
        }
    }
}

impl Stats {
    /// No more attack events are held than are kept.
    pub open spec fn wf(&self) -> bool {
        self.recent_attacks@.len() <= MAX_ATTACKS
    }

    /// Nothing was counted yet.
    pub open spec fn is_blank(&self) -> bool {
        &&& self.total_packets == 0 && self.total_dropped == 0 && self.total_passed == 0
        &&& self.blacklist_blocked == 0 && self.rate_limited == 0 && self.syn_flood_blocked == 0
        &&& self.l7_blocked == 0 && self.adaptive_blocked == 0 && self.udp_flood_blocked == 0
        &&& self.icmp_flood_blocked == 0 && self.geoip_blocked == 0
        &&& self.waf_blocked == 0 && self.challenge_issued == 0 && self.conn_track_blocked == 0
        &&& self.tcp_rst_sent == 0 && self.tcp_rst_fail == 0 && self.tcp_rst_attempt == 0
        &&& self.current_pps == 0 && self.current_dps == 0
        &&& self.tcp_dropped == 0 && self.udp_dropped == 0 && self.icmp_dropped == 0
        &&& self.other_dropped == 0 && self.program_start_ns == 0 && self.danger_level == 0
        &&& self.trust_trusted == 0 && self.trust_neutral == 0
        &&& self.trust_suspicious == 0 && self.trust_malicious == 0
        &&& forall|p: u16| !ports_held(self.port_dropped).contains_key(p)
        &&& forall|k: Seq<u8>| !counts_held(self.top_attackers).contains_key(k)
        &&& self.process_hist@ == seq![0u64, 0, 0, 0, 0, 0]
        &&& self.recent_attacks@.len() == 0
    }

    /// Adds the dropped packets of a batch by destination port.
    pub fn add_dropped_batch(&mut self, by_port: &HashMap<u16, u64>)
        ensures
            forall|p: u16| #[trigger]
                held_at(ports_held(final(self).port_dropped), p) == port_after(
                    ports_held(old(self).port_dropped),
                    by_port@,
                    p,
                ),
            *final(self) == (Stats { port_dropped: final(self).port_dropped, ..*old(self) }),
    {
        let ghost before = ports_held(self.port_dropped);
        let ghost batch = by_port@;
        let ports: Vec<(u16, u64)> = batch_entries(by_port);
        for i in 0..ports.len()
            invariant
                batch == by_port@,
                lists_ports(ports@, batch),
                *self == (Stats { port_dropped: self.port_dropped, ..*old(self) }),
                forall|p: u16| #[trigger]
                    held_at(ports_held(self.port_dropped), p) == port_after(
                        before,
                        batch.restrict(listed(ports@.take(i as int))),
                        p,
                    ),
        {
            let ghost held = ports_held(self.port_dropped);
            let ghost part = batch.restrict(listed(ports@.take(i as int)));
            let ghost next = batch.restrict(listed(ports@.take(i + 1)));
            let (port, count) = ports[i];
            proof {
                lemma_next_port(ports@, batch, i as int);
                assert(held_at(held, port) == port_after(before, part, port));
            }
            if port != 0 {
                let old_count: u64 = match ports_get(&self.port_dropped, port) {
                    Some(n) => n,
                    None => 0,
                };
                ports_insert(&mut self.port_dropped, port, old_count.wrapping_add(count));
            }
            assert forall|p: u16| #[trigger]
                held_at(ports_held(self.port_dropped), p) == port_after(before, next, p) by {
                assert(held_at(held, p) == port_after(before, part, p));
            }
        }
        proof {
            assert(ports@.take(ports@.len() as int) =~= ports@);
            assert(batch.restrict(listed(ports@)) =~= batch) by {
                assert forall|p: u16| batch.contains_key(p) implies listed(ports@).contains(p) by {
                    let i: int = choose|i: int| 0 <= i < ports@.len() && (#[trigger] ports@[i]).0 == p;
                    assert(ports@[i].0 == p);
                }
            }
        }
    }

    /// Counts a processing time.
    pub fn record_process_time_us(&mut self, us: u64)
        ensures
            final(self).process_hist@ == old(self).process_hist@.update(
                time_class(us),
                old(self).process_hist@[time_class(us)].wrapping_add(1),
            ),
            *final(self) == (Stats { process_hist: final(self).process_hist, ..*old(self) }),
    {
        let class: usize = if us <= 1000 {
            0
        } else if us <= 5000 {
            1
        } else if us <= 10000 {
            2
        } else if us <= 50000 {
            3
        } else if us <= 100000 {
            4
        } else {
            5
        };
        self.process_hist[class] = self.process_hist[class].wrapping_add(1);
    }

    /// Appends attack events and forgets the oldest beyond the number that is kept.
    pub fn push_attack_events(&mut self, events: &[DropEvent])
        requires
            old(self).wf(),
        ensures
            final(self).wf(),
            final(self).recent_attacks@ == last_of(
                old(self).recent_attacks@ + events@,
                MAX_ATTACKS as nat,
            ),
            *final(self) == (Stats { recent_attacks: final(self).recent_attacks, ..*old(self) }),
    {
        let ghost before = self.recent_attacks@;
        for i in 0..events.len()
            invariant
                self.wf(),
                *self == (Stats { recent_attacks: self.recent_attacks, ..*old(self) }),
                self.recent_attacks@ == last_of(
                    before + events@.take(i as int),
                    MAX_ATTACKS as nat,
                ),
        {
            let ghost all = before + events@.take(i as int);
            let ghost next = before + events@.take(i + 1);
            assert(next =~= all.push(events@[i as int]));
            if self.recent_attacks.len() >= MAX_ATTACKS {
                self.recent_attacks.pop_front();
            }
            self.recent_attacks.push_back(events[i]);
            assert(self.recent_attacks@ =~= last_of(next, MAX_ATTACKS as nat));
        }
        assert(before + events@.take(0) =~= before);
        assert(events@.take(events@.len() as int) =~= events@);
    }

    /// The latest attack events, the newest first.
    pub fn attack_events(&self, limit: usize) -> (r: Vec<DropEvent>)
        ensures
            r@ == last_of(self.recent_attacks@, limit as nat).reverse(),
    {
        let mut out: Vec<DropEvent> = Vec::new();
        let n: usize = self.recent_attacks.len();
        let take: usize = if n <= limit {
            n
        } else {
            limit
        };
        for i in 0..take
            invariant
                n == self.recent_attacks@.len(),
                take <= n,
                out@.len() == i,
                forall|j: int| 0 <= j < i ==> out@[j] == self.recent_attacks@[n - 1 - j],
        {
            out.push(self.recent_attacks[n - 1 - i]);
        }
        assert(out@ =~= last_of(self.recent_attacks@, limit as nat).reverse());
        out
    }
}

/// The ports of a list of entries.
pub open spec fn listed(entries: Seq<(u16, u64)>) -> Set<u16> {
    Set::new(|p: u16| exists|i: int| 0 <= i < entries.len() && (#[trigger] entries[i]).0 == p)
}

proof fn lemma_next_port(entries: Seq<(u16, u64)>, batch: Map<u16, u64>, i: int)
    requires
        lists_ports(entries, batch),
        0 <= i < entries.len(),
    ensures
        !listed(entries.take(i)).contains(entries[i].0),
        listed(entries.take(i + 1)) =~= listed(entries.take(i)).insert(entries[i].0),
        batch.contains_key(entries[i].0),
        batch[entries[i].0] == entries[i].1,
{
    let a: Seq<(u16, u64)> = entries.take(i);
    let b: Seq<(u16, u64)> = entries.take(i + 1);
    assert(b[i] == entries[i]);
    assert forall|p: u16| listed(b).contains(p) == listed(a).insert(entries[i].0).contains(p) by {
        if listed(b).contains(p) {
            let j: int = choose|j: int| 0 <= j < b.len() && (#[trigger] b[j]).0 == p;
            if j < i {
                assert(a[j] == b[j]);
            }
        }
        if listed(a).contains(p) {
            let j: int = choose|j: int| 0 <= j < a.len() && (#[trigger] a[j]).0 == p;
            assert(b[j] == a[j]);
        }
    }
    if listed(a).contains(entries[i].0) {
        let j: int = choose|j: int| 0 <= j < a.len() && (#[trigger] a[j]).0 == entries[i].0;
        assert(a[j] == entries[j]);
    }
}

fn batch_entries(m: &HashMap<u16, u64>) -> (r: Vec<(u16, u64)>)
    ensures
        lists_ports(r@, m@),
{
    let mut out: Vec<(u16, u64)> = Vec::new();
    let entries = m.iter();
    let ghost all = entries.remaining();
    assert(all.no_duplicates());
    for e in it: entries
        invariant
            out@.len() == it.index(),
            forall|j: int|
                0 <= j < it.index() ==> out@[j].0 == *it.seq()[j].0 && out@[j].1 == *it.seq()[j].1,
    {
        out.push((*e.0, *e.1));
    }
    proof {
        assert forall|i: int, j: int|
            #![trigger out@[i], out@[j]]
            0 <= i < j < out@.len() implies out@[i].0 != out@[j].0 by {
            assert(all[i] != all[j]);
            assert(m@[*all[i].0] == *all[i].1);
            assert(m@[*all[j].0] == *all[j].1);
        }
        assert forall|i: int| 0 <= i < out@.len() implies m@.contains_key((#[trigger] out@[i]).0)
            && m@[out@[i].0] == out@[i].1 by {
            assert(m@.contains_key(*all[i].0));
        }
        assert forall|k: u16| m@.contains_key(k) implies exists|i: int|
            0 <= i < out@.len() && (#[trigger] out@[i]).0 == k by {
            assert(all.contains((&k, &m@[k])));
            let i: int = choose|i: int| 0 <= i < all.len() && all[i] == (&k, &m@[k]);
            assert(out@[i].0 == k);
        }
    }
    out
}

} // verus!
