//! What is known of one source, and of the latest attacks.

use crate::common::DropEvent;
use crate::common::IpKey;
use crate::common::TrustEntry;
use crate::ip_format::address_text;
use crate::ip_format::format_ip_key;
use crate::node::packet_log::PacketLogQuery;
use crate::node::packet_log::PacketSampleEntry;
use crate::node::stats::last_of;
use crate::node::stats::Stats;
use crate::node::timeseries::growth;
use crate::node::timeseries::MetricPoint;
use crate::rank::first_of;
use crate::rank::ranked;
use crate::rank::top;
use crate::rules;
use crate::text::same_text;
use std::collections::HashMap;
use vstd::prelude::*;
use vstd::std_specs::hash::group_hash_axioms;

verus! {

broadcast use group_hash_axioms;

/// A list of ports with numbers in which one more was counted for a port.
pub open spec fn bumped(t: Seq<(u16, u64)>, port: u16) -> Seq<(u16, u64)>
    decreases t.len(),
{
    if t.len() == 0 {
        seq![(port, 1u64)]
    } else if t[0].0 == port {
        seq![(port, (t[0].1 + 1) as u64)] + t.skip(1)
    } else {
        seq![t[0]] + bumped(t.skip(1), port)
    }
}

/// The destination ports of samples with their numbers, in the order of their first
/// sample.
pub open spec fn port_tally(s: Seq<PacketSampleEntry>) -> Seq<(u16, u64)>
    decreases s.len(),
{
    if s.len() == 0 {
        Seq::empty()
    } else {
        bumped(port_tally(s.drop_last()), s.last().dst_port)
    }
}

/// How many samples were dropped.
pub open spec fn drops(s: Seq<PacketSampleEntry>) -> nat
    decreases s.len(),
{
    if s.len() == 0 {
        0
    } else {
        drops(s.drop_last()) + if s.last().action == 0 {
            1nat
        } else {
            0nat
        }
    }
}

proof fn lemma_bumped(t: Seq<(u16, u64)>, port: u16, n: nat)
    requires
        forall|i: int| 0 <= i < t.len() ==> (#[trigger] t[i]).1 <= n,
        n < u64::MAX,
    ensures
        forall|i: int| 0 <= i < bumped(t, port).len() ==> (#[trigger] bumped(t, port)[i]).1 <= n + 1,
        forall|k: int|
            0 <= k < t.len() && t[k].0 == port && (forall|j: int| 0 <= j < k ==> t[j].0 != port)
                ==> bumped(t, port) == #[trigger] t.update(k, (port, (t[k].1 + 1) as u64)),
        (forall|j: int| 0 <= j < t.len() ==> t[j].0 != port) ==> bumped(t, port) == t.push(
            (port, 1u64),
        ),
    decreases t.len(),
{
    if t.len() > 0 {
        let rest: Seq<(u16, u64)> = t.skip(1);
        assert forall|i: int| 0 <= i < rest.len() implies (#[trigger] rest[i]).1 <= n by {
            assert(rest[i] == t[i + 1]);
        }
        if t[0].0 == port {
            assert forall|k: int|
                0 <= k < t.len() && t[k].0 == port && (forall|j: int|
                    0 <= j < k ==> t[j].0 != port) implies bumped(t, port)
                == #[trigger] t.update(k, (port, (t[k].1 + 1) as u64)) by {
                if k > 0 {
                    assert(t[0].0 != port);
                }
                assert(bumped(t, port) =~= t.update(0, (port, (t[0].1 + 1) as u64)));
            }
        } else {
            lemma_bumped(rest, port, n);
            let b: Seq<(u16, u64)> = bumped(rest, port);
            assert forall|i: int| 0 <= i < bumped(t, port).len() implies (
            #[trigger] bumped(t, port)[i]).1 <= n + 1 by {
                if i > 0 {
                    assert(bumped(t, port)[i] == b[i - 1]);
                }
            }
            assert forall|k: int|
                0 <= k < t.len() && t[k].0 == port && (forall|j: int|
                    0 <= j < k ==> t[j].0 != port) implies bumped(t, port)
                == #[trigger] t.update(k, (port, (t[k].1 + 1) as u64)) by {
                assert(k > 0);
                assert(rest[k - 1] == t[k]);
                assert forall|j: int| 0 <= j < k - 1 implies rest[j].0 != port by {
                    assert(rest[j] == t[j + 1]);
                }
                assert(b == rest.update(k - 1, (port, (rest[k - 1].1 + 1) as u64)));
                assert(bumped(t, port) =~= t.update(k, (port, (t[k].1 + 1) as u64)));
            }
            if forall|j: int| 0 <= j < t.len() ==> t[j].0 != port {
                assert forall|j: int| 0 <= j < rest.len() implies rest[j].0 != port by {
                    assert(rest[j] == t[j + 1]);
                }
                assert(bumped(t, port) =~= t.push((port, 1u64)));
            }
        }
    } else {
        assert(bumped(t, port) =~= t.push((port, 1u64)));
    }
}

fn bump(t: &mut Vec<(u16, u64)>, port: u16, bound: Ghost<nat>)
    requires
        forall|i: int| 0 <= i < old(t)@.len() ==> (#[trigger] old(t)@[i]).1 <= bound@,
        bound@ < u64::MAX,
    ensures
        final(t)@ == bumped(old(t)@, port),
        forall|i: int| 0 <= i < final(t)@.len() ==> (#[trigger] final(t)@[i]).1 <= bound@ + 1,
{
    proof {
        lemma_bumped(t@, port, bound@);
    }
    let mut i: usize = 0;
    while i < t.len()
        invariant
            t@ == old(t)@,
            i <= t@.len(),
            bound@ < u64::MAX,
            forall|k: int| 0 <= k < t@.len() ==> (#[trigger] t@[k]).1 <= bound@,
            forall|j: int| 0 <= j < i ==> t@[j].0 != port,
        decreases t@.len() - i,
    {
        if t[i].0 == port {
            proof {
                lemma_bumped(t@, port, bound@);
                assert(bumped(t@, port) == t@.update(i as int, (port, (t@[i as int].1 + 1) as u64)));
            }
            let n: u64 = t[i].1;
            t.set(i, (port, n + 1));
            return;
        }
        i = i + 1;
    }
    t.push((port, 1));
}

/// What samples say of a source.
#[derive(Clone, Debug)]
pub struct IpActivity {
    pub drop_count: u64,
    pub pass_count: u64,
    /// The ports that were sampled most, the most first.
    pub top_ports: Vec<(u16, u64)>,
}

/// Counts samples by what became of them and by destination port.
pub fn activity(samples: &Vec<PacketSampleEntry>) -> (r: IpActivity)
    ensures
        r.drop_count == drops(samples@),
        r.pass_count == samples@.len() - drops(samples@),
        r.top_ports@ == first_of(ranked(port_tally(samples@)), 10),
{
    let _n: usize = samples.len();
    let mut drop_count: u64 = 0;
    let mut pass_count: u64 = 0;
    let mut tally: Vec<(u16, u64)> = Vec::new();
    for i in 0..samples.len()
        invariant
            samples@.len() <= usize::MAX,
            drop_count == drops(samples@.take(i as int)),
            drop_count + pass_count == i,
            tally@ == port_tally(samples@.take(i as int)),
            forall|k: int| 0 <= k < tally@.len() ==> (#[trigger] tally@[k]).1 <= i,
    {
        assert(samples@.take(i + 1).drop_last() =~= samples@.take(i as int));
        assert(samples@.take(i + 1).last() == samples@[i as int]);
        if samples[i].action == 0 {
            drop_count = drop_count + 1;
        } else {
            pass_count = pass_count + 1;
        }
        bump(&mut tally, samples[i].dst_port, Ghost(i as nat));
    }
    assert(samples@.take(samples@.len() as int) =~= samples@);
    IpActivity { drop_count, pass_count, top_ports: top(&tally, 10) }
}

/// The reputation of a source from 0 to 100 with its level; the middle where it has none.
pub open spec fn standing_of(entry: Option<TrustEntry>) -> (u32, u8) {
    match entry {
        Some(e) => (
            if e.trust_score / 10 > 100 {
                100
            } else {
                e.trust_score / 10
            },
            e.level,
        ),
        None => (50, 0),
    }
}

/// The reputation of a source from 0 to 100 with its level.
pub fn standing(entry: Option<TrustEntry>) -> (r: (u32, u8))
    ensures
        r == standing_of(entry),
{
    match entry {
        Some(e) => {
            let p: u32 = e.trust_score / 10;
            (
                if p > 100 {
                    100
                } else {
                    p
                },
                e.level,
            )
        },
        None => (50, 0),
    }
}

/// How far back a series goes: between a minute and a day.
pub open spec fn series_span(duration_s: u64) -> u64 {
    if duration_s < 60 {
        60
    } else if duration_s > 86400 {
        86400
    } else {
        duration_s
    }
}

/// From when on samples count for a series.
pub open spec fn series_start(duration_s: u64, now_ns: u64) -> u64 {
    growth(now_ns, (series_span(duration_s) * 1_000_000_000) as u64)
}

/// From when on samples count for a series.
pub fn series_from(duration_s: u64, now_ns: u64) -> (r: u64)
    ensures
        r == series_start(duration_s, now_ns),
{
    let span: u64 = if duration_s < 60 {
        60
    } else if duration_s > 86400 {
        86400
    } else {
        duration_s
    };
    now_ns.saturating_sub(span * 1_000_000_000)
}

/// The samples of one address since a time.
pub fn series_query(ip: &str, from_ns: Option<u64>, limit: usize) -> (r: PacketLogQuery)
    ensures
        r.ip is Some,
        r.ip->0@ == ip@,
        r.port is None && r.protocol is None && r.action is None && r.rule is None,
        r.from_ns == from_ns,
        r.to_ns is None,
        r.limit == limit,
{
    PacketLogQuery {
        ip: Some(ip.to_string()),
        port: None,
        protocol: None,
        action: None,
        rule: None,
        from_ns,
        to_ns: None,
        limit,
    }
}

/// A time of the monotonic clock on the wall clock, given both clocks now.
pub open spec fn wall_time(t: u64, now_ns: u64, wall_ns: u64) -> u64 {
    if t + wall_ns < now_ns {
        0
    } else {
        ((t + wall_ns - now_ns) % 0x1_0000_0000_0000_0000) as u64
    }
}

fn to_wall(t: u64, now_ns: u64, wall_ns: u64) -> (r: u64)
    ensures
        r == wall_time(t, now_ns, wall_ns),
{
    let sum: u128 = t as u128 + wall_ns as u128;
    if sum < now_ns as u128 {
        0
    } else {
        ((sum - now_ns as u128) % 0x1_0000_0000_0000_0000) as u64
    }
}

/// The minute of the wall clock in which a sample was taken.
pub open spec fn minute_of(t: u64, now_ns: u64, wall_ns: u64) -> u64 {
    wall_time(t, now_ns, wall_ns) / 60_000_000_000
}

/// The samples of a minute: how many were dropped and how many passed.
pub open spec fn minute_counts(
    s: Seq<PacketSampleEntry>,
    minute: u64,
    now_ns: u64,
    wall_ns: u64,
) -> (nat, nat)
    decreases s.len(),
{
    if s.len() == 0 {
        (0, 0)
    } else {
        let front: (nat, nat) = minute_counts(s.drop_last(), minute, now_ns, wall_ns);
        if minute_of(s.last().timestamp_ns, now_ns, wall_ns) != minute {
            front
        } else if s.last().action == 0 {
            (front.0 + 1, front.1)
        } else {
            (front.0, front.1 + 1)
        }
    }
}

/// The samples of a source in one minute, none where none was taken.
#[derive(Clone, Copy, Debug, PartialEq, Eq)]
pub struct IpSeriesPoint {
    pub timestamp: u64,
    pub drop_count: Option<u64>,
    pub pass_count: Option<u64>,
}

/// The point of a minute.
pub open spec fn series_point(
    s: Seq<PacketSampleEntry>,
    minute: u64,
    now_ns: u64,
    wall_ns: u64,
) -> IpSeriesPoint {
    let c: (nat, nat) = minute_counts(s, minute, now_ns, wall_ns);
    IpSeriesPoint {
        timestamp: (minute * 60) as u64,
        drop_count: if c.0 + c.1 == 0 {
            None
        } else {
            Some(c.0 as u64)
        },
        pass_count: if c.0 + c.1 == 0 {
            None
        } else {
            Some(c.1 as u64)
        },
    }
}

/// The numbers by minute are those of the samples.
pub open spec fn minutes_counted(
    m: Map<u64, (u64, u64)>,
    s: Seq<PacketSampleEntry>,
    now_ns: u64,
    wall_ns: u64,
) -> bool {
    forall|k: u64|
        #![trigger m.contains_key(k)]
        {
            let c: (nat, nat) = minute_counts(s, k, now_ns, wall_ns);
            &&& m.contains_key(k) <==> c.0 + c.1 > 0
            &&& m.contains_key(k) ==> m[k].0 == c.0 && m[k].1 == c.1
        }
}

proof fn lemma_minute_bound(
    s: Seq<PacketSampleEntry>,
    minute: u64,
    now_ns: u64,
    wall_ns: u64,
)
    ensures
        minute_counts(s, minute, now_ns, wall_ns).0 + minute_counts(s, minute, now_ns, wall_ns).1
            <= s.len(),
    decreases s.len(),
{
    if s.len() > 0 {
        lemma_minute_bound(s.drop_last(), minute, now_ns, wall_ns);
    }
}

fn count_minutes(samples: &Vec<PacketSampleEntry>, now_ns: u64, wall_ns: u64) -> (r: HashMap<
    u64,
    (u64, u64),
>)
    ensures
        minutes_counted(r@, samples@, now_ns, wall_ns),
{
    let _n: usize = samples.len();
    let mut m: HashMap<u64, (u64, u64)> = HashMap::new();
    let mut i: usize = 0;
    while i < samples.len()
        invariant
            i <= samples@.len() <= usize::MAX,
            minutes_counted(m@, samples@.take(i as int), now_ns, wall_ns),
        decreases samples@.len() - i,
    {
        let ghost part = samples@.take(i as int);
        let ghost next = samples@.take(i + 1);
        let ghost before = m@;
        assert(next.drop_last() =~= part);
        assert(next.last() == samples@[i as int]);
        let minute: u64 = to_wall(samples[i].timestamp_ns, now_ns, wall_ns) / 60_000_000_000;
        proof {
            lemma_minute_bound(part, minute, now_ns, wall_ns);
            assert(before.contains_key(minute) <==> minute_counts(part, minute, now_ns, wall_ns).0
                + minute_counts(part, minute, now_ns, wall_ns).1 > 0);
        }
        let c: (u64, u64) = match m.get(&minute) {
            Some(c) => *c,
            None => (0, 0),
        };
        if samples[i].action == 0 {
            m.insert(minute, (c.0 + 1, c.1));
        } else {
            m.insert(minute, (c.0, c.1 + 1));
        }
        assert(minutes_counted(m@, next, now_ns, wall_ns)) by {
            assert forall|k: u64|
                #![trigger m@.contains_key(k)]
                {
                    let c: (nat, nat) = minute_counts(next, k, now_ns, wall_ns);
                    &&& m@.contains_key(k) <==> c.0 + c.1 > 0
                    &&& m@.contains_key(k) ==> m@[k].0 == c.0 && m@[k].1 == c.1
                } by {
                assert(before.contains_key(k) <==> minute_counts(part, k, now_ns, wall_ns).0
                    + minute_counts(part, k, now_ns, wall_ns).1 > 0);
            }
        }
        i = i + 1;
    }
    assert(samples@.take(samples@.len() as int) =~= samples@);
    m
}

/// The minutes of a series, from the one of `from_ns` to now.
pub open spec fn series_of(
    s: Seq<PacketSampleEntry>,
    from_ns: u64,
    now_ns: u64,
    wall_ns: u64,
) -> Seq<IpSeriesPoint> {
    let start: u64 = minute_of(from_ns, now_ns, wall_ns);
    let end: u64 = wall_ns / 60_000_000_000;
    Seq::new(
        (end - start + 1) as nat,
        |i: int| series_point(s, (start + i) as u64, now_ns, wall_ns),
    )
}

/// The samples of a source by minute.
pub fn ip_series(samples: &Vec<PacketSampleEntry>, from_ns: u64, now_ns: u64, wall_ns: u64) -> (r:
    Vec<IpSeriesPoint>)
    requires
        from_ns <= now_ns,
    ensures
        r@ == series_of(samples@, from_ns, now_ns, wall_ns),
{
    let m: HashMap<u64, (u64, u64)> = count_minutes(samples, now_ns, wall_ns);
    let start: u64 = to_wall(from_ns, now_ns, wall_ns) / 60_000_000_000;
    let end: u64 = wall_ns / 60_000_000_000;
    let mut out: Vec<IpSeriesPoint> = Vec::new();
    let mut minute: u64 = start;
    assert(start <= end);
    while minute <= end
        invariant
            start <= minute <= end + 1,
            end == wall_ns / 60_000_000_000,
            start == minute_of(from_ns, now_ns, wall_ns),
            minutes_counted(m@, samples@, now_ns, wall_ns),
            out@.len() == minute - start,
            forall|i: int|
                0 <= i < out@.len() ==> out@[i] == series_point(
                    samples@,
                    (start + i) as u64,
                    now_ns,
                    wall_ns,
                ),
        decreases end + 1 - minute,
    {
        let held: Option<(u64, u64)> = match m.get(&minute) {
            Some(c) => Some(*c),
            None => None,
        };
        assert(m@.contains_key(minute) <==> held is Some);
        let p: IpSeriesPoint = match held {
            Some(c) => IpSeriesPoint {
                timestamp: minute * 60,
                drop_count: Some(c.0),
                pass_count: Some(c.1),
            },
            None => IpSeriesPoint { timestamp: minute * 60, drop_count: None, pass_count: None },
        };
        out.push(p);
        minute = minute + 1;
    }
    assert(out@ =~= series_of(samples@, from_ns, now_ns, wall_ns));
    out
}

/// The name of a rule.
pub open spec fn rule_text(rule_id: u16) -> Seq<char> {
    if rule_id == rules::BLACKLIST {
        "黑名单"@
    } else if rule_id == rules::RATE_LIMIT {
        "速率限制"@
    } else if rule_id == rules::SYN_FLOOD {
        "SYN Flood"@
    } else if rule_id == rules::L7_PATTERN {
        "L7 指纹"@
    } else if rule_id == rules::ADAPTIVE {
        "自适应"@
    } else if rule_id == rules::PORT_ACL {
        "端口 ACL"@
    } else if rule_id == rules::UDP_FLOOD {
        "UDP Flood"@
    } else if rule_id == rules::ICMP_FLOOD {
        "ICMP Flood"@
    } else if rule_id == rules::GEOIP {
        "GeoIP"@
    } else if rule_id == rules::THREAT_INTEL {
        "威胁情报"@
    } else {
        "未知"@
    }
}

/// The name of a rule.
pub fn rule_name(rule_id: u16) -> (r: &'static str)
    ensures
        r@ == rule_text(rule_id),
{
    if rule_id == rules::BLACKLIST {
        "黑名单"
    } else if rule_id == rules::RATE_LIMIT {
        "速率限制"
    } else if rule_id == rules::SYN_FLOOD {
        "SYN Flood"
    } else if rule_id == rules::L7_PATTERN {
        "L7 指纹"
    } else if rule_id == rules::ADAPTIVE {
        "自适应"
    } else if rule_id == rules::PORT_ACL {
        "端口 ACL"
    } else if rule_id == rules::UDP_FLOOD {
        "UDP Flood"
    } else if rule_id == rules::ICMP_FLOOD {
        "ICMP Flood"
    } else if rule_id == rules::GEOIP {
        "GeoIP"
    } else if rule_id == rules::THREAT_INTEL {
        "威胁情报"
    } else {
        "未知"
    }
}

/// A drop in readable form.
#[derive(Clone, Debug)]
pub struct AttackEvent {
    pub timestamp_ns: u64,
    pub src_ip: String,
    pub protocol: u8,
    pub rule_id: u16,
    pub rule_name: &'static str,
    pub dst_port: u16,
}

/// The source of a drop in text.
pub open spec fn event_source(e: DropEvent) -> Seq<char> {
    if e.family == 4 || e.family == 6 {
        address_text(e.family, e.src_ip@)
    } else {
        "unknown"@
    }
}

/// `r` tells of the drop.
pub open spec fn tells_of(r: AttackEvent, e: DropEvent) -> bool {
    &&& r.timestamp_ns == e.timestamp_ns
    &&& r.src_ip@ == event_source(e)
    &&& r.protocol == e.protocol
    &&& r.rule_id == e.rule_id
    &&& r.rule_name@ == rule_text(e.rule_id)
    &&& r.dst_port == e.dst_port
}

fn tell(e: &DropEvent) -> (r: AttackEvent)
    ensures
        tells_of(r, *e),
{
    let src_ip: String = if e.family == 4 || e.family == 6 {
        format_ip_key(&IpKey { family: e.family, addr: e.src_ip })
    } else {
        "unknown".to_string()
    };
    AttackEvent {
        timestamp_ns: e.timestamp_ns,
        src_ip,
        protocol: e.protocol,
        rule_id: e.rule_id,
        rule_name: rule_name(e.rule_id),
        dst_port: e.dst_port,
    }
}

/// How many attack events are shown at most.
pub const MAX_SHOWN: usize = 200;

/// The latest attacks in readable form, the newest first.
pub fn attack_report(stats: &Stats, limit: usize) -> (r: Vec<AttackEvent>)
    ensures
        ({
            let n: nat = if limit < MAX_SHOWN {
                limit as nat
            } else {
                MAX_SHOWN as nat
            };
            let events: Seq<DropEvent> = last_of(stats.recent_attacks@, n).reverse();
            &&& r@.len() == events.len()
            &&& forall|i: int| 0 <= i < r@.len() ==> tells_of(#[trigger] r@[i], events[i])
        }),
{
    let n: usize = if limit < MAX_SHOWN {
        limit
    } else {
        MAX_SHOWN
    };
    let events: Vec<DropEvent> = stats.attack_events(n);
    let mut out: Vec<AttackEvent> = Vec::new();
    for i in 0..events.len()
        invariant
            out@.len() == i,
            forall|j: int| 0 <= j < i ==> tells_of(#[trigger] out@[j], events@[j]),
    {
        out.push(tell(&events[i]));
    }
    out
}

/// How much was dropped of a source at the time of a point.
pub open spec fn named_count(list: Seq<(String, u64)>, ip: Seq<char>) -> u64
    decreases list.len(),
{
    if list.len() == 0 {
        0
    } else if list[0].0@ == ip {
        list[0].1
    } else {
        named_count(list.skip(1), ip)
    }
}

fn find_count(list: &Vec<(String, u64)>, ip: &str) -> (r: u64)
    ensures
        r == named_count(list@, ip@),
{
    assert(list@.skip(0) =~= list@);
    for i in 0..list.len()
        invariant
            named_count(list@, ip@) == named_count(list@.skip(i as int), ip@),
    {
        let ghost rest = list@.skip(i as int);
        assert(rest[0] == list@[i as int]);
        assert(rest.skip(1) =~= list@.skip(i + 1));
        if same_text(list[i].0.as_str(), ip) {
            return list[i].1;
        }
    }
    0
}

/// How much was dropped of a source over time.
pub fn attacker_series(points: &[MetricPoint], ip: &str) -> (r: Vec<(u64, u64)>)
    ensures
        r@ == Seq::new(
            points@.len(),
            |i: int| (points@[i].timestamp, named_count(points@[i].top_attackers@, ip@)),
        ),
{
    let mut out: Vec<(u64, u64)> = Vec::new();
    for i in 0..points.len()
        invariant
            out@.len() == i,
            forall|j: int|
                0 <= j < i ==> out@[j] == (
                    points@[j].timestamp,
                    named_count(points@[j].top_attackers@, ip@),
                ),
    {
        out.push((points[i].timestamp, find_count(&points[i].top_attackers, ip)));
    }
    out
}

/// A sample from the span of a series falls into one of its minutes.
pub proof fn law_series_covers_recent_samples(t: u64, from_ns: u64, now_ns: u64, wall_ns: u64)
    requires
        from_ns <= t <= now_ns,
    ensures
        minute_of(from_ns, now_ns, wall_ns) <= minute_of(t, now_ns, wall_ns),
        minute_of(t, now_ns, wall_ns) <= wall_ns / 60_000_000_000,
{
}

} // verus!
