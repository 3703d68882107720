//! Bringing the numbers of the packet path into the counters of the node.

use crate::common::CookieSecret;
use crate::common::GlobalStats;
use crate::common::IpKey;
use crate::common::RuntimeConfig;
use crate::common::TrustEntry;
use crate::dataplane::syn_cookie::checking_secret;
use crate::dataplane::syn_cookie::BUCKET_DURATION_S;
use crate::maps::counts_clear;
use crate::maps::counts_held;
use crate::maps::counts_insert;
use crate::maps::ip_index_key;
use crate::maps::key_octets;
use crate::node::stats::Stats;
use crate::node::timeseries::growth;
use crate::node::timeseries::MetricPoint;
use crate::outside::random_octets;
use vstd::prelude::*;

verus! {

/// The counters of two processors taken together. Counters wrap.
pub open spec fn joined(a: GlobalStats, b: GlobalStats) -> GlobalStats {
    GlobalStats {
        total_packets: a.total_packets.wrapping_add(b.total_packets),
        total_dropped: a.total_dropped.wrapping_add(b.total_dropped),
        total_passed: a.total_passed.wrapping_add(b.total_passed),
        syn_flood_blocked: a.syn_flood_blocked.wrapping_add(b.syn_flood_blocked),
        rate_limited: a.rate_limited.wrapping_add(b.rate_limited),
        l7_blocked: a.l7_blocked.wrapping_add(b.l7_blocked),
        udp_flood_blocked: a.udp_flood_blocked.wrapping_add(b.udp_flood_blocked),
        icmp_flood_blocked: a.icmp_flood_blocked.wrapping_add(b.icmp_flood_blocked),
        geoip_blocked: a.geoip_blocked.wrapping_add(b.geoip_blocked),
        blacklist_blocked: a.blacklist_blocked.wrapping_add(b.blacklist_blocked),
        tcp_rst_sent: a.tcp_rst_sent.wrapping_add(b.tcp_rst_sent),
        tcp_rst_fail: a.tcp_rst_fail.wrapping_add(b.tcp_rst_fail),
        tcp_rst_attempt: a.tcp_rst_attempt.wrapping_add(b.tcp_rst_attempt),
        tcp_dropped: a.tcp_dropped.wrapping_add(b.tcp_dropped),
        udp_dropped: a.udp_dropped.wrapping_add(b.udp_dropped),
        icmp_dropped: a.icmp_dropped.wrapping_add(b.icmp_dropped),
        other_dropped: a.other_dropped.wrapping_add(b.other_dropped),
        waf_blocked: a.waf_blocked.wrapping_add(b.waf_blocked),
        challenge_issued: a.challenge_issued.wrapping_add(b.challenge_issued),
        conn_track_blocked: a.conn_track_blocked.wrapping_add(b.conn_track_blocked),
    }
}

/// The counters of all processors taken together.
pub open spec fn total_of(values: Seq<GlobalStats>) -> GlobalStats
    decreases values.len(),
{
    if values.len() == 0 {
        GlobalStats::zero()
    } else {
        joined(total_of(values.drop_last()), values.last())
    }
}

fn join(a: &GlobalStats, b: &GlobalStats) -> (r: GlobalStats)
    ensures
        r == joined(*a, *b),
{
    GlobalStats {
        total_packets: a.total_packets.wrapping_add(b.total_packets),
        total_dropped: a.total_dropped.wrapping_add(b.total_dropped),
        total_passed: a.total_passed.wrapping_add(b.total_passed),
        syn_flood_blocked: a.syn_flood_blocked.wrapping_add(b.syn_flood_blocked),
        rate_limited: a.rate_limited.wrapping_add(b.rate_limited),
        l7_blocked: a.l7_blocked.wrapping_add(b.l7_blocked),
        udp_flood_blocked: a.udp_flood_blocked.wrapping_add(b.udp_flood_blocked),
        icmp_flood_blocked: a.icmp_flood_blocked.wrapping_add(b.icmp_flood_blocked),
        geoip_blocked: a.geoip_blocked.wrapping_add(b.geoip_blocked),
        blacklist_blocked: a.blacklist_blocked.wrapping_add(b.blacklist_blocked),
        tcp_rst_sent: a.tcp_rst_sent.wrapping_add(b.tcp_rst_sent),
        tcp_rst_fail: a.tcp_rst_fail.wrapping_add(b.tcp_rst_fail),
        tcp_rst_attempt: a.tcp_rst_attempt.wrapping_add(b.tcp_rst_attempt),
        tcp_dropped: a.tcp_dropped.wrapping_add(b.tcp_dropped),
        udp_dropped: a.udp_dropped.wrapping_add(b.udp_dropped),
        icmp_dropped: a.icmp_dropped.wrapping_add(b.icmp_dropped),
        other_dropped: a.other_dropped.wrapping_add(b.other_dropped),
        waf_blocked: a.waf_blocked.wrapping_add(b.waf_blocked),
        challenge_issued: a.challenge_issued.wrapping_add(b.challenge_issued),
        conn_track_blocked: a.conn_track_blocked.wrapping_add(b.conn_track_blocked),
    }
}

/// The counters of all processors taken together.
pub fn total(values: &Vec<GlobalStats>) -> (r: GlobalStats)
    ensures
        r == total_of(values@),
{
    let mut acc: GlobalStats = GlobalStats::default();
    for i in 0..values.len()
        invariant
            acc == total_of(values@.take(i as int)),
    {
        assert(values@.take(i + 1).drop_last() == values@.take(i as int));
        assert(values@.take(i + 1).last() == values@[i as int]);
        acc = join(&acc, &values[i]);
    }
    assert(values@.take(values@.len() as int) == values@);
    acc
}

/// The totals at the last reading, from which the rates are taken.
pub struct GlobalSync {
    pub last_packets: u64,
    pub last_dropped: u64,
}

impl GlobalSync {
    pub fn new() -> (r: Self)
        ensures
            r.last_packets == 0,
            r.last_dropped == 0,
    {
        GlobalSync { last_packets: 0, last_dropped: 0 }
    }

    /// Takes over the counters of all processors, read a second after the last reading.
    pub fn sync_global_stats(&mut self, stats: &mut Stats, values: &Vec<GlobalStats>)
        ensures
            ({
                let t: GlobalStats = total_of(values@);
                &&& *final(stats) == (Stats {
                    total_packets: t.total_packets,
                    total_dropped: t.total_dropped,
                    total_passed: t.total_passed,
                    syn_flood_blocked: t.syn_flood_blocked,
                    rate_limited: t.rate_limited,
                    l7_blocked: t.l7_blocked,
                    udp_flood_blocked: t.udp_flood_blocked,
                    icmp_flood_blocked: t.icmp_flood_blocked,
                    geoip_blocked: t.geoip_blocked,
                    blacklist_blocked: t.blacklist_blocked,
                    tcp_rst_sent: t.tcp_rst_sent,
                    tcp_rst_fail: t.tcp_rst_fail,
                    tcp_rst_attempt: t.tcp_rst_attempt,
                    tcp_dropped: t.tcp_dropped,
                    udp_dropped: t.udp_dropped,
                    icmp_dropped: t.icmp_dropped,
                    other_dropped: t.other_dropped,
                    waf_blocked: t.waf_blocked,
                    challenge_issued: t.challenge_issued,
                    conn_track_blocked: t.conn_track_blocked,
                    current_pps: growth(t.total_packets, old(self).last_packets),
                    current_dps: growth(t.total_dropped, old(self).last_dropped),
                    ..*old(stats)
                })
                &&& final(self).last_packets == t.total_packets
                &&& final(self).last_dropped == t.total_dropped
            }),
    {
        let acc: GlobalStats = total(values);
        stats.total_packets = acc.total_packets;
        stats.total_dropped = acc.total_dropped;
        stats.total_passed = acc.total_passed;
        stats.syn_flood_blocked = acc.syn_flood_blocked;
        stats.rate_limited = acc.rate_limited;
        stats.l7_blocked = acc.l7_blocked;
        stats.udp_flood_blocked = acc.udp_flood_blocked;
        stats.icmp_flood_blocked = acc.icmp_flood_blocked;
        stats.geoip_blocked = acc.geoip_blocked;
        stats.blacklist_blocked = acc.blacklist_blocked;
        stats.tcp_rst_sent = acc.tcp_rst_sent;
        stats.tcp_rst_fail = acc.tcp_rst_fail;
        stats.tcp_rst_attempt = acc.tcp_rst_attempt;
        stats.tcp_dropped = acc.tcp_dropped;
        stats.udp_dropped = acc.udp_dropped;
        stats.icmp_dropped = acc.icmp_dropped;
        stats.other_dropped = acc.other_dropped;
        stats.waf_blocked = acc.waf_blocked;
        stats.challenge_issued = acc.challenge_issued;
        stats.conn_track_blocked = acc.conn_track_blocked;
        stats.current_pps = acc.total_packets.saturating_sub(self.last_packets);
        stats.current_dps = acc.total_dropped.saturating_sub(self.last_dropped);
        self.last_packets = acc.total_packets;
        self.last_dropped = acc.total_dropped;
    }
}

/// How many entries have the level.
pub open spec fn level_count(entries: Seq<TrustEntry>, level: u8) -> nat
    decreases entries.len(),
{
    if entries.len() == 0 {
        0
    } else {
        level_count(entries.drop_last(), level) + if entries.last().level == level {
            1nat
        } else {
            0nat
        }
    }
}

/// Counts the sources by the level of their reputation.
pub fn sync_trust_scores(stats: &mut Stats, entries: &Vec<TrustEntry>)
    ensures
        final(stats).trust_trusted == level_count(entries@, 1),
        final(stats).trust_neutral == level_count(entries@, 2),
        final(stats).trust_suspicious == level_count(entries@, 3),
        final(stats).trust_malicious == level_count(entries@, 4),
        *final(stats) == (Stats {
            trust_trusted: final(stats).trust_trusted,
            trust_neutral: final(stats).trust_neutral,
            trust_suspicious: final(stats).trust_suspicious,
            trust_malicious: final(stats).trust_malicious,
            ..*old(stats)
        }),
{
    let _n: usize = entries.len();
    let mut trusted: u64 = 0;
    let mut neutral: u64 = 0;
    let mut suspicious: u64 = 0;
    let mut malicious: u64 = 0;
    for i in 0..entries.len()
        invariant
            trusted == level_count(entries@.take(i as int), 1),
            neutral == level_count(entries@.take(i as int), 2),
            suspicious == level_count(entries@.take(i as int), 3),
            malicious == level_count(entries@.take(i as int), 4),
            trusted <= i,
            neutral <= i,
            suspicious <= i,
            malicious <= i,
    {
        assert(entries@.take(i + 1).drop_last() == entries@.take(i as int));
        assert(entries@.take(i + 1).last() == entries@[i as int]);
        let level: u8 = entries[i].level;
        if level == 1 {
            trusted = trusted + 1;
        } else if level == 2 {
            neutral = neutral + 1;
        } else if level == 3 {
            suspicious = suspicious + 1;
        } else if level == 4 {
            malicious = malicious + 1;
        }
    }
    assert(entries@.take(entries@.len() as int) == entries@);
    stats.trust_trusted = trusted;
    stats.trust_neutral = neutral;
    stats.trust_suspicious = suspicious;
    stats.trust_malicious = malicious;
}

/// What a list of sources with their numbers holds; a number of 0 does not count and the
/// last number of a source does.
pub open spec fn attackers_of(entries: Seq<(IpKey, u64)>) -> Map<Seq<u8>, u64>
    decreases entries.len(),
{
    if entries.len() == 0 {
        Map::empty()
    } else if entries.last().1 > 0 {
        attackers_of(entries.drop_last()).insert(key_octets(entries.last().0), entries.last().1)
    } else {
        attackers_of(entries.drop_last())
    }
}

/// Takes over the sources that the packet path saw most of.
pub fn sync_top_attackers(stats: &mut Stats, entries: &Vec<(IpKey, u64)>)
    ensures
        counts_held(final(stats).top_attackers) == attackers_of(entries@),
        *final(stats) == (Stats { top_attackers: final(stats).top_attackers, ..*old(stats) }),
{
    counts_clear(&mut stats.top_attackers);
    assert(counts_held(stats.top_attackers) =~= attackers_of(entries@.take(0)));
    for i in 0..entries.len()
        invariant
            counts_held(stats.top_attackers) == attackers_of(entries@.take(i as int)),
            *stats == (Stats { top_attackers: stats.top_attackers, ..*old(stats) }),
    {
        assert(entries@.take(i + 1).drop_last() == entries@.take(i as int));
        assert(entries@.take(i + 1).last() == entries@[i as int]);
        if entries[i].1 > 0 {
            counts_insert(&mut stats.top_attackers, &ip_index_key(&entries[i].0), entries[i].1);
        }
    }
    assert(entries@.take(entries@.len() as int) == entries@);
}

/// The secrets of a node that starts with these octets.
pub open spec fn first_secret(now_s: u64, current: [u8; 16], previous: [u8; 16]) -> CookieSecret {
    CookieSecret { current, previous, bucket_index: now_s / 60 }
}

/// The secrets that a node starts with, from octets that nobody knows.
pub fn first_with(now_s: u64, current: [u8; 16], previous: [u8; 16]) -> (r: CookieSecret)
    ensures
        r == first_secret(now_s, current, previous),
{
    CookieSecret { current, previous, bucket_index: now_s / BUCKET_DURATION_S }
}

/// The secrets that a node starts with.
pub fn first_cookie_secret(now_s: u64) -> (r: CookieSecret)
    ensures
        exists|current: [u8; 16], previous: [u8; 16]|
            r == #[trigger] first_secret(now_s, current, previous),
{
    let current: [u8; 16] = random_octets();
    let previous: [u8; 16] = random_octets();
    first_with(now_s, current, previous)
}

/// What the secrets become with fresh octets, where their bucket is over.
pub open spec fn rotates_to(s: CookieSecret, now_s: u64, fresh: [u8; 16]) -> Option<CookieSecret> {
    if now_s / 60 <= s.bucket_index {
        None
    } else {
        Some(CookieSecret { current: fresh, previous: s.current, bucket_index: now_s / 60 })
    }
}

/// What the secrets in the table become; nothing where it could not be read.
pub open spec fn rotated(held: Option<CookieSecret>, now_s: u64, fresh: [u8; 16]) -> Option<
    CookieSecret,
> {
    match held {
        Some(s) => rotates_to(s, now_s, fresh),
        None => None,
    }
}

/// The secrets after those in the table, where their bucket is over.
pub fn rotate_with(held: Option<CookieSecret>, now_s: u64, fresh: [u8; 16]) -> (r: Option<
    CookieSecret,
>)
    ensures
        r == rotated(held, now_s, fresh),
{
    match held {
        Some(s) => {
            let bucket: u64 = now_s / BUCKET_DURATION_S;
            if bucket <= s.bucket_index {
                return None;
            }
            Some(CookieSecret { current: fresh, previous: s.current, bucket_index: bucket })
        },
        None => None,
    }
}

/// The secrets after those in the table, with fresh octets, where their bucket is over.
pub fn rotate_cookie_secrets(held: Option<CookieSecret>, now_s: u64) -> (r: Option<CookieSecret>)
    ensures
        exists|fresh: [u8; 16]| r == #[trigger] rotated(held, now_s, fresh),
{
    let fresh: [u8; 16] = random_octets();
    rotate_with(held, now_s, fresh)
}

/// A cookie of the bucket before is still checked with the secret that made it when the
/// secrets rotate in time.
pub proof fn law_rotation_keeps_last_cookies(s: CookieSecret, now_s: u64, fresh: [u8; 16])
    requires
        now_s / 60 == s.bucket_index + 1,
    ensures
        rotates_to(s, now_s, fresh) is Some,
        checking_secret(rotates_to(s, now_s, fresh)->0, s.bucket_index) == checking_secret(
            s,
            s.bucket_index,
        ),
        checking_secret(rotates_to(s, now_s, fresh)->0, (s.bucket_index + 1) as u64) == Some(
            fresh@,
        ),
{
}

/// The switches with another danger level.
pub fn with_danger_level(config: RuntimeConfig, level: u8) -> (r: RuntimeConfig)
    ensures
        r == (RuntimeConfig { danger_level: level, ..config }),
{
    let mut next: RuntimeConfig = config;
    next.danger_level = level;
    next
}

/// The time from which on points are kept.
pub open spec fn kept_since(now: u64, days: u64) -> u64 {
    growth(
        now,
        if days * 86400 > u64::MAX {
            u64::MAX
        } else {
            (days * 86400) as u64
        },
    )
}

pub fn retention_start(now: u64, days: u64) -> (r: u64)
    ensures
        r == kept_since(now, days),
{
    let kept: u64 = match days.checked_mul(86400) {
        Some(s) => s,
        None => u64::MAX,
    };
    now.saturating_sub(kept)
}

/// The points that are not ahead of the clock; others are from before the last boot.
pub open spec fn points_until(points: Seq<MetricPoint>, now: u64) -> Seq<MetricPoint>
    decreases points.len(),
{
    if points.len() == 0 {
        points
    } else if points.last().timestamp <= now {
        points_until(points.drop_last(), now).push(points.last())
    } else {
        points_until(points.drop_last(), now)
    }
}

/// Drops the points that are ahead of the clock.
pub fn drop_future_points(points: Vec<MetricPoint>, now: u64) -> (r: Vec<MetricPoint>)
    ensures
        r@ == points_until(points@, now),
{
    let ghost all = points@;
    let mut rest: Vec<MetricPoint> = points;
    let mut i: usize = rest.len();
    let ghost tail: Seq<MetricPoint> = Seq::empty();
    assert(all.take(i as int) =~= all);
    assert(points_until(all, now) =~= points_until(all.take(i as int), now) + tail);
    assert(rest@ =~= all.take(i as int) + tail);
    while i > 0
        invariant
            i <= all.len(),
            i <= rest@.len(),
            rest@ == all.take(i as int) + tail,
            points_until(all, now) == points_until(all.take(i as int), now) + tail,
        decreases i,
    {
        i = i - 1;
        let ghost before = all.take(i + 1);
        let ghost old_tail = tail;
        assert(before.drop_last() =~= all.take(i as int));
        assert(before.last() == all[i as int]);
        assert(rest@[i as int] == all[i as int]);
        if rest[i].timestamp > now {
            rest.remove(i);
            assert(rest@ =~= all.take(i as int) + tail);
        } else {
            proof {
                tail = seq![all[i as int]] + tail;
            }
            assert(rest@ =~= all.take(i as int) + tail);
            assert(points_until(all, now) =~= points_until(all.take(i as int), now) + tail);
        }
    }
    assert(points_until(all.take(0), now) + tail =~= tail);
    assert(rest@ =~= tail);
    rest
}

} // verus!
