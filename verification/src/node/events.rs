//! Batches of drop events from the packet path.

use crate::common::lemma_key_ext;
use crate::common::BlockEntry;
use crate::common::DropEvent;
use crate::common::IpKey;
use crate::key_table::law_entries_show_map;
use crate::key_table::KeyTable;
use crate::maps::counts_held;
use crate::maps::key_octets;
use crate::maps::law_keys_tell_addresses;
use crate::maps::ports_held;
use crate::maps::times_held;
use crate::node::adaptive::end_s;
use crate::node::adaptive::AdaptiveEngine;
use crate::node::stats::held_at;
use crate::node::stats::last_of;
use crate::node::stats::port_after;
use crate::node::stats::Stats;
use crate::node::stats::MAX_ATTACKS;
use crate::rules;
use std::collections::HashMap;
use vstd::prelude::*;
use vstd::std_specs::hash::group_hash_axioms;

verus! {

broadcast use group_hash_axioms;

/// How many events are taken at once.
pub const MAX_BATCH: usize = 4096;

/// How much older than the program an event may be, in nanoseconds.
pub const STALE_SLACK_NS: u64 = 1_000_000_000;

/// The event is not left over from before the program started.
pub open spec fn is_fresh(e: DropEvent, program_start_ns: u64) -> bool {
    program_start_ns == 0 || e.timestamp_ns + STALE_SLACK_NS >= program_start_ns
}

/// The events that count, in order.
pub open spec fn fresh_of(events: Seq<DropEvent>, program_start_ns: u64) -> Seq<DropEvent>
    decreases events.len(),
{
    if events.len() == 0 {
        events
    } else if is_fresh(events.last(), program_start_ns) {
        fresh_of(events.drop_last(), program_start_ns).push(events.last())
    } else {
        fresh_of(events.drop_last(), program_start_ns)
    }
}

/// The event names a source of a known family.
pub open spec fn has_source(e: DropEvent) -> bool {
    e.family == 4 || e.family == 6
}

/// `k` is the source that the event names.
pub open spec fn comes_from(e: DropEvent, k: IpKey) -> bool {
    if e.family == 4 {
        k.is_v4(e.src_ip@.skip(12))
    } else if e.family == 6 {
        k.is(6, e.src_ip@)
    } else {
        false
    }
}

/// The packet path has dealt with the sources of these rules itself.
pub open spec fn is_settled(rule_id: u16) -> bool {
    ||| rule_id == rules::GEOIP
    ||| rule_id == rules::SYN_FLOOD
    ||| rule_id == rules::UDP_FLOOD
    ||| rule_id == rules::ICMP_FLOOD
    ||| rule_id == rules::BLACKLIST
}

/// How many events with a known source were for the port.
pub open spec fn count_port(events: Seq<DropEvent>, port: u16) -> nat
    decreases events.len(),
{
    if events.len() == 0 {
        0
    } else {
        count_port(events.drop_last(), port) + if has_source(events.last())
            && events.last().dst_port == port {
            1nat
        } else {
            0nat
        }
    }
}

/// How many events of the source are for the adaptive engine.
pub open spec fn count_source(events: Seq<DropEvent>, k: IpKey) -> nat
    decreases events.len(),
{
    if events.len() == 0 {
        0
    } else {
        count_source(events.drop_last(), k) + if comes_from(events.last(), k) && !is_settled(
            events.last().rule_id,
        ) {
            1nat
        } else {
            0nat
        }
    }
}

/// The numbers by port are those of the events.
pub open spec fn ports_counted(m: Map<u16, u64>, events: Seq<DropEvent>) -> bool {
    forall|p: u16|
        #![trigger m.contains_key(p)]
        (m.contains_key(p) <==> count_port(events, p) > 0) && (m.contains_key(p) ==> m[p]
            == count_port(events, p))
}

/// The numbers by source are those of the events.
pub open spec fn sources_counted(m: Map<IpKey, u64>, events: Seq<DropEvent>) -> bool {
    forall|k: IpKey|
        #![trigger m.contains_key(k)]
        (m.contains_key(k) <==> count_source(events, k) > 0) && (m.contains_key(k) ==> m[k]
            == count_source(events, k))
}

/// A batch of events.
pub struct Batch {
    /// The events that count.
    pub events: Vec<DropEvent>,
    /// How many of them were for each destination port.
    pub by_port: HashMap<u16, u64>,
    /// How many of them the adaptive engine is to hear of, by source.
    pub by_source: KeyTable<u64>,
}

fn fresh_events(events: &Vec<DropEvent>, program_start_ns: u64) -> (r: Vec<DropEvent>)
    ensures
        r@ == fresh_of(events@, program_start_ns),
        r@.len() <= events@.len(),
{
    let mut out: Vec<DropEvent> = Vec::new();
    for i in 0..events.len()
        invariant
            out@ == fresh_of(events@.take(i as int), program_start_ns),
            out@.len() <= i,
    {
        let e: DropEvent = events[i];
        assert(events@.take(i + 1).drop_last() == events@.take(i as int));
        assert(events@.take(i + 1).last() == events@[i as int]);
        if !(program_start_ns != 0 && e.timestamp_ns.saturating_add(STALE_SLACK_NS)
            < program_start_ns) {
            out.push(e);
        }
    }
    assert(events@.take(events@.len() as int) == events@);
    out
}

fn source_of(e: &DropEvent) -> (r: Option<IpKey>)
    ensures
        match r {
            Some(k) => has_source(*e) && comes_from(*e, k),
            None => !has_source(*e),
        },
{
    if e.family == 4 {
        let o: [u8; 4] = [e.src_ip[12], e.src_ip[13], e.src_ip[14], e.src_ip[15]];
        assert(o@ =~= e.src_ip@.skip(12));
        Some(IpKey::from_ipv4(o))
    } else if e.family == 6 {
        Some(IpKey::from_ipv6(e.src_ip))
    } else {
        None
    }
}

proof fn lemma_one_source(e: DropEvent, a: IpKey, b: IpKey)
    requires
        comes_from(e, a),
        comes_from(e, b),
    ensures
        a == b,
{
    if e.family == 4 {
        lemma_key_ext(a, b, 4, IpKey::mapped(e.src_ip@.skip(12)));
    } else {
        lemma_key_ext(a, b, 6, e.src_ip@);
    }
}

/// Takes the stale events out of a batch and counts the others by port and, where the
/// adaptive engine listens, by source.
pub fn digest(events: &Vec<DropEvent>, program_start_ns: u64, adaptive: bool) -> (r: Batch)
    ensures
        r.events@ == fresh_of(events@, program_start_ns),
        ports_counted(r.by_port@, r.events@),
        r.by_source.wf(),
        adaptive ==> sources_counted(r.by_source.map(), r.events@),
        !adaptive ==> r.by_source.map() == Map::<IpKey, u64>::empty(),
{
    let fresh: Vec<DropEvent> = fresh_events(events, program_start_ns);
    let _n: usize = fresh.len();
    let mut by_port: HashMap<u16, u64> = HashMap::new();
    let mut by_source: KeyTable<u64> = KeyTable::new();
    let mut i: usize = 0;
    while i < fresh.len()
        invariant
            i <= fresh@.len(),
            by_source.wf(),
            ports_counted(by_port@, fresh@.take(i as int)),
            adaptive ==> sources_counted(by_source.map(), fresh@.take(i as int)),
            !adaptive ==> by_source.map() == Map::<IpKey, u64>::empty(),
            forall|p: u16| #[trigger] count_port(fresh@.take(i as int), p) <= i,
            forall|k: IpKey| #[trigger] count_source(fresh@.take(i as int), k) <= i,
        decreases fresh@.len() - i,
    {
        let ghost part = fresh@.take(i as int);
        let ghost next = fresh@.take(i + 1);
        let e: DropEvent = fresh[i];
        assert(next.drop_last() =~= part);
        assert(next.last() == e);
        assert forall|p: u16| #[trigger] count_port(next, p) <= i + 1 by {
            assert(count_port(part, p) <= i);
        }
        assert forall|k: IpKey| #[trigger] count_source(next, k) <= i + 1 by {
            assert(count_source(part, k) <= i);
        }
        if let Some(src) = source_of(&e) {
            let ghost ports = by_port@;
            let seen: u64 = match by_port.get(&e.dst_port) {
                Some(n) => *n,
                None => 0,
            };
            assert(count_port(part, e.dst_port) <= i);
            assert(ports.contains_key(e.dst_port) ==> ports[e.dst_port] == count_port(
                part,
                e.dst_port,
            ));
            by_port.insert(e.dst_port, seen + 1);
            assert(ports_counted(by_port@, next)) by {
                assert forall|p: u16|
                    #![trigger by_port@.contains_key(p)]
                    (by_port@.contains_key(p) <==> count_port(next, p) > 0) && (
                    by_port@.contains_key(p) ==> by_port@[p] == count_port(next, p)) by {
                    assert(ports.contains_key(p) <==> count_port(part, p) > 0);
                }
            }
            let ghost sources = by_source.map();
            let settled: bool = e.rule_id == rules::GEOIP || e.rule_id == rules::SYN_FLOOD
                || e.rule_id == rules::UDP_FLOOD || e.rule_id == rules::ICMP_FLOOD || e.rule_id
                == rules::BLACKLIST;
            if adaptive && !settled {
                let count: u64 = match by_source.get(&src) {
                    Some(n) => *n,
                    None => 0,
                };
                assert(count_source(part, src) <= i);
                assert(sources.contains_key(src) ==> sources[src] == count_source(part, src));
                by_source.put(&src, count + 1);
            }
            assert(adaptive ==> sources_counted(by_source.map(), next)) by {
                assert forall|k: IpKey|
                    #![trigger by_source.map().contains_key(k)]
                    adaptive implies (by_source.map().contains_key(k) <==> count_source(next, k)
                    > 0) && (by_source.map().contains_key(k) ==> by_source.map()[k]
                    == count_source(next, k)) by {
                    assert(sources.contains_key(k) <==> count_source(part, k) > 0);
                    if comes_from(e, k) {
                        lemma_one_source(e, k, src);
                    }
                }
            }
        } else {
            assert(ports_counted(by_port@, next)) by {
                assert forall|p: u16|
                    #![trigger by_port@.contains_key(p)]
                    (by_port@.contains_key(p) <==> count_port(next, p) > 0) && (
                    by_port@.contains_key(p) ==> by_port@[p] == count_port(next, p)) by {
                    assert(by_port@.contains_key(p) <==> count_port(part, p) > 0);
                }
            }
            assert(adaptive ==> sources_counted(by_source.map(), next)) by {
                assert forall|k: IpKey|
                    #![trigger by_source.map().contains_key(k)]
                    adaptive implies (by_source.map().contains_key(k) <==> count_source(next, k)
                    > 0) && (by_source.map().contains_key(k) ==> by_source.map()[k]
                    == count_source(next, k)) by {
                    assert(by_source.map().contains_key(k) <==> count_source(part, k) > 0);
                }
            }
        }
        i = i + 1;
    }
    assert(fresh@.take(fresh@.len() as int) =~= fresh@);
    Batch { events: fresh, by_port, by_source }
}

/// What the engine holds of a source after it heard of `count` events of it.
pub open spec fn heard(
    after: AdaptiveEngine,
    before: AdaptiveEngine,
    k: IpKey,
    count: nat,
    now_s: u64,
    now_ns: u64,
) -> bool {
    let o: Seq<u8> = key_octets(k);
    let n: u64 = count as u64;
    &&& if count > 0 && before.counts(k, now_s) {
        times_held(after.windows).contains_key(o) && times_held(after.windows)[o]
            == before.window_with(k, n, now_s)
    } else {
        times_held(after.windows).contains_key(o) == times_held(before.windows).contains_key(o)
            && times_held(after.windows)[o] == times_held(before.windows)[o]
    }
    &&& if count > 0 && before.verdict(k, n, now_s, now_ns) is Some {
        counts_held(after.blocked).contains_key(o) && counts_held(after.blocked)[o] == end_s(
            now_s,
            before.config.block_duration_s,
        )
    } else {
        counts_held(after.blocked).contains_key(o) == counts_held(before.blocked).contains_key(o)
            && counts_held(after.blocked)[o] == counts_held(before.blocked)[o]
    }
}

/// The list holds the block of each source that gets one, and each once.
pub open spec fn lists_blocks(
    blocks: Seq<(IpKey, BlockEntry)>,
    before: AdaptiveEngine,
    counts: Map<IpKey, u64>,
    now_s: u64,
    now_ns: u64,
) -> bool {
    &&& forall|i: int|
        0 <= i < blocks.len() ==> counts.contains_key((#[trigger] blocks[i]).0) && before.verdict(
            blocks[i].0,
            counts[blocks[i].0],
            now_s,
            now_ns,
        ) == Some(blocks[i].1)
    &&& forall|i: int, j: int|
        #![trigger blocks[i], blocks[j]]
        0 <= i < j < blocks.len() ==> blocks[i].0 != blocks[j].0
    &&& forall|k: IpKey| #[trigger]
        counts.contains_key(k) && before.verdict(k, counts[k], now_s, now_ns) is Some ==> exists|
            i: int,
        |
            0 <= i < blocks.len() && (#[trigger] blocks[i]).0 == k
}

/// How many events of a source a table tells of.
pub open spec fn told(counts: Map<IpKey, u64>, k: IpKey) -> nat {
    if counts.contains_key(k) {
        counts[k] as nat
    } else {
        0
    }
}

/// The sources at the first `n` places of a table.
pub open spec fn among(entries: Seq<(IpKey, u64)>, n: int, k: IpKey) -> bool {
    exists|j: int| 0 <= j < n && (#[trigger] entries[j]).0 == k
}

/// How many events of a source the first `n` places of a table tell of.
pub open spec fn told_by(counts: Map<IpKey, u64>, entries: Seq<(IpKey, u64)>, n: int, k: IpKey) -> nat {
    if among(entries, n, k) {
        told(counts, k)
    } else {
        0
    }
}

proof fn lemma_other_source(
    mid: AdaptiveEngine,
    after: AdaptiveEngine,
    before: AdaptiveEngine,
    src: IpKey,
    n: u64,
    k: IpKey,
    count: nat,
    now_s: u64,
    now_ns: u64,
)
    requires
        after.follows(mid, src, n, now_s, now_ns),
        heard(mid, before, k, count, now_s, now_ns),
        k != src,
    ensures
        heard(after, before, k, count, now_s, now_ns),
{
    law_keys_tell_addresses(k, src);
}

proof fn lemma_this_source(
    mid: AdaptiveEngine,
    after: AdaptiveEngine,
    before: AdaptiveEngine,
    src: IpKey,
    n: u64,
    now_s: u64,
    now_ns: u64,
)
    requires
        after.follows(mid, src, n, now_s, now_ns),
        heard(mid, before, src, 0, now_s, now_ns),
        mid.config == before.config,
        n > 0,
    ensures
        heard(after, before, src, n as nat, now_s, now_ns),
        mid.verdict(src, n, now_s, now_ns) == before.verdict(src, n, now_s, now_ns),
{
    assert(mid.counts(src, now_s) == before.counts(src, now_s));
    assert(mid.window_with(src, n, now_s) == before.window_with(src, n, now_s));
}

/// Tells the engine of the events of each source; returns the blocks that it gives.
pub fn tell_engine(engine: &mut AdaptiveEngine, sources: &KeyTable<u64>, now_s: u64, now_ns: u64)
    -> (r: Vec<(IpKey, BlockEntry)>)
    requires
        sources.wf(),
        forall|i: int|
            0 <= i < sources.entries@.len() ==> (#[trigger] sources.entries@[i]).1 > 0,
    ensures
        lists_blocks(r@, *old(engine), sources.map(), now_s, now_ns),
        final(engine).config == old(engine).config,
        forall|k: IpKey| #[trigger]
            heard(*final(engine), *old(engine), k, told(sources.map(), k), now_s, now_ns),
{
    let ghost before = *engine;
    let ghost counts = sources.map();
    let ghost entries = sources.entries@;
    proof {
        law_entries_show_map(entries);
    }
    let mut out: Vec<(IpKey, BlockEntry)> = Vec::new();
    let mut i: usize = 0;
    while i < sources.entries.len()
        invariant
            i <= entries.len(),
            sources.wf(),
            entries == sources.entries@,
            counts == sources.map(),
            forall|j: int| 0 <= j < entries.len() ==> (#[trigger] entries[j]).1 > 0,
            forall|j: int|
                0 <= j < entries.len() ==> counts.contains_key((#[trigger] entries[j]).0)
                    && counts[entries[j].0] == entries[j].1,
            engine.config == before.config,
            forall|k: IpKey| #[trigger]
                heard(
                    *engine,
                    before,
                    k,
                    told_by(counts, entries, i as int, k),
                    now_s,
                    now_ns,
                ),
            forall|j: int|
                0 <= j < out@.len() ==> counts.contains_key((#[trigger] out@[j]).0)
                    && before.verdict(out@[j].0, counts[out@[j].0], now_s, now_ns) == Some(out@[j].1)
                    && among(entries, i as int, out@[j].0),
            forall|a: int, b: int|
                #![trigger out@[a], out@[b]]
                0 <= a < b < out@.len() ==> out@[a].0 != out@[b].0,
            forall|k: IpKey| #[trigger]
                among(entries, i as int, k) && before.verdict(k, counts[k], now_s, now_ns) is Some
                    ==> exists|j: int| 0 <= j < out@.len() && (#[trigger] out@[j]).0 == k,
        decreases entries.len() - i,
    {
        let ghost mid = *engine;
        let ghost shown = out@;
        let src: IpKey = sources.entries[i].0;
        let n: u64 = sources.entries[i].1;
        proof {
            assert(entries[i as int].0 == src);
            if among(entries, i as int, src) {
                let j: int = choose|j: int| 0 <= j < i && (#[trigger] entries[j]).0 == src;
                assert(entries[j].0 != entries[i as int].0);
            }
            assert(heard(
                mid,
                before,
                src,
                told_by(counts, entries, i as int, src),
                now_s,
                now_ns,
            ));
        }
        let verdict: Option<BlockEntry> = engine.on_events(&src, n, now_s, now_ns);
        proof {
            lemma_this_source(mid, *engine, before, src, n, now_s, now_ns);
            assert forall|k: IpKey| #[trigger]
                heard(
                    *engine,
                    before,
                    k,
                    told_by(counts, entries, i + 1, k),
                    now_s,
                    now_ns,
                ) by {
                if k == src {
                    assert(among(entries, i + 1, k)) by {
                        assert(entries[i as int].0 == k);
                    }
                } else {
                    lemma_among_next(entries, i as int, k);
                    let c: nat = told_by(counts, entries, i as int, k);
                    assert(heard(mid, before, k, c, now_s, now_ns));
                    lemma_other_source(mid, *engine, before, src, n, k, c, now_s, now_ns);
                }
            }
        }
        if let Some(entry) = verdict {
            out.push((src, entry));
        }
        proof {
            assert forall|j: int| 0 <= j < out@.len() implies counts.contains_key(
                (#[trigger] out@[j]).0,
            ) && before.verdict(out@[j].0, counts[out@[j].0], now_s, now_ns) == Some(out@[j].1)
                && among(entries, i + 1, out@[j].0) by {
                lemma_among_next(entries, i as int, out@[j].0);
                if j < shown.len() {
                    assert(out@[j] == shown[j]);
                }
            }
            assert forall|a: int, b: int|
                #![trigger out@[a], out@[b]]
                0 <= a < b < out@.len() implies out@[a].0 != out@[b].0 by {
                assert(out@[a] == shown[a]);
                if b < shown.len() {
                    assert(out@[b] == shown[b]);
                }
            }
            assert forall|k: IpKey| #[trigger]
                among(entries, i + 1, k) && before.verdict(k, counts[k], now_s, now_ns) is Some
                implies exists|j: int| 0 <= j < out@.len() && (#[trigger] out@[j]).0 == k by {
                lemma_among_next(entries, i as int, k);
                if k == src {
                    assert(out@[out@.len() - 1].0 == k);
                } else {
                    assert(among(entries, i as int, k));
                    let j: int = choose|j: int| 0 <= j < shown.len() && (#[trigger] shown[j]).0
                        == k;
                    assert(out@[j] == shown[j]);
                }
            }
        }
        i = i + 1;
    }
    proof {
        law_entries_show_map(entries);
        let n: int = entries.len() as int;
        assert forall|k: IpKey| counts.contains_key(k) == #[trigger] among(entries, n, k) by {
            if counts.contains_key(k) {
                let j: int = choose|j: int| 0 <= j < entries.len() && (#[trigger] entries[j]).0
                    == k;
                assert(entries[j].0 == k);
            }
        }
        assert forall|k: IpKey| #[trigger]
            heard(*engine, before, k, told(counts, k), now_s, now_ns) by {
            assert(counts.contains_key(k) == among(entries, n, k));
            assert(heard(
                *engine,
                before,
                k,
                told_by(counts, entries, n, k),
                now_s,
                now_ns,
            ));
        }
        assert forall|k: IpKey| #[trigger]
            counts.contains_key(k) && before.verdict(k, counts[k], now_s, now_ns) is Some
            implies exists|i: int| 0 <= i < out@.len() && (#[trigger] out@[i]).0 == k by {
            assert(among(entries, n, k));
        }
    }
    out
}

proof fn lemma_among_next(entries: Seq<(IpKey, u64)>, i: int, k: IpKey)
    requires
        0 <= i < entries.len(),
    ensures
        among(entries, i + 1, k) == (among(entries, i, k) || entries[i].0 == k),
{
    if among(entries, i, k) {
        let j: int = choose|j: int| 0 <= j < i && (#[trigger] entries[j]).0 == k;
        assert(entries[j].0 == k);
    }
    if among(entries, i + 1, k) {
        let j: int = choose|j: int| 0 <= j < i + 1 && (#[trigger] entries[j]).0 == k;
        if j < i {
            assert(entries[j].0 == k);
        }
    }
}

/// Takes in a batch of events: the counters and the adaptive engine learn of it. Returns
/// how many events counted, and the blocks that the packet path is to hold.
pub fn consume(
    stats: &mut Stats,
    engine: &mut AdaptiveEngine,
    events: &Vec<DropEvent>,
    now_s: u64,
    now_ns: u64,
) -> (r: (usize, Vec<(IpKey, BlockEntry)>))
    requires
        old(stats).wf(),
    ensures
        ({
            let fresh: Seq<DropEvent> = fresh_of(events@, old(stats).program_start_ns);
            &&& r.0 == fresh.len()
            &&& final(stats).wf()
            &&& final(stats).recent_attacks@ == last_of(
                old(stats).recent_attacks@ + fresh,
                MAX_ATTACKS as nat,
            )
            &&& *final(stats) == (Stats {
                recent_attacks: final(stats).recent_attacks,
                port_dropped: final(stats).port_dropped,
                ..*old(stats)
            })
            &&& exists|ports: Map<u16, u64>| #[trigger]
                ports_counted(ports, fresh) && forall|p: u16| #[trigger]
                    held_at(ports_held(final(stats).port_dropped), p) == port_after(
                        ports_held(old(stats).port_dropped),
                        ports,
                        p,
                    )
            &&& exists|counts: Map<IpKey, u64>|
                #![trigger sources_counted(counts, fresh)]
                (if old(engine).config.enabled {
                    sources_counted(counts, fresh)
                } else {
                    counts == Map::<IpKey, u64>::empty()
                }) && lists_blocks(r.1@, *old(engine), counts, now_s, now_ns) && forall|k: IpKey|
                 #[trigger]
                    heard(*final(engine), *old(engine), k, told(counts, k), now_s, now_ns)
        }),
        final(engine).config == old(engine).config,
{
    let batch: Batch = digest(events, stats.program_start_ns, engine.is_enabled());
    let ghost counts = batch.by_source.map();
    let ghost fresh = batch.events@;
    stats.push_attack_events(batch.events.as_slice());
    proof {
        law_entries_show_map(batch.by_source.entries@);
        assert forall|i: int| 0 <= i < batch.by_source.entries@.len() implies (
        #[trigger] batch.by_source.entries@[i]).1 > 0 by {
            let k: IpKey = batch.by_source.entries@[i].0;
            assert(counts.contains_key(k));
        }
    }
    let blocks: Vec<(IpKey, BlockEntry)> = tell_engine(engine, &batch.by_source, now_s, now_ns);
    stats.add_dropped_batch(&batch.by_port);
    let n: usize = batch.events.len();
    proof {
        assert(ports_counted(batch.by_port@, fresh));
        let _t: bool = sources_counted(counts, fresh);
    }
    (n, blocks)
}

} // verus!
