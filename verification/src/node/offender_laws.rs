//! What becomes of many events, one by one: who is blocked for them, and who is not.

use crate::common::DropEvent;
use crate::common::IpKey;
use crate::maps::counts_held;
use crate::maps::key_octets;
use crate::maps::times_held;
use crate::node::adaptive::windowed;
use crate::node::adaptive::AdaptiveEngine;
use crate::node::events::count_port;
use crate::node::events::count_source;
use crate::node::events::fresh_of;
use crate::node::login_limiter::after_check;
use crate::node::login_limiter::after_failure;
use crate::node::login_limiter::recent;
use crate::node::login_limiter::refused;
use crate::node::login_limiter::Attempts;
use vstd::prelude::*;

verus! {

/// Events are kept one by one: one that is no older than the window is, an older one is
/// not.
pub proof fn law_window_keeps_recent_events(a: Seq<u64>, b: Seq<u64>, x: u64, now_s: u64, window_s: u64)
    ensures
        windowed(a + b, now_s, window_s) == windowed(a, now_s, window_s) + windowed(b, now_s, window_s),
        now_s <= x + window_s ==> windowed(seq![x], now_s, window_s) == seq![x],
        now_s > x + window_s ==> windowed(seq![x], now_s, window_s) == Seq::<u64>::empty(),
    decreases b.len(),
{
    if b.len() == 0 {
        assert(a + b =~= a);
        assert(windowed(a, now_s, window_s) + windowed(b, now_s, window_s) =~= windowed(a, now_s, window_s));
    } else {
        law_window_keeps_recent_events(a, b.drop_last(), x, now_s, window_s);
        assert((a + b).drop_last() =~= a + b.drop_last());
        assert((a + b).last() == b.last());
        assert(windowed(a + b, now_s, window_s) =~= windowed(a, now_s, window_s) + windowed(b, now_s, window_s));
    }
    let one: Seq<u64> = seq![x];
    assert(one.drop_last().len() == 0);
    assert(windowed(one.drop_last(), now_s, window_s).len() == 0);
    assert(one.last() == x);
}

/// Failures count one by one: one of the last minute does, an older one does not.
pub proof fn law_failures_count_for_a_minute(a: Seq<u64>, b: Seq<u64>, x: u64, now_ns: u64)
    ensures
        recent(a + b, now_ns) == recent(a, now_ns) + recent(b, now_ns),
        now_ns < x + 60_000_000_000 ==> recent(seq![x], now_ns) == seq![x],
        now_ns >= x + 60_000_000_000 ==> recent(seq![x], now_ns) == Seq::<u64>::empty(),
    decreases b.len(),
{
    if b.len() == 0 {
        assert(a + b =~= a);
        assert(recent(a, now_ns) + recent(b, now_ns) =~= recent(a, now_ns));
    } else {
        law_failures_count_for_a_minute(a, b.drop_last(), x, now_ns);
        assert((a + b).drop_last() =~= a + b.drop_last());
        assert((a + b).last() == b.last());
        assert(recent(a + b, now_ns) =~= recent(a, now_ns) + recent(b, now_ns));
    }
    let one: Seq<u64> = seq![x];
    assert(one.drop_last().len() == 0);
    assert(recent(one.drop_last(), now_ns).len() == 0);
    assert(one.last() == x);
}

/// Events are taken one by one: one from up to a second before the program started is, an
/// older one is not.
pub proof fn law_stale_events_are_left_out(a: Seq<DropEvent>, b: Seq<DropEvent>, x: DropEvent, start_ns: u64)
    ensures
        fresh_of(a + b, start_ns) == fresh_of(a, start_ns) + fresh_of(b, start_ns),
        start_ns <= x.timestamp_ns + 1_000_000_000 ==> fresh_of(seq![x], start_ns) == seq![x],
        start_ns > x.timestamp_ns + 1_000_000_000 ==> fresh_of(seq![x], start_ns) == Seq::<
            DropEvent,
        >::empty(),
    decreases b.len(),
{
    if b.len() == 0 {
        assert(a + b =~= a);
        assert(fresh_of(a, start_ns) + fresh_of(b, start_ns) =~= fresh_of(a, start_ns));
    } else {
        law_stale_events_are_left_out(a, b.drop_last(), x, start_ns);
        assert((a + b).drop_last() =~= a + b.drop_last());
        assert((a + b).last() == b.last());
        assert(fresh_of(a + b, start_ns) =~= fresh_of(a, start_ns) + fresh_of(b, start_ns));
    }
    let one: Seq<DropEvent> = seq![x];
    assert(one.drop_last().len() == 0);
    assert(fresh_of(one.drop_last(), start_ns).len() == 0);
    assert(one.last() == x);
}

/// Events count for their destination port, one by one, where they name a source.
pub proof fn law_ports_are_counted(a: Seq<DropEvent>, b: Seq<DropEvent>, x: DropEvent, port: u16)
    ensures
        count_port(a + b, port) == count_port(a, port) + count_port(b, port),
        count_port(seq![x], port) == if (x.family == 4 || x.family == 6) && x.dst_port == port {
            1nat
        } else {
            0nat
        },
    decreases b.len(),
{
    if b.len() == 0 {
        assert(a + b == a);
        assert(count_port(a, port) + count_port(b, port) == count_port(a, port));
    } else {
        law_ports_are_counted(a, b.drop_last(), x, port);
        assert((a + b).drop_last() == a + b.drop_last());
        assert((a + b).last() == b.last());
        assert(count_port(a + b, port) == count_port(a, port) + count_port(b, port));
    }
    let one: Seq<DropEvent> = seq![x];
    assert(one.drop_last().len() == 0);
    assert(count_port(one.drop_last(), port) == 0);
    assert(one.last() == x);
}

/// The event names the source.
pub open spec fn names_source(e: DropEvent, k: IpKey) -> bool {
    &&& e.family == k.family
    &&& e.family == 4 || e.family == 6
    &&& e.family == 6 ==> e.src_ip@ == k.addr@
    &&& e.family == 4 ==> e.src_ip@.skip(12) == k.addr@.skip(12) && forall|i: int|
        0 <= i < 12 ==> #[trigger] k.addr@[i] == 0
}

proof fn lemma_names_source(e: DropEvent, k: IpKey)
    ensures
        crate::node::events::comes_from(e, k) <==> names_source(e, k),
{
    let m: Seq<u8> = IpKey::mapped(e.src_ip@.skip(12));
    if e.family == 4 {
        if crate::node::events::comes_from(e, k) {
            assert(m.skip(12) =~= e.src_ip@.skip(12));
        }
        if names_source(e, k) {
            assert forall|i: int| 0 <= i < 16 implies k.addr@[i] == m[i] by {
                if i >= 12 {
                    assert(k.addr@.skip(12)[i - 12] == e.src_ip@.skip(12)[i - 12]);
                }
            }
            assert(k.addr@ =~= m);
        }
    }
}

/// Events count against their source, one by one, but for those of blocked sources, of
/// regions and of floods, which the packet path has dealt with itself.
pub proof fn law_offences_are_counted(a: Seq<DropEvent>, b: Seq<DropEvent>, x: DropEvent, k: IpKey)
    ensures
        count_source(a + b, k) == count_source(a, k) + count_source(b, k),
        count_source(seq![x], k) == if names_source(x, k) && x.rule_id != 1 && x.rule_id != 3
            && x.rule_id != 8 && x.rule_id != 9 && x.rule_id != 10 {
            1nat
        } else {
            0nat
        },
    decreases b.len(),
{
    if b.len() == 0 {
        assert(a + b =~= a);
        assert(count_source(a, k) + count_source(b, k) == count_source(a, k));
    } else {
        law_offences_are_counted(a, b.drop_last(), x, k);
        assert((a + b).drop_last() =~= a + b.drop_last());
        assert((a + b).last() == b.last());
        assert(count_source(a + b, k) == count_source(a, k) + count_source(b, k));
    }
    let one: Seq<DropEvent> = seq![x];
    assert(one.drop_last().len() == 0);
    assert(count_source(one.drop_last(), k) == 0);
    assert(one.last() == x);
    lemma_names_source(x, k);
}

/// `es` is what an engine comes to, event by event, as a source offends at the times `ts`.
pub open spec fn is_run(es: Seq<AdaptiveEngine>, src: IpKey, ts: Seq<u64>, ns: Seq<u64>) -> bool {
    &&& es.len() == ts.len() + 1
    &&& ns.len() == ts.len()
    &&& forall|i: int|
        0 <= i < ts.len() ==> (#[trigger] es[i + 1]).follows(es[i], src, 1, ts[i], ns[i])
}

/// Events that are all in the window are all kept.
proof fn lemma_all_in_window(times: Seq<u64>, now_s: u64, window_s: u64)
    requires
        forall|i: int| 0 <= i < times.len() ==> now_s <= #[trigger] times[i] + window_s,
    ensures
        windowed(times, now_s, window_s) == times,
    decreases times.len(),
{
    if times.len() > 0 {
        lemma_all_in_window(times.drop_last(), now_s, window_s);
        assert(times =~= times.drop_last().push(times.last()));
    }
}

/// A source that offends again and again within the window is blocked with the offence
/// that makes them as many as the threshold, and not before; the block lasts as long as
/// configured.
pub proof fn law_repeated_offender_is_blocked(
    es: Seq<AdaptiveEngine>,
    src: IpKey,
    ts: Seq<u64>,
    ns: Seq<u64>,
    i: int,
)
    requires
        is_run(es, src, ts, ns),
        es[0].config.enabled,
        !times_held(es[0].windows).contains_key(key_octets(src)),
        !counts_held(es[0].blocked).contains_key(key_octets(src)),
        0 <= i < ts.len(),
        i < es[0].config.threshold,
        forall|j: int, k: int|
            #![trigger ts[j], ts[k]]
            0 <= j <= k < ts.len() ==> ts[j] <= ts[k] <= ts[j] + es[0].config.window_s,
    ensures
        ({
            let r: Option<crate::common::BlockEntry> = es[i].verdict(src, 1, ts[i], ns[i]);
            let seconds: u64 = es[0].config.block_duration_s;
            &&& r is Some <==> i + 1 == es[0].config.threshold
            &&& r is Some ==> r->0.block_reason == 5 && r->0.first_seen_ns == ns[i]
            &&& r is Some && seconds == 0 ==> r->0.blocked_until_ns == 0
            &&& r is Some && seconds > 0 && ns[i] + seconds * 1_000_000_000 <= u64::MAX
                ==> r->0.blocked_until_ns == ns[i] + seconds * 1_000_000_000
        }),
{
    lemma_run(es, src, ts, ns, i);
    let k: Seq<u8> = key_octets(src);
    let e: AdaptiveEngine = es[i];
    let times: Seq<u64> = ts.take(i);
    assert forall|j: int| 0 <= j < times.len() implies ts[i] <= #[trigger] times[j]
        + e.config.window_s by {
        assert(times[j] == ts[j]);
    }
    lemma_all_in_window(times, ts[i], e.config.window_s);
    let none: Seq<u64> = Seq::empty();
    lemma_all_in_window(none, ts[i], e.config.window_s);
    assert(times_held(e.windows).contains_key(k) ==> times_held(e.windows)[k] == times);
    if !times_held(e.windows).contains_key(k) {
        assert(i == 0);
    }
    assert(e.window_with(src, 1, ts[i]).len() == i + 1);
}

proof fn lemma_run(es: Seq<AdaptiveEngine>, src: IpKey, ts: Seq<u64>, ns: Seq<u64>, i: int)
    requires
        is_run(es, src, ts, ns),
        es[0].config.enabled,
        !times_held(es[0].windows).contains_key(key_octets(src)),
        !counts_held(es[0].blocked).contains_key(key_octets(src)),
        0 <= i <= ts.len(),
        i < es[0].config.threshold,
        forall|j: int, k: int|
            #![trigger ts[j], ts[k]]
            0 <= j <= k < ts.len() ==> ts[j] <= ts[k] <= ts[j] + es[0].config.window_s,
    ensures
        es[i].config == es[0].config,
        !counts_held(es[i].blocked).contains_key(key_octets(src)),
        i > 0 ==> times_held(es[i].windows).contains_key(key_octets(src)) && times_held(
            es[i].windows,
        )[key_octets(src)] == ts.take(i),
        i == 0 ==> !times_held(es[i].windows).contains_key(key_octets(src)),
    decreases i,
{
    if i > 0 {
        let n: int = i - 1;
        lemma_run(es, src, ts, ns, n);
        let k: Seq<u8> = key_octets(src);
        let e: AdaptiveEngine = es[n];
        assert(es[n + 1].follows(es[n], src, 1, ts[n], ns[n]));
        let times: Seq<u64> = ts.take(n);
        assert forall|j: int| 0 <= j < times.len() implies ts[n] <= #[trigger] times[j]
            + e.config.window_s by {
            assert(times[j] == ts[j]);
        }
        lemma_all_in_window(times, ts[n], e.config.window_s);
        let none: Seq<u64> = Seq::empty();
        lemma_all_in_window(none, ts[n], e.config.window_s);
        let with: Seq<u64> = e.window_with(src, 1, ts[n]);
        if n == 0 {
            assert(times =~= none);
        }
        assert(with =~= ts.take(i));
        assert(e.verdict(src, 1, ts[n], ns[n]) is None);
    }
}

/// An engine that is off blocks nobody, and what is older than the window does not count.
pub proof fn law_old_offences_do_not_count(
    e: AdaptiveEngine,
    src: IpKey,
    count: u64,
    now_s: u64,
    now_ns: u64,
)
    requires
        times_held(e.windows).contains_key(key_octets(src)) ==> forall|j: int|
            0 <= j < times_held(e.windows)[key_octets(src)].len() ==> now_s > #[trigger] times_held(
                e.windows,
            )[key_octets(src)][j] + e.config.window_s,
    ensures
        !e.config.enabled ==> e.verdict(src, count, now_s, now_ns) is None,
        count < e.config.threshold ==> e.verdict(src, count, now_s, now_ns) is None,
{
    if times_held(e.windows).contains_key(key_octets(src)) {
        lemma_none_in_window(times_held(e.windows)[key_octets(src)], now_s, e.config.window_s);
    } else {
        lemma_none_in_window(Seq::empty(), now_s, e.config.window_s);
    }
    assert(e.window_with(src, count, now_s).len() == count);
}

proof fn lemma_none_in_window(times: Seq<u64>, now_s: u64, window_s: u64)
    requires
        forall|i: int| 0 <= i < times.len() ==> now_s > #[trigger] times[i] + window_s,
    ensures
        windowed(times, now_s, window_s).len() == 0,
    decreases times.len(),
{
    if times.len() > 0 {
        lemma_none_in_window(times.drop_last(), now_s, window_s);
    }
}

/// What is remembered of an address after failures at these times.
pub open spec fn failed_at(ts: Seq<u64>) -> Attempts
    decreases ts.len(),
{
    if ts.len() == 0 {
        Attempts { times: Seq::empty(), locked_until: None }
    } else {
        after_failure(failed_at(ts.drop_last()), ts.last())
    }
}

proof fn lemma_all_recent(times: Seq<u64>, now_ns: u64)
    requires
        forall|i: int| 0 <= i < times.len() ==> now_ns < #[trigger] times[i] + 60_000_000_000,
    ensures
        recent(times, now_ns) == times,
    decreases times.len(),
{
    if times.len() > 0 {
        lemma_all_recent(times.drop_last(), now_ns);
        assert(times =~= times.drop_last().push(times.last()));
    }
}

proof fn lemma_failed_at(ts: Seq<u64>)
    requires
        forall|j: int, k: int|
            #![trigger ts[j], ts[k]]
            0 <= j <= k < ts.len() ==> ts[j] <= ts[k] < ts[j] + 60_000_000_000,
        forall|j: int| 0 <= j < ts.len() ==> #[trigger] ts[j] + 300_000_000_000 <= u64::MAX,
    ensures
        failed_at(ts).times == ts,
        ts.len() < 5 ==> failed_at(ts).locked_until is None,
        ts.len() >= 5 ==> failed_at(ts).locked_until is Some && failed_at(ts).locked_until->0
            == ts.last() + 300_000_000_000,
    decreases ts.len(),
{
    if ts.len() > 0 {
        let front: Seq<u64> = ts.drop_last();
        let n: int = ts.len() - 1;
        assert forall|j: int, k: int|
            #![trigger front[j], front[k]]
            0 <= j <= k < front.len() implies front[j] <= front[k] < front[j] + 60_000_000_000 by {
            assert(front[j] == ts[j] && front[k] == ts[k]);
        }
        assert forall|j: int| 0 <= j < front.len() implies #[trigger] front[j] + 300_000_000_000
            <= u64::MAX by {
            assert(front[j] == ts[j]);
        }
        lemma_failed_at(front);
        assert forall|i: int| 0 <= i < front.len() implies ts[n] < #[trigger] front[i]
            + 60_000_000_000 by {
            assert(front[i] == ts[i]);
        }
        lemma_all_recent(front, ts[n]);
        assert(failed_at(ts).times =~= ts);
    }
}

/// An address that fails within a minute is let try until it has failed five times, and
/// is refused for five minutes from then on.
pub proof fn law_guessing_is_locked_out(ts: Seq<u64>, now_ns: u64)
    requires
        ts.len() > 0,
        forall|j: int, k: int|
            #![trigger ts[j], ts[k]]
            0 <= j <= k < ts.len() ==> ts[j] <= ts[k] < ts[j] + 60_000_000_000,
        forall|j: int| 0 <= j < ts.len() ==> #[trigger] ts[j] + 300_000_000_000 <= u64::MAX,
        ts.last() <= now_ns < ts.last() + 300_000_000_000,
    ensures
        refused(failed_at(ts), now_ns) <==> ts.len() >= 5,
{
    lemma_failed_at(ts);
    lemma_recent_shrinks(ts, now_ns);
}

proof fn lemma_recent_shrinks(times: Seq<u64>, now_ns: u64)
    ensures
        recent(times, now_ns).len() <= times.len(),
    decreases times.len(),
{
    if times.len() > 0 {
        lemma_recent_shrinks(times.drop_last(), now_ns);
    }
}

/// An address whose lockout is over and whose failures are all older than a minute may try
/// again.
pub proof fn law_lockout_ends(a: Attempts, now_ns: u64)
    requires
        a.locked_until is Some ==> a.locked_until->0 <= now_ns,
        forall|i: int| 0 <= i < a.times.len() ==> now_ns >= #[trigger] a.times[i] + 60_000_000_000,
    ensures
        !refused(a, now_ns),
        after_check(a, now_ns) == (Attempts { times: Seq::empty(), locked_until: None }),
{
    lemma_none_recent(a.times, now_ns);
    assert(recent(a.times, now_ns) =~= Seq::<u64>::empty());
}

proof fn lemma_none_recent(times: Seq<u64>, now_ns: u64)
    requires
        forall|i: int| 0 <= i < times.len() ==> now_ns >= #[trigger] times[i] + 60_000_000_000,
    ensures
        recent(times, now_ns).len() == 0,
    decreases times.len(),
{
    if times.len() > 0 {
        lemma_none_recent(times.drop_last(), now_ns);
    }
}

} // verus!
