//! The figures that a node shows, told from what they count.

use crate::common::GlobalStats;
use crate::common::IpKey;
use crate::common::PacketSample;
use crate::common::RuntimeConfig;
use crate::common::TrustEntry;
use crate::maps::key_octets;
use crate::node::alert::AlertManager;
use crate::node::audit::before;
use crate::node::audit::entries_in;
use crate::node::audit::selected;
use crate::node::audit::selects;
use crate::node::audit::AuditEntry;
use crate::node::audit::AuditQuery;
use crate::node::danger::cpu_times;
use crate::node::danger::level_of;
use crate::node::danger::memory_of;
use crate::node::danger::numbers_in;
use crate::node::danger::second_number;
use crate::node::danger::sum_of;
use crate::node::ip_report::drops;
use crate::node::ip_report::minute_counts;
use crate::node::ip_report::minute_of;
use crate::node::ip_report::named_count;
use crate::node::ip_report::port_tally;
use crate::node::ip_report::standing_of;
use crate::node::packet_log::entry_view;
use crate::node::packet_log::found;
use crate::node::packet_log::PacketLogQuery;
use crate::node::packet_log::PacketSampleEntry;
use crate::node::snapshot::patched;
use crate::node::snapshot::switches_of;
use crate::node::snapshot::RuntimeConfigPatch;
use crate::node::snapshot::RuntimeConfigSnapshot;
use crate::node::stats::time_class;
use crate::node::stats::Stats;
use crate::node::sync::attackers_of;
use crate::node::sync::joined;
use crate::node::sync::kept_since;
use crate::node::sync::level_count;
use crate::node::sync::points_until;
use crate::node::sync::total_of;
use crate::node::timeseries::MetricPoint;
use crate::node::timeseries::TimeSeriesWindow;
use crate::text::dec;
use crate::text::law_dec_reads_back;
use crate::text::starts_with;
use crate::text::uint_value;
use crate::text::words_of;
use vstd::prelude::*;

verus! {

/// The counters of one processor are its own, counter by counter, and a processor that
/// counted nothing adds nothing.
pub proof fn law_counters_are_added_up(a: GlobalStats, b: GlobalStats)
    ensures
        joined(GlobalStats::zero(), a) == a,
        joined(a, GlobalStats::zero()) == a,
        joined(a, b) == joined(b, a),
        total_of(seq![a]) == a,
        total_of(seq![a, b]) == joined(a, b),
        a.total_packets + b.total_packets <= u64::MAX ==> joined(a, b).total_packets
            == a.total_packets + b.total_packets,
        a.total_dropped + b.total_dropped <= u64::MAX ==> joined(a, b).total_dropped
            == a.total_dropped + b.total_dropped,
        a.total_passed + b.total_passed <= u64::MAX ==> joined(a, b).total_passed == a.total_passed
            + b.total_passed,
{
    let one: Seq<GlobalStats> = seq![a];
    let two: Seq<GlobalStats> = seq![a, b];
    assert(one.drop_last().len() == 0);
    assert(total_of(one.drop_last()) == GlobalStats::zero());
    assert(one.last() == a);
    assert(two.drop_last() =~= one);
    assert(total_of(two.drop_last()) == a);
    assert(two.last() == b);
}

/// Sources are counted one by one, each under its own level.
pub proof fn law_sources_are_counted_by_level(a: Seq<TrustEntry>, b: Seq<TrustEntry>, x: TrustEntry, level: u8)
    ensures
        level_count(a + b, level) == level_count(a, level) + level_count(b, level),
        level_count(seq![x], level) == if x.level == level {
            1nat
        } else {
            0nat
        },
    decreases b.len(),
{
    if b.len() == 0 {
        assert(a + b =~= a);
        assert(level_count(a, level) + level_count(b, level) == level_count(a, level));
    } else {
        law_sources_are_counted_by_level(a, b.drop_last(), x, level);
        assert((a + b).drop_last() =~= a + b.drop_last());
        assert((a + b).last() == b.last());
        assert(level_count(a + b, level) == level_count(a, level) + level_count(b, level));
    }
    let one: Seq<TrustEntry> = seq![x];
    assert(one.drop_last().len() == 0);
    assert(level_count(one.drop_last(), level) == 0);
    assert(one.last() == x);
}

/// Points are taken over one by one, but for those ahead of the clock.
pub proof fn law_future_points_are_left_out(a: Seq<MetricPoint>, b: Seq<MetricPoint>, x: MetricPoint, now: u64)
    ensures
        points_until(a + b, now) == points_until(a, now) + points_until(b, now),
        x.timestamp <= now ==> points_until(seq![x], now) == seq![x],
        x.timestamp > now ==> points_until(seq![x], now) == Seq::<MetricPoint>::empty(),
    decreases b.len(),
{
    if b.len() == 0 {
        assert(a + b =~= a);
        assert(points_until(a, now) + points_until(b, now) =~= points_until(a, now));
    } else {
        law_future_points_are_left_out(a, b.drop_last(), x, now);
        assert((a + b).drop_last() =~= a + b.drop_last());
        assert((a + b).last() == b.last());
        assert(points_until(a + b, now) =~= points_until(a, now) + points_until(b, now));
    }
    let one: Seq<MetricPoint> = seq![x];
    assert(one.drop_last().len() == 0);
    assert(points_until(one.drop_last(), now).len() == 0);
    assert(one.last() == x);
}

/// Samples are counted as dropped one by one.
pub proof fn law_dropped_samples_are_counted(a: Seq<PacketSampleEntry>, b: Seq<PacketSampleEntry>, x: PacketSampleEntry)
    ensures
        drops(a + b) == drops(a) + drops(b),
        drops(seq![x]) == if x.action == 0 {
            1nat
        } else {
            0nat
        },
    decreases b.len(),
{
    if b.len() == 0 {
        assert(a + b =~= a);
        assert(drops(a) + drops(b) == drops(a));
    } else {
        law_dropped_samples_are_counted(a, b.drop_last(), x);
        assert((a + b).drop_last() =~= a + b.drop_last());
        assert((a + b).last() == b.last());
        assert(drops(a + b) == drops(a) + drops(b));
    }
    let one: Seq<PacketSampleEntry> = seq![x];
    assert(one.drop_last().len() == 0);
    assert(drops(one.drop_last()) == 0);
    assert(one.last() == x);
}

/// The entries of a log are taken one by one, and what is no entry is left out.
pub proof fn law_log_lines_stand_alone(a: Seq<Option<AuditEntry>>, b: Seq<Option<AuditEntry>>, x: Option<AuditEntry>)
    ensures
        entries_in(a + b) == entries_in(a) + entries_in(b),
        entries_in(seq![x]) == match x {
            Some(e) => seq![e],
            None => Seq::empty(),
        },
    decreases b.len(),
{
    if b.len() == 0 {
        assert(a + b =~= a);
        assert(entries_in(a) + entries_in(b) =~= entries_in(a));
    } else {
        law_log_lines_stand_alone(a, b.drop_last(), x);
        assert((a + b).drop_last() =~= a + b.drop_last());
        assert((a + b).last() == b.last());
        assert(entries_in(a + b) =~= entries_in(a) + entries_in(b));
    }
    let one: Seq<Option<AuditEntry>> = seq![x];
    assert(one.drop_last().len() == 0);
    assert(entries_in(one.drop_last()).len() == 0);
    assert(one.last() == x);
}

/// The entries that a query asks for are found one by one.
pub proof fn law_entries_are_selected(a: Seq<AuditEntry>, b: Seq<AuditEntry>, x: AuditEntry, q: AuditQuery)
    ensures
        selected(q, a + b) == selected(q, a) + selected(q, b),
        selects(q, x) ==> selected(q, seq![x]) == seq![x],
        !selects(q, x) ==> selected(q, seq![x]) == Seq::<AuditEntry>::empty(),
    decreases b.len(),
{
    if b.len() == 0 {
        assert(a + b =~= a);
        assert(selected(q, a) + selected(q, b) =~= selected(q, a));
    } else {
        law_entries_are_selected(a, b.drop_last(), x, q);
        assert((a + b).drop_last() =~= a + b.drop_last());
        assert((a + b).last() == b.last());
        assert(selected(q, a + b) =~= selected(q, a) + selected(q, b));
    }
    let one: Seq<AuditEntry> = seq![x];
    assert(one.drop_last().len() == 0);
    assert(selected(q, one.drop_last()).len() == 0);
    assert(one.last() == x);
}

/// A query that asks for nothing in particular finds every entry; one for a span of time
/// finds the entries from its start to its end, both of them included.
pub proof fn law_query_spans_its_time(q: AuditQuery, e: AuditEntry)
    requires
        q.filter is None && q.ip is None && q.action is None,
    ensures
        q.from is None && q.to is None ==> selects(q, e),
        q.from is Some && q.from->0@ == e.timestamp@ && q.to is None ==> selects(q, e),
        q.to is Some && q.to->0@ == e.timestamp@ && q.from is None ==> selects(q, e),
        q.from is Some && before(e.timestamp@, q.from->0@) ==> !selects(q, e),
        q.to is Some && before(q.to->0@, e.timestamp@) ==> !selects(q, e),
{
    lemma_not_before_itself(e.timestamp@);
}

proof fn lemma_not_before_itself(a: Seq<char>)
    ensures
        !before(a, a),
    decreases a.len(),
{
    if a.len() > 0 {
        lemma_not_before_itself(a.skip(1));
    }
}

/// Texts are ordered by the first character in which they differ, and a text comes before
/// what goes on from it.
pub proof fn law_texts_are_ordered(a: Seq<char>, x: char, y: char, b: Seq<char>, c: Seq<char>)
    ensures
        x < y ==> before(a + seq![x] + b, a + seq![y] + c),
        x < y ==> !before(a + seq![y] + c, a + seq![x] + b),
        before(a, a + seq![x] + b),
        !before(a + seq![x] + b, a),
    decreases a.len(),
{
    let p: Seq<char> = a + seq![x] + b;
    let q: Seq<char> = a + seq![y] + c;
    if a.len() == 0 {
        assert(p[0] == x);
        assert(q[0] == y);
    } else {
        let r: Seq<char> = a.skip(1);
        law_texts_are_ordered(r, x, y, b, c);
        assert(p[0] == a[0]);
        assert(q[0] == a[0]);
        assert(p.skip(1) =~= r + seq![x] + b);
        assert(q.skip(1) =~= r + seq![y] + c);
    }
}

/// A query finds a sample that agrees with everything it names, and only such.
pub proof fn law_query_names_what_it_finds(s: PacketSample, q: PacketLogQuery)
    requires
        q.ip is None,
    ensures
        crate::node::packet_log::matches(s, q) <==> {
            &&& q.port is Some ==> s.src_port == q.port->0 || s.dst_port == q.port->0
            &&& q.protocol is Some ==> s.protocol == q.protocol->0
            &&& q.action is Some ==> s.action == q.action->0
            &&& q.rule is Some ==> s.rule_id == q.rule->0
            &&& q.from_ns is Some ==> q.from_ns->0 <= s.timestamp_ns
            &&& q.to_ns is Some ==> s.timestamp_ns <= q.to_ns->0
        },
{
}

/// The newest sample that a query asks for comes first, and the others follow as far as
/// they fit.
pub proof fn law_newest_sample_comes_first(
    entries: Seq<PacketSample>,
    s: PacketSample,
    q: PacketLogQuery,
    limit: nat,
)
    ensures
        found(entries, q, 0).len() == 0,
        found(entries, q, limit).len() <= limit,
        !crate::node::packet_log::matches(s, q) ==> found(entries.push(s), q, limit) == found(entries, q, limit),
        crate::node::packet_log::matches(s, q) && limit > 0 ==> found(entries.push(s), q, limit) == seq![entry_view(s)]
            + found(entries, q, (limit - 1) as nat),
    decreases entries.len(),
{
    let all: Seq<PacketSample> = entries.push(s);
    assert(all.drop_last() =~= entries);
    assert(all.last() == s);
    if entries.len() > 0 {
        law_newest_sample_comes_first(entries.drop_last(), entries.last(), q, limit);
        assert(entries =~= entries.drop_last().push(entries.last()));
        if limit > 0 {
            law_newest_sample_comes_first(
                entries.drop_last(),
                entries.last(),
                q,
                (limit - 1) as nat,
            );
        }
    }
}

/// How many samples were for a port.
pub open spec fn samples_for(s: Seq<PacketSampleEntry>, port: u16) -> nat
    decreases s.len(),
{
    if s.len() == 0 {
        0
    } else {
        samples_for(s.drop_last(), port) + if s.last().dst_port == port {
            1nat
        } else {
            0nat
        }
    }
}

/// The number that a tally has for a port.
pub open spec fn tallied(t: Seq<(u16, u64)>, port: u16) -> int
    decreases t.len(),
{
    if t.len() == 0 {
        0
    } else if t[0].0 == port {
        t[0].1 as int
    } else {
        tallied(t.skip(1), port)
    }
}

proof fn lemma_bumped_tally(t: Seq<(u16, u64)>, port: u16, other: u16)
    requires
        tallied(t, port) < u64::MAX,
    ensures
        tallied(crate::node::ip_report::bumped(t, port), port) == tallied(t, port) + 1,
        other != port ==> tallied(crate::node::ip_report::bumped(t, port), other) == tallied(
            t,
            other,
        ),
    decreases t.len(),
{
    let r: Seq<(u16, u64)> = crate::node::ip_report::bumped(t, port);
    if t.len() == 0 {
        assert(r[0] == (port, 1u64));
        assert(r.skip(1).len() == 0);
        assert(tallied(r.skip(1), other) == 0);
    } else if t[0].0 == port {
        assert(r[0].0 == port);
        assert(r.skip(1) =~= t.skip(1));
    } else {
        lemma_bumped_tally(t.skip(1), port, other);
        assert(r[0] == t[0]);
        assert(r.skip(1) =~= crate::node::ip_report::bumped(t.skip(1), port));
    }
}

proof fn lemma_samples_bound(s: Seq<PacketSampleEntry>, port: u16)
    ensures
        samples_for(s, port) <= s.len(),
    decreases s.len(),
{
    if s.len() > 0 {
        lemma_samples_bound(s.drop_last(), port);
    }
}

/// The tally of the ports has for each port as many as there are samples for it.
pub proof fn law_ports_are_tallied(s: Seq<PacketSampleEntry>, port: u16)
    requires
        s.len() <= u64::MAX,
    ensures
        tallied(port_tally(s), port) == samples_for(s, port),
    decreases s.len(),
{
    if s.len() > 0 {
        let front: Seq<PacketSampleEntry> = s.drop_last();
        let last: u16 = s.last().dst_port;
        law_ports_are_tallied(front, port);
        law_ports_are_tallied(front, last);
        lemma_samples_bound(front, last);
        lemma_bumped_tally(port_tally(front), last, port);
    }
}

/// One more sample counts for its minute, as dropped or as passed, and for no other.
pub proof fn law_samples_count_for_their_minute(
    s: Seq<PacketSampleEntry>,
    e: PacketSampleEntry,
    minute: u64,
    now_ns: u64,
    wall_ns: u64,
)
    ensures
        ({
            let a: (nat, nat) = minute_counts(s, minute, now_ns, wall_ns);
            let b: (nat, nat) = minute_counts(s.push(e), minute, now_ns, wall_ns);
            &&& minute_of(e.timestamp_ns, now_ns, wall_ns) != minute ==> b == a
            &&& minute_of(e.timestamp_ns, now_ns, wall_ns) == minute && e.action == 0 ==> b.0 == a.0
                + 1 && b.1 == a.1
            &&& minute_of(e.timestamp_ns, now_ns, wall_ns) == minute && e.action != 0 ==> b.0 == a.0
                && b.1 == a.1 + 1
        }),
{
    assert(s.push(e).drop_last() =~= s);
    assert(s.push(e).last() == e);
}

/// The minute of a sample is that of the wall clock as long ago as the sample is old.
pub proof fn law_minute_is_the_clocks(age_ns: u64, now_ns: u64, wall_ns: u64)
    requires
        age_ns <= now_ns,
        age_ns <= wall_ns,
    ensures
        minute_of((now_ns - age_ns) as u64, now_ns, wall_ns) == (wall_ns - age_ns)
            / 60_000_000_000,
{
}

/// The reputation that is shown is a tenth of the score, a hundred at most, and fifty for a
/// source of which nothing is known.
pub proof fn law_standing_is_out_of_a_hundred(e: TrustEntry)
    ensures
        e.trust_score <= 1000 ==> standing_of(Some(e)) == (
            (e.trust_score as int / 10) as u32,
            e.level,
        ),
        e.trust_score > 1000 ==> standing_of(Some(e)) == (100u32, e.level),
        standing_of(None) == (50u32, 0u8),
{
}

/// The number of a source in a list is that of its first place, and 0 where it has none.
pub proof fn law_named_source_is_found(list: Seq<(String, u64)>, ip: Seq<char>, i: int)
    requires
        0 <= i <= list.len(),
        i < list.len() ==> list[i].0@ == ip,
        forall|j: int| 0 <= j < i ==> (#[trigger] list[j]).0@ != ip,
    ensures
        named_count(list, ip) == if i < list.len() {
            list[i].1
        } else {
            0
        },
    decreases list.len(),
{
    if i > 0 {
        let rest: Seq<(String, u64)> = list.skip(1);
        assert(list[0].0@ != ip);
        assert forall|j: int| 0 <= j < i - 1 implies (#[trigger] rest[j]).0@ != ip by {
            assert(rest[j] == list[j + 1]);
        }
        if i < list.len() {
            assert(rest[i - 1] == list[i]);
        }
        law_named_source_is_found(rest, ip, i - 1);
    }
}

/// The last number of a source counts, unless it is 0.
pub proof fn law_latest_attackers_are_taken(
    entries: Seq<(IpKey, u64)>,
    k: IpKey,
    n: u64,
    other: Seq<u8>,
)
    ensures
        n > 0 ==> attackers_of(entries.push((k, n))).contains_key(key_octets(k)) && attackers_of(
            entries.push((k, n)),
        )[key_octets(k)] == n,
        n == 0 ==> attackers_of(entries.push((k, n))) == attackers_of(entries),
        other != key_octets(k) ==> (attackers_of(entries.push((k, n))).contains_key(other)
            <==> attackers_of(entries).contains_key(other)),
        attackers_of(Seq::<(IpKey, u64)>::empty()) == Map::<Seq<u8>, u64>::empty(),
{
    assert(entries.push((k, n)).drop_last() =~= entries);
    assert(entries.push((k, n)).last() == (k, n));
}

/// Points are kept for as many days as configured, of as many seconds as a day has.
pub proof fn law_points_are_kept_for_days(now: u64, days: u64)
    requires
        days * 86400 <= u64::MAX,
    ensures
        days * 86400 <= now ==> kept_since(now, days) == now - days * 86400,
        days * 86400 > now ==> kept_since(now, days) == 0,
{
}

/// An alert is raised where as much was dropped as the threshold allows in the window, and
/// none was raised since the cooldown began; without a place to send it to there is none.
pub proof fn law_alert_is_due(m: AlertManager, delta: u64, window_s: u64, now_s: u64)
    requires
        m.last_alert_s <= now_s,
    ensures
        m.raises(delta, window_s, now_s) <==> {
            &&& window_s > 0
            &&& m.config.webhook_url is Some
            &&& delta >= m.config.threshold_dps * window_s
            &&& now_s >= m.last_alert_s + m.config.cooldown_s
        },
{
    if window_s > 0 {
        let t: u64 = m.config.threshold_dps;
        assert(delta / window_s >= t <==> delta >= t * window_s) by (nonlinear_arith)
            requires
                window_s > 0,
        ;
    }
}

/// The danger level is highest where memory runs out, or where processors and drops are
/// both out of the ordinary; one of these alone raises it by one.
pub proof fn law_danger_has_its_reasons(cpu: bool, memory: bool, drops: bool)
    ensures
        memory ==> level_of(cpu, memory, drops) == 2,
        cpu && drops ==> level_of(cpu, memory, drops) == 2,
        !memory && cpu != drops ==> level_of(cpu, memory, drops) == 1,
        !memory && !cpu && !drops ==> level_of(cpu, memory, drops) == 0,
{
}

proof fn lemma_dec_is_read(n: u64)
    ensures
        uint_value(dec(n as nat), u64::MAX as nat) == Some(n as nat),
{
    law_dec_reads_back(n as nat);
    assert(crate::text::is_digit(dec(n as nat)[0]));
}

/// Words that are numbers are read as these numbers.
proof fn lemma_numbers(words: Seq<Seq<char>>, n: Seq<u64>)
    requires
        words.len() == n.len(),
        forall|i: int| 0 <= i < n.len() ==> #[trigger] words[i] == dec(n[i] as nat),
    ensures
        numbers_in(words) == n,
    decreases n.len(),
{
    if n.len() > 0 {
        let w: Seq<Seq<char>> = words.drop_last();
        let m: Seq<u64> = n.drop_last();
        assert forall|i: int| 0 <= i < m.len() implies #[trigger] w[i] == dec(m[i] as nat) by {
            assert(words[i] == dec(n[i] as nat));
        }
        lemma_numbers(w, m);
        assert(words[n.len() - 1] == dec(n[n.len() - 1] as nat));
        lemma_dec_is_read(n.last());
        assert(n =~= m.push(n.last()));
    } else {
        assert(n =~= Seq::<u64>::empty());
    }
}

/// The times of the processors are those of the line that tells of all of them: the fourth
/// number is the idle time, and all together are the whole.
pub proof fn law_processor_times_are_read(line: Seq<char>, rest: Seq<char>, n: Seq<u64>)
    requires
        starts_with(line, "cpu "@),
        forall|i: int| 0 <= i < line.len() ==> #[trigger] line[i] != '\n' && line[i] != '\r',
        words_of(line).len() == n.len() + 1,
        forall|i: int| 0 <= i < n.len() ==> #[trigger] words_of(line)[i + 1] == dec(n[i] as nat),
        n.len() >= 4,
    ensures
        cpu_times(line + seq!['\n'] + rest) == Some((n[3], sum_of(n))),
{
    let text: Seq<char> = line + seq!['\n'] + rest;
    let at: int = line.len() as int;
    assert forall|j: int| 0 <= j < at implies text[j] != '\n' by {
        assert(text[j] == line[j]);
    }
    crate::text::lemma_first_at_is(text, '\n', at);
    assert(text.take(at) =~= line);
    reveal_strlit("cpu ");
    if line.len() > 0 {
        assert(line[line.len() - 1] != '\r');
    }
    assert(crate::text::strip_cr(line) == line);
    assert(crate::text::lines_of(text)[0] == line);
    let w: Seq<Seq<char>> = words_of(line);
    assert forall|i: int| 0 <= i < n.len() implies #[trigger] w.skip(1)[i] == dec(n[i] as nat) by {
        assert(w[i + 1] == dec(n[i] as nat));
    }
    lemma_numbers(w.skip(1), n);
}

/// The sum is that of the numbers, as long as it can be counted.
pub proof fn law_times_add_up(v: Seq<u64>, n: u64)
    ensures
        sum_of(v) + n <= u64::MAX ==> sum_of(v.push(n)) == sum_of(v) + n,
        sum_of(Seq::<u64>::empty()) == 0,
{
    assert(v.push(n).drop_last() =~= v);
    assert(v.push(n).last() == n);
}

/// The memory is that of the lines that tell of it: in all, and available.
pub proof fn law_memory_is_read(lines: Seq<Seq<char>>, line: Seq<char>, n: u64)
    requires
        words_of(line).len() >= 2,
        words_of(line)[1] == dec(n as nat),
    ensures
        starts_with(line, "MemTotal:"@) ==> memory_of(lines.push(line)) == (
            n,
            memory_of(lines).1,
        ),
        starts_with(line, "MemAvailable:"@) ==> memory_of(lines.push(line)) == (
            memory_of(lines).0,
            n,
        ),
        !starts_with(line, "MemTotal:"@) && !starts_with(line, "MemAvailable:"@) ==> memory_of(
            lines.push(line),
        ) == memory_of(lines),
{
    lemma_dec_is_read(n);
    assert(second_number(line) == n);
    assert(lines.push(line).drop_last() =~= lines);
    assert(lines.push(line).last() == line);
    reveal_strlit("MemTotal:");
    reveal_strlit("MemAvailable:");
    if starts_with(line, "MemTotal:"@) && starts_with(line, "MemAvailable:"@) {
        assert(line.take("MemTotal:"@.len() as int)[3] == 'T');
        assert(line.take("MemAvailable:"@.len() as int)[3] == 'A');
    }
}

/// The rates of a point are what the counters grew by since the point before, per second;
/// the first point has none, and neither has one since which no packet came.
pub proof fn law_rates_are_per_second(
    w: TimeSeriesWindow,
    p: MetricPoint,
    stats: Stats,
    now: u64,
)
    requires
        w.takes(p, stats, now),
        w.last_total_packets <= stats.total_packets,
        w.last_total_dropped <= stats.total_dropped,
        w.last_total_passed <= stats.total_passed,
        w.head_timestamp < now,
    ensures
        w.head_timestamp == 0 || w.last_total_packets == stats.total_packets ==> p.dps is None
            && p.pps is None && !p.has_data,
        w.head_timestamp != 0 && w.last_total_packets < stats.total_packets ==> p.has_data
            && p.dps == Some(
            ((stats.total_dropped - w.last_total_dropped) / (now - w.head_timestamp)) as u64,
        ) && p.pps == Some(
            ((stats.total_passed - w.last_total_passed) / (now - w.head_timestamp)) as u64,
        ),
{
}

/// A processing time counts in the first class that it fits into.
pub proof fn law_times_fall_into_classes(us: u64)
    ensures
        time_class(us) == 0 <==> us <= 1000,
        time_class(us) <= 1 <==> us <= 5000,
        time_class(us) <= 2 <==> us <= 10000,
        time_class(us) <= 3 <==> us <= 50000,
        time_class(us) <= 4 <==> us <= 100000,
        0 <= time_class(us) <= 5,
{
}

/// A switch of the packet path is on where the setting is.
pub proof fn law_switches_follow_settings(s: RuntimeConfigSnapshot)
    ensures
        ({
            let c: RuntimeConfig = switches_of(s);
            &&& c.rate_limit_enabled != 0 <==> s.rate_limit_enabled
            &&& c.syn_proxy_enabled != 0 <==> s.syn_proxy_enabled
            &&& c.l7_scan_enabled != 0 <==> s.l7_scan_enabled
            &&& c.udp_flood_enabled != 0 <==> s.udp_flood_enabled
            &&& c.icmp_flood_enabled != 0 <==> s.icmp_flood_enabled
            &&& c.geoip_enabled != 0 <==> s.geoip_enabled
            &&& c.tcp_reset_on_drop != 0 <==> s.tcp_reset_on_drop
            &&& c.trust_enabled != 0 <==> s.trust_enabled
            &&& c.packet_log_enabled != 0 <==> s.packet_log_enabled
            &&& c.packet_log_sample_rate == s.packet_log_sample_rate
            &&& c.project_enabled != 0 <==> s.protection_projects@.len() > 0
        }),
{
}

/// A change sets what it names, and what it does not name stays.
pub proof fn law_patch_sets_what_it_names(s: RuntimeConfigSnapshot, p: RuntimeConfigPatch)
    ensures
        ({
            let r: RuntimeConfigSnapshot = patched(s, p);
            &&& p.syn_proxy_enabled is Some ==> r.syn_proxy_enabled == p.syn_proxy_enabled->0
            &&& p.syn_proxy_enabled is None ==> r.syn_proxy_enabled == s.syn_proxy_enabled
            &&& p.l7_scan_enabled is Some ==> r.l7_scan_enabled == p.l7_scan_enabled->0
            &&& p.l7_scan_enabled is None ==> r.l7_scan_enabled == s.l7_scan_enabled
            &&& p.udp_flood_enabled is Some ==> r.udp_flood_enabled == p.udp_flood_enabled->0
            &&& p.udp_flood_enabled is None ==> r.udp_flood_enabled == s.udp_flood_enabled
            &&& p.icmp_flood_enabled is Some ==> r.icmp_flood_enabled == p.icmp_flood_enabled->0
            &&& p.icmp_flood_enabled is None ==> r.icmp_flood_enabled == s.icmp_flood_enabled
            &&& p.geoip_enabled is Some ==> r.geoip_enabled == p.geoip_enabled->0
            &&& p.geoip_enabled is None ==> r.geoip_enabled == s.geoip_enabled
            &&& p.tcp_reset_on_drop is Some ==> r.tcp_reset_on_drop == p.tcp_reset_on_drop->0
            &&& p.tcp_reset_on_drop is None ==> r.tcp_reset_on_drop == s.tcp_reset_on_drop
            &&& p.trust_enabled is Some ==> r.trust_enabled == p.trust_enabled->0
            &&& p.trust_enabled is None ==> r.trust_enabled == s.trust_enabled
            &&& p.ebpf_debug_enabled is Some ==> r.ebpf_debug_enabled == p.ebpf_debug_enabled->0
            &&& p.ebpf_debug_enabled is None ==> r.ebpf_debug_enabled == s.ebpf_debug_enabled
            &&& p.adaptive is Some ==> r.adaptive == p.adaptive->0
            &&& p.adaptive is None ==> r.adaptive == s.adaptive
            &&& p.rate_limit is Some ==> r.rate_limit == p.rate_limit->0
            &&& p.rate_limit is None && p.rate_limit_enabled is Some ==> r.rate_limit_enabled
                == p.rate_limit_enabled->0 && r.rate_limit.threshold == s.rate_limit.threshold
            &&& p.rate_limit is None && p.rate_limit_enabled is None ==> r.rate_limit
                == s.rate_limit && r.rate_limit_enabled == s.rate_limit_enabled
        }),
{
}

} // verus!
