//! What the console and its callers see of a node.

use crate::common::CookieSecret;
use crate::common::IpKey;
use crate::common::RateLimitConfig;
use crate::common::RuntimeConfig;
use crate::feed::looks_like_json;
use crate::ip::hex_value;
use crate::maps::counts_held;
use crate::maps::key_octets;
use crate::maps::times_held;
use crate::node::adaptive::AdaptiveEngine;
use crate::node::alert::message_text;
use crate::node::alert::payload_is;
use crate::node::alert::rules_of;
use crate::node::alert::AlertEvent;
use crate::node::alert::AlertManager;
use crate::node::alert::AlertPayload;
use crate::node::attackers::Attacker;
use crate::node::audit::filled_lines;
use crate::node::auth::asks_for_page;
use crate::node::auth::hex_digits;
use crate::node::config::BlockOrigin;
use crate::node::config::Config;
use crate::node::control::actor_text;
use crate::node::events::heard;
use crate::node::hub_client::since_path;
use crate::node::ip_report::minute_of;
use crate::node::ip_report::series_of;
use crate::node::ip_report::series_start;
use crate::node::ip_report::IpSeriesPoint;
use crate::node::login_limiter::recent;
use crate::node::login_limiter::refused;
use crate::node::login_limiter::Attempts;
use crate::node::modules::modules_of;
use crate::node::modules::ModuleView;
use crate::node::packet_log::PacketSampleEntry;
use crate::node::report::counters_text;
use crate::node::report::label_text;
use crate::node::report::line_text;
use crate::node::report::maps_text;
use crate::node::report::metrics_of;
use crate::node::report::ports_text;
use crate::node::report::protocols_text;
use crate::node::report::sources_text;
use crate::node::report::times_text;
use crate::node::report::MapInfo;
use crate::node::report::StatsResponse;
use crate::node::snapshot::is_snapshot;
use crate::node::snapshot::limits_of;
use crate::node::snapshot::switches_of;
use crate::node::snapshot::RuntimeConfigSnapshot;
use crate::node::startup::bind_text;
use crate::node::stats::Stats;
use crate::node::status::figure_lines;
use crate::node::status::status_lines;
use crate::node::status::StatusFigures;
use crate::node::sync::first_secret;
use crate::node::sync::rotated;
use crate::node::timeseries::TimeSeriesWindow;
use crate::node::tui::figures;
use crate::node::tui::places;
use crate::node::tui::rows_show;
use crate::node::web::after_login;
use crate::node::web::claims_too_much;
use crate::node::web::cookie_text;
use crate::node::web::longest;
use crate::node::web::RuleList;
use crate::rank::first_of;
use crate::rank::ranked;
use crate::text::dec;
use crate::text::has_part;
use crate::text::law_dec_reads_back;
use crate::text::lemma_first_at_is;
use crate::text::split_on;
use crate::text::trimmed;
use vstd::prelude::*;

verus! {

/// How many numbers `n` hexadecimal digits can write.
pub open spec fn hex_size(n: nat) -> int
    decreases n,
{
    if n == 0 {
        1
    } else {
        16 * hex_size((n - 1) as nat)
    }
}

/// The digits of a number are as many as asked for, and they write the number: two numbers
/// never make the same token.
pub proof fn law_token_writes_its_number(v: int, n: nat)
    requires
        0 <= v < hex_size(n),
    ensures
        hex_digits(v, n).len() == n,
        hex_value(hex_digits(v, n)) == v,
    decreases n,
{
    if n > 0 {
        let m: nat = (n - 1) as nat;
        law_token_writes_its_number(v / 16, m);
        let front: Seq<char> = hex_digits(v / 16, m);
        let c: char = crate::ip_format::hex_char(v % 16);
        assert(front.push(c).drop_last() =~= front);
        assert(front.push(c).last() == c);
        assert(crate::ip::hex_digit_value(c) == v % 16);
    }
}

/// Of the requests that are turned away, those of a browser for the console's page are sent
/// to the login.
pub proof fn law_browsers_are_sent_to_the_login(path: Seq<char>, accept: Seq<char>)
    ensures
        asks_for_page("/"@, Some("text/html"@)),
        path != "/"@ ==> !asks_for_page(path, Some(accept)),
        !asks_for_page(path, None),
        !has_part(accept, "text/html"@) ==> !asks_for_page(path, Some(accept)),
{
    lemma_part_of_itself(Seq::empty(), "text/html"@, Seq::empty());
}

/// A body is too large where its length says more than a mebibyte; what is no number says
/// nothing.
pub proof fn law_large_bodies_are_refused(n: u64)
    ensures
        claims_too_much(Some(dec(n as nat))) <==> n > 1_048_576,
        !claims_too_much(None),
{
    law_dec_reads_back(n as nat);
    assert(crate::text::is_digit(dec(n as nat)[0]));
}

/// The console takes as many rules as the packet path holds.
pub proof fn law_lists_have_their_length()
    ensures
        longest(RuleList::PortRules) == 32,
        longest(RuleList::Patterns) == 8,
        longest(RuleList::Projects) == 256,
{
}

/// The cookie of a login starts with the token and keeps it from scripts.
pub proof fn law_cookie_holds_the_token(token: Seq<char>)
    requires
        !token.contains(';'),
    ensures
        split_on(cookie_text(token), ';')[0] == "eshield-token="@ + token,
        has_part(cookie_text(token), "HttpOnly"@),
{
    reveal_strlit("eshield-token=");
    reveal_strlit("; Path=/; HttpOnly; SameSite=Lax");
    reveal_strlit("HttpOnly");
    let name: Seq<char> = "eshield-token="@;
    let tail: Seq<char> = "; Path=/; HttpOnly; SameSite=Lax"@;
    let s: Seq<char> = cookie_text(token);
    let i: int = (name.len() + token.len()) as int;
    assert(s =~= name + token + tail);
    assert forall|j: int| 0 <= j < i implies s[j] != ';' by {
        if j < name.len() {
            assert(s[j] == name[j]);
        } else {
            assert(s[j] == token[j - name.len()]);
            assert(token.contains(token[j - name.len()]));
        }
    }
    assert(s[i] == ';');
    lemma_first_at_is(s, ';', i);
    assert(s.take(i) =~= name + token);
    let w: Seq<char> = "HttpOnly"@;
    let at: int = i + 10;
    assert(s.subrange(at, at + w.len()) =~= w);
}

/// A login with the right token forgets the failures, one with a wrong token adds one, and
/// while logins are refused neither does anything.
pub proof fn law_login_is_remembered(a: Attempts, now_ns: u64)
    requires
        now_ns + 300_000_000_000 <= u64::MAX,
    ensures
        !refused(a, now_ns) ==> after_login(a, true, now_ns) == (Attempts {
            times: Seq::empty(),
            locked_until: None,
        }),
        !refused(a, now_ns) ==> recent(after_login(a, false, now_ns).times, now_ns).len() == recent(
            a.times,
            now_ns,
        ).len() + 1,
        refused(a, now_ns) ==> refused(after_login(a, true, now_ns), now_ns) && refused(
            after_login(a, false, now_ns),
            now_ns,
        ),
{
    let r: Seq<u64> = recent(a.times, now_ns);
    lemma_recent_twice(a.times, now_ns);
    let with: Seq<u64> = r.push(now_ns);
    assert(with.drop_last() =~= r);
    assert(with.last() == now_ns);
    assert(recent(with, now_ns) == r.push(now_ns));
}

proof fn lemma_recent_twice(times: Seq<u64>, now_ns: u64)
    ensures
        recent(recent(times, now_ns), now_ns) == recent(times, now_ns),
    decreases times.len(),
{
    if times.len() > 0 {
        lemma_recent_twice(times.drop_last(), now_ns);
        let front: Seq<u64> = recent(times.drop_last(), now_ns);
        let all: Seq<u64> = front.push(times.last());
        assert(all.drop_last() =~= front);
        assert(all.last() == times.last());
    }
}

/// An alert tells what each rule dropped, each under its own name.
pub proof fn law_alert_tells_of_each_rule(s: Stats)
    ensures
        rules_of(s).contains(("blacklist"@, s.blacklist_blocked)),
        rules_of(s).contains(("rate_limit"@, s.rate_limited)),
        rules_of(s).contains(("syn_flood"@, s.syn_flood_blocked)),
        rules_of(s).contains(("l7"@, s.l7_blocked)),
        rules_of(s).contains(("adaptive"@, s.adaptive_blocked)),
        rules_of(s).contains(("udp_flood"@, s.udp_flood_blocked)),
        rules_of(s).contains(("icmp_flood"@, s.icmp_flood_blocked)),
        rules_of(s).contains(("waf"@, s.waf_blocked)),
        rules_of(s).contains(("geoip"@, s.geoip_blocked)),
        rules_of(s).contains(("challenge"@, s.challenge_issued)),
        rules_of(s).len() == 10,
{
    let r: Seq<(Seq<char>, u64)> = rules_of(s);
    assert(r[0] == ("blacklist"@, s.blacklist_blocked));
    assert(r[1] == ("rate_limit"@, s.rate_limited));
    assert(r[2] == ("syn_flood"@, s.syn_flood_blocked));
    assert(r[3] == ("l7"@, s.l7_blocked));
    assert(r[4] == ("adaptive"@, s.adaptive_blocked));
    assert(r[5] == ("udp_flood"@, s.udp_flood_blocked));
    assert(r[6] == ("icmp_flood"@, s.icmp_flood_blocked));
    assert(r[7] == ("waf"@, s.waf_blocked));
    assert(r[8] == ("geoip"@, s.geoip_blocked));
    assert(r[9] == ("challenge"@, s.challenge_issued));
}

/// What is part of a text is part of every text that goes on from it or leads to it.
proof fn lemma_part_in(a: Seq<char>, x: Seq<char>, b: Seq<char>, p: Seq<char>)
    requires
        has_part(x, p),
    ensures
        has_part(a + x, p),
        has_part(x + b, p),
        has_part(a + x + b, p),
{
    let i: int = choose|i: int|
        0 <= i && i + p.len() <= x.len() && #[trigger] x.subrange(i, i + p.len()) == p;
    let k: int = a.len() + i;
    assert((a + x).subrange(k, k + p.len()) =~= p) by {
        assert((a + x).subrange(k, k + p.len()) =~= x.subrange(i, i + p.len()));
    }
    assert((x + b).subrange(i, i + p.len()) =~= x.subrange(i, i + p.len()));
    assert((a + x + b).subrange(k, k + p.len()) =~= x.subrange(i, i + p.len()));
}

proof fn lemma_part_of_itself(a: Seq<char>, p: Seq<char>, b: Seq<char>)
    ensures
        has_part(p, p),
        has_part(a + p + b, p),
{
    let i: int = 0;
    assert(p.subrange(i, i + p.len()) =~= p);
    lemma_part_in(a, p, b, p);
}

/// Texts one after the other.
pub open spec fn all_of(list: Seq<Seq<char>>) -> Seq<char>
    decreases list.len(),
{
    if list.len() == 0 {
        Seq::empty()
    } else {
        all_of(list.drop_last()) + list.last()
    }
}

proof fn lemma_part_of_all(list: Seq<Seq<char>>, i: int, p: Seq<char>)
    requires
        0 <= i < list.len(),
        has_part(list[i], p),
    ensures
        has_part(all_of(list), p),
    decreases list.len(),
{
    let front: Seq<Seq<char>> = list.drop_last();
    if i == list.len() - 1 {
        lemma_part_in(all_of(front), list.last(), Seq::empty(), p);
    } else {
        assert(front[i] == list[i]);
        lemma_part_of_all(front, i, p);
        lemma_part_in(Seq::empty(), all_of(front), list.last(), p);
    }
}

proof fn lemma_all_push(list: Seq<Seq<char>>, x: Seq<char>)
    ensures
        all_of(list.push(x)) == all_of(list) + x,
{
    assert(list.push(x).drop_last() =~= list);
    assert(list.push(x).last() == x);
}

/// The line of a figure: its name, the interface, and the number.
pub open spec fn figure(name: Seq<char>, interface: Seq<char>, n: u64) -> Seq<char> {
    name + "{interface=\""@ + interface + "\"} "@ + dec(n as nat) + "\n"@
}

/// The line of a figure of a protocol.
pub open spec fn protocol_figure(interface: Seq<char>, protocol: Seq<char>, n: u64) -> Seq<char> {
    "eshield_dropped_by_protocol_total{interface=\""@ + interface + "\",protocol=\""@ + protocol
        + "\"} "@ + dec(n as nat) + "\n"@
}

proof fn lemma_counter(name: Seq<char>, help: Seq<char>, i: Seq<char>, n: u64)
    ensures
        has_part(crate::node::report::counter_text(name, help, i, n), figure(name, i, n)),
{
    let head: Seq<char> = crate::node::report::head_text(name, help, "counter"@);
    let line: Seq<char> = line_text(name, i, Seq::empty(), n);
    reveal_strlit("\"");
    reveal_strlit("} ");
    reveal_strlit("\"} ");
    assert("\""@ + "} "@ =~= "\"} "@);
    assert(line =~= figure(name, i, n));
    lemma_part_of_itself(head, line, "\n"@);
}

proof fn lemma_counters(s: StatsResponse, i: Seq<char>, k: int)
    requires
        0 <= k < 11,
    ensures
        has_part(counters_text(s, i), counter_lines(s, i)[k]),
{
    let c: Seq<Seq<char>> = counter_texts(s, i);
    lemma_all_counters(s, i);
    lemma_counter(c_name(k), c_help(k), i, c_value(s, k));
    lemma_part_of_all(c, k, counter_lines(s, i)[k]);
}

spec fn c_name(k: int) -> Seq<char> {
    if k == 0 {
        "eshield_dropped_total"@
    } else if k == 1 {
        "eshield_passed_total"@
    } else if k == 2 {
        "eshield_blacklist_blocked_total"@
    } else if k == 3 {
        "eshield_rate_limited_total"@
    } else if k == 4 {
        "eshield_syn_flood_blocked_total"@
    } else if k == 5 {
        "eshield_l7_blocked_total"@
    } else if k == 6 {
        "eshield_adaptive_blocked_total"@
    } else if k == 7 {
        "eshield_udp_flood_blocked_total"@
    } else if k == 8 {
        "eshield_icmp_flood_blocked_total"@
    } else if k == 9 {
        "eshield_geoip_blocked_total"@
    } else {
        "eshield_conn_track_blocked_total"@
    }
}

spec fn c_help(k: int) -> Seq<char> {
    if k == 0 {
        "Total dropped packets"@
    } else if k == 1 {
        "Total passed packets"@
    } else if k == 2 {
        "Blacklist blocked packets"@
    } else if k == 3 {
        "Rate limited packets"@
    } else if k == 4 {
        "SYN flood blocked packets"@
    } else if k == 5 {
        "L7 scan blocked packets"@
    } else if k == 6 {
        "Adaptive threshold blocked packets"@
    } else if k == 7 {
        "UDP flood blocked packets"@
    } else if k == 8 {
        "ICMP flood blocked packets"@
    } else if k == 9 {
        "GeoIP blocked packets"@
    } else {
        "Connection tracking blocked packets"@
    }
}

spec fn c_value(s: StatsResponse, k: int) -> u64 {
    if k == 0 {
        s.total_dropped
    } else if k == 1 {
        s.total_passed
    } else if k == 2 {
        s.blacklist_blocked
    } else if k == 3 {
        s.rate_limited
    } else if k == 4 {
        s.syn_flood_blocked
    } else if k == 5 {
        s.l7_blocked
    } else if k == 6 {
        s.adaptive_blocked
    } else if k == 7 {
        s.udp_flood_blocked
    } else if k == 8 {
        s.icmp_flood_blocked
    } else if k == 9 {
        s.geoip_blocked
    } else {
        s.conn_track_blocked
    }
}

spec fn counter_texts(s: StatsResponse, i: Seq<char>) -> Seq<Seq<char>> {
    Seq::new(
        11,
        |k: int| crate::node::report::counter_text(c_name(k), c_help(k), i, c_value(s, k)),
    )
}

spec fn counter_lines(s: StatsResponse, i: Seq<char>) -> Seq<Seq<char>> {
    Seq::new(11, |k: int| figure(c_name(k), i, c_value(s, k)))
}

proof fn lemma_take_push(list: Seq<Seq<char>>, k: int)
    requires
        0 <= k < list.len(),
    ensures
        all_of(list.take(k + 1)) == all_of(list.take(k)) + list[k],
{
    assert(list.take(k + 1) =~= list.take(k).push(list[k]));
    lemma_all_push(list.take(k), list[k]);
}

proof fn lemma_all_counters(s: StatsResponse, i: Seq<char>)
    ensures
        counters_text(s, i) == all_of(counter_texts(s, i)),
{
    let c: Seq<Seq<char>> = counter_texts(s, i);
    assert(all_of(c.take(0)) =~= Seq::<char>::empty());
    lemma_take_push(c, 0);
    lemma_take_push(c, 1);
    lemma_take_push(c, 2);
    lemma_take_push(c, 3);
    lemma_take_push(c, 4);
    lemma_take_push(c, 5);
    lemma_take_push(c, 6);
    lemma_take_push(c, 7);
    lemma_take_push(c, 8);
    lemma_take_push(c, 9);
    lemma_take_push(c, 10);
    assert(all_of(c.take(1)) =~= c[0]);
    assert(c.take(11) =~= c);
}

proof fn lemma_part_of_six(
    a: Seq<char>,
    b: Seq<char>,
    c: Seq<char>,
    d: Seq<char>,
    e: Seq<char>,
    f: Seq<char>,
    p: Seq<char>,
)
    requires
        has_part(a, p) || has_part(b, p) || has_part(c, p) || has_part(d, p) || has_part(e, p)
            || has_part(f, p),
    ensures
        has_part(a + b + c + d + e + f, p),
{
    if has_part(a, p) {
        lemma_part_in(Seq::empty(), a, b, p);
    } else if has_part(b, p) {
        lemma_part_in(a, b, Seq::empty(), p);
    }
    if has_part(a + b, p) {
        lemma_part_in(Seq::empty(), a + b, c, p);
    } else if has_part(c, p) {
        lemma_part_in(a + b, c, Seq::empty(), p);
    }
    if has_part(a + b + c, p) {
        lemma_part_in(Seq::empty(), a + b + c, d, p);
    } else if has_part(d, p) {
        lemma_part_in(a + b + c, d, Seq::empty(), p);
    }
    if has_part(a + b + c + d, p) {
        lemma_part_in(Seq::empty(), a + b + c + d, e, p);
    } else if has_part(e, p) {
        lemma_part_in(a + b + c + d, e, Seq::empty(), p);
    }
    if has_part(a + b + c + d + e, p) {
        lemma_part_in(Seq::empty(), a + b + c + d + e, f, p);
    } else {
        lemma_part_in(a + b + c + d + e, f, Seq::empty(), p);
    }
}

proof fn lemma_part_of_metrics(
    s: StatsResponse,
    hist: Seq<u64>,
    i: Seq<char>,
    maps: Seq<MapInfo>,
    blacklist: Option<u64>,
    rates: Option<u64>,
    p: Seq<char>,
)
    requires
        has_part(counters_text(s, i), p) || has_part(protocols_text(s, i), p) || has_part(
            sources_text(s.top_attackers@, i),
            p,
        ) || has_part(ports_text(s.top_ports@, i), p) || has_part(times_text(hist, i), p)
            || has_part(maps_text(maps, blacklist, rates, i), p),
    ensures
        has_part(metrics_of(s, hist, i, maps, blacklist, rates), p),
{
    lemma_part_of_six(
        counters_text(s, i),
        protocols_text(s, i),
        sources_text(s.top_attackers@, i),
        ports_text(s.top_ports@, i),
        times_text(hist, i),
        maps_text(maps, blacklist, rates, i),
        p,
    );
}

/// The metrics of a node show each of its counters, under its own name.
pub proof fn law_metrics_show_the_counters(
    s: StatsResponse,
    hist: Seq<u64>,
    i: Seq<char>,
    maps: Seq<MapInfo>,
    blacklist: Option<u64>,
    rates: Option<u64>,
)
    ensures
        ({
            let t: Seq<char> = metrics_of(s, hist, i, maps, blacklist, rates);
            &&& has_part(t, figure("eshield_dropped_total"@, i, s.total_dropped))
            &&& has_part(t, figure("eshield_passed_total"@, i, s.total_passed))
            &&& has_part(t, figure("eshield_blacklist_blocked_total"@, i, s.blacklist_blocked))
            &&& has_part(t, figure("eshield_rate_limited_total"@, i, s.rate_limited))
            &&& has_part(t, figure("eshield_syn_flood_blocked_total"@, i, s.syn_flood_blocked))
            &&& has_part(t, figure("eshield_l7_blocked_total"@, i, s.l7_blocked))
            &&& has_part(t, figure("eshield_adaptive_blocked_total"@, i, s.adaptive_blocked))
            &&& has_part(t, figure("eshield_udp_flood_blocked_total"@, i, s.udp_flood_blocked))
            &&& has_part(t, figure("eshield_icmp_flood_blocked_total"@, i, s.icmp_flood_blocked))
            &&& has_part(t, figure("eshield_geoip_blocked_total"@, i, s.geoip_blocked))
            &&& has_part(t, figure("eshield_conn_track_blocked_total"@, i, s.conn_track_blocked))
        }),
{
    let t: Seq<char> = metrics_of(s, hist, i, maps, blacklist, rates);
    let lines: Seq<Seq<char>> = counter_lines(s, i);
    assert forall|k: int| 0 <= k < 11 implies has_part(t, #[trigger] lines[k]) by {
        lemma_counters(s, i, k);
        lemma_part_of_metrics(s, hist, i, maps, blacklist, rates, lines[k]);
    }
    assert(has_part(t, lines[0]) && has_part(t, lines[1]) && has_part(t, lines[2]));
    assert(has_part(t, lines[3]) && has_part(t, lines[4]) && has_part(t, lines[5]));
    assert(has_part(t, lines[6]) && has_part(t, lines[7]) && has_part(t, lines[8]));
    assert(has_part(t, lines[9]) && has_part(t, lines[10]));
}

proof fn lemma_protocol_line(i: Seq<char>, protocol: Seq<char>, n: u64)
    ensures
        line_text(
            "eshield_dropped_by_protocol_total"@,
            i,
            label_text("protocol"@, protocol),
            n,
        ) == protocol_figure(i, protocol, n),
{
    reveal_strlit("eshield_dropped_by_protocol_total");
    reveal_strlit("{interface=\"");
    reveal_strlit("eshield_dropped_by_protocol_total{interface=\"");
    reveal_strlit("\"");
    reveal_strlit(",");
    reveal_strlit("protocol");
    reveal_strlit("=\"");
    reveal_strlit("\",protocol=\"");
    reveal_strlit("} ");
    reveal_strlit("\"} ");
    assert("eshield_dropped_by_protocol_total"@ + "{interface=\""@
        =~= "eshield_dropped_by_protocol_total{interface=\""@);
    assert("\""@ + (","@ + "protocol"@ + "=\""@) =~= "\",protocol=\""@);
    assert("\""@ + "} "@ =~= "\"} "@);
    assert(line_text(
        "eshield_dropped_by_protocol_total"@,
        i,
        label_text("protocol"@, protocol),
        n,
    ) =~= ("eshield_dropped_by_protocol_total"@ + "{interface=\""@) + i + ("\""@ + (","@
        + "protocol"@ + "=\""@)) + protocol + ("\""@ + "} "@) + dec(n as nat) + "\n"@);
}

/// The metrics of a node show what was dropped of each protocol.
pub proof fn law_metrics_show_the_protocols(
    s: StatsResponse,
    hist: Seq<u64>,
    i: Seq<char>,
    maps: Seq<MapInfo>,
    blacklist: Option<u64>,
    rates: Option<u64>,
)
    ensures
        ({
            let t: Seq<char> = metrics_of(s, hist, i, maps, blacklist, rates);
            &&& has_part(t, protocol_figure(i, "tcp"@, s.tcp_dropped))
            &&& has_part(t, protocol_figure(i, "udp"@, s.udp_dropped))
            &&& has_part(t, protocol_figure(i, "icmp"@, s.icmp_dropped))
            &&& has_part(t, protocol_figure(i, "other"@, s.other_dropped))
        }),
{
    let head: Seq<char> = crate::node::report::head_text(
        "eshield_dropped_by_protocol_total"@,
        "Dropped packets by IP protocol"@,
        "counter"@,
    );
    let a: Seq<char> = protocol_figure(i, "tcp"@, s.tcp_dropped);
    let b: Seq<char> = protocol_figure(i, "udp"@, s.udp_dropped);
    let c: Seq<char> = protocol_figure(i, "icmp"@, s.icmp_dropped);
    let d: Seq<char> = protocol_figure(i, "other"@, s.other_dropped);
    lemma_protocol_line(i, "tcp"@, s.tcp_dropped);
    lemma_protocol_line(i, "udp"@, s.udp_dropped);
    lemma_protocol_line(i, "icmp"@, s.icmp_dropped);
    lemma_protocol_line(i, "other"@, s.other_dropped);
    lemma_five(head, a, b, c, d);
    lemma_part_of_metrics(s, hist, i, maps, blacklist, rates, a);
    lemma_part_of_metrics(s, hist, i, maps, blacklist, rates, b);
    lemma_part_of_metrics(s, hist, i, maps, blacklist, rates, c);
    lemma_part_of_metrics(s, hist, i, maps, blacklist, rates, d);
}

proof fn lemma_five(h: Seq<char>, a: Seq<char>, b: Seq<char>, c: Seq<char>, d: Seq<char>)
    ensures
        has_part(h + a + b + c + d, a),
        has_part(h + a + b + c + d, b),
        has_part(h + a + b + c + d, c),
        has_part(h + a + b + c + d, d),
{
    lemma_part_of_itself(h, a, b);
    lemma_part_in(Seq::empty(), h + a + b, c, a);
    lemma_part_in(Seq::empty(), h + a + b + c, d, a);
    lemma_part_of_itself(h + a, b, c);
    lemma_part_in(Seq::empty(), h + a + b + c, d, b);
    lemma_part_of_itself(h + a + b, c, d);
    lemma_part_of_itself(h + a + b + c, d, Seq::empty());
    assert(h + a + b + c + d + Seq::<char>::empty() =~= h + a + b + c + d);
}

/// The line of a figure with one more label.
pub open spec fn named_figure(
    name: Seq<char>,
    interface: Seq<char>,
    label: Seq<char>,
    value: Seq<char>,
    n: u64,
) -> Seq<char> {
    name + "{interface=\""@ + interface + "\","@ + label + "=\""@ + value + "\"} "@ + dec(n as nat)
        + "\n"@
}

proof fn lemma_named(name: Seq<char>, i: Seq<char>, label: Seq<char>, value: Seq<char>, n: u64)
    ensures
        line_text(name, i, label_text(label, value), n) == named_figure(name, i, label, value, n),
{
    reveal_strlit("\"");
    reveal_strlit(",");
    reveal_strlit("\",");
    reveal_strlit("} ");
    reveal_strlit("\"} ");
    assert("\""@ + ","@ =~= "\","@);
    assert("\""@ + "} "@ =~= "\"} "@);
    let front: Seq<char> = name + "{interface=\""@ + i;
    let tail: Seq<char> = dec(n as nat) + "\n"@;
    assert(line_text(name, i, label_text(label, value), n) =~= front + ("\""@ + ","@) + label
        + "=\""@ + value + ("\""@ + "} "@) + tail);
    assert(named_figure(name, i, label, value, n) =~= front + "\","@ + label + "=\""@ + value
        + "\"} "@ + tail);
}

proof fn lemma_source(list: Seq<Attacker>, i: Seq<char>, k: int, p: Seq<char>)
    requires
        0 <= k < list.len(),
        p == line_text(
            "eshield_source_dropped_total"@,
            i,
            label_text("ip"@, list[k].ip@),
            list[k].count,
        ),
    ensures
        has_part(sources_text(list, i), p),
    decreases list.len(),
{
    let front: Seq<Attacker> = list.drop_last();
    let last: Seq<char> = crate::node::report::source_text(list.last(), i);
    if k == list.len() - 1 {
        let head: Seq<char> = "\n"@ + crate::node::report::head_text(
            "eshield_source_dropped_total"@,
            "Dropped packets per source IP"@,
            "counter"@,
        );
        lemma_part_of_itself(head, p, Seq::empty());
        assert(head + p + Seq::empty() =~= last);
        lemma_part_in(sources_text(front, i), last, Seq::empty(), p);
    } else {
        assert(front[k] == list[k]);
        lemma_source(front, i, k, p);
        lemma_part_in(Seq::empty(), sources_text(front, i), last, p);
    }
}

proof fn lemma_port(list: Seq<(u16, u64)>, i: Seq<char>, k: int, p: Seq<char>)
    requires
        0 <= k < list.len(),
        p == line_text(
            "eshield_dropped_by_port_total"@,
            i,
            label_text("port"@, dec(list[k].0 as nat)),
            list[k].1,
        ),
    ensures
        has_part(crate::node::report::port_lines(list, i), p),
    decreases list.len(),
{
    let front: Seq<(u16, u64)> = list.drop_last();
    let last: Seq<char> = line_text(
        "eshield_dropped_by_port_total"@,
        i,
        label_text("port"@, dec(list.last().0 as nat)),
        list.last().1,
    );
    let lines: Seq<char> = crate::node::report::port_lines(front, i);
    if k == list.len() - 1 {
        lemma_part_of_itself(lines, p, Seq::empty());
        assert(lines + p + Seq::empty() =~= lines + last);
    } else {
        assert(front[k] == list[k]);
        lemma_port(front, i, k, p);
        lemma_part_in(Seq::empty(), lines, last, p);
    }
}

/// The metrics of a node show each source and each port of its lists with its count.
pub proof fn law_metrics_show_sources_and_ports(
    s: StatsResponse,
    hist: Seq<u64>,
    i: Seq<char>,
    maps: Seq<MapInfo>,
    blacklist: Option<u64>,
    rates: Option<u64>,
    k: int,
)
    ensures
        ({
            let t: Seq<char> = metrics_of(s, hist, i, maps, blacklist, rates);
            &&& 0 <= k < s.top_attackers@.len() ==> has_part(
                t,
                named_figure(
                    "eshield_source_dropped_total"@,
                    i,
                    "ip"@,
                    s.top_attackers@[k].ip@,
                    s.top_attackers@[k].count,
                ),
            )
            &&& 0 <= k < s.top_ports@.len() ==> has_part(
                t,
                named_figure(
                    "eshield_dropped_by_port_total"@,
                    i,
                    "port"@,
                    dec(s.top_ports@[k].0 as nat),
                    s.top_ports@[k].1,
                ),
            )
        }),
{
    if 0 <= k < s.top_attackers@.len() {
        let a: Attacker = s.top_attackers@[k];
        let name: Seq<char> = "eshield_source_dropped_total"@;
        let p: Seq<char> = line_text(name, i, label_text("ip"@, a.ip@), a.count);
        lemma_named(name, i, "ip"@, a.ip@, a.count);
        lemma_source(s.top_attackers@, i, k, p);
        lemma_part_of_metrics(s, hist, i, maps, blacklist, rates, p);
    }
    if 0 <= k < s.top_ports@.len() {
        let list: Seq<(u16, u64)> = s.top_ports@;
        let name: Seq<char> = "eshield_dropped_by_port_total"@;
        let v: Seq<char> = dec(list[k].0 as nat);
        let p: Seq<char> = line_text(name, i, label_text("port"@, v), list[k].1);
        lemma_named(name, i, "port"@, v, list[k].1);
        lemma_port(list, i, k, p);
        let head: Seq<char> = "\n"@ + crate::node::report::head_text(
            name,
            "Dropped packets by destination port"@,
            "counter"@,
        );
        lemma_part_in(head, crate::node::report::port_lines(list, i), Seq::empty(), p);
        lemma_part_of_metrics(s, hist, i, maps, blacklist, rates, p);
    }
}

/// The sum of the first `n` numbers.
pub open spec fn first_sum(list: Seq<u64>, n: int) -> int
    decreases n,
{
    if n <= 0 {
        0
    } else {
        first_sum(list, n - 1) + list[n - 1]
    }
}

proof fn lemma_first_sum(list: Seq<u64>, n: int, m: int)
    requires
        0 <= n <= m,
        first_sum(list, m) <= u64::MAX,
    ensures
        0 <= first_sum(list, n) <= first_sum(list, m),
        crate::node::report::sum_to(list, n) == first_sum(list, n),
    decreases m, n,
{
    if n < m {
        lemma_first_sum_least(list, m - 1);
        lemma_first_sum(list, n, m - 1);
    } else if n > 0 {
        lemma_first_sum_least(list, n - 1);
        lemma_first_sum(list, n - 1, m - 1);
    }
}

proof fn lemma_first_sum_least(list: Seq<u64>, n: int)
    ensures
        first_sum(list, n) >= 0,
    decreases n,
{
    if n > 0 {
        lemma_first_sum_least(list, n - 1);
    }
}

proof fn lemma_bucket(hist: Seq<u64>, n: int, i: Seq<char>, k: int, p: Seq<char>)
    requires
        0 <= k < n,
        p == line_text(
            "eshield_event_consumer_duration_us_bucket"@,
            i,
            label_text("le"@, crate::node::report::bound_text(k)),
            crate::node::report::sum_to(hist, k + 1),
        ),
    ensures
        has_part(crate::node::report::bucket_lines(hist, n, i), p),
    decreases n,
{
    let front: Seq<char> = crate::node::report::bucket_lines(hist, n - 1, i);
    let last: Seq<char> = line_text(
        "eshield_event_consumer_duration_us_bucket"@,
        i,
        label_text("le"@, crate::node::report::bound_text(n - 1)),
        crate::node::report::sum_to(hist, n),
    );
    if k == n - 1 {
        lemma_part_of_itself(front, p, Seq::empty());
        assert(front + p + Seq::empty() =~= front + last);
    } else {
        lemma_bucket(hist, n - 1, i, k, p);
        lemma_part_in(Seq::empty(), front, last, p);
    }
}

/// The line of a class of processing times.
pub open spec fn time_figure(interface: Seq<char>, bound: Seq<char>, n: int) -> Seq<char> {
    named_figure(
        "eshield_event_consumer_duration_us_bucket"@,
        interface,
        "le"@,
        bound,
        n as u64,
    )
}

proof fn lemma_time(
    s: StatsResponse,
    hist: Seq<u64>,
    i: Seq<char>,
    maps: Seq<MapInfo>,
    blacklist: Option<u64>,
    rates: Option<u64>,
    k: int,
)
    requires
        0 <= k < 6,
        first_sum(hist, 6) <= u64::MAX,
    ensures
        has_part(
            metrics_of(s, hist, i, maps, blacklist, rates),
            time_figure(i, crate::node::report::bound_text(k), first_sum(hist, k + 1)),
        ),
{
    let name: Seq<char> = "eshield_event_consumer_duration_us_bucket"@;
    let bound: Seq<char> = crate::node::report::bound_text(k);
    let n: u64 = crate::node::report::sum_to(hist, k + 1);
    lemma_first_sum(hist, k + 1, 6);
    let p: Seq<char> = line_text(name, i, label_text("le"@, bound), n);
    lemma_named(name, i, "le"@, bound, n);
    lemma_bucket(hist, 6, i, k, p);
    let head: Seq<char> = "\n"@ + crate::node::report::head_text(
        "eshield_event_consumer_duration_us"@,
        "Event consumer batch processing duration histogram"@,
        "histogram"@,
    );
    let lines: Seq<char> = crate::node::report::bucket_lines(hist, 6, i);
    let x: Seq<char> = line_text(
        "eshield_event_consumer_duration_us_sum"@,
        i,
        Seq::empty(),
        0,
    );
    let y: Seq<char> = line_text(
        "eshield_event_consumer_duration_us_count"@,
        i,
        Seq::empty(),
        crate::node::report::sum_to(hist, 6),
    );
    lemma_part_in(head, lines, x, p);
    lemma_part_in(Seq::empty(), head + lines + x, y, p);
    lemma_part_of_metrics(s, hist, i, maps, blacklist, rates, p);
}

proof fn lemma_six_sums(h: Seq<u64>)
    ensures
        first_sum(h, 1) == h[0],
        first_sum(h, 2) == h[0] + h[1],
        first_sum(h, 3) == h[0] + h[1] + h[2],
        first_sum(h, 4) == h[0] + h[1] + h[2] + h[3],
        first_sum(h, 5) == h[0] + h[1] + h[2] + h[3] + h[4],
        first_sum(h, 6) == h[0] + h[1] + h[2] + h[3] + h[4] + h[5],
{
    assert(first_sum(h, 0) == 0);
    assert(first_sum(h, 1) == h[0]);
    assert(first_sum(h, 2) == first_sum(h, 1) + h[1]);
    assert(first_sum(h, 3) == first_sum(h, 2) + h[2]);
    assert(first_sum(h, 4) == first_sum(h, 3) + h[3]);
    assert(first_sum(h, 5) == first_sum(h, 4) + h[4]);
}

/// The metrics of a node count with each class of processing times the shorter ones too.
pub proof fn law_metrics_show_the_times(
    s: StatsResponse,
    hist: Seq<u64>,
    i: Seq<char>,
    maps: Seq<MapInfo>,
    blacklist: Option<u64>,
    rates: Option<u64>,
)
    requires
        hist.len() == 6,
        hist[0] + hist[1] + hist[2] + hist[3] + hist[4] + hist[5] <= u64::MAX,
    ensures
        ({
            let t: Seq<char> = metrics_of(s, hist, i, maps, blacklist, rates);
            let a: int = hist[0] as int;
            let b: int = a + hist[1];
            let c: int = b + hist[2];
            let d: int = c + hist[3];
            let e: int = d + hist[4];
            &&& has_part(t, time_figure(i, "1000"@, a))
            &&& has_part(t, time_figure(i, "5000"@, b))
            &&& has_part(t, time_figure(i, "10000"@, c))
            &&& has_part(t, time_figure(i, "50000"@, d))
            &&& has_part(t, time_figure(i, "100000"@, e))
            &&& has_part(t, time_figure(i, "+Inf"@, e + hist[5]))
        }),
{
    lemma_six_sums(hist);
    let t: Seq<char> = metrics_of(s, hist, i, maps, blacklist, rates);
    let a: int = hist[0] as int;
    let b: int = a + hist[1];
    let c: int = b + hist[2];
    let d: int = c + hist[3];
    let e: int = d + hist[4];
    assert(has_part(t, time_figure(i, "1000"@, a))) by {
        lemma_time(s, hist, i, maps, blacklist, rates, 0);
    }
    assert(has_part(t, time_figure(i, "5000"@, b))) by {
        lemma_time(s, hist, i, maps, blacklist, rates, 1);
    }
    assert(has_part(t, time_figure(i, "10000"@, c))) by {
        lemma_time(s, hist, i, maps, blacklist, rates, 2);
    }
    assert(has_part(t, time_figure(i, "50000"@, d))) by {
        lemma_time(s, hist, i, maps, blacklist, rates, 3);
    }
    assert(has_part(t, time_figure(i, "100000"@, e))) by {
        lemma_time(s, hist, i, maps, blacklist, rates, 4);
    }
    assert(has_part(t, time_figure(i, "+Inf"@, e + hist[5]))) by {
        lemma_time(s, hist, i, maps, blacklist, rates, 5);
    }
}

/// The metrics of a node show how many entries its tables of blocks and of rates hold, where
/// that is known.
pub proof fn law_metrics_show_held_entries(
    s: StatsResponse,
    hist: Seq<u64>,
    i: Seq<char>,
    maps: Seq<MapInfo>,
    blocks: u64,
    rates: u64,
)
    ensures
        has_part(
            metrics_of(s, hist, i, maps, Some(blocks), Some(rates)),
            named_figure("eshield_map_entries"@, i, "name"@, "BLACKLIST"@, blocks),
        ),
        has_part(
            metrics_of(s, hist, i, maps, Some(blocks), Some(rates)),
            named_figure("eshield_map_entries"@, i, "name"@, "RATE_MAP"@, rates),
        ),
{
    let name: Seq<char> = "eshield_map_entries"@;
    lemma_named(name, i, "name"@, "BLACKLIST"@, blocks);
    lemma_named(name, i, "name"@, "RATE_MAP"@, rates);
    let x: Seq<char> = line_text(name, i, label_text("name"@, "BLACKLIST"@), blocks);
    let y: Seq<char> = line_text(name, i, label_text("name"@, "RATE_MAP"@), rates);
    let head: Seq<char> = "\n"@ + crate::node::report::head_text(
        "eshield_map_max_entries"@,
        "eBPF map max entries"@,
        "gauge"@,
    ) + crate::node::report::map_lines(maps, i) + "\n"@ + crate::node::report::head_text(
        name,
        "eBPF map current entries"@,
        "gauge"@,
    );
    lemma_part_of_itself(head, x, y);
    lemma_part_of_itself(head + x, y, Seq::empty());
    assert(head + x + y + Seq::empty() =~= head + x + y);
    lemma_part_of_metrics(s, hist, i, maps, Some(blocks), Some(rates), x);
    lemma_part_of_metrics(s, hist, i, maps, Some(blocks), Some(rates), y);
}

/// The status of a node shows the dropped packets, in all and by rule, each under its label.
pub proof fn law_status_shows_the_figures(f: StatusFigures)
    ensures
        ({
            let t: Seq<char> = status_lines(f);
            &&& has_part(t, labelled("总丢弃包数"@, f.total_dropped))
            &&& has_part(t, labelled("黑名单拦截"@, f.blacklist_blocked))
            &&& has_part(t, labelled("速率限制拦截"@, f.rate_limited))
            &&& has_part(t, labelled("SYN Flood 拦截"@, f.syn_flood_blocked))
            &&& has_part(t, labelled("L7 指纹拦截"@, f.l7_blocked))
            &&& has_part(t, labelled("自适应阈值拦截"@, f.adaptive_blocked))
            &&& has_part(t, labelled("UDP Flood 拦截"@, f.udp_flood_blocked))
            &&& has_part(t, labelled("ICMP Flood 拦截"@, f.icmp_flood_blocked))
        }),
{
    let t: Seq<char> = status_lines(f);
    let l: Seq<Seq<char>> = seq![
        labelled("总丢弃包数"@, f.total_dropped),
        labelled("黑名单拦截"@, f.blacklist_blocked),
        labelled("速率限制拦截"@, f.rate_limited),
        labelled("SYN Flood 拦截"@, f.syn_flood_blocked),
        labelled("L7 指纹拦截"@, f.l7_blocked),
        labelled("自适应阈值拦截"@, f.adaptive_blocked),
        labelled("UDP Flood 拦截"@, f.udp_flood_blocked),
        labelled("ICMP Flood 拦截"@, f.icmp_flood_blocked),
    ];
    assert(all_of(l.take(0)) =~= Seq::<char>::empty());
    lemma_take_push(l, 0);
    lemma_take_push(l, 1);
    lemma_take_push(l, 2);
    lemma_take_push(l, 3);
    lemma_take_push(l, 4);
    lemma_take_push(l, 5);
    lemma_take_push(l, 6);
    lemma_take_push(l, 7);
    assert(all_of(l.take(1)) =~= l[0]);
    assert(l.take(8) =~= l);
    assert(figure_lines(f) =~= all_of(l));
    let head: Seq<char> = "eShield 运行状态\n----------------\n"@;
    let rest: Seq<char> = if f.top_attackers@.len() == 0 {
        Seq::empty()
    } else {
        "\nTOP 攻击源:\n"@ + crate::node::status::source_lines(
            crate::rank::first_of(f.top_attackers@, 10),
        )
    };
    assert(t =~= head + all_of(l) + rest);
    assert forall|k: int| 0 <= k < 8 implies has_part(t, #[trigger] l[k]) by {
        lemma_part_of_itself(Seq::empty(), l[k], Seq::empty());
        lemma_part_of_all(l, k, l[k]);
        lemma_part_in(head, all_of(l), rest, l[k]);
    }
    assert(has_part(t, l[0]) && has_part(t, l[1]) && has_part(t, l[2]) && has_part(t, l[3]));
    assert(has_part(t, l[4]) && has_part(t, l[5]) && has_part(t, l[6]) && has_part(t, l[7]));
}

/// A label and a number on a line.
pub open spec fn labelled(label: Seq<char>, n: u64) -> Seq<char> {
    label + ": "@ + dec(n as nat) + "\n"@
}

/// A module of the list is under its name and as the setting says.
pub open spec fn shows_module(m: ModuleView, id: Seq<char>, enabled: bool) -> bool {
    m.id == id && m.enabled == enabled
}

/// The modules of a node are shown as its settings have them.
pub proof fn law_modules_follow_settings(rt: RuntimeConfigSnapshot)
    ensures
        ({
            let m: Seq<ModuleView> = modules_of(rt);
            &&& m.len() == 11
            &&& shows_module(m[0], "syn_flood"@, rt.syn_proxy_enabled)
            &&& shows_module(m[1], "udp_flood"@, rt.udp_flood_enabled)
            &&& shows_module(m[2], "icmp_flood"@, rt.icmp_flood_enabled)
            &&& shows_module(m[3], "rate_limit"@, rt.rate_limit.enabled)
            &&& shows_module(m[4], "adaptive"@, rt.adaptive.enabled)
            &&& shows_module(m[5], "l7_scan"@, rt.l7_scan_enabled)
            &&& shows_module(m[6], "geoip"@, rt.geoip_enabled)
            &&& shows_module(m[7], "tcp_reset"@, rt.tcp_reset_on_drop)
            &&& shows_module(m[8], "trust_score"@, rt.trust_enabled)
            &&& shows_module(m[9], "danger_signal"@, rt.danger_level > 0)
            &&& shows_module(m[10], "port_acl"@, rt.port_acl@.len() > 0)
        }),
{
}

/// The console listens where it is told to, and else on all addresses at its port.
pub proof fn law_console_listens_as_configured(c: Config)
    ensures
        c.web_bind is Some ==> bind_text(c) == c.web_bind->0@,
        c.web_bind is None ==> bind_text(c) == "0.0.0.0:"@ + dec(c.web_port as nat),
{
}

/// The secrets of a node belong to the minute in which it starts; they change when another
/// minute has begun, and the current one becomes the one before.
pub proof fn law_secrets_change_by_the_minute(
    now_s: u64,
    later_s: u64,
    a: [u8; 16],
    b: [u8; 16],
    fresh: [u8; 16],
)
    requires
        now_s <= later_s,
    ensures
        ({
            let s: CookieSecret = first_secret(now_s, a, b);
            let r: Option<CookieSecret> = rotated(Some(s), later_s, fresh);
            &&& s.current == a && s.previous == b
            &&& later_s / 60 == now_s / 60 ==> r is None
            &&& later_s / 60 > now_s / 60 ==> r is Some && r->0.current == fresh && r->0.previous
                == a && rotated(r, later_s, a) is None
            &&& rotated(None, later_s, fresh) is None
        }),
{
}

/// A series goes back as far as was asked for, a minute at least and a day at most.
pub proof fn law_series_goes_back(duration_s: u64, now_ns: u64)
    requires
        now_ns >= 86_400_000_000_000,
    ensures
        60 <= duration_s <= 86400 ==> series_start(duration_s, now_ns) == now_ns - duration_s
            * 1_000_000_000,
        duration_s < 60 ==> series_start(duration_s, now_ns) == now_ns - 60_000_000_000,
        duration_s > 86400 ==> series_start(duration_s, now_ns) == now_ns - 86_400_000_000_000,
{
}

/// A series has a point for each minute, in order, with what was sampled in it; a minute
/// without samples shows no numbers.
pub proof fn law_series_has_every_minute(
    s: Seq<PacketSampleEntry>,
    from_ns: u64,
    now_ns: u64,
    wall_ns: u64,
    i: int,
)
    requires
        from_ns <= now_ns,
        0 <= i < series_of(s, from_ns, now_ns, wall_ns).len(),
        s.len() <= u64::MAX,
    ensures
        ({
            let p: IpSeriesPoint = series_of(s, from_ns, now_ns, wall_ns)[i];
            let minute: int = minute_of(from_ns, now_ns, wall_ns) + i;
            let c: (nat, nat) = crate::node::ip_report::minute_counts(
                s,
                minute as u64,
                now_ns,
                wall_ns,
            );
            &&& minute <= wall_ns / 60_000_000_000
            &&& p.timestamp == minute * 60
            &&& c.0 + c.1 == 0 ==> p.drop_count is None && p.pass_count is None
            &&& c.0 + c.1 > 0 ==> p.drop_count == Some(c.0 as u64) && p.pass_count == Some(
                c.1 as u64,
            )
        }),
{
    crate::node::ip_report::law_series_covers_recent_samples(from_ns, from_ns, now_ns, wall_ns);
}

/// A request for what is new names the time from which on.
pub proof fn law_request_names_its_time(start: Seq<char>, since: u64)
    ensures
        has_part(since_path(start, since), start + dec(since as nat)),
        since_path(start, since) == start + dec(since as nat) + "&limit=100"@,
{
    lemma_part_of_itself(Seq::empty(), start + dec(since as nat), "&limit=100"@);
    assert(Seq::<char>::empty() + (start + dec(since as nat)) + "&limit=100"@ =~= since_path(
        start,
        since,
    ));
}

/// The message of an alert names the interface, the rate and the threshold.
pub proof fn law_alert_message_names_its_cause(interface: Seq<char>, dps: u64, threshold: u64)
    ensures
        has_part(message_text(interface, dps, threshold), "["@ + interface + "]"@),
        has_part(message_text(interface, dps, threshold), dec(dps as nat) + " pps"@),
        has_part(message_text(interface, dps, threshold), dec(threshold as nat) + " pps"@),
{
    reveal_strlit("eShield [");
    reveal_strlit("eShield ");
    reveal_strlit("[");
    reveal_strlit("]");
    reveal_strlit("] 告警：DROP 速率 ");
    reveal_strlit(" 告警：DROP 速率 ");
    reveal_strlit(" pps 超过阈值 ");
    reveal_strlit(" pps");
    reveal_strlit(" 超过阈值 ");
    let t: Seq<char> = message_text(interface, dps, threshold);
    let d: Seq<char> = dec(dps as nat);
    let h: Seq<char> = dec(threshold as nat);
    let p: Seq<char> = "["@ + interface + "]"@;
    assert("eShield ["@ =~= "eShield "@ + "["@);
    assert("] 告警：DROP 速率 "@ =~= "]"@ + " 告警：DROP 速率 "@);
    assert(" pps 超过阈值 "@ =~= " pps"@ + " 超过阈值 "@);
    let r1: Seq<char> = " 告警：DROP 速率 "@ + d + " pps 超过阈值 "@ + h + " pps"@;
    assert(t =~= "eShield "@ + p + r1);
    lemma_part_of_itself("eShield "@, p, r1);
    let a2: Seq<char> = "eShield ["@ + interface + "] 告警：DROP 速率 "@;
    let r2: Seq<char> = " 超过阈值 "@ + h + " pps"@;
    assert(t =~= a2 + (d + " pps"@) + r2);
    lemma_part_of_itself(a2, d + " pps"@, r2);
    let a3: Seq<char> = a2 + d + " pps 超过阈值 "@;
    assert(t =~= a3 + (h + " pps"@) + Seq::empty());
    lemma_part_of_itself(a3, h + " pps"@, Seq::empty());
}

/// A webhook of a kind that takes text is sent text that starts with the message, one of
/// Slack's kind the message itself, and any other the alert.
pub proof fn law_webhooks_get_what_they_take(r: AlertPayload, kind: Seq<char>, e: AlertEvent)
    requires
        payload_is(r, kind, e),
    ensures
        kind == "slack"@ ==> r is Slack && r->text@ == e.message@,
        kind == "dingtalk"@ || kind == "wecom"@ || kind == "wechat"@ ==> r is Text
            && crate::text::starts_with(r->content@, e.message@),
        kind != "slack"@ && kind != "dingtalk"@ && kind != "wecom"@ && kind != "wechat"@ ==> r
            == AlertPayload::Event,
{
    reveal_strlit("slack");
    reveal_strlit("dingtalk");
    reveal_strlit("wecom");
    reveal_strlit("wechat");
    assert("slack"@[0] == 's' && "dingtalk"@[0] == 'd' && "wecom"@[0] == 'w' && "wechat"@[0]
        == 'w');
    if r is Text {
        assert(r->content@.take(e.message@.len() as int) =~= e.message@);
    }
}

/// The lines of a log that hold anything are taken one by one, without the blanks around
/// them.
pub proof fn law_blank_lines_do_not_count(list: Seq<Seq<char>>, line: Seq<char>)
    ensures
        trimmed(line).len() == 0 ==> filled_lines(list.push(line)) == filled_lines(list),
        trimmed(line).len() > 0 ==> filled_lines(list.push(line)) == filled_lines(list).push(
            trimmed(line),
        ),
        filled_lines(Seq::<Seq<char>>::empty()) == Seq::<Seq<char>>::empty(),
{
    assert(list.push(line).drop_last() =~= list);
    assert(list.push(line).last() == line);
}

/// The configuration reaches the packet path: each of its switches is on where the
/// configuration says so, and the rate limit has the configured parameters.
pub proof fn law_configuration_reaches_the_packet_path(
    s: RuntimeConfigSnapshot,
    c: Config,
    version: Seq<char>,
)
    requires
        is_snapshot(s, c, version),
    ensures
        ({
            let r: RuntimeConfig = switches_of(s);
            let l: RateLimitConfig = limits_of(s.rate_limit);
            &&& r.rate_limit_enabled == 1 <==> c.rate_limit.enabled
            &&& r.syn_proxy_enabled == 1 <==> c.syn_proxy.enabled
            &&& r.l7_scan_enabled == 1 <==> c.l7_scan.enabled
            &&& r.ebpf_debug == 1 <==> c.ebpf_log_enabled
            &&& r.udp_flood_enabled == 1 <==> c.udp_flood_enabled
            &&& r.icmp_flood_enabled == 1 <==> c.icmp_flood_enabled
            &&& r.geoip_enabled == 1 <==> c.geoip.enabled
            &&& r.tcp_reset_on_drop == 1 <==> c.tcp_reset_on_drop
            &&& r.trust_enabled == 1 <==> c.trust_score.enabled
            &&& r.packet_log_enabled == 1 <==> c.packet_log.enabled
            &&& r.packet_log_sample_rate == c.packet_log.sample_rate
            &&& r.project_enabled == 1 <==> c.protection_projects@.len() > 0
            &&& l.threshold == c.rate_limit.threshold
            &&& l.tick_ms == c.rate_limit.tick_ms
            &&& l.decay_num == c.rate_limit.decay_num
            &&& l.decay_den == c.rate_limit.decay_den
            &&& l.block_duration_s == c.rate_limit.block_duration_s
        }),
{
}

/// The console shows the configuration that the node runs with.
pub proof fn law_console_shows_the_configuration(
    s: RuntimeConfigSnapshot,
    c: Config,
    version: Seq<char>,
)
    requires
        is_snapshot(s, c, version),
    ensures
        s.version@ == version,
        s.interface == c.interface,
        s.web_port == c.web_port,
        s.web_bind == c.web_bind,
        s.log_level == c.log_level,
        s.store_path == c.store_path,
        s.alert_webhook_url == c.alert_webhook_url,
        s.alert_threshold_dps == c.alert_threshold_dps,
        s.alert_cooldown_s == c.alert_cooldown_s,
        s.danger_level == 0,
        s.adaptive == c.adaptive,
        s.port_acl@ == c.port_acl@,
        s.whitelist_entries@ == c.whitelist@,
        s.blacklist_entries@ == c.blacklist@,
        s.threat_intel_feeds@ == c.threat_intel.feeds@,
        s.hub_enabled == c.hub.enabled,
        s.hub_node_name == c.hub.node_name,
        s.hub_urls@ == c.hub.urls@,
{
}

/// An alert tells of the rate that called for it, of the time and of the threshold, and its
/// message names the interface.
pub proof fn law_alert_tells_of_its_cause(
    m: AlertManager,
    e: AlertEvent,
    stats: Stats,
    dps: u64,
    now_s: u64,
)
    requires
        m.tells(e, stats, dps, now_s),
    ensures
        e.timestamp == now_s,
        e.interface@ == m.config.interface@,
        e.total_dropped == stats.total_dropped,
        e.dps == dps,
        e.threshold_dps == m.config.threshold_dps,
        e.cooldown_s == m.config.cooldown_s,
        has_part(e.message@, "["@ + m.config.interface@ + "]"@),
        has_part(e.message@, dec(dps as nat) + " pps"@),
        crate::node::alert::pairs_view(e.rule_breakdown@).contains(
            ("syn_flood"@, stats.syn_flood_blocked),
        ),
{
    law_alert_message_names_its_cause(m.config.interface@, dps, m.config.threshold_dps);
    law_alert_tells_of_each_rule(stats);
}

/// The audit log names who blocked.
pub proof fn law_actors_are_named()
    ensures
        actor_text(BlockOrigin::Api) == "api"@,
        actor_text(BlockOrigin::Adaptive) == "adaptive"@,
        actor_text(BlockOrigin::ThreatIntel) == "threat_intel"@,
        actor_text(BlockOrigin::Hub) == "hub"@,
        actor_text(BlockOrigin::Local) == "local"@,
{
}

/// A source that a batch of events convicts is blocked for the configured time; one that no
/// event names is left as it was.
pub proof fn law_convicted_source_is_remembered(
    after: AdaptiveEngine,
    before: AdaptiveEngine,
    k: IpKey,
    count: nat,
    now_s: u64,
    now_ns: u64,
)
    requires
        heard(after, before, k, count, now_s, now_ns),
        count <= u64::MAX,
        now_s + before.config.block_duration_s <= u64::MAX,
    ensures
        count > 0 && before.verdict(k, count as u64, now_s, now_ns) is Some ==> counts_held(
            after.blocked,
        ).contains_key(key_octets(k)) && counts_held(after.blocked)[key_octets(k)] == now_s
            + before.config.block_duration_s,
        count == 0 || before.verdict(k, count as u64, now_s, now_ns) is None ==> (counts_held(
            after.blocked,
        ).contains_key(key_octets(k)) <==> counts_held(before.blocked).contains_key(key_octets(k))),
        count == 0 ==> (times_held(after.windows).contains_key(key_octets(k)) <==> times_held(
            before.windows,
        ).contains_key(key_octets(k))),
{
}

/// The terminal shows the dropped packets and how many sources there are.
pub proof fn law_terminal_shows_the_figures(dropped: u64, sources: nat)
    ensures
        has_part(figures(dropped, sources), dec(dropped as nat)),
        has_part(figures(dropped, sources), dec(sources)),
{
    let head: Seq<char> = "Endpoint: local eShield\nDropped: "@;
    let d: Seq<char> = dec(dropped as nat);
    let mid: Seq<char> = "\nTop Attackers: "@;
    let n: Seq<char> = dec(sources);
    lemma_part_of_itself(head, d, mid);
    lemma_part_in(Seq::empty(), head + d + mid, n, d);
    lemma_part_of_itself(head + d + mid, n, Seq::empty());
    assert(head + d + mid + n + Seq::empty() =~= head + d + mid + n);
}

/// The terminal lists ten sources, or as many as there are, each as it is in the list.
pub proof fn law_terminal_lists_sources(rows: Seq<Attacker>, list: Seq<Attacker>)
    requires
        rows_show(rows, list, first_of(ranked(places(list)), 10)),
    ensures
        list.len() <= 10 ==> rows.len() == list.len(),
        list.len() > 10 ==> rows.len() == 10,
        forall|i: int|
            #![trigger rows[i]]
            0 <= i < rows.len() ==> exists|j: int|
                0 <= j < list.len() && (#[trigger] list[j]).ip@ == rows[i].ip@ && list[j].count
                    == rows[i].count,
{
    crate::rank::law_ranked_is_ordered(places(list));
    let at: Seq<(usize, u64)> = first_of(ranked(places(list)), 10);
    assert forall|i: int| #![trigger rows[i]] 0 <= i < rows.len() implies exists|j: int|
        0 <= j < list.len() && (#[trigger] list[j]).ip@ == rows[i].ip@ && list[j].count
            == rows[i].count by {
        let j: int = at[i].0 as int;
        assert(list[j].ip@ == rows[i].ip@);
    }
}

/// Of two rows of the terminal the upper has no smaller number than the lower.
pub proof fn law_terminal_rows_fall(rows: Seq<Attacker>, list: Seq<Attacker>, i: int, j: int)
    requires
        list.len() <= usize::MAX,
        rows_show(rows, list, first_of(ranked(places(list)), 10)),
        0 <= i < j < rows.len(),
    ensures
        rows[i].count >= rows[j].count,
{
    let all: Seq<(usize, u64)> = places(list);
    crate::rank::law_ranked_is_ordered(all);
    let at: Seq<(usize, u64)> = first_of(ranked(all), 10);
    assert(ranked(all)[i].1 >= ranked(all)[j].1);
    assert forall|k: int| 0 <= k < at.len() implies rows[k].count == (#[trigger] at[k]).1 by {
        all.to_multiset_ensures();
        ranked(all).to_multiset_ensures();
        assert(at[k] == ranked(all)[k]);
        assert(ranked(all).contains(at[k]));
        assert(all.to_multiset().count(at[k]) > 0);
        assert(all.contains(at[k]));
        let m: int = choose|m: int| 0 <= m < all.len() && all[m] == at[k];
        assert(all[m].0 == m && all[m].1 == list[m].count);
        assert(rows[k].count == list[at[k].0 as int].count);
    }
    assert(at[i].1 >= at[j].1);
}

/// A text is read as JSON where a bracket or a brace comes first, whatever blanks stand
/// before it.
pub proof fn law_json_is_told_by_its_start(text: Seq<char>)
    ensures
        trimmed(text).len() > 0 && trimmed(text)[0] == '[' ==> looks_like_json(text),
        trimmed(text).len() > 0 && trimmed(text)[0] == '{' ==> looks_like_json(text),
        trimmed(text).len() > 0 && trimmed(text)[0] != '[' && trimmed(text)[0] != '{'
            ==> !looks_like_json(text),
        trimmed(text).len() == 0 ==> !looks_like_json(text),
{
}

/// A series that has a point for this second takes none for it again.
pub proof fn law_second_has_one_point(s: TimeSeriesWindow, now: u64)
    ensures
        s.slots@.len() == 0 ==> !s.has_point_at(now),
        s.slots@.len() > 0 ==> (s.has_point_at(now) <==> now == s.head_timestamp),
{
}

} // verus!
