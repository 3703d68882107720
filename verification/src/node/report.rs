//! The counters of a node as reports.

use crate::maps::counts_held;
use crate::maps::lists_ports;
use crate::maps::ports_held;
use crate::maps::ports_list;
use crate::node::attackers::shows_top;
use crate::node::attackers::top_attackers;
use crate::node::attackers::Attacker;
use crate::node::stats::Stats;
use crate::rank::first_of;
use crate::rank::ranked;
use crate::rank::top;
use crate::text::dec;
use crate::text::dec_text;
use crate::text::push_dec;
use vstd::prelude::*;
use vstd::string::StringExecFns;

verus! {

/// The counters of a node with the sources and ports that stand out.
#[derive(Clone, Debug)]
pub struct StatsResponse {
    pub total_packets: u64,
    pub total_passed: u64,
    pub total_dropped: u64,
    pub current_pps: u64,
    pub current_dps: u64,
    pub blacklist_blocked: u64,
    pub rate_limited: u64,
    pub syn_flood_blocked: u64,
    pub l7_blocked: u64,
    pub adaptive_blocked: u64,
    pub udp_flood_blocked: u64,
    pub icmp_flood_blocked: u64,
    pub geoip_blocked: u64,
    pub conn_track_blocked: u64,
    pub tcp_rst_sent: u64,
    pub tcp_rst_fail: u64,
    pub tcp_rst_attempt: u64,
    pub tcp_dropped: u64,
    pub udp_dropped: u64,
    pub icmp_dropped: u64,
    pub other_dropped: u64,
    pub top_attackers: Vec<Attacker>,
    pub top_ports: Vec<(u16, u64)>,
    pub trust_trusted: u64,
    pub trust_neutral: u64,
    pub trust_suspicious: u64,
    pub trust_malicious: u64,
    pub danger_level: u64,
}

/// The list shows the `n` ports of a map with the largest numbers, the largest first.
pub open spec fn shows_top_ports(list: Seq<(u16, u64)>, held: Map<u16, u64>, n: nat) -> bool {
    exists|ports: Seq<(u16, u64)>|
        #![trigger lists_ports(ports, held)]
        lists_ports(ports, held) && list == first_of(ranked(ports), n)
}

/// `r` reports the counters.
pub open spec fn reports(r: StatsResponse, stats: Stats) -> bool {
    &&& r.total_packets == stats.total_packets
    &&& r.total_passed == stats.total_passed
    &&& r.total_dropped == stats.total_dropped
    &&& r.current_pps == stats.current_pps
    &&& r.current_dps == stats.current_dps
    &&& r.blacklist_blocked == stats.blacklist_blocked
    &&& r.rate_limited == stats.rate_limited
    &&& r.syn_flood_blocked == stats.syn_flood_blocked
    &&& r.l7_blocked == stats.l7_blocked
    &&& r.adaptive_blocked == stats.adaptive_blocked
    &&& r.udp_flood_blocked == stats.udp_flood_blocked
    &&& r.icmp_flood_blocked == stats.icmp_flood_blocked
    &&& r.geoip_blocked == stats.geoip_blocked
    &&& r.conn_track_blocked == stats.conn_track_blocked
    &&& r.tcp_rst_sent == stats.tcp_rst_sent
    &&& r.tcp_rst_fail == stats.tcp_rst_fail
    &&& r.tcp_rst_attempt == stats.tcp_rst_attempt
    &&& r.tcp_dropped == stats.tcp_dropped
    &&& r.udp_dropped == stats.udp_dropped
    &&& r.icmp_dropped == stats.icmp_dropped
    &&& r.other_dropped == stats.other_dropped
    &&& r.trust_trusted == stats.trust_trusted
    &&& r.trust_neutral == stats.trust_neutral
    &&& r.trust_suspicious == stats.trust_suspicious
    &&& r.trust_malicious == stats.trust_malicious
    &&& r.danger_level == stats.danger_level
    &&& shows_top(r.top_attackers@, counts_held(stats.top_attackers), 20)
    &&& shows_top_ports(r.top_ports@, ports_held(stats.port_dropped), 10)
}

pub fn stats_snapshot(stats: &Stats) -> (r: StatsResponse)
    ensures
        reports(r, *stats),
{
    let ports: Vec<(u16, u64)> = ports_list(&stats.port_dropped);
    let top_ports: Vec<(u16, u64)> = top(&ports, 10);
    StatsResponse {
        total_packets: stats.total_packets,
        total_passed: stats.total_passed,
        total_dropped: stats.total_dropped,
        current_pps: stats.current_pps,
        current_dps: stats.current_dps,
        blacklist_blocked: stats.blacklist_blocked,
        rate_limited: stats.rate_limited,
        syn_flood_blocked: stats.syn_flood_blocked,
        l7_blocked: stats.l7_blocked,
        adaptive_blocked: stats.adaptive_blocked,
        udp_flood_blocked: stats.udp_flood_blocked,
        icmp_flood_blocked: stats.icmp_flood_blocked,
        geoip_blocked: stats.geoip_blocked,
        conn_track_blocked: stats.conn_track_blocked,
        tcp_rst_sent: stats.tcp_rst_sent,
        tcp_rst_fail: stats.tcp_rst_fail,
        tcp_rst_attempt: stats.tcp_rst_attempt,
        tcp_dropped: stats.tcp_dropped,
        udp_dropped: stats.udp_dropped,
        icmp_dropped: stats.icmp_dropped,
        other_dropped: stats.other_dropped,
        top_attackers: top_attackers(&stats.top_attackers, 20),
        top_ports,
        trust_trusted: stats.trust_trusted,
        trust_neutral: stats.trust_neutral,
        trust_suspicious: stats.trust_suspicious,
        trust_malicious: stats.trust_malicious,
        danger_level: stats.danger_level,
    }
}

/// The two lines that introduce a metric.
pub open spec fn head_text(name: Seq<char>, help: Seq<char>, kind: Seq<char>) -> Seq<char> {
    "# HELP "@ + name + " "@ + help + "\n# TYPE "@ + name + " "@ + kind + "\n"@
}

/// A further label of a metric.
pub open spec fn label_text(key: Seq<char>, value: Seq<char>) -> Seq<char> {
    ","@ + key + "=\""@ + value + "\""@
}

/// The line of a metric.
pub open spec fn line_text(name: Seq<char>, interface: Seq<char>, labels: Seq<char>, n: u64) -> Seq<
    char,
> {
    name + "{interface=\""@ + interface + "\""@ + labels + "} "@ + dec(n as nat) + "\n"@
}

/// A counter with its introduction and an empty line.
pub open spec fn counter_text(name: Seq<char>, help: Seq<char>, i: Seq<char>, n: u64) -> Seq<char> {
    head_text(name, help, "counter"@) + line_text(name, i, Seq::empty(), n) + "\n"@
}

/// The counters without further labels.
pub open spec fn counters_text(s: StatsResponse, i: Seq<char>) -> Seq<char> {
    counter_text("eshield_dropped_total"@, "Total dropped packets"@, i, s.total_dropped)
        + counter_text("eshield_passed_total"@, "Total passed packets"@, i, s.total_passed)
        + counter_text("eshield_blacklist_blocked_total"@, "Blacklist blocked packets"@, i, s.blacklist_blocked)
        + counter_text("eshield_rate_limited_total"@, "Rate limited packets"@, i, s.rate_limited)
        + counter_text("eshield_syn_flood_blocked_total"@, "SYN flood blocked packets"@, i, s.syn_flood_blocked)
        + counter_text("eshield_l7_blocked_total"@, "L7 scan blocked packets"@, i, s.l7_blocked)
        + counter_text("eshield_adaptive_blocked_total"@, "Adaptive threshold blocked packets"@, i, s.adaptive_blocked)
        + counter_text("eshield_udp_flood_blocked_total"@, "UDP flood blocked packets"@, i, s.udp_flood_blocked)
        + counter_text("eshield_icmp_flood_blocked_total"@, "ICMP flood blocked packets"@, i, s.icmp_flood_blocked)
        + counter_text("eshield_geoip_blocked_total"@, "GeoIP blocked packets"@, i, s.geoip_blocked)
        + counter_text(
        "eshield_conn_track_blocked_total"@,
        "Connection tracking blocked packets"@,
        i,
        s.conn_track_blocked,
    )
}

/// The counters by protocol.
pub open spec fn protocols_text(s: StatsResponse, i: Seq<char>) -> Seq<char> {
    head_text(
        "eshield_dropped_by_protocol_total"@,
        "Dropped packets by IP protocol"@,
        "counter"@,
    )
        + line_text("eshield_dropped_by_protocol_total"@, i, label_text("protocol"@, "tcp"@), s.tcp_dropped)
        + line_text("eshield_dropped_by_protocol_total"@, i, label_text("protocol"@, "udp"@), s.udp_dropped)
        + line_text("eshield_dropped_by_protocol_total"@, i, label_text("protocol"@, "icmp"@), s.icmp_dropped)
        + line_text("eshield_dropped_by_protocol_total"@, i, label_text("protocol"@, "other"@), s.other_dropped)
}

/// The counter of one source.
pub open spec fn source_text(a: Attacker, i: Seq<char>) -> Seq<char> {
    "\n"@ + head_text(
        "eshield_source_dropped_total"@,
        "Dropped packets per source IP"@,
        "counter"@,
    ) + line_text("eshield_source_dropped_total"@, i, label_text("ip"@, a.ip@), a.count)
}

/// The counters of the sources.
pub open spec fn sources_text(list: Seq<Attacker>, i: Seq<char>) -> Seq<char>
    decreases list.len(),
{
    if list.len() == 0 {
        Seq::empty()
    } else {
        sources_text(list.drop_last(), i) + source_text(list.last(), i)
    }
}

/// The lines of the ports.
pub open spec fn port_lines(list: Seq<(u16, u64)>, i: Seq<char>) -> Seq<char>
    decreases list.len(),
{
    if list.len() == 0 {
        Seq::empty()
    } else {
        port_lines(list.drop_last(), i) + line_text(
            "eshield_dropped_by_port_total"@,
            i,
            label_text("port"@, dec(list.last().0 as nat)),
            list.last().1,
        )
    }
}

/// The counters of the ports; nothing where there is none.
pub open spec fn ports_text(list: Seq<(u16, u64)>, i: Seq<char>) -> Seq<char> {
    if list.len() == 0 {
        Seq::empty()
    } else {
        "\n"@ + head_text(
            "eshield_dropped_by_port_total"@,
            "Dropped packets by destination port"@,
            "counter"@,
        ) + port_lines(list, i)
    }
}

/// The sum of the first `n` classes. Counters wrap.
pub open spec fn sum_to(hist: Seq<u64>, n: int) -> u64
    decreases n,
{
    if n <= 0 {
        0
    } else {
        sum_to(hist, n - 1).wrapping_add(hist[n - 1])
    }
}

/// The upper ends of the classes of processing times.
pub open spec fn bound_text(class: int) -> Seq<char> {
    if class == 0 {
        "1000"@
    } else if class == 1 {
        "5000"@
    } else if class == 2 {
        "10000"@
    } else if class == 3 {
        "50000"@
    } else if class == 4 {
        "100000"@
    } else {
        "+Inf"@
    }
}

/// The lines of the first `n` classes of processing times.
pub open spec fn bucket_lines(hist: Seq<u64>, n: int, i: Seq<char>) -> Seq<char>
    decreases n,
{
    if n <= 0 {
        Seq::empty()
    } else {
        bucket_lines(hist, n - 1, i) + line_text(
            "eshield_event_consumer_duration_us_bucket"@,
            i,
            label_text("le"@, bound_text(n - 1)),
            sum_to(hist, n),
        )
    }
}

/// The distribution of the processing times.
pub open spec fn times_text(hist: Seq<u64>, i: Seq<char>) -> Seq<char> {
    "\n"@ + head_text(
        "eshield_event_consumer_duration_us"@,
        "Event consumer batch processing duration histogram"@,
        "histogram"@,
    ) + bucket_lines(hist, 6, i) + line_text(
        "eshield_event_consumer_duration_us_sum"@,
        i,
        Seq::empty(),
        0,
    ) + line_text(
        "eshield_event_consumer_duration_us_count"@,
        i,
        Seq::empty(),
        sum_to(hist, 6),
    )
}

/// A table of the packet path: its name, its kind and how much it can hold.
#[derive(Clone, Debug)]
pub struct MapInfo {
    pub name: String,
    pub map_type: String,
    pub max_entries: u32,
}

/// The lines of the tables.
pub open spec fn map_lines(list: Seq<MapInfo>, i: Seq<char>) -> Seq<char>
    decreases list.len(),
{
    if list.len() == 0 {
        Seq::empty()
    } else {
        map_lines(list.drop_last(), i) + line_text(
            "eshield_map_max_entries"@,
            i,
            label_text("name"@, list.last().name@) + label_text("map_type"@, list.last().map_type@),
            list.last().max_entries as u64,
        )
    }
}

/// The line of how much a table holds, where that is known.
pub open spec fn held_line(name: Seq<char>, i: Seq<char>, held: Option<u64>) -> Seq<char> {
    match held {
        Some(n) => line_text("eshield_map_entries"@, i, label_text("name"@, name), n),
        None => Seq::empty(),
    }
}

/// The tables of the packet path.
pub open spec fn maps_text(
    maps: Seq<MapInfo>,
    blacklist: Option<u64>,
    rates: Option<u64>,
    i: Seq<char>,
) -> Seq<char> {
    "\n"@ + head_text("eshield_map_max_entries"@, "eBPF map max entries"@, "gauge"@) + map_lines(
        maps,
        i,
    ) + "\n"@ + head_text("eshield_map_entries"@, "eBPF map current entries"@, "gauge"@)
        + held_line("BLACKLIST"@, i, blacklist) + held_line("RATE_MAP"@, i, rates)
}

/// All metrics of a node.
pub open spec fn metrics_of(
    s: StatsResponse,
    hist: Seq<u64>,
    interface: Seq<char>,
    maps: Seq<MapInfo>,
    blacklist: Option<u64>,
    rates: Option<u64>,
) -> Seq<char> {
    counters_text(s, interface) + protocols_text(s, interface) + sources_text(
        s.top_attackers@,
        interface,
    ) + ports_text(s.top_ports@, interface) + times_text(hist, interface) + maps_text(
        maps,
        blacklist,
        rates,
        interface,
    )
}

fn push_head(out: &mut String, name: &str, help: &str, kind: &str)
    ensures
        final(out)@ == old(out)@ + head_text(name@, help@, kind@),
{
    out.append("# HELP ");
    out.append(name);
    out.append(" ");
    out.append(help);
    out.append("\n# TYPE ");
    out.append(name);
    out.append(" ");
    out.append(kind);
    out.append("\n");
    assert(out@ =~= old(out)@ + head_text(name@, help@, kind@));
}

fn push_line(out: &mut String, name: &str, interface: &str, labels: &str, n: u64)
    ensures
        final(out)@ == old(out)@ + line_text(name@, interface@, labels@, n),
{
    out.append(name);
    out.append("{interface=\"");
    out.append(interface);
    out.append("\"");
    out.append(labels);
    out.append("} ");
    push_dec(out, n);
    out.append("\n");
    assert(out@ =~= old(out)@ + line_text(name@, interface@, labels@, n));
}

fn push_label(out: &mut String, key: &str, value: &str)
    ensures
        final(out)@ == old(out)@ + label_text(key@, value@),
{
    out.append(",");
    out.append(key);
    out.append("=\"");
    out.append(value);
    out.append("\"");
    assert(out@ =~= old(out)@ + label_text(key@, value@));
}

fn push_labelled(out: &mut String, name: &str, interface: &str, key: &str, value: &str, n: u64)
    ensures
        final(out)@ == old(out)@ + line_text(name@, interface@, label_text(key@, value@), n),
{
    let mut label: String = String::new();
    push_label(&mut label, key, value);
    assert(label@ =~= label_text(key@, value@));
    push_line(out, name, interface, label.as_str(), n);
}

fn push_plain(out: &mut String, name: &str, interface: &str, n: u64)
    ensures
        final(out)@ == old(out)@ + line_text(name@, interface@, Seq::empty(), n),
{
    let none: String = String::new();
    assert(none@ =~= Seq::empty());
    push_line(out, name, interface, none.as_str(), n);
}

fn push_counter(out: &mut String, name: &str, help: &str, interface: &str, n: u64)
    ensures
        final(out)@ == old(out)@ + counter_text(name@, help@, interface@, n),
{
    push_head(out, name, help, "counter");
    push_plain(out, name, interface, n);
    out.append("\n");
    assert(out@ =~= old(out)@ + counter_text(name@, help@, interface@, n));
}

fn push_counters(out: &mut String, s: &StatsResponse, interface: &str)
    ensures
        final(out)@ == old(out)@ + counters_text(*s, interface@),
{
    push_counter(out, "eshield_dropped_total", "Total dropped packets", interface, s.total_dropped);
    push_counter(out, "eshield_passed_total", "Total passed packets", interface, s.total_passed);
    push_counter(out, "eshield_blacklist_blocked_total", "Blacklist blocked packets", interface, s.blacklist_blocked);
    push_counter(out, "eshield_rate_limited_total", "Rate limited packets", interface, s.rate_limited);
    push_counter(out, "eshield_syn_flood_blocked_total", "SYN flood blocked packets", interface, s.syn_flood_blocked);
    push_counter(out, "eshield_l7_blocked_total", "L7 scan blocked packets", interface, s.l7_blocked);
    push_counter(out, "eshield_adaptive_blocked_total", "Adaptive threshold blocked packets", interface, s.adaptive_blocked);
    push_counter(out, "eshield_udp_flood_blocked_total", "UDP flood blocked packets", interface, s.udp_flood_blocked);
    push_counter(out, "eshield_icmp_flood_blocked_total", "ICMP flood blocked packets", interface, s.icmp_flood_blocked);
    push_counter(out, "eshield_geoip_blocked_total", "GeoIP blocked packets", interface, s.geoip_blocked);
    push_counter(
        out,
        "eshield_conn_track_blocked_total",
        "Connection tracking blocked packets",
        interface,
        s.conn_track_blocked,
    );
    assert(out@ =~= old(out)@ + counters_text(*s, interface@));
}

fn push_protocols(out: &mut String, s: &StatsResponse, interface: &str)
    ensures
        final(out)@ == old(out)@ + protocols_text(*s, interface@),
{
    push_head(
        out,
        "eshield_dropped_by_protocol_total",
        "Dropped packets by IP protocol",
        "counter",
    );
    push_labelled(out, "eshield_dropped_by_protocol_total", interface, "protocol", "tcp", s.tcp_dropped);
    push_labelled(out, "eshield_dropped_by_protocol_total", interface, "protocol", "udp", s.udp_dropped);
    push_labelled(out, "eshield_dropped_by_protocol_total", interface, "protocol", "icmp", s.icmp_dropped);
    push_labelled(out, "eshield_dropped_by_protocol_total", interface, "protocol", "other", s.other_dropped);
    assert(out@ =~= old(out)@ + protocols_text(*s, interface@));
}

fn push_sources(out: &mut String, list: &Vec<Attacker>, interface: &str)
    ensures
        final(out)@ == old(out)@ + sources_text(list@, interface@),
{
    let ghost start = out@;
    assert(out@ =~= start + sources_text(list@.take(0), interface@));
    for k in 0..list.len()
        invariant
            out@ == start + sources_text(list@.take(k as int), interface@),
    {
        let ghost before = out@;
        assert(list@.take(k + 1).drop_last() =~= list@.take(k as int));
        assert(list@.take(k + 1).last() == list@[k as int]);
        out.append("\n");
        push_head(
            out,
            "eshield_source_dropped_total",
            "Dropped packets per source IP",
            "counter",
        );
        push_labelled(
            out,
            "eshield_source_dropped_total",
            interface,
            "ip",
            list[k].ip.as_str(),
            list[k].count,
        );
        assert(out@ =~= before + source_text(list@[k as int], interface@));
        assert(out@ =~= start + sources_text(list@.take(k + 1), interface@));
    }
    assert(list@.take(list@.len() as int) =~= list@);
}

fn push_ports(out: &mut String, list: &Vec<(u16, u64)>, interface: &str)
    ensures
        final(out)@ == old(out)@ + ports_text(list@, interface@),
{
    if list.len() == 0 {
        assert(out@ =~= old(out)@ + ports_text(list@, interface@));
        return;
    }
    out.append("\n");
    push_head(
        out,
        "eshield_dropped_by_port_total",
        "Dropped packets by destination port",
        "counter",
    );
    let ghost start = out@;
    assert(out@ =~= start + port_lines(list@.take(0), interface@));
    for k in 0..list.len()
        invariant
            out@ == start + port_lines(list@.take(k as int), interface@),
    {
        assert(list@.take(k + 1).drop_last() =~= list@.take(k as int));
        assert(list@.take(k + 1).last() == list@[k as int]);
        let port: String = dec_text(list[k].0 as u64);
        push_labelled(
            out,
            "eshield_dropped_by_port_total",
            interface,
            "port",
            port.as_str(),
            list[k].1,
        );
        assert(out@ =~= start + port_lines(list@.take(k + 1), interface@));
    }
    assert(list@.take(list@.len() as int) =~= list@);
    assert(out@ =~= old(out)@ + ports_text(list@, interface@));
}

fn bound(class: usize) -> (r: String)
    ensures
        r@ == bound_text(class as int),
{
    if class == 0 {
        "1000".to_string()
    } else if class == 1 {
        "5000".to_string()
    } else if class == 2 {
        "10000".to_string()
    } else if class == 3 {
        "50000".to_string()
    } else if class == 4 {
        "100000".to_string()
    } else {
        "+Inf".to_string()
    }
}

fn push_times(out: &mut String, hist: &[u64; 6], interface: &str)
    ensures
        final(out)@ == old(out)@ + times_text(hist@, interface@),
{
    out.append("\n");
    push_head(
        out,
        "eshield_event_consumer_duration_us",
        "Event consumer batch processing duration histogram",
        "histogram",
    );
    let ghost start = out@;
    let mut cumulative: u64 = 0;
    assert(out@ =~= start + bucket_lines(hist@, 0, interface@));
    for k in 0..6usize
        invariant
            cumulative == sum_to(hist@, k as int),
            out@ == start + bucket_lines(hist@, k as int, interface@),
    {
        cumulative = cumulative.wrapping_add(hist[k]);
        let le: String = bound(k);
        push_labelled(
            out,
            "eshield_event_consumer_duration_us_bucket",
            interface,
            "le",
            le.as_str(),
            cumulative,
        );
        assert(out@ =~= start + bucket_lines(hist@, k + 1, interface@));
    }
    push_plain(out, "eshield_event_consumer_duration_us_sum", interface, 0);
    push_plain(out, "eshield_event_consumer_duration_us_count", interface, cumulative);
    assert(out@ =~= old(out)@ + times_text(hist@, interface@));
}

fn push_held(out: &mut String, name: &str, interface: &str, held: Option<u64>)
    ensures
        final(out)@ == old(out)@ + held_line(name@, interface@, held),
{
    match held {
        Some(n) => push_labelled(out, "eshield_map_entries", interface, "name", name, n),
        None => {
            assert(out@ =~= old(out)@ + held_line(name@, interface@, held));
        },
    }
}

proof fn lemma_seven_parts(
    o: Seq<char>,
    a: Seq<char>,
    b: Seq<char>,
    c: Seq<char>,
    d: Seq<char>,
    e: Seq<char>,
    f: Seq<char>,
    g: Seq<char>,
)
    ensures
        o + a + b + c + d + e + f + g == o + (a + b + c + d + e + f + g),
{
    assert(o + a + b + c + d + e + f + g =~= o + (a + b + c + d + e + f + g));
}

fn push_maps(
    out: &mut String,
    maps: &Vec<MapInfo>,
    blacklist: Option<u64>,
    rates: Option<u64>,
    interface: &str,
)
    ensures
        final(out)@ == old(out)@ + maps_text(maps@, blacklist, rates, interface@),
{
    out.append("\n");
    push_head(out, "eshield_map_max_entries", "eBPF map max entries", "gauge");
    let ghost start = out@;
    assert(out@ =~= start + map_lines(maps@.take(0), interface@));
    for k in 0..maps.len()
        invariant
            out@ == start + map_lines(maps@.take(k as int), interface@),
    {
        assert(maps@.take(k + 1).drop_last() =~= maps@.take(k as int));
        assert(maps@.take(k + 1).last() == maps@[k as int]);
        let mut labels: String = String::new();
        push_label(&mut labels, "name", maps[k].name.as_str());
        push_label(&mut labels, "map_type", maps[k].map_type.as_str());
        assert(labels@ =~= label_text("name"@, maps@[k as int].name@) + label_text(
            "map_type"@,
            maps@[k as int].map_type@,
        ));
        push_line(
            out,
            "eshield_map_max_entries",
            interface,
            labels.as_str(),
            maps[k].max_entries as u64,
        );
        assert(out@ =~= start + map_lines(maps@.take(k + 1), interface@));
    }
    assert(maps@.take(maps@.len() as int) =~= maps@);
    out.append("\n");
    push_head(out, "eshield_map_entries", "eBPF map current entries", "gauge");
    push_held(out, "BLACKLIST", interface, blacklist);
    push_held(out, "RATE_MAP", interface, rates);
    proof {
        lemma_seven_parts(
            old(out)@,
            "\n"@,
            head_text("eshield_map_max_entries"@, "eBPF map max entries"@, "gauge"@),
            map_lines(maps@, interface@),
            "\n"@,
            head_text("eshield_map_entries"@, "eBPF map current entries"@, "gauge"@),
            held_line("BLACKLIST"@, interface@, blacklist),
            held_line("RATE_MAP"@, interface@, rates),
        );
    }
}

/// All metrics of a node as text.
pub fn metrics_text(
    s: &StatsResponse,
    hist: &[u64; 6],
    interface: &str,
    maps: &Vec<MapInfo>,
    blacklist: Option<u64>,
    rates: Option<u64>,
) -> (r: String)
    ensures
        r@ == metrics_of(*s, hist@, interface@, maps@, blacklist, rates),
{
    let mut out: String = String::new();
    push_counters(&mut out, s, interface);
    push_protocols(&mut out, s, interface);
    push_sources(&mut out, &s.top_attackers, interface);
    push_ports(&mut out, &s.top_ports, interface);
    push_times(&mut out, hist, interface);
    push_maps(&mut out, maps, blacklist, rates, interface);
    assert(out@ =~= metrics_of(*s, hist@, interface@, maps@, blacklist, rates));
    out
}

/// The last class of the distribution counts every batch, as the count does.
pub proof fn law_last_class_counts_all(hist: Seq<u64>)
    requires
        hist.len() == 6,
    ensures
        bound_text(5) == "+Inf"@,
        sum_to(hist, 6) == ((hist[0] + hist[1] + hist[2] + hist[3] + hist[4] + hist[5])
            % 0x1_0000_0000_0000_0000) as u64,
{
    reveal_with_fuel(sum_to, 7);
}

} // verus!
