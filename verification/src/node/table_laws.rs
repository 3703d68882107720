//! What goes into the tables of the packet path, one by one.

use crate::common::BlockEntry;
use crate::common::IpKey;
use crate::common::PortAclEntry;
use crate::common::RateCounter;
use crate::dataplane::engine::is_sample;
use crate::dataplane::engine::port_key;
use crate::dataplane::engine::starting;
use crate::dataplane::parser::Headers;
use crate::dataplane::pipeline::FlowView;
use crate::dataplane::source::SourceState;
use crate::hub::feed::feed_policy;
use crate::hub::models::NodePolicy;
use crate::node::adaptive::AdaptiveEngine;
use crate::node::config::BlockOrigin;
use crate::node::config::Config;
use crate::node::config::GeoIpConfig;
use crate::node::config::PortAclItem;
use crate::node::control::BlockPlan;
use crate::node::control::blocks;
use crate::node::events::lists_blocks;
use crate::node::geoip::BlockView;
use crate::node::geoip::GeoIpBlock;
use crate::node::geoip::GeoIpError;
use crate::node::geoip::drops_rest;
use crate::node::geoip::entries_of;
use crate::node::port_rule::PortRuleError;
use crate::node::port_rule::entry_value;
use crate::node::records::RecordError;
use crate::node::records::rule_records;
use crate::node::snapshot::limits_of;
use crate::node::snapshot::params_of;
use crate::node::snapshot::port_limits_of;
use crate::node::table_plan::firsts;
use crate::node::table_plan::lacking;
use crate::node::table_plan::region_nets;
use crate::node::table_plan::static_entries;
use crate::node::table_plan::statics;
use crate::node::table_plan::v4_of;
use crate::node::table_plan::v6_of;
use crate::node::threat_intel::feed_block_s;
use crate::node::threat_intel::host_prefix;
use vstd::prelude::*;

verus! {

/// A list without repetitions holds what the list holds, each once, in the order of where it
/// first stood.
pub proof fn law_repetitions_go<T>(s: Seq<T>, x: T)
    ensures
        firsts(s).contains(x) <==> s.contains(x),
        s.contains(x) ==> firsts(s.push(x)) == firsts(s),
        !s.contains(x) ==> firsts(s.push(x)) == firsts(s).push(x),
        firsts(Seq::<T>::empty()) == Seq::<T>::empty(),
    decreases s.len(),
{
    if s.len() > 0 {
        let front: Seq<T> = s.drop_last();
        law_repetitions_go(front, x);
        law_repetitions_go(front, s.last());
        assert(s =~= front.push(s.last()));
        if front.contains(x) {
            assert(s[front.index_of(x)] == x);
        }
        if s.contains(x) && x != s.last() {
            assert(front[s.index_of(x)] == x);
        }
        if x == s.last() {
            assert(s[s.len() - 1] == x);
        }
        let all: Seq<T> = firsts(front).push(s.last());
        assert(all.last() == s.last());
        if firsts(front).contains(x) {
            assert(all[firsts(front).index_of(x)] == x);
        }
        if all.contains(x) && x != s.last() {
            assert(firsts(front)[all.index_of(x)] == x);
        }
    }
    assert(s.push(x).drop_last() =~= s);
    assert(s.push(x).last() == x);
}

/// An item that is taken out of a list is gone from it, and the others stay.
pub proof fn law_item_is_taken_out<T>(s: Seq<T>, x: T, y: T)
    ensures
        !lacking(s, x).contains(x),
        y != x ==> (lacking(s, x).contains(y) <==> s.contains(y)),
    decreases s.len(),
{
    let one: Seq<T> = seq![x];
    assert(one.contains(x)) by {
        assert(one[0] == x);
    }
    if s.len() > 0 {
        let front: Seq<T> = s.drop_last();
        law_item_is_taken_out(front, x, y);
        let kept: Seq<T> = lacking(front, x);
        let all: Seq<T> = lacking(s, x);
        assert(one.contains(s.last()) <==> s.last() == x);
        if front.contains(y) {
            assert(s[front.index_of(y)] == y);
        }
        if s.contains(y) && y != s.last() {
            assert(front[s.index_of(y)] == y);
        }
        if s.last() != x {
            assert(all == kept.push(s.last()));
            assert(all.last() == s.last());
            assert(s[s.len() - 1] == s.last());
            if kept.contains(y) {
                assert(all[kept.index_of(y)] == y);
            }
            if all.contains(y) && y != s.last() {
                assert(kept[all.index_of(y)] == y);
            }
            if all.contains(x) {
                assert(kept[all.index_of(x)] == x);
            }
        }
    }
}

/// Of the sources that the configuration no longer blocks, those are unblocked that it had
/// blocked itself.
pub proof fn law_configured_blocks_are_told_apart(a: Seq<IpKey>, b: Seq<IpKey>, x: IpKey, held: Map<IpKey, BlockEntry>)
    ensures
        statics(held, a + b) == statics(held, a) + statics(held, b),
        held.contains_key(x) && held[x].block_reason == 1 ==> statics(held, seq![x]) == seq![x],
        !held.contains_key(x) || held[x].block_reason != 1 ==> statics(held, seq![x]) == Seq::<
            IpKey,
        >::empty(),
    decreases b.len(),
{
    if b.len() == 0 {
        assert(a + b =~= a);
        assert(statics(held, a) + statics(held, b) =~= statics(held, a));
    } else {
        law_configured_blocks_are_told_apart(a, b.drop_last(), x, held);
        assert((a + b).drop_last() =~= a + b.drop_last());
        assert((a + b).last() == b.last());
        assert(statics(held, a + b) =~= statics(held, a) + statics(held, b));
    }
    let one: Seq<IpKey> = seq![x];
    assert(one.drop_last().len() == 0);
    assert(statics(held, one.drop_last()).len() == 0);
    assert(one.last() == x);
}

/// The configuration blocks for ever, under the number of the blacklist.
pub proof fn law_configured_blocks_never_end(keys: Seq<IpKey>, i: int)
    requires
        0 <= i < keys.len(),
    ensures
        static_entries(keys).len() == keys.len(),
        static_entries(keys)[i].0 == keys[i],
        static_entries(keys)[i].1.blocked_until_ns == 0,
        static_entries(keys)[i].1.block_reason == 1,
        static_entries(keys)[i].1.hit_count == 0,
{
}

/// The networks of regions are listed one by one, those of a known family.
pub proof fn law_regions_are_listed(a: Seq<GeoIpBlock>, b: Seq<GeoIpBlock>, x: GeoIpBlock)
    ensures
        region_nets(a + b) == region_nets(a) + region_nets(b),
        x.key.family == 4 || x.key.family == 6 ==> region_nets(seq![x]) == seq![(x.key, x.prefix)],
        x.key.family != 4 && x.key.family != 6 ==> region_nets(seq![x]) == Seq::<
            (IpKey, u32),
        >::empty(),
    decreases b.len(),
{
    if b.len() == 0 {
        assert(a + b =~= a);
        assert(region_nets(a) + region_nets(b) =~= region_nets(a));
    } else {
        law_regions_are_listed(a, b.drop_last(), x);
        assert((a + b).drop_last() =~= a + b.drop_last());
        assert((a + b).last() == b.last());
        assert(region_nets(a + b) =~= region_nets(a) + region_nets(b));
    }
    let one: Seq<GeoIpBlock> = seq![x];
    assert(one.drop_last().len() == 0);
    assert(region_nets(one.drop_last()).len() == 0);
    assert(one.last() == x);
}

/// The IPv4 networks of a list are picked one by one, with the number of their address.
pub proof fn law_ipv4_networks_are_picked(a: Seq<(IpKey, u32)>, b: Seq<(IpKey, u32)>, x: (IpKey, u32))
    ensures
        v4_of(a + b) == v4_of(a) + v4_of(b),
        x.0.family == 4 ==> v4_of(seq![x]) == seq![
            (
                x.0.addr[12] * 0x100_0000 + x.0.addr[13] * 0x1_0000 + x.0.addr[14] * 0x100
                    + x.0.addr[15],
                x.1,
            ),
        ],
        x.0.family != 4 ==> v4_of(seq![x]) == Seq::<(int, u32)>::empty(),
    decreases b.len(),
{
    if b.len() == 0 {
        assert(a + b =~= a);
        assert(v4_of(a) + v4_of(b) =~= v4_of(a));
    } else {
        law_ipv4_networks_are_picked(a, b.drop_last(), x);
        assert((a + b).drop_last() =~= a + b.drop_last());
        assert((a + b).last() == b.last());
        assert(v4_of(a + b) =~= v4_of(a) + v4_of(b));
    }
    let one: Seq<(IpKey, u32)> = seq![x];
    assert(one.drop_last().len() == 0);
    assert(v4_of(one.drop_last()).len() == 0);
    assert(one.last() == x);
}

/// The IPv6 networks of a list are picked one by one, with the octets of their address.
pub proof fn law_ipv6_networks_are_picked(a: Seq<(IpKey, u32)>, b: Seq<(IpKey, u32)>, x: (IpKey, u32))
    ensures
        v6_of(a + b) == v6_of(a) + v6_of(b),
        x.0.family == 6 ==> v6_of(seq![x]) == seq![(x.0.addr, x.1)],
        x.0.family != 6 ==> v6_of(seq![x]) == Seq::<([u8; 16], u32)>::empty(),
    decreases b.len(),
{
    if b.len() == 0 {
        assert(a + b =~= a);
        assert(v6_of(a) + v6_of(b) =~= v6_of(a));
    } else {
        law_ipv6_networks_are_picked(a, b.drop_last(), x);
        assert((a + b).drop_last() =~= a + b.drop_last());
        assert((a + b).last() == b.last());
        assert(v6_of(a + b) =~= v6_of(a) + v6_of(b));
    }
    let one: Seq<(IpKey, u32)> = seq![x];
    assert(one.drop_last().len() == 0);
    assert(v6_of(one.drop_last()).len() == 0);
    assert(one.last() == x);
}

/// Up to thirty-two port rules that can all be read are handed over in their order.
pub proof fn law_port_rules_are_handed_over(list: Seq<PortAclItem>, j: int, i: int)
    requires
        0 <= j <= i < list.len() <= 32,
        forall|k: int|
            0 <= k < list.len() ==> entry_value(
                (#[trigger] list[k]).protocol@,
                list[k].dport@,
                list[k].action@,
            ) is Ok,
    ensures
        rule_records(list, j).1 is None,
        rule_records(list, j).0.len() == list.len() - j,
        entry_value(list[i].protocol@, list[i].dport@, list[i].action@) == Ok::<
            PortAclEntry,
            PortRuleError,
        >(rule_records(list, j).0[i - j]),
    decreases list.len() - j,
{
    assert(entry_value(list[j].protocol@, list[j].dport@, list[j].action@) is Ok);
    let rest: (Seq<PortAclEntry>, Option<RecordError>) = rule_records(list, j + 1);
    if j + 1 < list.len() {
        if i > j {
            law_port_rules_are_handed_over(list, j + 1, i);
            assert(rule_records(list, j).0[i - j] == rest.0[i - j - 1]);
        } else {
            law_port_rules_are_handed_over(list, j + 1, j + 1);
        }
    } else {
        assert(rest.0.len() == 0);
    }
}

/// A rule that cannot be read stops the handing over, and is named.
pub proof fn law_bad_port_rule_is_named(list: Seq<PortAclItem>, j: int, i: int, e: PortRuleError)
    requires
        0 <= j <= i < list.len(),
        i < 32,
        forall|k: int|
            0 <= k < i ==> entry_value(
                (#[trigger] list[k]).protocol@,
                list[k].dport@,
                list[k].action@,
            ) is Ok,
        entry_value(list[i].protocol@, list[i].dport@, list[i].action@) == Err::<
            PortAclEntry,
            PortRuleError,
        >(e),
    ensures
        rule_records(list, j).1 == Some(RecordError::PortRule(i as usize, e)),
        rule_records(list, j).0.len() == i - j,
    decreases i - j,
{
    if j < i {
        assert(entry_value(list[j].protocol@, list[j].dport@, list[j].action@) is Ok);
        law_bad_port_rule_is_named(list, j + 1, i, e);
    }
}

/// The limits of the packet path are those of the configuration; a port that is over its
/// limit blocks no source.
pub proof fn law_limits_follow_the_configuration(c: Config)
    ensures
        limits_of(params_of(c)).threshold == c.rate_limit.threshold,
        limits_of(params_of(c)).tick_ms == c.rate_limit.tick_ms,
        limits_of(params_of(c)).decay_num == c.rate_limit.decay_num,
        limits_of(params_of(c)).decay_den == c.rate_limit.decay_den,
        limits_of(params_of(c)).block_duration_s == c.rate_limit.block_duration_s,
        params_of(c).enabled == c.rate_limit.enabled,
        port_limits_of(c) is Some <==> c.port_rate_limit.enabled,
        port_limits_of(c) matches Some(p) ==> p.threshold == c.port_rate_limit.threshold
            && p.tick_ms == c.port_rate_limit.tick_ms && p.block_duration_s == 0,
{
}

/// A block holds from now on for as many seconds as asked for, in the packet path and in the
/// store, and for ever where none are.
pub proof fn law_block_is_planned(
    p: BlockPlan,
    key: IpKey,
    seconds: u64,
    reason: u8,
    origin: BlockOrigin,
    now_ns: u64,
)
    requires
        blocks(p, key, seconds, reason, origin, now_ns),
        now_ns + seconds * 1_000_000_000 <= u64::MAX,
    ensures
        p.key == key,
        p.entry.block_reason == reason && p.row.block_reason == reason,
        p.entry.hit_count == 0,
        p.entry.first_seen_ns == now_ns && p.row.first_seen_ns == now_ns,
        p.row.origin == origin,
        p.row.blocked_until_ns == p.entry.blocked_until_ns,
        seconds == 0 ==> p.entry.blocked_until_ns == 0,
        seconds > 0 ==> p.entry.blocked_until_ns == now_ns + seconds * 1_000_000_000,
{
}

/// A source of which a batch tells as often as the threshold says is among the blocks of the
/// batch, and one of which it tells nothing is not.
pub proof fn law_batch_blocks_its_offenders(
    list: Seq<(IpKey, BlockEntry)>,
    e: AdaptiveEngine,
    counts: Map<IpKey, u64>,
    now_s: u64,
    now_ns: u64,
    k: IpKey,
)
    requires
        lists_blocks(list, e, counts, now_s, now_ns),
        e.config.enabled,
        !crate::maps::counts_held(e.blocked).contains_key(crate::maps::key_octets(k)),
    ensures
        counts.contains_key(k) && counts[k] >= e.config.threshold ==> exists|i: int|
            0 <= i < list.len() && (#[trigger] list[i]).0 == k,
        !counts.contains_key(k) ==> forall|i: int|
            0 <= i < list.len() ==> (#[trigger] list[i]).0 != k,
{
    if counts.contains_key(k) && counts[k] >= e.config.threshold {
        assert(e.window_with(k, counts[k], now_s).len() >= counts[k]);
        assert(e.verdict(k, counts[k], now_s, now_ns) is Some);
    }
}

/// An address from a feed is blocked for three times the feed's interval, and for an hour at
/// least.
pub proof fn law_feed_blocks_outlast_the_feed(interval_s: u64)
    requires
        interval_s * 3 <= u64::MAX,
    ensures
        feed_block_s(interval_s) >= 3600,
        feed_block_s(interval_s) >= 3 * interval_s,
        feed_block_s(interval_s) == 3600 || feed_block_s(interval_s) == 3 * interval_s,
        host_prefix(4) == 32,
        host_prefix(6) == 128,
{
}

/// An address from a feed becomes a policy of the hub with the lifetime that is configured.
pub proof fn law_feed_policy_lives_as_configured(ip: IpKey, ttl_s: u64)
    ensures
        ({
            let p: NodePolicy = feed_policy(ip, ttl_s);
            p.ip == ip && p.reason == 11 && p.ttl_s == ttl_s && p.hit_count == 1 && p.trust_score
                == 0
        }),
{
}

/// What belongs to no listed region is dropped only where regions are on and that is the
/// default.
pub proof fn law_unlisted_regions_follow_the_default(c: GeoIpConfig)
    ensures
        drops_rest(c) ==> c.enabled && c.default_action@ == "drop"@,
        c.enabled && c.default_action@ == "drop"@ ==> drops_rest(c),
{
}

/// A table that nobody asks for is not read: without countries and operators there are no
/// networks, and a table that cannot be read is a fault only where it is asked for.
pub proof fn law_only_wanted_tables_are_read(
    country_csv: Option<Seq<u8>>,
    asn_csv: Option<Seq<u8>>,
    countries: Seq<Seq<char>>,
    asns: Seq<u32>,
    kind: Seq<char>,
)
    ensures
        ({
            let r: Result<Seq<BlockView>, GeoIpError> = entries_of(
                country_csv,
                asn_csv,
                countries,
                asns,
                kind,
            );
            &&& countries.len() == 0 && asns.len() == 0 ==> r is Ok && r->Ok_0.len() == 0
            &&& country_csv is None && asn_csv is None ==> r is Ok && r->Ok_0.len() == 0
            &&& countries.len() > 0 && country_csv is Some && crate::outside::csv_records(
                country_csv->0,
            ) is None ==> r == Err::<Seq<BlockView>, GeoIpError>(GeoIpError::CountryCsv)
            &&& countries.len() == 0 && asns.len() > 0 && asn_csv is Some
                && crate::outside::csv_records(asn_csv->0) is None ==> r == Err::<
                Seq<BlockView>,
                GeoIpError,
            >(GeoIpError::AsnCsv)
            &&& countries.len() > 0 && country_csv is Some && asns.len() == 0
                && crate::outside::csv_records(country_csv->0) is Some ==> r == Ok::<
                Seq<BlockView>,
                GeoIpError,
            >(
                crate::node::geoip::country_blocks_of(
                    crate::outside::csv_records(country_csv->0)->0,
                    countries,
                    kind,
                ),
            )
            &&& countries.len() == 0 && asns.len() > 0 && asn_csv is Some
                && crate::outside::csv_records(asn_csv->0) is Some ==> r == Ok::<
                Seq<BlockView>,
                GeoIpError,
            >(
                crate::node::geoip::asn_blocks_of(
                    crate::outside::csv_records(asn_csv->0)->0,
                    asns,
                    kind,
                ),
            )
        }),
{
    let none: Seq<BlockView> = Seq::empty();
    if country_csv is Some && asns.len() == 0 && crate::outside::csv_records(country_csv->0) is Some {
        let a: Seq<BlockView> = crate::node::geoip::country_blocks_of(
            crate::outside::csv_records(country_csv->0)->0,
            countries,
            kind,
        );
        assert(a + none =~= a);
    }
    if asn_csv is Some && countries.len() == 0 && crate::outside::csv_records(asn_csv->0) is Some {
        let b: Seq<BlockView> = crate::node::geoip::asn_blocks_of(
            crate::outside::csv_records(asn_csv->0)->0,
            asns,
            kind,
        );
        assert(none + b =~= b);
    }
}

/// A packet starts on its way counted, under no rule and with no event; it counts for the
/// port that it is sent to.
pub proof fn law_packet_starts_counted(
    p: Seq<u8>,
    state: SourceState,
    port: Option<RateCounter>,
    stats: crate::common::GlobalStats,
    h: Headers,
)
    ensures
        ({
            let f: FlowView = starting(p, state, port, stats);
            &&& f.packet == p && f.state == state && f.port == port
            &&& f.stats.total_packets == stats.total_packets.wrapping_add(1)
            &&& f.stats.total_passed == stats.total_passed && f.stats.total_dropped
                == stats.total_dropped
            &&& f.rule_id == 0
            &&& f.events.len() == 0
            &&& port_key(h).protocol == h.protocol && port_key(h).dport == h.dport
        }),
{
}

/// A sample tells of the packet: where it came from and went to, what became of it, and what
/// it starts with.
pub proof fn law_sample_tells_of_the_packet(
    s: crate::common::PacketSample,
    p: Seq<u8>,
    h: Headers,
    rule_id: u16,
    action: u32,
    now_ns: u64,
    i: int,
)
    requires
        is_sample(s, p, h, rule_id, action, now_ns),
        54 <= p.len() < 0x1_0000,
        0 <= i < 64,
        i < p.len(),
    ensures
        s.timestamp_ns == now_ns && s.rule_id == rule_id,
        s.packet_len == p.len(),
        s.src_ip == h.src.addr && s.src_port == h.sport && s.dst_port == h.dport,
        s.protocol == h.protocol && s.family == h.src.family,
        action == 2 ==> s.action == 1,
        action != 2 ==> s.action == 0,
        s.payload_sample@[i] == p[i],
        h.src.family == 4 && 12 <= i < 16 ==> s.dst_ip@[i] == p[i + 18],
        h.src.family == 6 && i < 16 ==> s.dst_ip@[i] == p[i + 38],
{
    assert(s.payload_sample@[i] == p[i]);
}

} // verus!
