//! What configured rules, services and tables of regions come to in the packet path.

use crate::common::ProjectPolicy;
use crate::common::ProjectPolicyKey;
use crate::common::RuntimeConfig;
use crate::dataplane::laws::law_policy_decides;
use crate::dataplane::laws::names_target;
use crate::dataplane::laws::stopped;
use crate::dataplane::parser::Headers;
use crate::dataplane::pipeline::project_step;
use crate::dataplane::pipeline::Env;
use crate::dataplane::pipeline::FlowView;
use crate::dataplane::pipeline::Step;
use crate::dataplane::pipeline::Tables;
use crate::dataplane::xdp::NO_ACTION;
use crate::dataplane::xdp::XDP_PASS;
use crate::ip::cidr_value;
use crate::ip::ip_value;
use crate::node::config::ProtectionProject;
use crate::node::geoip::asn_blocks_of;
use crate::node::geoip::country_blocks_of;
use crate::node::geoip::BlockView;
use crate::node::hub_client::hub_at;
use crate::node::hub_client::moved_to;
use crate::node::hub_client::without_slashes;
use crate::node::port_rule::action_number;
use crate::node::port_rule::ports_value;
use crate::node::port_rule::protocol_number;
use crate::node::port_rule::PortRuleError;
use crate::node::projects::addresses_of;
use crate::node::projects::at_target;
use crate::node::projects::at_targets;
use crate::node::projects::key_for;
use crate::node::projects::module_set;
use crate::node::projects::policies_of;
use crate::node::projects::policy_for;
use crate::node::projects::written;
use crate::text::dec;
use crate::text::is_digit;
use crate::text::law_dec_reads_back;
use crate::text::lemma_first_at_is;
use crate::text::lowered;
use crate::text::texts;
use crate::text::trimmed;
use crate::text::uint_value;
use crate::text::uppered;
use vstd::prelude::*;

verus! {

/// Decimal digits are read as the number they write.
proof fn lemma_dec_value(n: nat, max: nat)
    ensures
        uint_value(dec(n), max) == if n <= max {
            Some(n)
        } else {
            None
        },
        forall|i: int| 0 <= i < dec(n).len() ==> #[trigger] dec(n)[i] != '-' && dec(n)[i] != '*'
            && dec(n)[i] != 'a',
{
    law_dec_reads_back(n);
    assert(is_digit(dec(n)[0]));
    assert forall|i: int| 0 <= i < dec(n).len() implies #[trigger] dec(n)[i] != '-' && dec(n)[i]
        != '*' && dec(n)[i] != 'a' by {
        assert(is_digit(dec(n)[i]));
    }
}

/// A port rule names one port by its number, a range by two numbers around a dash, and all
/// ports by `*` or `any`; a range whose ends are the wrong way round is none.
pub proof fn law_ports_are_read(a: nat, b: nat)
    requires
        a <= 0xffff,
        b <= 0xffff,
    ensures
        ports_value(dec(a)) == Ok::<(u16, u16), PortRuleError>((a as u16, a as u16)),
        a <= b ==> ports_value(dec(a) + seq!['-'] + dec(b)) == Ok::<(u16, u16), PortRuleError>(
            (a as u16, b as u16),
        ),
        a > b ==> ports_value(dec(a) + seq!['-'] + dec(b)) == Err::<(u16, u16), PortRuleError>(
            PortRuleError::Range,
        ),
        ports_value("*"@) == Ok::<(u16, u16), PortRuleError>((0u16, 0u16)),
        ports_value("any"@) == Ok::<(u16, u16), PortRuleError>((0u16, 0u16)),
{
    reveal_strlit("*");
    reveal_strlit("any");
    lemma_dec_value(a, 0xffff);
    lemma_dec_value(b, 0xffff);
    law_dec_reads_back(a);
    let s: Seq<char> = dec(a);
    assert(s != "*"@ && s != "any"@) by {
        assert(s[0] != '*' && s[0] != 'a');
        assert("*"@[0] == '*' && "any"@[0] == 'a');
    }
    lemma_first_at_is(s, '-', s.len() as int);
    let r: Seq<char> = dec(a) + seq!['-'] + dec(b);
    assert(r[0] == s[0]);
    assert(r != "*"@ && r != "any"@) by {
        assert("*"@[0] == '*' && "any"@[0] == 'a');
    }
    let i: int = s.len() as int;
    assert forall|j: int| 0 <= j < i implies r[j] != '-' by {
        assert(r[j] == s[j]);
    }
    assert(r[i] == '-');
    lemma_first_at_is(r, '-', i);
    assert(r.take(i) =~= dec(a));
    assert(r.skip(i + 1) =~= dec(b));
}

/// Protocols and actions go by their names, whatever the case of the letters, and any
/// other word is none.
pub proof fn law_names_are_read(s: Seq<char>)
    ensures
        lowered(s) == "tcp"@ <==> protocol_number(s) == Some(6u8),
        lowered(s) == "udp"@ <==> protocol_number(s) == Some(17u8),
        lowered(s) == "icmp"@ <==> protocol_number(s) == Some(1u8),
        lowered(s) == "icmpv6"@ <==> protocol_number(s) == Some(58u8),
        lowered(s) == "any"@ <==> protocol_number(s) == Some(0u8),
        lowered(s) == "allow"@ <==> action_number(s) == Some(1u8),
        lowered(s) == "drop"@ <==> action_number(s) == Some(2u8),
        action_number(s) is None || action_number(s) == Some(1u8) || action_number(s) == Some(2u8),
{
    reveal_strlit("tcp");
    reveal_strlit("udp");
    reveal_strlit("icmp");
    reveal_strlit("icmpv6");
    reveal_strlit("any");
    reveal_strlit("allow");
    reveal_strlit("drop");
    assert("tcp"@[0] == 't' && "udp"@[0] == 'u' && "icmp"@[0] == 'i' && "any"@[0] == 'a');
    assert("icmpv6"@.len() == 6 && "icmp"@.len() == 4 && "icmpv6"@[0] == 'i');
    assert("allow"@[0] == 'a' && "drop"@[0] == 'd');
}

proof fn lemma_one_service(p: ProtectionProject, o: Seq<u8>)
    requires
        p.target_ips@.len() == 1,
        addresses_of(p.target_ips@[0]@) == seq![o],
    ensures
        written(policies_of(seq![p])) == seq![(key_for(p, o), policy_for(p))],
{
    let e: (ProjectPolicyKey, ProjectPolicy) = (key_for(p, o), policy_for(p));
    let list: Seq<ProtectionProject> = seq![p];
    let targets: Seq<String> = p.target_ips@;
    let none: Seq<(ProjectPolicyKey, ProjectPolicy)> = Seq::empty();
    assert(at_target(p, targets[0]@) =~= seq![e]);
    assert(targets.drop_last().len() == 0);
    assert(at_targets(p, targets.drop_last()) =~= none);
    assert(at_targets(p, targets) =~= seq![e]);
    assert(list.drop_last().len() == 0);
    assert(policies_of(list.drop_last()) =~= none);
    assert(list.last() == p);
    assert(policies_of(list) =~= seq![e]);
    let one: Seq<(ProjectPolicyKey, ProjectPolicy)> = seq![e];
    assert(one.drop_last() =~= none);
    assert(written(none) =~= none);
    assert(crate::node::projects::place_of(none, e.0) == 0);
    assert(written(one) =~= seq![e]);
}

/// A service that is configured for an address, a port or all and a protocol or all decides
/// about the IPv4 packets that are sent there: `pass` lets them through, `drop` stops them,
/// and any other action leaves them to the other checks.
pub proof fn law_configured_service_decides(
    p: ProtectionProject,
    a: Seq<u8>,
    f: FlowView,
    h: Headers,
    t: Tables,
    rt: RuntimeConfig,
    env: Env,
)
    requires
        p.target_ips@.len() == 1,
        ip_value(p.target_ips@[0]@) == Some((4u8, a)),
        a.len() == 16,
        uint_value(p.dport@, 0xffff) is None || uint_value(p.dport@, 0xffff) == Some(
            h.dport as nat,
        ),
        protocol_number(p.protocol@) is None || protocol_number(p.protocol@) == Some(0u8)
            || protocol_number(p.protocol@) == Some(h.protocol),
        t.projects@ == written(policies_of(seq![p])),
        rt.project_enabled != 0,
        h.src.family == 4,
        f.packet.len() >= 34,
        f.packet.subrange(30, 34) == a.skip(12),
    ensures
        ({
            let s: Step = project_step(f, h, t, rt, env);
            &&& lowered(p.action@) == "pass"@ ==> s.action == XDP_PASS && s.flow.packet == f.packet
            &&& lowered(p.action@) == "drop"@ ==> stopped(s) && s.flow.rule_id == 12
            &&& lowered(p.action@) != "pass"@ && lowered(p.action@) != "drop"@ ==> s.action
                == NO_ACTION && s.flow == f
        }),
{
    reveal_strlit("pass");
    reveal_strlit("drop");
    assert("pass"@[0] == 'p' && "drop"@[0] == 'd');
    let o: Seq<u8> = a.skip(12);
    lemma_one_service(p, o);
    assert(o[0] == f.packet.subrange(30, 34)[0] && o[0] == f.packet[30]);
    assert(o[1] == f.packet.subrange(30, 34)[1] && o[1] == f.packet[31]);
    assert(o[2] == f.packet.subrange(30, 34)[2] && o[2] == f.packet[32]);
    assert(o[3] == f.packet.subrange(30, 34)[3] && o[3] == f.packet[33]);
    crate::bytes::lemma_octets(o[0] as int, o[1] as int, o[2] as int, o[3] as int);
    crate::bytes::lemma_octets(o[3] as int, o[2] as int, o[1] as int, o[0] as int);
    let key: ProjectPolicyKey = key_for(p, o);
    assert(key.addr == o[0] + o[1] * 0x100 + o[2] * 0x1_0000 + o[3] * 0x100_0000);
    assert(names_target(key, f.packet, h.dport, h.protocol));
    law_policy_decides(f, h, t, rt, env, 0);
}

/// How many addresses an IPv4 network of a prefix from 24 on has.
pub open spec fn network_size(prefix: u32) -> int {
    if prefix == 24 {
        256
    } else if prefix == 25 {
        128
    } else if prefix == 26 {
        64
    } else if prefix == 27 {
        32
    } else if prefix == 28 {
        16
    } else if prefix == 29 {
        8
    } else if prefix == 30 {
        4
    } else if prefix == 31 {
        2
    } else {
        1
    }
}

/// A target that is a network stands for each of its addresses, and for no other.
pub proof fn law_network_target_names_its_addresses(
    s: Seq<char>,
    n: (u8, Seq<u8>, u32),
    o: Seq<u8>,
)
    requires
        ip_value(s) is None,
        cidr_value(s) == Ok::<(u8, Seq<u8>, u32), crate::ip::IpError>(n),
        n.0 == 4,
        24 <= n.2 <= 32,
        n.1.len() == 16,
        o.len() == 4,
    ensures
        addresses_of(s).len() == network_size(n.2),
        addresses_of(s).contains(o) <==> o[0] == n.1[12] && o[1] == n.1[13] && o[2] == n.1[14]
            && n.1[15] <= o[3] < n.1[15] + network_size(n.2),
{
    crate::node::projects::lemma_network_fits(s);
    let first: Seq<u8> = n.1.skip(12);
    let list: Seq<Seq<u8>> = addresses_of(s);
    if list.contains(o) {
        let i: int = list.index_of(o);
        assert(list[i] == first.update(3, (first[3] + i) as u8));
        assert(o[0] == first[0] && o[1] == first[1] && o[2] == first[2]);
    }
    if o[0] == n.1[12] && o[1] == n.1[13] && o[2] == n.1[14] && n.1[15] <= o[3] < n.1[15]
        + network_size(n.2) {
        let i: int = o[3] - n.1[15];
        assert(first.update(3, (first[3] + i) as u8) =~= o);
        assert(list[i] == o);
    }
}

/// A target that is an IPv4 address stands for that address; an IPv6 address, a broader
/// network and what is neither stand for none.
pub proof fn law_address_target_names_itself(s: Seq<char>)
    ensures
        ip_value(s) matches Some(a) ==> {
            &&& a.0 == 4 ==> addresses_of(s) == seq![a.1.skip(12)]
            &&& a.0 != 4 ==> addresses_of(s).len() == 0
        },
        ip_value(s) is None && cidr_value(s) is Err ==> addresses_of(s).len() == 0,
        ip_value(s) is None && cidr_value(s) is Ok && (cidr_value(s)->Ok_0.0 != 4
            || cidr_value(s)->Ok_0.2 < 24) ==> addresses_of(s).len() == 0,
{
}

/// Whether a set of modules has the one whose bit is `bit`.
pub open spec fn has_module(set: int, bit: int) -> bool {
    set / bit % 2 == 1
}

/// The modules of a service are those that it names, each under its own bit.
pub proof fn law_named_modules_are_on(list: Seq<String>)
    ensures
        has_module(module_set(list), 1) <==> texts(list).contains("syn_flood"@),
        has_module(module_set(list), 2) <==> texts(list).contains("udp_flood"@),
        has_module(module_set(list), 4) <==> texts(list).contains("icmp_flood"@),
        has_module(module_set(list), 8) <==> texts(list).contains("rate_limit"@),
        has_module(module_set(list), 16) <==> texts(list).contains("adaptive"@),
        has_module(module_set(list), 32) <==> texts(list).contains("l7_scan"@),
        has_module(module_set(list), 64) <==> texts(list).contains("geoip"@),
        has_module(module_set(list), 128) <==> texts(list).contains("tcp_reset"@),
        has_module(module_set(list), 256) <==> texts(list).contains("port_acl"@),
        0 <= module_set(list) < 512,
{
}

/// A row of a table gives the network in its first column with what its second names.
pub open spec fn gives_network(b: BlockView, network: Seq<char>) -> bool {
    match cidr_value(network) {
        Ok(n) => b.family == n.0 && b.octets == n.1 && b.prefix == n.2,
        Err(_) => false,
    }
}

/// The country of a row is one of the wanted, whatever the case of the letters.
pub open spec fn is_wanted(countries: Seq<Seq<char>>, country: Seq<char>) -> bool {
    exists|i: int|
        0 <= i < countries.len() && #[trigger] uppered(countries[i]) == uppered(trimmed(country))
}

proof fn lemma_blocks_join(a: Seq<Option<BlockView>>, b: Seq<Option<BlockView>>)
    ensures
        crate::node::geoip::blocks_in(a + b) == crate::node::geoip::blocks_in(a)
            + crate::node::geoip::blocks_in(b),
    decreases b.len(),
{
    let fa: Seq<BlockView> = crate::node::geoip::blocks_in(a);
    if b.len() == 0 {
        assert(a + b =~= a);
        assert(fa + crate::node::geoip::blocks_in(b) =~= fa);
    } else {
        lemma_blocks_join(a, b.drop_last());
        assert((a + b).drop_last() =~= a + b.drop_last());
        assert((a + b).last() == b.last());
        assert(crate::node::geoip::blocks_in(a + b) =~= fa + crate::node::geoip::blocks_in(b));
    }
}

proof fn lemma_one_block(x: Option<BlockView>)
    ensures
        crate::node::geoip::blocks_in(seq![x]) == match x {
            Some(b) => seq![b],
            None => Seq::empty(),
        },
{
    let one: Seq<Option<BlockView>> = seq![x];
    assert(one.drop_last().len() == 0);
    assert(crate::node::geoip::blocks_in(one.drop_last()).len() == 0);
    assert(one.last() == x);
    assert(crate::node::geoip::blocks_in(one) =~= match x {
        Some(b) => seq![b],
        None => Seq::empty(),
    });
}

/// The rows of the country table are taken one by one: a row gives its network where its
/// country is wanted, and nothing where it is not or where it has no network.
pub proof fn law_wanted_countries_are_listed(
    a: Seq<Seq<Seq<char>>>,
    b: Seq<Seq<Seq<char>>>,
    x: Seq<Seq<char>>,
    countries: Seq<Seq<char>>,
    kind: Seq<char>,
)
    ensures
        country_blocks_of(a + b, countries, kind) == country_blocks_of(a, countries, kind)
            + country_blocks_of(b, countries, kind),
        ({
            let r: Seq<BlockView> = country_blocks_of(seq![x], countries, kind);
            let listed: bool = x.len() >= 2 && is_wanted(countries, x[1]) && cidr_value(
                trimmed(x[0]),
            ) is Ok;
            &&& !listed ==> r.len() == 0
            &&& listed ==> r.len() == 1 && gives_network(r[0], trimmed(x[0]))
        }),
{
    let f = |r: Seq<Seq<char>>| crate::node::geoip::country_row(r, countries, kind);
    assert((a + b).map_values(f) =~= a.map_values(f) + b.map_values(f));
    lemma_blocks_join(a.map_values(f), b.map_values(f));
    assert(seq![x].map_values(f) =~= seq![f(x)]);
    lemma_one_block(f(x));
    if x.len() >= 2 {
        let country: Seq<char> = uppered(trimmed(x[1]));
        assert(crate::node::geoip::wanted(countries, country) <==> is_wanted(countries, x[1]));
    }
}

/// The rows of the operator table are taken one by one: a row gives its network where the
/// number of its operator is wanted, and nothing where it is not.
pub proof fn law_wanted_operators_are_listed(
    a: Seq<Seq<Seq<char>>>,
    b: Seq<Seq<Seq<char>>>,
    x: Seq<Seq<char>>,
    asns: Seq<u32>,
    kind: Seq<char>,
    asn: u32,
)
    ensures
        asn_blocks_of(a + b, asns, kind) == asn_blocks_of(a, asns, kind) + asn_blocks_of(
            b,
            asns,
            kind,
        ),
        x.len() >= 2 && trimmed(x[1]) == dec(asn as nat) && !asns.contains(asn) ==> asn_blocks_of(
            seq![x],
            asns,
            kind,
        ).len() == 0,
        x.len() >= 2 && trimmed(x[1]) == dec(asn as nat) && asns.contains(asn) && cidr_value(
            trimmed(x[0]),
        ) is Ok ==> asn_blocks_of(seq![x], asns, kind).len() == 1 && gives_network(
            asn_blocks_of(seq![x], asns, kind)[0],
            trimmed(x[0]),
        ),
        x.len() < 2 ==> asn_blocks_of(seq![x], asns, kind).len() == 0,
{
    let f = |r: Seq<Seq<char>>| crate::node::geoip::asn_row(r, asns, kind);
    assert((a + b).map_values(f) =~= a.map_values(f) + b.map_values(f));
    lemma_blocks_join(a.map_values(f), b.map_values(f));
    assert(seq![x].map_values(f) =~= seq![f(x)]);
    lemma_one_block(f(x));
    lemma_dec_value(asn as nat, u32::MAX as nat);
}

/// A cursor that the hub hands out leads where it says, and one that is no number leads
/// nowhere.
pub proof fn law_cursor_is_followed(n: u64, now: u64, other: Seq<char>)
    ensures
        moved_to(dec(n as nat), now) == n,
        uint_value(other, u64::MAX as nat) is None ==> moved_to(other, now) == now,
{
    lemma_dec_value(n as nat, u64::MAX as nat);
}

/// The address of a hub is the configured one without the slashes at its end.
pub proof fn law_hub_address_has_no_slash(urls: Seq<String>, i: int, base: Seq<char>, n: nat)
    requires
        0 <= i < urls.len(),
        urls[i]@ == base + Seq::new(n, |j: int| '/'),
        base.len() > 0 ==> base.last() != '/',
    ensures
        hub_at(urls, i) == base,
{
    lemma_slashes(base, n);
}

proof fn lemma_slashes(base: Seq<char>, n: nat)
    requires
        base.len() > 0 ==> base.last() != '/',
    ensures
        without_slashes(base + Seq::new(n, |j: int| '/')) == base,
    decreases n,
{
    let s: Seq<char> = base + Seq::new(n, |j: int| '/');
    if n == 0 {
        assert(s =~= base);
    } else {
        let m: nat = (n - 1) as nat;
        assert(s.last() == '/');
        assert(s.drop_last() =~= base + Seq::new(m, |j: int| '/'));
        lemma_slashes(base, m);
    }
}

} // verus!
