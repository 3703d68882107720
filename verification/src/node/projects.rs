//! Protected services as the packet path looks them up.

use crate::bytes::dword_at;
use crate::bytes::read_be32;
use crate::bytes::swap16;
use crate::bytes::swap32;
use crate::bytes::swapped16;
use crate::bytes::swapped32;
use crate::common::ProjectPolicy;
use crate::common::ProjectPolicyKey;
use crate::dataplane::pipeline::best_policy;
use crate::dataplane::pipeline::policy_in;
use crate::hub::store::has_text;
use crate::ip::cidr_value;
use crate::ip::ip_value;
use crate::ip::parse_cidr;
use crate::ip::parse_ip;
use crate::ip::v4_network;
use crate::node::config::ProtectionProject;
use crate::node::port_rule::parse_port;
use crate::node::port_rule::parse_protocol;
use crate::node::port_rule::protocol_number;
use crate::node::validate::projects_fault;
use crate::node::validate::validate_protection_projects;
use crate::node::validate::ConfigError;
use crate::prefix::bit_weight;
use crate::prefix::weight;
use crate::project_action;
use crate::project_modules;
use crate::text::chars_of;
use crate::text::lower_is;
use crate::text::lowered;
use crate::text::texts;
use crate::text::uint_value;
use vstd::prelude::*;

verus! {

/// How many policies the packet path's table holds.
pub const MAX_POLICIES: usize = 8192;

/// Why protected services cannot be handed to the packet path.
#[derive(Clone, Copy, Debug, PartialEq, Eq, Structural)]
pub enum ProjectsError {
    /// A service is not well described.
    Invalid(ConfigError),
    /// The services have more policies than the table holds.
    TooMany,
}

/// The bit of a module where the list names it, else 0.
pub open spec fn bit_if(list: Seq<String>, name: Seq<char>, bit: u16) -> int {
    if texts(list).contains(name) {
        bit as int
    } else {
        0
    }
}

/// The modules of a list as a set of bits.
pub open spec fn module_set(list: Seq<String>) -> int {
    bit_if(list, "syn_flood"@, project_modules::SYN_FLOOD) + bit_if(
        list,
        "udp_flood"@,
        project_modules::UDP_FLOOD,
    ) + bit_if(list, "icmp_flood"@, project_modules::ICMP_FLOOD) + bit_if(
        list,
        "rate_limit"@,
        project_modules::RATE_LIMIT,
    ) + bit_if(list, "adaptive"@, project_modules::ADAPTIVE) + bit_if(
        list,
        "l7_scan"@,
        project_modules::L7_SCAN,
    ) + bit_if(list, "geoip"@, project_modules::GEOIP) + bit_if(
        list,
        "tcp_reset"@,
        project_modules::TCP_RESET,
    ) + bit_if(list, "port_acl"@, project_modules::PORT_ACL)
}

fn named_bit(list: &Vec<String>, name: &str, bit: u16) -> (r: u16)
    ensures
        r == bit_if(list@, name@, bit),
{
    if has_text(list, name) {
        bit
    } else {
        0
    }
}

fn modules_of(list: &Vec<String>) -> (r: u16)
    ensures
        r == module_set(list@),
{
    let floods: u16 = named_bit(list, "syn_flood", project_modules::SYN_FLOOD) + named_bit(
        list,
        "udp_flood",
        project_modules::UDP_FLOOD,
    ) + named_bit(list, "icmp_flood", project_modules::ICMP_FLOOD);
    let limits: u16 = named_bit(list, "rate_limit", project_modules::RATE_LIMIT) + named_bit(
        list,
        "adaptive",
        project_modules::ADAPTIVE,
    ) + named_bit(list, "l7_scan", project_modules::L7_SCAN);
    floods + limits + named_bit(list, "geoip", project_modules::GEOIP) + named_bit(
        list,
        "tcp_reset",
        project_modules::TCP_RESET,
    ) + named_bit(list, "port_acl", project_modules::PORT_ACL)
}

/// The number of an action; what is neither `pass` nor `drop` defends.
pub open spec fn action_of(s: Seq<char>) -> u8 {
    if lowered(s) == "pass"@ {
        project_action::PASS
    } else if lowered(s) == "drop"@ {
        project_action::DROP
    } else {
        project_action::DEFEND
    }
}

/// The policy of a service.
pub open spec fn policy_for(p: ProtectionProject) -> ProjectPolicy {
    ProjectPolicy {
        flags: module_set(p.enabled_modules@) as u16,
        action: action_of(p.action@),
    }
}

fn to_policy(p: &ProtectionProject) -> (r: ProjectPolicy)
    ensures
        r == policy_for(*p),
{
    let action: u8 = if lower_is(p.action.as_str(), "pass") {
        project_action::PASS
    } else if lower_is(p.action.as_str(), "drop") {
        project_action::DROP
    } else {
        project_action::DEFEND
    };
    ProjectPolicy { flags: modules_of(&p.enabled_modules), action }
}

/// The key of a service at an address; a port or protocol of `any` is 0.
pub open spec fn key_for(p: ProtectionProject, octets: Seq<u8>) -> ProjectPolicyKey {
    ProjectPolicyKey {
        addr: swapped32(dword_at(octets, 0) as u32) as u32,
        dport: match uint_value(p.dport@, 0xffff) {
            Some(n) => swapped16(n as u16) as u16,
            None => 0,
        },
        protocol: match protocol_number(p.protocol@) {
            Some(n) => n,
            None => 0,
        },
    }
}

fn to_key(p: &ProtectionProject, octets: &[u8; 4]) -> (r: ProjectPolicyKey)
    ensures
        r == key_for(*p, octets@),
{
    let dport: u16 = match parse_port(&chars_of(p.dport.as_str())) {
        Some(n) => swap16(n),
        None => 0,
    };
    let protocol: u8 = match parse_protocol(p.protocol.as_str()) {
        Some(n) => n,
        None => 0,
    };
    let addr: u32 = swap32(read_be32(octets.as_slice(), 0));
    ProjectPolicyKey { addr, dport, protocol }
}

/// The addresses of a network, the first `n` of them.
pub open spec fn addresses_from(first: Seq<u8>, n: nat) -> Seq<Seq<u8>> {
    Seq::new(n, |i: int| first.update(3, (first[3] + i) as u8))
}

/// The IPv4 addresses that a target names: one, or those of a network no broader than /24.
/// A target of the other family has none.
pub open spec fn addresses_of(s: Seq<char>) -> Seq<Seq<u8>> {
    match ip_value(s) {
        Some(a) => if a.0 == 4 {
            seq![a.1.skip(12)]
        } else {
            Seq::empty()
        },
        None => match cidr_value(s) {
            Ok(n) => if n.0 == 4 && n.2 >= 24 {
                addresses_from(n.1.skip(12), bit_weight(n.2 - 24) as nat)
            } else {
                Seq::empty()
            },
            Err(_) => Seq::empty(),
        },
    }
}

/// An IPv4 address and how many addresses follow from it on.
fn read_target(s: &str) -> (r: Option<([u8; 4], u16)>)
    ensures
        match r {
            Some(t) => {
                &&& 0 < t.1 <= 256
                &&& t.0@[3] + t.1 <= 256
                &&& addresses_of(s@) == addresses_from(t.0@, t.1 as nat)
            },
            None => addresses_of(s@).len() == 0,
        },
{
    if let Ok(k) = parse_ip(s) {
        if k.family != 4 {
            return None;
        }
        let first: [u8; 4] = [k.addr[12], k.addr[13], k.addr[14], k.addr[15]];
        assert(first@ =~= k.addr@.skip(12));
        assert(addresses_of(s@) =~= addresses_from(first@, 1)) by {
            assert(first@.update(3, (first@[3] + 0) as u8) =~= first@);
        }
        return Some((first, 1));
    }
    match parse_cidr(s) {
        Err(_) => None,
        Ok(n) => {
            if n.0.family != 4 || n.1 < 24 {
                return None;
            }
            let k = n.0;
            let first: [u8; 4] = [k.addr[12], k.addr[13], k.addr[14], k.addr[15]];
            assert(first@ =~= k.addr@.skip(12));
            proof {
                lemma_network_fits(s@);
            }
            Some((first, weight((n.1 - 24) as u8)))
        },
    }
}

/// The stretch that starts at an octet without its last bits stays among the octets.
proof fn lemma_span_fits(o: u8, k: int)
    ensures
        o as int / bit_weight(k) * bit_weight(k) + bit_weight(k) <= 256,
{
    let w: int = bit_weight(k);
    let q: int = o as int / w;
    let t: int = 256int / w;
    assert(t * w == 256);
    assert(q + 1 <= t);
    assert(q * w + w <= t * w) by (nonlinear_arith)
        requires
            q + 1 <= t,
            w > 0,
    ;
}

pub proof fn lemma_network_fits(s: Seq<char>)
    ensures
        match cidr_value(s) {
            Ok(n) => n.0 == 4 && n.2 >= 24 ==> n.2 <= 32 && n.1[15] + bit_weight(n.2 - 24) <= 256,
            Err(_) => true,
        },
{
    if let Ok(n) = cidr_value(s) {
        if n.0 == 4 && n.2 >= 24 {
            let a: (u8, Seq<u8>) = ip_value(crate::text::split_on(s, '/')[0])->0;
            let net: Seq<u8> = v4_network(a.1.skip(12), n.2 as int);
            assert(n.1 == crate::common::IpKey::mapped(net));
            assert(n.1[15] == net[3]);
            let o: u8 = a.1.skip(12)[3];
            let k: int = n.2 - 24;
            let w: int = bit_weight(k);
            assert(net[3] == (o as int / w * w) as u8);
            lemma_span_fits(o, k);
        }
    }
}

/// The policies of a service at the addresses of one target.
pub open spec fn at_target(p: ProtectionProject, s: Seq<char>) -> Seq<
    (ProjectPolicyKey, ProjectPolicy),
> {
    addresses_of(s).map_values(|o: Seq<u8>| (key_for(p, o), policy_for(p)))
}

/// The policies of a service at some of its targets, in order.
pub open spec fn at_targets(p: ProtectionProject, targets: Seq<String>) -> Seq<
    (ProjectPolicyKey, ProjectPolicy),
>
    decreases targets.len(),
{
    if targets.len() == 0 {
        Seq::empty()
    } else {
        at_targets(p, targets.drop_last()) + at_target(p, targets.last()@)
    }
}

/// The policies of services, in order.
pub open spec fn policies_of(list: Seq<ProtectionProject>) -> Seq<
    (ProjectPolicyKey, ProjectPolicy),
>
    decreases list.len(),
{
    if list.len() == 0 {
        Seq::empty()
    } else {
        policies_of(list.drop_last()) + at_targets(list.last(), list.last().target_ips@)
    }
}

/// The place of a key in a table; the end where it has none.
pub open spec fn place_of(
    t: Seq<(ProjectPolicyKey, ProjectPolicy)>,
    k: ProjectPolicyKey,
) -> int
    decreases t.len(),
{
    if t.len() == 0 || t[0].0 == k {
        0
    } else {
        1 + place_of(t.skip(1), k)
    }
}

/// The table after a policy was written; a policy of the same key gives way.
pub open spec fn with_policy(
    t: Seq<(ProjectPolicyKey, ProjectPolicy)>,
    e: (ProjectPolicyKey, ProjectPolicy),
) -> Seq<(ProjectPolicyKey, ProjectPolicy)> {
    let i: int = place_of(t, e.0);
    if i < t.len() {
        t.update(i, e)
    } else {
        t.push(e)
    }
}

/// The table after policies were written one after the other.
pub open spec fn written(e: Seq<(ProjectPolicyKey, ProjectPolicy)>) -> Seq<
    (ProjectPolicyKey, ProjectPolicy),
>
    decreases e.len(),
{
    if e.len() == 0 {
        e
    } else {
        with_policy(written(e.drop_last()), e.last())
    }
}

proof fn lemma_place(t: Seq<(ProjectPolicyKey, ProjectPolicy)>, k: ProjectPolicyKey)
    ensures
        0 <= place_of(t, k) <= t.len(),
    decreases t.len(),
{
    if t.len() > 0 && t[0].0 != k {
        lemma_place(t.skip(1), k);
    }
}

proof fn lemma_lookup_after_write(
    t: Seq<(ProjectPolicyKey, ProjectPolicy)>,
    e: (ProjectPolicyKey, ProjectPolicy),
    k: ProjectPolicyKey,
)
    ensures
        policy_in(with_policy(t, e), k) == if k == e.0 {
            Some(e.1)
        } else {
            policy_in(t, k)
        },
    decreases t.len(),
{
    lemma_place(t, e.0);
    let u: Seq<(ProjectPolicyKey, ProjectPolicy)> = with_policy(t, e);
    if t.len() == 0 {
        assert(u.skip(1) =~= t);
    } else if t[0].0 == e.0 {
        assert(u.skip(1) =~= t.skip(1));
    } else {
        lemma_place(t.skip(1), e.0);
        lemma_lookup_after_write(t.skip(1), e, k);
        assert(u.skip(1) =~= with_policy(t.skip(1), e));
        assert(u[0] == t[0]);
    }
}

/// The last policy of a key among some.
pub open spec fn last_of_key(
    e: Seq<(ProjectPolicyKey, ProjectPolicy)>,
    k: ProjectPolicyKey,
) -> Option<ProjectPolicy>
    decreases e.len(),
{
    if e.len() == 0 {
        None
    } else if e.last().0 == k {
        Some(e.last().1)
    } else {
        last_of_key(e.drop_last(), k)
    }
}

/// The table holds of every key the policy that was written last.
pub proof fn law_last_write_stays(
    e: Seq<(ProjectPolicyKey, ProjectPolicy)>,
    k: ProjectPolicyKey,
)
    ensures
        policy_in(written(e), k) == last_of_key(e, k),
    decreases e.len(),
{
    if e.len() > 0 {
        law_last_write_stays(e.drop_last(), k);
        lemma_lookup_after_write(written(e.drop_last()), e.last(), k);
    }
}

fn find_place(t: &Vec<(ProjectPolicyKey, ProjectPolicy)>, k: &ProjectPolicyKey) -> (r: usize)
    ensures
        r == place_of(t@, *k),
{
    let mut i: usize = 0;
    assert(t@.skip(0) =~= t@);
    while i < t.len() && t[i].0 != *k
        invariant
            i <= t@.len(),
            place_of(t@, *k) == i + place_of(t@.skip(i as int), *k),
        decreases t@.len() - i,
    {
        assert(t@.skip(i as int)[0] == t@[i as int]);
        assert(t@.skip(i as int).skip(1) =~= t@.skip(i + 1));
        i = i + 1;
    }
    if i < t.len() {
        assert(t@.skip(i as int)[0] == t@[i as int]);
    }
    i
}

fn write_policy(
    t: &mut Vec<(ProjectPolicyKey, ProjectPolicy)>,
    e: (ProjectPolicyKey, ProjectPolicy),
)
    ensures
        final(t)@ == with_policy(old(t)@, e),
{
    let i: usize = find_place(t, &e.0);
    if i < t.len() {
        t.set(i, e);
    } else {
        t.push(e);
    }
}

proof fn lemma_written_grows(
    a: Seq<(ProjectPolicyKey, ProjectPolicy)>,
    b: Seq<(ProjectPolicyKey, ProjectPolicy)>,
)
    ensures
        written(a + b).len() >= written(a).len(),
    decreases b.len(),
{
    if b.len() == 0 {
        assert(a + b =~= a);
    } else {
        lemma_written_grows(a, b.drop_last());
        assert((a + b).drop_last() =~= a + b.drop_last());
        assert((a + b).last() == b.last());
        lemma_place(written((a + b).drop_last()), b.last().0);
    }
}

proof fn lemma_targets_split(p: ProtectionProject, targets: Seq<String>, j: int)
    requires
        0 <= j <= targets.len(),
    ensures
        exists|rest: Seq<(ProjectPolicyKey, ProjectPolicy)>|
            at_targets(p, targets) == #[trigger] (at_targets(p, targets.take(j)) + rest),
    decreases targets.len() - j,
{
    if j == targets.len() {
        assert(targets.take(j) =~= targets);
        assert(at_targets(p, targets) =~= at_targets(p, targets.take(j)) + Seq::empty());
    } else {
        lemma_targets_split(p, targets, j + 1);
        let rest = choose|rest: Seq<(ProjectPolicyKey, ProjectPolicy)>|
            at_targets(p, targets) == #[trigger] (at_targets(p, targets.take(j + 1)) + rest);
        assert(targets.take(j + 1).drop_last() =~= targets.take(j));
        let more = at_target(p, targets.take(j + 1).last()@) + rest;
        assert(at_targets(p, targets) =~= at_targets(p, targets.take(j)) + more);
    }
}

proof fn lemma_list_split(list: Seq<ProtectionProject>, i: int)
    requires
        0 <= i <= list.len(),
    ensures
        exists|rest: Seq<(ProjectPolicyKey, ProjectPolicy)>|
            policies_of(list) == #[trigger] (policies_of(list.take(i)) + rest),
    decreases list.len() - i,
{
    if i == list.len() {
        assert(list.take(i) =~= list);
        assert(policies_of(list) =~= policies_of(list.take(i)) + Seq::empty());
    } else {
        lemma_list_split(list, i + 1);
        let rest = choose|rest: Seq<(ProjectPolicyKey, ProjectPolicy)>|
            policies_of(list) == #[trigger] (policies_of(list.take(i + 1)) + rest);
        assert(list.take(i + 1).drop_last() =~= list.take(i));
        let last: ProtectionProject = list.take(i + 1).last();
        let more = at_targets(last, last.target_ips@) + rest;
        assert(policies_of(list) =~= policies_of(list.take(i)) + more);
    }
}

/// More is written than fits once part of it is too much.
proof fn lemma_too_many(list: Seq<ProtectionProject>, i: int, j: int)
    requires
        0 <= i < list.len(),
        0 <= j <= list[i].target_ips@.len(),
    ensures
        written(policies_of(list)).len() >= written(
            policies_of(list.take(i)) + at_targets(list[i], list[i].target_ips@.take(j)),
        ).len(),
{
    let p: ProtectionProject = list[i];
    let a = policies_of(list.take(i));
    lemma_list_split(list, i + 1);
    let outer = choose|rest: Seq<(ProjectPolicyKey, ProjectPolicy)>|
        policies_of(list) == #[trigger] (policies_of(list.take(i + 1)) + rest);
    assert(list.take(i + 1).drop_last() =~= list.take(i));
    assert(list.take(i + 1).last() == p);
    lemma_targets_split(p, p.target_ips@, j);
    let inner = choose|rest: Seq<(ProjectPolicyKey, ProjectPolicy)>|
        at_targets(p, p.target_ips@) == #[trigger] (at_targets(p, p.target_ips@.take(j)) + rest);
    let part = a + at_targets(p, p.target_ips@.take(j));
    assert(policies_of(list) =~= part + (inner + outer));
    lemma_written_grows(part, inner + outer);
}

fn write_target(
    t: &mut Vec<(ProjectPolicyKey, ProjectPolicy)>,
    p: &ProtectionProject,
    policy: ProjectPolicy,
    target: &str,
    Ghost(before): Ghost<Seq<(ProjectPolicyKey, ProjectPolicy)>>,
)
    requires
        policy == policy_for(*p),
        old(t)@ == written(before),
    ensures
        final(t)@ == written(before + at_target(*p, target@)),
{
    match read_target(target) {
        None => {
            assert(before + at_target(*p, target@) =~= before);
        },
        Some((first, n)) => {
            let ghost all = at_target(*p, target@);
            assert(before + all.take(0) =~= before);
            for i in 0..n
                invariant
                    policy == policy_for(*p),
                    n <= 256,
                    first@[3] + n <= 256,
                    all == at_target(*p, target@),
                    addresses_of(target@) == addresses_from(first@, n as nat),
                    t@ == written(before + all.take(i as int)),
            {
                let mut octets: [u8; 4] = first;
                octets[3] = (first[3] as u16 + i) as u8;
                assert(octets@ =~= addresses_of(target@)[i as int]);
                let e: (ProjectPolicyKey, ProjectPolicy) = (to_key(p, &octets), policy);
                assert(e == all[i as int]);
                assert((before + all.take(i + 1)).drop_last() =~= before + all.take(i as int));
                assert((before + all.take(i + 1)).last() == e);
                write_policy(t, e);
            }
            assert(all.take(n as int) =~= all);
        },
    }
}

/// `r` is the table of the packet path for protected services, or why there is none.
pub open spec fn project_table(
    list: Seq<ProtectionProject>,
    r: Result<Vec<(ProjectPolicyKey, ProjectPolicy)>, ProjectsError>,
) -> bool {
    match r {
        Ok(t) => projects_fault(list, 0) is None && t@ == written(policies_of(list)) && t@.len()
            <= MAX_POLICIES,
        Err(ProjectsError::Invalid(e)) => projects_fault(list, 0) == Some(e),
        Err(ProjectsError::TooMany) => projects_fault(list, 0) is None && written(
            policies_of(list),
        ).len() > MAX_POLICIES,
    }
}

/// The table of the packet path for protected services: each address of each target, with
/// the service's port and protocol. Where two services name the same, the later decides.
pub fn project_policies(list: &Vec<ProtectionProject>) -> (r: Result<
    Vec<(ProjectPolicyKey, ProjectPolicy)>,
    ProjectsError,
>)
    ensures
        project_table(list@, r),
{
    if let Err(e) = validate_protection_projects(list) {
        return Err(ProjectsError::Invalid(e));
    }
    let mut t: Vec<(ProjectPolicyKey, ProjectPolicy)> = Vec::new();
    assert(t@ =~= written(policies_of(list@.take(0))));
    for i in 0..list.len()
        invariant
            projects_fault(list@, 0) is None,
            t@ == written(policies_of(list@.take(i as int))),
            t@.len() <= MAX_POLICIES,
    {
        let p: &ProtectionProject = &list[i];
        let policy: ProjectPolicy = to_policy(p);
        let ghost front = policies_of(list@.take(i as int));
        let ghost targets = p.target_ips@;
        assert(front + at_targets(*p, targets.take(0)) =~= front);
        for j in 0..p.target_ips.len()
            invariant
                projects_fault(list@, 0) is None,
                i < list@.len(),
                *p == list@[i as int],
                policy == policy_for(*p),
                targets == p.target_ips@,
                front == policies_of(list@.take(i as int)),
                t@ == written(front + at_targets(*p, targets.take(j as int))),
                t@.len() <= MAX_POLICIES,
        {
            let ghost before = front + at_targets(*p, targets.take(j as int));
            write_target(&mut t, p, policy, p.target_ips[j].as_str(), Ghost(before));
            assert(targets.take(j + 1).drop_last() =~= targets.take(j as int));
            assert(targets.take(j + 1).last() == targets[j as int]);
            assert(front + at_targets(*p, targets.take(j + 1)) =~= before + at_target(
                *p,
                targets[j as int]@,
            ));
            if t.len() > MAX_POLICIES {
                proof {
                    lemma_too_many(list@, i as int, j + 1);
                }
                return Err(ProjectsError::TooMany);
            }
        }
        assert(targets.take(targets.len() as int) =~= targets);
        assert(list@.take(i + 1).drop_last() =~= list@.take(i as int));
        assert(list@.take(i + 1).last() == *p);
    }
    assert(list@.take(list@.len() as int) =~= list@);
    Ok(t)
}

proof fn lemma_last_among(
    a: Seq<(ProjectPolicyKey, ProjectPolicy)>,
    b: Seq<(ProjectPolicyKey, ProjectPolicy)>,
    i: int,
)
    requires
        0 <= i < b.len(),
        forall|j: int| 0 <= j < b.len() ==> (#[trigger] b[j]).1 == b[i].1,
    ensures
        last_of_key(a + b, b[i].0) == Some(b[i].1),
    decreases b.len(),
{
    assert((a + b).last() == b.last());
    if b.last().0 != b[i].0 {
        let front = b.drop_last();
        assert((a + b).drop_last() =~= a + front);
        assert(front[i] == b[i]);
        lemma_last_among(a, front, i);
    }
}

proof fn lemma_one_policy(p: ProtectionProject, targets: Seq<String>, i: int)
    requires
        0 <= i < at_targets(p, targets).len(),
    ensures
        at_targets(p, targets)[i].1 == policy_for(p),
    decreases targets.len(),
{
    let front = at_targets(p, targets.drop_last());
    if i < front.len() {
        lemma_one_policy(p, targets.drop_last(), i);
    }
}

proof fn lemma_target_is_there(p: ProtectionProject, targets: Seq<String>, j: int, k: int) -> (i:
    int)
    requires
        0 <= j < targets.len(),
        0 <= k < addresses_of(targets[j]@).len(),
    ensures
        0 <= i < at_targets(p, targets).len(),
        at_targets(p, targets)[i] == (key_for(p, addresses_of(targets[j]@)[k]), policy_for(p)),
    decreases targets.len(),
{
    let front = at_targets(p, targets.drop_last());
    if j == targets.len() - 1 {
        front.len() + k
    } else {
        assert(targets.drop_last()[j] == targets[j]);
        lemma_target_is_there(p, targets.drop_last(), j, k)
    }
}

/// At every address of its targets the packet path applies the policy of a service to
/// packets for its port and protocol, unless a later service names the same.
pub proof fn law_service_is_protected(list: Seq<ProtectionProject>, j: int, k: int)
    requires
        list.len() > 0,
        0 <= j < list.last().target_ips@.len(),
        0 <= k < addresses_of(list.last().target_ips@[j]@).len(),
    ensures
        ({
            let p: ProtectionProject = list.last();
            let key: ProjectPolicyKey = key_for(p, addresses_of(p.target_ips@[j]@)[k]);
            best_policy(written(policies_of(list)), key.addr, key.dport, key.protocol) == Some(
                policy_for(p),
            )
        }),
{
    let p: ProtectionProject = list.last();
    let a = policies_of(list.drop_last());
    let b = at_targets(p, p.target_ips@);
    let i: int = lemma_target_is_there(p, p.target_ips@, j, k);
    assert forall|n: int| 0 <= n < b.len() implies (#[trigger] b[n]).1 == b[i].1 by {
        lemma_one_policy(p, p.target_ips@, n);
    }
    lemma_last_among(a, b, i);
    law_last_write_stays(a + b, b[i].0);
}

} // verus!
