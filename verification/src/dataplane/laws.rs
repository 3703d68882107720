//! What the packet path promises of packets as they come: which are stopped, which are
//! answered and which pass.

use crate::bytes::lemma_octets;
use crate::common::ProjectPolicy;
use crate::common::ProjectPolicyKey;
use crate::common::RuntimeConfig;
use crate::dataplane::parser::Headers;
use crate::dataplane::pipeline::best_policy;
use crate::dataplane::pipeline::policy_in;
use crate::dataplane::pipeline::project_step;
use crate::dataplane::pipeline::Env;
use crate::dataplane::pipeline::FlowView;
use crate::dataplane::pipeline::Step;
use crate::dataplane::pipeline::Tables;
use crate::dataplane::xdp::NO_ACTION;
use crate::dataplane::xdp::XDP_DROP;
use crate::dataplane::xdp::XDP_PASS;
use crate::dataplane::xdp::XDP_TX;
use vstd::prelude::*;

verus! {

/// The packet does not get through: it is dropped, or answered and dropped.
pub open spec fn stopped(s: Step) -> bool {
    s.action == XDP_DROP || s.action == XDP_TX
}

/// The policy of a key in a table that holds the key once.
proof fn lemma_policy_in(
    list: Seq<(ProjectPolicyKey, ProjectPolicy)>,
    key: ProjectPolicyKey,
    i: int,
)
    requires
        0 <= i <= list.len(),
        i < list.len() ==> list[i].0 == key,
        forall|j: int| 0 <= j < i ==> (#[trigger] list[j]).0 != key,
    ensures
        policy_in(list, key) == if i < list.len() {
            Some(list[i].1)
        } else {
            None
        },
    decreases i,
{
    if i > 0 {
        let rest: Seq<(ProjectPolicyKey, ProjectPolicy)> = list.skip(1);
        assert(list[0].0 != key);
        assert forall|j: int| 0 <= j < i - 1 implies (#[trigger] rest[j]).0 != key by {
            assert(rest[j] == list[j + 1]);
        }
        if i < list.len() {
            assert(rest[i - 1] == list[i]);
        }
        lemma_policy_in(rest, key, i - 1);
    }
}

/// The table holds no policy of the key.
pub open spec fn no_policy(list: Seq<(ProjectPolicyKey, ProjectPolicy)>, key: ProjectPolicyKey) -> bool {
    forall|j: int| 0 <= j < list.len() ==> (#[trigger] list[j]).0 != key
}

/// The policy at place `i` is that of the key: the first of it.
pub open spec fn policy_at(
    list: Seq<(ProjectPolicyKey, ProjectPolicy)>,
    key: ProjectPolicyKey,
    i: int,
) -> bool {
    &&& 0 <= i < list.len()
    &&& list[i].0 == key
    &&& forall|j: int| 0 <= j < i ==> (#[trigger] list[j]).0 != key
}

/// The policies of an address are looked up from the narrowest to the widest: a policy for
/// the port and protocol counts before one for the port, that before one for the protocol,
/// and that before one for the whole address; where none of them is there, there is none.
/// A wildcard thus covers every port and protocol that nothing narrower covers.
pub proof fn law_narrowest_policy_counts(
    list: Seq<(ProjectPolicyKey, ProjectPolicy)>,
    addr: u32,
    dport: u16,
    protocol: u8,
    i: int,
)
    ensures
        ({
            let exact = ProjectPolicyKey { addr, dport, protocol };
            let port = ProjectPolicyKey { addr, dport, protocol: 0 };
            let proto = ProjectPolicyKey { addr, dport: 0, protocol };
            let whole = ProjectPolicyKey { addr, dport: 0, protocol: 0 };
            let found = best_policy(list, addr, dport, protocol);
            &&& policy_at(list, exact, i) ==> found == Some(list[i].1)
            &&& no_policy(list, exact) && policy_at(list, port, i) ==> found == Some(list[i].1)
            &&& no_policy(list, exact) && no_policy(list, port) && policy_at(list, proto, i)
                ==> found == Some(list[i].1)
            &&& no_policy(list, exact) && no_policy(list, port) && no_policy(list, proto)
                && policy_at(list, whole, i) ==> found == Some(list[i].1)
            &&& no_policy(list, exact) && no_policy(list, port) && no_policy(list, proto)
                && no_policy(list, whole) ==> found is None
        }),
{
    let n: int = list.len() as int;
    let keys: Seq<ProjectPolicyKey> = seq![
        ProjectPolicyKey { addr, dport, protocol },
        ProjectPolicyKey { addr, dport, protocol: 0 },
        ProjectPolicyKey { addr, dport: 0, protocol },
        ProjectPolicyKey { addr, dport: 0, protocol: 0 },
    ];
    assert forall|k: int| 0 <= k < 4 implies (no_policy(list, #[trigger] keys[k]) ==> policy_in(
        list,
        keys[k],
    ) is None) && (policy_at(list, keys[k], i) ==> policy_in(list, keys[k]) == Some(list[i].1)) by {
        if no_policy(list, keys[k]) {
            lemma_policy_in(list, keys[k], n);
        }
        if policy_at(list, keys[k], i) {
            lemma_policy_in(list, keys[k], i);
        }
    }
    let a = keys[0];
    let b = keys[1];
    let c = keys[2];
    let d = keys[3];
}

/// The key of the packet's destination in the table of policies, where the table has the
/// address and the port in wire order.
pub open spec fn names_target(key: ProjectPolicyKey, p: Seq<u8>, dport: u16, protocol: u8) -> bool {
    &&& key.addr == p[30] + p[31] * 0x100 + p[32] * 0x1_0000 + p[33] * 0x100_0000
    &&& key.dport == 0 || key.dport == (dport as int % 0x100) * 0x100 + dport as int / 0x100
    &&& key.protocol == 0 || key.protocol == protocol
}

/// The policy at place `i` is the only one that names the packet's destination.
pub open spec fn is_only_policy(
    list: Seq<(ProjectPolicyKey, ProjectPolicy)>,
    i: int,
    p: Seq<u8>,
    dport: u16,
    protocol: u8,
) -> bool {
    &&& 0 <= i < list.len()
    &&& names_target(list[i].0, p, dport, protocol)
    &&& forall|j: int|
        0 <= j < list.len() && j != i ==> !names_target((#[trigger] list[j]).0, p, dport, protocol)
}

/// The only policy that names the destination of an IPv4 packet, by its address and by a
/// port or all, and by a protocol or all, decides about the packet: 1 passes it, 2 stops
/// it, and any other leaves it to the other checks.
pub proof fn law_policy_decides(
    f: FlowView,
    h: Headers,
    t: Tables,
    rt: RuntimeConfig,
    env: Env,
    i: int,
)
    requires
        rt.project_enabled != 0,
        h.src.family == 4,
        f.packet.len() >= 34,
        is_only_policy(t.projects@, i, f.packet, h.dport, h.protocol),
    ensures
        ({
            let s: Step = project_step(f, h, t, rt, env);
            let action: u8 = t.projects@[i].1.action;
            &&& action == 1 ==> s.action == XDP_PASS && s.flow.packet == f.packet
                && s.flow.stats.total_passed == f.stats.total_passed.wrapping_add(1)
            &&& action == 2 ==> stopped(s) && s.flow.rule_id == 12
                && s.flow.stats.total_dropped == f.stats.total_dropped.wrapping_add(1)
            &&& action != 1 && action != 2 ==> s.action == NO_ACTION && s.flow == f
        }),
{
    let list: Seq<(ProjectPolicyKey, ProjectPolicy)> = t.projects@;
    let p: Seq<u8> = f.packet;
    let key: ProjectPolicyKey = list[i].0;
    let addr: u32 = crate::bytes::swapped32(crate::bytes::dword_at(p, 30) as u32) as u32;
    let port: u16 = crate::bytes::swapped16(h.dport) as u16;
    lemma_octets(p[30] as int, p[31] as int, p[32] as int, p[33] as int);
    lemma_octets(p[33] as int, p[32] as int, p[31] as int, p[30] as int);
    assert(addr == key.addr);
    assert(port == (h.dport as int % 0x100) * 0x100 + h.dport as int / 0x100);
    lemma_only_policy(list, i, addr, port, h.protocol);
}

proof fn lemma_only_policy(
    list: Seq<(ProjectPolicyKey, ProjectPolicy)>,
    i: int,
    addr: u32,
    port: u16,
    protocol: u8,
)
    requires
        0 <= i < list.len(),
        list[i].0.addr == addr,
        list[i].0.dport == 0 || list[i].0.dport == port,
        list[i].0.protocol == 0 || list[i].0.protocol == protocol,
        forall|j: int|
            0 <= j < list.len() && j != i ==> !((#[trigger] list[j]).0.addr == addr && (
            list[j].0.dport == 0 || list[j].0.dport == port) && (list[j].0.protocol == 0
                || list[j].0.protocol == protocol)),
    ensures
        best_policy(list, addr, port, protocol) == Some(list[i].1),
{
    let key: ProjectPolicyKey = list[i].0;
    let keys: Seq<ProjectPolicyKey> = seq![
        ProjectPolicyKey { addr, dport: port, protocol },
        ProjectPolicyKey { addr, dport: port, protocol: 0 },
        ProjectPolicyKey { addr, dport: 0, protocol },
        ProjectPolicyKey { addr, dport: 0, protocol: 0 },
    ];
    assert forall|k: int| 0 <= k < 4 implies policy_in(list, #[trigger] keys[k]) == if keys[k]
        == key {
        Some(list[i].1)
    } else {
        None
    } by {
        if keys[k] == key {
            lemma_policy_in(list, key, i);
        } else {
            assert forall|j: int| 0 <= j < list.len() implies (#[trigger] list[j]).0 != keys[k] by {
                if j == i {
                }
            }
            lemma_policy_in(list, keys[k], list.len() as int);
        }
    }
    let a = keys[0];
    let b = keys[1];
    let c = keys[2];
    let d = keys[3];
}

/// A packet to which no policy of the table applies is left to the other checks.
pub proof fn law_other_targets_are_left_alone(
    f: FlowView,
    h: Headers,
    t: Tables,
    rt: RuntimeConfig,
    env: Env,
)
    requires
        f.packet.len() >= 34,
        rt.project_enabled == 0 || h.src.family != 4 || forall|j: int|
            0 <= j < t.projects@.len() ==> !names_target(
                (#[trigger] t.projects@[j]).0,
                f.packet,
                h.dport,
                h.protocol,
            ),
    ensures
        project_step(f, h, t, rt, env).action == NO_ACTION,
        project_step(f, h, t, rt, env).flow == f,
{
    let list: Seq<(ProjectPolicyKey, ProjectPolicy)> = t.projects@;
    let p: Seq<u8> = f.packet;
    if rt.project_enabled != 0 && h.src.family == 4 {
        let addr: u32 = crate::bytes::swapped32(crate::bytes::dword_at(p, 30) as u32) as u32;
        let port: u16 = crate::bytes::swapped16(h.dport) as u16;
        lemma_octets(p[30] as int, p[31] as int, p[32] as int, p[33] as int);
        lemma_octets(p[33] as int, p[32] as int, p[31] as int, p[30] as int);
        let n: int = list.len() as int;
        let keys: Seq<ProjectPolicyKey> = seq![
            ProjectPolicyKey { addr, dport: port, protocol: h.protocol },
            ProjectPolicyKey { addr, dport: port, protocol: 0 },
            ProjectPolicyKey { addr, dport: 0, protocol: h.protocol },
            ProjectPolicyKey { addr, dport: 0, protocol: 0 },
        ];
        assert forall|k: int| 0 <= k < 4 implies policy_in(list, #[trigger] keys[k]) is None by {
            assert forall|j: int| 0 <= j < n implies (#[trigger] list[j]).0 != keys[k] by {
                assert(!names_target(list[j].0, p, h.dport, h.protocol));
            }
            lemma_policy_in(list, keys[k], n);
        }
        let a = keys[0];
        let b = keys[1];
        let c = keys[2];
        let d = keys[3];
    }
}

} // verus!
