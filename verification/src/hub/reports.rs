//! What many reports of many nodes come to.

use crate::common::IpKey;
use crate::hub::models::NodePolicy;
use crate::hub::models::PolicyView;
use crate::hub::store::key_less;
use crate::hub::store::lemma_absent;
use crate::hub::store::lemma_insert_sorted;
use crate::hub::store::lemma_policy_at;
use crate::hub::store::lemma_remove_sorted;
use crate::hub::store::lemma_with_row_at;
use crate::hub::store::lemma_without_at;
use crate::hub::store::merge_all;
use crate::hub::store::merge_one;
use crate::hub::store::place;
use crate::hub::store::policy_of;
use crate::hub::store::reported;
use crate::hub::store::sorted;
use crate::hub::store::without;
use vstd::prelude::*;

verus! {

/// A policy that a node reports, and when.
pub struct Report {
    pub policy: NodePolicy,
    pub node: Seq<char>,
    pub at_ns: u64,
}

/// The policies after several reports, one after the other.
pub open spec fn merge_reports(rows: Seq<PolicyView>, list: Seq<Report>) -> Seq<PolicyView>
    decreases list.len(),
{
    if list.len() == 0 {
        rows
    } else {
        let r: Report = list.last();
        merge_one(merge_reports(rows, list.drop_last()), r.policy, r.node, r.at_ns)
    }
}

/// The policy of an address after several reports, of which only those about it count.
pub open spec fn told_of(old: Option<PolicyView>, list: Seq<Report>, ip: IpKey) -> Option<PolicyView>
    decreases list.len(),
{
    if list.len() == 0 {
        old
    } else {
        let r: Report = list.last();
        let before: Option<PolicyView> = told_of(old, list.drop_last(), ip);
        if r.policy.ip == ip {
            Some(reported(before, r.policy, r.node, r.at_ns))
        } else {
            before
        }
    }
}

/// One report of the list is about the address.
pub open spec fn speaks_of(list: Seq<Report>, i: int, ip: IpKey) -> bool {
    0 <= i < list.len() && list[i].policy.ip == ip
}

/// What the reports of one call of a node are.
pub open spec fn reports_of(list: Seq<NodePolicy>, node: Seq<char>, at_ns: u64) -> Seq<Report> {
    list.map_values(|p: NodePolicy| Report { policy: p, node, at_ns })
}

spec fn slot(rows: Seq<PolicyView>, p: PolicyView) -> int
    decreases rows.len(),
{
    if rows.len() == 0 || key_less(place(p), place(rows[0])) {
        0
    } else {
        1 + slot(rows.skip(1), p)
    }
}

proof fn lemma_slot(rows: Seq<PolicyView>, p: PolicyView)
    ensures
        0 <= slot(rows, p) <= rows.len(),
        forall|j: int| 0 <= j < slot(rows, p) ==> !key_less(place(p), place(#[trigger] rows[j])),
        slot(rows, p) < rows.len() ==> key_less(place(p), place(rows[slot(rows, p)])),
    decreases rows.len(),
{
    if rows.len() > 0 && !key_less(place(p), place(rows[0])) {
        lemma_slot(rows.skip(1), p);
        assert forall|j: int| 0 <= j < slot(rows, p) implies !key_less(
            place(p),
            place(#[trigger] rows[j]),
        ) by {
            if j > 0 {
                assert(rows.skip(1)[j - 1] == rows[j]);
            }
        }
    }
}

/// A place of the address among the policies, if it has one.
proof fn lemma_find(rows: Seq<PolicyView>, ip: IpKey) -> (i: int)
    requires
        sorted(rows),
    ensures
        -1 <= i < rows.len(),
        i >= 0 ==> rows[i].ip == ip && policy_of(rows, ip) == Some(rows[i]) && without(rows, ip)
            == rows.remove(i),
        i < 0 ==> policy_of(rows, ip) is None && without(rows, ip) == rows && forall|j: int|
            0 <= j < rows.len() ==> (#[trigger] rows[j]).ip != ip,
{
    if exists|k: int| 0 <= k < rows.len() && (#[trigger] rows[k]).ip == ip {
        let i: int = choose|k: int| 0 <= k < rows.len() && (#[trigger] rows[k]).ip == ip;
        assert forall|j: int| 0 <= j < rows.len() && j != i implies (#[trigger] rows[j]).ip
            != ip by {
            let here: PolicyView = rows[i];
            if j < i {
                assert(rows[j].ip != rows[i].ip);
            } else {
                assert(rows[i].ip != rows[j].ip);
            }
        }
        lemma_policy_at(rows, ip, i);
        lemma_without_at(rows, ip, i);
        i
    } else {
        lemma_absent(rows, ip);
        -1
    }
}

/// A report changes the policy of its address and of no other, and keeps the order.
proof fn lemma_one_report(rows: Seq<PolicyView>, r: Report, ip: IpKey)
    requires
        sorted(rows),
    ensures
        sorted(merge_one(rows, r.policy, r.node, r.at_ns)),
        policy_of(merge_one(rows, r.policy, r.node, r.at_ns), ip) == if r.policy.ip == ip {
            Some(reported(policy_of(rows, ip), r.policy, r.node, r.at_ns))
        } else {
            policy_of(rows, ip)
        },
{
    let own: IpKey = r.policy.ip;
    let i: int = lemma_find(rows, own);
    let rest: Seq<PolicyView> = without(rows, own);
    let p: PolicyView = reported(policy_of(rows, own), r.policy, r.node, r.at_ns);
    assert(p.ip == own);
    if i >= 0 {
        lemma_remove_sorted(rows, i);
        assert forall|j: int| 0 <= j < rest.len() implies (#[trigger] rest[j]).ip != own by {
            let k: int = if j < i {
                j
            } else {
                j + 1
            };
            assert(rest[j] == rows[k]);
            assert(rows[i].ip == own);
        }
    }
    let at: int = slot(rest, p);
    lemma_slot(rest, p);
    lemma_with_row_at(rest, p, at);
    lemma_insert_sorted(rest, p, at);
    let out: Seq<PolicyView> = rest.insert(at, p);
    let f: int = lemma_find(out, ip);
    let g: int = lemma_find(rows, ip);
    assert(out[at] == p);
    if own != ip {
        if f >= 0 {
            let k: int = if f < at {
                f
            } else {
                f - 1
            };
            assert(out[f] == rest[k]);
            let m: int = if i < 0 || k < i {
                k
            } else {
                k + 1
            };
            assert(rest[k] == rows[m]);
            assert(rows[m].ip == ip);
            assert(g >= 0);
            if g < m {
                assert(rows[g].ip != rows[m].ip);
            } else if m < g {
                assert(rows[m].ip != rows[g].ip);
            }
        } else if g >= 0 {
            let k: int = if i < 0 || g < i {
                g
            } else {
                g - 1
            };
            assert(rest[k] == rows[g]);
            let m: int = if k < at {
                k
            } else {
                k + 1
            };
            assert(out[m] == rest[k]);
            assert(out[m].ip == ip);
        }
    } else {
        assert(out[at].ip == ip);
        if f < at {
            assert(out[f].ip != out[at].ip);
        } else if at < f {
            assert(out[at].ip != out[f].ip);
        }
    }
}

/// Reports in groups are the reports one after the other: it does not matter how they are
/// shared out among calls.
pub proof fn law_grouping_does_not_matter(
    rows: Seq<PolicyView>,
    a: Seq<Report>,
    list: Seq<NodePolicy>,
    node: Seq<char>,
    at_ns: u64,
)
    ensures
        merge_all(merge_reports(rows, a), list, node, at_ns) == merge_reports(
            rows,
            a + reports_of(list, node, at_ns),
        ),
    decreases list.len(),
{
    let all: Seq<Report> = a + reports_of(list, node, at_ns);
    if list.len() == 0 {
        assert(all =~= a);
    } else {
        law_grouping_does_not_matter(rows, a, list.drop_last(), node, at_ns);
        assert(all.drop_last() =~= a + reports_of(list.drop_last(), node, at_ns));
        assert(all.last() == (Report { policy: list.last(), node, at_ns }));
    }
}

/// An address has one policy after reports, which is what the reports about it make of the
/// one that it had; the reports about other addresses do not touch it.
pub proof fn law_reports_give_one_policy(rows: Seq<PolicyView>, list: Seq<Report>, ip: IpKey)
    requires
        sorted(rows),
    ensures
        sorted(merge_reports(rows, list)),
        policy_of(merge_reports(rows, list), ip) == told_of(policy_of(rows, ip), list, ip),
        forall|i: int, j: int|
            #![trigger merge_reports(rows, list)[i], merge_reports(rows, list)[j]]
            0 <= i < merge_reports(rows, list).len() && 0 <= j < merge_reports(rows, list).len()
                && merge_reports(rows, list)[i].ip == ip && merge_reports(rows, list)[j].ip == ip
                ==> i == j,
    decreases list.len(),
{
    if list.len() > 0 {
        law_reports_give_one_policy(rows, list.drop_last(), ip);
        lemma_one_report(merge_reports(rows, list.drop_last()), list.last(), ip);
    }
    let out: Seq<PolicyView> = merge_reports(rows, list);
    assert forall|i: int, j: int|
        #![trigger out[i], out[j]]
        0 <= i < out.len() && 0 <= j < out.len() && out[i].ip == ip && out[j].ip
            == ip implies i == j by {
        if i < j {
            assert(out[i].ip != out[j].ip);
        } else if j < i {
            assert(out[j].ip != out[i].ip);
        }
    }
}

/// No name stands twice in the list.
pub open spec fn once_each(nodes: Seq<Seq<char>>) -> bool {
    forall|i: int, j: int| 0 <= i < j < nodes.len() ==> #[trigger] nodes[i] != #[trigger] nodes[j]
}

/// `q` sums up the reports about an address: the most hits, the least trust, for ever if
/// one of them says so and else the longest lifetime, and each reporting node once.
pub open spec fn sums_up(q: PolicyView, list: Seq<Report>, ip: IpKey) -> bool {
    &&& q.ip == ip
    &&& forall|i: int| #[trigger]
        speaks_of(list, i, ip) ==> list[i].policy.hit_count <= q.hit_count
    &&& exists|i: int| #[trigger]
        speaks_of(list, i, ip) && list[i].policy.hit_count == q.hit_count
    &&& forall|i: int| #[trigger]
        speaks_of(list, i, ip) ==> list[i].policy.trust_score >= q.trust_score
    &&& exists|i: int| #[trigger]
        speaks_of(list, i, ip) && list[i].policy.trust_score == q.trust_score
    &&& q.ttl_s == 0 <==> exists|i: int| #[trigger]
        speaks_of(list, i, ip) && list[i].policy.ttl_s == 0
    &&& forall|i: int| #[trigger]
        speaks_of(list, i, ip) && q.ttl_s != 0 ==> list[i].policy.ttl_s <= q.ttl_s
    &&& exists|i: int| #[trigger] speaks_of(list, i, ip) && list[i].policy.ttl_s == q.ttl_s
    &&& forall|i: int| #[trigger]
        speaks_of(list, i, ip) ==> q.source_nodes.contains(list[i].node)
    &&& forall|k: int|
        0 <= k < q.source_nodes.len() ==> exists|i: int| #[trigger]
            speaks_of(list, i, ip) && list[i].node == #[trigger] q.source_nodes[k]
    &&& once_each(q.source_nodes)
}

proof fn lemma_first_report(list: Seq<Report>, ip: IpKey)
    requires
        list.len() > 0,
        list.last().policy.ip == ip,
        forall|i: int| 0 <= i < list.len() - 1 ==> !#[trigger] speaks_of(list, i, ip),
    ensures
        sums_up(reported(None, list.last().policy, list.last().node, list.last().at_ns), list, ip),
{
    let n: int = list.len() - 1;
    let q: PolicyView = reported(None, list.last().policy, list.last().node, list.last().at_ns);
    assert(speaks_of(list, n, ip));
    assert(q.source_nodes[0] == list[n].node);
    assert forall|i: int| #[trigger] speaks_of(list, i, ip) implies i == n by {}
    assert(q.source_nodes.contains(list[n].node));
}

proof fn lemma_next_report(p: PolicyView, list: Seq<Report>, ip: IpKey)
    requires
        list.len() > 0,
        list.last().policy.ip == ip,
        sums_up(p, list.drop_last(), ip),
    ensures
        sums_up(reported(Some(p), list.last().policy, list.last().node, list.last().at_ns), list, ip),
{
    let n: int = list.len() - 1;
    let front: Seq<Report> = list.drop_last();
    let r: Report = list.last();
    let q: PolicyView = reported(Some(p), r.policy, r.node, r.at_ns);
    assert(speaks_of(list, n, ip));
    assert(list[n] == r);
    assert forall|i: int| #[trigger] speaks_of(list, i, ip) implies i == n || speaks_of(
        front,
        i,
        ip,
    ) && front[i] == list[i] by {}
    assert forall|i: int| #[trigger] speaks_of(front, i, ip) implies speaks_of(list, i, ip)
        && front[i] == list[i] by {}
    let h: int = choose|i: int| #[trigger]
        speaks_of(front, i, ip) && front[i].policy.hit_count == p.hit_count;
    assert(speaks_of(list, h, ip));
    let t: int = choose|i: int| #[trigger]
        speaks_of(front, i, ip) && front[i].policy.trust_score == p.trust_score;
    assert(speaks_of(list, t, ip));
    let l: int = choose|i: int| #[trigger]
        speaks_of(front, i, ip) && front[i].policy.ttl_s == p.ttl_s;
    assert(speaks_of(list, l, ip));
    assert(exists|i: int| #[trigger]
        speaks_of(list, i, ip) && list[i].policy.ttl_s == q.ttl_s);
    let nodes: Seq<Seq<char>> = p.source_nodes;
    let next: Seq<Seq<char>> = q.source_nodes;
    assert forall|s: Seq<char>| nodes.contains(s) implies next.contains(s) by {
        let k: int = choose|k: int| 0 <= k < nodes.len() && nodes[k] == s;
        assert(next[k] == s);
    }
    assert(next.contains(r.node)) by {
        if !nodes.contains(r.node) {
            assert(next[nodes.len() as int] == r.node);
        }
    }
    assert forall|k: int| 0 <= k < next.len() implies exists|i: int| #[trigger]
        speaks_of(list, i, ip) && list[i].node == #[trigger] next[k] by {
        if k < nodes.len() {
            assert(next[k] == nodes[k]);
            let i: int = choose|i: int| #[trigger]
                speaks_of(front, i, ip) && front[i].node == nodes[k];
            assert(speaks_of(list, i, ip));
        } else {
            assert(next[k] == list[n].node);
        }
    }
    assert(once_each(next)) by {
        assert forall|i: int, j: int| 0 <= i < j < next.len() implies #[trigger] next[i]
            != #[trigger] next[j] by {
            assert(next[i] == nodes[i]);
            if j == nodes.len() {
                assert(nodes.contains(nodes[i]));
            } else {
                assert(next[j] == nodes[j]);
            }
        }
    }
}

/// Several reports about an address that has no policy give one that sums them up.
pub proof fn law_reports_are_summed_up(list: Seq<Report>, ip: IpKey)
    ensures
        told_of(None, list, ip) is Some <==> exists|i: int| #[trigger] speaks_of(list, i, ip),
        told_of(None, list, ip) is Some ==> sums_up(told_of(None, list, ip)->0, list, ip),
    decreases list.len(),
{
    if list.len() > 0 {
        let front: Seq<Report> = list.drop_last();
        let n: int = list.len() - 1;
        law_reports_are_summed_up(front, ip);
        assert forall|i: int| #[trigger] speaks_of(front, i, ip) implies speaks_of(list, i, ip)
            && front[i] == list[i] by {}
        assert forall|i: int| #[trigger] speaks_of(list, i, ip) implies i == n || speaks_of(
            front,
            i,
            ip,
        ) by {}
        if list.last().policy.ip == ip {
            assert(speaks_of(list, n, ip));
            if told_of(None, front, ip) is Some {
                lemma_next_report(told_of(None, front, ip)->0, list, ip);
            } else {
                lemma_first_report(list, ip);
            }
        } else if told_of(None, front, ip) is Some {
            lemma_same_reports_sum_up(told_of(None, front, ip)->0, front, list, ip);
        }
    }
}

/// Reports about an address that has no policy, however they are ordered and shared out
/// among calls, leave one policy of it in the store, which sums them up.
pub proof fn law_store_sums_up_reports(rows: Seq<PolicyView>, list: Seq<Report>, ip: IpKey)
    requires
        sorted(rows),
        policy_of(rows, ip) is None,
        exists|i: int| #[trigger] speaks_of(list, i, ip),
    ensures
        ({
            let out: Seq<PolicyView> = merge_reports(rows, list);
            &&& sorted(out)
            &&& policy_of(out, ip) is Some
            &&& sums_up(policy_of(out, ip)->0, list, ip)
            &&& exists|i: int|
                0 <= i < out.len() && #[trigger] out[i] == policy_of(out, ip)->0
                    && forall|j: int| 0 <= j < out.len() && (#[trigger] out[j]).ip == ip ==> j == i
        }),
{
    let out: Seq<PolicyView> = merge_reports(rows, list);
    law_reports_give_one_policy(rows, list, ip);
    law_reports_are_summed_up(list, ip);
    let i: int = lemma_find(out, ip);
    assert(out[i].ip == ip);
}

/// What sums up some reports about an address sums up every list with the same ones.
proof fn lemma_same_reports_sum_up(q: PolicyView, a: Seq<Report>, b: Seq<Report>, ip: IpKey)
    requires
        sums_up(q, a, ip),
        forall|i: int| #[trigger]
            speaks_of(a, i, ip) ==> exists|j: int| #[trigger] speaks_of(b, j, ip) && b[j] == a[i],
        forall|j: int| #[trigger]
            speaks_of(b, j, ip) ==> exists|i: int| #[trigger] speaks_of(a, i, ip) && a[i] == b[j],
    ensures
        sums_up(q, b, ip),
{
    let h: int = choose|i: int| #[trigger]
        speaks_of(a, i, ip) && a[i].policy.hit_count == q.hit_count;
    let t: int = choose|i: int| #[trigger]
        speaks_of(a, i, ip) && a[i].policy.trust_score == q.trust_score;
    let l: int = choose|i: int| #[trigger]
        speaks_of(a, i, ip) && a[i].policy.ttl_s == q.ttl_s;
    assert(exists|j: int| #[trigger] speaks_of(b, j, ip) && b[j] == a[h]);
    assert(exists|j: int| #[trigger] speaks_of(b, j, ip) && b[j] == a[t]);
    assert(exists|j: int| #[trigger] speaks_of(b, j, ip) && b[j] == a[l]);
    assert forall|j: int| #[trigger] speaks_of(b, j, ip) implies b[j].policy.hit_count
        <= q.hit_count && b[j].policy.trust_score >= q.trust_score && (q.ttl_s != 0
        ==> b[j].policy.ttl_s <= q.ttl_s && b[j].policy.ttl_s != 0) && q.source_nodes.contains(
        b[j].node,
    ) by {
        let i: int = choose|i: int| #[trigger] speaks_of(a, i, ip) && a[i] == b[j];
        assert(speaks_of(a, i, ip));
    }
    assert forall|k: int| 0 <= k < q.source_nodes.len() implies exists|j: int| #[trigger]
        speaks_of(b, j, ip) && b[j].node == #[trigger] q.source_nodes[k] by {
        let i: int = choose|i: int| #[trigger]
            speaks_of(a, i, ip) && a[i].node == q.source_nodes[k];
        let j: int = choose|j: int| #[trigger] speaks_of(b, j, ip) && b[j] == a[i];
        assert(speaks_of(b, j, ip));
    }
}

/// The order of reports about an address without a policy does not matter: the same
/// reports give the same hits, trust and lifetime, and the same nodes.
pub proof fn law_order_does_not_matter(a: Seq<Report>, b: Seq<Report>, ip: IpKey)
    requires
        forall|r: Report| a.contains(r) <==> b.contains(r),
        exists|i: int| #[trigger] speaks_of(a, i, ip),
    ensures
        told_of(None, a, ip) is Some,
        told_of(None, b, ip) is Some,
        ({
            let p: PolicyView = told_of(None, a, ip)->0;
            let q: PolicyView = told_of(None, b, ip)->0;
            &&& p.ip == q.ip
            &&& p.hit_count == q.hit_count
            &&& p.trust_score == q.trust_score
            &&& p.ttl_s == q.ttl_s
            &&& p.source_nodes.to_set() == q.source_nodes.to_set()
            &&& p.source_nodes.len() == q.source_nodes.len()
        }),
{
    assert forall|i: int| #[trigger] speaks_of(a, i, ip) implies exists|j: int| #[trigger]
        speaks_of(b, j, ip) && b[j] == a[i] by {
        assert(a.contains(a[i]));
        let j: int = choose|j: int| 0 <= j < b.len() && b[j] == a[i];
        assert(speaks_of(b, j, ip));
    }
    assert forall|j: int| #[trigger] speaks_of(b, j, ip) implies exists|i: int| #[trigger]
        speaks_of(a, i, ip) && a[i] == b[j] by {
        assert(b.contains(b[j]));
        let i: int = choose|i: int| 0 <= i < a.len() && a[i] == b[j];
        assert(speaks_of(a, i, ip));
    }
    let w: int = choose|i: int| #[trigger] speaks_of(a, i, ip);
    assert(exists|j: int| #[trigger] speaks_of(b, j, ip) && b[j] == a[w]);
    law_reports_are_summed_up(a, ip);
    law_reports_are_summed_up(b, ip);
    let p: PolicyView = told_of(None, a, ip)->0;
    let q: PolicyView = told_of(None, b, ip)->0;
    lemma_same_reports_sum_up(p, a, b, ip);
    lemma_one_sum(p, q, b, ip);
}

/// Two policies that sum up the same reports agree.
proof fn lemma_one_sum(p: PolicyView, q: PolicyView, list: Seq<Report>, ip: IpKey)
    requires
        sums_up(p, list, ip),
        sums_up(q, list, ip),
    ensures
        p.ip == q.ip,
        p.hit_count == q.hit_count,
        p.trust_score == q.trust_score,
        p.ttl_s == q.ttl_s,
        p.source_nodes.to_set() == q.source_nodes.to_set(),
        p.source_nodes.len() == q.source_nodes.len(),
{
    assert forall|s: Seq<char>| p.source_nodes.contains(s) implies q.source_nodes.contains(s) by {
        let k: int = choose|k: int| 0 <= k < p.source_nodes.len() && p.source_nodes[k] == s;
        assert(p.source_nodes[k] == s);
        let i: int = choose|i: int| #[trigger]
            speaks_of(list, i, ip) && list[i].node == p.source_nodes[k];
        assert(speaks_of(list, i, ip));
    }
    assert forall|s: Seq<char>| q.source_nodes.contains(s) implies p.source_nodes.contains(s) by {
        let k: int = choose|k: int| 0 <= k < q.source_nodes.len() && q.source_nodes[k] == s;
        assert(q.source_nodes[k] == s);
        let i: int = choose|i: int| #[trigger]
            speaks_of(list, i, ip) && list[i].node == q.source_nodes[k];
        assert(speaks_of(list, i, ip));
    }
    assert(p.source_nodes.to_set() =~= q.source_nodes.to_set());
    assert(p.source_nodes.no_duplicates());
    assert(q.source_nodes.no_duplicates());
    p.source_nodes.unique_seq_to_set();
    q.source_nodes.unique_seq_to_set();
}

} // verus!
