//! What holds of nodes and hub together.

use crate::common::BlockEntry;
use crate::common::IpKey;
use crate::hub::models::NodePolicy;
use crate::hub::models::PolicyView;
use crate::hub::models::SharedPolicy;
use crate::hub::store::merge_one;
use crate::hub::store::newer;
use crate::hub::store::newer_marks;
use crate::hub::store::policy_of;
use crate::hub::store::reported;
use crate::hub::store::with_mark;
use crate::hub::store::with_row;
use crate::hub::store::without;
use crate::hub::store::key_less;
use crate::hub::store::law_deletion_is_marked;
use crate::hub::store::place;
use crate::hub::store::RowKey;
use crate::node::config::BlockOrigin;
use crate::node::control::hub_block;
use crate::node::control::hub_row;
use crate::node::control::hubs_own;
use crate::node::control::reported_by;
use crate::node::control::BlacklistRow;
use crate::text::texts;
use vstd::prelude::*;

verus! {

proof fn lemma_policy_ip(rows: Seq<PolicyView>, ip: IpKey)
    ensures
        policy_of(rows, ip) is Some ==> policy_of(rows, ip)->0.ip == ip,
    decreases rows.len(),
{
    if rows.len() > 0 {
        lemma_policy_ip(rows.skip(1), ip);
    }
}

proof fn lemma_row_is_in(rows: Seq<PolicyView>, p: PolicyView)
    ensures
        with_row(rows, p).contains(p),
    decreases rows.len(),
{
    let out: Seq<PolicyView> = with_row(rows, p);
    if rows.len() == 0 {
        assert(out[0] == p);
    } else if key_less(place(p), place(rows[0])) {
        assert(out[0] == p);
    } else {
        let rest: Seq<PolicyView> = with_row(rows.skip(1), p);
        lemma_row_is_in(rows.skip(1), p);
        let i: int = choose|i: int| 0 <= i < rest.len() && rest[i] == p;
        assert(out[i + 1] == p);
    }
}

proof fn lemma_newer_holds(rows: Seq<PolicyView>, since_ns: u64, p: PolicyView)
    requires
        rows.contains(p),
        p.last_seen_ns > since_ns,
    ensures
        newer(rows, since_ns).contains(p),
    decreases rows.len(),
{
    let i: int = choose|i: int| 0 <= i < rows.len() && rows[i] == p;
    let rest: Seq<PolicyView> = newer(rows.skip(1), since_ns);
    let out: Seq<PolicyView> = newer(rows, since_ns);
    if i == 0 {
        assert(out[0] == p);
    } else {
        assert(rows.skip(1)[i - 1] == p);
        lemma_newer_holds(rows.skip(1), since_ns, p);
        let j: int = choose|j: int| 0 <= j < rest.len() && rest[j] == p;
        if rows[0].last_seen_ns > since_ns {
            assert(out[j + 1] == p);
        } else {
            assert(out[j] == p);
        }
    }
}

/// What one node reports reaches the others: the hub hands the policy to every node that
/// has not asked since, and a node that did not report the address itself and does not
/// block it yet then blocks it, with the reason that was reported.
pub proof fn law_reported_block_reaches_others(
    rows: Seq<PolicyView>,
    p: NodePolicy,
    name: Seq<char>,
    now_ns: u64,
    since_ns: u64,
    shared: SharedPolicy,
    held: Map<IpKey, BlockEntry>,
    other: Seq<char>,
    trust_enabled: bool,
    later_ns: u64,
)
    requires
        since_ns < now_ns,
        shared@ == reported(policy_of(rows, p.ip), p, name, now_ns),
        !shared@.source_nodes.contains(other),
        !held.contains_key(p.ip),
    ensures
        newer(merge_one(rows, p, name, now_ns), since_ns).contains(shared@),
        hub_block(shared, held, other, trust_enabled, later_ns) is Some,
        ({
            let b = hub_block(shared, held, other, trust_enabled, later_ns)->0;
            &&& b.plan.key == p.ip
            &&& b.plan.entry.block_reason == p.reason
            &&& b.plan.row.origin == BlockOrigin::Hub
        }),
{
    lemma_policy_ip(rows, p.ip);
    lemma_row_is_in(without(rows, p.ip), shared@);
    lemma_newer_holds(merge_one(rows, p, name, now_ns), since_ns, shared@);
    if reported_by(shared, other) {
        let i: int = choose|i: int|
            0 <= i < shared.source_nodes@.len() && (#[trigger] shared.source_nodes@[i])@ == other;
        assert(texts(shared.source_nodes@)[i] == other);
    }
}

proof fn lemma_newer_mark_holds(marks: Seq<RowKey>, since_ns: u64, k: RowKey)
    requires
        marks.contains(k),
        k.at_ns > since_ns,
    ensures
        newer_marks(marks, since_ns).contains(k),
    decreases marks.len(),
{
    let i: int = choose|i: int| 0 <= i < marks.len() && marks[i] == k;
    let rest: Seq<RowKey> = newer_marks(marks.skip(1), since_ns);
    let out: Seq<RowKey> = newer_marks(marks, since_ns);
    if i == 0 {
        assert(out[0] == k);
    } else {
        assert(marks.skip(1)[i - 1] == k);
        lemma_newer_mark_holds(marks.skip(1), since_ns, k);
        let j: int = choose|j: int| 0 <= j < rest.len() && rest[j] == k;
        if marks[0].at_ns > since_ns {
            assert(out[j + 1] == k);
        } else {
            assert(out[j] == k);
        }
    }
}

proof fn lemma_own_holds(ips: Seq<IpKey>, rows: Seq<(IpKey, BlacklistRow)>, ip: IpKey)
    ensures
        hubs_own(ips, rows).contains(ip) <==> ips.contains(ip) && hub_row(rows, ip),
    decreases ips.len(),
{
    if ips.len() > 0 {
        let front: Seq<IpKey> = ips.drop_last();
        let rest: Seq<IpKey> = hubs_own(front, rows);
        let out: Seq<IpKey> = hubs_own(ips, rows);
        lemma_own_holds(front, rows, ip);
        assert(ips.contains(ip) <==> front.contains(ip) || ips.last() == ip) by {
            if ips.contains(ip) {
                let i: int = choose|i: int| 0 <= i < ips.len() && ips[i] == ip;
                if i < front.len() {
                    assert(front[i] == ip);
                }
            }
            if front.contains(ip) {
                let i: int = choose|i: int| 0 <= i < front.len() && front[i] == ip;
                assert(ips[i] == ip);
            }
            assert(ips[ips.len() - 1] == ips.last());
        }
        if hub_row(rows, ips.last()) {
            assert(out =~= rest.push(ips.last()));
            assert(out.contains(ip) <==> rest.contains(ip) || ips.last() == ip) by {
                if out.contains(ip) {
                    let i: int = choose|i: int| 0 <= i < out.len() && out[i] == ip;
                    if i < rest.len() {
                        assert(rest[i] == ip);
                    }
                }
                if rest.contains(ip) {
                    let i: int = choose|i: int| 0 <= i < rest.len() && rest[i] == ip;
                    assert(out[i] == ip);
                }
                assert(out[out.len() - 1] == ips.last());
            }
        }
    }
}

/// What the hub takes back is unblocked on every node that has it from the hub, and on no
/// node that blocked it for itself.
pub proof fn law_taken_back_block_ends(
    marks: Seq<RowKey>,
    ip: IpKey,
    now_ns: u64,
    since_ns: u64,
    ips: Seq<IpKey>,
    rows: Seq<(IpKey, BlacklistRow)>,
)
    requires
        since_ns < now_ns,
        ips.contains(ip),
    ensures
        newer_marks(with_mark(marks, RowKey { at_ns: now_ns, ip }), since_ns).contains(
            RowKey { at_ns: now_ns, ip },
        ),
        hubs_own(ips, rows).contains(ip) <==> hub_row(rows, ip),
{
    let k: RowKey = RowKey { at_ns: now_ns, ip };
    law_deletion_is_marked(marks, k);
    lemma_newer_mark_holds(with_mark(marks, k), since_ns, k);
    lemma_own_holds(ips, rows, ip);
}

} // verus!
