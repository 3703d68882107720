//! The policies of the hub.
//!
//! Policies are kept in the order of when they were last seen, then of their address.
//! Deletions leave a mark, kept in the same order, so that every node hears of them.

use crate::common::IpKey;
use crate::hub::models::NodePolicy;
use crate::hub::models::PolicyView;
use crate::hub::models::RuleBundle;
use crate::hub::models::SharedPolicy;
use crate::text::same_text;
use crate::text::texts;
use vstd::prelude::*;

verus! {

/// The place of an entry: when, then which address.
#[derive(Clone, Copy, Debug)]
pub struct RowKey {
    pub at_ns: u64,
    pub ip: IpKey,
}

/// Addresses as numbers in network order.
pub open spec fn addr_less(a: Seq<u8>, b: Seq<u8>) -> bool {
    exists|i: int|
        0 <= i < 16 && #[trigger] a[i] < b[i] && forall|j: int| 0 <= j < i ==> #[trigger] a[j] == b[j]
}

pub open spec fn key_less(a: RowKey, b: RowKey) -> bool {
    ||| a.at_ns < b.at_ns
    ||| a.at_ns == b.at_ns && a.ip.family < b.ip.family
    ||| a.at_ns == b.at_ns && a.ip.family == b.ip.family && addr_less(a.ip.addr@, b.ip.addr@)
}

proof fn lemma_addr_trichotomy(a: [u8; 16], b: [u8; 16])
    ensures
        a == b || addr_less(a@, b@) || addr_less(b@, a@),
        !(addr_less(a@, b@) && addr_less(b@, a@)),
        addr_less(a@, b@) ==> a != b,
{
    if a@ != b@ {
        if forall|i: int| 0 <= i < 16 ==> a@[i] == b@[i] {
            assert(a@ =~= b@);
        }
        let d: int = choose|d: int| 0 <= d < 16 && a@[d] != b@[d];
        lemma_first_difference(a@, b@, d);
    } else {
        assert(a =~= b);
    }
    if addr_less(a@, b@) && addr_less(b@, a@) {
        let i: int = choose|i: int|
            0 <= i < 16 && #[trigger] a@[i] < b@[i] && forall|j: int|
                0 <= j < i ==> #[trigger] a@[j] == b@[j];
        let k: int = choose|k: int|
            0 <= k < 16 && #[trigger] b@[k] < a@[k] && forall|j: int|
                0 <= j < k ==> #[trigger] b@[j] == a@[j];
        if i < k {
            assert(b@[i] == a@[i]);
        } else if k < i {
            assert(a@[k] == b@[k]);
        }
    }
    if addr_less(a@, b@) {
        let i: int = choose|i: int|
            0 <= i < 16 && #[trigger] a@[i] < b@[i] && forall|j: int|
                0 <= j < i ==> #[trigger] a@[j] == b@[j];
        assert(a@[i] != b@[i]);
    }
}

proof fn lemma_first_difference(a: Seq<u8>, b: Seq<u8>, d: int)
    requires
        0 <= d < 16,
        a[d] != b[d],
    ensures
        addr_less(a, b) || addr_less(b, a),
    decreases d,
{
    if exists|j: int| 0 <= j < d && a[j] != b[j] {
        let j: int = choose|j: int| 0 <= j < d && a[j] != b[j];
        lemma_first_difference(a, b, j);
    } else if a[d] < b[d] {
        assert(addr_less(a, b));
    } else {
        assert(b[d] < a[d]);
        assert(addr_less(b, a));
    }
}

proof fn lemma_addr_transitive(a: Seq<u8>, b: Seq<u8>, c: Seq<u8>)
    requires
        addr_less(a, b),
        addr_less(b, c),
    ensures
        addr_less(a, c),
{
    let i: int = choose|i: int|
        0 <= i < 16 && #[trigger] a[i] < b[i] && forall|j: int| 0 <= j < i ==> #[trigger] a[j] == b[j];
    let k: int = choose|k: int|
        0 <= k < 16 && #[trigger] b[k] < c[k] && forall|j: int| 0 <= j < k ==> #[trigger] b[j] == c[j];
    let m: int = if i < k {
        i
    } else {
        k
    };
    assert(b[m] <= c[m]);
    assert(a[m] <= b[m]);
    assert(a[m] < c[m]);
    assert forall|j: int| 0 <= j < m implies #[trigger] a[j] == c[j] by {
        assert(b[j] == c[j]);
    }
}

/// The order of places is total: of two different places one comes first, never both.
pub proof fn law_key_order_is_total(a: RowKey, b: RowKey, c: RowKey)
    ensures
        a == b || key_less(a, b) || key_less(b, a),
        !(key_less(a, b) && key_less(b, a)),
        !key_less(a, a),
        key_less(a, b) && key_less(b, c) ==> key_less(a, c),
{
    lemma_addr_trichotomy(a.ip.addr, b.ip.addr);
    lemma_addr_trichotomy(a.ip.addr, a.ip.addr);
    if addr_less(a.ip.addr@, b.ip.addr@) && addr_less(b.ip.addr@, c.ip.addr@) {
        lemma_addr_transitive(a.ip.addr@, b.ip.addr@, c.ip.addr@);
    }
}

fn addr_before(a: &[u8; 16], b: &[u8; 16]) -> (r: bool)
    ensures
        r == addr_less(a@, b@),
{
    for i in 0..16usize
        invariant
            forall|j: int| 0 <= j < i ==> #[trigger] a@[j] == b@[j],
    {
        if a[i] < b[i] {
            return true;
        }
        if a[i] > b[i] {
            proof {
                assert(b@[i as int] < a@[i as int]);
                assert forall|j: int| 0 <= j < i implies #[trigger] b@[j] == a@[j] by {
                    assert(a@[j] == b@[j]);
                }
                assert(addr_less(b@, a@));
                lemma_addr_trichotomy(*a, *b);
            }
            return false;
        }
    }
    false
}

fn key_before(a: &RowKey, b: &RowKey) -> (r: bool)
    ensures
        r == key_less(*a, *b),
{
    if a.at_ns != b.at_ns {
        return a.at_ns < b.at_ns;
    }
    if a.ip.family != b.ip.family {
        return a.ip.family < b.ip.family;
    }
    addr_before(&a.ip.addr, &b.ip.addr)
}

/// The place of a policy.
pub open spec fn place(p: PolicyView) -> RowKey {
    RowKey { at_ns: p.last_seen_ns, ip: p.ip }
}

fn place_of(p: &SharedPolicy) -> (r: RowKey)
    ensures
        r == place(p@),
{
    RowKey { at_ns: p.last_seen_ns, ip: p.ip }
}

/// What each of several policies holds.
pub open spec fn rows_of(v: Seq<SharedPolicy>) -> Seq<PolicyView> {
    v.map_values(|p: SharedPolicy| p@)
}

/// The policies stand in order, each address once.
pub open spec fn sorted(rows: Seq<PolicyView>) -> bool {
    &&& forall|i: int, j: int|
        #![trigger rows[i], rows[j]]
        0 <= i < j < rows.len() ==> key_less(place(rows[i]), place(rows[j]))
    &&& forall|i: int, j: int|
        #![trigger rows[i], rows[j]]
        0 <= i < j < rows.len() ==> rows[i].ip != rows[j].ip
}

/// The marks stand in order.
pub open spec fn marks_sorted(marks: Seq<RowKey>) -> bool {
    forall|i: int, j: int|
        #![trigger marks[i], marks[j]]
        0 <= i < j < marks.len() ==> key_less(marks[i], marks[j])
}

/// The policies without that of an address.
pub open spec fn without(rows: Seq<PolicyView>, ip: IpKey) -> Seq<PolicyView>
    decreases rows.len(),
{
    if rows.len() == 0 {
        rows
    } else if rows[0].ip == ip {
        without(rows.skip(1), ip)
    } else {
        seq![rows[0]] + without(rows.skip(1), ip)
    }
}

/// The policies with one more, in its place.
pub open spec fn with_row(rows: Seq<PolicyView>, p: PolicyView) -> Seq<PolicyView>
    decreases rows.len(),
{
    if rows.len() == 0 {
        seq![p]
    } else if key_less(place(p), place(rows[0])) {
        seq![p] + rows
    } else {
        seq![rows[0]] + with_row(rows.skip(1), p)
    }
}

/// The marks with one more, in its place; a mark that is there stays once.
pub open spec fn with_mark(marks: Seq<RowKey>, k: RowKey) -> Seq<RowKey>
    decreases marks.len(),
{
    if marks.len() == 0 {
        seq![k]
    } else if marks[0] == k {
        marks
    } else if key_less(k, marks[0]) {
        seq![k] + marks
    } else {
        seq![marks[0]] + with_mark(marks.skip(1), k)
    }
}

/// The policy of an address.
pub open spec fn policy_of(rows: Seq<PolicyView>, ip: IpKey) -> Option<PolicyView>
    decreases rows.len(),
{
    if rows.len() == 0 {
        None
    } else if rows[0].ip == ip {
        Some(rows[0])
    } else {
        policy_of(rows.skip(1), ip)
    }
}

pub open spec fn max32(a: u32, b: u32) -> u32 {
    if a >= b {
        a
    } else {
        b
    }
}

pub open spec fn min32(a: u32, b: u32) -> u32 {
    if a <= b {
        a
    } else {
        b
    }
}

pub open spec fn max64(a: u64, b: u64) -> u64 {
    if a >= b {
        a
    } else {
        b
    }
}

pub open spec fn min64(a: u64, b: u64) -> u64 {
    if a <= b {
        a
    } else {
        b
    }
}

/// The longer of two lifetimes; for ever is the longest.
pub open spec fn longer_ttl(a: u64, b: u64) -> u64 {
    if a == 0 || b == 0 {
        0
    } else {
        max64(a, b)
    }
}

/// The nodes with one more, unless it is among them.
pub open spec fn with_node(nodes: Seq<Seq<char>>, name: Seq<char>) -> Seq<Seq<char>> {
    if nodes.contains(name) {
        nodes
    } else {
        nodes.push(name)
    }
}

/// The policy of an address after a node reported about it.
pub open spec fn reported(
    old: Option<PolicyView>,
    node: NodePolicy,
    name: Seq<char>,
    now_ns: u64,
) -> PolicyView {
    match old {
        None => PolicyView {
            ip: node.ip,
            reason: node.reason,
            hit_count: node.hit_count,
            trust_score: node.trust_score,
            first_seen_ns: now_ns,
            last_seen_ns: now_ns,
            source_nodes: seq![name],
            ttl_s: node.ttl_s,
        },
        Some(p) => PolicyView {
            ip: p.ip,
            reason: node.reason,
            hit_count: max32(p.hit_count, node.hit_count),
            trust_score: min32(p.trust_score, node.trust_score),
            first_seen_ns: min64(p.first_seen_ns, now_ns),
            last_seen_ns: max64(p.last_seen_ns, now_ns),
            source_nodes: with_node(p.source_nodes, name),
            ttl_s: longer_ttl(p.ttl_s, node.ttl_s),
        },
    }
}

/// The policies after one report.
pub open spec fn merge_one(
    rows: Seq<PolicyView>,
    node: NodePolicy,
    name: Seq<char>,
    now_ns: u64,
) -> Seq<PolicyView> {
    with_row(without(rows, node.ip), reported(policy_of(rows, node.ip), node, name, now_ns))
}

/// The policies after several reports of a node, one after the other.
pub open spec fn merge_all(
    rows: Seq<PolicyView>,
    list: Seq<NodePolicy>,
    name: Seq<char>,
    now_ns: u64,
) -> Seq<PolicyView>
    decreases list.len(),
{
    if list.len() == 0 {
        rows
    } else {
        merge_one(merge_all(rows, list.drop_last(), name, now_ns), list.last(), name, now_ns)
    }
}

pub proof fn lemma_policy_at(rows: Seq<PolicyView>, ip: IpKey, i: int)
    requires
        0 <= i < rows.len(),
        rows[i].ip == ip,
        forall|j: int| 0 <= j < i ==> (#[trigger] rows[j]).ip != ip,
    ensures
        policy_of(rows, ip) == Some(rows[i]),
    decreases i,
{
    if i > 0 {
        assert(rows[0].ip != ip);
        assert forall|j: int| 0 <= j < i - 1 implies (#[trigger] rows.skip(1)[j]).ip != ip by {
            assert(rows[j + 1].ip != ip);
        }
        lemma_policy_at(rows.skip(1), ip, i - 1);
    }
}

pub proof fn lemma_absent(rows: Seq<PolicyView>, ip: IpKey)
    requires
        forall|j: int| 0 <= j < rows.len() ==> (#[trigger] rows[j]).ip != ip,
    ensures
        policy_of(rows, ip) is None,
        without(rows, ip) == rows,
    decreases rows.len(),
{
    if rows.len() > 0 {
        assert(rows[0].ip != ip);
        assert forall|j: int| 0 <= j < rows.len() - 1 implies (#[trigger] rows.skip(1)[j]).ip
            != ip by {
            assert(rows[j + 1].ip != ip);
        }
        lemma_absent(rows.skip(1), ip);
        assert(seq![rows[0]] + rows.skip(1) =~= rows);
    }
}

pub proof fn lemma_without_at(rows: Seq<PolicyView>, ip: IpKey, i: int)
    requires
        0 <= i < rows.len(),
        rows[i].ip == ip,
        forall|j: int| 0 <= j < rows.len() && j != i ==> (#[trigger] rows[j]).ip != ip,
    ensures
        without(rows, ip) == rows.remove(i),
    decreases i,
{
    if i > 0 {
        assert(rows[0].ip != ip);
        assert forall|j: int| 0 <= j < rows.len() - 1 && j != i - 1 implies (#[trigger] rows.skip(
            1,
        )[j]).ip != ip by {
            assert(rows[j + 1].ip != ip);
        }
        lemma_without_at(rows.skip(1), ip, i - 1);
        assert(seq![rows[0]] + rows.skip(1).remove(i - 1) =~= rows.remove(i));
    } else {
        assert forall|j: int| 0 <= j < rows.len() - 1 implies (#[trigger] rows.skip(1)[j]).ip
            != ip by {
            assert(rows[j + 1].ip != ip);
        }
        lemma_absent(rows.skip(1), ip);
        assert(rows.skip(1) =~= rows.remove(0));
    }
}

pub proof fn lemma_with_row_at(rows: Seq<PolicyView>, p: PolicyView, i: int)
    requires
        0 <= i <= rows.len(),
        forall|j: int| 0 <= j < i ==> !key_less(place(p), place(#[trigger] rows[j])),
        i < rows.len() ==> key_less(place(p), place(rows[i])),
    ensures
        with_row(rows, p) == rows.insert(i, p),
    decreases i,
{
    if i > 0 {
        assert(!key_less(place(p), place(rows[0])));
        assert forall|j: int| 0 <= j < i - 1 implies !key_less(
            place(p),
            place(#[trigger] rows.skip(1)[j]),
        ) by {
            assert(!key_less(place(p), place(rows[j + 1])));
        }
        lemma_with_row_at(rows.skip(1), p, i - 1);
        assert(seq![rows[0]] + rows.skip(1).insert(i - 1, p) =~= rows.insert(i, p));
    } else {
        assert(seq![p] + rows =~= rows.insert(0, p));
        if rows.len() == 0 {
            assert(seq![p] =~= rows.insert(0, p));
        }
    }
}

/// Putting a policy of a new address in its place keeps the order.
pub proof fn lemma_insert_sorted(rows: Seq<PolicyView>, p: PolicyView, i: int)
    requires
        sorted(rows),
        0 <= i <= rows.len(),
        forall|j: int| 0 <= j < rows.len() ==> (#[trigger] rows[j]).ip != p.ip,
        forall|j: int| 0 <= j < i ==> !key_less(place(p), place(#[trigger] rows[j])),
        i < rows.len() ==> key_less(place(p), place(rows[i])),
    ensures
        sorted(rows.insert(i, p)),
{
    let out: Seq<PolicyView> = rows.insert(i, p);
    assert forall|a: int, b: int|
        #![trigger out[a], out[b]]
        0 <= a < b < out.len() implies key_less(place(out[a]), place(out[b])) && out[a].ip
        != out[b].ip by {
        if b == i {
            assert(out[b] == p);
            assert(out[a] == rows[a]);
            assert(rows[a].ip != p.ip);
            law_key_order_is_total(place(rows[a]), place(p), place(p));
        } else if a == i {
            assert(out[a] == p);
            assert(out[b] == rows[b - 1]);
            assert(rows[b - 1].ip != p.ip);
            if b - 1 > i {
                assert(key_less(place(rows[i]), place(rows[b - 1])));
                law_key_order_is_total(place(p), place(rows[i]), place(rows[b - 1]));
            }
        } else {
            let x: int = if a < i {
                a
            } else {
                a - 1
            };
            let y: int = if b < i {
                b
            } else {
                b - 1
            };
            assert(out[a] == rows[x]);
            assert(out[b] == rows[y]);
        }
    }
}

pub proof fn lemma_remove_sorted(rows: Seq<PolicyView>, i: int)
    requires
        sorted(rows),
        0 <= i < rows.len(),
    ensures
        sorted(rows.remove(i)),
{
    let out: Seq<PolicyView> = rows.remove(i);
    assert forall|a: int, b: int|
        #![trigger out[a], out[b]]
        0 <= a < b < out.len() implies key_less(place(out[a]), place(out[b])) && out[a].ip
        != out[b].ip by {
        let x: int = if a < i {
            a
        } else {
            a + 1
        };
        let y: int = if b < i {
            b
        } else {
            b + 1
        };
        assert(out[a] == rows[x]);
        assert(out[b] == rows[y]);
    }
}

/// Policies seen after `since_ns`, in order.
pub open spec fn newer(rows: Seq<PolicyView>, since_ns: u64) -> Seq<PolicyView>
    decreases rows.len(),
{
    if rows.len() == 0 {
        rows
    } else if rows[0].last_seen_ns > since_ns {
        seq![rows[0]] + newer(rows.skip(1), since_ns)
    } else {
        newer(rows.skip(1), since_ns)
    }
}

/// Marks made after `since_ns`, in order.
pub open spec fn newer_marks(marks: Seq<RowKey>, since_ns: u64) -> Seq<RowKey>
    decreases marks.len(),
{
    if marks.len() == 0 {
        marks
    } else if marks[0].at_ns > since_ns {
        seq![marks[0]] + newer_marks(marks.skip(1), since_ns)
    } else {
        newer_marks(marks.skip(1), since_ns)
    }
}

proof fn lemma_newer_is_tail(rows: Seq<PolicyView>, since_ns: u64, i: int)
    requires
        sorted(rows),
        0 <= i <= rows.len(),
        forall|j: int| 0 <= j < i ==> (#[trigger] rows[j]).last_seen_ns <= since_ns,
        i < rows.len() ==> rows[i].last_seen_ns > since_ns,
    ensures
        newer(rows, since_ns) == rows.skip(i),
    decreases rows.len(),
{
    if rows.len() > 0 {
        let rest: Seq<PolicyView> = rows.skip(1);
        assert(sorted(rest)) by {
            assert forall|a: int, b: int|
                #![trigger rest[a], rest[b]]
                0 <= a < b < rest.len() implies key_less(place(rest[a]), place(rest[b]))
                && rest[a].ip != rest[b].ip by {
                assert(rest[a] == rows[a + 1]);
                assert(rest[b] == rows[b + 1]);
            }
        }
        if i > 0 {
            assert(rows[0].last_seen_ns <= since_ns);
            assert forall|j: int| 0 <= j < i - 1 implies (#[trigger] rest[j]).last_seen_ns
                <= since_ns by {
                assert(rows[j + 1].last_seen_ns <= since_ns);
            }
            lemma_newer_is_tail(rest, since_ns, i - 1);
            assert(rest.skip(i - 1) =~= rows.skip(i));
        } else {
            if rows.len() > 1 {
                assert(key_less(place(rows[0]), place(rows[1])));
                assert(rest[0] == rows[1]);
            }
            lemma_newer_is_tail(rest, since_ns, 0);
            assert(seq![rows[0]] + rest.skip(0) =~= rows.skip(0));
        }
    }
}

proof fn lemma_newer_marks_is_tail(marks: Seq<RowKey>, since_ns: u64, i: int)
    requires
        marks_sorted(marks),
        0 <= i <= marks.len(),
        forall|j: int| 0 <= j < i ==> (#[trigger] marks[j]).at_ns <= since_ns,
        i < marks.len() ==> marks[i].at_ns > since_ns,
    ensures
        newer_marks(marks, since_ns) == marks.skip(i),
    decreases marks.len(),
{
    if marks.len() > 0 {
        let rest: Seq<RowKey> = marks.skip(1);
        assert(marks_sorted(rest)) by {
            assert forall|a: int, b: int|
                #![trigger rest[a], rest[b]]
                0 <= a < b < rest.len() implies key_less(rest[a], rest[b]) by {
                assert(rest[a] == marks[a + 1]);
                assert(rest[b] == marks[b + 1]);
            }
        }
        if i > 0 {
            assert(marks[0].at_ns <= since_ns);
            assert forall|j: int| 0 <= j < i - 1 implies (#[trigger] rest[j]).at_ns
                <= since_ns by {
                assert(marks[j + 1].at_ns <= since_ns);
            }
            lemma_newer_marks_is_tail(rest, since_ns, i - 1);
            assert(rest.skip(i - 1) =~= marks.skip(i));
        } else {
            if marks.len() > 1 {
                assert(key_less(marks[0], marks[1]));
                assert(rest[0] == marks[1]);
            }
            lemma_newer_marks_is_tail(rest, since_ns, 0);
            assert(seq![marks[0]] + rest.skip(0) =~= marks.skip(0));
        }
    }
}

/// The end of the group of equal times that reaches over `n`.
pub open spec fn group_end(times: Seq<u64>, n: int) -> int
    decreases times.len() - n,
{
    if 0 < n < times.len() && times[n] == times[n - 1] {
        group_end(times, n + 1)
    } else {
        n
    }
}

/// How many of the entries at these times make a page: at least `limit` where there are as
/// many, and then all of the same time as the last, so that no group is torn.
pub open spec fn page_len(times: Seq<u64>, limit: int) -> int {
    if limit == 0 {
        0
    } else if times.len() <= limit {
        times.len() as int
    } else {
        group_end(times, limit)
    }
}

fn page_end(times: &Vec<u64>, limit: usize) -> (r: usize)
    ensures
        r == page_len(times@, limit as int),
        r <= times@.len(),
{
    if limit == 0 {
        return 0;
    }
    if times.len() <= limit {
        return times.len();
    }
    let mut n: usize = limit;
    while n < times.len() && times[n] == times[n - 1]
        invariant
            0 < n <= times@.len(),
            group_end(times@, n as int) == group_end(times@, limit as int),
        decreases times@.len() - n,
    {
        n = n + 1;
    }
    n
}

proof fn lemma_page_is_whole(times: Seq<u64>, limit: int)
    requires
        limit >= 0,
    ensures
        0 <= page_len(times, limit) <= times.len(),
        limit > 0 && times.len() > 0 ==> page_len(times, limit) > 0,
        limit <= times.len() ==> page_len(times, limit) >= limit,
        ({
            let n: int = page_len(times, limit);
            0 < n < times.len() ==> times[n] != times[n - 1]
        }),
{
    if limit > 0 && times.len() > limit {
        lemma_group_end(times, limit);
    }
}

proof fn lemma_group_end(times: Seq<u64>, n: int)
    requires
        0 < n <= times.len(),
    ensures
        n <= group_end(times, n) <= times.len(),
        group_end(times, n) < times.len() ==> times[group_end(times, n)] != times[group_end(times, n)
            - 1],
    decreases times.len() - n,
{
    if n < times.len() && times[n] == times[n - 1] {
        lemma_group_end(times, n + 1);
    }
}

/// When each policy was last seen.
pub open spec fn row_times(rows: Seq<PolicyView>) -> Seq<u64> {
    rows.map_values(|p: PolicyView| p.last_seen_ns)
}

pub open spec fn mark_times(marks: Seq<RowKey>) -> Seq<u64> {
    marks.map_values(|k: RowKey| k.at_ns)
}

/// A page of policies seen after `since_ns`.
pub open spec fn page(rows: Seq<PolicyView>, since_ns: u64, limit: int) -> Seq<PolicyView> {
    let n: Seq<PolicyView> = newer(rows, since_ns);
    n.take(page_len(row_times(n), limit))
}

/// A page of marks made after `since_ns`.
pub open spec fn mark_page(marks: Seq<RowKey>, since_ns: u64, limit: int) -> Seq<RowKey> {
    let n: Seq<RowKey> = newer_marks(marks, since_ns);
    n.take(page_len(mark_times(n), limit))
}

/// When a policy ends, in nanoseconds; saturating.
pub open spec fn policy_end(last_seen_ns: u64, ttl_s: u64) -> u64 {
    if last_seen_ns + ttl_s * 1_000_000_000 > u64::MAX {
        u64::MAX
    } else {
        (last_seen_ns + ttl_s * 1_000_000_000) as u64
    }
}

/// The policy has ended; one with a lifetime of zero never does.
pub open spec fn ended(p: PolicyView, now_ns: u64) -> bool {
    p.ttl_s != 0 && policy_end(p.last_seen_ns, p.ttl_s) < now_ns
}

/// The policies that have not ended, in order.
pub open spec fn living(rows: Seq<PolicyView>, now_ns: u64) -> Seq<PolicyView>
    decreases rows.len(),
{
    if rows.len() == 0 {
        rows
    } else if ended(rows.last(), now_ns) {
        living(rows.drop_last(), now_ns)
    } else {
        living(rows.drop_last(), now_ns).push(rows.last())
    }
}

/// The mark is older than `keep_ns`.
pub open spec fn mark_stale(k: RowKey, now_ns: u64, keep_ns: u64) -> bool {
    k.at_ns + keep_ns < now_ns && k.at_ns + keep_ns <= u64::MAX
}

pub open spec fn fresh_marks(marks: Seq<RowKey>, now_ns: u64, keep_ns: u64) -> Seq<RowKey>
    decreases marks.len(),
{
    if marks.len() == 0 {
        marks
    } else if mark_stale(marks.last(), now_ns, keep_ns) {
        fresh_marks(marks.drop_last(), now_ns, keep_ns)
    } else {
        fresh_marks(marks.drop_last(), now_ns, keep_ns).push(marks.last())
    }
}

proof fn lemma_living_from(rows: Seq<PolicyView>, now_ns: u64)
    ensures
        living(rows, now_ns).len() <= rows.len(),
        forall|i: int|
            0 <= i < living(rows, now_ns).len() ==> exists|j: int|
                0 <= j < rows.len() && #[trigger] rows[j] == #[trigger] living(rows, now_ns)[i],
    decreases rows.len(),
{
    if rows.len() > 0 {
        lemma_living_from(rows.drop_last(), now_ns);
        let rest: Seq<PolicyView> = living(rows.drop_last(), now_ns);
        assert forall|i: int| 0 <= i < living(rows, now_ns).len() implies exists|j: int|
            0 <= j < rows.len() && #[trigger] rows[j] == #[trigger] living(rows, now_ns)[i] by {
            if i < rest.len() {
                let j: int = choose|j: int|
                    0 <= j < rows.drop_last().len() && #[trigger] rows.drop_last()[j] == rest[i];
                assert(rows[j] == living(rows, now_ns)[i]);
            } else {
                assert(rows[rows.len() - 1] == living(rows, now_ns)[i]);
            }
        }
    }
}

proof fn lemma_living_sorted(rows: Seq<PolicyView>, now_ns: u64)
    requires
        sorted(rows),
    ensures
        sorted(living(rows, now_ns)),
    decreases rows.len(),
{
    if rows.len() > 0 {
        let init: Seq<PolicyView> = rows.drop_last();
        assert(sorted(init)) by {
            assert forall|a: int, b: int|
                #![trigger init[a], init[b]]
                0 <= a < b < init.len() implies key_less(place(init[a]), place(init[b]))
                && init[a].ip != init[b].ip by {
                assert(init[a] == rows[a]);
                assert(init[b] == rows[b]);
            }
        }
        lemma_living_sorted(init, now_ns);
        lemma_living_from(init, now_ns);
        let rest: Seq<PolicyView> = living(init, now_ns);
        let out: Seq<PolicyView> = living(rows, now_ns);
        if !ended(rows.last(), now_ns) {
            assert forall|a: int, b: int|
                #![trigger out[a], out[b]]
                0 <= a < b < out.len() implies key_less(place(out[a]), place(out[b]))
                && out[a].ip != out[b].ip by {
                assert(out[a] == rest[a]);
                if b < rest.len() {
                    assert(out[b] == rest[b]);
                } else {
                    let j: int = choose|j: int|
                        0 <= j < init.len() && #[trigger] init[j] == rest[a];
                    assert(rows[j] == out[a]);
                    assert(rows[rows.len() - 1] == out[b]);
                }
            }
        }
    }
}

proof fn lemma_fresh_from(marks: Seq<RowKey>, now_ns: u64, keep_ns: u64)
    ensures
        fresh_marks(marks, now_ns, keep_ns).len() <= marks.len(),
        forall|i: int|
            0 <= i < fresh_marks(marks, now_ns, keep_ns).len() ==> exists|j: int|
                0 <= j < marks.len() && #[trigger] marks[j] == #[trigger] fresh_marks(
                    marks,
                    now_ns,
                    keep_ns,
                )[i],
    decreases marks.len(),
{
    if marks.len() > 0 {
        lemma_fresh_from(marks.drop_last(), now_ns, keep_ns);
        let rest: Seq<RowKey> = fresh_marks(marks.drop_last(), now_ns, keep_ns);
        let out: Seq<RowKey> = fresh_marks(marks, now_ns, keep_ns);
        assert forall|i: int| 0 <= i < out.len() implies exists|j: int|
            0 <= j < marks.len() && #[trigger] marks[j] == #[trigger] out[i] by {
            if i < rest.len() {
                let j: int = choose|j: int|
                    0 <= j < marks.drop_last().len() && #[trigger] marks.drop_last()[j] == rest[i];
                assert(marks[j] == out[i]);
            } else {
                assert(marks[marks.len() - 1] == out[i]);
            }
        }
    }
}

proof fn lemma_fresh_sorted(marks: Seq<RowKey>, now_ns: u64, keep_ns: u64)
    requires
        marks_sorted(marks),
    ensures
        marks_sorted(fresh_marks(marks, now_ns, keep_ns)),
    decreases marks.len(),
{
    if marks.len() > 0 {
        let init: Seq<RowKey> = marks.drop_last();
        assert(marks_sorted(init)) by {
            assert forall|a: int, b: int|
                #![trigger init[a], init[b]]
                0 <= a < b < init.len() implies key_less(init[a], init[b]) by {
                assert(init[a] == marks[a]);
                assert(init[b] == marks[b]);
            }
        }
        lemma_fresh_sorted(init, now_ns, keep_ns);
        lemma_fresh_from(init, now_ns, keep_ns);
        let rest: Seq<RowKey> = fresh_marks(init, now_ns, keep_ns);
        let out: Seq<RowKey> = fresh_marks(marks, now_ns, keep_ns);
        if !mark_stale(marks.last(), now_ns, keep_ns) {
            assert forall|a: int, b: int|
                #![trigger out[a], out[b]]
                0 <= a < b < out.len() implies key_less(out[a], out[b]) by {
                assert(out[a] == rest[a]);
                if b < rest.len() {
                    assert(out[b] == rest[b]);
                } else {
                    let j: int = choose|j: int|
                        0 <= j < init.len() && #[trigger] init[j] == rest[a];
                    assert(marks[j] == out[a]);
                    assert(marks[marks.len() - 1] == out[b]);
                }
            }
        }
    }
}

proof fn lemma_with_mark_at(marks: Seq<RowKey>, k: RowKey, i: int)
    requires
        marks_sorted(marks),
        0 <= i <= marks.len(),
        forall|j: int| 0 <= j < i ==> key_less(#[trigger] marks[j], k),
        i < marks.len() ==> marks[i] == k || key_less(k, marks[i]),
    ensures
        with_mark(marks, k) == if i < marks.len() && marks[i] == k {
            marks
        } else {
            marks.insert(i, k)
        },
        marks_sorted(with_mark(marks, k)),
    decreases i,
{
    if i > 0 {
        let rest: Seq<RowKey> = marks.skip(1);
        assert(key_less(marks[0], k));
        law_key_order_is_total(marks[0], k, k);
        assert(marks_sorted(rest)) by {
            assert forall|a: int, b: int|
                #![trigger rest[a], rest[b]]
                0 <= a < b < rest.len() implies key_less(rest[a], rest[b]) by {
                assert(rest[a] == marks[a + 1]);
                assert(rest[b] == marks[b + 1]);
            }
        }
        assert forall|j: int| 0 <= j < i - 1 implies key_less(#[trigger] rest[j], k) by {
            assert(key_less(marks[j + 1], k));
        }
        lemma_with_mark_at(rest, k, i - 1);
        if i < marks.len() && marks[i] == k {
            assert(seq![marks[0]] + rest =~= marks);
        } else {
            assert(seq![marks[0]] + rest.insert(i - 1, k) =~= marks.insert(i, k));
        }
    } else {
        assert(seq![k] + marks =~= marks.insert(0, k));
        if marks.len() == 0 {
            assert(seq![k] =~= marks.insert(0, k));
        }
    }
    let out: Seq<RowKey> = with_mark(marks, k);
    if !(i < marks.len() && marks[i] == k) {
        assert forall|a: int, b: int|
            #![trigger out[a], out[b]]
            0 <= a < b < out.len() implies key_less(out[a], out[b]) by {
            if b == i {
                assert(out[a] == marks[a]);
            } else if a == i {
                assert(out[b] == marks[b - 1]);
                if b - 1 > i {
                    assert(key_less(marks[i], marks[b - 1]));
                    law_key_order_is_total(k, marks[i], marks[b - 1]);
                }
            } else {
                let x: int = if a < i {
                    a
                } else {
                    a - 1
                };
                let y: int = if b < i {
                    b
                } else {
                    b - 1
                };
                assert(out[a] == marks[x]);
                assert(out[b] == marks[y]);
            }
        }
    }
}

/// The tables of the hub.
pub struct Store {
    pub policies: Vec<SharedPolicy>,
    pub tombstones: Vec<RowKey>,
    pub rules: Option<RuleBundle>,
}

impl Store {
    /// The policies, in order.
    pub open spec fn rows(&self) -> Seq<PolicyView> {
        rows_of(self.policies@)
    }

    pub open spec fn wf(&self) -> bool {
        sorted(self.rows()) && marks_sorted(self.tombstones@)
    }

    pub fn new() -> (r: Self)
        ensures
            r.wf(),
            r.rows().len() == 0,
            r.tombstones@.len() == 0,
            r.rules is None,
    {
        Store { policies: Vec::new(), tombstones: Vec::new(), rules: None }
    }

    fn find(&self, ip: &IpKey) -> (r: Option<usize>)
        requires
            self.wf(),
        ensures
            match r {
                Some(i) => i < self.policies@.len() && self.rows()[i as int].ip == *ip && policy_of(
                    self.rows(),
                    *ip,
                ) == Some(self.rows()[i as int]) && without(self.rows(), *ip)
                    == self.rows().remove(i as int),
                None => policy_of(self.rows(), *ip) is None && without(self.rows(), *ip)
                    == self.rows() && forall|j: int|
                    0 <= j < self.rows().len() ==> (#[trigger] self.rows()[j]).ip != *ip,
            },
    {
        let ghost rows = self.rows();
        for i in 0..self.policies.len()
            invariant
                self.wf(),
                rows == self.rows(),
                forall|j: int| 0 <= j < i ==> (#[trigger] rows[j]).ip != *ip,
        {
            assert(rows[i as int] == self.policies@[i as int]@);
            if self.policies[i].ip.same(ip) {
                proof {
                    lemma_policy_at(rows, *ip, i as int);
                    assert forall|j: int| 0 <= j < rows.len() && j != i implies (
                    #[trigger] rows[j]).ip != *ip by {
                        let k: PolicyView = rows[i as int];
                    }
                    lemma_without_at(rows, *ip, i as int);
                }
                return Some(i);
            }
        }
        proof {
            lemma_absent(rows, *ip);
        }
        None
    }

    /// Puts a policy of an address that has none in its place.
    fn put(&mut self, p: SharedPolicy)
        requires
            old(self).wf(),
            forall|j: int| 0 <= j < old(self).rows().len() ==> (#[trigger] old(self).rows()[j]).ip
                != p.ip,
        ensures
            final(self).wf(),
            final(self).rows() == with_row(old(self).rows(), p@),
            final(self).tombstones == old(self).tombstones,
            final(self).rules == old(self).rules,
    {
        let ghost rows = self.rows();
        let key: RowKey = place_of(&p);
        let n: usize = self.policies.len();
        let mut i: usize = 0;
        while i < n && !key_before(&key, &place_of(&self.policies[i]))
            invariant
                n == self.policies@.len(),
                i <= n,
                rows == self.rows(),
                key == place(p@),
                forall|j: int| 0 <= j < i ==> !key_less(key, place(#[trigger] rows[j])),
            decreases n - i,
        {
            assert(rows[i as int] == self.policies@[i as int]@);
            i = i + 1;
        }
        proof {
            assert(i < n ==> rows[i as int] == self.policies@[i as int]@);
            lemma_with_row_at(rows, p@, i as int);
            lemma_insert_sorted(rows, p@, i as int);
        }
        let ghost view = p@;
        self.policies.insert(i, p);
        assert(self.rows() =~= rows.insert(i as int, view));
    }

    /// Puts a stored policy back, in place of one of the same address.
    pub fn restore(&mut self, p: SharedPolicy)
        requires
            old(self).wf(),
        ensures
            final(self).wf(),
            final(self).rows() == with_row(without(old(self).rows(), p@.ip), p@),
            final(self).tombstones == old(self).tombstones,
            final(self).rules == old(self).rules,
    {
        self.take(&p.ip);
        self.put(p);
    }

    /// Takes the policy of an address out.
    fn take(&mut self, ip: &IpKey) -> (r: Option<SharedPolicy>)
        requires
            old(self).wf(),
        ensures
            final(self).wf(),
            final(self).rows() == without(old(self).rows(), *ip),
            final(self).tombstones == old(self).tombstones,
            final(self).rules == old(self).rules,
            forall|j: int|
                0 <= j < final(self).rows().len() ==> (#[trigger] final(self).rows()[j]).ip != *ip,
            match r {
                Some(p) => policy_of(old(self).rows(), *ip) == Some(p@),
                None => policy_of(old(self).rows(), *ip) is None,
            },
    {
        let ghost rows = self.rows();
        match self.find(ip) {
            Some(i) => {
                proof {
                    lemma_remove_sorted(rows, i as int);
                }
                let p: SharedPolicy = self.policies.remove(i);
                assert(self.rows() =~= rows.remove(i as int));
                assert forall|j: int| 0 <= j < self.rows().len() implies (
                #[trigger] self.rows()[j]).ip != *ip by {
                    let k: int = if j < i {
                        j
                    } else {
                        j + 1
                    };
                    assert(self.rows()[j] == rows[k]);
                    let here: PolicyView = rows[i as int];
                }
                assert(rows[i as int] == p@);
                Some(p)
            },
            None => None,
        }
    }

    fn merge_policy(&mut self, node: &NodePolicy, node_name: &str, now_ns: u64)
        requires
            old(self).wf(),
        ensures
            final(self).wf(),
            final(self).rows() == merge_one(old(self).rows(), *node, node_name@, now_ns),
            final(self).tombstones == old(self).tombstones,
            final(self).rules == old(self).rules,
    {
        let ghost rows = self.rows();
        let policy: SharedPolicy = match self.take(&node.ip) {
            Some(mut p) => {
                let ghost before = p@;
                p.reason = node.reason;
                if node.hit_count > p.hit_count {
                    p.hit_count = node.hit_count;
                }
                if node.trust_score < p.trust_score {
                    p.trust_score = node.trust_score;
                }
                if !has_text(&p.source_nodes, node_name) {
                    let ghost nodes = texts(p.source_nodes@);
                    p.source_nodes.push(node_name.to_string());
                    assert(texts(p.source_nodes@) =~= nodes.push(node_name@));
                }
                p.ttl_s =
                if p.ttl_s == 0 || node.ttl_s == 0 {
                    0
                } else if node.ttl_s > p.ttl_s {
                    node.ttl_s
                } else {
                    p.ttl_s
                };
                if now_ns > p.last_seen_ns {
                    p.last_seen_ns = now_ns;
                }
                if now_ns < p.first_seen_ns {
                    p.first_seen_ns = now_ns;
                }
                proof {
                    assert(p@.source_nodes == with_node(before.source_nodes, node_name@));
                    lemma_policy_ip(rows, node.ip);
                }
                p
            },
            None => {
                let name: String = node_name.to_string();
                let nodes: Vec<String> = vec![name];
                assert(texts(nodes@) =~= seq![node_name@]);
                SharedPolicy {
                    ip: node.ip,
                    reason: node.reason,
                    hit_count: node.hit_count,
                    trust_score: node.trust_score,
                    first_seen_ns: now_ns,
                    last_seen_ns: now_ns,
                    source_nodes: nodes,
                    ttl_s: node.ttl_s,
                }
            },
        };
        assert(policy@ == reported(policy_of(rows, node.ip), *node, node_name@, now_ns));
        self.put(policy);
    }

    /// Takes in what a node reports, at time `now_ns`. Returns how many policies it
    /// reported.
    pub fn merge(&mut self, node_name: &str, policies: &Vec<NodePolicy>, now_ns: u64) -> (r: usize)
        requires
            old(self).wf(),
        ensures
            final(self).wf(),
            r == policies@.len(),
            final(self).rows() == merge_all(old(self).rows(), policies@, node_name@, now_ns),
            final(self).tombstones == old(self).tombstones,
            final(self).rules == old(self).rules,
    {
        let ghost rows = self.rows();
        for i in 0..policies.len()
            invariant
                self.wf(),
                rows == old(self).rows(),
                self.rows() == merge_all(rows, policies@.take(i as int), node_name@, now_ns),
                self.tombstones == old(self).tombstones,
                self.rules == old(self).rules,
        {
            self.merge_policy(&policies[i], node_name, now_ns);
            assert(policies@.take(i + 1).drop_last() == policies@.take(i as int));
        }
        assert(policies@.take(policies@.len() as int) == policies@);
        policies.len()
    }

    /// A page of the policies seen after `since_ns`, and the time from which the next page
    /// goes on. A page has at least `limit` policies where there are as many, and ends
    /// with the last policy of its time, so that none is lost and none comes twice.
    pub fn query_since(&self, since_ns: u64, limit: usize) -> (r: (Vec<SharedPolicy>, u64))
        requires
            self.wf(),
        ensures
            rows_of(r.0@) == page(self.rows(), since_ns, limit as int),
            r.1 == (if r.0@.len() == 0 {
                since_ns
            } else {
                r.0@.last().last_seen_ns
            }),
    {
        let ghost rows = self.rows();
        let n: usize = self.policies.len();
        let mut start: usize = 0;
        while start < n && self.policies[start].last_seen_ns <= since_ns
            invariant
                n == self.policies@.len(),
                start <= n,
                rows == self.rows(),
                forall|j: int| 0 <= j < start ==> (#[trigger] rows[j]).last_seen_ns <= since_ns,
            decreases n - start,
        {
            assert(rows[start as int] == self.policies@[start as int]@);
            start = start + 1;
        }
        proof {
            assert(start < n ==> rows[start as int] == self.policies@[start as int]@);
            lemma_newer_is_tail(rows, since_ns, start as int);
        }
        let ghost tail = newer(rows, since_ns);
        let mut times: Vec<u64> = Vec::new();
        for i in start..n
            invariant
                n == self.policies@.len(),
                rows == self.rows(),
                tail == rows.skip(start as int),
                start <= n,
                times@ == row_times(tail).take(i - start),
        {
            times.push(self.policies[i].last_seen_ns);
            assert(rows[i as int] == self.policies@[i as int]@);
            assert(times@ =~= row_times(tail).take(i + 1 - start));
        }
        assert(times@ =~= row_times(tail));
        let count: usize = page_end(&times, limit);
        let mut out: Vec<SharedPolicy> = Vec::new();
        for i in start..(start + count)
            invariant
                n == self.policies@.len(),
                rows == self.rows(),
                tail == rows.skip(start as int),
                start + count <= n,
                rows_of(out@) == tail.take(i - start),
        {
            let ghost before = rows_of(out@);
            out.push(self.policies[i].copy());
            assert(rows[i as int] == self.policies@[i as int]@);
            assert(rows_of(out@) =~= before.push(rows[i as int]));
            assert(tail.take(i + 1 - start) =~= tail.take(i - start).push(tail[i - start]));
        }
        assert(rows_of(out@) =~= page(rows, since_ns, limit as int));
        let cursor: u64 = if out.len() == 0 {
            since_ns
        } else {
            out[out.len() - 1].last_seen_ns
        };
        (out, cursor)
    }

    /// How many policies there are.
    pub fn count(&self) -> (r: u64)
        ensures
            r == self.rows().len(),
    {
        self.policies.len() as u64
    }

    /// Takes out policies that have ended and marks older than `tombstone_ttl_ns`. Returns
    /// how many of each.
    pub fn prune(&mut self, now_ns: u64, tombstone_ttl_ns: u64) -> (r: (usize, usize))
        requires
            old(self).wf(),
        ensures
            final(self).wf(),
            final(self).rows() == living(old(self).rows(), now_ns),
            final(self).tombstones@ == fresh_marks(
                old(self).tombstones@,
                now_ns,
                tombstone_ttl_ns,
            ),
            final(self).rules == old(self).rules,
            r.0 == old(self).rows().len() - final(self).rows().len(),
            r.1 == old(self).tombstones@.len() - final(self).tombstones@.len(),
    {
        let ghost rows = self.rows();
        let ghost marks = self.tombstones@;
        let mut kept: Vec<SharedPolicy> = Vec::new();
        for i in 0..self.policies.len()
            invariant
                rows == self.rows(),
                rows_of(kept@) == living(rows.take(i as int), now_ns),
        {
            let p: &SharedPolicy = &self.policies[i];
            assert(rows[i as int] == p@);
            assert(rows.take(i + 1).drop_last() == rows.take(i as int));
            assert(rows.take(i + 1).last() == p@);
            let ghost before = rows_of(kept@);
            if p.ttl_s == 0 || expiry(p.last_seen_ns, p.ttl_s) >= now_ns {
                kept.push(p.copy());
                assert(rows_of(kept@) =~= before.push(p@));
            }
        }
        assert(rows.take(rows.len() as int) == rows);
        let mut fresh: Vec<RowKey> = Vec::new();
        for i in 0..self.tombstones.len()
            invariant
                marks == self.tombstones@,
                fresh@ == fresh_marks(marks.take(i as int), now_ns, tombstone_ttl_ns),
        {
            let k: RowKey = self.tombstones[i];
            assert(marks.take(i + 1).drop_last() == marks.take(i as int));
            assert(marks.take(i + 1).last() == k);
            if k.at_ns.saturating_add(tombstone_ttl_ns) >= now_ns {
                fresh.push(k);
            }
        }
        assert(marks.take(marks.len() as int) == marks);
        proof {
            lemma_living_sorted(rows, now_ns);
            lemma_living_from(rows, now_ns);
            lemma_fresh_sorted(marks, now_ns, tombstone_ttl_ns);
            lemma_fresh_from(marks, now_ns, tombstone_ttl_ns);
        }
        assert(kept@.len() == rows_of(kept@).len());
        let gone: usize = self.policies.len() - kept.len();
        let old_marks: usize = self.tombstones.len() - fresh.len();
        self.policies = kept;
        self.tombstones = fresh;
        (gone, old_marks)
    }

    /// Takes out the policy of an address and leaves a mark, so that the nodes hear of it.
    /// Returns whether there was a policy.
    pub fn delete_policy(&mut self, ip: &IpKey, now_ns: u64) -> (r: bool)
        requires
            old(self).wf(),
        ensures
            final(self).wf(),
            r == policy_of(old(self).rows(), *ip).is_some(),
            final(self).rows() == without(old(self).rows(), *ip),
            final(self).tombstones@ == with_mark(
                old(self).tombstones@,
                (RowKey { at_ns: now_ns, ip: *ip }),
            ),
            final(self).rules == old(self).rules,
    {
        let removed: bool = self.take(ip).is_some();
        self.put_mark(RowKey { at_ns: now_ns, ip: *ip });
        removed
    }

    /// Leaves a mark.
    pub fn put_mark(&mut self, key: RowKey)
        requires
            old(self).wf(),
        ensures
            final(self).wf(),
            final(self).policies == old(self).policies,
            final(self).tombstones@ == with_mark(old(self).tombstones@, key),
            final(self).rules == old(self).rules,
    {
        let ghost marks = self.tombstones@;
        let n: usize = self.tombstones.len();
        let mut i: usize = 0;
        while i < n && key_before(&self.tombstones[i], &key)
            invariant
                n == self.tombstones@.len(),
                i <= n,
                marks == self.tombstones@,
                forall|j: int| 0 <= j < i ==> key_less(#[trigger] marks[j], key),
            decreases n - i,
        {
            i = i + 1;
        }
        proof {
            if i < n {
                law_key_order_is_total(marks[i as int], key, key);
            }
            lemma_with_mark_at(marks, key, i as int);
        }
        if i < n && !key_before(&key, &self.tombstones[i]) {
            return;
        }
        proof {
            if i < n {
                law_key_order_is_total(marks[i as int], key, key);
            }
        }
        self.tombstones.insert(i, key);
    }

    /// A page of the addresses whose policies were deleted after `since_ns`, and the time
    /// from which the next page goes on; cut as in [`Store::query_since`].
    pub fn query_tombstones_since(&self, since_ns: u64, limit: usize) -> (r: (Vec<IpKey>, u64))
        requires
            self.wf(),
        ensures
            ({
                let marks: Seq<RowKey> = mark_page(self.tombstones@, since_ns, limit as int);
                &&& r.0@ == marks.map_values(|k: RowKey| k.ip)
                &&& r.1 == if marks.len() == 0 {
                    since_ns
                } else {
                    marks.last().at_ns
                }
            }),
    {
        let ghost marks = self.tombstones@;
        let n: usize = self.tombstones.len();
        let mut start: usize = 0;
        while start < n && self.tombstones[start].at_ns <= since_ns
            invariant
                n == self.tombstones@.len(),
                start <= n,
                marks == self.tombstones@,
                forall|j: int| 0 <= j < start ==> (#[trigger] marks[j]).at_ns <= since_ns,
            decreases n - start,
        {
            start = start + 1;
        }
        proof {
            lemma_newer_marks_is_tail(marks, since_ns, start as int);
        }
        let ghost tail = newer_marks(marks, since_ns);
        let mut times: Vec<u64> = Vec::new();
        for i in start..n
            invariant
                n == self.tombstones@.len(),
                marks == self.tombstones@,
                tail == marks.skip(start as int),
                start <= n,
                times@ == mark_times(tail).take(i - start),
        {
            times.push(self.tombstones[i].at_ns);
            assert(times@ =~= mark_times(tail).take(i + 1 - start));
        }
        assert(times@ =~= mark_times(tail));
        let count: usize = page_end(&times, limit);
        let mut out: Vec<IpKey> = Vec::new();
        let mut cursor: u64 = since_ns;
        for i in start..(start + count)
            invariant
                n == self.tombstones@.len(),
                marks == self.tombstones@,
                tail == marks.skip(start as int),
                start + count <= n,
                out@ == tail.take(i - start).map_values(|k: RowKey| k.ip),
                cursor == (if i == start {
                    since_ns
                } else {
                    tail[i - start - 1].at_ns
                }),
        {
            out.push(self.tombstones[i].ip);
            cursor = self.tombstones[i].at_ns;
            assert(out@ =~= tail.take(i + 1 - start).map_values(|k: RowKey| k.ip));
        }
        assert(tail.take(count as int) == mark_page(marks, since_ns, limit as int));
        (out, cursor)
    }

    /// Keeps the rules that are handed to every node.
    pub fn set_rules(&mut self, bundle: RuleBundle)
        ensures
            final(self).rules == Some(bundle),
            final(self).policies == old(self).policies,
            final(self).tombstones == old(self).tombstones,
    {
        self.rules = Some(bundle);
    }

    /// The rules that are handed to every node.
    pub fn get_rules(&self) -> (r: &Option<RuleBundle>)
        ensures
            *r == self.rules,
    {
        &self.rules
    }
}

proof fn lemma_policy_ip(rows: Seq<PolicyView>, ip: IpKey)
    ensures
        policy_of(rows, ip) is Some ==> policy_of(rows, ip)->0.ip == ip,
    decreases rows.len(),
{
    if rows.len() > 0 {
        lemma_policy_ip(rows.skip(1), ip);
    }
}

fn expiry(last_seen_ns: u64, ttl_s: u64) -> (r: u64)
    ensures
        r == policy_end(last_seen_ns, ttl_s),
{
    let span: u64 = if ttl_s > u64::MAX / 1_000_000_000 {
        u64::MAX
    } else {
        ttl_s * 1_000_000_000
    };
    last_seen_ns.saturating_add(span)
}

/// Whether a text is among several.
pub fn has_text(list: &Vec<String>, s: &str) -> (r: bool)
    ensures
        r == texts(list@).contains(s@),
{
    for i in 0..list.len()
        invariant
            forall|j: int| 0 <= j < i ==> #[trigger] texts(list@)[j] != s@,
    {
        assert(texts(list@)[i as int] == list@[i as int]@);
        if same_text(list[i].as_str(), s) {
            return true;
        }
    }
    false
}

proof fn lemma_take_newer(rows: Seq<PolicyView>, since_ns: u64, n: int)
    requires
        sorted(rows),
        0 <= n <= newer(rows, since_ns).len(),
        n > 0,
        n < newer(rows, since_ns).len() ==> newer(rows, since_ns)[n].last_seen_ns != newer(
            rows,
            since_ns,
        )[n - 1].last_seen_ns,
    ensures
        newer(rows, newer(rows, since_ns)[n - 1].last_seen_ns) == newer(rows, since_ns).skip(n),
        newer(rows, since_ns)[n - 1].last_seen_ns > since_ns,
{
    let i: int = first_newer(rows, since_ns);
    lemma_first_newer(rows, since_ns);
    lemma_newer_is_tail(rows, since_ns, i);
    let tail: Seq<PolicyView> = newer(rows, since_ns);
    let t: u64 = tail[n - 1].last_seen_ns;
    assert(tail[n - 1] == rows[i + n - 1]);
    assert forall|j: int| 0 <= j < i + n implies (#[trigger] rows[j]).last_seen_ns <= t by {
        if j < i + n - 1 {
            assert(key_less(place(rows[j]), place(rows[i + n - 1])));
        }
    }
    if i + n < rows.len() {
        assert(tail[n] == rows[i + n]);
        assert(key_less(place(rows[i + n - 1]), place(rows[i + n])));
    }
    lemma_newer_is_tail(rows, t, i + n);
    assert(rows.skip(i + n) =~= tail.skip(n));
    assert(t > since_ns) by {
        if n > 1 {
            assert(key_less(place(rows[i]), place(rows[i + n - 1])));
        }
    }
}

spec fn first_newer(rows: Seq<PolicyView>, since_ns: u64) -> int
    decreases rows.len(),
{
    if rows.len() == 0 || rows[0].last_seen_ns > since_ns {
        0
    } else {
        1 + first_newer(rows.skip(1), since_ns)
    }
}

proof fn lemma_first_newer(rows: Seq<PolicyView>, since_ns: u64)
    ensures
        0 <= first_newer(rows, since_ns) <= rows.len(),
        forall|j: int|
            0 <= j < first_newer(rows, since_ns) ==> (#[trigger] rows[j]).last_seen_ns <= since_ns,
        first_newer(rows, since_ns) < rows.len() ==> rows[first_newer(rows, since_ns)].last_seen_ns
            > since_ns,
    decreases rows.len(),
{
    if rows.len() > 0 && rows[0].last_seen_ns <= since_ns {
        lemma_first_newer(rows.skip(1), since_ns);
        assert forall|j: int| 0 <= j < first_newer(rows, since_ns) implies (
        #[trigger] rows[j]).last_seen_ns <= since_ns by {
            if j > 0 {
                assert(rows.skip(1)[j - 1] == rows[j]);
            }
        }
    }
}

/// Pages neither lose nor repeat a policy: a page followed by what is newer than its cursor
/// is everything that was newer. With a limit that is not zero a page gets on as long as
/// there is anything newer.
pub proof fn law_pages_are_seamless(rows: Seq<PolicyView>, since_ns: u64, limit: int)
    requires
        sorted(rows),
        limit > 0,
    ensures
        ({
            let p: Seq<PolicyView> = page(rows, since_ns, limit);
            let cursor: u64 = if p.len() == 0 {
                since_ns
            } else {
                p.last().last_seen_ns
            };
            &&& newer(rows, since_ns) == p + newer(rows, cursor)
            &&& newer(rows, since_ns).len() > 0 ==> p.len() > 0 && cursor > since_ns
            &&& p.len() >= limit || p == newer(rows, since_ns)
        }),
{
    let n: Seq<PolicyView> = newer(rows, since_ns);
    let k: int = page_len(row_times(n), limit);
    lemma_page_is_whole(row_times(n), limit);
    let p: Seq<PolicyView> = page(rows, since_ns, limit);
    if n.len() > 0 {
        if k < n.len() {
            assert(row_times(n)[k] == n[k].last_seen_ns);
            assert(row_times(n)[k - 1] == n[k - 1].last_seen_ns);
        }
        lemma_take_newer(rows, since_ns, k);
        assert(p.last() == n[k - 1]);
        assert(n =~= p + n.skip(k));
        if k == n.len() {
            assert(p =~= n);
        }
    } else {
        assert(p =~= n);
        assert(n =~= p + n);
    }
}

spec fn first_newer_mark(marks: Seq<RowKey>, since_ns: u64) -> int
    decreases marks.len(),
{
    if marks.len() == 0 || marks[0].at_ns > since_ns {
        0
    } else {
        1 + first_newer_mark(marks.skip(1), since_ns)
    }
}

proof fn lemma_first_newer_mark(marks: Seq<RowKey>, since_ns: u64)
    ensures
        0 <= first_newer_mark(marks, since_ns) <= marks.len(),
        forall|j: int|
            0 <= j < first_newer_mark(marks, since_ns) ==> (#[trigger] marks[j]).at_ns <= since_ns,
        first_newer_mark(marks, since_ns) < marks.len() ==> marks[first_newer_mark(
            marks,
            since_ns,
        )].at_ns > since_ns,
    decreases marks.len(),
{
    if marks.len() > 0 && marks[0].at_ns <= since_ns {
        lemma_first_newer_mark(marks.skip(1), since_ns);
        assert forall|j: int| 0 <= j < first_newer_mark(marks, since_ns) implies (
        #[trigger] marks[j]).at_ns <= since_ns by {
            if j > 0 {
                assert(marks.skip(1)[j - 1] == marks[j]);
            }
        }
    }
}

proof fn lemma_take_newer_marks(marks: Seq<RowKey>, since_ns: u64, n: int)
    requires
        marks_sorted(marks),
        0 < n <= newer_marks(marks, since_ns).len(),
        n < newer_marks(marks, since_ns).len() ==> newer_marks(marks, since_ns)[n].at_ns
            != newer_marks(marks, since_ns)[n - 1].at_ns,
    ensures
        newer_marks(marks, newer_marks(marks, since_ns)[n - 1].at_ns) == newer_marks(
            marks,
            since_ns,
        ).skip(n),
        newer_marks(marks, since_ns)[n - 1].at_ns > since_ns,
{
    let i: int = first_newer_mark(marks, since_ns);
    lemma_first_newer_mark(marks, since_ns);
    lemma_newer_marks_is_tail(marks, since_ns, i);
    let tail: Seq<RowKey> = newer_marks(marks, since_ns);
    let t: u64 = tail[n - 1].at_ns;
    assert(tail[n - 1] == marks[i + n - 1]);
    assert forall|j: int| 0 <= j < i + n implies (#[trigger] marks[j]).at_ns <= t by {
        if j < i + n - 1 {
            assert(key_less(marks[j], marks[i + n - 1]));
        }
    }
    if i + n < marks.len() {
        assert(tail[n] == marks[i + n]);
        assert(key_less(marks[i + n - 1], marks[i + n]));
    }
    lemma_newer_marks_is_tail(marks, t, i + n);
    assert(marks.skip(i + n) =~= tail.skip(n));
    assert(t > since_ns) by {
        if n > 1 {
            assert(key_less(marks[i], marks[i + n - 1]));
        }
    }
}

/// Pages of deletions neither lose nor repeat one: a page followed by what is newer than
/// its cursor is everything that was newer. With a limit that is not zero a page gets on as
/// long as there is anything newer.
pub proof fn law_deletion_pages_are_seamless(marks: Seq<RowKey>, since_ns: u64, limit: int)
    requires
        marks_sorted(marks),
        limit > 0,
    ensures
        ({
            let p: Seq<RowKey> = mark_page(marks, since_ns, limit);
            let cursor: u64 = if p.len() == 0 {
                since_ns
            } else {
                p.last().at_ns
            };
            &&& newer_marks(marks, since_ns) == p + newer_marks(marks, cursor)
            &&& newer_marks(marks, since_ns).len() > 0 ==> p.len() > 0 && cursor > since_ns
            &&& p.len() >= limit || p == newer_marks(marks, since_ns)
        }),
{
    let n: Seq<RowKey> = newer_marks(marks, since_ns);
    let k: int = page_len(mark_times(n), limit);
    lemma_page_is_whole(mark_times(n), limit);
    let p: Seq<RowKey> = mark_page(marks, since_ns, limit);
    if n.len() > 0 {
        if k < n.len() {
            assert(mark_times(n)[k] == n[k].at_ns);
            assert(mark_times(n)[k - 1] == n[k - 1].at_ns);
        }
        lemma_take_newer_marks(marks, since_ns, k);
        assert(p.last() == n[k - 1]);
        assert(n =~= p + n.skip(k));
        if k == n.len() {
            assert(p =~= n);
        }
    } else {
        assert(p =~= n);
        assert(n =~= p + n);
    }
}

/// Reports only ever add: hits and lifetime never fall, trust never rises, a policy for
/// ever stays so, and the reporting node is among the sources.
pub proof fn law_reports_only_add(p: PolicyView, node: NodePolicy, name: Seq<char>, now_ns: u64)
    ensures
        ({
            let q: PolicyView = reported(Some(p), node, name, now_ns);
            &&& q.ip == p.ip
            &&& q.hit_count >= p.hit_count && q.hit_count >= node.hit_count
            &&& q.trust_score <= p.trust_score && q.trust_score <= node.trust_score
            &&& p.ttl_s == 0 || node.ttl_s == 0 ==> q.ttl_s == 0
            &&& q.ttl_s == 0 || q.ttl_s >= p.ttl_s
            &&& q.last_seen_ns >= p.last_seen_ns
            &&& q.first_seen_ns <= p.first_seen_ns
            &&& q.source_nodes.contains(name)
            &&& forall|s: Seq<char>| p.source_nodes.contains(s) ==> q.source_nodes.contains(s)
        }),
{
    let q: PolicyView = reported(Some(p), node, name, now_ns);
    if !p.source_nodes.contains(name) {
        assert(q.source_nodes[q.source_nodes.len() - 1] == name);
        assert forall|s: Seq<char>| p.source_nodes.contains(s) implies q.source_nodes.contains(
            s,
        ) by {
            let i: int = choose|i: int| 0 <= i < p.source_nodes.len() && p.source_nodes[i] == s;
            assert(q.source_nodes[i] == s);
        }
    }
}

/// The same report twice at the same time is the same as once.
pub proof fn law_report_twice_is_once(
    old: Option<PolicyView>,
    node: NodePolicy,
    name: Seq<char>,
    now_ns: u64,
)
    ensures
        reported(Some(reported(old, node, name, now_ns)), node, name, now_ns) == reported(
            old,
            node,
            name,
            now_ns,
        ),
{
    let q: PolicyView = reported(old, node, name, now_ns);
    assert(q.source_nodes.contains(name)) by {
        if old is Some && old->0.source_nodes.contains(name) {
        } else {
            assert(q.source_nodes[q.source_nodes.len() - 1] == name);
        }
    }
}

/// After a deletion the address has no policy.
pub proof fn law_deleted_policy_is_gone(rows: Seq<PolicyView>, ip: IpKey)
    ensures
        policy_of(without(rows, ip), ip) is None,
    decreases rows.len(),
{
    if rows.len() > 0 {
        law_deleted_policy_is_gone(rows.skip(1), ip);
        if rows[0].ip != ip {
            let rest: Seq<PolicyView> = without(rows.skip(1), ip);
            assert((seq![rows[0]] + rest).skip(1) =~= rest);
        }
    }
}

/// A deletion leaves a mark that later pages of deletions bring.
pub proof fn law_deletion_is_marked(marks: Seq<RowKey>, k: RowKey)
    ensures
        with_mark(marks, k).contains(k),
        forall|m: RowKey| marks.contains(m) ==> with_mark(marks, k).contains(m),
    decreases marks.len(),
{
    let out: Seq<RowKey> = with_mark(marks, k);
    if marks.len() == 0 {
        assert(out[0] == k);
    } else if marks[0] == k {
        assert(out[0] == k);
    } else if key_less(k, marks[0]) {
        assert(out[0] == k);
        assert forall|m: RowKey| marks.contains(m) implies out.contains(m) by {
            let i: int = choose|i: int| 0 <= i < marks.len() && marks[i] == m;
            assert(out[i + 1] == m);
        }
    } else {
        let rest: Seq<RowKey> = with_mark(marks.skip(1), k);
        law_deletion_is_marked(marks.skip(1), k);
        let a: int = choose|a: int| 0 <= a < rest.len() && rest[a] == k;
        assert(out[a + 1] == k);
        assert forall|m: RowKey| marks.contains(m) implies out.contains(m) by {
            let i: int = choose|i: int| 0 <= i < marks.len() && marks[i] == m;
            if i == 0 {
                assert(out[0] == m);
            } else {
                assert(marks.skip(1)[i - 1] == m);
                assert(marks.skip(1).contains(m));
                let b: int = choose|b: int| 0 <= b < rest.len() && rest[b] == m;
                assert(out[b + 1] == m);
            }
        }
    }
}

/// A policy for ever is never pruned, nor is one whose time has not come.
pub proof fn law_living_policy_is_kept(rows: Seq<PolicyView>, now_ns: u64, p: PolicyView)
    requires
        rows.contains(p),
        !ended(p, now_ns),
    ensures
        living(rows, now_ns).contains(p),
    decreases rows.len(),
{
    let i: int = choose|i: int| 0 <= i < rows.len() && rows[i] == p;
    let rest: Seq<PolicyView> = living(rows.drop_last(), now_ns);
    let out: Seq<PolicyView> = living(rows, now_ns);
    if i == rows.len() - 1 {
        assert(out[out.len() - 1] == p);
    } else {
        assert(rows.drop_last()[i] == p);
        law_living_policy_is_kept(rows.drop_last(), now_ns, p);
        let a: int = choose|a: int| 0 <= a < rest.len() && rest[a] == p;
        assert(out[a] == p);
    }
}

} // verus!
