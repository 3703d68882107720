//! What the hub keeps, hands out and forgets, one by one.

use crate::common::IpKey;
use crate::hub::api::asked;
use crate::hub::api::marked_all;
use crate::hub::api::removed_of;
use crate::hub::api::without_all;
use crate::hub::auth::bearer_token;
use crate::hub::auth::token_line;
use crate::hub::auth::token_lines;
use crate::hub::auth::token_owner;
use crate::hub::limiter::refilled;
use crate::hub::limiter::spent;
use crate::hub::models::NodeInfo;
use crate::hub::models::NodePolicy;
use crate::hub::models::PolicyView;
use crate::hub::registry::alive;
use crate::hub::registry::online_in;
use crate::hub::store::fresh_marks;
use crate::hub::store::living;
use crate::hub::store::newer;
use crate::hub::store::newer_marks;
use crate::hub::store::page;
use crate::hub::store::policy_of;
use crate::hub::store::reported;
use crate::hub::store::with_mark;
use crate::hub::store::without;
use crate::hub::store::RowKey;
use crate::text::is_space;
use crate::text::lemma_first_at_is;
use crate::text::starts_with;
use crate::text::trim_end;
use crate::text::trim_start;
use crate::text::trimmed;
use vstd::prelude::*;

verus! {

/// Policies are forgotten one by one: one whose lifetime since it was last seen is over is,
/// one for ever is not.
pub proof fn law_ended_policies_are_forgotten(a: Seq<PolicyView>, b: Seq<PolicyView>, x: PolicyView, now_ns: u64)
    ensures
        living(a + b, now_ns) == living(a, now_ns) + living(b, now_ns),
        x.ttl_s == 0 ==> living(seq![x], now_ns) == seq![x],
        x.ttl_s != 0 && x.last_seen_ns + x.ttl_s * 1_000_000_000 < now_ns ==> living(
            seq![x],
            now_ns,
        ) == Seq::<PolicyView>::empty(),
        x.ttl_s != 0 && x.last_seen_ns + x.ttl_s * 1_000_000_000 >= now_ns ==> living(
            seq![x],
            now_ns,
        ) == seq![x],
    decreases b.len(),
{
    if b.len() == 0 {
        assert(a + b =~= a);
        assert(living(a, now_ns) + living(b, now_ns) =~= living(a, now_ns));
    } else {
        law_ended_policies_are_forgotten(a, b.drop_last(), x, now_ns);
        assert((a + b).drop_last() =~= a + b.drop_last());
        assert((a + b).last() == b.last());
        assert(living(a + b, now_ns) =~= living(a, now_ns) + living(b, now_ns));
    }
    let one: Seq<PolicyView> = seq![x];
    assert(one.drop_last().len() == 0);
    assert(living(one.drop_last(), now_ns).len() == 0);
    assert(one.last() == x);
}

/// Marks of deletions are forgotten one by one, once they are older than they are kept.
pub proof fn law_old_marks_are_forgotten(a: Seq<RowKey>, b: Seq<RowKey>, x: RowKey, now_ns: u64, keep_ns: u64)
    ensures
        fresh_marks(a + b, now_ns, keep_ns) == fresh_marks(a, now_ns, keep_ns) + fresh_marks(b, now_ns, keep_ns),
        x.at_ns + keep_ns < now_ns ==> fresh_marks(seq![x], now_ns, keep_ns) == Seq::<
            RowKey,
        >::empty(),
        x.at_ns + keep_ns >= now_ns ==> fresh_marks(seq![x], now_ns, keep_ns) == seq![x],
    decreases b.len(),
{
    if b.len() == 0 {
        assert(a + b =~= a);
        assert(fresh_marks(a, now_ns, keep_ns) + fresh_marks(b, now_ns, keep_ns) =~= fresh_marks(a, now_ns, keep_ns));
    } else {
        law_old_marks_are_forgotten(a, b.drop_last(), x, now_ns, keep_ns);
        assert((a + b).drop_last() =~= a + b.drop_last());
        assert((a + b).last() == b.last());
        assert(fresh_marks(a + b, now_ns, keep_ns) =~= fresh_marks(a, now_ns, keep_ns) + fresh_marks(b, now_ns, keep_ns));
    }
    let one: Seq<RowKey> = seq![x];
    assert(one.drop_last().len() == 0);
    assert(fresh_marks(one.drop_last(), now_ns, keep_ns).len() == 0);
    assert(one.last() == x);
}

/// Nodes count as alive one by one.
pub proof fn law_live_nodes_are_counted(a: Seq<NodeInfo>, b: Seq<NodeInfo>, x: NodeInfo)
    ensures
        online_in(a + b) == online_in(a) + online_in(b),
        online_in(seq![x]) == if x.online {
            1nat
        } else {
            0nat
        },
    decreases b.len(),
{
    if b.len() == 0 {
        assert(a + b =~= a);
        assert(online_in(a) + online_in(b) == online_in(a));
    } else {
        law_live_nodes_are_counted(a, b.drop_last(), x);
        assert((a + b).drop_last() =~= a + b.drop_last());
        assert((a + b).last() == b.last());
        assert(online_in(a + b) == online_in(a) + online_in(b));
    }
    let one: Seq<NodeInfo> = seq![x];
    assert(one.drop_last().len() == 0);
    assert(online_in(one.drop_last()) == 0);
    assert(one.last() == x);
}

/// The lines of a file of tokens are read one by one.
pub proof fn law_token_lines_stand_alone(a: Seq<Seq<char>>, b: Seq<Seq<char>>, x: Seq<char>)
    ensures
        token_lines(a + b) == token_lines(a) + token_lines(b),
        token_lines(seq![x]) == match token_line(x) {
            Some(t) => seq![t],
            None => Seq::empty(),
        },
    decreases b.len(),
{
    if b.len() == 0 {
        assert(a + b =~= a);
        assert(token_lines(a) + token_lines(b) =~= token_lines(a));
    } else {
        law_token_lines_stand_alone(a, b.drop_last(), x);
        assert((a + b).drop_last() =~= a + b.drop_last());
        assert((a + b).last() == b.last());
        assert(token_lines(a + b) =~= token_lines(a) + token_lines(b));
    }
    let one: Seq<Seq<char>> = seq![x];
    assert(one.drop_last().len() == 0);
    assert(token_lines(one.drop_last()).len() == 0);
    assert(one.last() == x);
}

/// A node is alive as long as it was seen within the timeout.
pub proof fn law_silent_nodes_are_gone(seen_ns: u64, now_ns: u64, timeout_ns: u64)
    ensures
        alive(seen_ns, now_ns, timeout_ns) <==> now_ns <= seen_ns + timeout_ns,
{
}

/// What is newer than a time holds the policies that were seen after it, and no others.
pub proof fn law_newer_policies_are_handed_out(rows: Seq<PolicyView>, since_ns: u64, p: PolicyView)
    ensures
        newer(rows, since_ns).contains(p) <==> rows.contains(p) && p.last_seen_ns > since_ns,
    decreases rows.len(),
{
    if rows.len() > 0 {
        let rest: Seq<PolicyView> = rows.skip(1);
        law_newer_policies_are_handed_out(rest, since_ns, p);
        assert(rows =~= seq![rows[0]] + rest);
        let tail: Seq<PolicyView> = newer(rest, since_ns);
        if rest.contains(p) {
            assert(rows[1 + rest.index_of(p)] == p);
        }
        if rows.contains(p) && rows[0] != p {
            let i: int = rows.index_of(p);
            assert(rest[i - 1] == p);
        }
        if rows[0].last_seen_ns > since_ns {
            let all: Seq<PolicyView> = seq![rows[0]] + tail;
            assert(all[0] == rows[0]);
            if tail.contains(p) {
                assert(all[1 + tail.index_of(p)] == p);
            }
            if all.contains(p) && rows[0] != p {
                let i: int = all.index_of(p);
                assert(tail[i - 1] == p);
            }
        }
    }
}

/// What is newer than a time holds the marks that were made after it, and no others.
pub proof fn law_newer_marks_are_handed_out(marks: Seq<RowKey>, since_ns: u64, k: RowKey)
    ensures
        newer_marks(marks, since_ns).contains(k) <==> marks.contains(k) && k.at_ns > since_ns,
    decreases marks.len(),
{
    if marks.len() > 0 {
        let rest: Seq<RowKey> = marks.skip(1);
        law_newer_marks_are_handed_out(rest, since_ns, k);
        assert(marks =~= seq![marks[0]] + rest);
        let tail: Seq<RowKey> = newer_marks(rest, since_ns);
        if rest.contains(k) {
            assert(marks[1 + rest.index_of(k)] == k);
        }
        if marks.contains(k) && marks[0] != k {
            let i: int = marks.index_of(k);
            assert(rest[i - 1] == k);
        }
        if marks[0].at_ns > since_ns {
            let all: Seq<RowKey> = seq![marks[0]] + tail;
            assert(all[0] == marks[0]);
            if tail.contains(k) {
                assert(all[1 + tail.index_of(k)] == k);
            }
            if all.contains(k) && marks[0] != k {
                let i: int = all.index_of(k);
                assert(tail[i - 1] == k);
            }
        }
    }
}

proof fn lemma_group_ends(times: Seq<u64>, n: int)
    requires
        0 < n <= times.len(),
    ensures
        n <= crate::hub::store::group_end(times, n) <= times.len(),
    decreases times.len() - n,
{
    if n < times.len() && times[n] == times[n - 1] {
        lemma_group_ends(times, n + 1);
    }
}

proof fn lemma_group_is_of_one_time(times: Seq<u64>, n: int, i: int)
    requires
        0 < n <= times.len(),
        n <= i < crate::hub::store::group_end(times, n),
    ensures
        i < times.len(),
        times[i] == times[n - 1],
    decreases times.len() - n,
{
    if n < times.len() && times[n] == times[n - 1] && i > n {
        lemma_group_is_of_one_time(times, n + 1, i);
    }
}

/// A page is as long as was asked for; it is longer only by policies that were seen at the
/// same time as the last that was asked for.
pub proof fn law_page_is_as_long_as_asked(
    rows: Seq<PolicyView>,
    since_ns: u64,
    limit: int,
    i: int,
)
    requires
        limit > 0,
        limit <= i < page(rows, since_ns, limit).len(),
    ensures
        page(rows, since_ns, limit)[i].last_seen_ns == page(rows, since_ns, limit)[limit
            - 1].last_seen_ns,
{
    let n: Seq<PolicyView> = newer(rows, since_ns);
    let times: Seq<u64> = crate::hub::store::row_times(n);
    assert(times.len() == n.len());
    if times.len() > limit {
        lemma_group_ends(times, limit);
        lemma_group_is_of_one_time(times, limit, i);
        assert(times[i] == n[i].last_seen_ns);
        assert(times[limit - 1] == n[limit - 1].last_seen_ns);
    }
}

/// A page of none is empty.
pub proof fn law_page_of_none_is_empty(rows: Seq<PolicyView>, since_ns: u64)
    ensures
        page(rows, since_ns, 0).len() == 0,
{
}

/// The first report about an address becomes its policy as it is told; a further one takes
/// over its reason, and moves the time when the address was last seen.
pub proof fn law_report_becomes_policy(
    old: Option<PolicyView>,
    node: NodePolicy,
    name: Seq<char>,
    now_ns: u64,
)
    ensures
        ({
            let q: PolicyView = reported(old, node, name, now_ns);
            &&& q.reason == node.reason
            &&& old is None ==> q.ip == node.ip && q.hit_count == node.hit_count && q.trust_score
                == node.trust_score && q.ttl_s == node.ttl_s && q.first_seen_ns == now_ns
                && q.last_seen_ns == now_ns && q.source_nodes == seq![name]
            &&& old matches Some(p) ==> {
                &&& q.ip == p.ip
                &&& q.last_seen_ns == p.last_seen_ns || q.last_seen_ns == now_ns
                &&& q.last_seen_ns >= now_ns
                &&& q.first_seen_ns == p.first_seen_ns || q.first_seen_ns == now_ns
                &&& q.first_seen_ns <= now_ns
                &&& q.hit_count == p.hit_count || q.hit_count == node.hit_count
                &&& q.trust_score == p.trust_score || q.trust_score == node.trust_score
                &&& q.ttl_s == p.ttl_s || q.ttl_s == node.ttl_s
                &&& p.source_nodes.contains(name) ==> q.source_nodes == p.source_nodes
                &&& !p.source_nodes.contains(name) ==> q.source_nodes == p.source_nodes.push(name)
            }
        }),
{
}

/// Taking the policy of an address away leaves those of others.
proof fn lemma_others_stay(rows: Seq<PolicyView>, ip: IpKey, other: IpKey)
    requires
        ip != other,
    ensures
        policy_of(without(rows, ip), other) == policy_of(rows, other),
    decreases rows.len(),
{
    if rows.len() > 0 {
        let rest: Seq<PolicyView> = rows.skip(1);
        lemma_others_stay(rest, ip, other);
        if rows[0].ip != ip {
            let kept: Seq<PolicyView> = seq![rows[0]] + without(rest, ip);
            assert(kept.skip(1) =~= without(rest, ip));
        }
    }
}

/// After a node takes addresses back, none of them has a policy and every other address
/// has the one it had; each of them leaves a mark.
pub proof fn law_taken_back_addresses_are_gone(
    rows: Seq<PolicyView>,
    marks: Seq<RowKey>,
    ips: Seq<IpKey>,
    now_ns: u64,
    ip: IpKey,
)
    ensures
        ips.contains(ip) ==> policy_of(without_all(rows, ips), ip) is None,
        !ips.contains(ip) ==> policy_of(without_all(rows, ips), ip) == policy_of(rows, ip),
        ips.contains(ip) ==> marked_all(marks, ips, now_ns).contains(RowKey { at_ns: now_ns, ip }),
        forall|m: RowKey| marks.contains(m) ==> marked_all(marks, ips, now_ns).contains(m),
    decreases ips.len(),
{
    if ips.len() > 0 {
        let front: Seq<IpKey> = ips.drop_last();
        let last: IpKey = ips.last();
        law_taken_back_addresses_are_gone(rows, marks, front, now_ns, ip);
        crate::hub::store::law_deleted_policy_is_gone(without_all(rows, front), last);
        let k: RowKey = RowKey { at_ns: now_ns, ip: last };
        crate::hub::store::law_deletion_is_marked(marked_all(marks, front, now_ns), k);
        if ip != last {
            lemma_others_stay(without_all(rows, front), last, ip);
            if ips.contains(ip) {
                let i: int = ips.index_of(ip);
                assert(front[i] == ip);
            }
            if front.contains(ip) {
                let i: int = front.index_of(ip);
                assert(ips[i] == ip);
            }
        } else {
            assert(ips[ips.len() - 1] == ip);
        }
    }
}

/// An address that is taken back counts where it had a policy, and the second time no more.
pub proof fn law_taken_back_addresses_are_counted(rows: Seq<PolicyView>, ip: IpKey)
    ensures
        removed_of(rows, seq![ip]) == if policy_of(rows, ip) is Some {
            1nat
        } else {
            0nat
        },
        removed_of(rows, seq![ip, ip]) == removed_of(rows, seq![ip]),
{
    let one: Seq<IpKey> = seq![ip];
    assert(one.drop_last().len() == 0);
    assert(without_all(rows, one.drop_last()) == rows);
    assert(removed_of(rows, one.drop_last()) == 0);
    assert(one.last() == ip);
    let two: Seq<IpKey> = seq![ip, ip];
    assert(two.drop_last() =~= one);
    law_taken_back_addresses_are_gone(rows, Seq::empty(), one, 0, ip);
    assert(one[0] == ip);
    assert(one.contains(ip));
}

/// A mark adds nothing but itself.
pub proof fn law_mark_adds_only_itself(marks: Seq<RowKey>, k: RowKey, m: RowKey)
    requires
        with_mark(marks, k).contains(m),
    ensures
        m == k || marks.contains(m),
    decreases marks.len(),
{
    let all: Seq<RowKey> = with_mark(marks, k);
    let i: int = all.index_of(m);
    if marks.len() == 0 {
    } else if marks[0] == k {
    } else if crate::hub::store::key_less(k, marks[0]) {
        if i > 0 {
            assert(marks[i - 1] == m);
        }
    } else {
        let rest: Seq<RowKey> = with_mark(marks.skip(1), k);
        if i == 0 {
            assert(marks[0] == m);
        } else {
            assert(rest[i - 1] == m);
            law_mark_adds_only_itself(marks.skip(1), k, m);
            if m != k {
                let j: int = marks.skip(1).index_of(m);
                assert(marks[j + 1] == m);
            }
        }
    }
}

/// A bucket fills with its rate: after whole seconds it has as many tokens more as the rate
/// gives, up to the burst, and a request takes one of them.
pub proof fn law_bucket_fills_by_the_second(b: (u64, u64), k: u64, rate_per_s: u64, burst: u64)
    requires
        b.0 <= burst,
        b.1 + k * 1_000_000_000 <= u64::MAX,
        k > 0,
        rate_per_s > 0,
        k * rate_per_s <= u64::MAX,
    ensures
        ({
            let now_ns: u64 = (b.1 + k * 1_000_000_000) as u64;
            let f: (u64, u64) = refilled(b, now_ns, rate_per_s, burst);
            &&& f.0 == if b.0 + k * rate_per_s < burst {
                b.0 + k * rate_per_s
            } else {
                burst as int
            }
            &&& f.1 == now_ns
            &&& f.0 > 0 ==> spent(f).0 == f.0 - 1
            &&& f.0 == 0 ==> spent(f).0 == 0
        }),
{
    let span: int = k * 1_000_000_000;
    let n: int = k * rate_per_s;
    assert(span * rate_per_s == n * 1_000_000_000) by (nonlinear_arith)
        requires
            span == k * 1_000_000_000,
            n == k * rate_per_s,
    ;
    assert(n * 1_000_000_000 / 1_000_000_000 == n);
    assert(n > 0) by (nonlinear_arith)
        requires
            n == k * rate_per_s,
            k > 0,
            rate_per_s > 0,
    ;
}

/// A request that comes too early for a token leaves the bucket and the time from which it
/// fills as they are.
pub proof fn law_short_spans_are_not_lost(b: (u64, u64), now_ns: u64, rate_per_s: u64, burst: u64)
    requires
        b.1 <= now_ns,
        (now_ns - b.1) * rate_per_s < 1_000_000_000,
    ensures
        refilled(b, now_ns, rate_per_s, burst) == b,
{
    assert(0 <= (now_ns - b.1) * rate_per_s) by (nonlinear_arith)
        requires
            b.1 <= now_ns,
    ;
}

/// The token of a request is what follows `Bearer `.
pub proof fn law_bearer_is_cut_off(token: Seq<char>)
    ensures
        bearer_token("Bearer "@ + token) == token,
        !starts_with(token, "Bearer "@) ==> bearer_token(token) == token,
{
    let h: Seq<char> = "Bearer "@ + token;
    assert(h.take("Bearer "@.len() as int) =~= "Bearer "@);
    assert(h.skip("Bearer "@.len() as int) =~= token);
}

/// The owner of a token is a node that has it, and a token that no node has has no owner.
pub proof fn law_token_has_its_owner(tokens: Seq<(String, String)>, token: Seq<char>, i: int)
    requires
        0 <= i < tokens.len(),
        tokens[i].1@ == token,
        forall|j: int| i < j < tokens.len() ==> (#[trigger] tokens[j]).1@ != token,
    ensures
        token_owner(tokens, token) == Some(tokens[i].0@),
    decreases tokens.len(),
{
    if i < tokens.len() - 1 {
        let front: Seq<(String, String)> = tokens.drop_last();
        assert(tokens[tokens.len() - 1].1@ != token);
        assert(front[i] == tokens[i]);
        assert forall|j: int| i < j < front.len() implies (#[trigger] front[j]).1@ != token by {
            assert(front[j] == tokens[j]);
        }
        law_token_has_its_owner(front, token, i);
    }
}

/// A token that no node has opens nothing.
pub proof fn law_unknown_token_has_no_owner(tokens: Seq<(String, String)>, token: Seq<char>)
    requires
        forall|j: int| 0 <= j < tokens.len() ==> (#[trigger] tokens[j]).1@ != token,
    ensures
        token_owner(tokens, token) is None,
    decreases tokens.len(),
{
    if tokens.len() > 0 {
        let front: Seq<(String, String)> = tokens.drop_last();
        assert(tokens[tokens.len() - 1].1@ != token);
        assert forall|j: int| 0 <= j < front.len() implies (#[trigger] front[j]).1@ != token by {
            assert(front[j] == tokens[j]);
        }
        law_unknown_token_has_no_owner(front, token);
    }
}

/// A word without white space at its ends.
pub open spec fn is_word(s: Seq<char>) -> bool {
    s.len() > 0 && !is_space(s[0]) && !is_space(s.last())
}

proof fn lemma_word(s: Seq<char>)
    requires
        is_word(s),
    ensures
        trimmed(s) == s,
{
    assert(trim_start(s) == s);
    assert(trim_end(s) == s);
}

/// A line `name:token` gives the name and the token; a comment and a line without a colon
/// give nothing.
pub proof fn law_token_line_is_read(name: Seq<char>, token: Seq<char>)
    requires
        is_word(name),
        is_word(token),
        name[0] != '#',
        !name.contains(':'),
    ensures
        token_line(name + seq![':'] + token) == Some((name, token)),
        token_line(name) is None,
        token_line(seq!['#'] + name) is None,
{
    let s: Seq<char> = name + seq![':'] + token;
    assert(s[0] == name[0]);
    assert(s.last() == token.last());
    lemma_word(s);
    lemma_word(name);
    lemma_word(token);
    let i: int = name.len() as int;
    assert forall|j: int| 0 <= j < i implies s[j] != ':' && name[j] != ':' by {
        assert(s[j] == name[j]);
        assert(name.contains(name[j]));
    }
    assert(s[i] == ':');
    lemma_first_at_is(s, ':', i);
    lemma_first_at_is(name, ':', i);
    assert(s.take(i) =~= name);
    assert(s.skip(i + 1) =~= token);
    let c: Seq<char> = seq!['#'] + name;
    assert(c[0] == '#');
    assert(c.last() == name.last());
    assert(!is_space('#'));
    lemma_word(c);
}

/// A page has a thousand rows where a node does not say how many it wants.
pub proof fn law_page_has_its_default(n: usize)
    ensures
        asked(None) == 1000,
        asked(Some(n)) == n,
{
}

} // verus!
