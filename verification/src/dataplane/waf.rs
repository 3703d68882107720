//! Request rules on the first octets of an HTTP payload.
//!
//! A rule looks at the method and at eight octets of the path at the fixed place where
//! the method ends.

use crate::common::DropEvent;
use crate::common::GlobalStats;
use crate::common::IpKey;
use crate::dataplane::parser::IPPROTO_TCP;
use crate::rules;
use vstd::prelude::*;

verus! {

/// How much of the payload the rules look at.
pub const MAX_PAYLOAD: usize = 32;
pub const WAF_FIELD_LEN: usize = 8;

#[derive(Clone, Copy, Debug, PartialEq, Eq, Structural)]
pub enum HttpMethod {
    Any,
    Get,
    Post,
    Put,
    Delete,
    Head,
    Options,
    Patch,
}

#[derive(Clone, Copy, Debug, PartialEq, Eq, Structural)]
pub enum WafAction {
    Log,
    Challenge,
    Drop,
}

#[derive(Clone, Copy, Debug)]
pub struct WafRule {
    pub enabled: bool,
    pub match_method: bool,
    pub match_path: bool,
    pub method: HttpMethod,
    pub path_sig: [u8; 8],
    pub path_mask: [u8; 8],
    pub action: WafAction,
}

/// The payload starts with the word.
pub open spec fn starts(p: Seq<u8>, off: int, word: Seq<u8>) -> bool {
    p.subrange(off, off + word.len()) == word
}

/// The method that a payload starts with; `Any` where it starts with none.
pub open spec fn method_of(p: Seq<u8>, off: int) -> HttpMethod {
    if starts(p, off, seq![71u8, 69u8, 84u8, 32u8]) {
        HttpMethod::Get
    } else if starts(p, off, seq![80u8, 79u8, 83u8, 84u8, 32u8]) {
        HttpMethod::Post
    } else if starts(p, off, seq![80u8, 85u8, 84u8, 32u8]) {
        HttpMethod::Put
    } else if starts(p, off, seq![68u8, 69u8, 76u8, 69u8, 84u8, 69u8, 32u8]) {
        HttpMethod::Delete
    } else if starts(p, off, seq![72u8, 69u8, 65u8, 68u8, 32u8]) {
        HttpMethod::Head
    } else if starts(p, off, seq![79u8, 80u8, 84u8, 73u8, 79u8, 78u8, 83u8, 32u8]) {
        HttpMethod::Options
    } else if starts(p, off, seq![80u8, 65u8, 84u8, 67u8, 72u8, 32u8]) {
        HttpMethod::Patch
    } else {
        HttpMethod::Any
    }
}

fn starts_with(p: &[u8], off: usize, word: &Vec<u8>) -> (r: bool)
    requires
        off + word@.len() <= p@.len(),
    ensures
        r == starts(p@, off as int, word@),
{
    let _n: usize = p.len();
    for i in 0..word.len()
        invariant
            off + word@.len() <= p@.len() <= usize::MAX,
            forall|j: int| 0 <= j < i ==> p@[off + j] == word@[j],
    {
        if p[off + i] != word[i] {
            assert(p@.subrange(off as int, off + word@.len())[i as int] != word@[i as int]);
            return false;
        }
    }
    assert(p@.subrange(off as int, off + word@.len()) =~= word@);
    true
}

impl HttpMethod {
    /// The method that the payload at `off` starts with.
    pub fn from_bytes(p: &[u8], off: usize) -> (r: HttpMethod)
        requires
            off + 32 <= p@.len(),
        ensures
            r == method_of(p@, off as int),
    {
        if starts_with(p, off, &vec![71u8, 69u8, 84u8, 32u8]) {
            HttpMethod::Get
        } else if starts_with(p, off, &vec![80u8, 79u8, 83u8, 84u8, 32u8]) {
            HttpMethod::Post
        } else if starts_with(p, off, &vec![80u8, 85u8, 84u8, 32u8]) {
            HttpMethod::Put
        } else if starts_with(p, off, &vec![68u8, 69u8, 76u8, 69u8, 84u8, 69u8, 32u8]) {
            HttpMethod::Delete
        } else if starts_with(p, off, &vec![72u8, 69u8, 65u8, 68u8, 32u8]) {
            HttpMethod::Head
        } else if starts_with(p, off, &vec![79u8, 80u8, 84u8, 73u8, 79u8, 78u8, 83u8, 32u8]) {
            HttpMethod::Options
        } else if starts_with(p, off, &vec![80u8, 65u8, 84u8, 67u8, 72u8, 32u8]) {
            HttpMethod::Patch
        } else {
            HttpMethod::Any
        }
    }
}

/// Where the path starts after a method.
pub open spec fn path_start(method: HttpMethod) -> int {
    match method {
        HttpMethod::Get => 4,
        HttpMethod::Post => 5,
        HttpMethod::Put => 4,
        HttpMethod::Delete => 7,
        HttpMethod::Head => 5,
        HttpMethod::Options => 8,
        HttpMethod::Patch => 6,
        HttpMethod::Any => 0,
    }
}

pub fn method_path_offset(method: HttpMethod) -> (r: usize)
    ensures
        r == path_start(method),
        r <= 8,
{
    match method {
        HttpMethod::Get => 4,
        HttpMethod::Post => 5,
        HttpMethod::Put => 4,
        HttpMethod::Delete => 7,
        HttpMethod::Head => 5,
        HttpMethod::Options => 8,
        HttpMethod::Patch => 6,
        HttpMethod::Any => 0,
    }
}

/// Eight octets of the payload agree with the signature in the bits of the mask.
pub open spec fn sig_agrees(p: Seq<u8>, off: int, sig: Seq<u8>, mask: Seq<u8>) -> bool {
    forall|i: int| 0 <= i < 8 ==> #[trigger] (p[off + i] & mask[i]) == (sig[i] & mask[i])
}

pub fn sig_eq(p: &[u8], off: usize, sig: &[u8; 8], mask: &[u8; 8]) -> (r: bool)
    requires
        off + 8 <= p@.len(),
    ensures
        r == sig_agrees(p@, off as int, sig@, mask@),
{
    let _n: usize = p.len();
    for i in 0..8usize
        invariant
            off + 8 <= p@.len() <= usize::MAX,
            forall|j: int|
                0 <= j < i ==> #[trigger] (p@[off + j] & mask@[j]) == (sig@[j] & mask@[j]),
    {
        if (p[off + i] & mask[i]) != (sig[i] & mask[i]) {
            return false;
        }
    }
    true
}

/// The rule applies to the payload at `off`.
pub open spec fn rule_applies(rule: WafRule, p: Seq<u8>, off: int) -> bool {
    let m: HttpMethod = method_of(p, off);
    &&& rule.enabled
    &&& rule.match_method ==> rule.method == HttpMethod::Any || rule.method == m
    &&& rule.match_path ==> sig_agrees(p, off + path_start(m), rule.path_sig@, rule.path_mask@)
}

/// The event that a rule sends.
pub open spec fn waf_event(src: IpKey, rule_id: u16, time_ns: u64) -> DropEvent {
    DropEvent {
        timestamp_ns: time_ns,
        src_ip: src.addr,
        family: src.family,
        protocol: IPPROTO_TCP,
        rule_id,
        dst_port: 0,
    }
}

/// What the rules from the first on decide: the first applying rule that drops or
/// challenges. Rules that only log go on to the next.
pub open spec fn decision(list: Seq<WafRule>, p: Seq<u8>, off: int) -> Option<WafAction>
    decreases list.len(),
{
    if list.len() == 0 {
        None
    } else if rule_applies(list[0], p, off) && list[0].action != WafAction::Log {
        Some(list[0].action)
    } else {
        decision(list.skip(1), p, off)
    }
}

/// The events that the rules send, in order.
pub open spec fn events_of(
    list: Seq<WafRule>,
    p: Seq<u8>,
    off: int,
    src: IpKey,
    time_ns: u64,
) -> Seq<DropEvent>
    decreases list.len(),
{
    if list.len() == 0 {
        Seq::empty()
    } else if !rule_applies(list[0], p, off) {
        events_of(list.skip(1), p, off, src, time_ns)
    } else if list[0].action == WafAction::Log {
        seq![waf_event(src, rules::WAF, time_ns)] + events_of(
            list.skip(1),
            p,
            off,
            src,
            time_ns,
        )
    } else if list[0].action == WafAction::Drop {
        seq![waf_event(src, rules::WAF, time_ns)]
    } else {
        seq![waf_event(src, rules::CHALLENGE, time_ns)]
    }
}

/// The counters after a decision.
pub open spec fn stats_after(s: GlobalStats, d: Option<WafAction>) -> GlobalStats {
    if d == Some(WafAction::Drop) {
        GlobalStats {
            total_dropped: s.total_dropped.wrapping_add(1),
            waf_blocked: s.waf_blocked.wrapping_add(1),
            ..s
        }
    } else if d == Some(WafAction::Challenge) {
        GlobalStats { challenge_issued: s.challenge_issued.wrapping_add(1), ..s }
    } else {
        s
    }
}

fn make_event(src: &IpKey, rule_id: u16, time_ns: u64) -> (r: DropEvent)
    ensures
        r == waf_event(*src, rule_id, time_ns),
{
    DropEvent {
        timestamp_ns: time_ns,
        src_ip: src.addr,
        family: src.family,
        protocol: IPPROTO_TCP,
        rule_id,
        dst_port: 0,
    }
}

/// Checks the payload at `payload_offset` against the rules. A payload of fewer than 32
/// octets is not looked at.
pub fn check(
    p: &[u8],
    src: &IpKey,
    payload_offset: usize,
    list: &Vec<WafRule>,
    stats: &mut GlobalStats,
    events: &mut Vec<DropEvent>,
    time_ns: u64,
) -> (r: Option<WafAction>)
    ensures
        ({
            let seen: bool = payload_offset + 32 <= p@.len();
            let off: int = payload_offset as int;
            &&& r == if seen {
                decision(list@, p@, off)
            } else {
                None
            }
            &&& *final(stats) == stats_after(*old(stats), r)
            &&& final(events)@ == if seen {
                old(events)@ + events_of(list@, p@, off, *src, time_ns)
            } else {
                old(events)@
            }
        }),
{
    if payload_offset > p.len() || p.len() - payload_offset < MAX_PAYLOAD {
        return None;
    }
    let method: HttpMethod = HttpMethod::from_bytes(p, payload_offset);
    let path_offset: usize = payload_offset + method_path_offset(method);
    let ghost start = events@;
    let ghost off = payload_offset as int;
    assert(list@.skip(0) == list@);
    assert(start + events_of(list@, p@, off, *src, time_ns) == events@ + events_of(
        list@.skip(0),
        p@,
        off,
        *src,
        time_ns,
    ));
    for i in 0..list.len()
        invariant
            payload_offset + 32 <= p@.len(),
            off == payload_offset,
            start == old(events)@,
            method == method_of(p@, off),
            path_offset == off + path_start(method),
            path_start(method) <= 8,
            *stats == *old(stats),
            decision(list@.skip(i as int), p@, off) == decision(list@, p@, off),
            events@ + events_of(list@.skip(i as int), p@, off, *src, time_ns) == start + events_of(
                list@,
                p@,
                off,
                *src,
                time_ns,
            ),
    {
        let rule: WafRule = list[i];
        assert(list@.skip(i as int)[0] == rule);
        assert(list@.skip(i as int).skip(1) == list@.skip(i + 1));
        let ghost rest = events_of(list@.skip(i + 1), p@, off, *src, time_ns);
        let applies: bool = rule.enabled && (!rule.match_method || rule.method == HttpMethod::Any
            || rule.method == method) && (!rule.match_path || sig_eq(
            p,
            path_offset,
            &rule.path_sig,
            &rule.path_mask,
        ));
        assert(applies == rule_applies(rule, p@, off));
        if applies {
            let ghost before = events@;
            if rule.action == WafAction::Drop {
                stats.total_dropped = stats.total_dropped.wrapping_add(1);
                stats.waf_blocked = stats.waf_blocked.wrapping_add(1);
                events.push(make_event(src, rules::WAF, time_ns));
                assert(events@ =~= before + seq![waf_event(*src, rules::WAF, time_ns)]);
                return Some(WafAction::Drop);
            }
            if rule.action == WafAction::Challenge {
                stats.challenge_issued = stats.challenge_issued.wrapping_add(1);
                events.push(make_event(src, rules::CHALLENGE, time_ns));
                assert(events@ =~= before + seq![waf_event(*src, rules::CHALLENGE, time_ns)]);
                return Some(WafAction::Challenge);
            }
            events.push(make_event(src, rules::WAF, time_ns));
            assert(events@ + rest =~= before + (seq![waf_event(*src, rules::WAF, time_ns)] + rest));
        }
    }
    assert(list@.skip(list@.len() as int).len() == 0);
    assert(events@ + Seq::<DropEvent>::empty() =~= events@);
    None
}

/// A method as a request writes it, with the blank that ends it.
pub open spec fn word_of(method: HttpMethod) -> Seq<char> {
    match method {
        HttpMethod::Get => seq!['G', 'E', 'T', ' '],
        HttpMethod::Post => seq!['P', 'O', 'S', 'T', ' '],
        HttpMethod::Put => seq!['P', 'U', 'T', ' '],
        HttpMethod::Delete => seq!['D', 'E', 'L', 'E', 'T', 'E', ' '],
        HttpMethod::Head => seq!['H', 'E', 'A', 'D', ' '],
        HttpMethod::Options => seq!['O', 'P', 'T', 'I', 'O', 'N', 'S', ' '],
        HttpMethod::Patch => seq!['P', 'A', 'T', 'C', 'H', ' '],
        HttpMethod::Any => seq![],
    }
}

/// The octets at `off` write the text.
pub open spec fn reads(p: Seq<u8>, off: int, text: Seq<char>) -> bool {
    forall|i: int| 0 <= i < text.len() ==> p[off + i] == #[trigger] text[i] as int
}

proof fn lemma_starts(p: Seq<u8>, off: int, word: Seq<u8>, text: Seq<char>)
    requires
        0 <= off,
        off + word.len() <= p.len(),
        word.len() == text.len(),
        forall|i: int| 0 <= i < word.len() ==> #[trigger] word[i] == text[i] as int,
    ensures
        starts(p, off, word) <==> reads(p, off, text),
{
    if starts(p, off, word) {
        assert forall|i: int| 0 <= i < text.len() implies p[off + i] == #[trigger] text[i] as int by {
            assert(p.subrange(off, off + word.len())[i] == word[i]);
        }
    }
    if reads(p, off, text) {
        assert forall|i: int| 0 <= i < word.len() implies p[off + i] == word[i] by {
            assert(p[off + i] == text[i] as int);
        }
        assert(p.subrange(off, off + word.len()) =~= word);
    }
}

proof fn lemma_words_differ(p: Seq<u8>, off: int, a: HttpMethod, b: HttpMethod)
    requires
        a != HttpMethod::Any,
        b != HttpMethod::Any,
        reads(p, off, word_of(a)),
        reads(p, off, word_of(b)),
    ensures
        a == b,
{
    assert(p[off + 0] == word_of(a)[0] as int && p[off + 0] == word_of(b)[0] as int);
    assert(p[off + 1] == word_of(a)[1] as int && p[off + 1] == word_of(b)[1] as int);
}

/// A payload that starts with a method and a blank has that method, and its path stands
/// right behind the blank; one that starts with none has no method.
pub proof fn law_request_line_is_read(p: Seq<u8>, off: int, method: HttpMethod)
    requires
        0 <= off,
        off + 32 <= p.len(),
    ensures
        method != HttpMethod::Any && reads(p, off, word_of(method)) ==> method_of(p, off) == method,
        path_start(method) == word_of(method).len(),
        (forall|m: HttpMethod|
            m != HttpMethod::Any ==> !#[trigger] reads(p, off, word_of(m))) ==> method_of(p, off)
            == HttpMethod::Any,
{
    let get: Seq<u8> = seq![71u8, 69u8, 84u8, 32u8];
    let post: Seq<u8> = seq![80u8, 79u8, 83u8, 84u8, 32u8];
    let put: Seq<u8> = seq![80u8, 85u8, 84u8, 32u8];
    let delete: Seq<u8> = seq![68u8, 69u8, 76u8, 69u8, 84u8, 69u8, 32u8];
    let head: Seq<u8> = seq![72u8, 69u8, 65u8, 68u8, 32u8];
    let options: Seq<u8> = seq![79u8, 80u8, 84u8, 73u8, 79u8, 78u8, 83u8, 32u8];
    let patch: Seq<u8> = seq![80u8, 65u8, 84u8, 67u8, 72u8, 32u8];
    lemma_starts(p, off, get, word_of(HttpMethod::Get));
    lemma_starts(p, off, post, word_of(HttpMethod::Post));
    lemma_starts(p, off, put, word_of(HttpMethod::Put));
    lemma_starts(p, off, delete, word_of(HttpMethod::Delete));
    lemma_starts(p, off, head, word_of(HttpMethod::Head));
    lemma_starts(p, off, options, word_of(HttpMethod::Options));
    lemma_starts(p, off, patch, word_of(HttpMethod::Patch));
    let found: HttpMethod = method_of(p, off);
    if found != HttpMethod::Any {
        assert(reads(p, off, word_of(found)));
        if method != HttpMethod::Any && reads(p, off, word_of(method)) {
            lemma_words_differ(p, off, found, method);
        }
    }
}

/// The request is one that the rule speaks of: its method is the rule's, and its path
/// starts with the rule's octets in the bits of the mask.
pub open spec fn concerns(rule: WafRule, p: Seq<u8>, off: int, method: HttpMethod) -> bool {
    &&& rule.enabled
    &&& rule.match_method ==> rule.method == HttpMethod::Any || rule.method == method
    &&& rule.match_path ==> forall|i: int|
        0 <= i < 8 ==> #[trigger] (p[off + word_of(method).len() + i] & rule.path_mask@[i]) == (
        rule.path_sig@[i] & rule.path_mask@[i])
}

proof fn lemma_decision(list: Seq<WafRule>, p: Seq<u8>, off: int, i: int)
    requires
        0 <= i <= list.len(),
        forall|j: int|
            0 <= j < i ==> !rule_applies(#[trigger] list[j], p, off) || list[j].action
                == WafAction::Log,
    ensures
        decision(list, p, off) == decision(list.skip(i), p, off),
    decreases i,
{
    if i > 0 {
        let rest: Seq<WafRule> = list.skip(1);
        assert(!rule_applies(list[0], p, off) || list[0].action == WafAction::Log);
        assert forall|j: int| 0 <= j < i - 1 implies !rule_applies(#[trigger] rest[j], p, off)
            || rest[j].action == WafAction::Log by {
            assert(rest[j] == list[j + 1]);
        }
        lemma_decision(rest, p, off, i - 1);
        assert(rest.skip(i - 1) =~= list.skip(i));
    } else {
        assert(list.skip(0) =~= list);
    }
}

/// The first rule that speaks of a request and does more than log it decides about it;
/// rules that only log do not, and without a deciding rule there is no decision.
pub proof fn law_first_deciding_rule_counts(
    list: Seq<WafRule>,
    p: Seq<u8>,
    off: int,
    method: HttpMethod,
    i: int,
)
    requires
        0 <= off,
        off + 32 <= p.len(),
        method != HttpMethod::Any,
        reads(p, off, word_of(method)),
        0 <= i <= list.len(),
        forall|j: int|
            0 <= j < i ==> !concerns(#[trigger] list[j], p, off, method) || list[j].action
                == WafAction::Log,
        i < list.len() ==> concerns(list[i], p, off, method) && list[i].action != WafAction::Log,
    ensures
        decision(list, p, off) == if i < list.len() {
            Some(list[i].action)
        } else {
            None
        },
{
    law_request_line_is_read(p, off, method);
    assert forall|j: int| 0 <= j < list.len() implies (rule_applies(#[trigger] list[j], p, off)
        <==> concerns(list[j], p, off, method)) by {
        lemma_concerns(list[j], p, off, method);
    }
    lemma_decision(list, p, off, i);
    if i < list.len() {
        assert(list.skip(i)[0] == list[i]);
    }
}

proof fn lemma_concerns(rule: WafRule, p: Seq<u8>, off: int, method: HttpMethod)
    requires
        method_of(p, off) == method,
        path_start(method) == word_of(method).len(),
    ensures
        rule_applies(rule, p, off) <==> concerns(rule, p, off, method),
{
    let at: int = off + word_of(method).len();
    assert(at == off + path_start(method));
    if sig_agrees(p, at, rule.path_sig@, rule.path_mask@) {
        assert forall|i: int| 0 <= i < 8 implies #[trigger] (p[off + word_of(method).len() + i]
            & rule.path_mask@[i]) == (rule.path_sig@[i] & rule.path_mask@[i]) by {
            assert((p[at + i] & rule.path_mask@[i]) == (rule.path_sig@[i] & rule.path_mask@[i]));
        }
    }
    if forall|i: int|
        0 <= i < 8 ==> #[trigger] (p[off + word_of(method).len() + i] & rule.path_mask@[i]) == (
        rule.path_sig@[i] & rule.path_mask@[i]) {
        assert forall|i: int| 0 <= i < 8 implies #[trigger] (p[at + i] & rule.path_mask@[i]) == (
        rule.path_sig@[i] & rule.path_mask@[i]) by {
            assert((p[off + word_of(method).len() + i] & rule.path_mask@[i]) == (rule.path_sig@[i]
                & rule.path_mask@[i]));
        }
    }
}

/// A dropped request counts as dropped and as stopped by a rule, a challenged one as
/// challenged, and one of which nothing is decided not at all.
pub proof fn law_decision_is_counted(s: GlobalStats, d: Option<WafAction>)
    requires
        d != Some(WafAction::Log),
    ensures
        ({
            let a: GlobalStats = stats_after(s, d);
            &&& a.waf_blocked == if d == Some(WafAction::Drop) {
                s.waf_blocked.wrapping_add(1)
            } else {
                s.waf_blocked
            }
            &&& a.total_dropped == if d == Some(WafAction::Drop) {
                s.total_dropped.wrapping_add(1)
            } else {
                s.total_dropped
            }
            &&& a.challenge_issued == if d == Some(WafAction::Challenge) {
                s.challenge_issued.wrapping_add(1)
            } else {
                s.challenge_issued
            }
            &&& a.total_passed == s.total_passed
        }),
{
}

/// How many of the rules, up to the one that decides, speak of the request.
pub open spec fn speaking(list: Seq<WafRule>, p: Seq<u8>, off: int) -> nat
    decreases list.len(),
{
    if list.len() == 0 {
        0
    } else if !rule_applies(list[0], p, off) {
        speaking(list.skip(1), p, off)
    } else if list[0].action == WafAction::Log {
        1 + speaking(list.skip(1), p, off)
    } else {
        1
    }
}

/// Each rule that speaks of a request, up to the one that decides, sends one event; the
/// last is a challenge's where the request is challenged, and all others are a rule's.
pub proof fn law_speaking_rules_send_events(
    list: Seq<WafRule>,
    p: Seq<u8>,
    off: int,
    src: IpKey,
    time_ns: u64,
)
    ensures
        ({
            let sent: Seq<DropEvent> = events_of(list, p, off, src, time_ns);
            &&& sent.len() == speaking(list, p, off)
            &&& forall|i: int|
                0 <= i < sent.len() ==> (#[trigger] sent[i]).src_ip == src.addr && sent[i].family
                    == src.family && sent[i].timestamp_ns == time_ns && sent[i].protocol == 6
                    && sent[i].rule_id == if i == sent.len() - 1 && decision(list, p, off) == Some(
                    WafAction::Challenge,
                ) {
                    14u16
                } else {
                    13u16
                }
            &&& decision(list, p, off) is Some ==> sent.len() > 0
        }),
    decreases list.len(),
{
    if list.len() > 0 {
        law_speaking_rules_send_events(list.skip(1), p, off, src, time_ns);
        if rule_applies(list[0], p, off) && list[0].action == WafAction::Log {
            let rest: Seq<DropEvent> = events_of(list.skip(1), p, off, src, time_ns);
            let sent: Seq<DropEvent> = events_of(list, p, off, src, time_ns);
            assert forall|i: int| 0 < i < sent.len() implies sent[i] == rest[i - 1] by {}
        }
    }
}

} // verus!
