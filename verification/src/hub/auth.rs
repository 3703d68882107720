//! Who may talk to the hub.

use crate::outside::ct_eq;
use crate::text::chars_of;
use crate::text::find_char;
use crate::text::first_at;
use crate::text::has_prefix;
use crate::text::lines;
use crate::text::lines_of;
use crate::text::same_text;
use crate::text::slice_of;
use crate::text::starts_with;
use crate::text::text_of;
use crate::text::trim;
use crate::text::trimmed;
use crate::text::views;
use vstd::prelude::*;
use vstd::utf8::encode_utf8;

verus! {

/// Two texts with the same octets are the same.
pub proof fn lemma_octets_tell(a: Seq<char>, b: Seq<char>)
    ensures
        (encode_utf8(a) == encode_utf8(b)) == (a == b),
{
    vstd::utf8::encode_utf8_decode_utf8(a);
    vstd::utf8::encode_utf8_decode_utf8(b);
}

/// Compares two texts in a time that does not depend on where they differ.
pub fn constant_time_eq(a: &str, b: &str) -> (r: bool)
    ensures
        r == (a@ == b@),
{
    proof {
        lemma_octets_tell(a@, b@);
    }
    ct_eq(a.as_bytes(), b.as_bytes())
}

/// The token in an authorization header: what follows `Bearer `, or all of it.
pub open spec fn bearer_token(header: Seq<char>) -> Seq<char> {
    if starts_with(header, "Bearer "@) {
        header.skip("Bearer "@.len() as int)
    } else {
        header
    }
}

pub fn strip_bearer(header: &str) -> (r: String)
    ensures
        r@ == bearer_token(header@),
{
    if has_prefix(header, "Bearer ") {
        let v: Vec<char> = chars_of(header);
        let n: usize = chars_of("Bearer ").len();
        let rest: Vec<char> = slice_of(&v, n, v.len());
        assert(rest@ == header@.skip(n as int));
        text_of(&rest)
    } else {
        header.to_string()
    }
}

/// The tokens of the hub: one that speaks for any node, and one for each of some nodes.
pub struct HubAuth {
    pub master_token: String,
    pub node_tokens: Vec<(String, String)>,
}

/// The node whose token this is, the last where several have it.
pub open spec fn token_owner(tokens: Seq<(String, String)>, token: Seq<char>) -> Option<Seq<char>>
    decreases tokens.len(),
{
    if tokens.len() == 0 {
        None
    } else if tokens.last().1@ == token {
        Some(tokens.last().0@)
    } else {
        token_owner(tokens.drop_last(), token)
    }
}

/// The tokens of a list without those of a node.
pub open spec fn tokens_without(tokens: Seq<(String, String)>, node: Seq<char>) -> Seq<
    (String, String),
>
    decreases tokens.len(),
{
    if tokens.len() == 0 {
        Seq::empty()
    } else if tokens.last().0@ == node {
        tokens_without(tokens.drop_last(), node)
    } else {
        tokens_without(tokens.drop_last(), node).push(tokens.last())
    }
}

/// One token for each node of a list: the last of those that it has there.
pub open spec fn latest_tokens(tokens: Seq<(String, String)>) -> Seq<(String, String)>
    decreases tokens.len(),
{
    if tokens.len() == 0 {
        Seq::empty()
    } else {
        tokens_without(latest_tokens(tokens.drop_last()), tokens.last().0@).push(tokens.last())
    }
}

fn remove_node(tokens: &Vec<(String, String)>, node: &str) -> (r: Vec<(String, String)>)
    ensures
        r@ == tokens_without(tokens@, node@),
{
    let mut out: Vec<(String, String)> = Vec::new();
    for i in 0..tokens.len()
        invariant
            out@ == tokens_without(tokens@.take(i as int), node@),
    {
        assert(tokens@.take(i + 1).drop_last() =~= tokens@.take(i as int));
        assert(tokens@.take(i + 1).last() == tokens@[i as int]);
        if !same_text(tokens[i].0.as_str(), node) {
            out.push((tokens[i].0.clone(), tokens[i].1.clone()));
        }
    }
    assert(tokens@.take(tokens@.len() as int) =~= tokens@);
    out
}

proof fn lemma_without(tokens: Seq<(String, String)>, node: Seq<char>, p: (String, String))
    ensures
        tokens_without(tokens, node).contains(p) <==> tokens.contains(p) && p.0@ != node,
    decreases tokens.len(),
{
    if tokens.len() > 0 {
        let front: Seq<(String, String)> = tokens.drop_last();
        let kept: Seq<(String, String)> = tokens_without(front, node);
        lemma_without(front, node, p);
        assert(tokens =~= front.push(tokens.last()));
        vstd::seq_lib::lemma_seq_contains_after_push(front, tokens.last(), p);
        vstd::seq_lib::lemma_seq_contains_after_push(kept, tokens.last(), p);
    }
}

/// No two tokens of the list are for the same node.
pub open spec fn one_per_node(tokens: Seq<(String, String)>) -> bool {
    forall|i: int, j: int|
        0 <= i < j < tokens.len() ==> (#[trigger] tokens[i]).0@ != (#[trigger] tokens[j]).0@
}

proof fn lemma_without_keeps_one_per_node(tokens: Seq<(String, String)>, node: Seq<char>)
    requires
        one_per_node(tokens),
    ensures
        one_per_node(tokens_without(tokens, node)),
    decreases tokens.len(),
{
    if tokens.len() > 0 {
        let front: Seq<(String, String)> = tokens.drop_last();
        let kept: Seq<(String, String)> = tokens_without(front, node);
        assert forall|i: int, j: int| 0 <= i < j < front.len() implies (#[trigger] front[i]).0@ != (
        #[trigger] front[j]).0@ by {
            assert(front[i] == tokens[i] && front[j] == tokens[j]);
        }
        lemma_without_keeps_one_per_node(front, node);
        assert forall|i: int| 0 <= i < kept.len() implies (#[trigger] kept[i]).0@ != tokens.last().0@ by {
            lemma_without(front, node, kept[i]);
            assert(kept.contains(kept[i]));
            let k: int = choose|k: int| 0 <= k < front.len() && front[k] == kept[i];
            assert(tokens[k].0@ != tokens[tokens.len() - 1].0@);
        }
    }
}

/// A node has one token: its name stands once in the list that is kept.
pub proof fn law_one_token_per_node(tokens: Seq<(String, String)>)
    ensures
        one_per_node(latest_tokens(tokens)),
    decreases tokens.len(),
{
    if tokens.len() > 0 {
        let front: Seq<(String, String)> = latest_tokens(tokens.drop_last());
        let kept: Seq<(String, String)> = tokens_without(front, tokens.last().0@);
        law_one_token_per_node(tokens.drop_last());
        lemma_without_keeps_one_per_node(front, tokens.last().0@);
        assert forall|i: int| 0 <= i < kept.len() implies (#[trigger] kept[i]).0@ != tokens.last().0@ by {
            lemma_without(front, tokens.last().0@, kept[i]);
            assert(kept.contains(kept[i]));
        }
    }
}

/// The token of a node is the last that it was given.
pub proof fn law_last_token_counts(tokens: Seq<(String, String)>, i: int)
    requires
        0 <= i < tokens.len(),
        forall|j: int| i < j < tokens.len() ==> (#[trigger] tokens[j]).0@ != tokens[i].0@,
    ensures
        latest_tokens(tokens).contains(tokens[i]),
    decreases tokens.len(),
{
    let last: (String, String) = tokens.last();
    let kept: Seq<(String, String)> = tokens_without(latest_tokens(tokens.drop_last()), last.0@);
    vstd::seq_lib::lemma_seq_contains_after_push(kept, last, tokens[i]);
    if i < tokens.len() - 1 {
        let front: Seq<(String, String)> = tokens.drop_last();
        assert forall|j: int| i < j < front.len() implies (#[trigger] front[j]).0@ != front[i].0@ by {
            assert(front[j] == tokens[j]);
        }
        law_last_token_counts(front, i);
        assert(tokens[tokens.len() - 1].0@ != tokens[i].0@);
        lemma_without(latest_tokens(front), last.0@, tokens[i]);
    }
}

impl HubAuth {
    /// A node that is named twice has the token that comes later.
    pub fn new(master_token: String, node_tokens: Vec<(String, String)>) -> (r: Self)
        ensures
            r.master_token == master_token,
            r.node_tokens@ == latest_tokens(node_tokens@),
    {
        let mut latest: Vec<(String, String)> = Vec::new();
        for i in 0..node_tokens.len()
            invariant
                latest@ == latest_tokens(node_tokens@.take(i as int)),
        {
            assert(node_tokens@.take(i + 1).drop_last() =~= node_tokens@.take(i as int));
            assert(node_tokens@.take(i + 1).last() == node_tokens@[i as int]);
            latest = remove_node(&latest, node_tokens[i].0.as_str());
            latest.push((node_tokens[i].0.clone(), node_tokens[i].1.clone()));
        }
        assert(node_tokens@.take(node_tokens@.len() as int) =~= node_tokens@);
        HubAuth { master_token, node_tokens: latest }
    }

    /// Who sends a request with this authorization header: `Some(None)` with the master
    /// token, `Some(Some(node))` with the token of a node, `None` with neither.
    pub fn authenticate(&self, provided: Option<&str>) -> (r: Option<Option<String>>)
        ensures
            ({
                let token: Seq<char> = match provided {
                    Some(h) => bearer_token(h@),
                    None => Seq::empty(),
                };
                if provided is None || token.len() == 0 {
                    r is None
                } else if token == self.master_token@ {
                    r is Some && r->0 is None
                } else {
                    match token_owner(self.node_tokens@, token) {
                        Some(node) => r is Some && r->0 is Some && r->0->0@ == node,
                        None => r is None,
                    }
                }
            }),
    {
        let token: String = match provided {
            Some(h) => strip_bearer(h),
            None => {
                return None;
            },
        };
        if token.as_str().is_empty() {
            return None;
        }
        if constant_time_eq(token.as_str(), self.master_token.as_str()) {
            return Some(None);
        }
        let mut matched: Option<String> = None;
        for i in 0..self.node_tokens.len()
            invariant
                match matched {
                    Some(node) => token_owner(self.node_tokens@.take(i as int), token@) == Some(
                        node@,
                    ),
                    None => token_owner(self.node_tokens@.take(i as int), token@) is None,
                },
        {
            assert(self.node_tokens@.take(i + 1).drop_last() == self.node_tokens@.take(i as int));
            assert(self.node_tokens@.take(i + 1).last() == self.node_tokens@[i as int]);
            if constant_time_eq(token.as_str(), self.node_tokens[i].1.as_str()) {
                matched = Some(self.node_tokens[i].0.clone());
            }
        }
        assert(self.node_tokens@.take(self.node_tokens@.len() as int) == self.node_tokens@);
        match matched {
            Some(node) => Some(Some(node)),
            None => None,
        }
    }
}

/// Who sent a request; `None` with the master token.
pub struct NodeIdentity(pub Option<String>);

impl NodeIdentity {
    /// The node that a request is booked to: the one whose token came with it, so that a
    /// node cannot speak for another; with the master token the one that it names.
    pub fn effective_name(&self, claimed: &str) -> (r: String)
        ensures
            r@ == (match self.0 {
                Some(node) => node@,
                None => claimed@,
            }),
    {
        match &self.0 {
            Some(node) => node.clone(),
            None => claimed.to_string(),
        }
    }
}

/// The name and token on a line `name:token`; none on a blank line, on one that starts
/// with `#`, and on one without a colon, name or token.
pub open spec fn token_line(line: Seq<char>) -> Option<(Seq<char>, Seq<char>)> {
    let s: Seq<char> = trimmed(line);
    let i: int = first_at(s, ':');
    if s.len() == 0 || s[0] == '#' || i >= s.len() {
        None
    } else {
        let name: Seq<char> = trimmed(s.take(i));
        let token: Seq<char> = trimmed(s.skip(i + 1));
        if name.len() == 0 || token.len() == 0 {
            None
        } else {
            Some((name, token))
        }
    }
}

/// The tokens on several lines, in order.
pub open spec fn token_lines(lines: Seq<Seq<char>>) -> Seq<(Seq<char>, Seq<char>)>
    decreases lines.len(),
{
    if lines.len() == 0 {
        Seq::empty()
    } else {
        match token_line(lines.last()) {
            Some(t) => token_lines(lines.drop_last()).push(t),
            None => token_lines(lines.drop_last()),
        }
    }
}

pub open spec fn pair_views(v: Seq<(String, String)>) -> Seq<(Seq<char>, Seq<char>)> {
    v.map_values(|p: (String, String)| (p.0@, p.1@))
}

fn parse_token_line(line: &Vec<char>) -> (r: Option<(String, String)>)
    ensures
        match r {
            Some(p) => token_line(line@) == Some((p.0@, p.1@)),
            None => token_line(line@) is None,
        },
{
    let s: Vec<char> = trim(line);
    if s.len() == 0 || s[0] == '#' {
        return None;
    }
    let i: usize = find_char(&s, ':');
    if i >= s.len() {
        return None;
    }
    let a: Vec<char> = slice_of(&s, 0, i);
    let b: Vec<char> = slice_of(&s, i + 1, s.len());
    assert(a@ == s@.take(i as int));
    assert(b@ == s@.skip(i + 1));
    let name: Vec<char> = trim(&a);
    let token: Vec<char> = trim(&b);
    if name.len() == 0 || token.len() == 0 {
        return None;
    }
    Some((text_of(&name), text_of(&token)))
}

/// Reads a file of node tokens: lines `name:token`, with blank lines and comments.
pub fn parse_node_tokens(text: &str) -> (r: Vec<(String, String)>)
    ensures
        pair_views(r@) == token_lines(lines_of(text@)),
{
    let all: Vec<Vec<char>> = lines(&chars_of(text));
    let ghost seen = views(all@);
    let mut out: Vec<(String, String)> = Vec::new();
    assert(pair_views(out@) =~= token_lines(seen.take(0)));
    for i in 0..all.len()
        invariant
            seen == views(all@),
            pair_views(out@) == token_lines(seen.take(i as int)),
    {
        assert(seen[i as int] == all@[i as int]@);
        assert(seen.take(i + 1).drop_last() == seen.take(i as int));
        assert(seen.take(i + 1).last() == all@[i as int]@);
        let ghost before = pair_views(out@);
        if let Some(p) = parse_token_line(&all[i]) {
            let ghost view = (p.0@, p.1@);
            out.push(p);
            assert(pair_views(out@) =~= before.push(view));
        }
    }
    assert(seen.take(seen.len() as int) == seen);
    out
}

} // verus!
