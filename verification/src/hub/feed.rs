//! Policies from lists of addresses that the hub reads for all nodes.

use crate::common::IpKey;
use crate::feed::is_json_like;
use crate::feed::json_entries;
use crate::feed::key_view;
use crate::feed::key_views;
use crate::feed::looks_like_json;
use crate::feed::read_json;
use crate::feed::read_text;
use crate::feed::text_entries;
use crate::feed::FeedError;
use crate::hub::models::NodePolicy;
use crate::ip::ip_value;
use crate::ip::parse_ip;
use crate::outside::json_valid;
use crate::rules;
use crate::text::chars_of;
use crate::text::find_char;
use crate::text::first_at;
use crate::text::same_text;
use crate::text::slice_of;
use crate::text::text_of;
use crate::text::texts;
use vstd::prelude::*;

verus! {

/// A list that the hub reads.
#[derive(Clone, Debug)]
pub struct FeedConfig {
    pub name: String,
    pub url: String,
    pub interval_s: u64,
    pub action: String,
    pub ttl_s: u64,
}

/// An entry without its prefix length.
pub open spec fn without_prefix(s: Seq<char>) -> Seq<char> {
    s.take(first_at(s, '/'))
}

/// The addresses among entries, in order; others are skipped.
pub open spec fn address_keys(list: Seq<Seq<char>>) -> Seq<(u8, Seq<u8>)>
    decreases list.len(),
{
    if list.len() == 0 {
        Seq::empty()
    } else {
        match ip_value(list.last()) {
            Some(k) => address_keys(list.drop_last()).push(k),
            None => address_keys(list.drop_last()),
        }
    }
}

fn add_ip(out: &mut Vec<IpKey>, s: &str)
    ensures
        key_views(final(out)@) == (match ip_value(s@) {
            Some(k) => key_views(old(out)@).push(k),
            None => key_views(old(out)@),
        }),
{
    let ghost before = key_views(out@);
    if let Ok(k) = parse_ip(s) {
        out.push(k);
        assert(key_views(out@) =~= before.push(key_view(k)));
    }
}

fn cut_prefix(s: &str) -> (r: String)
    ensures
        r@ == without_prefix(s@),
{
    let v: Vec<char> = chars_of(s);
    let i: usize = find_char(&v, '/');
    let head: Vec<char> = slice_of(&v, 0, i);
    assert(head@ == s@.take(i as int));
    text_of(&head)
}

/// The addresses of a plain list; of a network the address it is written with.
pub fn parse_text_feed(text: &str) -> (r: Vec<IpKey>)
    ensures
        key_views(r@) == address_keys(
            text_entries(text@).map_values(|s: Seq<char>| without_prefix(s)),
        ),
{
    let list: Vec<String> = read_text(text);
    let ghost all = texts(list@).map_values(|s: Seq<char>| without_prefix(s));
    let mut out: Vec<IpKey> = Vec::new();
    assert(key_views(out@) =~= address_keys(all.take(0)));
    for i in 0..list.len()
        invariant
            all == texts(list@).map_values(|s: Seq<char>| without_prefix(s)),
            key_views(out@) == address_keys(all.take(i as int)),
    {
        assert(all.take(i + 1).drop_last() == all.take(i as int));
        assert(all.take(i + 1).last() == without_prefix(list@[i as int]@));
        add_ip(&mut out, cut_prefix(list[i].as_str()).as_str());
    }
    assert(all.take(all.len() as int) == all);
    out
}

/// The addresses among texts.
pub fn collect_addresses(list: &Vec<String>) -> (r: Vec<IpKey>)
    ensures
        key_views(r@) == address_keys(texts(list@)),
{
    let ghost all = texts(list@);
    let mut out: Vec<IpKey> = Vec::new();
    assert(key_views(out@) =~= address_keys(all.take(0)));
    for i in 0..list.len()
        invariant
            all == texts(list@),
            key_views(out@) == address_keys(all.take(i as int)),
    {
        assert(all.take(i + 1).drop_last() == all.take(i as int));
        assert(all.take(i + 1).last() == list@[i as int]@);
        add_ip(&mut out, list[i].as_str());
    }
    assert(all.take(all.len() as int) == all);
    out
}

/// The addresses of a JSON list.
pub fn parse_json_feed(text: &str) -> (r: Result<Vec<IpKey>, FeedError>)
    ensures
        match r {
            Ok(v) => json_valid(text@) && key_views(v@) == address_keys(json_entries(text@)),
            Err(e) => !json_valid(text@) && e == FeedError::Json,
        },
{
    match read_json(text) {
        Ok(list) => Ok(collect_addresses(&list)),
        Err(e) => Err(e),
    }
}

/// The addresses of a list: JSON where it looks like JSON, else plain text.
pub fn parse_feed(text: &str) -> (r: Result<Vec<IpKey>, FeedError>)
    ensures
        match r {
            Ok(v) => if looks_like_json(text@) {
                json_valid(text@) && key_views(v@) == address_keys(json_entries(text@))
            } else {
                key_views(v@) == address_keys(
                    text_entries(text@).map_values(|s: Seq<char>| without_prefix(s)),
                )
            },
            Err(e) => looks_like_json(text@) && !json_valid(text@) && e == FeedError::Json,
        },
{
    if is_json_like(text) {
        parse_json_feed(text)
    } else {
        Ok(parse_text_feed(text))
    }
}

/// The policy of an address from a list.
pub open spec fn feed_policy(ip: IpKey, ttl_s: u64) -> NodePolicy {
    NodePolicy {
        ip,
        reason: rules::THREAT_INTEL as u8,
        hit_count: 1,
        trust_score: 0,
        blocked_until_ns: 0,
        ttl_s,
    }
}

/// The policies of a list's addresses; none unless the list is one of addresses to drop.
pub fn feed_policies(config: &FeedConfig, entries: &Vec<IpKey>) -> (r: Vec<NodePolicy>)
    ensures
        r@ == (if config.action@ == "drop"@ {
            entries@.map_values(|ip: IpKey| feed_policy(ip, config.ttl_s))
        } else {
            Seq::empty()
        }),
{
    let mut out: Vec<NodePolicy> = Vec::new();
    if !same_text(config.action.as_str(), "drop") {
        return out;
    }
    let ttl_s: u64 = config.ttl_s;
    for i in 0..entries.len()
        invariant
            out@ == entries@.take(i as int).map_values(|ip: IpKey| feed_policy(ip, ttl_s)),
    {
        out.push(
            NodePolicy {
                ip: entries[i],
                reason: rules::THREAT_INTEL as u8,
                hit_count: 1,
                trust_score: 0,
                blocked_until_ns: 0,
                ttl_s,
            },
        );
        assert(out@ =~= entries@.take(i + 1).map_values(|ip: IpKey| feed_policy(ip, ttl_s)));
    }
    assert(entries@.take(entries@.len() as int) == entries@);
    assert(out@ =~= entries@.map_values(|ip: IpKey| feed_policy(ip, config.ttl_s)));
    out
}

} // verus!
