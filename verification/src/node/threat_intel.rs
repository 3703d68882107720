//! Blocking and allowing by lists from outside.

use crate::common::IpKey;
use crate::feed::is_json_like;
use crate::feed::json_entries;
use crate::feed::key_view;
use crate::feed::key_views;
use crate::feed::looks_like_json;
use crate::feed::read_json;
use crate::feed::read_text;
use crate::feed::text_entries;
use crate::feed::FeedError;
use crate::ip::cidr_value;
use crate::ip::ip_value;
use crate::ip::parse_cidr;
use crate::ip::parse_ip;
use crate::node::config::ThreatFeed;
use crate::outside::json_valid;
use crate::text::same_text;
use crate::text::texts;
use vstd::prelude::*;

verus! {

/// The key of an entry: its address, or the address of its network.
pub open spec fn entry_key(s: Seq<char>) -> Option<(u8, Seq<u8>)> {
    match ip_value(s) {
        Some(a) => Some(a),
        None => match cidr_value(s) {
            Ok(n) => Some((n.0, n.1)),
            Err(_) => None,
        },
    }
}

/// The keys of the entries that have one, in order.
pub open spec fn entry_keys(list: Seq<Seq<char>>) -> Seq<(u8, Seq<u8>)>
    decreases list.len(),
{
    if list.len() == 0 {
        Seq::empty()
    } else {
        match entry_key(list.last()) {
            Some(k) => entry_keys(list.drop_last()).push(k),
            None => entry_keys(list.drop_last()),
        }
    }
}

/// Adds the key of an entry; an entry that is neither address nor network is skipped.
pub fn add_ip(out: &mut Vec<IpKey>, s: &str)
    ensures
        key_views(final(out)@) == (match entry_key(s@) {
            Some(k) => key_views(old(out)@).push(k),
            None => key_views(old(out)@),
        }),
{
    let ghost before = key_views(out@);
    if let Ok(k) = parse_ip(s) {
        out.push(k);
        assert(key_views(out@) =~= before.push(key_view(k)));
        return;
    }
    if let Ok(n) = parse_cidr(s) {
        out.push(n.0);
        assert(key_views(out@) =~= before.push(key_view(n.0)));
    }
}

/// The keys of several entries.
pub fn collect_keys(list: &Vec<String>) -> (r: Vec<IpKey>)
    ensures
        key_views(r@) == entry_keys(texts(list@)),
{
    let ghost all = texts(list@);
    let mut out: Vec<IpKey> = Vec::new();
    assert(key_views(out@) =~= entry_keys(all.take(0)));
    for i in 0..list.len()
        invariant
            all == texts(list@),
            key_views(out@) == entry_keys(all.take(i as int)),
    {
        assert(all.take(i + 1).drop_last() == all.take(i as int));
        assert(all.take(i + 1).last() == list@[i as int]@);
        add_ip(&mut out, list[i].as_str());
    }
    assert(all.take(all.len() as int) == all);
    out
}

/// The keys of a plain list.
pub fn parse_text_feed(text: &str) -> (r: Vec<IpKey>)
    ensures
        key_views(r@) == entry_keys(text_entries(text@)),
{
    collect_keys(&read_text(text))
}

/// The keys of a JSON list.
pub fn parse_json_feed(text: &str) -> (r: Result<Vec<IpKey>, FeedError>)
    ensures
        match r {
            Ok(v) => json_valid(text@) && key_views(v@) == entry_keys(json_entries(text@)),
            Err(e) => !json_valid(text@) && e == FeedError::Json,
        },
{
    match read_json(text) {
        Ok(list) => Ok(collect_keys(&list)),
        Err(e) => Err(e),
    }
}

/// The keys of a list: JSON where it looks like JSON, else plain text.
pub fn parse_feed(text: &str) -> (r: Result<Vec<IpKey>, FeedError>)
    ensures
        match r {
            Ok(v) => if looks_like_json(text@) {
                json_valid(text@) && key_views(v@) == entry_keys(json_entries(text@))
            } else {
                key_views(v@) == entry_keys(text_entries(text@))
            },
            Err(e) => looks_like_json(text@) && !json_valid(text@) && e == FeedError::Json,
        },
{
    if is_json_like(text) {
        parse_json_feed(text)
    } else {
        Ok(parse_text_feed(text))
    }
}

/// The network of a single host.
pub open spec fn host_prefix(family: u8) -> u32 {
    if family == 4 {
        32
    } else {
        128
    }
}

/// Each key with the prefix of a single host.
pub fn entries_cidr(entries: &Vec<IpKey>) -> (r: Vec<(IpKey, u32)>)
    ensures
        r@ == entries@.map_values(|k: IpKey| (k, host_prefix(k.family))),
{
    let mut out: Vec<(IpKey, u32)> = Vec::new();
    for i in 0..entries.len()
        invariant
            out@ == entries@.take(i as int).map_values(|k: IpKey| (k, host_prefix(k.family))),
    {
        let k: IpKey = entries[i];
        let prefix: u32 = if k.family == 4 {
            32
        } else {
            128
        };
        out.push((k, prefix));
        assert(out@ =~= entries@.take(i + 1).map_values(
            |k: IpKey| (k, host_prefix(k.family)),
        ));
    }
    assert(entries@.take(entries@.len() as int) == entries@);
    out
}

/// What a feed asks for.
pub enum FeedPlan {
    /// Block these addresses for so many seconds.
    Block(Vec<IpKey>, u64),
    /// Let these networks through.
    Allow(Vec<(IpKey, u32)>),
    /// The feed names no known action.
    Unsupported,
}

/// For how long an address from a feed is blocked: three times the interval at which the
/// feed is read, and at least an hour, so that it lasts until the next reading.
pub open spec fn feed_block_s(interval_s: u64) -> u64 {
    let d: int = interval_s * 3;
    if d < 3600 {
        3600
    } else if d > u64::MAX {
        u64::MAX
    } else {
        d as u64
    }
}

/// What is to be done with the entries of a feed.
pub fn plan_feed(feed: &ThreatFeed, entries: Vec<IpKey>) -> (r: FeedPlan)
    ensures
        match r {
            FeedPlan::Block(keys, seconds) => feed.action@ == "drop"@ && keys == entries && seconds
                == feed_block_s(feed.interval_s),
            FeedPlan::Allow(nets) => feed.action@ != "drop"@ && feed.action@ == "allow"@ && nets@
                == entries@.map_values(|k: IpKey| (k, host_prefix(k.family))),
            FeedPlan::Unsupported => feed.action@ != "drop"@ && feed.action@ != "allow"@,
        },
{
    if same_text(feed.action.as_str(), "drop") {
        let wide: u64 = if feed.interval_s > u64::MAX / 3 {
            u64::MAX
        } else {
            feed.interval_s * 3
        };
        let seconds: u64 = if wide < 3600 {
            3600
        } else {
            wide
        };
        FeedPlan::Block(entries, seconds)
    } else if same_text(feed.action.as_str(), "allow") {
        FeedPlan::Allow(entries_cidr(&entries))
    } else {
        FeedPlan::Unsupported
    }
}

} // verus!
