//! Lists of addresses from outside: plain text, CSV or JSON.

use crate::common::IpKey;
use crate::outside::json_array;
use crate::outside::json_is_valid;
use crate::outside::json_items;
use crate::outside::json_str;
use crate::outside::json_string;
use crate::outside::json_valid;
use crate::text::chars_of;
use crate::text::lines;
use crate::text::lines_of;
use crate::text::split;
use crate::text::split_on;
use crate::text::text_of;
use crate::text::texts;
use crate::text::trim;
use crate::text::trimmed;
use crate::text::views;
use vstd::prelude::*;

verus! {

/// Why a list could not be read.
#[derive(Clone, Copy, Debug, PartialEq, Eq, Structural)]
pub enum FeedError {
    /// It looks like JSON and is not.
    Json,
}

/// The address on a line: its first column. A blank line, a comment and an empty column
/// have none.
pub open spec fn line_entry(line: Seq<char>) -> Option<Seq<char>> {
    let s: Seq<char> = trimmed(line);
    let column: Seq<char> = trimmed(split_on(s, ',')[0]);
    if s.len() == 0 || s[0] == '#' || column.len() == 0 {
        None
    } else {
        Some(column)
    }
}

/// What is there in a list of which some places are empty, in order.
pub open spec fn somes(list: Seq<Option<Seq<char>>>) -> Seq<Seq<char>>
    decreases list.len(),
{
    if list.len() == 0 {
        Seq::empty()
    } else {
        match list.last() {
            Some(s) => somes(list.drop_last()).push(s),
            None => somes(list.drop_last()),
        }
    }
}

/// The addresses on the lines of a text, in order.
pub open spec fn text_entries(text: Seq<char>) -> Seq<Seq<char>> {
    somes(lines_of(text).map_values(|l: Seq<char>| line_entry(l)))
}

fn parse_line(line: &Vec<char>) -> (r: Option<String>)
    ensures
        match r {
            Some(s) => line_entry(line@) == Some(s@),
            None => line_entry(line@) is None,
        },
{
    let s: Vec<char> = trim(line);
    if s.len() == 0 || s[0] == '#' {
        return None;
    }
    let columns: Vec<Vec<char>> = split(&s, ',');
    assert(views(columns@)[0] == columns@[0]@);
    let column: Vec<char> = trim(&columns[0]);
    if column.len() == 0 {
        return None;
    }
    Some(text_of(&column))
}

/// The addresses of a plain list.
pub fn read_text(text: &str) -> (r: Vec<String>)
    ensures
        texts(r@) == text_entries(text@),
{
    let all: Vec<Vec<char>> = lines(&chars_of(text));
    let ghost found = views(all@).map_values(|l: Seq<char>| line_entry(l));
    let mut out: Vec<String> = Vec::new();
    assert(texts(out@) =~= somes(found.take(0)));
    for i in 0..all.len()
        invariant
            found == views(all@).map_values(|l: Seq<char>| line_entry(l)),
            texts(out@) == somes(found.take(i as int)),
    {
        assert(found[i as int] == line_entry(all@[i as int]@));
        assert(found.take(i + 1).drop_last() == found.take(i as int));
        assert(found.take(i + 1).last() == found[i as int]);
        let ghost before = texts(out@);
        if let Some(s) = parse_line(&all[i]) {
            let ghost view = s@;
            out.push(s);
            assert(texts(out@) =~= before.push(view));
        }
    }
    assert(found.take(found.len() as int) == found);
    out
}

/// What optional texts hold.
pub open spec fn optional_texts(v: Seq<Option<String>>) -> Seq<Option<Seq<char>>> {
    v.map_values(
        |o: Option<String>|
            match o {
                Some(s) => Some(s@),
                None => None,
            },
    )
}

/// What is there of two lists, the first before the second.
pub fn gather(first: &Vec<Option<String>>, second: &Vec<Option<String>>) -> (r: Vec<String>)
    ensures
        texts(r@) == somes(optional_texts(first@)) + somes(optional_texts(second@)),
{
    let mut out: Vec<String> = Vec::new();
    let ghost none = Seq::<Seq<char>>::empty();
    assert(texts(out@) =~= none);
    gather_into(&mut out, first);
    assert(none + somes(optional_texts(first@)) =~= somes(optional_texts(first@)));
    gather_into(&mut out, second);
    out
}

fn gather_into(out: &mut Vec<String>, list: &Vec<Option<String>>)
    ensures
        texts(final(out)@) == texts(old(out)@) + somes(optional_texts(list@)),
{
    let ghost start = texts(out@);
    let ghost all = optional_texts(list@);
    assert(texts(out@) =~= start + somes(all.take(0)));
    for i in 0..list.len()
        invariant
            all == optional_texts(list@),
            texts(out@) == start + somes(all.take(i as int)),
    {
        assert(all.take(i + 1).drop_last() == all.take(i as int));
        assert(all.take(i + 1).last() == all[i as int]);
        let ghost before = texts(out@);
        if let Some(s) = &list[i] {
            out.push(s.clone());
            assert(texts(out@) =~= before.push(s@));
            assert(start + somes(all.take(i as int)).push(s@) =~= before.push(s@));
        }
    }
    assert(all.take(all.len() as int) == all);
}

/// The address in an item of a JSON object's `data` array.
pub open spec fn data_entry(item: Seq<char>) -> Option<Seq<char>> {
    json_string(item, "/ipAddress"@)
}

/// The address in an item of a JSON array: the item itself where it is a string, else its
/// `ip`.
pub open spec fn item_entry(item: Seq<char>) -> Option<Seq<char>> {
    match json_string(item, ""@) {
        Some(s) => Some(s),
        None => json_string(item, "/ip"@),
    }
}

/// The places of an array, or none where there is no array.
pub open spec fn items_or_none(items: Option<Seq<Seq<char>>>) -> Seq<Seq<char>> {
    match items {
        Some(v) => v,
        None => Seq::empty(),
    }
}

/// The addresses in a JSON text: those under `data`, then those of the text where it is an
/// array.
pub open spec fn json_entries(text: Seq<char>) -> Seq<Seq<char>> {
    somes(
        items_or_none(json_items(text, "/data"@)).map_values(|i: Seq<char>| data_entry(i)),
    ) + somes(items_or_none(json_items(text, ""@)).map_values(|i: Seq<char>| item_entry(i)))
}

fn data_entries(text: &str) -> (r: Vec<Option<String>>)
    ensures
        optional_texts(r@) == items_or_none(json_items(text@, "/data"@)).map_values(
            |i: Seq<char>| data_entry(i),
        ),
{
    let mut out: Vec<Option<String>> = Vec::new();
    let ghost all = items_or_none(json_items(text@, "/data"@)).map_values(
        |i: Seq<char>| data_entry(i),
    );
    if let Some(items) = json_array(text, "/data") {
        for i in 0..items.len()
            invariant
                all == texts(items@).map_values(|i: Seq<char>| data_entry(i)),
                optional_texts(out@) == all.take(i as int),
        {
            let ghost before = optional_texts(out@);
            assert(all[i as int] == data_entry(items@[i as int]@));
            out.push(json_str(items[i].as_str(), "/ipAddress"));
            assert(optional_texts(out@) =~= before.push(all[i as int]));
            assert(all.take(i + 1) =~= all.take(i as int).push(all[i as int]));
        }
    }
    assert(optional_texts(out@) =~= all);
    out
}

fn array_entries(text: &str) -> (r: Vec<Option<String>>)
    ensures
        optional_texts(r@) == items_or_none(json_items(text@, ""@)).map_values(
            |i: Seq<char>| item_entry(i),
        ),
{
    let mut out: Vec<Option<String>> = Vec::new();
    let ghost all = items_or_none(json_items(text@, ""@)).map_values(|i: Seq<char>| item_entry(i));
    if let Some(items) = json_array(text, "") {
        for i in 0..items.len()
            invariant
                all == texts(items@).map_values(|i: Seq<char>| item_entry(i)),
                optional_texts(out@) == all.take(i as int),
        {
            let ghost before = optional_texts(out@);
            assert(all[i as int] == item_entry(items@[i as int]@));
            let entry: Option<String> = match json_str(items[i].as_str(), "") {
                Some(s) => Some(s),
                None => json_str(items[i].as_str(), "/ip"),
            };
            out.push(entry);
            assert(optional_texts(out@) =~= before.push(all[i as int]));
            assert(all.take(i + 1) =~= all.take(i as int).push(all[i as int]));
        }
    }
    assert(optional_texts(out@) =~= all);
    out
}

/// The addresses of a JSON list.
pub fn read_json(text: &str) -> (r: Result<Vec<String>, FeedError>)
    ensures
        match r {
            Ok(v) => json_valid(text@) && texts(v@) == json_entries(text@),
            Err(e) => !json_valid(text@) && e == FeedError::Json,
        },
{
    if !json_is_valid(text) {
        return Err(FeedError::Json);
    }
    let data: Vec<Option<String>> = data_entries(text);
    let array: Vec<Option<String>> = array_entries(text);
    Ok(gather(&data, &array))
}

/// The text looks like JSON: it starts with a bracket or a brace.
pub open spec fn looks_like_json(text: Seq<char>) -> bool {
    let s: Seq<char> = trimmed(text);
    s.len() > 0 && (s[0] == '[' || s[0] == '{')
}

pub fn is_json_like(text: &str) -> (r: bool)
    ensures
        r == looks_like_json(text@),
{
    let s: Vec<char> = trim(&chars_of(text));
    s.len() > 0 && (s[0] == '[' || s[0] == '{')
}

/// Family and octets of a key.
pub open spec fn key_view(k: IpKey) -> (u8, Seq<u8>) {
    (k.family, k.addr@)
}

pub open spec fn key_views(v: Seq<IpKey>) -> Seq<(u8, Seq<u8>)> {
    v.map_values(|k: IpKey| key_view(k))
}

} // verus!
