//! What a list from outside gives, told from the text of the list.

use crate::feed::json_entries;
use crate::feed::line_entry;
use crate::feed::somes;
use crate::feed::text_entries;
use crate::hub::feed::address_keys;
use crate::hub::feed::without_prefix;
use crate::ip::cidr_value;
use crate::ip::ip_value;
use crate::node::threat_intel::entry_keys;
use crate::outside::json_items;
use crate::outside::json_string;
use crate::text::first_at;
use crate::text::is_space;
use crate::text::lemma_first_at;
use crate::text::lemma_first_at_is;
use crate::text::lines_of;
use crate::text::split_on;
use crate::text::strip_cr;
use crate::text::trim_end;
use crate::text::trim_start;
use crate::text::trimmed;
use vstd::prelude::*;

verus! {

/// What is there comes from a place that is not empty, and every such place gives its own.
proof fn lemma_somes(list: Seq<Option<Seq<char>>>, s: Seq<char>)
    ensures
        somes(list).contains(s) <==> list.contains(Some(s)),
    decreases list.len(),
{
    if list.len() > 0 {
        let front: Seq<Option<Seq<char>>> = list.drop_last();
        lemma_somes(front, s);
        let n: int = list.len() - 1;
        if list.contains(Some(s)) && list.last() != Some(s) {
            let i: int = list.index_of(Some(s));
            assert(front[i] == Some(s));
        }
        if front.contains(Some(s)) {
            let i: int = front.index_of(Some(s));
            assert(list[i] == Some(s));
        }
        match list.last() {
            Some(t) => {
                let r: Seq<Seq<char>> = somes(front).push(t);
                assert(r.last() == t);
                if somes(front).contains(s) {
                    let i: int = somes(front).index_of(s);
                    assert(r[i] == s);
                }
                if r.contains(s) && s != t {
                    let i: int = r.index_of(s);
                    assert(somes(front)[i] == s);
                }
                if s == t {
                    assert(list[n] == Some(s));
                }
            },
            None => {},
        }
    }
}

/// What is there of two lists one after the other is what is there of each.
proof fn lemma_somes_join(a: Seq<Option<Seq<char>>>, b: Seq<Option<Seq<char>>>)
    ensures
        somes(a + b) == somes(a) + somes(b),
    decreases b.len(),
{
    if b.len() == 0 {
        assert(a + b =~= a);
        assert(somes(a) + somes(b) =~= somes(a));
    } else {
        lemma_somes_join(a, b.drop_last());
        assert((a + b).drop_last() =~= a + b.drop_last());
        assert((a + b).last() == b.last());
        match b.last() {
            Some(s) => {
                assert((somes(a) + somes(b.drop_last())).push(s) =~= somes(a) + somes(
                    b.drop_last(),
                ).push(s));
            },
            None => {},
        }
    }
}

proof fn lemma_joined_contains(a: Seq<Seq<char>>, b: Seq<Seq<char>>, s: Seq<char>)
    ensures
        (a + b).contains(s) <==> a.contains(s) || b.contains(s),
{
    if a.contains(s) {
        let i: int = a.index_of(s);
        assert((a + b)[i] == s);
    }
    if b.contains(s) {
        let i: int = b.index_of(s);
        assert((a + b)[a.len() + i] == s);
    }
}

/// Where an item of the text's array is itself a string, the string is an entry.
pub proof fn law_listed_string_is_an_entry(
    text: Seq<char>,
    items: Seq<Seq<char>>,
    i: int,
    s: Seq<char>,
)
    requires
        json_items(text, ""@) == Some(items),
        0 <= i < items.len(),
        json_string(items[i], ""@) == Some(s),
    ensures
        json_entries(text).contains(s),
{
    lemma_array_entry(text, items, i, s);
}

/// Where an item of the text's array is no string and has a string under `ip`, that string
/// is an entry.
pub proof fn law_listed_object_gives_its_ip(
    text: Seq<char>,
    items: Seq<Seq<char>>,
    i: int,
    s: Seq<char>,
)
    requires
        json_items(text, ""@) == Some(items),
        0 <= i < items.len(),
        json_string(items[i], ""@) is None,
        json_string(items[i], "/ip"@) == Some(s),
    ensures
        json_entries(text).contains(s),
{
    lemma_array_entry(text, items, i, s);
}

proof fn lemma_array_entry(text: Seq<char>, items: Seq<Seq<char>>, i: int, s: Seq<char>)
    requires
        json_items(text, ""@) == Some(items),
        0 <= i < items.len(),
        crate::feed::item_entry(items[i]) == Some(s),
    ensures
        json_entries(text).contains(s),
{
    let data: Seq<Option<Seq<char>>> = crate::feed::items_or_none(
        json_items(text, "/data"@),
    ).map_values(|i: Seq<char>| crate::feed::data_entry(i));
    let array: Seq<Option<Seq<char>>> = items.map_values(
        |i: Seq<char>| crate::feed::item_entry(i),
    );
    assert(array[i] == Some(s));
    lemma_somes(array, s);
    lemma_joined_contains(somes(data), somes(array), s);
}

/// Where an item under `data` has a string under `ipAddress`, that string is an entry.
pub proof fn law_data_item_gives_its_address(
    text: Seq<char>,
    items: Seq<Seq<char>>,
    i: int,
    s: Seq<char>,
)
    requires
        json_items(text, "/data"@) == Some(items),
        0 <= i < items.len(),
        json_string(items[i], "/ipAddress"@) == Some(s),
    ensures
        json_entries(text).contains(s),
{
    let data: Seq<Option<Seq<char>>> = items.map_values(
        |i: Seq<char>| crate::feed::data_entry(i),
    );
    let array: Seq<Option<Seq<char>>> = crate::feed::items_or_none(
        json_items(text, ""@),
    ).map_values(|i: Seq<char>| crate::feed::item_entry(i));
    assert(data[i] == Some(s));
    lemma_somes(data, s);
    lemma_joined_contains(somes(data), somes(array), s);
}

/// The item at `i` of the array at `at` has the string `s` under `name`.
pub open spec fn written_at(
    text: Seq<char>,
    at: Seq<char>,
    name: Seq<char>,
    s: Seq<char>,
    i: int,
) -> bool {
    match json_items(text, at) {
        Some(items) => 0 <= i < items.len() && json_string(items[i], name) == Some(s),
        None => false,
    }
}

/// The array at `at` has an item with the string `s` under `name`.
pub open spec fn is_written(text: Seq<char>, at: Seq<char>, name: Seq<char>, s: Seq<char>) -> bool {
    exists|i: int| #[trigger] written_at(text, at, name, s, i)
}

/// A JSON list has no entries but the strings of its array, the `ip` of its objects and
/// the `ipAddress` of the objects under `data`.
pub proof fn law_json_list_has_no_other_entries(text: Seq<char>, s: Seq<char>)
    requires
        json_entries(text).contains(s),
    ensures
        is_written(text, ""@, ""@, s) || is_written(text, ""@, "/ip"@, s) || is_written(
            text,
            "/data"@,
            "/ipAddress"@,
            s,
        ),
{
    let data: Seq<Option<Seq<char>>> = crate::feed::items_or_none(
        json_items(text, "/data"@),
    ).map_values(|i: Seq<char>| crate::feed::data_entry(i));
    let array: Seq<Option<Seq<char>>> = crate::feed::items_or_none(
        json_items(text, ""@),
    ).map_values(|i: Seq<char>| crate::feed::item_entry(i));
    lemma_somes(data, s);
    lemma_somes(array, s);
    lemma_joined_contains(somes(data), somes(array), s);
    if data.contains(Some(s)) {
        let i: int = data.index_of(Some(s));
        assert(written_at(text, "/data"@, "/ipAddress"@, s, i));
    } else {
        let i: int = array.index_of(Some(s));
        assert(written_at(text, ""@, ""@, s, i) || written_at(text, ""@, "/ip"@, s, i));
    }
}

/// The text is an address, or a network that starts with the address.
pub open spec fn names(s: Seq<char>, k: (u8, Seq<u8>)) -> bool {
    ip_value(s) == Some(k) || match cidr_value(s) {
        Ok(n) => (n.0, n.1) == k,
        Err(_) => false,
    }
}

proof fn lemma_entry_keys(list: Seq<Seq<char>>, k: (u8, Seq<u8>))
    ensures
        entry_keys(list).contains(k) <==> exists|i: int|
            0 <= i < list.len() && crate::node::threat_intel::entry_key(#[trigger] list[i])
                == Some(k),
    decreases list.len(),
{
    if list.len() > 0 {
        let front: Seq<Seq<char>> = list.drop_last();
        let n: int = list.len() - 1;
        lemma_entry_keys(front, k);
        assert(forall|i: int| 0 <= i < n ==> front[i] == #[trigger] list[i]);
        assert(list[n] == list.last());
        let before: Seq<(u8, Seq<u8>)> = entry_keys(front);
        match crate::node::threat_intel::entry_key(list.last()) {
            Some(t) => {
                let r: Seq<(u8, Seq<u8>)> = before.push(t);
                assert(r.last() == t);
                if before.contains(k) {
                    assert(r[before.index_of(k)] == k);
                }
                if r.contains(k) && k != t {
                    assert(before[r.index_of(k)] == k);
                }
            },
            None => {},
        }
        if before.contains(k) {
            let i: int = choose|i: int|
                0 <= i < front.len() && crate::node::threat_intel::entry_key(#[trigger] front[i])
                    == Some(k);
            assert(list[i] == front[i]);
        }
    }
}

proof fn lemma_address_keys(list: Seq<Seq<char>>, k: (u8, Seq<u8>))
    ensures
        address_keys(list).contains(k) <==> exists|i: int|
            0 <= i < list.len() && ip_value(#[trigger] list[i]) == Some(k),
    decreases list.len(),
{
    if list.len() > 0 {
        let front: Seq<Seq<char>> = list.drop_last();
        let n: int = list.len() - 1;
        lemma_address_keys(front, k);
        assert(forall|i: int| 0 <= i < n ==> front[i] == #[trigger] list[i]);
        assert(list[n] == list.last());
        let before: Seq<(u8, Seq<u8>)> = address_keys(front);
        match ip_value(list.last()) {
            Some(t) => {
                let r: Seq<(u8, Seq<u8>)> = before.push(t);
                assert(r.last() == t);
                if before.contains(k) {
                    assert(r[before.index_of(k)] == k);
                }
                if r.contains(k) && k != t {
                    assert(before[r.index_of(k)] == k);
                }
            },
            None => {},
        }
        if before.contains(k) {
            let i: int = choose|i: int|
                0 <= i < front.len() && ip_value(#[trigger] front[i]) == Some(k);
            assert(list[i] == front[i]);
        }
    }
}

/// Every address among the entries is a key, on a node and on the hub.
pub proof fn law_listed_address_is_a_key(list: Seq<Seq<char>>, i: int, k: (u8, Seq<u8>))
    requires
        0 <= i < list.len(),
        ip_value(list[i]) == Some(k),
    ensures
        entry_keys(list).contains(k),
        address_keys(list).contains(k),
{
    lemma_entry_keys(list, k);
    lemma_address_keys(list, k);
    assert(crate::node::threat_intel::entry_key(list[i]) == Some(k));
}

/// The first address of every network among the entries is a key on a node.
pub proof fn law_listed_network_is_a_key(list: Seq<Seq<char>>, i: int, n: (u8, Seq<u8>, u32))
    requires
        0 <= i < list.len(),
        ip_value(list[i]) is None,
        cidr_value(list[i]) == Ok::<(u8, Seq<u8>, u32), crate::ip::IpError>(n),
    ensures
        entry_keys(list).contains((n.0, n.1)),
{
    lemma_entry_keys(list, (n.0, n.1));
    assert(crate::node::threat_intel::entry_key(list[i]) == Some((n.0, n.1)));
}

/// Every key comes from an entry that names it.
pub proof fn law_keys_are_listed(list: Seq<Seq<char>>, k: (u8, Seq<u8>))
    ensures
        entry_keys(list).contains(k) ==> exists|i: int|
            0 <= i < list.len() && names(#[trigger] list[i], k),
        address_keys(list).contains(k) ==> exists|i: int|
            0 <= i < list.len() && ip_value(#[trigger] list[i]) == Some(k),
{
    lemma_entry_keys(list, k);
    lemma_address_keys(list, k);
    if entry_keys(list).contains(k) {
        let i: int = choose|i: int|
            0 <= i < list.len() && crate::node::threat_intel::entry_key(#[trigger] list[i])
                == Some(k);
        assert(names(list[i], k));
    }
}

/// The hub takes an entry of a plain list without what follows a slash.
pub proof fn law_prefix_is_cut_off(address: Seq<char>, rest: Seq<char>)
    requires
        !address.contains('/'),
    ensures
        without_prefix(address) == address,
        without_prefix(address.push('/') + rest) == address,
{
    let s: Seq<char> = address.push('/') + rest;
    assert forall|j: int| 0 <= j < address.len() implies s[j] != '/' && address[j] != '/' by {
        assert(address.contains(address[j]));
    }
    lemma_first_at_is(s, '/', address.len() as int);
    lemma_first_at_is(address, '/', address.len() as int);
    assert(s.take(address.len() as int) =~= address);
    assert(address.take(address.len() as int) =~= address);
}

/// Nothing but white space.
pub open spec fn blank(s: Seq<char>) -> bool {
    forall|i: int| 0 <= i < s.len() ==> is_space(#[trigger] s[i])
}

/// The text has no line feed.
pub open spec fn one_line(s: Seq<char>) -> bool {
    forall|i: int| 0 <= i < s.len() ==> #[trigger] s[i] != '\n'
}

/// A column: something that starts and ends with neither white space nor a comma in it.
pub open spec fn is_column(s: Seq<char>) -> bool {
    &&& s.len() > 0
    &&& !is_space(s[0])
    &&& !is_space(s.last())
    &&& forall|i: int| 0 <= i < s.len() ==> #[trigger] s[i] != ','
}

/// White space before a text that starts with none does not count.
proof fn lemma_trim_start(lead: Seq<char>, s: Seq<char>)
    requires
        blank(lead),
        s.len() > 0 ==> !is_space(s[0]),
    ensures
        trim_start(lead + s) == s,
    decreases lead.len(),
{
    if lead.len() == 0 {
        assert(lead + s =~= s);
    } else {
        assert((lead + s)[0] == lead[0]);
        assert((lead + s).skip(1) =~= lead.skip(1) + s);
        assert forall|i: int| 0 <= i < lead.skip(1).len() implies is_space(
            #[trigger] lead.skip(1)[i],
        ) by {
            assert(is_space(lead[i + 1]));
        }
        lemma_trim_start(lead.skip(1), s);
    }
}

/// White space behind a text that ends with none does not count.
proof fn lemma_trim_end(s: Seq<char>, tail: Seq<char>)
    requires
        blank(tail),
        s.len() > 0 ==> !is_space(s.last()),
    ensures
        trim_end(s + tail) == s,
    decreases tail.len(),
{
    if tail.len() == 0 {
        assert(s + tail =~= s);
    } else {
        assert((s + tail).last() == tail.last());
        assert((s + tail).drop_last() =~= s + tail.drop_last());
        assert forall|i: int| 0 <= i < tail.drop_last().len() implies is_space(
            #[trigger] tail.drop_last()[i],
        ) by {
            assert(is_space(tail[i]));
        }
        lemma_trim_end(s, tail.drop_last());
    }
}

/// What is left of a text without white space at its end is a beginning of it, and only
/// white space is gone.
proof fn lemma_trim_end_cuts(s: Seq<char>)
    ensures
        trim_end(s).len() <= s.len(),
        trim_end(s) == s.take(trim_end(s).len() as int),
        blank(s.skip(trim_end(s).len() as int)),
    decreases s.len(),
{
    if s.len() > 0 && is_space(s.last()) {
        let front: Seq<char> = s.drop_last();
        lemma_trim_end_cuts(front);
        let n: int = trim_end(s).len() as int;
        assert(front.take(n) =~= s.take(n));
        assert forall|i: int| 0 <= i < s.skip(n).len() implies is_space(#[trigger] s.skip(n)[i]) by {
            if i < front.skip(n).len() {
                assert(is_space(front.skip(n)[i]));
                assert(front.skip(n)[i] == s.skip(n)[i]);
            }
        }
    } else {
        assert(s.take(s.len() as int) =~= s);
    }
}

/// A line gives its first column, whatever white space stands round it and whatever the
/// columns after it hold.
pub proof fn law_line_gives_its_first_column(
    lead: Seq<char>,
    column: Seq<char>,
    gap: Seq<char>,
    rest: Seq<char>,
)
    requires
        blank(lead),
        blank(gap),
        is_column(column),
        column[0] != '#',
    ensures
        line_entry(lead + column + gap) == Some(column),
        line_entry(lead + column + gap + seq![','] + rest) == Some(column),
{
    let plain: Seq<char> = lead + column + gap;
    assert(plain =~= lead + (column + gap));
    lemma_trim_start(lead, column + gap);
    lemma_trim_end(column, gap);
    assert(trimmed(plain) == column);
    lemma_first_at_is(column, ',', column.len() as int);
    assert(split_on(column, ',')[0] == column);
    let none: Seq<char> = Seq::empty();
    lemma_trim_start(none, column);
    lemma_trim_end(column, none);
    assert(none + column =~= column);
    assert(column + none =~= column);
    assert(trimmed(column) == column);

    let long: Seq<char> = plain + seq![','] + rest;
    let tail: Seq<char> = column + gap + seq![','] + rest;
    assert(long =~= lead + tail);
    lemma_trim_start(lead, tail);
    lemma_trim_end_cuts(tail);
    let t: Seq<char> = trim_end(tail);
    let at: int = (column + gap).len() as int;
    assert(tail[at] == ',');
    assert(t.len() > at) by {
        if t.len() <= at {
            assert(tail.skip(t.len() as int)[at - t.len()] == ',');
            assert(is_space(','));
        }
    }
    assert forall|j: int| 0 <= j < at implies t[j] != ',' by {
        if j < column.len() {
            assert(t[j] == column[j]);
        } else {
            assert(t[j] == gap[j - column.len()]);
        }
    }
    assert(t[at] == ',');
    lemma_first_at_is(t, ',', at);
    assert(t.take(at) =~= column + gap);
    assert(split_on(t, ',')[0] == column + gap);
    lemma_trim_start(none, column + gap);
    assert(none + (column + gap) =~= column + gap);
    assert(t[0] == column[0]);
}

/// A line that is blank, a comment or has an empty first column gives nothing.
pub proof fn law_other_lines_give_nothing(lead: Seq<char>, rest: Seq<char>)
    requires
        blank(lead),
    ensures
        line_entry(lead) is None,
        line_entry(lead + seq!['#'] + rest) is None,
        line_entry(lead + seq![','] + rest) is None,
{
    let none: Seq<char> = Seq::empty();
    lemma_trim_start(lead, none);
    assert(lead + none =~= lead);
    assert(trimmed(lead) =~= none);
    let comment: Seq<char> = seq!['#'] + rest;
    assert(lead + seq!['#'] + rest =~= lead + comment);
    lemma_trim_start(lead, comment);
    lemma_trim_end_cuts(comment);
    let c: Seq<char> = trim_end(comment);
    assert(c.len() > 0) by {
        if c.len() == 0 {
            assert(comment.skip(0)[0] == '#');
            assert(is_space('#'));
        }
    }
    assert(c[0] == '#');
    let empty: Seq<char> = seq![','] + rest;
    assert(lead + seq![','] + rest =~= lead + empty);
    lemma_trim_start(lead, empty);
    lemma_trim_end_cuts(empty);
    let e: Seq<char> = trim_end(empty);
    assert(e.len() > 0) by {
        if e.len() == 0 {
            assert(empty.skip(0)[0] == ',');
            assert(is_space(','));
        }
    }
    assert(e[0] == ',');
    lemma_first_at_is(e, ',', 0);
    assert(split_on(e, ',')[0] =~= none);
    assert(trimmed(none) =~= none);
}

spec fn entries_of(list: Seq<Seq<char>>) -> Seq<Option<Seq<char>>> {
    list.map_values(|l: Seq<char>| line_entry(l))
}

/// A carriage return at the end of a line does not change what the line gives.
proof fn lemma_cr_does_not_count(s: Seq<char>)
    ensures
        line_entry(strip_cr(s)) == line_entry(s),
{
    if s.len() > 0 && s.last() == '\r' {
        let front: Seq<char> = s.drop_last();
        assert(s =~= front.push('\r'));
        lemma_trim_cr(front, s);
    }
}

proof fn lemma_trim_cr(front: Seq<char>, s: Seq<char>)
    requires
        s == front.push('\r'),
    ensures
        trimmed(front) == trimmed(s),
    decreases front.len(),
{
    assert(is_space('\r'));
    if front.len() == 0 {
        assert(s.skip(1) =~= front);
        assert(trim_start(s.skip(1)) == trim_start(front));
        assert(s[0] == '\r');
    } else if is_space(front[0]) {
        assert(s[0] == front[0]);
        assert(s.skip(1) =~= front.skip(1).push('\r'));
        lemma_trim_cr(front.skip(1), s.skip(1));
    } else {
        assert(s[0] == front[0]);
        assert(s.drop_last() =~= front);
    }
}

/// The lines of two texts joined by a line feed are those of each.
pub proof fn law_lines_stand_alone(a: Seq<char>, b: Seq<char>)
    ensures
        text_entries(a + seq!['\n'] + b) == text_entries(a) + text_entries(b),
    decreases a.len(),
{
    let s: Seq<char> = a + seq!['\n'] + b;
    lemma_first_at(a, '\n');
    let i: int = first_at(a, '\n');
    let none: Seq<Seq<char>> = Seq::empty();
    assert(s.len() > 0);
    if i < a.len() {
        lemma_first_at_is(s, '\n', i);
        assert(s.take(i) =~= a.take(i));
        assert(s.skip(i + 1) =~= a.skip(i + 1) + seq!['\n'] + b);
        law_lines_stand_alone(a.skip(i + 1), b);
        let one: Seq<Seq<char>> = seq![strip_cr(a.take(i))];
        let rest: Seq<Seq<char>> = lines_of(s.skip(i + 1));
        lemma_entries_join(one, rest);
        lemma_entries_join(one, lines_of(a.skip(i + 1)));
        let x: Seq<Seq<char>> = somes(entries_of(one));
        assert(x + (text_entries(a.skip(i + 1)) + text_entries(b)) =~= x + text_entries(
            a.skip(i + 1),
        ) + text_entries(b));
    } else {
        lemma_first_at_is(s, '\n', i);
        assert(s.take(i) =~= a);
        assert(s.skip(i + 1) =~= b);
        let one: Seq<Seq<char>> = seq![strip_cr(a)];
        lemma_entries_join(one, lines_of(b));
        lemma_cr_does_not_count(a);
        if a.len() == 0 {
            law_other_lines_give_nothing(a, a);
            lemma_one_line(a);
            assert(lines_of(a) =~= none);
            assert(text_entries(a) =~= none);
            lemma_single(strip_cr(a));
        } else {
            assert(lines_of(a) == seq![a]);
            lemma_single(strip_cr(a));
            lemma_single(a);
        }
    }
}

proof fn lemma_one_line(a: Seq<char>)
    requires
        a.len() == 0,
    ensures
        strip_cr(a) == a,
        somes(entries_of(lines_of(a))) == Seq::<Seq<char>>::empty(),
{
    assert(entries_of(lines_of(a)).len() == 0);
}

proof fn lemma_single(line: Seq<char>)
    ensures
        somes(entries_of(seq![line])) == match line_entry(line) {
            Some(s) => seq![s],
            None => Seq::empty(),
        },
{
    let l: Seq<Option<Seq<char>>> = entries_of(seq![line]);
    assert(l.len() == 1);
    assert(l.last() == line_entry(line));
    assert(l.drop_last().len() == 0);
    assert(somes(l.drop_last()) =~= Seq::<Seq<char>>::empty());
    match line_entry(line) {
        Some(s) => {
            assert(somes(l) =~= seq![s]);
        },
        None => {},
    }
}

proof fn lemma_entries_join(a: Seq<Seq<char>>, b: Seq<Seq<char>>)
    ensures
        somes(entries_of(a + b)) == somes(entries_of(a)) + somes(entries_of(b)),
{
    assert(entries_of(a + b) =~= entries_of(a) + entries_of(b));
    lemma_somes_join(entries_of(a), entries_of(b));
}

/// A text of one line gives what the line gives.
pub proof fn law_one_line_gives_its_entry(line: Seq<char>)
    requires
        one_line(line),
    ensures
        text_entries(line) == match line_entry(line) {
            Some(s) => seq![s],
            None => Seq::empty(),
        },
{
    lemma_first_at(line, '\n');
    if line.len() == 0 {
        lemma_one_line(line);
        law_other_lines_give_nothing(line, line);
        assert(text_entries(line) == somes(entries_of(lines_of(line))));
    } else {
        assert(lines_of(line) == seq![line]);
        lemma_single(line);
        assert(text_entries(line) == somes(entries_of(seq![line])));
    }
}

} // verus!
