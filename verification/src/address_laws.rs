//! Addresses in text: which texts there are, and what they stand for.

use crate::common::IpKey;
use crate::ip::all_hex;
use crate::ip::double_at;
use crate::ip::group_value;
use crate::ip::hex_digit_value;
use crate::ip::hex_value;
use crate::ip::ip_value;
use crate::ip::is_hex;
use crate::ip::lemma_first_double_is;
use crate::ip::octets_of;
use crate::ip::side_value;
use crate::ip::v6_value;
use crate::ip::zero_groups;
use crate::ip::octet_value;
use crate::ip::v4_value;
use crate::ip_format::colons;
use crate::ip_format::groups_of;
use crate::ip_format::is_longest_run;
use crate::ip_format::join;
use crate::ip_format::key_text;
use crate::ip_format::lemma_v6_text;
use crate::ip_format::v4_text;
use crate::ip_format::v6_text;
use crate::ip_format::zeros_at;
use crate::text::all_digits;
use crate::text::dec;
use crate::text::dec_value;
use crate::text::digit_char;
use crate::text::digit_value;
use crate::text::first_at;
use crate::text::is_digit;
use crate::text::is_space;
use crate::text::law_dec_reads_back;
use crate::text::lemma_first_at;
use crate::text::split_on;
use crate::text::trim_end;
use crate::text::trim_start;
use crate::text::trimmed;
use crate::text::uint_value;
use vstd::prelude::*;

verus! {

/// Digits without a leading zero are how their value is written.
proof fn lemma_digits_are_dec(s: Seq<char>)
    requires
        s.len() >= 1,
        all_digits(s),
        s.len() > 1 ==> s[0] != '0',
    ensures
        s == dec(dec_value(s)),
        s[0] != '0' ==> dec_value(s) > 0,
    decreases s.len(),
{
    let front: Seq<char> = s.drop_last();
    let d: int = digit_value(s.last());
    assert(is_digit(s[s.len() - 1]));
    assert(0 <= d <= 9);
    assert(digit_char(d) == s.last());
    if s.len() == 1 {
        assert(dec_value(front) == 0);
        assert(dec_value(s) == d);
        assert(s =~= dec(dec_value(s)));
    } else {
        assert forall|i: int| 0 <= i < front.len() implies is_digit(#[trigger] front[i]) by {
            assert(front[i] == s[i]);
            assert(is_digit(s[i]));
        }
        assert(front[0] == s[0]);
        lemma_digits_are_dec(front);
        let v: nat = dec_value(front);
        assert(dec_value(s) == v * 10 + d);
        assert((v * 10 + d) / 10 == v);
        assert((v * 10 + d) % 10 == d);
        assert(s =~= dec(dec_value(s)));
    }
}

/// What was cut up goes together again.
proof fn lemma_join_undoes_split(s: Seq<char>, c: char)
    ensures
        join(split_on(s, c), c) == s,
        split_on(s, c).len() >= 1,
    decreases s.len(),
{
    lemma_first_at(s, c);
    let i: int = first_at(s, c);
    if i < s.len() {
        lemma_join_undoes_split(s.skip(i + 1), c);
        let parts: Seq<Seq<char>> = split_on(s, c);
        assert(parts.skip(1) =~= split_on(s.skip(i + 1), c));
        assert(parts[0] == s.take(i));
        assert(s =~= s.take(i) + seq![c] + s.skip(i + 1));
    }
}

/// An IPv4 address has one text: what reads as an address is the text of that address, four
/// numbers up to 255 without leading zeros between dots.
pub proof fn law_dotted_text_is_unique(s: Seq<char>, o: Seq<u8>)
    requires
        v4_value(s) == Some(o),
    ensures
        o.len() == 4,
        s == v4_text(o),
{
    reveal(v4_value);
    let parts: Seq<Seq<char>> = split_on(s, '.');
    lemma_join_undoes_split(s, '.');
    assert forall|i: int| 0 <= i < 4 implies #[trigger] parts[i] == dec(o[i] as nat) by {
        assert(octet_value(parts[i]) is Some);
        lemma_digits_are_dec(parts[i]);
    }
    assert(parts =~= seq![
        dec(o[0] as nat),
        dec(o[1] as nat),
        dec(o[2] as nat),
        dec(o[3] as nat),
    ]);
}

/// What reads as an IPv4 address is written back as it was.
pub proof fn law_ipv4_text_is_written_back(s: Seq<char>, key: IpKey)
    requires
        key.family == 4,
        ip_value(s) == Some((4u8, key.addr@)),
    ensures
        key_text(key) == s,
{
    let o: Seq<u8> = v4_value(s)->0;
    assert(v4_value(s) is Some);
    law_dotted_text_is_unique(s, o);
    assert(key.addr@ == IpKey::mapped(o));
    assert(key.addr@.skip(12) =~= o);
}

/// The groups from `st` on, `n` of them, are zeros, and no other stretch of zeros is longer,
/// nor as long and further to the front.
pub open spec fn is_first_longest(g: Seq<u16>, st: int, n: int) -> bool {
    &&& 0 <= st
    &&& st + n <= g.len()
    &&& forall|i: int| st <= i < st + n ==> #[trigger] g[i] == 0
    &&& forall|a: int, m: int|
        #![trigger zeros_at(g, a, m)]
        0 <= a && 0 < m && a + m <= g.len() && (forall|i: int| a <= i < a + m ==> g[i] == 0) ==> m
            < n || m == n && st <= a
}

/// Of an IPv6 address the first of the longest stretches of zero groups is left out between
/// two colons, where it has two groups at least.
pub proof fn law_longest_zeros_are_left_out(o: Seq<u8>, st: int, n: int)
    requires
        n >= 2,
        is_first_longest(groups_of(o), st, n),
        !(forall|i: int| 0 <= i < 5 ==> #[trigger] groups_of(o)[i] == 0) || groups_of(o)[5]
            != 0xffff,
    ensures
        v6_text(o) == colons(groups_of(o).take(st)) + seq![':', ':'] + colons(
            groups_of(o).skip(st + n),
        ),
{
    let g: Seq<u16> = groups_of(o);
    assert(zeros_at(g, st, n));
    assert forall|a: int, m: int| #[trigger] zeros_at(g, a, m) implies m <= n && (m == n && m > 0
        ==> st <= a) by {}
    assert(is_longest_run(g, st, n));
    let t: Seq<char> = colons(g.take(st)) + seq![':', ':'] + colons(g.skip(st + n));
    lemma_v6_text(o, t);
}

/// An IPv6 address without two zero groups side by side is written with all of its groups.
pub proof fn law_single_zeros_are_written(o: Seq<u8>)
    requires
        o.len() == 16,
        forall|i: int| 0 <= i < 7 ==> !(#[trigger] groups_of(o)[i] == 0 && groups_of(o)[i + 1] == 0),
    ensures
        v6_text(o) == colons(groups_of(o)),
{
    reveal(groups_of);
    let g: Seq<u16> = groups_of(o);
    assert(g.len() == 8);
    assert forall|a: int, m: int| #[trigger] zeros_at(g, a, m) implies m <= 1 by {
        if m >= 2 {
            assert(g[a] == 0);
            assert(g[a + 1] == 0);
        }
    }
    assert(!(g[0] == 0 && g[1] == 0));
    let first: int = first_zero(g);
    lemma_first_zero(g);
    if first < 8 {
        assert(zeros_at(g, first, 1));
        assert forall|a: int, m: int| #[trigger] zeros_at(g, a, m) implies m <= 1 && (m == 1 && m
            > 0 ==> first <= a) by {
            if m == 1 {
                assert(g[a] == 0);
            }
        }
        assert(is_longest_run(g, first, 1));
    } else {
        assert(zeros_at(g, 0, 0));
        assert forall|a: int, m: int| #[trigger] zeros_at(g, a, m) implies m <= 0 by {
            if m >= 1 {
                assert(g[a] == 0);
            }
        }
        assert(is_longest_run(g, 0, 0));
    }
    lemma_v6_text(o, colons(g));
}

spec fn first_zero(g: Seq<u16>) -> int
    decreases g.len(),
{
    if g.len() == 0 || g[0] == 0 {
        0
    } else {
        1 + first_zero(g.skip(1))
    }
}

proof fn lemma_first_zero(g: Seq<u16>)
    ensures
        0 <= first_zero(g) <= g.len(),
        first_zero(g) < g.len() ==> g[first_zero(g)] == 0,
        forall|i: int| 0 <= i < first_zero(g) ==> #[trigger] g[i] != 0,
    decreases g.len(),
{
    if g.len() > 0 && g[0] != 0 {
        lemma_first_zero(g.skip(1));
        assert forall|i: int| 0 <= i < first_zero(g) implies #[trigger] g[i] != 0 by {
            if i > 0 {
                assert(g.skip(1)[i - 1] == g[i]);
            }
        }
    }
}

/// Two colons stand for the groups that are left out, one at least: what comes before them
/// and what comes after may have up to seven groups together.
pub proof fn law_two_colons_fill_up(a: Seq<char>, b: Seq<char>, h: Seq<u16>, t: Seq<u16>)
    requires
        side_value(a, false) == Some(h),
        side_value(b, true) == Some(t),
        forall|i: int|
            0 <= i < a.len() ==> !(#[trigger] a[i] == ':' && (i + 1 < a.len() ==> a[i + 1] == ':')),
    ensures
        h.len() + t.len() <= 7 ==> v6_value(a + seq![':', ':'] + b) == Some(
            octets_of(h + zero_groups(8 - h.len() - t.len()) + t),
        ),
        h.len() + t.len() > 7 ==> v6_value(a + seq![':', ':'] + b) is None,
{
    reveal(v6_value);
    let s: Seq<char> = a + seq![':', ':'] + b;
    let n: int = a.len() as int;
    assert forall|j: int| 0 <= j < n && j + 1 < s.len() implies !#[trigger] double_at(s, j) by {
        assert(s[j] == a[j]);
        if j + 1 < n {
            assert(s[j + 1] == a[j + 1]);
        }
    }
    assert(s[n] == ':' && s[n + 1] == ':');
    lemma_first_double_is(s, n);
    assert(s.take(n) =~= a);
    assert(s.skip(n + 2) =~= b);
}

/// A group has one to four hexadecimal digits, in either case of letters.
pub proof fn law_group_has_four_digits(s: Seq<char>)
    ensures
        s.len() == 0 || s.len() > 4 ==> group_value(s) is None,
        1 <= s.len() <= 4 && all_hex(s) ==> group_value(s) == Some(hex_value(s) as u16),
        is_hex('f') && is_hex('F') && is_hex('9') && !is_hex('g'),
        hex_digit_value('a') == 10 && hex_digit_value('F') == 15 && hex_digit_value('7') == 7,
{
}

/// A number may be written with a plus sign.
pub proof fn law_plus_is_read_over(n: nat, max: nat)
    requires
        n <= max,
    ensures
        uint_value(dec(n), max) == Some(n),
        uint_value(seq!['+'] + dec(n), max) == Some(n),
{
    law_dec_reads_back(n);
    let d: Seq<char> = dec(n);
    let s: Seq<char> = seq!['+'] + d;
    assert(is_digit(d[0]));
    assert(s.skip(1) =~= d);
}

/// The character leaves a mark on paper.
pub open spec fn is_printed(c: char) -> bool {
    '!' <= c <= '~'
}

/// Blanks around a text do not count: neither spaces nor tabs nor the ends of lines.
pub proof fn law_blanks_around_do_not_count(s: Seq<char>, c: char)
    requires
        c == ' ' || c == '\t' || c == '\r' || c == '\n',
    ensures
        trimmed(seq![c] + s) == trimmed(s),
        s.len() > 0 && is_printed(s[0]) && is_printed(s.last()) ==> {
            &&& trimmed(s) == s
            &&& trimmed(s.push(c)) == s
        },
{
    let a: Seq<char> = seq![c] + s;
    assert(a.skip(1) =~= s);
    if s.len() > 0 && is_printed(s[0]) && is_printed(s.last()) {
        let b: Seq<char> = s.push(c);
        assert(b.drop_last() =~= s);
        assert(b[0] == s[0]);
        assert(trim_start(s) == s);
        assert(trim_end(s) == s);
        assert(trim_start(b) == b);
        assert(is_space(c));
        assert(trim_end(b) == trim_end(b.drop_last()));
    }
}

} // verus!
