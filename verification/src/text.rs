//! Text: cutting it up, reading numbers from it and writing numbers into it.

use vstd::prelude::*;
use vstd::string::StringExecFns;

verus! {

/// [`String::push`] appends the character.
pub assume_specification[ String::push ](s: &mut String, ch: char)
    ensures
        final(s)@ == old(s)@.push(ch),
;

/// The characters of a text.
pub fn chars_of(s: &str) -> (r: Vec<char>)
    ensures
        r@ == s@,
{
    let mut out: Vec<char> = Vec::new();
    for c in it: s.chars()
        invariant
            it.seq() == s@,
            out@ == s@.take(it.index() as int),
    {
        assert(s@.take(it.index() + 1) == s@.take(it.index() as int).push(c));
        out.push(c);
    }
    assert(s@.take(s@.len() as int) == s@);
    out
}

/// The text of some characters.
pub fn text_of(v: &Vec<char>) -> (r: String)
    ensures
        r@ == v@,
{
    let mut out: String = String::new();
    for i in 0..v.len()
        invariant
            out@ == v@.take(i as int),
    {
        assert(v@.take(i + 1) == v@.take(i as int).push(v@[i as int]));
        out.push(v[i]);
    }
    assert(v@.take(v@.len() as int) == v@);
    out
}

/// A stretch of characters.
pub fn slice_of(v: &Vec<char>, from: usize, to: usize) -> (r: Vec<char>)
    requires
        from <= to <= v@.len(),
    ensures
        r@ == v@.subrange(from as int, to as int),
{
    let mut out: Vec<char> = Vec::new();
    for i in from..to
        invariant
            from <= to <= v@.len(),
            out@ == v@.subrange(from as int, i as int),
    {
        assert(v@.subrange(from as int, i + 1) == v@.subrange(from as int, i as int).push(
            v@[i as int],
        ));
        out.push(v[i]);
    }
    out
}

/// Whether two stretches of characters are the same.
pub fn same_chars(a: &Vec<char>, b: &Vec<char>) -> (r: bool)
    ensures
        r == (a@ == b@),
{
    if a.len() != b.len() {
        return false;
    }
    for i in 0..a.len()
        invariant
            a@.len() == b@.len(),
            forall|j: int| 0 <= j < i ==> a@[j] == b@[j],
    {
        if a[i] != b[i] {
            return false;
        }
    }
    assert(a@ =~= b@);
    true
}

/// Whether two texts are the same.
pub fn same_text(a: &str, b: &str) -> (r: bool)
    ensures
        r == (a@ == b@),
{
    same_chars(&chars_of(a), &chars_of(b))
}

/// What each of several stretches of characters holds.
pub open spec fn views(v: Seq<Vec<char>>) -> Seq<Seq<char>> {
    v.map_values(|x: Vec<char>| x@)
}

/// What each of several texts holds.
pub open spec fn texts(v: Seq<String>) -> Seq<Seq<char>> {
    v.map_values(|x: String| x@)
}

/// Where `c` first stands in `s`; the length of `s` where it does not.
pub open spec fn first_at(s: Seq<char>, c: char) -> int
    decreases s.len(),
{
    if s.len() == 0 || s[0] == c {
        0
    } else {
        1 + first_at(s.skip(1), c)
    }
}

/// Where `c` stands first, nothing before it is `c`.
pub proof fn lemma_first_at(s: Seq<char>, c: char)
    ensures
        0 <= first_at(s, c) <= s.len(),
        first_at(s, c) < s.len() ==> s[first_at(s, c)] == c,
        forall|i: int| 0 <= i < first_at(s, c) ==> s[i] != c,
    decreases s.len(),
{
    if s.len() > 0 && s[0] != c {
        lemma_first_at(s.skip(1), c);
        assert forall|i: int| 0 <= i < first_at(s, c) implies s[i] != c by {
            if i > 0 {
                assert(s.skip(1)[i - 1] == s[i]);
            }
        }
    }
}

/// The first place of `c` is the one before which there is none.
pub proof fn lemma_first_at_is(s: Seq<char>, c: char, i: int)
    requires
        0 <= i <= s.len(),
        i < s.len() ==> s[i] == c,
        forall|j: int| 0 <= j < i ==> s[j] != c,
    ensures
        first_at(s, c) == i,
{
    lemma_first_at(s, c);
}

pub fn find_char(v: &Vec<char>, c: char) -> (r: usize)
    ensures
        r == first_at(v@, c),
        r <= v@.len(),
{
    let mut i: usize = 0;
    while i < v.len() && v[i] != c
        invariant
            i <= v@.len(),
            forall|j: int| 0 <= j < i ==> v@[j] != c,
        decreases v@.len() - i,
    {
        i = i + 1;
    }
    proof {
        lemma_first_at_is(v@, c, i as int);
    }
    i
}

/// The stretches of `s` between the places of `c`.
pub open spec fn split_on(s: Seq<char>, c: char) -> Seq<Seq<char>>
    decreases s.len(),
{
    let i: int = first_at(s, c);
    if !(0 <= i < s.len()) {
        seq![s]
    } else {
        seq![s.take(i)] + split_on(s.skip(i + 1), c)
    }
}

/// Cuts characters up at every `c`.
pub fn split(v: &Vec<char>, c: char) -> (r: Vec<Vec<char>>)
    ensures
        views(r@) == split_on(v@, c),
        r@.len() >= 1,
{
    let mut out: Vec<Vec<char>> = Vec::new();
    let mut start: usize = 0;
    let mut i: usize = 0;
    let n: usize = v.len();
    assert(v@.skip(0) == v@);
    assert(views(out@) + split_on(v@, c) =~= split_on(v@, c));
    while i < n
        invariant
            n == v@.len(),
            start <= i <= n,
            forall|j: int| start <= j < i ==> v@[j] != c,
            views(out@) + split_on(v@.skip(start as int), c) == split_on(v@, c),
        decreases n - i,
    {
        if v[i] == c {
            let piece: Vec<char> = slice_of(v, start, i);
            let ghost rest = v@.skip(start as int);
            let ghost before = views(out@);
            proof {
                lemma_first_at_is(rest, c, i - start);
                assert(rest.take(i - start) == piece@);
                assert(rest.skip(i - start + 1) == v@.skip(i + 1));
            }
            out.push(piece);
            assert(views(out@) =~= before.push(piece@));
            assert(views(out@) + split_on(v@.skip(i + 1), c) =~= before + (seq![piece@] + split_on(
                v@.skip(i + 1),
                c,
            )));
            start = i + 1;
        }
        i = i + 1;
    }
    let piece: Vec<char> = slice_of(v, start, n);
    let ghost rest = v@.skip(start as int);
    let ghost before = views(out@);
    proof {
        lemma_first_at_is(rest, c, n - start);
        assert(rest == piece@);
    }
    out.push(piece);
    assert(views(out@) =~= before + seq![piece@]);
    out
}

/// A line without the carriage return at its end.
pub open spec fn strip_cr(s: Seq<char>) -> Seq<char> {
    if s.len() > 0 && s.last() == '\r' {
        s.drop_last()
    } else {
        s
    }
}

/// The lines of a text. A line ends with a line feed, before which a carriage return does
/// not count; the last may end without one.
pub open spec fn lines_of(s: Seq<char>) -> Seq<Seq<char>>
    decreases s.len(),
{
    let i: int = first_at(s, '\n');
    if s.len() == 0 {
        Seq::empty()
    } else if !(0 <= i < s.len()) {
        seq![s]
    } else {
        seq![strip_cr(s.take(i))] + lines_of(s.skip(i + 1))
    }
}

/// Cuts characters up into lines.
pub fn lines(v: &Vec<char>) -> (r: Vec<Vec<char>>)
    ensures
        views(r@) == lines_of(v@),
{
    let mut out: Vec<Vec<char>> = Vec::new();
    let mut start: usize = 0;
    let mut i: usize = 0;
    let n: usize = v.len();
    assert(v@.skip(0) == v@);
    assert(views(out@) + lines_of(v@) =~= lines_of(v@));
    while i < n
        invariant
            n == v@.len(),
            start <= i <= n,
            forall|j: int| start <= j < i ==> v@[j] != '\n',
            views(out@) + lines_of(v@.skip(start as int)) == lines_of(v@),
        decreases n - i,
    {
        if v[i] == '\n' {
            let to: usize = if i > start && v[i - 1] == '\r' {
                i - 1
            } else {
                i
            };
            let piece: Vec<char> = slice_of(v, start, to);
            let ghost rest = v@.skip(start as int);
            let ghost before = views(out@);
            proof {
                lemma_first_at_is(rest, '\n', i - start);
                assert(strip_cr(rest.take(i - start)) =~= piece@);
                assert(rest.skip(i - start + 1) == v@.skip(i + 1));
            }
            out.push(piece);
            assert(views(out@) =~= before.push(piece@));
            assert(views(out@) + lines_of(v@.skip(i + 1)) =~= before + (seq![piece@] + lines_of(
                v@.skip(i + 1),
            )));
            start = i + 1;
        }
        i = i + 1;
    }
    let ghost rest = v@.skip(start as int);
    let ghost before = views(out@);
    proof {
        lemma_first_at_is(rest, '\n', n - start);
    }
    if start < n {
        let piece: Vec<char> = slice_of(v, start, n);
        assert(rest == piece@);
        out.push(piece);
        assert(views(out@) =~= before + seq![piece@]);
    } else {
        assert(before + Seq::<Seq<char>>::empty() =~= before);
    }
    out
}

/// White space, as Unicode has it.
pub open spec fn is_space(c: char) -> bool {
    ||| '\u{9}' <= c <= '\u{d}'
    ||| c == ' '
    ||| c == '\u{85}'
    ||| c == '\u{a0}'
    ||| c == '\u{1680}'
    ||| '\u{2000}' <= c <= '\u{200a}'
    ||| c == '\u{2028}'
    ||| c == '\u{2029}'
    ||| c == '\u{202f}'
    ||| c == '\u{205f}'
    ||| c == '\u{3000}'
}

pub fn space(c: char) -> (r: bool)
    ensures
        r == is_space(c),
{
    ('\u{9}' <= c && c <= '\u{d}') || c == ' ' || c == '\u{85}' || c == '\u{a0}' || c == '\u{1680}'
        || ('\u{2000}' <= c && c <= '\u{200a}') || c == '\u{2028}' || c == '\u{2029}' || c
        == '\u{202f}' || c == '\u{205f}' || c == '\u{3000}'
}

pub open spec fn trim_start(s: Seq<char>) -> Seq<char>
    decreases s.len(),
{
    if s.len() > 0 && is_space(s[0]) {
        trim_start(s.skip(1))
    } else {
        s
    }
}

pub open spec fn trim_end(s: Seq<char>) -> Seq<char>
    decreases s.len(),
{
    if s.len() > 0 && is_space(s.last()) {
        trim_end(s.drop_last())
    } else {
        s
    }
}

/// The text without white space at its ends.
pub open spec fn trimmed(s: Seq<char>) -> Seq<char> {
    trim_end(trim_start(s))
}

/// The text without white space at its start.
pub fn trim_left(v: &Vec<char>) -> (r: Vec<char>)
    ensures
        r@ == trim_start(v@),
{
    let n: usize = v.len();
    let mut a: usize = 0;
    assert(v@.skip(0) == v@);
    while a < n && space(v[a])
        invariant
            n == v@.len(),
            a <= n,
            trim_start(v@.skip(a as int)) == trim_start(v@),
        decreases n - a,
    {
        assert(v@.skip(a as int)[0] == v@[a as int]);
        assert(v@.skip(a as int).skip(1) == v@.skip(a + 1));
        a = a + 1;
    }
    assert(a < n ==> v@.skip(a as int)[0] == v@[a as int]);
    assert(v@.skip(a as int) == v@.subrange(a as int, n as int));
    slice_of(v, a, n)
}

pub fn trim(v: &Vec<char>) -> (r: Vec<char>)
    ensures
        r@ == trimmed(v@),
{
    let n: usize = v.len();
    let mut a: usize = 0;
    assert(v@.skip(0) == v@);
    while a < n && space(v[a])
        invariant
            n == v@.len(),
            a <= n,
            trim_start(v@.skip(a as int)) == trim_start(v@),
        decreases n - a,
    {
        assert(v@.skip(a as int)[0] == v@[a as int]);
        assert(v@.skip(a as int).skip(1) == v@.skip(a + 1));
        a = a + 1;
    }
    assert(a < n ==> v@.skip(a as int)[0] == v@[a as int]);
    let ghost t = trim_start(v@);
    assert(t == v@.subrange(a as int, n as int)) by {
        assert(v@.skip(a as int) == v@.subrange(a as int, n as int));
    }
    let mut b: usize = n;
    while b > a && space(v[b - 1])
        invariant
            n == v@.len(),
            a <= b <= n,
            trim_end(v@.subrange(a as int, b as int)) == trim_end(t),
        decreases b - a,
    {
        assert(v@.subrange(a as int, b as int).last() == v@[b - 1]);
        assert(v@.subrange(a as int, b as int).drop_last() == v@.subrange(a as int, b - 1));
        b = b - 1;
    }
    assert(b > a ==> v@.subrange(a as int, b as int).last() == v@[b - 1]);
    slice_of(v, a, b)
}

pub open spec fn is_digit(c: char) -> bool {
    '0' <= c <= '9'
}

pub open spec fn digit_value(c: char) -> int {
    c as int - '0' as int
}

pub fn digit(c: char) -> (r: Option<u8>)
    ensures
        match r {
            Some(d) => is_digit(c) && d == digit_value(c) && d <= 9,
            None => !is_digit(c),
        },
{
    if '0' <= c && c <= '9' {
        Some((c as u32 - 48) as u8)
    } else {
        None
    }
}

pub open spec fn all_digits(s: Seq<char>) -> bool {
    forall|i: int| 0 <= i < s.len() ==> is_digit(#[trigger] s[i])
}

/// The value of decimal digits.
pub open spec fn dec_value(s: Seq<char>) -> nat
    decreases s.len(),
{
    if s.len() == 0 {
        0
    } else {
        dec_value(s.drop_last()) * 10 + digit_value(s.last()) as nat
    }
}

/// The digits of a number as the standard integer parsers take it: a plus sign before it
/// does not count.
pub open spec fn unsigned_digits(s: Seq<char>) -> Seq<char> {
    if s.len() > 1 && s[0] == '+' {
        s.skip(1)
    } else {
        s
    }
}

/// The number that a text stands for, where it is one of at most `max`.
pub open spec fn uint_value(s: Seq<char>, max: nat) -> Option<nat> {
    let d: Seq<char> = unsigned_digits(s);
    if d.len() > 0 && all_digits(d) && dec_value(d) <= max {
        Some(dec_value(d))
    } else {
        None
    }
}

proof fn lemma_dec_value_grows(s: Seq<char>, i: int)
    requires
        0 <= i <= s.len(),
        all_digits(s),
    ensures
        dec_value(s.take(i)) <= dec_value(s),
    decreases s.len(),
{
    if i < s.len() {
        assert(s.drop_last().take(i) == s.take(i));
        assert forall|j: int| 0 <= j < s.drop_last().len() implies is_digit(
            #[trigger] s.drop_last()[j],
        ) by {
            assert(is_digit(s[j]));
        }
        lemma_dec_value_grows(s.drop_last(), i);
        assert(is_digit(s[s.len() - 1]));
    } else {
        assert(s.take(i) == s);
    }
}

/// Reads an unsigned number of at most `max`.
pub fn parse_uint(v: &Vec<char>, max: u64) -> (r: Option<u64>)
    ensures
        match r {
            Some(n) => uint_value(v@, max as nat) == Some(n as nat),
            None => uint_value(v@, max as nat) is None,
        },
{
    let from: usize = if v.len() > 1 && v[0] == '+' {
        1
    } else {
        0
    };
    let n: usize = v.len();
    let ghost d = unsigned_digits(v@);
    assert(d == v@.skip(from as int));
    if from == n {
        return None;
    }
    let mut value: u64 = 0;
    let mut i: usize = from;
    while i < n
        invariant
            n == v@.len(),
            from <= i <= n,
            from < n,
            d == unsigned_digits(v@),
            d == v@.skip(from as int),
            value == dec_value(d.take(i - from)),
            value <= max,
            forall|j: int| 0 <= j < i - from ==> is_digit(d[j]),
        decreases n - i,
    {
        assert(d[i - from] == v@[i as int]);
        let x: u8 = match digit(v[i]) {
            Some(x) => x,
            None => {
                return None;
            },
        };
        proof {
            assert(d.take(i + 1 - from).drop_last() == d.take(i - from));
            assert(d.take(i + 1 - from).last() == v@[i as int]);
            assert(dec_value(d.take(i + 1 - from)) == value * 10 + x);
        }
        let wide: u128 = value as u128 * 10 + x as u128;
        if wide > max as u128 {
            proof {
                if all_digits(d) {
                    lemma_dec_value_grows(d, i + 1 - from);
                }
            }
            return None;
        }
        value = wide as u64;
        i = i + 1;
    }
    assert(d.take(n - from) == d);
    Some(value)
}

/// A digit as a character.
pub open spec fn digit_char(d: int) -> char {
    (d + 48) as char
}

pub fn char_of_digit(d: u8) -> (r: char)
    requires
        d <= 9,
    ensures
        r == digit_char(d as int),
        is_digit(r),
        digit_value(r) == d,
{
    (d + 48) as char
}

/// A number in decimal digits.
pub open spec fn dec(n: nat) -> Seq<char>
    decreases n,
{
    if n < 10 {
        seq![digit_char(n as int)]
    } else {
        dec(n / 10).push(digit_char((n % 10) as int))
    }
}

/// Decimal digits of a number, appended.
pub fn push_dec(out: &mut String, n: u64)
    ensures
        final(out)@ == old(out)@ + dec(n as nat),
    decreases n,
{
    if n < 10 {
        out.push(char_of_digit(n as u8));
        assert(out@ =~= old(out)@ + dec(n as nat));
    } else {
        push_dec(out, n / 10);
        let ghost before = out@;
        out.push(char_of_digit((n % 10) as u8));
        assert(out@ =~= old(out)@ + dec(n as nat));
    }
}

/// A number in decimal digits.
pub fn dec_text(n: u64) -> (r: String)
    ensures
        r@ == dec(n as nat),
{
    let mut out: String = String::new();
    push_dec(&mut out, n);
    assert(out@ =~= dec(n as nat));
    out
}

/// Reading back the digits of a number gives the number, and its digits have no leading
/// zero.
pub proof fn law_dec_reads_back(n: nat)
    ensures
        dec(n).len() >= 1,
        all_digits(dec(n)),
        dec_value(dec(n)) == n,
        n > 0 ==> dec(n)[0] != '0',
        n < 10 ==> dec(n).len() == 1,
        n >= 10 ==> dec(n).len() >= 2,
        n < 100 ==> dec(n).len() <= 2,
        n < 1000 ==> dec(n).len() <= 3,
    decreases n,
{
    if n >= 10 {
        law_dec_reads_back(n / 10);
        assert(dec(n).drop_last() == dec(n / 10));
        assert forall|i: int| 0 <= i < dec(n).len() implies is_digit(#[trigger] dec(n)[i]) by {
            if i < dec(n).len() - 1 {
                assert(dec(n)[i] == dec(n / 10)[i]);
            }
        }
        assert(dec(n)[0] == dec(n / 10)[0]);
    } else {
        assert(dec(n).drop_last().len() == 0);
        assert(dec_value(dec(n).drop_last()) == 0);
    }
}

/// An ASCII letter in lower case; other characters stay.
pub open spec fn lower_char(c: char) -> char {
    if 'A' <= c <= 'Z' {
        (c as u8 + 32) as char
    } else {
        c
    }
}

/// The text with its ASCII letters in lower case.
pub open spec fn lowered(s: Seq<char>) -> Seq<char> {
    s.map_values(|c: char| lower_char(c))
}

/// Whether a text, its ASCII letters taken in lower case, is `word`.
pub fn lower_is(s: &str, word: &str) -> (r: bool)
    ensures
        r == (lowered(s@) == word@),
{
    let a: Vec<char> = chars_of(s);
    let b: Vec<char> = chars_of(word);
    if a.len() != b.len() {
        return false;
    }
    for i in 0..a.len()
        invariant
            a@ == s@,
            b@ == word@,
            a@.len() == b@.len(),
            forall|j: int| 0 <= j < i ==> lowered(s@)[j] == word@[j],
    {
        let c: char = a[i];
        let l: char = if 'A' <= c && c <= 'Z' {
            (c as u8 + 32) as char
        } else {
            c
        };
        assert(lowered(s@)[i as int] == l);
        if l != b[i] {
            return false;
        }
    }
    assert(lowered(s@) =~= word@);
    true
}

/// `s` starts with `p`.
pub open spec fn starts_with(s: Seq<char>, p: Seq<char>) -> bool {
    p.len() <= s.len() && s.take(p.len() as int) == p
}

pub fn has_prefix(s: &str, p: &str) -> (r: bool)
    ensures
        r == starts_with(s@, p@),
{
    let a: Vec<char> = chars_of(s);
    let b: Vec<char> = chars_of(p);
    if b.len() > a.len() {
        return false;
    }
    for i in 0..b.len()
        invariant
            a@ == s@,
            b@ == p@,
            b@.len() <= a@.len(),
            forall|j: int| 0 <= j < i ==> a@[j] == b@[j],
    {
        if a[i] != b[i] {
            assert(s@.take(p@.len() as int)[i as int] != p@[i as int]);
            return false;
        }
    }
    assert(s@.take(p@.len() as int) =~= p@);
    true
}

/// An ASCII letter in upper case; other characters stay.
pub open spec fn upper_char(c: char) -> char {
    if 'a' <= c <= 'z' {
        (c as u8 - 32) as char
    } else {
        c
    }
}

/// The text with its ASCII letters in upper case.
pub open spec fn uppered(s: Seq<char>) -> Seq<char> {
    s.map_values(|c: char| upper_char(c))
}

pub fn upper(v: &Vec<char>) -> (r: Vec<char>)
    ensures
        r@ == uppered(v@),
{
    let mut out: Vec<char> = Vec::new();
    for i in 0..v.len()
        invariant
            out@.len() == i,
            forall|j: int| 0 <= j < i ==> out@[j] == uppered(v@)[j],
    {
        let c: char = v[i];
        let u: char = if 'a' <= c && c <= 'z' {
            (c as u8 - 32) as char
        } else {
            c
        };
        out.push(u);
    }
    assert(out@ =~= uppered(v@));
    out
}

pub fn lower(v: &Vec<char>) -> (r: Vec<char>)
    ensures
        r@ == lowered(v@),
{
    let mut out: Vec<char> = Vec::new();
    for i in 0..v.len()
        invariant
            out@.len() == i,
            forall|j: int| 0 <= j < i ==> out@[j] == lowered(v@)[j],
    {
        let c: char = v[i];
        let u: char = if 'A' <= c && c <= 'Z' {
            (c as u8 + 32) as char
        } else {
            c
        };
        out.push(u);
    }
    assert(out@ =~= lowered(v@));
    out
}

/// The words of a text: the stretches between white space.
pub open spec fn words_of(s: Seq<char>) -> Seq<Seq<char>>
    decreases s.len(),
{
    if s.len() == 0 {
        Seq::empty()
    } else {
        let front: Seq<Seq<char>> = words_of(s.drop_last());
        if is_space(s.last()) {
            front
        } else if s.len() == 1 || is_space(s[s.len() - 2]) {
            front.push(seq![s.last()])
        } else {
            front.drop_last().push(front.last().push(s.last()))
        }
    }
}

/// The words of a text.
pub fn words(v: &Vec<char>) -> (r: Vec<Vec<char>>)
    ensures
        views(r@) == words_of(v@),
{
    let mut out: Vec<Vec<char>> = Vec::new();
    let mut in_word: bool = false;
    assert(views(out@) =~= words_of(v@.take(0)));
    for i in 0..v.len()
        invariant
            views(out@) == words_of(v@.take(i as int)),
            in_word == (i > 0 && !is_space(v@[i - 1])),
            in_word ==> out@.len() > 0,
    {
        let ghost part = v@.take(i as int);
        let ghost next = v@.take(i + 1);
        let ghost before = views(out@);
        assert(next.drop_last() =~= part);
        assert(next.last() == v@[i as int]);
        let c: char = v[i];
        if space(c) {
            in_word = false;
        } else if in_word {
            assert(next[next.len() - 2] == v@[i - 1]);
            let mut word: Vec<char> = match out.pop() {
                Some(w) => w,
                None => Vec::new(),
            };
            let ghost w0 = word@;
            word.push(c);
            out.push(word);
            assert(before.last() == w0);
            assert(views(out@) =~= before.drop_last().push(w0.push(c)));
        } else {
            let mut word: Vec<char> = Vec::new();
            word.push(c);
            assert(word@ =~= seq![c]);
            out.push(word);
            assert(i > 0 ==> next[next.len() - 2] == v@[i - 1]);
            assert(views(out@) =~= before.push(seq![c]));
            in_word = true;
        }
    }
    assert(v@.take(v@.len() as int) =~= v@);
    out
}

/// `p` stands somewhere in `s`.
pub open spec fn has_part(s: Seq<char>, p: Seq<char>) -> bool {
    exists|i: int| 0 <= i && i + p.len() <= s.len() && #[trigger] s.subrange(i, i + p.len()) == p
}

pub fn contains(s: &str, p: &str) -> (r: bool)
    ensures
        r == has_part(s@, p@),
{
    let a: Vec<char> = chars_of(s);
    let b: Vec<char> = chars_of(p);
    if b.len() > a.len() {
        return false;
    }
    let n: usize = b.len();
    let last: usize = a.len() - n;
    for i in 0..last
        invariant
            a@ == s@,
            b@ == p@,
            n == b@.len(),
            n <= a@.len() <= usize::MAX,
            last == a@.len() - n,
            forall|j: int| 0 <= j < i ==> #[trigger] s@.subrange(j, j + p@.len()) != p@,
    {
        let piece: Vec<char> = slice_of(&a, i, i + n);
        assert(s@.subrange(i as int, i + p@.len()) == piece@);
        if same_chars(&piece, &b) {
            return true;
        }
    }
    let piece: Vec<char> = slice_of(&a, last, last + n);
    assert(s@.subrange(last as int, last + p@.len()) == piece@);
    same_chars(&piece, &b)
}

} // verus!
