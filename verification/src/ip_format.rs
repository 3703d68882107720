//! Writing addresses as text.

use crate::common::IpKey;
use crate::ip::double_at;
use crate::ip::group_value;
use crate::ip::groups_value;
use crate::ip::hex_digit_value;
use crate::ip::hex_value;
use crate::ip::ip_value;
use crate::ip::is_hex;
use crate::ip::all_hex;
use crate::ip::lemma_first_double_is;
use crate::ip::octet_value;
use crate::ip::octets_of;
use crate::ip::side_value;
use crate::ip::v4_value;
use crate::ip::v6_value;
use crate::ip::zero_groups;
use crate::text::dec;
use crate::text::digit_char;
use crate::text::first_at;
use crate::text::is_digit;
use crate::text::law_dec_reads_back;
use crate::text::lemma_first_at;
use crate::text::lemma_first_at_is;
use crate::text::push_dec;
use crate::text::split_on;
use vstd::prelude::*;
use vstd::string::StringExecFns;

verus! {

/// A hexadecimal digit as a character.
pub open spec fn hex_char(d: int) -> char {
    if d < 10 {
        digit_char(d)
    } else {
        (d + 87) as char
    }
}

pub fn char_of_hex(d: u8) -> (r: char)
    requires
        d <= 15,
    ensures
        r == hex_char(d as int),
        is_hex(r),
        hex_digit_value(r) == d,
{
    if d < 10 {
        (d + 48) as char
    } else {
        (d + 87) as char
    }
}

/// A number in lower-case hexadecimal digits.
pub open spec fn hex(n: nat) -> Seq<char>
    decreases n,
{
    if n < 16 {
        seq![hex_char(n as int)]
    } else {
        hex(n / 16).push(hex_char((n % 16) as int))
    }
}

pub fn push_hex(out: &mut String, n: u64)
    ensures
        final(out)@ == old(out)@ + hex(n as nat),
    decreases n,
{
    if n < 16 {
        out.push(char_of_hex(n as u8));
        assert(out@ =~= old(out)@ + hex(n as nat));
    } else {
        push_hex(out, n / 16);
        out.push(char_of_hex((n % 16) as u8));
        assert(out@ =~= old(out)@ + hex(n as nat));
    }
}

proof fn lemma_hex_reads_back(n: nat)
    ensures
        hex(n).len() >= 1,
        all_hex(hex(n)),
        hex_value(hex(n)) == n,
        n < 0x10 ==> hex(n).len() <= 1,
        n < 0x100 ==> hex(n).len() <= 2,
        n < 0x1000 ==> hex(n).len() <= 3,
        n < 0x1_0000 ==> hex(n).len() <= 4,
    decreases n,
{
    if n >= 16 {
        lemma_hex_reads_back(n / 16);
        assert(hex(n).drop_last() == hex(n / 16));
        assert forall|i: int| 0 <= i < hex(n).len() implies is_hex(#[trigger] hex(n)[i]) by {
            if i < hex(n).len() - 1 {
                assert(hex(n)[i] == hex(n / 16)[i]);
            }
        }
    } else {
        assert(hex(n).drop_last().len() == 0);
        assert(hex_value(hex(n).drop_last()) == 0);
    }
}

/// Parts put together with `c` between them.
pub open spec fn join(parts: Seq<Seq<char>>, c: char) -> Seq<char>
    decreases parts.len(),
{
    if parts.len() == 0 {
        Seq::empty()
    } else if parts.len() == 1 {
        parts[0]
    } else {
        parts[0] + seq![c] + join(parts.skip(1), c)
    }
}

proof fn lemma_join_push(parts: Seq<Seq<char>>, x: Seq<char>, c: char)
    requires
        parts.len() >= 1,
    ensures
        join(parts.push(x), c) == join(parts, c) + seq![c] + x,
    decreases parts.len(),
{
    assert(parts.push(x).skip(1) == parts.skip(1).push(x));
    if parts.len() > 1 {
        lemma_join_push(parts.skip(1), x, c);
        assert(parts[0] + seq![c] + (join(parts.skip(1), c) + seq![c] + x) =~= parts[0] + seq![c]
            + join(parts.skip(1), c) + seq![c] + x);
    } else {
        assert(parts.skip(1).push(x) == seq![x]);
        assert(join(seq![x], c) == x);
    }
}

/// `c` is not among the characters.
pub open spec fn lacks(s: Seq<char>, c: char) -> bool {
    forall|i: int| 0 <= i < s.len() ==> #[trigger] s[i] != c
}

/// Parts that lack the separator come back when what was put together is cut up.
pub proof fn law_split_undoes_join(parts: Seq<Seq<char>>, c: char)
    requires
        parts.len() >= 1,
        forall|i: int| 0 <= i < parts.len() ==> lacks(#[trigger] parts[i], c),
    ensures
        split_on(join(parts, c), c) == parts,
    decreases parts.len(),
{
    let s: Seq<char> = join(parts, c);
    assert(lacks(parts[0], c));
    if parts.len() == 1 {
        lemma_first_at_is(s, c, s.len() as int);
        assert(seq![s] =~= parts);
    } else {
        let rest: Seq<Seq<char>> = parts.skip(1);
        assert forall|i: int| 0 <= i < rest.len() implies lacks(#[trigger] rest[i], c) by {
            assert(rest[i] == parts[i + 1]);
        }
        law_split_undoes_join(rest, c);
        let n: int = parts[0].len() as int;
        assert(s[n] == c);
        assert forall|j: int| 0 <= j < n implies s[j] != c by {
            assert(s[j] == parts[0][j]);
        }
        lemma_first_at_is(s, c, n);
        assert(s.take(n) =~= parts[0]);
        assert(s.skip(n + 1) =~= join(rest, c));
        assert(seq![parts[0]] + rest =~= parts);
    }
}

/// A dotted address.
pub open spec fn v4_text(o: Seq<u8>) -> Seq<char> {
    join(
        seq![dec(o[0] as nat), dec(o[1] as nat), dec(o[2] as nat), dec(o[3] as nat)],
        '.',
    )
}

fn push_v4(out: &mut String, a: u8, b: u8, c: u8, d: u8)
    ensures
        final(out)@ == old(out)@ + v4_text(seq![a, b, c, d]),
{
    let ghost parts = seq![dec(a as nat), dec(b as nat), dec(c as nat), dec(d as nat)];
    push_dec(out, a as u64);
    out.push('.');
    push_dec(out, b as u64);
    out.push('.');
    push_dec(out, c as u64);
    out.push('.');
    push_dec(out, d as u64);
    proof {
        assert(parts.skip(1) =~= seq![dec(b as nat), dec(c as nat), dec(d as nat)]);
        assert(parts.skip(1).skip(1) =~= seq![dec(c as nat), dec(d as nat)]);
        assert(parts.skip(1).skip(1).skip(1) =~= seq![dec(d as nat)]);
        reveal_with_fuel(join, 4);
        assert(out@ =~= old(out)@ + join(parts, '.'));
    }
}

/// The groups of sixteen octets.
#[verifier::opaque]
pub open spec fn groups_of(o: Seq<u8>) -> Seq<u16> {
    Seq::new(8, |i: int| (o[2 * i] * 0x100 + o[2 * i + 1]) as u16)
}

fn unpack_groups(o: &[u8; 16]) -> (r: Vec<u16>)
    ensures
        r@ == groups_of(o@),
        r@.len() == 8,
{
    proof {
        reveal(groups_of);
    }
    let mut out: Vec<u16> = Vec::new();
    for i in 0..8usize
        invariant
            out@.len() == i,
            forall|j: int| 0 <= j < i ==> out@[j] == groups_of(o@)[j],
    {
        proof {
            reveal(groups_of);
        }
        out.push(o[2 * i] as u16 * 0x100 + o[2 * i + 1] as u16);
    }
    assert(out@ =~= groups_of(o@));
    out
}

/// Groups in hexadecimal with colons between them.
pub open spec fn colons(g: Seq<u16>) -> Seq<char> {
    join(g.map_values(|x: u16| hex(x as nat)), ':')
}

fn push_colons(out: &mut String, g: &Vec<u16>, from: usize, to: usize)
    requires
        from <= to <= g@.len(),
    ensures
        final(out)@ == old(out)@ + colons(g@.subrange(from as int, to as int)),
{
    let ghost start = out@;
    let ghost f = |x: u16| hex(x as nat);
    assert(g@.subrange(from as int, from as int).map_values(f).len() == 0);
    assert(out@ =~= start + colons(g@.subrange(from as int, from as int)));
    for i in from..to
        invariant
            from <= to <= g@.len(),
            f == (|x: u16| hex(x as nat)),
            out@ == start + colons(g@.subrange(from as int, i as int)),
    {
        let ghost sofar = g@.subrange(from as int, i as int).map_values(f);
        let ghost x = hex(g@[i as int] as nat);
        if i > from {
            out.push(':');
        }
        push_hex(out, g[i] as u64);
        proof {
            assert(g@.subrange(from as int, i + 1).map_values(f) =~= sofar.push(x));
            if i > from {
                lemma_join_push(sofar, x, ':');
                assert(out@ =~= start + (join(sofar, ':') + seq![':'] + x));
            } else {
                assert(sofar.push(x) =~= seq![x]);
                assert(out@ =~= start + x);
            }
        }
    }
}

/// Groups `st` to `st + n` are zero.
pub open spec fn zeros_at(g: Seq<u16>, st: int, n: int) -> bool {
    &&& 0 <= st
    &&& 0 <= n
    &&& st + n <= g.len()
    &&& forall|i: int| st <= i < st + n ==> #[trigger] g[i] == 0
}

/// The longest stretch of zero groups, the first where several are as long; at the start
/// and empty where no group is zero.
pub open spec fn is_longest_run(g: Seq<u16>, st: int, n: int) -> bool {
    &&& zeros_at(g, st, n)
    &&& n == 0 ==> st == 0
    &&& forall|a: int, m: int|
        #[trigger] zeros_at(g, a, m) ==> m <= n && (m == n && m > 0 ==> st <= a)
}

fn longest_run(g: &Vec<u16>) -> (r: (usize, usize))
    requires
        g@.len() == 8,
    ensures
        is_longest_run(g@, r.0 as int, r.1 as int),
{
    let mut best: usize = 0;
    let mut best_len: usize = 0;
    let mut cur: usize = 0;
    let mut cur_len: usize = 0;
    for i in 0..8usize
        invariant
            g@.len() == 8,
            zeros_at(g@, best as int, best_len as int),
            best_len == 0 ==> best == 0,
            best + best_len <= i,
            cur_len <= i,
            cur_len > 0 ==> cur + cur_len == i,
            cur_len > 0 ==> zeros_at(g@, cur as int, cur_len as int),
            i > cur_len ==> g@[i - cur_len - 1] != 0,
            cur_len <= best_len,
            cur_len == best_len && cur_len > 0 ==> best <= cur,
            forall|a: int, m: int|
                #[trigger] zeros_at(g@, a, m) && a + m <= i ==> m <= best_len && (m == best_len
                    && m > 0 ==> best <= a),
    {
        let ghost prev_len = cur_len;
        let ghost prev_best = best;
        let ghost prev_best_len = best_len;
        if g[i] == 0 {
            if cur_len == 0 {
                cur = i;
            }
            cur_len = cur_len + 1;
            if cur_len > best_len {
                best = cur;
                best_len = cur_len;
            }
        } else {
            cur_len = 0;
        }
        assert forall|a: int, m: int| #[trigger] zeros_at(g@, a, m) && a + m <= i + 1 implies m
            <= best_len && (m == best_len && m > 0 ==> best <= a) by {
            if a + m <= i {
            } else if m > 0 {
                assert(g@[i as int] == 0);
                assert(m <= cur_len) by {
                    if m > prev_len + 1 {
                        assert(g@[i - prev_len - 1] == 0);
                    }
                }
            }
        }
    }
    (best, best_len)
}

/// The address is an IPv4 address in IPv6 form.
pub open spec fn is_mapped(g: Seq<u16>) -> bool {
    zeros_at(g, 0, 5) && g[5] == 0xffff
}

/// `t` is the address in text: an IPv4 address in IPv6 form ends in a dotted address;
/// else the longest stretch of two or more zero groups is left out between two colons.
pub open spec fn v6_formats(o: Seq<u8>, t: Seq<char>) -> bool {
    let g: Seq<u16> = groups_of(o);
    if is_mapped(g) {
        t == seq![':', ':', 'f', 'f', 'f', 'f', ':'] + v4_text(seq![o[12], o[13], o[14], o[15]])
    } else {
        exists|st: int, n: int|
            #[trigger] is_longest_run(g, st, n) && t == if n > 1 {
                colons(g.take(st)) + seq![':', ':'] + colons(g.skip(st + n))
            } else {
                colons(g)
            }
    }
}

/// The address in text.
pub open spec fn v6_text(o: Seq<u8>) -> Seq<char> {
    choose|t: Seq<char>| v6_formats(o, t)
}

/// An address has one text.
pub proof fn lemma_v6_text(o: Seq<u8>, t: Seq<char>)
    requires
        v6_formats(o, t),
    ensures
        v6_text(o) == t,
{
    let u: Seq<char> = v6_text(o);
    assert(v6_formats(o, u));
    let g: Seq<u16> = groups_of(o);
    if !is_mapped(g) {
        let (a, m) = choose|st: int, n: int|
            #[trigger] is_longest_run(g, st, n) && t == if n > 1 {
                colons(g.take(st)) + seq![':', ':'] + colons(g.skip(st + n))
            } else {
                colons(g)
            };
        let (b, k) = choose|st: int, n: int|
            #[trigger] is_longest_run(g, st, n) && u == if n > 1 {
                colons(g.take(st)) + seq![':', ':'] + colons(g.skip(st + n))
            } else {
                colons(g)
            };
        assert(zeros_at(g, a, m));
        assert(zeros_at(g, b, k));
    }
}

fn format_v6(o: &[u8; 16]) -> (r: String)
    ensures
        v6_formats(o@, r@),
{
    let g: Vec<u16> = unpack_groups(o);
    let mut out: String = String::new();
    let run: (usize, usize) = longest_run(&g);
    if g[0] == 0 && g[1] == 0 && g[2] == 0 && g[3] == 0 && g[4] == 0 && g[5] == 0xffff {
        out.push(':');
        out.push(':');
        out.push('f');
        out.push('f');
        out.push('f');
        out.push('f');
        out.push(':');
        assert(out@ =~= seq![':', ':', 'f', 'f', 'f', 'f', ':']);
        push_v4(&mut out, o[12], o[13], o[14], o[15]);
        assert(is_mapped(groups_of(o@)));
        return out;
    }
    assert(!is_mapped(g@)) by {
        if zeros_at(g@, 0, 5) {
            assert(g@[0] == 0 && g@[1] == 0 && g@[2] == 0 && g@[3] == 0 && g@[4] == 0);
        }
    }
    if run.1 > 1 {
        push_colons(&mut out, &g, 0, run.0);
        out.push(':');
        out.push(':');
        push_colons(&mut out, &g, run.0 + run.1, 8);
        proof {
            assert(g@.subrange(0, run.0 as int) == g@.take(run.0 as int));
            assert(g@.subrange(run.0 + run.1, 8) == g@.skip(run.0 + run.1));
            assert(out@ =~= colons(g@.take(run.0 as int)) + seq![':', ':'] + colons(
                g@.skip(run.0 + run.1),
            ));
        }
    } else {
        push_colons(&mut out, &g, 0, 8);
        assert(g@.subrange(0, 8) == g@);
        assert(out@ =~= colons(g@));
    }
    assert(is_longest_run(g@, run.0 as int, run.1 as int));
    out
}

/// `t` is the address of a key in text. A key of no known family is named by its number.
pub open spec fn key_formats(key: IpKey, t: Seq<char>) -> bool {
    if key.family == 4 {
        t == v4_text(seq![key.addr[12], key.addr[13], key.addr[14], key.addr[15]])
    } else if key.family == 6 {
        v6_formats(key.addr@, t)
    } else {
        t == "unknown(family="@ + dec(key.family as nat) + ")"@
    }
}

/// The text of an address with the number of its family.
pub open spec fn address_text(family: u8, addr: Seq<u8>) -> Seq<char> {
    if family == 4 {
        v4_text(addr.skip(12))
    } else if family == 6 {
        v6_text(addr)
    } else {
        "unknown(family="@ + dec(family as nat) + ")"@
    }
}

/// The address of a key in text.
pub open spec fn key_text(key: IpKey) -> Seq<char> {
    address_text(key.family, key.addr@)
}

/// A key has one text.
pub proof fn lemma_key_text(key: IpKey, t: Seq<char>)
    ensures
        key_formats(key, t) == (t == key_text(key)),
{
    if key.family == 4 {
        assert(key.addr@.skip(12) =~= seq![key.addr[12], key.addr[13], key.addr[14], key.addr[15]]);
    } else if key.family == 6 {
        if key_formats(key, t) {
            lemma_v6_text(key.addr@, t);
        }
        lemma_v6_has_text(key.addr@);
    }
}

proof fn lemma_run_exists(g: Seq<u16>, n: int)
    requires
        g.len() >= n >= 0,
        forall|a: int, m: int| #[trigger] zeros_at(g, a, m) ==> m <= n,
    ensures
        exists|st: int, k: int| #[trigger] is_longest_run(g, st, k),
    decreases n,
{
    if n == 0 {
        assert(zeros_at(g, 0, 0));
        assert(is_longest_run(g, 0, 0));
    } else if exists|st: int| #[trigger] zeros_at(g, st, n) {
        let st: int = choose|st: int| #[trigger] zeros_at(g, st, n);
        lemma_first_run(g, st, n);
    } else {
        assert forall|a: int, m: int| #[trigger] zeros_at(g, a, m) implies m <= n - 1 by {
            assert(!zeros_at(g, a, n));
        }
        lemma_run_exists(g, n - 1);
    }
}

proof fn lemma_first_run(g: Seq<u16>, st: int, n: int)
    requires
        n > 0,
        zeros_at(g, st, n),
        forall|a: int, m: int| #[trigger] zeros_at(g, a, m) ==> m <= n,
    ensures
        exists|s: int, k: int| #[trigger] is_longest_run(g, s, k),
    decreases st,
{
    if exists|a: int| a < st && #[trigger] zeros_at(g, a, n) {
        let a: int = choose|a: int| a < st && #[trigger] zeros_at(g, a, n);
        lemma_first_run(g, a, n);
    } else {
        assert(is_longest_run(g, st, n));
    }
}

proof fn lemma_v6_has_text(o: Seq<u8>)
    ensures
        v6_formats(o, v6_text(o)),
{
    let g: Seq<u16> = groups_of(o);
    if is_mapped(g) {
        let t: Seq<char> = seq![':', ':', 'f', 'f', 'f', 'f', ':'] + v4_text(
            seq![o[12], o[13], o[14], o[15]],
        );
        assert(v6_formats(o, t));
    } else {
        lemma_run_exists(g, g.len() as int);
        let (st, n) = choose|st: int, n: int| #[trigger] is_longest_run(g, st, n);
        let t: Seq<char> = if n > 1 {
            colons(g.take(st)) + seq![':', ':'] + colons(g.skip(st + n))
        } else {
            colons(g)
        };
        assert(v6_formats(o, t));
    }
}

/// The address of a key in text.
pub fn format_ip_key(key: &IpKey) -> (r: String)
    ensures
        key_formats(*key, r@),
        r@ == key_text(*key),
{
    let out: String = format_address(key);
    proof {
        lemma_key_text(*key, out@);
    }
    out
}

fn format_address(key: &IpKey) -> (r: String)
    ensures
        key_formats(*key, r@),
{
    if key.family == 4 {
        let mut out: String = String::new();
        push_v4(&mut out, key.addr[12], key.addr[13], key.addr[14], key.addr[15]);
        assert(out@ =~= v4_text(seq![key.addr[12], key.addr[13], key.addr[14], key.addr[15]]));
        out
    } else if key.family == 6 {
        format_v6(&key.addr)
    } else {
        let mut out: String = String::new();
        out.append("unknown(family=");
        push_dec(&mut out, key.family as u64);
        out.append(")");
        assert(out@ =~= "unknown(family="@ + dec(key.family as nat) + ")"@);
        out
    }
}

proof fn lemma_dec_octet(o: u8)
    ensures
        octet_value(dec(o as nat)) == Some(o),
        lacks(dec(o as nat), '.'),
        lacks(dec(o as nat), ':'),
        dec(o as nat).len() >= 1,
{
    law_dec_reads_back(o as nat);
    assert forall|i: int| 0 <= i < dec(o as nat).len() implies #[trigger] dec(o as nat)[i] != '.'
        && dec(o as nat)[i] != ':' by {
        assert(is_digit(dec(o as nat)[i]));
    }
}

proof fn lemma_v4_reads_back(o: Seq<u8>)
    requires
        o.len() == 4,
    ensures
        v4_value(v4_text(o)) == Some(o),
        lacks(v4_text(o), ':'),
        v4_text(o).len() >= 1,
{
    reveal(v4_value);
    let parts: Seq<Seq<char>> = seq![
        dec(o[0] as nat),
        dec(o[1] as nat),
        dec(o[2] as nat),
        dec(o[3] as nat),
    ];
    lemma_dec_octet(o[0]);
    lemma_dec_octet(o[1]);
    lemma_dec_octet(o[2]);
    lemma_dec_octet(o[3]);
    assert forall|i: int| 0 <= i < parts.len() implies lacks(#[trigger] parts[i], '.') by {}
    law_split_undoes_join(parts, '.');
    assert(o =~= seq![o[0], o[1], o[2], o[3]]);
    assert forall|i: int| 0 <= i < parts.len() implies lacks(#[trigger] parts[i], ':') by {}
    lemma_join_lacks(parts, '.', ':');
    assert(v4_text(o).len() >= 1) by {
        reveal_with_fuel(join, 2);
    }
}

proof fn lemma_join_lacks(parts: Seq<Seq<char>>, c: char, d: char)
    requires
        c != d,
        forall|i: int| 0 <= i < parts.len() ==> lacks(#[trigger] parts[i], d),
    ensures
        lacks(join(parts, c), d),
    decreases parts.len(),
{
    if parts.len() > 0 {
        assert(lacks(parts[0], d));
        let rest: Seq<Seq<char>> = parts.skip(1);
        assert forall|i: int| 0 <= i < rest.len() implies lacks(#[trigger] rest[i], d) by {
            assert(rest[i] == parts[i + 1]);
        }
        lemma_join_lacks(rest, c, d);
        let s: Seq<char> = join(parts, c);
        if parts.len() > 1 {
            let r: Seq<char> = join(rest, c);
            assert forall|i: int| 0 <= i < s.len() implies #[trigger] s[i] != d by {
                let n: int = parts[0].len() as int;
                if i < n {
                    assert(s[i] == parts[0][i]);
                } else if i == n {
                    assert(s[i] == c);
                } else {
                    assert(s[i] == r[i - n - 1]);
                }
            }
        }
    }
}

pub open spec fn hexes(g: Seq<u16>) -> Seq<Seq<char>> {
    g.map_values(|x: u16| hex(x as nat))
}

proof fn lemma_hex_group(x: u16)
    ensures
        group_value(hex(x as nat)) == Some(x),
        lacks(hex(x as nat), '.'),
        lacks(hex(x as nat), ':'),
        hex(x as nat).len() >= 1,
{
    lemma_hex_reads_back(x as nat);
    assert forall|i: int| 0 <= i < hex(x as nat).len() implies #[trigger] hex(x as nat)[i] != '.'
        && hex(x as nat)[i] != ':' by {
        assert(is_hex(hex(x as nat)[i]));
    }
}

proof fn lemma_no_dot_no_v4(s: Seq<char>)
    requires
        lacks(s, '.'),
    ensures
        v4_value(s) is None,
{
    reveal(v4_value);
    lemma_first_at_is(s, '.', s.len() as int);
    assert(split_on(s, '.').len() == 1);
}

proof fn lemma_groups_read_back(g: Seq<u16>, tail4: bool)
    ensures
        groups_value(hexes(g), tail4) == Some(g),
    decreases g.len(),
{
    if g.len() > 0 {
        lemma_hex_group(g[0]);
        lemma_no_dot_no_v4(hex(g[0] as nat));
        lemma_groups_read_back(g.skip(1), tail4);
        assert(hexes(g).skip(1) =~= hexes(g.skip(1)));
        assert(seq![g[0]] + g.skip(1) =~= g);
    } else {
        assert(g =~= Seq::empty());
    }
}

/// What `colons` writes has no dot, no two colons together, and no colon at its ends.
proof fn lemma_colons_shape(g: Seq<u16>)
    ensures
        lacks(colons(g), '.'),
        g.len() == 0 <==> colons(g).len() == 0,
        g.len() > 0 ==> colons(g)[0] != ':' && colons(g).last() != ':',
        forall|i: int|
            0 <= i && i + 1 < colons(g).len() ==> !#[trigger] double_at(colons(g), i),
        g.len() > 0 ==> split_on(colons(g), ':') == hexes(g),
    decreases g.len(),
{
    let parts: Seq<Seq<char>> = hexes(g);
    assert(colons(g) == join(parts, ':'));
    assert forall|i: int| 0 <= i < parts.len() implies lacks(#[trigger] parts[i], '.') && lacks(
        parts[i],
        ':',
    ) by {
        lemma_hex_group(g[i]);
    }
    lemma_join_lacks(parts, ':', '.');
    if g.len() > 0 {
        law_split_undoes_join(parts, ':');
        lemma_hex_group(g[0]);
        let s: Seq<char> = colons(g);
        let n: int = parts[0].len() as int;
        assert(parts[0] == hex(g[0] as nat));
        if g.len() > 1 {
            lemma_colons_shape(g.skip(1));
            let r: Seq<char> = colons(g.skip(1));
            assert(parts.skip(1) =~= hexes(g.skip(1)));
            assert(s == parts[0] + seq![':'] + r);
            assert(s[0] == parts[0][0]);
            assert(s.last() == r.last());
            assert forall|i: int| 0 <= i && i + 1 < s.len() implies !#[trigger] double_at(s, i) by {
                if i < n {
                    assert(s[i] == parts[0][i]);
                } else if i == n {
                    assert(s[i + 1] == r[0]);
                } else {
                    assert(!double_at(r, i - n - 1));
                    assert(s[i] == r[i - n - 1]);
                    assert(s[i + 1] == r[i - n]);
                }
            }
        } else {
            assert(s == parts[0]);
            assert forall|i: int| 0 <= i && i + 1 < s.len() implies !#[trigger] double_at(s, i) by {
                assert(s[i] == parts[0][i]);
            }
        }
    }
}

proof fn lemma_octets_of_groups(o: Seq<u8>)
    requires
        o.len() == 16,
    ensures
        groups_of(o).len() == 8,
        octets_of(groups_of(o)) == o,
{
    reveal(groups_of);
    let g: Seq<u16> = groups_of(o);
    assert forall|k: int| 0 <= k < 16 implies octets_of(g)[k] == o[k] by {
        if k % 2 == 0 {
            assert(2 * (k / 2) == k);
        } else {
            assert(2 * (k / 2) + 1 == k);
        }
    }
    assert(octets_of(g) =~= o);
}

proof fn lemma_plain_reads_back(g: Seq<u16>)
    requires
        g.len() == 8,
    ensures
        v6_value(colons(g)) == Some(octets_of(g)),
        v4_value(colons(g)) is None,
{
    reveal(v6_value);
    let s: Seq<char> = colons(g);
    lemma_colons_shape(g);
    lemma_first_double_is(s, s.len() as int);
    lemma_groups_read_back(g, true);
    lemma_no_dot_no_v4(s);
}

proof fn lemma_side_reads_back(g: Seq<u16>, tail4: bool)
    ensures
        side_value(colons(g), tail4) == Some(g),
{
    lemma_colons_shape(g);
    if g.len() > 0 {
        lemma_groups_read_back(g, tail4);
    } else {
        assert(g =~= Seq::empty());
    }
}

proof fn lemma_short_reads_back(g: Seq<u16>, st: int, n: int)
    requires
        g.len() == 8,
        zeros_at(g, st, n),
        n > 1,
    ensures
        v6_value(colons(g.take(st)) + seq![':', ':'] + colons(g.skip(st + n))) == Some(
            octets_of(g),
        ),
        v4_value(colons(g.take(st)) + seq![':', ':'] + colons(g.skip(st + n))) is None,
{
    reveal(v6_value);
    let h: Seq<u16> = g.take(st);
    let t: Seq<u16> = g.skip(st + n);
    let a: Seq<char> = colons(h);
    let b: Seq<char> = colons(t);
    let s: Seq<char> = a + seq![':', ':'] + b;
    lemma_colons_shape(h);
    lemma_colons_shape(t);
    let i: int = a.len() as int;
    assert(s[i] == ':' && s[i + 1] == ':');
    assert forall|j: int| 0 <= j < i && j + 1 < s.len() implies !#[trigger] double_at(s, j) by {
        assert(s[j] == a[j]);
        if j + 1 < i {
            assert(!double_at(a, j));
            assert(s[j + 1] == a[j + 1]);
        } else {
            assert(a.last() == a[j]);
        }
    }
    lemma_first_double_is(s, i);
    assert(s.take(i) =~= a);
    assert(s.skip(i + 2) =~= b);
    lemma_side_reads_back(h, false);
    lemma_side_reads_back(t, true);
    assert(h + zero_groups(8 - h.len() - t.len()) + t =~= g);
    assert forall|j: int| 0 <= j < s.len() implies #[trigger] s[j] != '.' by {
        if j < i {
            assert(s[j] == a[j]);
        } else if j >= i + 2 {
            assert(s[j] == b[j - i - 2]);
        }
    }
    lemma_no_dot_no_v4(s);
}

/// Four digits of ones.
proof fn lemma_ones_group()
    ensures
        group_value(seq!['f', 'f', 'f', 'f']) == Some(0xffffu16),
        lacks(seq!['f', 'f', 'f', 'f'], ':'),
{
    let f: Seq<char> = seq!['f', 'f', 'f', 'f'];
    assert(f.drop_last() =~= seq!['f', 'f', 'f']);
    assert(f.drop_last().drop_last() =~= seq!['f', 'f']);
    assert(f.drop_last().drop_last().drop_last() =~= seq!['f']);
    assert(f.drop_last().drop_last().drop_last().drop_last().len() == 0);
    reveal_with_fuel(hex_value, 5);
}

/// What starts with a colon is no dotted address.
proof fn lemma_colon_no_v4(s: Seq<char>)
    requires
        s.len() > 0,
        s[0] == ':',
    ensures
        v4_value(s) is None,
{
    reveal(v4_value);
    let i: int = first_at(s, '.');
    lemma_first_at(s, '.');
    if i > 0 && i < s.len() {
        let p: Seq<Seq<char>> = split_on(s, '.');
        assert(p[0] == s.take(i));
        assert(p[0][0] == ':');
        assert(!is_digit(p[0][0]));
        assert(octet_value(p[0]) is None);
    } else if i >= s.len() {
        assert(split_on(s, '.').len() == 1);
    } else {
        assert(s[0] == ':');
    }
}

/// The last three groups of an IPv4 address in IPv6 form.
proof fn lemma_mapped_tail(q: Seq<u8>)
    requires
        q.len() == 4,
    ensures
        side_value(seq!['f', 'f', 'f', 'f', ':'] + v4_text(q), true) == Some(
            seq![
                0xffffu16,
                (q[0] * 0x100 + q[1]) as u16,
                (q[2] * 0x100 + q[3]) as u16,
            ],
        ),
{
    let v: Seq<char> = v4_text(q);
    let f: Seq<char> = seq!['f', 'f', 'f', 'f'];
    let t: Seq<char> = seq!['f', 'f', 'f', 'f', ':'] + v;
    lemma_v4_reads_back(q);
    lemma_ones_group();
    let parts: Seq<Seq<char>> = seq![f, v];
    let rest: Seq<Seq<char>> = seq![v];
    assert(parts.skip(1) =~= rest);
    assert(join(rest, ':') == v);
    assert(join(parts, ':') =~= t);
    assert forall|i: int| 0 <= i < parts.len() implies lacks(#[trigger] parts[i], ':') by {}
    law_split_undoes_join(parts, ':');
    let last: Seq<u16> = seq![(q[0] * 0x100 + q[1]) as u16, (q[2] * 0x100 + q[3]) as u16];
    assert(groups_value(rest, true) == Some(last));
    assert(groups_value(parts, true) == Some(seq![0xffffu16] + last));
    assert(seq![0xffffu16] + last =~= seq![
        0xffffu16,
        (q[0] * 0x100 + q[1]) as u16,
        (q[2] * 0x100 + q[3]) as u16,
    ]);
}

proof fn lemma_mapped_reads_back(o: Seq<u8>)
    requires
        o.len() == 16,
        is_mapped(groups_of(o)),
    ensures
        ({
            let s: Seq<char> = seq![':', ':', 'f', 'f', 'f', 'f', ':'] + v4_text(
                seq![o[12], o[13], o[14], o[15]],
            );
            v6_value(s) == Some(octets_of(groups_of(o))) && v4_value(s) is None
        }),
{
    reveal(v6_value);
    reveal(groups_of);
    let g: Seq<u16> = groups_of(o);
    let q: Seq<u8> = seq![o[12], o[13], o[14], o[15]];
    let v: Seq<char> = v4_text(q);
    let s: Seq<char> = seq![':', ':', 'f', 'f', 'f', 'f', ':'] + v;
    lemma_colon_no_v4(s);
    lemma_first_double_is(s, 0);
    assert(s.take(0).len() == 0);
    assert(s.skip(2) =~= seq!['f', 'f', 'f', 'f', ':'] + v);
    lemma_mapped_tail(q);
    let tail: Seq<u16> = seq![0xffffu16, g[6], g[7]];
    let head: Seq<u16> = Seq::empty();
    assert(side_value(s.skip(2), true) == Some(tail));
    assert(side_value(s.take(0), false) == Some(head));
    assert(head + zero_groups(5) + tail =~= g) by {
        assert(zeros_at(g, 0, 5));
        assert(g[0] == 0 && g[1] == 0 && g[2] == 0 && g[3] == 0 && g[4] == 0);
    }
}

proof fn lemma_v6_reads_back(o: Seq<u8>, t: Seq<char>)
    requires
        o.len() == 16,
        v6_formats(o, t),
    ensures
        v6_value(t) == Some(o),
        v4_value(t) is None,
{
    let g: Seq<u16> = groups_of(o);
    lemma_octets_of_groups(o);
    if is_mapped(g) {
        lemma_mapped_reads_back(o);
    } else {
        let (st, n) = choose|st: int, n: int|
            #[trigger] is_longest_run(g, st, n) && t == if n > 1 {
                colons(g.take(st)) + seq![':', ':'] + colons(g.skip(st + n))
            } else {
                colons(g)
            };
        if n > 1 {
            lemma_short_reads_back(g, st, n);
        } else {
            lemma_plain_reads_back(g);
        }
    }
}

proof fn lemma_v4_key_reads_back(key: IpKey)
    requires
        forall|i: int| 0 <= i < 12 ==> key.addr@[i] == 0,
    ensures
        ip_value(v4_text(seq![key.addr[12], key.addr[13], key.addr[14], key.addr[15]])) == Some(
            (4u8, key.addr@),
        ),
{
    let q: Seq<u8> = seq![key.addr[12], key.addr[13], key.addr[14], key.addr[15]];
    lemma_v4_reads_back(q);
    assert(IpKey::mapped(q) =~= key.addr@);
}

/// The text of a key of either family reads back as the key.
pub proof fn law_formatted_key_reads_back(key: IpKey, t: Seq<char>)
    requires
        key.family == 4 || key.family == 6,
        key.family == 4 ==> forall|i: int| 0 <= i < 12 ==> key.addr@[i] == 0,
        key_formats(key, t),
    ensures
        ip_value(t) == Some((key.family, key.addr@)),
{
    if key.family == 4 {
        lemma_v4_key_reads_back(key);
    } else {
        lemma_v6_reads_back(key.addr@, t);
    }
}

} // verus!
