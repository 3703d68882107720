//! Addresses and networks as text.

use crate::common::IpKey;
use crate::prefix::bit_weight;
use crate::prefix::weight;
use crate::text::all_digits;
use crate::text::chars_of;
use crate::text::dec_value;
use crate::text::digit;
use crate::text::digit_value;
use crate::text::is_digit;
use crate::text::parse_uint;
use crate::text::slice_of;
use crate::text::split;
use crate::text::split_on;
use crate::text::uint_value;
use crate::text::views;
use vstd::prelude::*;

verus! {

/// Why a text is not an address or network.
#[derive(Clone, Copy, Debug, PartialEq, Eq, Structural)]
pub enum IpError {
    /// Not an IPv4 or IPv6 address.
    InvalidAddress,
    /// Not an address and a prefix length around one slash.
    InvalidCidr,
    /// The prefix length is not a number.
    InvalidPrefix,
    /// The prefix is longer than the address.
    PrefixTooLong,
    /// A network where a single host is wanted; its prefix should have this length.
    HostRequired(u8),
}

/// The value of one part of a dotted address: one to three digits, without leading zero,
/// at most 255.
pub open spec fn octet_value(s: Seq<char>) -> Option<u8> {
    if 1 <= s.len() <= 3 && all_digits(s) && (s.len() > 1 ==> s[0] != '0') && dec_value(s) <= 255 {
        Some(dec_value(s) as u8)
    } else {
        None
    }
}

/// The octets of a dotted address: four parts between dots.
#[verifier::opaque]
pub open spec fn v4_value(s: Seq<char>) -> Option<Seq<u8>> {
    let parts: Seq<Seq<char>> = split_on(s, '.');
    if parts.len() == 4 && octet_value(parts[0]) is Some && octet_value(parts[1]) is Some
        && octet_value(parts[2]) is Some && octet_value(parts[3]) is Some {
        Some(
            seq![
                octet_value(parts[0])->0,
                octet_value(parts[1])->0,
                octet_value(parts[2])->0,
                octet_value(parts[3])->0,
            ],
        )
    } else {
        None
    }
}

fn parse_octet(v: &Vec<char>) -> (r: Option<u8>)
    ensures
        r == octet_value(v@),
{
    let n: usize = v.len();
    if n < 1 || n > 3 || (n > 1 && v[0] == '0') {
        return None;
    }
    let mut value: u16 = 0;
    let mut i: usize = 0;
    while i < n
        invariant
            n == v@.len(),
            i <= n <= 3,
            value == dec_value(v@.take(i as int)),
            i == 0 ==> value == 0,
            i == 1 ==> value <= 9,
            i == 2 ==> value <= 99,
            i == 3 ==> value <= 999,
            forall|j: int| 0 <= j < i ==> is_digit(#[trigger] v@[j]),
        decreases n - i,
    {
        let x: u8 = match digit(v[i]) {
            Some(x) => x,
            None => {
                assert(!is_digit(v@[i as int]));
                return None;
            },
        };
        assert(v@.take(i + 1).drop_last() == v@.take(i as int));
        assert(v@.take(i + 1).last() == v@[i as int]);
        value = value * 10 + x as u16;
        i = i + 1;
    }
    assert(v@.take(n as int) == v@);
    if value > 255 {
        None
    } else {
        Some(value as u8)
    }
}

/// Reads a dotted address.
pub fn parse_v4(v: &Vec<char>) -> (r: Option<[u8; 4]>)
    ensures
        match r {
            Some(o) => v4_value(v@) == Some(o@),
            None => v4_value(v@) is None,
        },
{
    proof {
        reveal(v4_value);
    }
    let parts: Vec<Vec<char>> = split(v, '.');
    assert(views(parts@) == split_on(v@, '.'));
    if parts.len() != 4 {
        return None;
    }
    assert(views(parts@)[0] == parts@[0]@);
    assert(views(parts@)[1] == parts@[1]@);
    assert(views(parts@)[2] == parts@[2]@);
    assert(views(parts@)[3] == parts@[3]@);
    match (
        parse_octet(&parts[0]),
        parse_octet(&parts[1]),
        parse_octet(&parts[2]),
        parse_octet(&parts[3]),
    ) {
        (Some(a), Some(b), Some(c), Some(d)) => {
            let o: [u8; 4] = [a, b, c, d];
            assert(o@ =~= seq![a, b, c, d]);
            Some(o)
        },
        _ => None,
    }
}

pub open spec fn is_hex(c: char) -> bool {
    is_digit(c) || 'a' <= c <= 'f' || 'A' <= c <= 'F'
}

pub open spec fn hex_digit_value(c: char) -> int {
    if is_digit(c) {
        digit_value(c)
    } else if 'a' <= c <= 'f' {
        c as int - 'a' as int + 10
    } else {
        c as int - 'A' as int + 10
    }
}

fn hex_digit(c: char) -> (r: Option<u8>)
    ensures
        match r {
            Some(d) => is_hex(c) && d == hex_digit_value(c) && d <= 15,
            None => !is_hex(c),
        },
{
    if '0' <= c && c <= '9' {
        Some((c as u32 - 48) as u8)
    } else if 'a' <= c && c <= 'f' {
        Some((c as u32 - 97 + 10) as u8)
    } else if 'A' <= c && c <= 'F' {
        Some((c as u32 - 65 + 10) as u8)
    } else {
        None
    }
}

pub open spec fn all_hex(s: Seq<char>) -> bool {
    forall|i: int| 0 <= i < s.len() ==> is_hex(#[trigger] s[i])
}

/// The value of hexadecimal digits.
pub open spec fn hex_value(s: Seq<char>) -> nat
    decreases s.len(),
{
    if s.len() == 0 {
        0
    } else {
        hex_value(s.drop_last()) * 16 + hex_digit_value(s.last()) as nat
    }
}

/// The value of one group of an IPv6 address: one to four hexadecimal digits.
pub open spec fn group_value(s: Seq<char>) -> Option<u16> {
    if 1 <= s.len() <= 4 && all_hex(s) {
        Some(hex_value(s) as u16)
    } else {
        None
    }
}

fn parse_group(v: &Vec<char>) -> (r: Option<u16>)
    ensures
        r == group_value(v@),
{
    let n: usize = v.len();
    if n < 1 || n > 4 {
        return None;
    }
    let mut value: u32 = 0;
    let mut i: usize = 0;
    while i < n
        invariant
            n == v@.len(),
            i <= n <= 4,
            value == hex_value(v@.take(i as int)),
            i == 0 ==> value == 0,
            i == 1 ==> value <= 0xf,
            i == 2 ==> value <= 0xff,
            i == 3 ==> value <= 0xfff,
            i == 4 ==> value <= 0xffff,
            forall|j: int| 0 <= j < i ==> is_hex(#[trigger] v@[j]),
        decreases n - i,
    {
        let x: u8 = match hex_digit(v[i]) {
            Some(x) => x,
            None => {
                assert(!is_hex(v@[i as int]));
                return None;
            },
        };
        assert(v@.take(i + 1).drop_last() == v@.take(i as int));
        assert(v@.take(i + 1).last() == v@[i as int]);
        value = value * 16 + x as u32;
        i = i + 1;
    }
    assert(v@.take(n as int) == v@);
    Some(value as u16)
}

/// The groups that parts between colons stand for. Where `tail4` says so the last part
/// may be a dotted address, which stands for two groups.
pub open spec fn groups_value(parts: Seq<Seq<char>>, tail4: bool) -> Option<Seq<u16>>
    decreases parts.len(),
{
    if parts.len() == 0 {
        Some(Seq::empty())
    } else if parts.len() == 1 && tail4 && v4_value(parts[0]) is Some {
        let o: Seq<u8> = v4_value(parts[0])->0;
        Some(seq![(o[0] * 0x100 + o[1]) as u16, (o[2] * 0x100 + o[3]) as u16])
    } else {
        match (group_value(parts[0]), groups_value(parts.skip(1), tail4)) {
            (Some(g), Some(rest)) => Some(seq![g] + rest),
            _ => None,
        }
    }
}

/// The groups of one side of an address; the empty side has none.
pub open spec fn side_value(s: Seq<char>, tail4: bool) -> Option<Seq<u16>> {
    if s.len() == 0 {
        Some(Seq::empty())
    } else {
        groups_value(split_on(s, ':'), tail4)
    }
}

fn parse_side(v: &Vec<char>, tail4: bool) -> (r: Option<Vec<u16>>)
    ensures
        match r {
            Some(g) => side_value(v@, tail4) == Some(g@),
            None => side_value(v@, tail4) is None,
        },
{
    if v.len() == 0 {
        return Some(Vec::new());
    }
    let parts: Vec<Vec<char>> = split(v, ':');
    let ghost all = views(parts@);
    let n: usize = parts.len();
    let mut out: Vec<u16> = Vec::new();
    let mut i: usize = 0;
    assert(all.skip(0) == all);
    assert forall|x: Seq<u16>| #[trigger] (out@ + x) == x by {
        assert(out@ + x =~= x);
    }
    while i < n
        invariant
            n == parts@.len(),
            n >= 1,
            i <= n,
            all == views(parts@),
            all == split_on(v@, ':'),
            v@.len() > 0,
            i == n ==> groups_value(all, tail4) == Some(out@),
            i < n ==> groups_value(all, tail4) == (match groups_value(all.skip(i as int), tail4) {
                Some(rest) => Some(out@ + rest),
                None => None,
            }),
        decreases n - i,
    {
        let ghost rest = all.skip(i as int);
        assert(rest[0] == parts@[i as int]@);
        assert(rest.skip(1) == all.skip(i + 1));
        let ghost before = out@;
        if i == n - 1 && tail4 {
            if let Some(o) = parse_v4(&parts[i]) {
                out.push(o[0] as u16 * 0x100 + o[1] as u16);
                out.push(o[2] as u16 * 0x100 + o[3] as u16);
                assert(out@ =~= before + groups_value(rest, tail4)->0);
                return Some(out);
            }
        }
        match parse_group(&parts[i]) {
            Some(g) => {
                out.push(g);
                assert(rest.skip(1).len() == 0 ==> groups_value(rest.skip(1), tail4) == Some(
                    Seq::<u16>::empty(),
                ));
                assert forall|x: Seq<u16>| before + (seq![g] + x) == #[trigger] (out@ + x) by {
                    assert(before + (seq![g] + x) =~= out@ + x);
                }
                assert(out@ + Seq::<u16>::empty() =~= out@);
            },
            None => {
                return None;
            },
        }
        i = i + 1;
    }
    Some(out)
}

/// Two colons stand together at `i`.
pub open spec fn double_at(s: Seq<char>, i: int) -> bool {
    s[i] == ':' && s[i + 1] == ':'
}

/// Where two colons first stand together; the length of `s` where they nowhere do.
pub open spec fn first_double(s: Seq<char>) -> int
    decreases s.len(),
{
    if s.len() < 2 {
        s.len() as int
    } else if s[0] == ':' && s[1] == ':' {
        0
    } else {
        1 + first_double(s.skip(1))
    }
}

pub proof fn lemma_first_double(s: Seq<char>)
    ensures
        0 <= first_double(s) <= s.len(),
        first_double(s) < s.len() ==> first_double(s) + 1 < s.len() && s[first_double(s)] == ':'
            && s[first_double(s) + 1] == ':',
        forall|i: int|
            0 <= i < first_double(s) && i + 1 < s.len() ==> !#[trigger] double_at(s, i),
    decreases s.len(),
{
    if s.len() >= 2 && !(s[0] == ':' && s[1] == ':') {
        lemma_first_double(s.skip(1));
        assert forall|i: int| 0 <= i < first_double(s) && i + 1 < s.len() implies !#[trigger] double_at(
            s,
            i,
        ) by {
            if i > 0 {
                assert(!double_at(s.skip(1), i - 1));
            }
        }
    }
}

pub proof fn lemma_first_double_is(s: Seq<char>, i: int)
    requires
        0 <= i <= s.len(),
        i < s.len() ==> i + 1 < s.len() && s[i] == ':' && s[i + 1] == ':',
        forall|j: int| 0 <= j < i && j + 1 < s.len() ==> !#[trigger] double_at(s, j),
    ensures
        first_double(s) == i,
{
    lemma_first_double(s);
    if first_double(s) < i {
        assert(double_at(s, first_double(s)));
    } else if i < first_double(s) {
        assert(double_at(s, i));
    }
}

fn find_double(v: &Vec<char>) -> (r: usize)
    ensures
        r == first_double(v@),
        r < v@.len() ==> r + 1 < v@.len(),
        r <= v@.len(),
{
    let n: usize = v.len();
    let mut i: usize = 0;
    while i < n && !(n - i >= 2 && v[i] == ':' && v[i + 1] == ':')
        invariant
            n == v@.len(),
            i <= n,
            forall|j: int| 0 <= j < i && j + 1 < n ==> !#[trigger] double_at(v@, j),
        decreases n - i,
    {
        i = i + 1;
    }
    proof {
        lemma_first_double_is(v@, i as int);
    }
    i
}

/// The octets of groups.
pub open spec fn octets_of(g: Seq<u16>) -> Seq<u8> {
    Seq::new(
        2 * g.len(),
        |k: int|
            if k % 2 == 0 {
                (g[k / 2] / 0x100) as u8
            } else {
                (g[k / 2] % 0x100) as u8
            },
    )
}

pub open spec fn zero_groups(n: int) -> Seq<u16> {
    Seq::new(n as nat, |i: int| 0u16)
}

/// The octets of an IPv6 address in text: eight groups between colons, or fewer with one
/// `::` for the zeros between them; the last two groups may be a dotted address.
#[verifier::opaque]
pub open spec fn v6_value(s: Seq<char>) -> Option<Seq<u8>> {
    let i: int = first_double(s);
    if i >= s.len() {
        match side_value(s, true) {
            Some(g) => if g.len() == 8 {
                Some(octets_of(g))
            } else {
                None
            },
            None => None,
        }
    } else {
        match (side_value(s.take(i), false), side_value(s.skip(i + 2), true)) {
            (Some(h), Some(t)) => if h.len() + t.len() <= 7 {
                Some(octets_of(h + zero_groups(8 - h.len() - t.len()) + t))
            } else {
                None
            },
            _ => None,
        }
    }
}

fn pack_groups(g: &Vec<u16>) -> (r: [u8; 16])
    requires
        g@.len() == 8,
    ensures
        r@ == octets_of(g@),
{
    let mut out: [u8; 16] = [0u8; 16];
    for i in 0..8usize
        invariant
            g@.len() == 8,
            forall|k: int| 0 <= k < 2 * i ==> out@[k] == octets_of(g@)[k],
    {
        out[2 * i] = (g[i] / 0x100) as u8;
        out[2 * i + 1] = (g[i] % 0x100) as u8;
    }
    assert(out@ =~= octets_of(g@));
    out
}

/// Reads an IPv6 address.
pub fn parse_v6(v: &Vec<char>) -> (r: Option<[u8; 16]>)
    ensures
        match r {
            Some(o) => v6_value(v@) == Some(o@),
            None => v6_value(v@) is None,
        },
{
    proof {
        reveal(v6_value);
    }
    let n: usize = v.len();
    let i: usize = find_double(v);
    if i >= n {
        return match parse_side(v, true) {
            Some(g) => if g.len() == 8 {
                Some(pack_groups(&g))
            } else {
                None
            },
            None => None,
        };
    }
    let head: Vec<char> = slice_of(v, 0, i);
    let tail: Vec<char> = slice_of(v, i + 2, n);
    assert(head@ == v@.take(i as int));
    assert(tail@ == v@.skip(i + 2));
    let h: Vec<u16> = match parse_side(&head, false) {
        Some(h) => h,
        None => {
            return None;
        },
    };
    let t: Vec<u16> = match parse_side(&tail, true) {
        Some(t) => t,
        None => {
            return None;
        },
    };
    if h.len() > 7 || t.len() > 7 - h.len() {
        return None;
    }
    let mut g: Vec<u16> = Vec::new();
    let zeros: usize = 8 - h.len() - t.len();
    for k in 0..h.len()
        invariant
            g@ == h@.take(k as int),
    {
        assert(h@.take(k + 1) == h@.take(k as int).push(h@[k as int]));
        g.push(h[k]);
    }
    assert(g@ =~= h@ + zero_groups(0));
    for k in 0..zeros
        invariant
            g@ == h@ + zero_groups(k as int),
    {
        g.push(0);
        assert(g@ =~= h@ + zero_groups(k + 1));
    }
    assert(g@ =~= h@ + zero_groups(zeros as int) + t@.take(0));
    for k in 0..t.len()
        invariant
            g@ == h@ + zero_groups(zeros as int) + t@.take(k as int),
    {
        g.push(t[k]);
        assert(g@ =~= h@ + zero_groups(zeros as int) + t@.take(k + 1));
    }
    assert(t@.take(t@.len() as int) == t@);
    Some(pack_groups(&g))
}

/// The family and octets of an address in text.
pub open spec fn ip_value(s: Seq<char>) -> Option<(u8, Seq<u8>)> {
    match v4_value(s) {
        Some(o) => Some((4u8, IpKey::mapped(o))),
        None => match v6_value(s) {
            Some(o) => Some((6u8, o)),
            None => None,
        },
    }
}

fn parse_chars(v: &Vec<char>) -> (r: Option<IpKey>)
    ensures
        match r {
            Some(k) => ip_value(v@) == Some((k.family, k.addr@)),
            None => ip_value(v@) is None,
        },
{
    match parse_v4(v) {
        Some(o) => Some(IpKey::from_ipv4(o)),
        None => match parse_v6(v) {
            Some(o) => Some(IpKey::from_ipv6(o)),
            None => None,
        },
    }
}

/// Reads an IPv4 or IPv6 address.
pub fn parse_ip(s: &str) -> (r: Result<IpKey, IpError>)
    ensures
        match r {
            Ok(k) => ip_value(s@) == Some((k.family, k.addr@)),
            Err(e) => ip_value(s@) is None && e == IpError::InvalidAddress,
        },
{
    match parse_chars(&chars_of(s)) {
        Some(k) => Ok(k),
        None => Err(IpError::InvalidAddress),
    }
}

/// The top `k` bits of an octet, the others zero.
pub open spec fn keep_bits(o: u8, k: int) -> u8 {
    (o as int / bit_weight(k) * bit_weight(k)) as u8
}

/// How many of `prefix` bits fall on octet `j`.
pub open spec fn bits_on(prefix: int, j: int) -> int {
    if prefix <= 8 * j {
        0
    } else if prefix >= 8 * j + 8 {
        8
    } else {
        prefix - 8 * j
    }
}

/// The network of an IPv4 address: the bits after the prefix are zero.
pub open spec fn v4_network(o: Seq<u8>, prefix: int) -> Seq<u8> {
    Seq::new(4, |j: int| keep_bits(o[j], bits_on(prefix, j)))
}

/// How many of `prefix` bits count on octet `j` of an IPv6 network. Where the prefix ends
/// between two octets, the octet after it counts whole.
pub open spec fn v6_bits_on(prefix: int, j: int) -> int {
    if 0 < prefix && prefix == 8 * j {
        8
    } else {
        bits_on(prefix, j)
    }
}

/// The network of an IPv6 address: the octets after the one in which the prefix ends are
/// zero, and so are the bits after the prefix in an octet that it cuts.
pub open spec fn v6_network(o: Seq<u8>, prefix: int) -> Seq<u8> {
    Seq::new(16, |j: int| keep_bits(o[j], v6_bits_on(prefix, j)))
}

fn bits_of(prefix: u32, j: usize) -> (r: u8)
    requires
        j < 16,
    ensures
        r == bits_on(prefix as int, j as int),
{
    let start: u32 = 8 * j as u32;
    if prefix <= start {
        0
    } else if prefix >= start + 8 {
        8
    } else {
        (prefix - start) as u8
    }
}

fn masked(o: u8, k: u8) -> (r: u8)
    requires
        k <= 8,
    ensures
        r == keep_bits(o, k as int),
{
    let w: u16 = weight(k);
    let q: u16 = o as u16 / w;
    assert(0 <= q * w <= o) by (nonlinear_arith)
        requires
            q == o as int / w as int,
            w >= 1,
    ;
    (q * w) as u8
}

/// What a network in text stands for: family, network octets and prefix length; or why
/// it stands for none.
pub open spec fn cidr_value(s: Seq<char>) -> Result<(u8, Seq<u8>, u32), IpError> {
    let parts: Seq<Seq<char>> = split_on(s, '/');
    if parts.len() != 2 {
        Err(IpError::InvalidCidr)
    } else {
        match ip_value(parts[0]) {
            None => Err(IpError::InvalidAddress),
            Some(a) => match uint_value(parts[1], u32::MAX as nat) {
                None => Err(IpError::InvalidPrefix),
                Some(p) => if a.0 == 4 && p > 32 || a.0 == 6 && p > 128 {
                    Err(IpError::PrefixTooLong)
                } else if a.0 == 4 {
                    Ok((4u8, IpKey::mapped(v4_network(a.1.skip(12), p as int)), p as u32))
                } else {
                    Ok((6u8, v6_network(a.1, p as int), p as u32))
                },
            },
        }
    }
}

fn clear_v4(k: &IpKey, prefix: u32) -> (r: IpKey)
    requires
        prefix <= 32,
    ensures
        r.is_v4(v4_network(k.addr@.skip(12), prefix as int)),
{
    let mut o: [u8; 4] = [0u8; 4];
    for j in 0..4usize
        invariant
            prefix <= 32,
            forall|i: int|
                0 <= i < j ==> o@[i] == keep_bits(k.addr@[12 + i], bits_on(prefix as int, i)),
    {
        o[j] = masked(k.addr[12 + j], bits_of(prefix, j));
    }
    assert(o@ =~= v4_network(k.addr@.skip(12), prefix as int));
    IpKey::from_ipv4(o)
}

fn clear_v6(k: &IpKey, prefix: u32) -> (r: IpKey)
    requires
        prefix <= 128,
    ensures
        r.is(6, v6_network(k.addr@, prefix as int)),
{
    let mut o: [u8; 16] = [0u8; 16];
    for j in 0..16usize
        invariant
            prefix <= 128,
            forall|i: int|
                0 <= i < j ==> o@[i] == keep_bits(k.addr@[i], v6_bits_on(prefix as int, i)),
    {
        let bits: u8 = if prefix > 0 && prefix == 8 * j as u32 {
            8
        } else {
            bits_of(prefix, j)
        };
        o[j] = masked(k.addr[j], bits);
    }
    assert(o@ =~= v6_network(k.addr@, prefix as int));
    IpKey::from_ipv6(o)
}

fn parse_cidr_chars(v: &Vec<char>) -> (r: Result<(IpKey, u32), IpError>)
    ensures
        match r {
            Ok(n) => cidr_value(v@) == Ok::<(u8, Seq<u8>, u32), IpError>(
                (n.0.family, n.0.addr@, n.1),
            ),
            Err(e) => cidr_value(v@) == Err::<(u8, Seq<u8>, u32), IpError>(e),
        },
{
    let parts: Vec<Vec<char>> = split(v, '/');
    if parts.len() != 2 {
        return Err(IpError::InvalidCidr);
    }
    assert(views(parts@)[0] == parts@[0]@);
    assert(views(parts@)[1] == parts@[1]@);
    let key: IpKey = match parse_chars(&parts[0]) {
        Some(k) => k,
        None => {
            return Err(IpError::InvalidAddress);
        },
    };
    let prefix: u32 = match parse_uint(&parts[1], u32::MAX as u64) {
        Some(p) => p as u32,
        None => {
            return Err(IpError::InvalidPrefix);
        },
    };
    if key.family == 4 {
        if prefix > 32 {
            return Err(IpError::PrefixTooLong);
        }
        Ok((clear_v4(&key, prefix), prefix))
    } else {
        if prefix > 128 {
            return Err(IpError::PrefixTooLong);
        }
        Ok((clear_v6(&key, prefix), prefix))
    }
}

/// Reads a network: an address, a slash and a prefix length.
pub fn parse_cidr(s: &str) -> (r: Result<(IpKey, u32), IpError>)
    ensures
        match r {
            Ok(n) => cidr_value(s@) == Ok::<(u8, Seq<u8>, u32), IpError>(
                (n.0.family, n.0.addr@, n.1),
            ),
            Err(e) => cidr_value(s@) == Err::<(u8, Seq<u8>, u32), IpError>(e),
        },
{
    parse_cidr_chars(&chars_of(s))
}

/// What a host in text stands for: an address, or a network of one address.
pub open spec fn host_value(s: Seq<char>) -> Result<(u8, Seq<u8>), IpError> {
    match ip_value(s) {
        Some(a) => Ok(a),
        None => match cidr_value(s) {
            Err(e) => Err(e),
            Ok(n) => if n.0 == 4 && n.2 != 32 {
                Err(IpError::HostRequired(32))
            } else if n.0 == 6 && n.2 != 128 {
                Err(IpError::HostRequired(128))
            } else {
                Ok((n.0, n.1))
            },
        },
    }
}

/// Reads a host: an address, or a network of prefix length 32 (IPv4) or 128 (IPv6).
pub fn parse_ip_or_cidr(s: &str) -> (r: Result<IpKey, IpError>)
    ensures
        match r {
            Ok(k) => host_value(s@) == Ok::<(u8, Seq<u8>), IpError>((k.family, k.addr@)),
            Err(e) => host_value(s@) == Err::<(u8, Seq<u8>), IpError>(e),
        },
{
    if let Ok(key) = parse_ip(s) {
        return Ok(key);
    }
    match parse_cidr(s) {
        Err(e) => Err(e),
        Ok(n) => {
            let expected: u32 = if n.0.family == 4 {
                32
            } else {
                128
            };
            if n.1 != expected {
                return Err(IpError::HostRequired(expected as u8));
            }
            Ok(n.0)
        },
    }
}

} // verus!
