//! What holds of addresses and networks in text.

use crate::common::be_u32;
use crate::common::IpKey;
use crate::ip::bits_on;
use crate::ip::cidr_value;
use crate::ip::first_double;
use crate::ip::group_value;
use crate::ip::groups_value;
use crate::ip::host_value;
use crate::ip::ip_value;
use crate::ip::is_hex;
use crate::ip::keep_bits;
use crate::ip::lemma_first_double;
use crate::ip::octet_value;
use crate::ip::side_value;
use crate::ip::v4_network;
use crate::ip::v4_value;
use crate::ip::v6_bits_on;
use crate::ip::v6_network;
use crate::ip::v6_value;
use crate::ip::IpError;
use crate::ip_format::join;
use crate::ip_format::key_formats;
use crate::ip_format::lacks;
use crate::ip_format::law_formatted_key_reads_back;
use crate::ip_format::law_split_undoes_join;
use crate::prefix::bit_weight;
use crate::prefix::same_bits;
use crate::text::dec;
use crate::text::first_at;
use crate::text::is_digit;
use crate::text::law_dec_reads_back;
use crate::text::lemma_first_at;
use crate::text::split_on;
use crate::text::uint_value;
use crate::text::unsigned_digits;
use vstd::arithmetic::div_mod::lemma_fundamental_div_mod;
use vstd::arithmetic::div_mod::lemma_fundamental_div_mod_converse;
use vstd::prelude::*;

verus! {

/// Where all that stands between the places of `c` lacks another character, so does the
/// whole.
proof fn lemma_parts_lack(s: Seq<char>, c: char, d: char)
    requires
        c != d,
        forall|i: int| 0 <= i < split_on(s, c).len() ==> lacks(#[trigger] split_on(s, c)[i], d),
    ensures
        lacks(s, d),
    decreases s.len(),
{
    let parts: Seq<Seq<char>> = split_on(s, c);
    let i: int = first_at(s, c);
    lemma_first_at(s, c);
    assert(lacks(parts[0], d));
    if i < s.len() {
        let rest: Seq<char> = s.skip(i + 1);
        assert(parts =~= seq![s.take(i)] + split_on(rest, c));
        assert forall|j: int| 0 <= j < split_on(rest, c).len() implies lacks(
            #[trigger] split_on(rest, c)[j],
            d,
        ) by {
            assert(split_on(rest, c)[j] == parts[j + 1]);
        }
        lemma_parts_lack(rest, c, d);
        assert forall|j: int| 0 <= j < s.len() implies #[trigger] s[j] != d by {
            if j < i {
                assert(s[j] == parts[0][j]);
            } else if j > i {
                assert(s[j] == rest[j - i - 1]);
            }
        }
    }
}

proof fn lemma_v4_has_no_slash(s: Seq<char>)
    requires
        v4_value(s) is Some,
    ensures
        lacks(s, '/'),
{
    reveal(v4_value);
    let parts: Seq<Seq<char>> = split_on(s, '.');
    assert forall|i: int| 0 <= i < parts.len() implies lacks(#[trigger] parts[i], '/') by {
        assert(octet_value(parts[i]) is Some);
        assert forall|j: int| 0 <= j < parts[i].len() implies #[trigger] parts[i][j] != '/' by {
            assert(is_digit(parts[i][j]));
        }
    }
    lemma_parts_lack(s, '.', '/');
}

proof fn lemma_groups_have_no_slash(parts: Seq<Seq<char>>, tail4: bool)
    requires
        groups_value(parts, tail4) is Some,
    ensures
        forall|i: int| 0 <= i < parts.len() ==> lacks(#[trigger] parts[i], '/'),
    decreases parts.len(),
{
    if parts.len() > 0 {
        if parts.len() == 1 && tail4 && v4_value(parts[0]) is Some {
            lemma_v4_has_no_slash(parts[0]);
        } else {
            assert(group_value(parts[0]) is Some);
            assert forall|j: int| 0 <= j < parts[0].len() implies #[trigger] parts[0][j] != '/' by {
                assert(is_hex(parts[0][j]));
            }
            let rest: Seq<Seq<char>> = parts.skip(1);
            lemma_groups_have_no_slash(rest, tail4);
            assert forall|i: int| 0 <= i < parts.len() implies lacks(#[trigger] parts[i], '/') by {
                if i > 0 {
                    assert(rest[i - 1] == parts[i]);
                }
            }
        }
    }
}

proof fn lemma_side_has_no_slash(s: Seq<char>, tail4: bool)
    requires
        side_value(s, tail4) is Some,
    ensures
        lacks(s, '/'),
{
    if s.len() > 0 {
        lemma_groups_have_no_slash(split_on(s, ':'), tail4);
        lemma_parts_lack(s, ':', '/');
    }
}

/// The text of an address holds no slash.
pub proof fn law_address_has_no_slash(s: Seq<char>)
    requires
        ip_value(s) is Some,
    ensures
        lacks(s, '/'),
{
    if v4_value(s) is Some {
        lemma_v4_has_no_slash(s);
    } else {
        reveal(v6_value);
        let i: int = first_double(s);
        lemma_first_double(s);
        if i >= s.len() {
            lemma_side_has_no_slash(s, true);
        } else {
            let a: Seq<char> = s.take(i);
            let b: Seq<char> = s.skip(i + 2);
            lemma_side_has_no_slash(a, false);
            lemma_side_has_no_slash(b, true);
            assert forall|j: int| 0 <= j < s.len() implies #[trigger] s[j] != '/' by {
                if j < i {
                    assert(s[j] == a[j]);
                } else if j >= i + 2 {
                    assert(s[j] == b[j - i - 2]);
                }
            }
        }
    }
}

proof fn lemma_number_has_no_slash(s: Seq<char>, max: nat)
    requires
        uint_value(s, max) is Some,
    ensures
        lacks(s, '/'),
{
    let d: Seq<char> = unsigned_digits(s);
    assert forall|j: int| 0 <= j < s.len() implies #[trigger] s[j] != '/' by {
        if s.len() > 1 && s[0] == '+' {
            if j > 0 {
                assert(is_digit(d[j - 1]));
                assert(s[j] == d[j - 1]);
            }
        } else {
            assert(is_digit(d[j]));
        }
    }
}

/// An address and a number around a slash come apart again.
proof fn lemma_slash_splits(x: Seq<char>, n: Seq<char>)
    requires
        lacks(x, '/'),
        lacks(n, '/'),
    ensures
        split_on(x + seq!['/'] + n, '/') == seq![x, n],
{
    let parts: Seq<Seq<char>> = seq![x, n];
    assert(parts.skip(1) =~= seq![n]);
    assert(join(parts, '/') =~= x + seq!['/'] + n) by {
        reveal_with_fuel(join, 2);
    }
    law_split_undoes_join(parts, '/');
}

/// What was cut in two goes together again.
proof fn lemma_two_parts(s: Seq<char>, c: char)
    requires
        split_on(s, c).len() == 2,
    ensures
        s == split_on(s, c)[0] + seq![c] + split_on(s, c)[1],
{
    let i: int = first_at(s, c);
    lemma_first_at(s, c);
    let rest: Seq<char> = s.skip(i + 1);
    lemma_first_at(rest, c);
    assert(split_on(s, c) =~= seq![s.take(i)] + split_on(rest, c));
    assert(split_on(rest, c).len() == 1);
    assert(split_on(rest, c) =~= seq![rest]) by {
        let j: int = first_at(rest, c);
        assert(split_on(rest.skip(j + 1), c).len() >= 1);
    }
    assert(s =~= s.take(i) + seq![c] + rest);
}

proof fn lemma_keep_bits(o: u8, k: int)
    requires
        0 <= k <= 8,
    ensures
        keep_bits(o, k) == o - o as int % bit_weight(k),
        keep_bits(keep_bits(o, k), k) == keep_bits(o, k),
        keep_bits(o, 8) == o,
        keep_bits(o, 0) == 0,
        keep_bits(o, k) as int / bit_weight(k) == o as int / bit_weight(k),
        keep_bits(o, k) as int % bit_weight(k) == 0,
{
    let w: int = bit_weight(k);
    let q: int = o as int / w;
    lemma_fundamental_div_mod(o as int, w);
    assert(q * w == w * q) by (nonlinear_arith);
    assert(0 <= q * w <= o);
    lemma_fundamental_div_mod_converse(q * w, w, q, 0);
}

/// The network of an address of the family, which has as many octets.
proof fn lemma_whole_prefix(x: (u8, Seq<u8>))
    requires
        x.0 == 4 ==> x.1 == IpKey::mapped(x.1.skip(12)),
        x.1.len() == 16,
    ensures
        x.0 == 4 ==> IpKey::mapped(v4_network(x.1.skip(12), 32)) == x.1,
        v6_network(x.1, 128) == x.1,
{
    assert forall|j: int| 0 <= j < 16 implies #[trigger] v6_network(x.1, 128)[j] == x.1[j] by {
        lemma_keep_bits(x.1[j], 8);
    }
    assert(v6_network(x.1, 128) =~= x.1);
    if x.0 == 4 {
        let o: Seq<u8> = x.1.skip(12);
        assert forall|j: int| 0 <= j < 4 implies #[trigger] v4_network(o, 32)[j] == o[j] by {
            lemma_keep_bits(o[j], 8);
        }
        assert(v4_network(o, 32) =~= o);
    }
}

/// The octets of an address in text.
pub open spec fn octets_in(s: Seq<char>) -> Seq<u8> {
    match ip_value(s) {
        Some(a) => a.1,
        None => Seq::empty(),
    }
}

/// The family of an address in text.
pub open spec fn family_in(s: Seq<char>) -> u8 {
    match ip_value(s) {
        Some(a) => a.0,
        None => 0,
    }
}

/// An address in text has sixteen octets, of which an IPv4 address uses the last four.
proof fn lemma_address_shape(s: Seq<char>)
    requires
        ip_value(s) is Some,
    ensures
        octets_in(s).len() == 16,
        family_in(s) == 4 || family_in(s) == 6,
        family_in(s) == 4 ==> octets_in(s) == IpKey::mapped(octets_in(s).skip(12)),
{
    if v4_value(s) is Some {
        reveal(v4_value);
        let o: Seq<u8> = v4_value(s)->0;
        assert(IpKey::mapped(o).skip(12) =~= o);
    } else {
        reveal(v6_value);
    }
}

/// A text is taken for a host exactly where it is the text of an address, or the text of
/// an address, a slash and the full prefix length of its family.
pub proof fn law_host_is_address_or_full_network(s: Seq<char>, a: (u8, Seq<u8>))
    ensures
        host_value(s) == Ok::<(u8, Seq<u8>), IpError>(a) <==> (ip_value(s) == Some(a) || exists|
            x: Seq<char>,
            n: Seq<char>,
        |
            s == #[trigger] (x + seq!['/'] + n) && ip_value(x) == Some(a) && uint_value(
                n,
                u32::MAX as nat,
            ) == Some(
                if a.0 == 4 {
                    32nat
                } else {
                    128nat
                },
            )),
{
    let full: nat = if a.0 == 4 {
        32nat
    } else {
        128nat
    };
    if host_value(s) == Ok::<(u8, Seq<u8>), IpError>(a) && ip_value(s) is None {
        let parts: Seq<Seq<char>> = split_on(s, '/');
        lemma_two_parts(s, '/');
        lemma_address_shape(parts[0]);
        lemma_whole_prefix(ip_value(parts[0])->0);
        assert(s == parts[0] + seq!['/'] + parts[1] && ip_value(parts[0]) == Some(a)
            && uint_value(parts[1], u32::MAX as nat) == Some(full));
    }
    if exists|x: Seq<char>, n: Seq<char>|
        s == #[trigger] (x + seq!['/'] + n) && ip_value(x) == Some(a) && uint_value(
            n,
            u32::MAX as nat,
        ) == Some(full) {
        let (x, n) = choose|x: Seq<char>, n: Seq<char>|
            s == #[trigger] (x + seq!['/'] + n) && ip_value(x) == Some(a) && uint_value(
                n,
                u32::MAX as nat,
            ) == Some(full);
        law_address_has_no_slash(x);
        lemma_number_has_no_slash(n, u32::MAX as nat);
        lemma_slash_splits(x, n);
        assert(s[x.len() as int] == '/');
        if ip_value(s) is Some {
            law_address_has_no_slash(s);
        }
        lemma_address_shape(x);
        lemma_whole_prefix(a);
    }
}

/// A network that was read, written as its address, a slash and its prefix length, reads
/// back as the same network.
pub proof fn law_network_reads_back(s: Seq<char>, key: IpKey, prefix: u32, text: Seq<char>)
    requires
        cidr_value(s) == Ok::<(u8, Seq<u8>, u32), IpError>((key.family, key.addr@, prefix)),
        key_formats(key, text),
    ensures
        cidr_value(text + seq!['/'] + dec(prefix as nat)) == cidr_value(s),
{
    let x: Seq<char> = split_on(s, '/')[0];
    lemma_address_shape(x);
    let o: Seq<u8> = octets_in(x);
    let p: int = prefix as int;
    law_formatted_key_reads_back(key, text);
    law_address_has_no_slash(text);
    law_dec_reads_back(prefix as nat);
    let n: Seq<char> = dec(prefix as nat);
    assert(is_digit(n[0]));
    assert(uint_value(n, u32::MAX as nat) == Some(prefix as nat));
    lemma_number_has_no_slash(n, u32::MAX as nat);
    lemma_slash_splits(text, n);
    if key.family == 4 {
        let q: Seq<u8> = o.skip(12);
        let net: Seq<u8> = v4_network(q, p);
        assert(key.addr@.skip(12) =~= net);
        assert forall|j: int| 0 <= j < 4 implies #[trigger] v4_network(net, p)[j] == net[j] by {
            lemma_keep_bits(q[j], bits_on(p, j));
        }
        assert(v4_network(net, p) =~= net);
    } else {
        let net: Seq<u8> = v6_network(o, p);
        assert forall|j: int| 0 <= j < 16 implies #[trigger] v6_network(net, p)[j] == net[j] by {
            lemma_keep_bits(o[j], v6_bits_on(p, j));
        }
        assert(v6_network(net, p) =~= net);
    }
}

/// How many addresses an IPv4 network holds.
pub open spec fn v4_size(prefix: int) -> int
    decreases 32 - prefix,
{
    if prefix >= 32 {
        1
    } else {
        2 * v4_size(prefix + 1)
    }
}

/// The number of an IPv4 address in sixteen octets.
pub open spec fn v4_number(o: Seq<u8>) -> int {
    be_u32(o[12], o[13], o[14], o[15])
}

proof fn lemma_v4_size(prefix: int)
    requires
        0 <= prefix <= 32,
    ensures
        prefix == 32 ==> v4_size(prefix) == 1,
        24 <= prefix < 32 ==> v4_size(prefix) == bit_weight(prefix - 24),
        16 <= prefix < 24 ==> v4_size(prefix) == bit_weight(prefix - 16) * 0x100,
        8 <= prefix < 16 ==> v4_size(prefix) == bit_weight(prefix - 8) * 0x1_0000,
        prefix < 8 ==> v4_size(prefix) == bit_weight(prefix) * 0x100_0000,
    decreases 32 - prefix,
{
    if prefix < 32 {
        lemma_v4_size(prefix + 1);
    }
}

/// A number cut off inside one of its octets.
proof fn lemma_cut(h: int, o: int, l: int, k: int, u: int)
    requires
        0 <= k < 8,
        0 <= h,
        0 <= o < 256,
        0 <= l < u,
    ensures
        (h * 256 * u + o * u + l) % (bit_weight(k) * u) == (o % bit_weight(k)) * u + l,
{
    let w: int = bit_weight(k);
    let t: int = 256int / w;
    assert(w * t == 256);
    let q: int = h * t + o / w;
    let r: int = (o % w) * u + l;
    lemma_fundamental_div_mod(o, w);
    assert(h * 256 * u + o * u + l == q * (w * u) + r) by (nonlinear_arith)
        requires
            w * t == 256,
            o == w * (o / w) + o % w,
            q == h * t + o / w,
            r == (o % w) * u + l,
    ;
    assert(0 <= r < w * u) by (nonlinear_arith)
        requires
            0 <= o % w < w,
            0 <= l < u,
            r == (o % w) * u + l,
    ;
    lemma_fundamental_div_mod_converse(h * 256 * u + o * u + l, w * u, q, r);
}

/// The number of an IPv4 network is that of the address without what stands after the
/// prefix.
proof fn lemma_v4_network_number(o: Seq<u8>, prefix: int)
    requires
        o.len() == 16,
        0 <= prefix <= 32,
    ensures
        v4_number(IpKey::mapped(v4_network(o.skip(12), prefix))) == v4_number(o) - v4_number(o)
            % v4_size(prefix),
{
    let q: Seq<u8> = o.skip(12);
    let a: int = q[0] as int;
    let b: int = q[1] as int;
    let c: int = q[2] as int;
    let d: int = q[3] as int;
    lemma_v4_size(prefix);
    lemma_keep_bits(q[0], bits_on(prefix, 0));
    lemma_keep_bits(q[1], bits_on(prefix, 1));
    lemma_keep_bits(q[2], bits_on(prefix, 2));
    lemma_keep_bits(q[3], bits_on(prefix, 3));
    if prefix < 8 {
        lemma_cut(0, a, b * 0x1_0000 + c * 0x100 + d, prefix, 0x100_0000);
    } else if prefix < 16 {
        lemma_cut(a, b, c * 0x100 + d, prefix - 8, 0x1_0000);
    } else if prefix < 24 {
        lemma_cut(a * 0x100 + b, c, d, prefix - 16, 0x100);
    } else if prefix < 32 {
        lemma_cut(a * 0x1_0000 + b * 0x100 + c, d, 0, prefix - 24, 1);
    }
}

/// A network that was read has the bits of its address up to the prefix, which is no longer
/// than an address of the family. An IPv4 network has zeros after it; an IPv6 network has
/// them in an octet that the prefix cuts and in the octets after the one in which it ends.
pub proof fn law_network_is_cut_at_its_prefix(s: Seq<char>, family: u8, octets: Seq<u8>, prefix: u32)
    requires
        cidr_value(s) == Ok::<(u8, Seq<u8>, u32), IpError>((family, octets, prefix)),
    ensures
        ({
            let x: Seq<u8> = octets_in(split_on(s, '/')[0]);
            let p: int = prefix as int;
            &&& family == 4 ==> p <= 32 && v4_number(octets) == v4_number(x) - v4_number(x)
                % v4_size(p)
            &&& family == 6 ==> p <= 128 && same_bits(octets, x, p)
            &&& family == 6 && p % 8 != 0 ==> octets[p / 8] as int % bit_weight(p % 8) == 0
            &&& family == 6 ==> forall|j: int|
                0 <= j < 16 && j > p / 8 ==> #[trigger] octets[j] == 0
        }),
{
    let y: Seq<char> = split_on(s, '/')[0];
    lemma_address_shape(y);
    let x: Seq<u8> = octets_in(y);
    let p: int = prefix as int;
    if family == 4 {
        lemma_v4_network_number(x, p);
    } else {
        assert forall|j: int| 0 <= j < 16 && j > p / 8 implies #[trigger] octets[j] == 0 by {
            lemma_keep_bits(x[j], 0);
        }
        assert forall|j: int| 0 <= j < p / 8 implies octets[j] == x[j] by {
            lemma_keep_bits(x[j], 8);
        }
        if p % 8 != 0 {
            lemma_keep_bits(x[p / 8], p % 8);
            assert(v6_bits_on(p, p / 8) == p % 8);
            assert(octets[p / 8] == keep_bits(x[p / 8], p % 8));
        }
        assert(same_bits(octets, x, p));
    }
}

} // verus!
