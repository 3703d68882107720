//! Address prefixes.

use crate::common::IpKey;
use vstd::prelude::*;

verus! {

/// A network: the first `len` bits of `key`'s address.
#[derive(Clone, Copy, Debug)]
pub struct IpPrefix {
    pub key: IpKey,
    pub len: u8,
}

/// The weight of the lowest of the top `k` bits of an octet.
pub open spec fn bit_weight(k: int) -> int {
    if k <= 0 {
        256
    } else if k == 1 {
        128
    } else if k == 2 {
        64
    } else if k == 3 {
        32
    } else if k == 4 {
        16
    } else if k == 5 {
        8
    } else if k == 6 {
        4
    } else if k == 7 {
        2
    } else {
        1
    }
}

pub fn weight(k: u8) -> (r: u16)
    ensures
        r == bit_weight(k as int),
        1 <= r <= 256,
{
    if k == 0 {
        256
    } else if k == 1 {
        128
    } else if k == 2 {
        64
    } else if k == 3 {
        32
    } else if k == 4 {
        16
    } else if k == 5 {
        8
    } else if k == 6 {
        4
    } else if k == 7 {
        2
    } else {
        1
    }
}

/// The first `n` bits of two addresses agree.
pub open spec fn same_bits(a: Seq<u8>, b: Seq<u8>, n: int) -> bool {
    &&& forall|i: int| 0 <= i < n / 8 ==> a[i] == b[i]
    &&& n % 8 != 0 ==> a[n / 8] as int / bit_weight(n % 8) == b[n / 8] as int / bit_weight(n % 8)
}

fn bits_agree(a: &[u8; 16], b: &[u8; 16], n: u8) -> (r: bool)
    requires
        n <= 128,
    ensures
        r == same_bits(a@, b@, n as int),
{
    let whole: usize = (n / 8) as usize;
    for i in 0..whole
        invariant
            whole <= 16,
            whole == n as int / 8,
            forall|j: int| 0 <= j < i ==> a@[j] == b@[j],
    {
        if a[i] != b[i] {
            return false;
        }
    }
    if n % 8 != 0 {
        let w: u16 = weight(n % 8);
        a[whole] as u16 / w == b[whole] as u16 / w
    } else {
        true
    }
}

/// How many bits of the sixteen octets a prefix of a family and length fixes.
pub open spec fn fixed_bits(family: u8, len: u8) -> int {
    if family == 4 {
        96 + len
    } else {
        len as int
    }
}

/// The length is one that the family has.
pub open spec fn len_fits(family: u8, len: u8) -> bool {
    (family == 4 && len <= 32) || (family == 6 && len <= 128)
}

/// The network holds the address.
pub open spec fn covers(net: IpPrefix, key: IpKey) -> bool {
    &&& net.key.family == key.family
    &&& len_fits(key.family, net.len)
    &&& same_bits(net.key.addr@, key.addr@, fixed_bits(key.family, net.len))
}

impl IpPrefix {
    /// Whether the network holds the address.
    pub fn contains(&self, key: &IpKey) -> (r: bool)
        ensures
            r == covers(*self, *key),
    {
        if self.key.family != key.family {
            return false;
        }
        if key.family == 4 {
            self.len <= 32 && bits_agree(&self.key.addr, &key.addr, 96 + self.len)
        } else if key.family == 6 {
            self.len <= 128 && bits_agree(&self.key.addr, &key.addr, self.len)
        } else {
            false
        }
    }
}

/// Some network of the table holds the address.
pub open spec fn table_holds(table: Seq<IpPrefix>, key: IpKey) -> bool {
    exists|i: int| 0 <= i < table.len() && covers(#[trigger] table[i], key)
}

/// Looks an address up in a table of networks.
pub fn lookup(table: &Vec<IpPrefix>, key: &IpKey) -> (r: bool)
    ensures
        r == table_holds(table@, *key),
{
    for i in 0..table.len()
        invariant
            forall|j: int| 0 <= j < i ==> !covers(#[trigger] table@[j], *key),
    {
        if table[i].contains(key) {
            return true;
        }
    }
    false
}

/// A network holds its own address, and the widest network of a family holds every
/// address of it.
pub proof fn law_prefix_holds(key: IpKey, len: u8, other: IpKey)
    requires
        len_fits(key.family, len),
    ensures
        covers(IpPrefix { key, len }, key),
        key.family == 6 && other.family == 6 ==> covers(IpPrefix { key, len: 0 }, other),
{
}

/// A network that holds an address still holds it when the prefix is cut at an octet.
pub proof fn law_shorter_prefix_holds_more(net: IpPrefix, key: IpKey, len: u8)
    requires
        covers(net, key),
        len <= net.len,
        len % 8 == 0,
    ensures
        covers(IpPrefix { key: net.key, len }, key),
{
}

/// Bit `b` of an address, the most significant of its first octet being bit 0.
pub open spec fn bit_of(a: Seq<u8>, b: int) -> int {
    let o: u8 = a[b / 8];
    if b % 8 == 0 {
        o as int / 128
    } else if b % 8 == 1 {
        o as int / 64 % 2
    } else if b % 8 == 2 {
        o as int / 32 % 2
    } else if b % 8 == 3 {
        o as int / 16 % 2
    } else if b % 8 == 4 {
        o as int / 8 % 2
    } else if b % 8 == 5 {
        o as int / 4 % 2
    } else if b % 8 == 6 {
        o as int / 2 % 2
    } else {
        o as int % 2
    }
}

proof fn lemma_octet_bits(x: u8, y: u8)
    ensures
        x / 128 == y / 128 && x / 64 % 2 == y / 64 % 2 <==> x / 64 == y / 64,
        x / 64 == y / 64 && x / 32 % 2 == y / 32 % 2 <==> x / 32 == y / 32,
        x / 32 == y / 32 && x / 16 % 2 == y / 16 % 2 <==> x / 16 == y / 16,
        x / 16 == y / 16 && x / 8 % 2 == y / 8 % 2 <==> x / 8 == y / 8,
        x / 8 == y / 8 && x / 4 % 2 == y / 4 % 2 <==> x / 4 == y / 4,
        x / 4 == y / 4 && x / 2 % 2 == y / 2 % 2 <==> x / 2 == y / 2,
        x / 2 == y / 2 && x % 2 == y % 2 <==> x == y,
{
    assert(x / 128 == y / 128 && x / 64 % 2 == y / 64 % 2 <==> x / 64 == y / 64) by (bit_vector);
    assert(x / 64 == y / 64 && x / 32 % 2 == y / 32 % 2 <==> x / 32 == y / 32) by (bit_vector);
    assert(x / 32 == y / 32 && x / 16 % 2 == y / 16 % 2 <==> x / 16 == y / 16) by (bit_vector);
    assert(x / 16 == y / 16 && x / 8 % 2 == y / 8 % 2 <==> x / 8 == y / 8) by (bit_vector);
    assert(x / 8 == y / 8 && x / 4 % 2 == y / 4 % 2 <==> x / 4 == y / 4) by (bit_vector);
    assert(x / 4 == y / 4 && x / 2 % 2 == y / 2 % 2 <==> x / 2 == y / 2) by (bit_vector);
    assert(x / 2 == y / 2 && x % 2 == y % 2 <==> x == y) by (bit_vector);
}

/// One bit more agrees where the bits before it and the bit itself do.
proof fn lemma_one_more_bit(a: Seq<u8>, b: Seq<u8>, n: int)
    requires
        0 <= n < 128,
        a.len() == 16,
        b.len() == 16,
    ensures
        same_bits(a, b, n + 1) <==> same_bits(a, b, n) && bit_of(a, n) == bit_of(b, n),
{
    let k: int = n / 8;
    let x: u8 = a[k];
    let y: u8 = b[k];
    lemma_octet_bits(x, y);
    if n % 8 == 7 {
        assert((n + 1) / 8 == k + 1);
        if same_bits(a, b, n + 1) {
            assert(a[k] == b[k]);
        }
        if same_bits(a, b, n) && bit_of(a, n) == bit_of(b, n) {
            assert(x == y);
            assert forall|i: int| 0 <= i < (n + 1) / 8 implies a[i] == b[i] by {
                if i == k {
                }
            }
        }
    } else {
        assert((n + 1) / 8 == k);
        assert((n + 1) % 8 == n % 8 + 1);
    }
}

/// The first `n` bits of two addresses agree where each of them does.
pub proof fn law_bits_agree_one_by_one(a: Seq<u8>, b: Seq<u8>, n: int)
    requires
        0 <= n <= 128,
        a.len() == 16,
        b.len() == 16,
    ensures
        same_bits(a, b, n) <==> forall|i: int| 0 <= i < n ==> #[trigger] bit_of(a, i) == bit_of(b, i),
    decreases n,
{
    if n > 0 {
        law_bits_agree_one_by_one(a, b, n - 1);
        lemma_one_more_bit(a, b, n - 1);
        if forall|i: int| 0 <= i < n ==> #[trigger] bit_of(a, i) == bit_of(b, i) {
            assert(bit_of(a, n - 1) == bit_of(b, n - 1));
        }
        if same_bits(a, b, n) {
            assert forall|i: int| 0 <= i < n implies #[trigger] bit_of(a, i) == bit_of(b, i) by {
                if i == n - 1 {
                }
            }
        }
    }
}

/// Bit `i` of an address as it is written: an IPv4 address lies in the last four octets.
pub open spec fn address_bit(k: IpKey, i: int) -> int {
    if k.family == 4 {
        bit_of(k.addr@, 96 + i)
    } else {
        bit_of(k.addr@, i)
    }
}

/// A network holds exactly the addresses of its family that agree with it in as many of
/// their first bits as the prefix says; the twelve octets before an IPv4 address are the
/// same in all.
pub proof fn law_network_holds_by_bits(net: IpPrefix, key: IpKey)
    requires
        key.family == 4 || key.family == 6,
        net.key.family == key.family,
        key.family == 4 ==> net.len <= 32 && net.key.addr@.take(12) == key.addr@.take(12),
        key.family == 6 ==> net.len <= 128,
    ensures
        covers(net, key) <==> forall|i: int|
            0 <= i < net.len ==> #[trigger] address_bit(key, i) == address_bit(net.key, i),
{
    let a: Seq<u8> = net.key.addr@;
    let b: Seq<u8> = key.addr@;
    let all: bool = forall|i: int|
        0 <= i < net.len ==> #[trigger] address_bit(key, i) == address_bit(net.key, i);
    if key.family == 4 {
        law_bits_agree_one_by_one(a, b, 96 + net.len);
        assert forall|i: int| 0 <= i < 96 implies #[trigger] bit_of(a, i) == bit_of(b, i) by {
            assert(a.take(12)[i / 8] == b.take(12)[i / 8]);
        }
        if all {
            assert forall|i: int| 0 <= i < 96 + net.len implies #[trigger] bit_of(a, i) == bit_of(
                b,
                i,
            ) by {
                if i >= 96 {
                    assert(address_bit(key, i - 96) == address_bit(net.key, i - 96));
                }
            }
        }
        if same_bits(a, b, 96 + net.len) {
            assert forall|i: int| 0 <= i < net.len implies #[trigger] address_bit(key, i)
                == address_bit(net.key, i) by {
                assert(bit_of(a, 96 + i) == bit_of(b, 96 + i));
            }
        }
    } else {
        law_bits_agree_one_by_one(a, b, net.len as int);
        if all {
            assert forall|i: int| 0 <= i < net.len implies #[trigger] bit_of(a, i) == bit_of(b, i) by {
                assert(address_bit(key, i) == address_bit(net.key, i));
            }
        }
        if same_bits(a, b, net.len as int) {
            assert forall|i: int| 0 <= i < net.len implies #[trigger] address_bit(key, i)
                == address_bit(net.key, i) by {
                assert(bit_of(a, i) == bit_of(b, i));
            }
        }
    }
}

/// A network holds no address of the other family.
pub proof fn law_families_stay_apart(net: IpPrefix, key: IpKey)
    requires
        net.key.family != key.family,
    ensures
        !covers(net, key),
{
}

} // verus!
