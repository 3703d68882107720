//! The octets under which the store on disk keeps an entry, in their order.

use crate::common::IpKey;
use crate::hub::store::addr_less;
use crate::hub::store::key_less;
use crate::hub::store::RowKey;
use vstd::prelude::*;

verus! {

/// Stretches of octets in the order of a dictionary.
pub open spec fn octets_less(a: Seq<u8>, b: Seq<u8>) -> bool
    decreases a.len(),
{
    if b.len() == 0 {
        false
    } else if a.len() == 0 {
        true
    } else if a[0] != b[0] {
        a[0] < b[0]
    } else {
        octets_less(a.skip(1), b.skip(1))
    }
}

/// The number that octets stand for, the first the most significant.
pub open spec fn be_value(s: Seq<u8>) -> int
    decreases s.len(),
{
    if s.len() == 0 {
        0
    } else {
        be_value(s.drop_last()) * 256 + s.last()
    }
}

/// The eight octets of a number, the most significant first.
pub open spec fn be_octets(v: u64) -> Seq<u8> {
    seq![
        (v / 0x100_0000_0000_0000) as u8,
        (v / 0x1_0000_0000_0000 % 256) as u8,
        (v / 0x100_0000_0000 % 256) as u8,
        (v / 0x1_0000_0000 % 256) as u8,
        (v / 0x100_0000 % 256) as u8,
        (v / 0x1_0000 % 256) as u8,
        (v / 0x100 % 256) as u8,
        (v % 256) as u8,
    ]
}

/// The octets of a place: the time, the family, the address.
pub open spec fn place_octets(k: RowKey) -> Seq<u8> {
    be_octets(k.at_ns) + (seq![k.ip.family] + k.ip.addr@)
}

/// The octets of a place.
pub fn composite_key(last_seen_ns: u64, ip: &IpKey) -> (r: [u8; 25])
    ensures
        r@ == place_octets(RowKey { at_ns: last_seen_ns, ip: *ip }),
{
    let v: u64 = last_seen_ns;
    let mut key: [u8; 25] = [0u8; 25];
    key[0] = (v / 0x100_0000_0000_0000) as u8;
    key[1] = (v / 0x1_0000_0000_0000 % 256) as u8;
    key[2] = (v / 0x100_0000_0000 % 256) as u8;
    key[3] = (v / 0x1_0000_0000 % 256) as u8;
    key[4] = (v / 0x100_0000 % 256) as u8;
    key[5] = (v / 0x1_0000 % 256) as u8;
    key[6] = (v / 0x100 % 256) as u8;
    key[7] = (v % 256) as u8;
    key[8] = ip.family;
    let ghost head = key@.take(9);
    for i in 0..16usize
        invariant
            key@.take(9) == head,
            forall|j: int| 0 <= j < i ==> key@[j + 9] == ip.addr@[j],
    {
        key[i + 9] = ip.addr[i];
        assert(key@.take(9) =~= head);
    }
    proof {
        let k: RowKey = RowKey { at_ns: last_seen_ns, ip: *ip };
        assert forall|j: int| 0 <= j < 9 implies key@[j] == place_octets(k)[j] by {
            assert(head[j] == key@[j]);
        }
        assert(key@ =~= place_octets(k));
    }
    key
}

proof fn lemma_be_octets(v: u64)
    ensures
        be_value(be_octets(v)) == v,
{
    reveal_with_fuel(be_value, 9);
    let s: Seq<u8> = be_octets(v);
    let s7: Seq<u8> = s.drop_last();
    let s6: Seq<u8> = s7.drop_last();
    let s5: Seq<u8> = s6.drop_last();
    let s4: Seq<u8> = s5.drop_last();
    let s3: Seq<u8> = s4.drop_last();
    let s2: Seq<u8> = s3.drop_last();
    let s1: Seq<u8> = s2.drop_last();
    assert(s7.last() == s[6] && s6.last() == s[5] && s5.last() == s[4] && s4.last() == s[3]
        && s3.last() == s[2] && s2.last() == s[1] && s1.last() == s[0]);
    assert(s1.drop_last().len() == 0);
    assert(be_value(s1) == v / 0x100_0000_0000_0000);
    assert(be_value(s2) == v / 0x1_0000_0000_0000);
    assert(be_value(s3) == v / 0x100_0000_0000);
    assert(be_value(s4) == v / 0x1_0000_0000);
    assert(be_value(s5) == v / 0x100_0000);
    assert(be_value(s6) == v / 0x1_0000);
    assert(be_value(s7) == v / 0x100);
}

proof fn lemma_be_eight(s: Seq<u8>)
    requires
        s.len() == 8,
    ensures
        be_value(s) == s[0] * 0x100_0000_0000_0000 + s[1] * 0x1_0000_0000_0000 + s[2]
            * 0x100_0000_0000 + s[3] * 0x1_0000_0000 + s[4] * 0x100_0000 + s[5] * 0x1_0000 + s[6]
            * 0x100 + s[7],
{
    reveal_with_fuel(be_value, 9);
    let s7: Seq<u8> = s.drop_last();
    let s6: Seq<u8> = s7.drop_last();
    let s5: Seq<u8> = s6.drop_last();
    let s4: Seq<u8> = s5.drop_last();
    let s3: Seq<u8> = s4.drop_last();
    let s2: Seq<u8> = s3.drop_last();
    let s1: Seq<u8> = s2.drop_last();
    assert(s7.last() == s[6] && s6.last() == s[5] && s5.last() == s[4] && s4.last() == s[3]
        && s3.last() == s[2] && s2.last() == s[1] && s1.last() == s[0]);
    assert(s1.drop_last().len() == 0);
    assert(be_value(s1) == s[0]);
    assert(be_value(s2) == s[0] * 0x100 + s[1]);
    assert(be_value(s3) == s[0] * 0x1_0000 + s[1] * 0x100 + s[2]);
    assert(be_value(s4) == s[0] * 0x100_0000 + s[1] * 0x1_0000 + s[2] * 0x100 + s[3]);
}

proof fn lemma_less_push(a: Seq<u8>, b: Seq<u8>, x: u8, y: u8)
    requires
        a.len() == b.len(),
    ensures
        octets_less(a.push(x), b.push(y)) == (octets_less(a, b) || a == b && x < y),
    decreases a.len(),
{
    reveal_with_fuel(octets_less, 3);
    if a.len() == 0 {
        assert(a =~= b);
        assert(a.push(x).skip(1) =~= Seq::empty());
        assert(b.push(y).skip(1) =~= Seq::empty());
    } else {
        assert(a.push(x).skip(1) =~= a.skip(1).push(x));
        assert(b.push(y).skip(1) =~= b.skip(1).push(y));
        lemma_less_push(a.skip(1), b.skip(1), x, y);
        if a[0] == b[0] && a.skip(1) == b.skip(1) {
            assert(a =~= seq![a[0]] + a.skip(1));
            assert(b =~= seq![b[0]] + b.skip(1));
        }
    }
}

proof fn lemma_value_order(a: Seq<u8>, b: Seq<u8>)
    requires
        a.len() == b.len(),
    ensures
        be_value(a) < be_value(b) <==> octets_less(a, b),
        be_value(a) == be_value(b) <==> a == b,
    decreases a.len(),
{
    if a.len() == 0 {
        assert(a =~= b);
    } else {
        let p: Seq<u8> = a.drop_last();
        let q: Seq<u8> = b.drop_last();
        lemma_value_order(p, q);
        lemma_less_push(p, q, a.last(), b.last());
        assert(a =~= p.push(a.last()));
        assert(b =~= q.push(b.last()));
    }
}

proof fn lemma_less_join(a: Seq<u8>, b: Seq<u8>, x: Seq<u8>, y: Seq<u8>)
    requires
        a.len() == b.len(),
    ensures
        octets_less(a + x, b + y) == (octets_less(a, b) || a == b && octets_less(x, y)),
    decreases a.len(),
{
    if a.len() == 0 {
        assert(a =~= b);
        assert(a + x =~= x);
        assert(b + y =~= y);
    } else {
        assert((a + x).skip(1) =~= a.skip(1) + x);
        assert((b + y).skip(1) =~= b.skip(1) + y);
        lemma_less_join(a.skip(1), b.skip(1), x, y);
        if a[0] == b[0] && a.skip(1) == b.skip(1) {
            assert(a =~= seq![a[0]] + a.skip(1));
            assert(b =~= seq![b[0]] + b.skip(1));
        }
    }
}

proof fn lemma_less_at(a: Seq<u8>, b: Seq<u8>, i: int)
    requires
        a.len() == b.len(),
        0 <= i < a.len(),
        a[i] < b[i],
        forall|j: int| 0 <= j < i ==> a[j] == b[j],
    ensures
        octets_less(a, b),
    decreases i,
{
    if i > 0 {
        assert(a[0] == b[0]);
        assert forall|j: int| 0 <= j < i - 1 implies a.skip(1)[j] == b.skip(1)[j] by {
            assert(a[j + 1] == b[j + 1]);
        }
        lemma_less_at(a.skip(1), b.skip(1), i - 1);
    }
}

proof fn lemma_less_where(a: Seq<u8>, b: Seq<u8>) -> (i: int)
    requires
        a.len() == b.len(),
        octets_less(a, b),
    ensures
        0 <= i < a.len(),
        a[i] < b[i],
        forall|j: int| 0 <= j < i ==> a[j] == b[j],
    decreases a.len(),
{
    if a[0] != b[0] {
        0
    } else {
        let k: int = lemma_less_where(a.skip(1), b.skip(1));
        assert forall|j: int| 0 <= j < k + 1 implies a[j] == b[j] by {
            if j > 0 {
                assert(a.skip(1)[j - 1] == b.skip(1)[j - 1]);
            }
        }
        k + 1
    }
}

proof fn lemma_addr_order(a: Seq<u8>, b: Seq<u8>)
    requires
        a.len() == 16,
        b.len() == 16,
    ensures
        addr_less(a, b) == octets_less(a, b),
{
    if addr_less(a, b) {
        let i: int = choose|i: int|
            0 <= i < 16 && #[trigger] a[i] < b[i] && forall|j: int|
                0 <= j < i ==> #[trigger] a[j] == b[j];
        lemma_less_at(a, b, i);
    }
    if octets_less(a, b) {
        let i: int = lemma_less_where(a, b);
        assert(a[i] < b[i]);
    }
}

/// The order of the octets is the order of the places, so that a store that keeps its
/// entries by their octets hands them out by time.
pub proof fn law_octets_keep_the_order(a: RowKey, b: RowKey)
    ensures
        octets_less(place_octets(a), place_octets(b)) == key_less(a, b),
{
    let x: Seq<u8> = seq![a.ip.family] + a.ip.addr@;
    let y: Seq<u8> = seq![b.ip.family] + b.ip.addr@;
    lemma_be_octets(a.at_ns);
    lemma_be_octets(b.at_ns);
    lemma_value_order(be_octets(a.at_ns), be_octets(b.at_ns));
    lemma_less_join(be_octets(a.at_ns), be_octets(b.at_ns), x, y);
    assert(x.skip(1) =~= a.ip.addr@);
    assert(y.skip(1) =~= b.ip.addr@);
    lemma_addr_order(a.ip.addr@, b.ip.addr@);
}

proof fn lemma_place_parts(r: RowKey, key: Seq<u8>)
    requires
        key.len() == 25,
        be_octets(r.at_ns) == key.take(8),
        r.ip.family == key[8],
        forall|j: int| 0 <= j < 16 ==> r.ip.addr@[j] == key[j + 9],
    ensures
        place_octets(r) == key,
{
    let head: Seq<u8> = be_octets(r.at_ns);
    assert forall|j: int| 0 <= j < 25 implies place_octets(r)[j] == key[j] by {
        if j < 8 {
            assert(place_octets(r)[j] == head[j]);
            assert(key.take(8)[j] == key[j]);
        } else if j > 8 {
            assert(r.ip.addr@[j - 9] == key[j]);
        }
    }
    assert(place_octets(r) =~= key);
}

/// The place that octets stand for.
pub fn place_of_octets(key: &[u8; 25]) -> (r: RowKey)
    ensures
        place_octets(r) == key@,
{
    let mut addr: [u8; 16] = [0u8; 16];
    for i in 0..16usize
        invariant
            forall|j: int| 0 <= j < i ==> addr@[j] == key@[j + 9],
    {
        addr[i] = key[i + 9];
    }
    let at_ns: u64 = key[0] as u64 * 0x100_0000_0000_0000 + key[1] as u64 * 0x1_0000_0000_0000
        + key[2] as u64 * 0x100_0000_0000 + key[3] as u64 * 0x1_0000_0000 + key[4] as u64
        * 0x100_0000 + key[5] as u64 * 0x1_0000 + key[6] as u64 * 0x100 + key[7] as u64;
    let r: RowKey = RowKey { at_ns, ip: IpKey { family: key[8], addr } };
    proof {
        let s: Seq<u8> = key@.take(8);
        lemma_be_eight(s);
        lemma_be_octets(at_ns);
        lemma_value_order(be_octets(at_ns), s);
        assert(be_octets(at_ns) == s);
        lemma_place_parts(r, key@);
    }
    r
}

} // verus!
