//! Concurrent maps of the `dashmap` crate.
//!
//! Each kind of map has a name for what it holds; the functions here make one call of
//! the crate each and say what the call does to the contents.

use crate::common::IpKey;
use dashmap::DashMap;
use vstd::prelude::*;

verus! {

/// The map type of the `dashmap` crate.
#[verifier::external_type_specification]
#[verifier::external_body]
#[verifier::reject_recursive_types(K)]
#[verifier::reject_recursive_types(V)]
#[verifier::reject_recursive_types(S)]
pub struct ExDashMap<K, V, S>(DashMap<K, V, S>);

/// What a map from names to pairs of numbers holds.
pub uninterp spec fn names_held(m: DashMap<String, (u64, u64)>) -> Map<Seq<char>, (u64, u64)>;

/// `DashMap::new`: a map that holds nothing.
#[verifier::external_body]
pub(crate) fn names_new() -> (r: DashMap<String, (u64, u64)>)
    ensures
        forall|k: Seq<char>| !names_held(r).contains_key(k),
{
    DashMap::new()
}

/// `DashMap::get`: a copy of what the map holds under the name.
#[verifier::external_body]
pub(crate) fn names_get(m: &DashMap<String, (u64, u64)>, k: &str) -> (r: Option<(u64, u64)>)
    ensures
        r == (if names_held(*m).contains_key(k@) {
            Some(names_held(*m)[k@])
        } else {
            None
        }),
{
    m.get(k).map(|e| *e.value())
}

/// `DashMap::insert`: the map then holds the pair under the name, and else what it held.
#[verifier::external_body]
pub(crate) fn names_insert(m: &mut DashMap<String, (u64, u64)>, k: &str, v: (u64, u64))
    ensures
        names_held(*final(m)) == names_held(*old(m)).insert(k@, v),
{
    m.insert(k.to_string(), v);
}

/// `DashMap::remove`: the map then holds nothing under the name, and else what it held.
#[verifier::external_body]
pub(crate) fn names_remove(m: &mut DashMap<String, (u64, u64)>, k: &str)
    ensures
        names_held(*final(m)) == names_held(*old(m)).remove(k@),
{
    m.remove(k);
}

/// `r` lists what `held` holds, each name once, in some order.
pub open spec fn lists_names(r: Seq<(String, (u64, u64))>, held: Map<Seq<char>, (u64, u64)>) -> bool {
    &&& forall|i: int|
        0 <= i < r.len() ==> held.contains_key((#[trigger] r[i]).0@) && held[r[i].0@] == r[i].1
    &&& forall|i: int, j: int|
        #![trigger r[i], r[j]]
        0 <= i < j < r.len() ==> r[i].0@ != r[j].0@
    &&& forall|k: Seq<char>|
        held.contains_key(k) ==> exists|i: int| 0 <= i < r.len() && (#[trigger] r[i]).0@ == k
}

/// `DashMap::iter`: everything the map holds, each name once, in an order that is the
/// map's own.
#[verifier::external_body]
pub(crate) fn names_list(m: &DashMap<String, (u64, u64)>) -> (r: Vec<(String, (u64, u64))>)
    ensures
        lists_names(r@, names_held(*m)),
{
    m.iter().map(|e| (e.key().clone(), *e.value())).collect()
}

/// What a map from ports to numbers holds.
pub uninterp spec fn ports_held(m: DashMap<u16, u64>) -> Map<u16, u64>;

/// `DashMap::new`: a map that holds nothing.
#[verifier::external_body]
pub(crate) fn ports_new() -> (r: DashMap<u16, u64>)
    ensures
        forall|k: u16| !ports_held(r).contains_key(k),
{
    DashMap::new()
}

/// `DashMap::get`: a copy of what the map holds under the port.
#[verifier::external_body]
pub(crate) fn ports_get(m: &DashMap<u16, u64>, k: u16) -> (r: Option<u64>)
    ensures
        r == (if ports_held(*m).contains_key(k) {
            Some(ports_held(*m)[k])
        } else {
            None
        }),
{
    m.get(&k).map(|e| *e.value())
}

/// `DashMap::insert`: the map then holds the number under the port, and else what it held.
#[verifier::external_body]
pub(crate) fn ports_insert(m: &mut DashMap<u16, u64>, k: u16, v: u64)
    ensures
        ports_held(*final(m)) == ports_held(*old(m)).insert(k, v),
{
    m.insert(k, v);
}

/// `r` lists what `held` holds, each port once, in some order.
pub open spec fn lists_ports(r: Seq<(u16, u64)>, held: Map<u16, u64>) -> bool {
    &&& forall|i: int|
        0 <= i < r.len() ==> held.contains_key((#[trigger] r[i]).0) && held[r[i].0] == r[i].1
    &&& forall|i: int, j: int|
        #![trigger r[i], r[j]]
        0 <= i < j < r.len() ==> r[i].0 != r[j].0
    &&& forall|k: u16|
        held.contains_key(k) ==> exists|i: int| 0 <= i < r.len() && (#[trigger] r[i]).0 == k
}

/// `DashMap::iter`: everything the map holds, each port once, in an order that is the
/// map's own.
#[verifier::external_body]
pub(crate) fn ports_list(m: &DashMap<u16, u64>) -> (r: Vec<(u16, u64)>)
    ensures
        lists_ports(r@, ports_held(*m)),
{
    m.iter().map(|e| (*e.key(), *e.value())).collect()
}

/// What a map from addresses to numbers holds; an address is its family and its octets.
pub uninterp spec fn counts_held(m: DashMap<[u8; 17], u64>) -> Map<Seq<u8>, u64>;

/// `DashMap::new`: a map that holds nothing.
#[verifier::external_body]
pub(crate) fn counts_new() -> (r: DashMap<[u8; 17], u64>)
    ensures
        forall|k: Seq<u8>| !counts_held(r).contains_key(k),
{
    DashMap::new()
}

/// `DashMap::get`: a copy of what the map holds under the address.
#[verifier::external_body]
pub(crate) fn counts_get(m: &DashMap<[u8; 17], u64>, k: &[u8; 17]) -> (r: Option<u64>)
    ensures
        r == (if counts_held(*m).contains_key(k@) {
            Some(counts_held(*m)[k@])
        } else {
            None
        }),
{
    m.get(k).map(|e| *e.value())
}

/// `DashMap::insert`: the map then holds the number under the address, and else what it
/// held.
#[verifier::external_body]
pub(crate) fn counts_insert(m: &mut DashMap<[u8; 17], u64>, k: &[u8; 17], v: u64)
    ensures
        counts_held(*final(m)) == counts_held(*old(m)).insert(k@, v),
{
    m.insert(*k, v);
}

/// `DashMap::clear`: the map then holds nothing.
#[verifier::external_body]
pub(crate) fn counts_clear(m: &mut DashMap<[u8; 17], u64>)
    ensures
        forall|k: Seq<u8>| !counts_held(*final(m)).contains_key(k),
{
    m.clear();
}

/// `r` lists what `held` holds, each address once, in some order.
pub open spec fn lists_counts(r: Seq<([u8; 17], u64)>, held: Map<Seq<u8>, u64>) -> bool {
    &&& forall|i: int|
        0 <= i < r.len() ==> held.contains_key((#[trigger] r[i]).0@) && held[r[i].0@] == r[i].1
    &&& forall|i: int, j: int|
        #![trigger r[i], r[j]]
        0 <= i < j < r.len() ==> r[i].0@ != r[j].0@
    &&& forall|k: Seq<u8>|
        held.contains_key(k) ==> exists|i: int| 0 <= i < r.len() && (#[trigger] r[i]).0@ == k
}

/// `DashMap::iter`: everything the map holds, each address once, in an order that is the
/// map's own.
#[verifier::external_body]
pub(crate) fn counts_list(m: &DashMap<[u8; 17], u64>) -> (r: Vec<([u8; 17], u64)>)
    ensures
        lists_counts(r@, counts_held(*m)),
{
    m.iter().map(|e| (*e.key(), *e.value())).collect()
}

/// What a map from addresses to lists of times holds.
pub uninterp spec fn times_held(m: DashMap<[u8; 17], Vec<u64>>) -> Map<Seq<u8>, Seq<u64>>;

/// `DashMap::new`: a map that holds nothing.
#[verifier::external_body]
pub(crate) fn times_new() -> (r: DashMap<[u8; 17], Vec<u64>>)
    ensures
        forall|k: Seq<u8>| !times_held(r).contains_key(k),
{
    DashMap::new()
}

/// `DashMap::get`: a copy of what the map holds under the address.
#[verifier::external_body]
pub(crate) fn times_get(m: &DashMap<[u8; 17], Vec<u64>>, k: &[u8; 17]) -> (r: Option<Vec<u64>>)
    ensures
        match r {
            Some(v) => times_held(*m).contains_key(k@) && v@ == times_held(*m)[k@],
            None => !times_held(*m).contains_key(k@) && r is None,
        },
{
    m.get(k).map(|e| e.value().clone())
}

/// `DashMap::insert`: the map then holds the times under the address, and else what it
/// held.
#[verifier::external_body]
pub(crate) fn times_insert(m: &mut DashMap<[u8; 17], Vec<u64>>, k: &[u8; 17], v: Vec<u64>)
    ensures
        times_held(*final(m)) == times_held(*old(m)).insert(k@, v@),
{
    m.insert(*k, v);
}

/// What a map from addresses to block records holds.
pub uninterp spec fn blocks_held(m: DashMap<[u8; 17], (u64, u32, u8)>) -> Map<Seq<u8>, (u64, u32, u8)>;

/// `DashMap::new`: a map that holds nothing.
#[verifier::external_body]
pub(crate) fn blocks_new() -> (r: DashMap<[u8; 17], (u64, u32, u8)>)
    ensures
        forall|k: Seq<u8>| !blocks_held(r).contains_key(k),
{
    DashMap::new()
}

/// `DashMap::get`: a copy of what the map holds under the address.
#[verifier::external_body]
pub(crate) fn blocks_get(m: &DashMap<[u8; 17], (u64, u32, u8)>, k: &[u8; 17]) -> (r: Option<
    (u64, u32, u8),
>)
    ensures
        r == (if blocks_held(*m).contains_key(k@) {
            Some(blocks_held(*m)[k@])
        } else {
            None
        }),
{
    m.get(k).map(|e| *e.value())
}

/// `DashMap::insert`: the map then holds the record under the address, and else what it
/// held.
#[verifier::external_body]
pub(crate) fn blocks_insert(
    m: &mut DashMap<[u8; 17], (u64, u32, u8)>,
    k: &[u8; 17],
    v: (u64, u32, u8),
)
    ensures
        blocks_held(*final(m)) == blocks_held(*old(m)).insert(k@, v),
{
    m.insert(*k, v);
}

/// An address as a key: its family, then its octets.
pub open spec fn key_octets(ip: IpKey) -> Seq<u8> {
    seq![ip.family] + ip.addr@
}

pub fn ip_index_key(ip: &IpKey) -> (r: [u8; 17])
    ensures
        r@ == key_octets(*ip),
{
    let mut key: [u8; 17] = [0u8; 17];
    key[0] = ip.family;
    for i in 0..16usize
        invariant
            key@[0] == ip.family,
            forall|j: int| 0 <= j < i ==> key@[j + 1] == ip.addr@[j],
    {
        key[i + 1] = ip.addr[i];
    }
    assert(key@ =~= key_octets(*ip));
    key
}

/// The address that a key stands for.
pub fn key_of_octets(k: &[u8; 17]) -> (r: IpKey)
    ensures
        key_octets(r) == k@,
{
    let mut addr: [u8; 16] = [0u8; 16];
    for i in 0..16usize
        invariant
            forall|j: int| 0 <= j < i ==> addr@[j] == k@[j + 1],
    {
        addr[i] = k[i + 1];
    }
    let r: IpKey = IpKey { family: k[0], addr };
    assert(key_octets(r) =~= k@);
    r
}

/// The address that the octets of a key on disk stand for; the blank one where they are
/// too few.
pub fn bytes_to_ip_key(bytes: &[u8]) -> (r: IpKey)
    ensures
        bytes@.len() >= 17 ==> key_octets(r) == bytes@.take(17),
        bytes@.len() < 17 ==> r.is(0, Seq::new(16, |i: int| 0u8)),
{
    if bytes.len() < 17 {
        return IpKey::default();
    }
    let mut key: [u8; 17] = [0u8; 17];
    for i in 0..17usize
        invariant
            bytes@.len() >= 17,
            forall|j: int| 0 <= j < i ==> key@[j] == bytes@[j],
    {
        key[i] = bytes[i];
    }
    assert(key@ =~= bytes@.take(17));
    key_of_octets(&key)
}

/// Different addresses have different keys.
pub proof fn law_keys_tell_addresses(a: IpKey, b: IpKey)
    ensures
        key_octets(a) == key_octets(b) ==> a == b,
{
    if key_octets(a) == key_octets(b) {
        assert(key_octets(a)[0] == a.family);
        assert(key_octets(b)[0] == b.family);
        assert forall|i: int| 0 <= i < 16 implies a.addr@[i] == b.addr@[i] by {
            assert(key_octets(a)[i + 1] == a.addr@[i]);
            assert(key_octets(b)[i + 1] == b.addr@[i]);
        }
        assert(a.addr =~= b.addr);
    }
}

} // verus!
