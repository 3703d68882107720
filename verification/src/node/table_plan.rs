//! What to take out of the tables of the packet path, and what to put in, when the
//! configuration changes.

use crate::common::BlockEntry;
use crate::common::IpKey;
use crate::common::BLOCK_PERMANENT;
use crate::ip::cidr_value;
use crate::ip::host_value;
use crate::ip::parse_cidr;
use crate::ip::parse_ip_or_cidr;
use crate::ip::IpError;
use crate::key_table::KeyTable;
use crate::node::geoip::GeoIpBlock;
use crate::rules;
use vstd::prelude::*;

verus! {

/// Values that can be compared and copied.
pub trait Alike: Sized {
    fn alike(&self, other: &Self) -> (r: bool)
        ensures
            r == (*self == *other),
    ;

    fn twin(&self) -> (r: Self)
        ensures
            r == *self,
    ;
}

impl Alike for IpKey {
    fn alike(&self, other: &Self) -> (r: bool) {
        self.same(other)
    }

    fn twin(&self) -> (r: Self) {
        *self
    }
}

impl Alike for (IpKey, u32) {
    fn alike(&self, other: &Self) -> (r: bool) {
        self.0.same(&other.0) && self.1 == other.1
    }

    fn twin(&self) -> (r: Self) {
        (self.0, self.1)
    }
}

/// A list without repetitions: of equal items the first stays.
pub open spec fn firsts<T>(s: Seq<T>) -> Seq<T>
    decreases s.len(),
{
    if s.len() == 0 {
        s
    } else {
        let front: Seq<T> = firsts(s.drop_last());
        if front.contains(s.last()) {
            front
        } else {
            front.push(s.last())
        }
    }
}

/// The items of a list that are not in another, in order.
pub open spec fn without<T>(s: Seq<T>, other: Seq<T>) -> Seq<T>
    decreases s.len(),
{
    if s.len() == 0 {
        s
    } else if other.contains(s.last()) {
        without(s.drop_last(), other)
    } else {
        without(s.drop_last(), other).push(s.last())
    }
}

fn holds<T: Alike>(v: &Vec<T>, x: &T) -> (r: bool)
    ensures
        r == v@.contains(*x),
{
    for i in 0..v.len()
        invariant
            forall|j: int| 0 <= j < i ==> v@[j] != *x,
    {
        if v[i].alike(x) {
            assert(v@[i as int] == *x);
            return true;
        }
    }
    false
}

fn distinct<T: Alike>(v: &Vec<T>) -> (r: Vec<T>)
    ensures
        r@ == firsts(v@),
{
    let mut out: Vec<T> = Vec::new();
    for i in 0..v.len()
        invariant
            out@ == firsts(v@.take(i as int)),
    {
        assert(v@.take(i + 1).drop_last() =~= v@.take(i as int));
        assert(v@.take(i + 1).last() == v@[i as int]);
        if !holds(&out, &v[i]) {
            out.push(v[i].twin());
        }
    }
    assert(v@.take(v@.len() as int) =~= v@);
    out
}

fn minus<T: Alike>(v: &Vec<T>, other: &Vec<T>) -> (r: Vec<T>)
    ensures
        r@ == without(v@, other@),
{
    let mut out: Vec<T> = Vec::new();
    for i in 0..v.len()
        invariant
            out@ == without(v@.take(i as int), other@),
    {
        assert(v@.take(i + 1).drop_last() =~= v@.take(i as int));
        assert(v@.take(i + 1).last() == v@[i as int]);
        if !holds(other, &v[i]) {
            out.push(v[i].twin());
        }
    }
    assert(v@.take(v@.len() as int) =~= v@);
    out
}

/// The list holds the items but `x`.
pub open spec fn lacking<T>(s: Seq<T>, x: T) -> Seq<T> {
    without(s, seq![x])
}

/// Takes an item out of a list, wherever it is.
pub fn take_out<T: Alike>(v: &mut Vec<T>, x: &T)
    ensures
        final(v)@ == lacking(old(v)@, *x),
{
    let mut one: Vec<T> = Vec::new();
    one.push(x.twin());
    assert(one@ =~= seq![*x]);
    let left: Vec<T> = minus(v, &one);
    *v = left;
}

/// What a network in the configuration stands for, as a table entry.
pub open spec fn net_of(s: Seq<char>, n: (IpKey, u32)) -> bool {
    cidr_value(s) == Ok::<(u8, Seq<u8>, u32), IpError>((n.0.family, n.0.addr@, n.1))
}

/// `nets` are the networks of a list in text.
pub open spec fn reads_nets(list: Seq<String>, nets: Seq<(IpKey, u32)>) -> bool {
    &&& nets.len() == list.len()
    &&& forall|i: int| 0 <= i < list.len() ==> net_of(#[trigger] list[i]@, nets[i])
}

/// What a host in the configuration stands for, as a table entry.
pub open spec fn host_of(s: Seq<char>, k: IpKey) -> bool {
    host_value(s) == Ok::<(u8, Seq<u8>), IpError>((k.family, k.addr@))
}

/// `keys` are the hosts of a list in text.
pub open spec fn reads_hosts(list: Seq<String>, keys: Seq<IpKey>) -> bool {
    &&& keys.len() == list.len()
    &&& forall|i: int| 0 <= i < list.len() ==> host_of(#[trigger] list[i]@, keys[i])
}

/// What to change in a table of networks, and what it then holds.
pub struct NetPlan {
    pub remove: Vec<(IpKey, u32)>,
    pub insert: Vec<(IpKey, u32)>,
    pub next: Vec<(IpKey, u32)>,
}

/// The first text of a list that is no network is the cause.
pub open spec fn first_bad_net(list: Seq<String>, e: IpError) -> bool {
    exists|i: int|
        0 <= i < list.len() && cidr_value((#[trigger] list[i])@) == Err::<
            (u8, Seq<u8>, u32),
            IpError,
        >(e) && forall|j: int| 0 <= j < i ==> cidr_value((#[trigger] list[j])@) is Ok
}

/// The first text of a list that is no host is the cause.
pub open spec fn first_bad_host(list: Seq<String>, e: IpError) -> bool {
    exists|i: int|
        0 <= i < list.len() && host_value((#[trigger] list[i])@) == Err::<(u8, Seq<u8>), IpError>(
            e,
        ) && forall|j: int| 0 <= j < i ==> host_value((#[trigger] list[j])@) is Ok
}

fn read_nets(list: &Vec<String>) -> (r: Result<Vec<(IpKey, u32)>, IpError>)
    ensures
        match r {
            Ok(nets) => reads_nets(list@, nets@),
            Err(e) => first_bad_net(list@, e),
        },
{
    let mut nets: Vec<(IpKey, u32)> = Vec::new();
    for i in 0..list.len()
        invariant
            nets@.len() == i,
            forall|j: int| 0 <= j < i ==> net_of(#[trigger] list@[j]@, nets@[j]),
    {
        match parse_cidr(list[i].as_str()) {
            Ok(n) => {
                assert(net_of(list@[i as int]@, n));
                nets.push(n);
            },
            Err(e) => {
                assert forall|j: int| 0 <= j < i implies cidr_value((#[trigger] list@[j])@) is Ok by {
                    assert(net_of(list@[j]@, nets@[j]));
                }
                assert(cidr_value(list@[i as int]@) == Err::<(u8, Seq<u8>, u32), IpError>(e));
                return Err(e);
            },
        }
    }
    Ok(nets)
}

fn read_hosts(list: &Vec<String>) -> (r: Result<Vec<IpKey>, IpError>)
    ensures
        match r {
            Ok(keys) => reads_hosts(list@, keys@),
            Err(e) => first_bad_host(list@, e),
        },
{
    let mut keys: Vec<IpKey> = Vec::new();
    for i in 0..list.len()
        invariant
            keys@.len() == i,
            forall|j: int| 0 <= j < i ==> host_of(#[trigger] list@[j]@, keys@[j]),
    {
        match parse_ip_or_cidr(list[i].as_str()) {
            Ok(k) => {
                assert(host_of(list@[i as int]@, k));
                keys.push(k);
            },
            Err(e) => {
                assert forall|j: int| 0 <= j < i implies host_value((#[trigger] list@[j])@) is Ok by {
                    assert(host_of(list@[j]@, keys@[j]));
                }
                assert(host_value(list@[i as int]@) == Err::<(u8, Seq<u8>), IpError>(e));
                return Err(e);
            },
        }
    }
    Ok(keys)
}

/// What to change so that the table of trusted networks holds those of the configuration.
pub fn plan_whitelist(list: &Vec<String>, current: &Vec<(IpKey, u32)>) -> (r: Result<
    NetPlan,
    IpError,
>)
    ensures
        match r {
            Ok(p) => exists|nets: Seq<(IpKey, u32)>| #[trigger]
                reads_nets(list@, nets) && p.next@ == firsts(nets) && p.remove@ == without(
                    current@,
                    firsts(nets),
                ) && p.insert@ == without(firsts(nets), current@),
            Err(e) => first_bad_net(list@, e),
        },
{
    let nets: Vec<(IpKey, u32)> = match read_nets(list) {
        Ok(n) => n,
        Err(e) => {
            return Err(e);
        },
    };
    let next: Vec<(IpKey, u32)> = distinct(&nets);
    let remove: Vec<(IpKey, u32)> = minus(current, &next);
    let insert: Vec<(IpKey, u32)> = minus(&next, current);
    assert(reads_nets(list@, nets@));
    Ok(NetPlan { remove, insert, next })
}

/// What to change in the table of blocked sources, and which are then blocked by the
/// configuration.
pub struct HostPlan {
    pub remove: Vec<IpKey>,
    pub insert: Vec<(IpKey, BlockEntry)>,
    pub next: Vec<IpKey>,
}

/// The entry of a source that the configuration blocks.
pub open spec fn static_entry() -> BlockEntry {
    BlockEntry {
        blocked_until_ns: 0,
        block_reason: rules::BLACKLIST as u8,
        hit_count: 0,
        first_seen_ns: 0,
    }
}

/// The table holds the source because the configuration said so.
pub open spec fn is_static(held: Map<IpKey, BlockEntry>, k: IpKey) -> bool {
    held.contains_key(k) && held[k].block_reason == rules::BLACKLIST as u8
}

/// The sources of a list that the table holds because the configuration said so.
pub open spec fn statics(held: Map<IpKey, BlockEntry>, list: Seq<IpKey>) -> Seq<IpKey>
    decreases list.len(),
{
    if list.len() == 0 {
        list
    } else if is_static(held, list.last()) {
        statics(held, list.drop_last()).push(list.last())
    } else {
        statics(held, list.drop_last())
    }
}

fn keep_static(held: &KeyTable<BlockEntry>, list: &Vec<IpKey>) -> (r: Vec<IpKey>)
    requires
        held.wf(),
    ensures
        r@ == statics(held.map(), list@),
{
    let mut out: Vec<IpKey> = Vec::new();
    for i in 0..list.len()
        invariant
            held.wf(),
            out@ == statics(held.map(), list@.take(i as int)),
    {
        assert(list@.take(i + 1).drop_last() =~= list@.take(i as int));
        assert(list@.take(i + 1).last() == list@[i as int]);
        if let Some(e) = held.get(&list[i]) {
            if e.block_reason == rules::BLACKLIST as u8 {
                out.push(list[i]);
            }
        }
    }
    assert(list@.take(list@.len() as int) =~= list@);
    out
}

/// The sources with the entry of a source that the configuration blocks.
pub open spec fn static_entries(keys: Seq<IpKey>) -> Seq<(IpKey, BlockEntry)> {
    keys.map_values(|k: IpKey| (k, static_entry()))
}

/// What to change so that the sources of the configuration are blocked. Sources that
/// something else blocked stay.
pub fn plan_blacklist(
    list: &Vec<String>,
    current: &Vec<IpKey>,
    held: &KeyTable<BlockEntry>,
) -> (r: Result<HostPlan, IpError>)
    requires
        held.wf(),
    ensures
        match r {
            Ok(p) => exists|keys: Seq<IpKey>| #[trigger]
                reads_hosts(list@, keys) && p.next@ == firsts(keys) && p.remove@ == statics(
                    held.map(),
                    without(current@, firsts(keys)),
                ) && p.insert@ == static_entries(without(firsts(keys), current@)),
            Err(e) => first_bad_host(list@, e),
        },
{
    let keys: Vec<IpKey> = match read_hosts(list) {
        Ok(k) => k,
        Err(e) => {
            return Err(e);
        },
    };
    let next: Vec<IpKey> = distinct(&keys);
    let gone: Vec<IpKey> = minus(current, &next);
    let remove: Vec<IpKey> = keep_static(held, &gone);
    let new: Vec<IpKey> = minus(&next, current);
    let mut insert: Vec<(IpKey, BlockEntry)> = Vec::new();
    for i in 0..new.len()
        invariant
            insert@ == static_entries(new@.take(i as int)),
    {
        let ghost before = insert@;
        let entry: BlockEntry = BlockEntry {
            blocked_until_ns: BLOCK_PERMANENT,
            block_reason: rules::BLACKLIST as u8,
            hit_count: 0,
            first_seen_ns: 0,
        };
        insert.push((new[i], entry));
        assert(insert@ =~= static_entries(new@.take(i + 1)));
    }
    assert(new@.take(new@.len() as int) =~= new@);
    assert(reads_hosts(list@, keys@));
    Ok(HostPlan { remove, insert, next })
}

/// The networks of a list of regions whose family is known, in order.
pub open spec fn region_nets(blocks: Seq<GeoIpBlock>) -> Seq<(IpKey, u32)>
    decreases blocks.len(),
{
    if blocks.len() == 0 {
        Seq::empty()
    } else {
        let front: Seq<(IpKey, u32)> = region_nets(blocks.drop_last());
        let b: GeoIpBlock = blocks.last();
        if b.key.family == 4 || b.key.family == 6 {
            front.push((b.key, b.prefix))
        } else {
            front
        }
    }
}

/// What to change so that the table of regions holds the networks of the tables, where
/// regions are filtered; all that it held goes first.
pub fn plan_regions(enabled: bool, blocks: &Vec<GeoIpBlock>, current: Vec<(IpKey, u32)>) -> (r:
    NetPlan)
    ensures
        r.remove@ == current@,
        r.insert@ == if enabled {
            region_nets(blocks@)
        } else {
            Seq::empty()
        },
        r.next@ == r.insert@,
{
    let mut insert: Vec<(IpKey, u32)> = Vec::new();
    let mut next: Vec<(IpKey, u32)> = Vec::new();
    if enabled {
        for i in 0..blocks.len()
            invariant
                insert@ == region_nets(blocks@.take(i as int)),
                next@ == insert@,
        {
            assert(blocks@.take(i + 1).drop_last() =~= blocks@.take(i as int));
            assert(blocks@.take(i + 1).last() == blocks@[i as int]);
            let k: IpKey = blocks[i].key;
            if k.family == 4 || k.family == 6 {
                insert.push((k, blocks[i].prefix));
                next.push((k, blocks[i].prefix));
            }
        }
        assert(blocks@.take(blocks@.len() as int) =~= blocks@);
    }
    NetPlan { remove: current, insert, next }
}

/// The IPv4 networks of a list, with the address as a number.
pub open spec fn v4_of(nets: Seq<(IpKey, u32)>) -> Seq<(int, u32)>
    decreases nets.len(),
{
    if nets.len() == 0 {
        Seq::empty()
    } else {
        let front: Seq<(int, u32)> = v4_of(nets.drop_last());
        if nets.last().0.family == 4 {
            front.push((nets.last().0.ipv4_value(), nets.last().1))
        } else {
            front
        }
    }
}

/// The IPv4 networks of a list, with the address as a number.
pub fn v4_nets(nets: &Vec<(IpKey, u32)>) -> (r: Vec<(u32, u32)>)
    ensures
        r@.map_values(|n: (u32, u32)| (n.0 as int, n.1)) == v4_of(nets@),
{
    let ghost f = |n: (u32, u32)| (n.0 as int, n.1);
    let mut out: Vec<(u32, u32)> = Vec::new();
    assert(out@.map_values(f) =~= v4_of(nets@.take(0)));
    for i in 0..nets.len()
        invariant
            f == (|n: (u32, u32)| (n.0 as int, n.1)),
            out@.map_values(f) == v4_of(nets@.take(i as int)),
    {
        let ghost before = out@.map_values(f);
        assert(nets@.take(i + 1).drop_last() =~= nets@.take(i as int));
        assert(nets@.take(i + 1).last() == nets@[i as int]);
        if nets[i].0.family == 4 {
            let n: (u32, u32) = (nets[i].0.ipv4(), nets[i].1);
            out.push(n);
            assert(out@.map_values(f) =~= before.push(f(n)));
        }
    }
    assert(nets@.take(nets@.len() as int) =~= nets@);
    out
}

/// The IPv6 networks of a list, with the octets of the address.
pub open spec fn v6_of(nets: Seq<(IpKey, u32)>) -> Seq<([u8; 16], u32)>
    decreases nets.len(),
{
    if nets.len() == 0 {
        Seq::empty()
    } else {
        let front: Seq<([u8; 16], u32)> = v6_of(nets.drop_last());
        if nets.last().0.family == 6 {
            front.push((nets.last().0.addr, nets.last().1))
        } else {
            front
        }
    }
}

/// The IPv6 networks of a list, with the octets of the address.
pub fn v6_nets(nets: &Vec<(IpKey, u32)>) -> (r: Vec<([u8; 16], u32)>)
    ensures
        r@ == v6_of(nets@),
{
    let mut out: Vec<([u8; 16], u32)> = Vec::new();
    for i in 0..nets.len()
        invariant
            out@ == v6_of(nets@.take(i as int)),
    {
        assert(nets@.take(i + 1).drop_last() =~= nets@.take(i as int));
        assert(nets@.take(i + 1).last() == nets@[i as int]);
        if nets[i].0.family == 6 {
            out.push((nets[i].0.addr, nets[i].1));
        }
    }
    assert(nets@.take(nets@.len() as int) =~= nets@);
    out
}

proof fn lemma_without<T>(s: Seq<T>, other: Seq<T>)
    ensures
        forall|x: T| #[trigger]
            without(s, other).contains(x) <==> s.contains(x) && !other.contains(x),
    decreases s.len(),
{
    if s.len() > 0 {
        let front: Seq<T> = s.drop_last();
        let w: Seq<T> = without(s, other);
        let wf: Seq<T> = without(front, other);
        lemma_without(front, other);
        assert forall|x: T| #[trigger] w.contains(x) <==> s.contains(x) && !other.contains(x) by {
            assert(s =~= front.push(s.last()));
            assert(s.contains(x) <==> front.contains(x) || s.last() == x) by {
                if s.contains(x) {
                    let i: int = choose|i: int| 0 <= i < s.len() && s[i] == x;
                    if i < front.len() {
                        assert(front[i] == x);
                    }
                }
                if front.contains(x) {
                    let i: int = choose|i: int| 0 <= i < front.len() && front[i] == x;
                    assert(s[i] == x);
                }
                assert(s[s.len() - 1] == s.last());
            }
            assert(wf.contains(x) <==> front.contains(x) && !other.contains(x));
            if !other.contains(s.last()) {
                assert(w =~= wf.push(s.last()));
                assert(w.contains(x) <==> wf.contains(x) || x == s.last()) by {
                    if w.contains(x) {
                        let i: int = choose|i: int| 0 <= i < w.len() && w[i] == x;
                        if i < wf.len() {
                            assert(wf[i] == x);
                        }
                    }
                    if wf.contains(x) {
                        let i: int = choose|i: int| 0 <= i < wf.len() && wf[i] == x;
                        assert(w[i] == x);
                    }
                    assert(w[w.len() - 1] == s.last());
                }
            }
        }
    }
}

/// Carried out, a plan leaves the table with what the configuration asks for: what stays
/// and what comes in are together exactly that.
pub proof fn law_plan_reaches_target<T>(current: Seq<T>, next: Seq<T>, x: T)
    ensures
        next.contains(x) <==> (current.contains(x) && !without(current, next).contains(x))
            || without(next, current).contains(x),
{
    lemma_without(current, next);
    lemma_without(next, current);
}

/// A plan puts nothing in that is there already, and takes nothing out that is wanted.
pub proof fn law_plan_is_minimal<T>(current: Seq<T>, next: Seq<T>, x: T)
    ensures
        without(next, current).contains(x) ==> !current.contains(x),
        without(current, next).contains(x) ==> !next.contains(x),
{
    lemma_without(current, next);
    lemma_without(next, current);
}

} // verus!
