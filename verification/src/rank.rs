//! Items by their number, the largest first.

use vstd::prelude::*;

verus! {

/// How many items, from the first on, have at least the number.
pub open spec fn place_for<T>(s: Seq<(T, u64)>, n: u64) -> int
    decreases s.len(),
{
    if s.len() == 0 {
        0
    } else if s[0].1 < n {
        0
    } else {
        1 + place_for(s.skip(1), n)
    }
}

/// The items by their number, the largest first; items with the same number keep their
/// order.
pub open spec fn ranked<T>(s: Seq<(T, u64)>) -> Seq<(T, u64)>
    decreases s.len(),
{
    if s.len() == 0 {
        s
    } else {
        let front: Seq<(T, u64)> = ranked(s.drop_last());
        front.insert(place_for(front, s.last().1), s.last())
    }
}

/// The first `n` items, or all of them.
pub open spec fn first_of<T>(s: Seq<T>, n: nat) -> Seq<T> {
    if s.len() <= n {
        s
    } else {
        s.take(n as int)
    }
}

proof fn lemma_place<T>(s: Seq<(T, u64)>, n: u64)
    ensures
        0 <= place_for(s, n) <= s.len(),
    decreases s.len(),
{
    if s.len() > 0 && s[0].1 >= n {
        lemma_place(s.skip(1), n);
    }
}

fn find_place<T: Copy>(v: &Vec<(T, u64)>, n: u64) -> (r: usize)
    ensures
        r == place_for(v@, n),
        r <= v@.len(),
{
    let mut i: usize = 0;
    assert(v@.skip(0) =~= v@);
    while i < v.len() && v[i].1 >= n
        invariant
            i <= v@.len(),
            place_for(v@, n) == i + place_for(v@.skip(i as int), n),
        decreases v@.len() - i,
    {
        let ghost rest = v@.skip(i as int);
        assert(rest[0] == v@[i as int]);
        assert(rest.skip(1) =~= v@.skip(i + 1));
        i = i + 1;
    }
    proof {
        let rest: Seq<(T, u64)> = v@.skip(i as int);
        if i < v@.len() {
            assert(rest[0] == v@[i as int]);
        }
    }
    i
}

/// The `n` items with the largest numbers, the largest first.
pub fn top<T: Copy>(list: &Vec<(T, u64)>, n: usize) -> (r: Vec<(T, u64)>)
    ensures
        r@ == first_of(ranked(list@), n as nat),
{
    let mut out: Vec<(T, u64)> = Vec::new();
    assert(out@ =~= ranked(list@.take(0)));
    for i in 0..list.len()
        invariant
            out@ == ranked(list@.take(i as int)),
            out@.len() == i,
    {
        assert(list@.take(i + 1).drop_last() =~= list@.take(i as int));
        assert(list@.take(i + 1).last() == list@[i as int]);
        let at: usize = find_place(&out, list[i].1);
        out.insert(at, list[i]);
    }
    assert(list@.take(list@.len() as int) =~= list@);
    if out.len() > n {
        out.truncate(n);
        assert(out@ =~= first_of(ranked(list@), n as nat));
    }
    out
}

/// The largest comes first.
pub open spec fn falls<T>(s: Seq<(T, u64)>) -> bool {
    forall|i: int, j: int|
        #![trigger s[i], s[j]]
        0 <= i < j < s.len() ==> s[i].1 >= s[j].1
}

proof fn lemma_around_place<T>(s: Seq<(T, u64)>, n: u64)
    requires
        falls(s),
    ensures
        0 <= place_for(s, n) <= s.len(),
        forall|i: int| 0 <= i < place_for(s, n) ==> (#[trigger] s[i]).1 >= n,
        forall|i: int| place_for(s, n) <= i < s.len() ==> (#[trigger] s[i]).1 < n,
    decreases s.len(),
{
    if s.len() > 0 {
        let rest: Seq<(T, u64)> = s.skip(1);
        assert forall|i: int, j: int|
            #![trigger rest[i], rest[j]]
            0 <= i < j < rest.len() implies rest[i].1 >= rest[j].1 by {
            assert(rest[i] == s[i + 1]);
            assert(rest[j] == s[j + 1]);
        }
        lemma_around_place(rest, n);
        if s[0].1 >= n {
            assert forall|i: int| 0 <= i < place_for(s, n) implies (#[trigger] s[i]).1 >= n by {
                if i > 0 {
                    assert(rest[i - 1] == s[i]);
                }
            }
            assert forall|i: int| place_for(s, n) <= i < s.len() implies (#[trigger] s[i]).1 < n by {
                assert(rest[i - 1] == s[i]);
            }
        } else {
            assert forall|i: int| 0 <= i < s.len() implies (#[trigger] s[i]).1 < n by {
                assert(s[0].1 >= s[i].1 || i == 0);
            }
        }
    }
}

/// Ranking loses and adds nothing, and puts the largest first.
pub proof fn law_ranked_is_ordered<T>(s: Seq<(T, u64)>)
    ensures
        falls(ranked(s)),
        ranked(s).to_multiset() == s.to_multiset(),
        ranked(s).len() == s.len(),
    decreases s.len(),
{
    if s.len() > 0 {
        let front: Seq<(T, u64)> = ranked(s.drop_last());
        let x: (T, u64) = s.last();
        let at: int = place_for(front, x.1);
        law_ranked_is_ordered(s.drop_last());
        lemma_around_place(front, x.1);
        let r: Seq<(T, u64)> = front.insert(at, x);
        assert forall|i: int, j: int|
            #![trigger r[i], r[j]]
            0 <= i < j < r.len() implies r[i].1 >= r[j].1 by {
            let a: (T, u64) = if i < at {
                front[i]
            } else if i == at {
                x
            } else {
                front[i - 1]
            };
            let b: (T, u64) = if j < at {
                front[j]
            } else if j == at {
                x
            } else {
                front[j - 1]
            };
            assert(r[i] == a);
            assert(r[j] == b);
        }
        vstd::seq_lib::to_multiset_insert(front, at, x);
        assert(s =~= s.drop_last().push(x));
        s.drop_last().to_multiset_ensures();
    } else {
        assert(ranked(s) =~= s);
    }
}

/// What is left out of the first places is no larger than what stands there.
pub proof fn law_top_holds_the_largest<T>(s: Seq<(T, u64)>, n: nat, i: int, j: int)
    requires
        0 <= i < n,
        n <= j < s.len(),
    ensures
        first_of(ranked(s), n)[i] == ranked(s)[i],
        ranked(s)[i].1 >= ranked(s)[j].1,
{
    law_ranked_is_ordered(s);
}

} // verus!
