//! How often a node may report.

use crate::maps::names_get;
use crate::maps::names_held;
use crate::maps::names_insert;
use crate::maps::names_new;
use dashmap::DashMap;
use vstd::prelude::*;

verus! {

pub const NS_PER_S: u64 = 1_000_000_000;

/// A bucket of tokens for each node, with when it was last filled.
pub struct RateLimiter {
    pub buckets: DashMap<String, (u64, u64)>,
    pub rate_per_s: u64,
    pub burst: u64,
}

/// How many tokens a span of time gives; 64 bits of the number count.
pub open spec fn tokens_in(elapsed_ns: int, rate_per_s: u64) -> int {
    (elapsed_ns * rate_per_s / 1_000_000_000) % 0x1_0000_0000_0000_0000
}

/// A bucket filled up to `now_ns`. A span too short for a token is not lost: the bucket
/// keeps the time from which it counts.
pub open spec fn refilled(b: (u64, u64), now_ns: u64, rate_per_s: u64, burst: u64) -> (u64, u64) {
    let added: int = tokens_in(now_ns - b.1, rate_per_s);
    if now_ns > b.1 && added > 0 {
        (
            if b.0 + added < burst {
                (b.0 + added) as u64
            } else {
                burst
            },
            now_ns,
        )
    } else {
        b
    }
}

/// The bucket of a node; a full one where it has none.
pub open spec fn bucket_of(
    held: Map<Seq<char>, (u64, u64)>,
    node: Seq<char>,
    now_ns: u64,
    burst: u64,
) -> (u64, u64) {
    if held.contains_key(node) {
        held[node]
    } else {
        (burst, now_ns)
    }
}

/// The bucket after a request, which takes a token where there is one.
pub open spec fn spent(b: (u64, u64)) -> (u64, u64) {
    if b.0 > 0 {
        ((b.0 - 1) as u64, b.1)
    } else {
        b
    }
}

impl RateLimiter {
    /// What the buckets hold.
    pub open spec fn held(&self) -> Map<Seq<char>, (u64, u64)> {
        names_held(self.buckets)
    }

    pub fn new(rate_per_s: u64, burst: u64) -> (r: Self)
        ensures
            r.rate_per_s == rate_per_s,
            r.burst == burst,
            forall|k: Seq<char>| !r.held().contains_key(k),
    {
        RateLimiter { buckets: names_new(), rate_per_s, burst }
    }

    /// Whether a node may report at `now_ns`; if so it takes a token.
    pub fn check(&mut self, node_name: &str, now_ns: u64) -> (r: bool)
        ensures
            ({
                let b: (u64, u64) = refilled(
                    bucket_of(old(self).held(), node_name@, now_ns, old(self).burst),
                    now_ns,
                    old(self).rate_per_s,
                    old(self).burst,
                );
                &&& r == (b.0 > 0)
                &&& final(self).held() == old(self).held().insert(node_name@, spent(b))
            }),
            final(self).rate_per_s == old(self).rate_per_s,
            final(self).burst == old(self).burst,
    {
        let (mut tokens, mut last): (u64, u64) = match names_get(&self.buckets, node_name) {
            Some(b) => b,
            None => (self.burst, now_ns),
        };
        if now_ns > last {
            let elapsed: u64 = now_ns - last;
            let rate: u64 = self.rate_per_s;
            assert(0 <= elapsed * rate <= 0xffff_ffff_ffff_ffff * 0xffff_ffff_ffff_ffff)
                by (nonlinear_arith)
                requires
                    0 <= elapsed <= 0xffff_ffff_ffff_ffff,
                    0 <= rate <= 0xffff_ffff_ffff_ffff,
            ;
            let wide: u128 = elapsed as u128 * rate as u128 / 1_000_000_000;
            let added: u64 = (wide % 0x1_0000_0000_0000_0000) as u64;
            if added > 0 {
                let sum: u64 = tokens.saturating_add(added);
                tokens =
                if sum < self.burst {
                    sum
                } else {
                    self.burst
                };
                last = now_ns;
            }
        }
        let allowed: bool = tokens > 0;
        if allowed {
            tokens = tokens - 1;
        }
        names_insert(&mut self.buckets, node_name, (tokens, last));
        allowed
    }
}

impl Default for RateLimiter {
    fn default() -> (r: Self)
        ensures
            r.rate_per_s == 100,
            r.burst == 200,
            forall|k: Seq<char>| !r.held().contains_key(k),
    {
        RateLimiter::new(100, 200)
    }
}

/// The bucket after `n` requests at the same moment.
pub open spec fn spent_times(b: (u64, u64), n: nat) -> (u64, u64)
    decreases n,
{
    if n == 0 {
        b
    } else {
        spent(spent_times(b, (n - 1) as nat))
    }
}

/// At one moment a bucket allows as many requests as it has tokens, and no more.
pub proof fn law_bucket_allows_its_tokens(b: (u64, u64), n: nat)
    ensures
        spent_times(b, n).0 == if n >= b.0 {
            0
        } else {
            b.0 - n
        },
        spent_times(b, n).1 == b.1,
    decreases n,
{
    if n > 0 {
        law_bucket_allows_its_tokens(b, (n - 1) as nat);
    }
}

/// The longer a bucket fills, the more tokens it gets, as long as they can be counted.
pub proof fn law_longer_spans_give_more(a_ns: int, b_ns: int, rate_per_s: u64)
    requires
        0 <= a_ns <= b_ns,
        b_ns * rate_per_s / 1_000_000_000 <= u64::MAX,
    ensures
        tokens_in(a_ns, rate_per_s) <= tokens_in(b_ns, rate_per_s),
{
    assert(0 <= a_ns * rate_per_s <= b_ns * rate_per_s) by (nonlinear_arith)
        requires
            0 <= a_ns <= b_ns,
            rate_per_s >= 0,
    ;
}

/// A bucket never holds more than the burst, however long it fills.
pub proof fn law_bucket_never_overflows(b: (u64, u64), now_ns: u64, rate_per_s: u64, burst: u64)
    requires
        b.0 <= burst,
    ensures
        refilled(b, now_ns, rate_per_s, burst).0 <= burst,
        spent(refilled(b, now_ns, rate_per_s, burst)).0 <= burst,
{
}

} // verus!
