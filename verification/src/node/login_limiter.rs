//! Slowing down who guesses tokens.

use crate::common::IpKey;
use crate::key_table::KeyTable;
use vstd::prelude::*;

verus! {

/// So many failures within the window lock an address out.
pub const MAX_ATTEMPTS: usize = 5;
pub const WINDOW_NS: u64 = 60_000_000_000;
/// For how long an address is locked out.
pub const LOCKOUT_NS: u64 = 300_000_000_000;

/// The failures of an address and until when it is locked out.
#[derive(Debug)]
pub struct AttemptEntry {
    pub attempts: Vec<u64>,
    pub locked_until: Option<u64>,
}

/// The contents of an [`AttemptEntry`].
pub struct Attempts {
    pub times: Seq<u64>,
    pub locked_until: Option<u64>,
}

impl View for AttemptEntry {
    type V = Attempts;

    open spec fn view(&self) -> Attempts {
        Attempts { times: self.attempts@, locked_until: self.locked_until }
    }
}

/// The login is refused for now.
#[derive(Clone, Copy, Debug, PartialEq, Eq, Structural)]
pub struct TooManyAttempts;

/// A failure at `t` still counts at `now_ns`.
pub open spec fn counts(t: u64, now_ns: u64) -> bool {
    now_ns < t || now_ns - t < WINDOW_NS
}

/// The failures that still count, in order.
pub open spec fn recent(times: Seq<u64>, now_ns: u64) -> Seq<u64>
    decreases times.len(),
{
    if times.len() == 0 {
        times
    } else if counts(times.last(), now_ns) {
        recent(times.drop_last(), now_ns).push(times.last())
    } else {
        recent(times.drop_last(), now_ns)
    }
}

/// A login is refused: the address is locked out, or has failed too often.
pub open spec fn refused(a: Attempts, now_ns: u64) -> bool {
    ||| a.locked_until is Some && now_ns < a.locked_until->0
    ||| recent(a.times, now_ns).len() >= MAX_ATTEMPTS
}

/// The address after it was asked whether it may log in.
pub open spec fn after_check(a: Attempts, now_ns: u64) -> Attempts {
    let times: Seq<u64> = recent(a.times, now_ns);
    Attempts {
        times,
        locked_until: if a.locked_until is Some && now_ns < a.locked_until->0 {
            a.locked_until
        } else if times.len() >= MAX_ATTEMPTS {
            Some((now_ns + LOCKOUT_NS) as u64)
        } else {
            None
        },
    }
}

/// The address after a failure.
pub open spec fn after_failure(a: Attempts, now_ns: u64) -> Attempts {
    let times: Seq<u64> = recent(a.times, now_ns).push(now_ns);
    Attempts {
        times,
        locked_until: if times.len() >= MAX_ATTEMPTS {
            Some((now_ns + LOCKOUT_NS) as u64)
        } else {
            a.locked_until
        },
    }
}

/// The attempts of each address.
pub struct LoginLimiter {
    pub table: KeyTable<AttemptEntry>,
}

fn retain_recent(times: &Vec<u64>, now_ns: u64) -> (r: Vec<u64>)
    ensures
        r@ == recent(times@, now_ns),
        r@.len() <= times@.len(),
{
    let mut out: Vec<u64> = Vec::new();
    for i in 0..times.len()
        invariant
            out@ == recent(times@.take(i as int), now_ns),
            out@.len() <= i,
    {
        assert(times@.take(i + 1).drop_last() == times@.take(i as int));
        assert(times@.take(i + 1).last() == times@[i as int]);
        if now_ns.saturating_sub(times[i]) < WINDOW_NS {
            out.push(times[i]);
        }
    }
    assert(times@.take(times@.len() as int) == times@);
    out
}

impl LoginLimiter {
    pub open spec fn wf(&self) -> bool {
        self.table.wf()
    }

    /// What is remembered of an address; nothing of one that never failed.
    pub open spec fn of(&self, ip: IpKey) -> Attempts {
        if self.table.map().contains_key(ip) {
            self.table.map()[ip]@
        } else {
            Attempts { times: Seq::empty(), locked_until: None }
        }
    }

    pub fn new() -> (r: Self)
        ensures
            r.wf(),
            forall|k: IpKey| r.of(k) == (Attempts { times: Seq::empty(), locked_until: None }),
    {
        LoginLimiter { table: KeyTable::new() }
    }

    fn entry(&mut self, ip: &IpKey) -> (r: AttemptEntry)
        requires
            old(self).wf(),
        ensures
            final(self).wf(),
            r@ == old(self).of(*ip),
            final(self).table.map() == old(self).table.map().remove(*ip),
    {
        match self.table.remove(ip) {
            Some(e) => e,
            None => {
                let e: AttemptEntry = AttemptEntry { attempts: Vec::new(), locked_until: None };
                assert(e@.times =~= Seq::empty());
                e
            },
        }
    }

    /// Whether an address may try to log in at `now_ns`.
    pub fn check(&mut self, ip: &IpKey, now_ns: u64) -> (r: Result<(), TooManyAttempts>)
        requires
            old(self).wf(),
            now_ns + LOCKOUT_NS <= u64::MAX,
        ensures
            final(self).wf(),
            r is Err == refused(old(self).of(*ip), now_ns),
            final(self).of(*ip) == after_check(old(self).of(*ip), now_ns),
            forall|k: IpKey| k != *ip ==> final(self).of(k) == old(self).of(k),
    {
        let mut e: AttemptEntry = self.entry(ip);
        e.attempts = retain_recent(&e.attempts, now_ns);
        let mut refuse: bool = false;
        if let Some(until) = e.locked_until {
            if now_ns < until {
                refuse = true;
            } else {
                e.locked_until = None;
            }
        }
        if !refuse && e.attempts.len() >= MAX_ATTEMPTS {
            e.locked_until = Some(now_ns + LOCKOUT_NS);
            refuse = true;
        }
        self.table.put(ip, e);
        if refuse {
            Err(TooManyAttempts)
        } else {
            Ok(())
        }
    }

    /// A login of the address failed.
    pub fn record_failure(&mut self, ip: &IpKey, now_ns: u64)
        requires
            old(self).wf(),
            now_ns + LOCKOUT_NS <= u64::MAX,
        ensures
            final(self).wf(),
            final(self).of(*ip) == after_failure(old(self).of(*ip), now_ns),
            forall|k: IpKey| k != *ip ==> final(self).of(k) == old(self).of(k),
    {
        let mut e: AttemptEntry = self.entry(ip);
        e.attempts = retain_recent(&e.attempts, now_ns);
        e.attempts.push(now_ns);
        if e.attempts.len() >= MAX_ATTEMPTS {
            e.locked_until = Some(now_ns + LOCKOUT_NS);
        }
        self.table.put(ip, e);
    }

    /// A login of the address succeeded: its failures are forgotten.
    pub fn record_success(&mut self, ip: &IpKey)
        requires
            old(self).wf(),
        ensures
            final(self).wf(),
            final(self).of(*ip) == (Attempts { times: Seq::empty(), locked_until: None }),
            forall|k: IpKey| k != *ip ==> final(self).of(k) == old(self).of(k),
    {
        let _e: Option<AttemptEntry> = self.table.remove(ip);
    }
}

impl Default for LoginLimiter {
    fn default() -> (r: Self)
        ensures
            r.wf(),
            forall|k: IpKey| r.of(k) == (Attempts { times: Seq::empty(), locked_until: None }),
    {
        LoginLimiter::new()
    }
}

/// Failures at one moment.
pub open spec fn failures(a: Attempts, now_ns: u64, n: nat) -> Attempts
    decreases n,
{
    if n == 0 {
        a
    } else {
        after_failure(failures(a, now_ns, (n - 1) as nat), now_ns)
    }
}

proof fn lemma_recent_now(times: Seq<u64>, now_ns: u64)
    requires
        forall|i: int| 0 <= i < times.len() ==> #[trigger] times[i] == now_ns,
    ensures
        recent(times, now_ns) == times,
    decreases times.len(),
{
    if times.len() > 0 {
        assert(times[times.len() - 1] == now_ns);
        lemma_recent_now(times.drop_last(), now_ns);
        assert(times.drop_last().push(times.last()) =~= times);
    }
}

proof fn lemma_failures(now_ns: u64, n: nat)
    requires
        now_ns + LOCKOUT_NS <= u64::MAX,
    ensures
        ({
            let a: Attempts = failures(
                Attempts { times: Seq::empty(), locked_until: None },
                now_ns,
                n,
            );
            &&& a.times.len() == n
            &&& forall|i: int| 0 <= i < a.times.len() ==> #[trigger] a.times[i] == now_ns
            &&& a.locked_until == if n >= MAX_ATTEMPTS {
                Some((now_ns + LOCKOUT_NS) as u64)
            } else {
                None::<u64>
            }
        }),
    decreases n,
{
    if n > 0 {
        lemma_failures(now_ns, (n - 1) as nat);
        let b: Attempts = failures(
            Attempts { times: Seq::empty(), locked_until: None },
            now_ns,
            (n - 1) as nat,
        );
        lemma_recent_now(b.times, now_ns);
    }
}

/// An address that fails five times is refused for the whole time of the lockout, and one
/// that fails fewer times is not.
pub proof fn law_five_failures_lock_out(now_ns: u64, n: nat, later_ns: u64)
    requires
        now_ns + LOCKOUT_NS <= u64::MAX,
        now_ns <= later_ns < now_ns + LOCKOUT_NS,
    ensures
        refused(
            failures(Attempts { times: Seq::empty(), locked_until: None }, now_ns, n),
            later_ns,
        ) == (n >= MAX_ATTEMPTS),
{
    lemma_failures(now_ns, n);
    let a: Attempts = failures(
        Attempts { times: Seq::empty(), locked_until: None },
        now_ns,
        n,
    );
    lemma_recent_len(a.times, later_ns);
}

proof fn lemma_recent_len(times: Seq<u64>, now_ns: u64)
    ensures
        recent(times, now_ns).len() <= times.len(),
    decreases times.len(),
{
    if times.len() > 0 {
        lemma_recent_len(times.drop_last(), now_ns);
    }
}

} // verus!
