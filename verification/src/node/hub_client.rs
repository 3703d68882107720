//! Talking to the hub: which hub, from where on, and what to take over.

use crate::hub::models::RuleBundle;
use crate::node::config::HubConfig;
use crate::text::chars_of;
use crate::text::dec;
use crate::text::parse_uint;
use crate::text::push_dec;
use crate::text::slice_of;
use crate::text::text_of;
use crate::text::uint_value;
use vstd::prelude::*;
use vstd::string::StringExecFns;

verus! {

/// The text without the slashes at its end.
pub open spec fn without_slashes(s: Seq<char>) -> Seq<char>
    decreases s.len(),
{
    if s.len() > 0 && s.last() == '/' {
        without_slashes(s.drop_last())
    } else {
        s
    }
}

/// Takes the slashes off the end of a text.
pub fn trim_slashes(s: &str) -> (r: String)
    ensures
        r@ == without_slashes(s@),
{
    let v: Vec<char> = chars_of(s);
    let mut n: usize = v.len();
    assert(v@.take(n as int) =~= v@);
    while n > 0 && v[n - 1] == '/'
        invariant
            n <= v@.len(),
            v@ == s@,
            without_slashes(s@) == without_slashes(v@.take(n as int)),
        decreases n,
    {
        let ghost part = v@.take(n as int);
        assert(part.last() == v@[n - 1]);
        assert(part.drop_last() =~= v@.take(n - 1));
        n = n - 1;
    }
    proof {
        let part: Seq<char> = v@.take(n as int);
        if n > 0 {
            assert(part.last() == v@[n - 1]);
        }
        assert(v@.subrange(0, n as int) =~= part);
    }
    text_of(&slice_of(&v, 0, n))
}

/// The hub that is used where none is configured.
pub open spec fn default_hub() -> Seq<char> {
    "http://localhost:9930"@
}

/// The hub at a place of the list; the first where the place is past the end.
pub open spec fn hub_at(urls: Seq<String>, i: int) -> Seq<char> {
    without_slashes(
        if 0 <= i < urls.len() {
            urls[i]@
        } else if urls.len() > 0 {
            urls[0]@
        } else {
            default_hub()
        },
    )
}

/// The hub at a place of the list.
pub fn hub_url(urls: &Vec<String>, i: usize) -> (r: String)
    ensures
        r@ == hub_at(urls@, i as int),
{
    if i < urls.len() {
        trim_slashes(urls[i].as_str())
    } else if urls.len() > 0 {
        trim_slashes(urls[0].as_str())
    } else {
        trim_slashes("http://localhost:9930")
    }
}

/// How far a node has come with the hub.
pub struct HubClient {
    pub config: HubConfig,
    pub last_push_ns: u64,
    pub last_pull_ns: u64,
    pub last_deleted_ns: u64,
    pub last_rules_ns: u64,
    /// The place of the hub that is talked to.
    pub current_url_idx: usize,
    pub connected: bool,
}

/// How many hubs are still to be tried for a request.
pub struct Tries {
    pub left: usize,
}

impl HubClient {
    /// The place is one of the list.
    pub open spec fn wf(&self) -> bool {
        self.config.urls@.len() > 0 ==> self.current_url_idx < self.config.urls@.len()
    }

    pub fn new(config: HubConfig) -> (r: Self)
        ensures
            r.wf(),
            r.config == config,
            r.last_push_ns == 0,
            r.last_pull_ns == 0,
            r.last_deleted_ns == 0,
            r.last_rules_ns == 0,
            r.current_url_idx == 0,
            !r.connected,
    {
        HubClient {
            config,
            last_push_ns: 0,
            last_pull_ns: 0,
            last_deleted_ns: 0,
            last_rules_ns: 0,
            current_url_idx: 0,
            connected: false,
        }
    }

    /// What a request shows to the hub.
    pub fn auth_header(&self) -> (r: String)
        ensures
            r@ == "Bearer "@ + self.config.token@,
    {
        let mut out: String = String::new();
        out.append("Bearer ");
        out.append(self.config.token.as_str());
        assert(out@ =~= "Bearer "@ + self.config.token@);
        out
    }

    /// The hub that is talked to.
    pub fn active_hub_url(&self) -> (r: String)
        ensures
            r@ == hub_at(self.config.urls@, self.current_url_idx as int),
    {
        hub_url(&self.config.urls, self.current_url_idx)
    }

    /// Goes on to the next hub; after the last comes the first.
    pub fn rotate_hub_url(&mut self)
        requires
            old(self).wf(),
            old(self).config.urls@.len() > 0,
        ensures
            final(self).wf(),
            final(self).current_url_idx == (old(self).current_url_idx + 1)
                % (old(self).config.urls@.len() as int),
            *final(self) == (HubClient {
                current_url_idx: final(self).current_url_idx,
                ..*old(self)
            }),
    {
        let n: usize = self.config.urls.len();
        let next: usize = self.current_url_idx + 1;
        self.current_url_idx = if next == n {
            0
        } else {
            next
        };
        proof {
            let i: int = old(self).current_url_idx as int;
            if i + 1 == n {
                assert((i + 1) % (n as int) == 0) by (nonlinear_arith)
                    requires
                        i + 1 == n,
                        n > 0,
                ;
            } else {
                assert((i + 1) % (n as int) == i + 1) by (nonlinear_arith)
                    requires
                        0 <= i + 1 < n,
                ;
            }
        }
    }

    /// A request starts: every hub is tried once.
    pub fn start(&self) -> (r: Tries)
        ensures
            r.left == self.config.urls@.len(),
    {
        Tries { left: self.config.urls.len() }
    }

    /// Where to send a request next; nowhere where every hub was tried, and then the node is
    /// on its own.
    pub fn next_target(&mut self, tries: &mut Tries, path: &str) -> (r: Option<String>)
        ensures
            match r {
                Some(url) => old(tries).left > 0 && final(tries).left == old(tries).left - 1
                    && url@ == hub_at(old(self).config.urls@, old(self).current_url_idx as int)
                    + path@ && *final(self) == *old(self),
                None => old(tries).left == 0 && final(tries).left == 0 && *final(self) == (
                HubClient { connected: false, ..*old(self) }),
            },
    {
        if tries.left == 0 {
            self.connected = false;
            return None;
        }
        tries.left = tries.left - 1;
        let mut url: String = self.active_hub_url();
        url.append(path);
        Some(url)
    }

    /// The hub answered.
    pub fn mark_connected(&mut self)
        ensures
            *final(self) == (HubClient { connected: true, ..*old(self) }),
    {
        self.connected = true;
    }

    /// Where the policies since the last pull are.
    pub fn pull_path(&self) -> (r: String)
        ensures
            r@ == since_path("/api/v1/policies?since="@, self.last_pull_ns),
    {
        path_since("/api/v1/policies?since=", self.last_pull_ns)
    }

    /// Where the policies are that were taken back since the last look.
    pub fn deleted_path(&self) -> (r: String)
        ensures
            r@ == since_path("/api/v1/policies/deleted?since="@, self.last_deleted_ns),
    {
        path_since("/api/v1/policies/deleted?since=", self.last_deleted_ns)
    }

    /// The policies up to the cursor were taken over.
    pub fn pulled(&mut self, cursor: &str)
        ensures
            *final(self) == (HubClient {
                last_pull_ns: moved_to(cursor@, old(self).last_pull_ns),
                ..*old(self)
            }),
    {
        if let Some(c) = parse_uint(&chars_of(cursor), u64::MAX) {
            self.last_pull_ns = c;
        }
    }

    /// The policies that were taken back up to the cursor were seen to.
    pub fn pulled_deleted(&mut self, cursor: &str)
        ensures
            *final(self) == (HubClient {
                last_deleted_ns: moved_to(cursor@, old(self).last_deleted_ns),
                ..*old(self)
            }),
    {
        if let Some(c) = parse_uint(&chars_of(cursor), u64::MAX) {
            self.last_deleted_ns = c;
        }
    }

    /// The blocks up to `now_ns` were reported.
    pub fn pushed(&mut self, now_ns: u64)
        ensures
            *final(self) == (HubClient { last_push_ns: now_ns, ..*old(self) }),
    {
        self.last_push_ns = now_ns;
    }

    /// The rules that the hub hands out are newer than those taken over.
    pub fn rules_are_new(&self, bundle: &RuleBundle) -> (r: bool)
        ensures
            r == (bundle.updated_at_ns > self.last_rules_ns),
    {
        bundle.updated_at_ns > self.last_rules_ns
    }

    /// The rules were taken over.
    pub fn rules_applied(&mut self, updated_at_ns: u64)
        ensures
            *final(self) == (HubClient { last_rules_ns: updated_at_ns, ..*old(self) }),
    {
        self.last_rules_ns = updated_at_ns;
    }
}

/// A path that asks for what is new.
pub open spec fn since_path(start: Seq<char>, since: u64) -> Seq<char> {
    start + dec(since as nat) + "&limit=100"@
}

fn path_since(start: &str, since: u64) -> (r: String)
    ensures
        r@ == since_path(start@, since),
{
    let mut out: String = String::new();
    out.append(start);
    push_dec(&mut out, since);
    out.append("&limit=100");
    assert(out@ =~= since_path(start@, since));
    out
}

/// Where a cursor in text leads; where it is no number it leads nowhere.
pub open spec fn moved_to(cursor: Seq<char>, now: u64) -> u64 {
    match uint_value(cursor, u64::MAX as nat) {
        Some(c) => c as u64,
        None => now,
    }
}

/// The place after `k` turns to the next hub.
pub open spec fn turned(start: int, k: int, n: int) -> int {
    (start + k) % n
}

/// A request that finds no hub tries each exactly once: every place comes up, and no two
/// turns lead to the same place.
pub proof fn law_every_hub_is_tried(start: int, n: int, place: int)
    requires
        0 <= start < n,
        0 <= place < n,
    ensures
        exists|k: int| 0 <= k < n && #[trigger] turned(start, k, n) == place,
        forall|j: int, k: int|
            0 <= j < k < n ==> #[trigger] turned(start, j, n) != #[trigger] turned(start, k, n),
{
    let k: int = if place >= start {
        place - start
    } else {
        place - start + n
    };
    lemma_turn(start, k, n);
    assert(turned(start, k, n) == place);
    assert forall|a: int, b: int| 0 <= a < b < n implies #[trigger] turned(start, a, n)
        != #[trigger] turned(start, b, n) by {
        lemma_turn(start, a, n);
        lemma_turn(start, b, n);
    }
}

proof fn lemma_turn(start: int, k: int, n: int)
    requires
        0 <= start < n,
        0 <= k < n,
    ensures
        turned(start, k, n) == if start + k < n {
            start + k
        } else {
            start + k - n
        },
{
    let x: int = start + k;
    if x < n {
        assert(x % n == x) by (nonlinear_arith)
            requires
                0 <= x < n,
        ;
    } else {
        vstd::arithmetic::div_mod::lemma_fundamental_div_mod_converse(x, n, 1, x - n);
    }
}

/// Turning once from the place after `k` turns is the place after `k + 1` turns.
pub proof fn law_turns_add_up(start: int, k: int, n: int)
    requires
        0 <= start < n,
        0 <= k,
    ensures
        (turned(start, k, n) + 1) % n == turned(start, k + 1, n),
{
    vstd::arithmetic::div_mod::lemma_add_mod_noop(start + k, 1, n);
    vstd::arithmetic::div_mod::lemma_add_mod_noop((start + k) % n, 1, n);
    vstd::arithmetic::div_mod::lemma_mod_twice(start + k, n);
}

} // verus!
