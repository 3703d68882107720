//! Rules of the console's interface.

use crate::common::IpKey;
use crate::node::auth::AuthState;
use crate::node::config::HubConfig;
use crate::node::hub_client::hub_at;
use crate::node::hub_client::hub_url;
use crate::node::login_limiter::after_check;
use crate::node::login_limiter::after_failure;
use crate::node::login_limiter::refused;
use crate::node::login_limiter::Attempts;
use crate::node::login_limiter::LoginLimiter;
use crate::node::login_limiter::LOCKOUT_NS;
use crate::node::validate::MAX_L7_PATTERNS;
use crate::node::validate::MAX_PORT_RULES;
use crate::text::chars_of;
use crate::text::parse_uint;
use crate::text::same_text;
use crate::text::uint_value;
use vstd::prelude::*;
use vstd::string::StringExecFns;

verus! {

/// The largest body of a request, in octets.
pub const MAX_BODY: u64 = 1_048_576;

/// The most protected services that are accepted at once.
pub const MAX_PROJECTS: usize = 256;

/// The most samples that are shown at once.
pub const MAX_SAMPLES: usize = 1000;

/// A request says that its body is too large.
pub open spec fn claims_too_much(length: Option<Seq<char>>) -> bool {
    match length {
        Some(s) => match uint_value(s, u64::MAX as nat) {
            Some(n) => n > MAX_BODY,
            None => false,
        },
        None => false,
    }
}

/// A request says that its body is too large. What is no number says nothing.
pub fn body_too_large(length: Option<&str>) -> (r: bool)
    ensures
        r == claims_too_much(
            match length {
                Some(s) => Some(s@),
                None => None,
            },
        ),
{
    match length {
        Some(s) => match parse_uint(&chars_of(s), u64::MAX) {
            Some(n) => n > MAX_BODY,
            None => false,
        },
        None => false,
    }
}

/// A list that the console can replace.
#[derive(Clone, Copy, Debug, PartialEq, Eq, Structural)]
pub enum RuleList {
    PortRules,
    Patterns,
    Projects,
}

/// How long a list may be.
pub open spec fn longest(list: RuleList) -> usize {
    match list {
        RuleList::PortRules => MAX_PORT_RULES,
        RuleList::Patterns => MAX_L7_PATTERNS,
        RuleList::Projects => MAX_PROJECTS,
    }
}

/// A list of `n` items is longer than the console accepts.
pub fn list_too_long(list: RuleList, n: usize) -> (r: bool)
    ensures
        r == (n > longest(list)),
{
    match list {
        RuleList::PortRules => n > MAX_PORT_RULES,
        RuleList::Patterns => n > MAX_L7_PATTERNS,
        RuleList::Projects => n > MAX_PROJECTS,
    }
}

/// How many samples are shown.
pub fn sample_limit(asked: usize) -> (r: usize)
    ensures
        r == if asked < MAX_SAMPLES {
            asked
        } else {
            MAX_SAMPLES
        },
{
    if asked < MAX_SAMPLES {
        asked
    } else {
        MAX_SAMPLES
    }
}

/// The address at the hub to which a request of the console is passed on.
pub open spec fn proxied(c: HubConfig, path: Seq<char>, query: Option<Seq<char>>) -> Seq<char> {
    hub_at(c.urls@, 0) + path + match query {
        Some(q) => "?"@ + q,
        None => Seq::empty(),
    }
}

/// The address at the hub to which a request of the console is passed on; none where no hub
/// is configured.
pub fn hub_proxy_url(c: &HubConfig, path: &str, query: Option<&str>) -> (r: Option<String>)
    ensures
        match r {
            Some(url) => c.enabled && c.token@.len() > 0 && url@ == proxied(
                *c,
                path@,
                match query {
                    Some(q) => Some(q@),
                    None => None,
                },
            ),
            None => !c.enabled || c.token@.len() == 0,
        },
{
    proof {
        reveal_strlit("");
        if c.token@.len() == 0 {
            assert(c.token@ =~= ""@);
        }
    }
    if !c.enabled || same_text(c.token.as_str(), "") {
        return None;
    }
    let mut url: String = hub_url(&c.urls, 0);
    url.append(path);
    if let Some(q) = query {
        url.append("?");
        url.append(q);
    }
    assert(url@ =~= proxied(
        *c,
        path@,
        match query {
            Some(q) => Some(q@),
            None => None,
        },
    ));
    Some(url)
}

/// What a login comes to.
#[derive(Clone, Debug)]
pub enum LoginOutcome {
    /// Too many logins of the address failed.
    TooMany,
    /// The token is right; the browser is handed this cookie.
    Accepted { cookie: String },
    /// The token is wrong.
    Refused,
}

/// The cookie that a browser is handed.
pub open spec fn cookie_text(token: Seq<char>) -> Seq<char> {
    "eshield-token="@ + token + "; Path=/; HttpOnly; SameSite=Lax"@
}

fn cookie(token: &str) -> (r: String)
    ensures
        r@ == cookie_text(token@),
{
    let mut out: String = String::new();
    out.append("eshield-token=");
    out.append(token);
    out.append("; Path=/; HttpOnly; SameSite=Lax");
    assert(out@ =~= cookie_text(token@));
    out
}

/// What is remembered of an address after a login.
pub open spec fn after_login(a: Attempts, right: bool, now_ns: u64) -> Attempts {
    if refused(a, now_ns) {
        after_check(a, now_ns)
    } else if right {
        Attempts { times: Seq::empty(), locked_until: None }
    } else {
        after_failure(after_check(a, now_ns), now_ns)
    }
}

/// Someone at an address logs in with a token.
pub fn log_in(limiter: &mut LoginLimiter, auth: &AuthState, ip: &IpKey, token: &str, now_ns: u64) -> (r:
    LoginOutcome)
    requires
        old(limiter).wf(),
        now_ns + LOCKOUT_NS <= u64::MAX,
    ensures
        final(limiter).wf(),
        ({
            let right: bool = auth.token is Some && auth.token->0@ == token@;
            let barred: bool = refused(old(limiter).of(*ip), now_ns);
            &&& (match r {
                LoginOutcome::TooMany => barred,
                LoginOutcome::Accepted { cookie } => !barred && right && cookie@ == cookie_text(
                    token@,
                ),
                LoginOutcome::Refused => !barred && !right,
            })
            &&& final(limiter).of(*ip) == after_login(old(limiter).of(*ip), right, now_ns)
        }),
        forall|k: IpKey| k != *ip ==> final(limiter).of(k) == old(limiter).of(k),
{
    if limiter.check(ip, now_ns).is_err() {
        return LoginOutcome::TooMany;
    }
    if auth.verify(token) {
        limiter.record_success(ip);
        LoginOutcome::Accepted { cookie: cookie(token) }
    } else {
        limiter.record_failure(ip, now_ns);
        LoginOutcome::Refused
    }
}

} // verus!
