//! Who may use the console of a node.

use crate::hub::auth::constant_time_eq;
use crate::ip_format::char_of_hex;
use crate::ip_format::hex_char;
use crate::outside::random_u128;
use crate::text::chars_of;
use crate::text::contains;
use crate::text::has_part;
use crate::text::has_prefix;
use crate::text::lemma_first_at_is;
use crate::text::same_text;
use crate::text::slice_of;
use crate::text::split;
use crate::text::split_on;
use crate::text::text_of;
use crate::text::trim_left;
use crate::text::trim_start;
use crate::text::views;
use vstd::prelude::*;

verus! {

/// The token of the console, if there is one.
pub struct AuthState {
    pub token: Option<String>,
}

/// The last `n` hexadecimal digits of a number, the most significant first.
pub open spec fn hex_digits(v: int, n: nat) -> Seq<char>
    decreases n,
{
    if n == 0 {
        Seq::empty()
    } else {
        hex_digits(v / 16, (n - 1) as nat).push(hex_char(v % 16))
    }
}

fn push_hex_digits(out: &mut String, v: u128, n: usize)
    ensures
        final(out)@ == old(out)@ + hex_digits(v as int, n as nat),
    decreases n,
{
    if n > 0 {
        push_hex_digits(out, v / 16, n - 1);
        out.push(char_of_hex((v % 16) as u8));
        assert(out@ =~= old(out)@ + hex_digits(v as int, n as nat));
    } else {
        assert(out@ =~= old(out)@ + hex_digits(v as int, 0));
    }
}

/// The token that a number makes: 32 hexadecimal digits.
pub fn token_text(v: u128) -> (r: String)
    ensures
        r@ == hex_digits(v as int, 32),
{
    let mut out: String = String::new();
    push_hex_digits(&mut out, v, 32);
    assert(out@ =~= hex_digits(v as int, 32));
    out
}

impl AuthState {
    pub fn new(token: Option<String>) -> (r: Self)
        ensures
            r.token == token,
    {
        AuthState { token }
    }

    /// Whether this is the token; without a token nothing is.
    pub fn verify(&self, provided: &str) -> (r: bool)
        ensures
            r == (self.token is Some && self.token->0@ == provided@),
    {
        match &self.token {
            None => false,
            Some(token) => constant_time_eq(token.as_str(), provided),
        }
    }

    pub fn get_token(&self) -> (r: Option<String>)
        ensures
            r == self.token,
    {
        match &self.token {
            Some(t) => Some(t.clone()),
            None => None,
        }
    }

    pub fn set_token(&mut self, token: String)
        ensures
            final(self).token == Some(token),
    {
        self.token = Some(token);
    }

    /// Sets a new random token and returns it.
    pub fn reset_token(&mut self) -> (r: String)
        ensures
            final(self).token is Some,
            final(self).token->0@ == r@,
            exists|v: u128| r@ == #[trigger] hex_digits(v as int, 32),
    {
        let token: String = token_text(random_u128());
        self.set_token(token.clone());
        token
    }
}

/// The paths that need no token: what tells whether the node lives, the pages and the
/// script that a browser needs to log in, and the login itself.
pub open spec fn is_public(path: Seq<char>) -> bool {
    ||| path == "/healthz"@
    ||| path == "/ready"@
    ||| path == "/login"@
    ||| path == "/blocked"@
    ||| path == "/static/echarts.min.js"@
    ||| path == "/api/auth/login"@
}

/// Whether a path needs no token.
pub fn public_path(path: &str) -> (r: bool)
    ensures
        r == is_public(path@),
{
    same_text(path, "/healthz") || same_text(path, "/ready") || same_text(path, "/login")
        || same_text(path, "/blocked") || same_text(path, "/static/echarts.min.js") || same_text(
        path,
        "/api/auth/login",
    )
}

/// The header carries the token.
pub open spec fn header_carries(header: Seq<char>, token: Seq<char>) -> bool {
    header == "Bearer "@ + token
}

/// One of the cookies, which stand between semicolons, is the one of a login with the
/// token.
pub open spec fn cookie_carries(cookie: Seq<char>, token: Seq<char>) -> bool {
    exists|i: int|
        0 <= i < split_on(cookie, ';').len() && trim_start(#[trigger] split_on(cookie, ';')[i])
            == "eshield-token="@ + token
}

/// A request is let through: there is no token, it comes from the machine itself, its path
/// is public, or its header or its cookie carries the token.
pub open spec fn let_in(
    token: Option<Seq<char>>,
    path: Seq<char>,
    loopback: bool,
    header: Option<Seq<char>>,
    cookie: Option<Seq<char>>,
) -> bool {
    ||| token is None
    ||| loopback
    ||| is_public(path)
    ||| header is Some && header_carries(header->0, token->0)
    ||| cookie is Some && cookie_carries(cookie->0, token->0)
}

pub open spec fn text_view(s: Option<&str>) -> Option<Seq<char>> {
    match s {
        Some(t) => Some(t@),
        None => None,
    }
}

pub open spec fn token_view(s: Option<String>) -> Option<Seq<char>> {
    match s {
        Some(t) => Some(t@),
        None => None,
    }
}

/// Whether `s` is `prefix` and the token behind it.
fn is_token_behind(s: &Vec<char>, prefix: &str, token: &str) -> (r: bool)
    ensures
        r == (s@ == prefix@ + token@),
{
    let text: String = text_of(s);
    let n: usize = chars_of(prefix).len();
    if !has_prefix(text.as_str(), prefix) {
        proof {
            if s@ == prefix@ + token@ {
                assert(s@.take(prefix@.len() as int) =~= prefix@);
            }
        }
        return false;
    }
    let rest: Vec<char> = slice_of(s, n, s.len());
    proof {
        assert(s@ =~= prefix@ + rest@) by {
            assert(s@.take(n as int) == prefix@);
        }
        if s@ == prefix@ + token@ {
            assert(rest@ =~= token@) by {
                assert forall|i: int| 0 <= i < token@.len() implies rest@[i] == token@[i] by {
                    assert((prefix@ + token@)[n + i] == token@[i]);
                }
            }
        }
    }
    constant_time_eq(token, text_of(&rest).as_str())
}

fn has_cookie(cookie: &str, token: &str) -> (r: bool)
    ensures
        r == cookie_carries(cookie@, token@),
{
    let parts: Vec<Vec<char>> = split(&chars_of(cookie), ';');
    let ghost all = split_on(cookie@, ';');
    for i in 0..parts.len()
        invariant
            views(parts@) == all,
            all == split_on(cookie@, ';'),
            forall|j: int|
                0 <= j < i ==> trim_start(#[trigger] all[j]) != "eshield-token="@ + token@,
    {
        assert(all[i as int] == parts@[i as int]@);
        if is_token_behind(&trim_left(&parts[i]), "eshield-token=", token) {
            assert(trim_start(split_on(cookie@, ';')[i as int]) == "eshield-token="@ + token@);
            return true;
        }
    }
    assert(all.len() == parts@.len());
    false
}

impl AuthState {
    /// Whether a request is let through.
    pub fn lets_in(
        &self,
        path: &str,
        loopback: bool,
        header: Option<&str>,
        cookie: Option<&str>,
    ) -> (r: bool)
        ensures
            r == let_in(
                token_view(self.token),
                path@,
                loopback,
                text_view(header),
                text_view(cookie),
            ),
    {
        let token: &String = match &self.token {
            Some(t) => t,
            None => {
                return true;
            },
        };
        if loopback || public_path(path) {
            return true;
        }
        if let Some(h) = header {
            if is_token_behind(&chars_of(h), "Bearer ", token.as_str()) {
                return true;
            }
        }
        if let Some(c) = cookie {
            if has_cookie(c, token.as_str()) {
                return true;
            }
        }
        false
    }
}

/// A request that asks for the console's page.
pub open spec fn asks_for_page(path: Seq<char>, accept: Option<Seq<char>>) -> bool {
    path == "/"@ && accept is Some && has_part(accept->0, "text/html"@)
}

/// Whether a request that is not let through is sent to the login page: it asks for the
/// console's page. Every other is told that it is not authorized.
pub fn sends_to_login(path: &str, accept: Option<&str>) -> (r: bool)
    ensures
        r == asks_for_page(path@, text_view(accept)),
{
    same_text(path, "/") && match accept {
        Some(a) => contains(a, "text/html"),
        None => false,
    }
}

/// With a token set, a request from elsewhere for a path that is not public is let through
/// with the token in its header, and not with another.
pub proof fn law_only_the_token_opens(token: Seq<char>, path: Seq<char>, t: Seq<char>)
    requires
        !is_public(path),
    ensures
        let_in(Some(token), path, false, Some("Bearer "@ + t), None) == (t == token),
        !let_in(Some(token), path, false, None, None),
{
    let h: Seq<char> = "Bearer "@ + t;
    assert(h.skip("Bearer "@.len() as int) =~= t);
    assert(("Bearer "@ + token).skip("Bearer "@.len() as int) =~= token);
}

/// The cookie of a login opens every path to the browser that hands it back, and a cookie
/// with another token does not open one that is not public.
pub proof fn law_login_cookie_opens(token: Seq<char>, path: Seq<char>, t: Seq<char>)
    requires
        !is_public(path),
        !t.contains(';'),
    ensures
        let_in(Some(token), path, false, None, Some("eshield-token="@ + t)) == (t == token),
{
    let name: Seq<char> = "eshield-token="@;
    let c: Seq<char> = name + t;
    reveal_strlit("eshield-token=");
    assert forall|j: int| 0 <= j < c.len() implies c[j] != ';' by {
        if j >= name.len() {
            assert(t.contains(t[j - name.len()]));
        }
    }
    lemma_first_at_is(c, ';', c.len() as int);
    assert(split_on(c, ';') =~= seq![c]);
    assert(c[0] == 'e');
    assert(trim_start(c) == c);
    assert(c.skip(name.len() as int) =~= t);
    assert((name + token).skip(name.len() as int) =~= token);
    if t == token {
        assert(trim_start(split_on(c, ';')[0]) == name + token);
    }
}

} // verus!
