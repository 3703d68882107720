//! What a node decides as it starts.

use crate::node::auth::hex_digits;
use crate::node::auth::token_text;
use crate::node::config::Config;
use crate::outside::random_u128;
use crate::text::dec;
use crate::text::push_dec;
use vstd::prelude::*;
use vstd::string::StringExecFns;

verus! {

/// Where the console listens.
pub open spec fn bind_text(c: Config) -> Seq<char> {
    match c.web_bind {
        Some(b) => b@,
        None => "0.0.0.0:"@ + dec(c.web_port as nat),
    }
}

/// Where the console listens.
pub fn web_bind(config: &Config) -> (r: String)
    ensures
        r@ == bind_text(*config),
{
    match &config.web_bind {
        Some(b) => b.clone(),
        None => {
            let mut out: String = String::new();
            out.append("0.0.0.0:");
            push_dec(&mut out, config.web_port as u64);
            assert(out@ =~= bind_text(*config));
            out
        },
    }
}

/// The token of the console: that of the configuration, else a random one.
pub fn console_token(config: &Config) -> (r: String)
    ensures
        match config.api_token {
            Some(t) => r@ == t@,
            None => exists|v: u128| r@ == #[trigger] hex_digits(v as int, 32),
        },
{
    match &config.api_token {
        Some(t) => t.clone(),
        None => token_text(random_u128()),
    }
}

/// Counts what was dropped since the last look.
pub struct DropMeter {
    pub last_total: u64,
}

impl DropMeter {
    pub fn new() -> (r: Self)
        ensures
            r.last_total == 0,
    {
        DropMeter { last_total: 0 }
    }

    /// What was dropped since the last look.
    pub fn look(&mut self, total: u64) -> (r: u64)
        ensures
            r == if total >= old(self).last_total {
                (total - old(self).last_total) as u64
            } else {
                0
            },
            final(self).last_total == total,
    {
        let delta: u64 = total.saturating_sub(self.last_total);
        self.last_total = total;
        delta
    }
}

} // verus!
