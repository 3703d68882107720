//! Port rules as they are configured.

use crate::bytes::swap16;
use crate::bytes::swapped16;
use crate::common::PortAclEntry;
use crate::node::config::PortAclItem;
use crate::text::chars_of;
use crate::text::find_char;
use crate::text::first_at;
use crate::text::lower_is;
use crate::text::lowered;
use crate::text::parse_uint;
use crate::text::same_text;
use crate::text::slice_of;
use crate::text::uint_value;
use vstd::prelude::*;

verus! {

/// Why a port rule is not one.
#[derive(Clone, Copy, Debug, PartialEq, Eq, Structural)]
pub enum PortRuleError {
    Protocol,
    Action,
    DportLow,
    DportHigh,
    Range,
    Dport,
}

/// The number of a protocol by its name.
pub open spec fn protocol_number(s: Seq<char>) -> Option<u8> {
    if lowered(s) == "any"@ {
        Some(0u8)
    } else if lowered(s) == "tcp"@ {
        Some(6u8)
    } else if lowered(s) == "udp"@ {
        Some(17u8)
    } else if lowered(s) == "icmp"@ {
        Some(1u8)
    } else if lowered(s) == "icmpv6"@ {
        Some(58u8)
    } else {
        None
    }
}

pub fn parse_protocol(s: &str) -> (r: Option<u8>)
    ensures
        r == protocol_number(s@),
{
    if lower_is(s, "any") {
        Some(0)
    } else if lower_is(s, "tcp") {
        Some(6)
    } else if lower_is(s, "udp") {
        Some(17)
    } else if lower_is(s, "icmp") {
        Some(1)
    } else if lower_is(s, "icmpv6") {
        Some(58)
    } else {
        None
    }
}

/// The number of a rule's action by its name.
pub open spec fn action_number(s: Seq<char>) -> Option<u8> {
    if lowered(s) == "allow"@ {
        Some(1u8)
    } else if lowered(s) == "drop"@ {
        Some(2u8)
    } else {
        None
    }
}

pub fn parse_action(s: &str) -> (r: Option<u8>)
    ensures
        r == action_number(s@),
{
    if lower_is(s, "allow") {
        Some(1)
    } else if lower_is(s, "drop") {
        Some(2)
    } else {
        None
    }
}

/// The ports of a rule: `*` and `any` are all of them (zero and zero), two numbers around
/// a dash a range, one number that port.
pub open spec fn ports_value(s: Seq<char>) -> Result<(u16, u16), PortRuleError> {
    let i: int = first_at(s, '-');
    if s == "*"@ || s == "any"@ {
        Ok((0u16, 0u16))
    } else if i < s.len() {
        match uint_value(s.take(i), 0xffff) {
            None => Err(PortRuleError::DportLow),
            Some(a) => match uint_value(s.skip(i + 1), 0xffff) {
                None => Err(PortRuleError::DportHigh),
                Some(b) => if a > b {
                    Err(PortRuleError::Range)
                } else {
                    Ok((a as u16, b as u16))
                },
            },
        }
    } else {
        match uint_value(s, 0xffff) {
            None => Err(PortRuleError::Dport),
            Some(p) => Ok((p as u16, p as u16)),
        }
    }
}

/// Reads a port number.
pub fn parse_port(v: &Vec<char>) -> (r: Option<u16>)
    ensures
        match r {
            Some(p) => uint_value(v@, 0xffff) == Some(p as nat),
            None => uint_value(v@, 0xffff) is None,
        },
{
    match parse_uint(v, 0xffff) {
        Some(p) => Some(p as u16),
        None => None,
    }
}

pub fn parse_ports(s: &str) -> (r: Result<(u16, u16), PortRuleError>)
    ensures
        r == ports_value(s@),
{
    if same_text(s, "*") || same_text(s, "any") {
        return Ok((0, 0));
    }
    let v: Vec<char> = chars_of(s);
    let i: usize = find_char(&v, '-');
    if i < v.len() {
        let a: Vec<char> = slice_of(&v, 0, i);
        let b: Vec<char> = slice_of(&v, i + 1, v.len());
        assert(a@ == s@.take(i as int));
        assert(b@ == s@.skip(i + 1));
        let low: u16 = match parse_port(&a) {
            Some(p) => p,
            None => {
                return Err(PortRuleError::DportLow);
            },
        };
        let high: u16 = match parse_port(&b) {
            Some(p) => p,
            None => {
                return Err(PortRuleError::DportHigh);
            },
        };
        if low > high {
            return Err(PortRuleError::Range);
        }
        Ok((low, high))
    } else {
        match parse_port(&v) {
            Some(p) => Ok((p, p)),
            None => Err(PortRuleError::Dport),
        }
    }
}

/// The entry of a rule in the port table, or what is wrong with the rule.
pub open spec fn entry_value(protocol: Seq<char>, dport: Seq<char>, action: Seq<char>) -> Result<
    PortAclEntry,
    PortRuleError,
> {
    match protocol_number(protocol) {
        None => Err(PortRuleError::Protocol),
        Some(p) => match action_number(action) {
            None => Err(PortRuleError::Action),
            Some(a) => match ports_value(dport) {
                Err(e) => Err(e),
                Ok(ports) => Ok(
                    PortAclEntry {
                        protocol: p,
                        dport_low: swapped16(ports.0) as u16,
                        dport_high: swapped16(ports.1) as u16,
                        action: a,
                    },
                ),
            },
        },
    }
}

impl PortAclItem {
    /// The entry of the rule in the port table.
    pub fn to_entry(&self) -> (r: Result<PortAclEntry, PortRuleError>)
        ensures
            r == entry_value(self.protocol@, self.dport@, self.action@),
    {
        let protocol: u8 = match parse_protocol(self.protocol.as_str()) {
            Some(p) => p,
            None => {
                return Err(PortRuleError::Protocol);
            },
        };
        let action: u8 = match parse_action(self.action.as_str()) {
            Some(a) => a,
            None => {
                return Err(PortRuleError::Action);
            },
        };
        match parse_ports(self.dport.as_str()) {
            Err(e) => Err(e),
            Ok(ports) => Ok(
                PortAclEntry {
                    protocol,
                    dport_low: swap16(ports.0),
                    dport_high: swap16(ports.1),
                    action,
                },
            ),
        }
    }
}

/// A rule that is accepted says of each packet what its text says: it covers the
/// protocol it names, or all, on the ports from low to high, or on all.
pub proof fn law_entry_covers_named_ports(
    protocol: Seq<char>,
    dport: Seq<char>,
    action: Seq<char>,
    proto: u8,
    port: u16,
)
    requires
        entry_value(protocol, dport, action) is Ok,
    ensures
        ({
            let e: PortAclEntry = entry_value(protocol, dport, action)->Ok_0;
            let (low, high) = ports_value(dport)->Ok_0;
            let named: u8 = protocol_number(protocol)->0;
            crate::dataplane::port_acl::entry_verdict(e, proto, port) is Some == ((named == 0 || named
                == proto) && (low == 0 || low <= port <= high))
        }),
{
    let (low, high) = ports_value(dport)->Ok_0;
    crate::bytes::law_swap_is_involution(low, 0);
    crate::bytes::law_swap_is_involution(high, 0);
}

} // verus!
