//! Port rules, first match first.

use crate::bytes::swap16;
use crate::bytes::swapped16;
use crate::common::PortAclEntry;
use crate::pure::acl_verdict;
use crate::pure::match_port_acl_entry;
use crate::pure::AclMatch;
use vstd::prelude::*;

verus! {

/// What one entry says of a packet.
pub open spec fn entry_verdict(e: PortAclEntry, protocol: u8, dport: u16) -> Option<AclMatch> {
    acl_verdict(
        protocol,
        dport,
        e.protocol,
        swapped16(e.dport_low) as u16,
        swapped16(e.dport_high) as u16,
        e.action,
    )
}

/// The first entry among the first `count` that says anything of the packet drops it.
pub open spec fn acl_drops(entries: Seq<PortAclEntry>, protocol: u8, dport: u16, count: int) -> bool {
    exists|i: int|
        #![trigger entries[i]]
        0 <= i < entries.len() && i < count && entry_verdict(entries[i], protocol, dport) == Some(
            AclMatch::Drop,
        ) && forall|j: int| 0 <= j < i ==> entry_verdict(#[trigger] entries[j], protocol, dport) is None
}

/// Whether the port rules drop a packet. A matching `allow` ends the search; the packet
/// then goes on to the other checks.
pub fn check_port_acl(entries: &Vec<PortAclEntry>, protocol: u8, dport: u16, count: u8) -> (r: bool)
    ensures
        r == acl_drops(entries@, protocol, dport, count as int),
{
    let mut i: usize = 0;
    while i < count as usize && i < entries.len()
        invariant
            forall|j: int|
                0 <= j < i ==> j < entries@.len() && entry_verdict(
                    #[trigger] entries@[j],
                    protocol,
                    dport,
                ) is None,
        decreases entries@.len() - i,
    {
        let e: PortAclEntry = entries[i];
        match match_port_acl_entry(
            protocol,
            dport,
            e.protocol,
            swap16(e.dport_low),
            swap16(e.dport_high),
            e.action,
        ) {
            Some(AclMatch::Drop) => {
                return true;
            },
            Some(AclMatch::Allow) => {
                return false;
            },
            None => {},
        }
        i = i + 1;
    }
    false
}

} // verus!
