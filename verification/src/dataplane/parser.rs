//! Packet headers.

use crate::bytes::swap16;
use crate::bytes::swap32;
use crate::bytes::swapped16;
use crate::bytes::swapped32;
use crate::bytes::word_at;
use crate::bytes::read_be16;
use crate::common::IpKey;
use vstd::prelude::*;

verus! {

pub const ETH_HDR_LEN: usize = 14;
pub const IP_HDR_LEN: usize = 20;
pub const IPV6_HDR_LEN: usize = 40;
pub const TCP_HDR_LEN: usize = 20;
pub const UDP_HDR_LEN: usize = 8;

/// Ethernet types, in wire order.
pub const ETH_P_IP: u16 = 0x0008;
pub const ETH_P_IPV6: u16 = 0xdd86;

pub const IPPROTO_TCP: u8 = 6;
pub const IPPROTO_UDP: u8 = 17;
pub const IPPROTO_ICMP: u8 = 1;
pub const IPPROTO_ICMPV6: u8 = 58;

/// Headers as they lie in a packet; the integers are in wire order.
#[derive(Clone, Copy, Debug)]
pub struct EthHdr {
    pub dst: [u8; 6],
    pub src: [u8; 6],
    pub proto: u16,
}

#[derive(Clone, Copy, Debug)]
pub struct IpHdr {
    pub ver_ihl: u8,
    pub tos: u8,
    pub tot_len: u16,
    pub id: u16,
    pub frag_off: u16,
    pub ttl: u8,
    pub proto: u8,
    pub check: u16,
    pub saddr: u32,
    pub daddr: u32,
}

#[derive(Clone, Copy, Debug)]
pub struct Ipv6Hdr {
    pub ver_tc_fl: u32,
    pub payload_len: u16,
    pub next_header: u8,
    pub hop_limit: u8,
    pub saddr: [u8; 16],
    pub daddr: [u8; 16],
}

impl Ipv6Hdr {
    pub fn version(&self) -> (r: u8)
        ensures
            r == swapped32(self.ver_tc_fl) / 0x1000_0000,
    {
        (swap32(self.ver_tc_fl) / 0x1000_0000) as u8
    }
}

#[derive(Clone, Copy, Debug)]
pub struct TcpHdr {
    pub source: u16,
    pub dest: u16,
    pub seq: u32,
    pub ack_seq: u32,
    /// Four bits of header length in words, then the flags.
    pub doff_flags: u16,
    pub window: u16,
    pub check: u16,
    pub urg_ptr: u16,
}

impl TcpHdr {
    /// Header length in 32-bit words.
    pub fn doff(&self) -> (r: u8)
        ensures
            r == swapped16(self.doff_flags) / 0x1000,
    {
        (swap16(self.doff_flags) / 0x1000) as u8
    }

    /// The six low flags.
    pub fn flags(&self) -> (r: u8)
        ensures
            r == swapped16(self.doff_flags) % 0x40,
    {
        (swap16(self.doff_flags) % 0x40) as u8
    }
}

#[derive(Clone, Copy, Debug)]
pub struct UdpHdr {
    pub source: u16,
    pub dest: u16,
    pub len: u16,
    pub check: u16,
}

/// A transport protocol.
#[derive(Clone, Copy, Debug, PartialEq, Eq, Structural)]
pub enum Protocol {
    Icmp,
    Tcp,
    Udp,
    IcmpV6,
    Other(u8),
}

impl From<u8> for Protocol {
    fn from(proto: u8) -> (r: Self) {
        match proto {
            1 => Protocol::Icmp,
            6 => Protocol::Tcp,
            17 => Protocol::Udp,
            58 => Protocol::IcmpV6,
            other => Protocol::Other(other),
        }
    }
}

impl vstd::std_specs::convert::FromSpecImpl<u8> for Protocol {
    open spec fn obeys_from_spec() -> bool {
        true
    }

    open spec fn from_spec(proto: u8) -> Self {
        if proto == 1 {
            Protocol::Icmp
        } else if proto == 6 {
            Protocol::Tcp
        } else if proto == 17 {
            Protocol::Udp
        } else if proto == 58 {
            Protocol::IcmpV6
        } else {
            Protocol::Other(proto)
        }
    }
}

/// The packet asks for a connection: SYN without ACK or RST.
pub open spec fn is_syn(flags: u8) -> bool {
    flags % 4 / 2 == 1 && flags % 32 / 16 == 0 && flags % 8 / 4 == 0
}

/// The packet acknowledges or resets: ACK without SYN, or RST.
pub open spec fn is_ack_or_rst(flags: u8) -> bool {
    flags % 8 / 4 == 1 || (flags % 32 / 16 == 1 && flags % 4 / 2 == 0)
}

pub fn is_syn_flags(flags: u8) -> (r: bool)
    ensures
        r == is_syn(flags),
{
    flags % 4 / 2 == 1 && flags % 32 / 16 == 0 && flags % 8 / 4 == 0
}

pub fn is_ack_or_rst_flags(flags: u8) -> (r: bool)
    ensures
        r == is_ack_or_rst(flags),
{
    flags % 8 / 4 == 1 || (flags % 32 / 16 == 1 && flags % 4 / 2 == 0)
}

/// What the checks read of a packet's headers. Ports are in host order, zero for
/// protocols without ports.
#[derive(Clone, Copy, Debug)]
pub struct Headers {
    pub src: IpKey,
    pub protocol: u8,
    pub sport: u16,
    pub dport: u16,
    pub ip_hdr_len: usize,
}

/// The transport header at `off` is there as far as its protocol needs it.
pub open spec fn transport_fits(p: Seq<u8>, off: int, protocol: u8) -> bool {
    if protocol == IPPROTO_TCP {
        off + 20 <= p.len()
    } else if protocol == IPPROTO_UDP {
        off + 8 <= p.len()
    } else {
        true
    }
}

pub open spec fn has_ports(protocol: u8) -> bool {
    protocol == IPPROTO_TCP || protocol == IPPROTO_UDP
}

pub open spec fn sport_at(p: Seq<u8>, off: int, protocol: u8) -> int {
    if has_ports(protocol) {
        word_at(p, off)
    } else {
        0
    }
}

pub open spec fn dport_at(p: Seq<u8>, off: int, protocol: u8) -> int {
    if has_ports(protocol) {
        word_at(p, off + 2)
    } else {
        0
    }
}

/// Octets of an IPv4 header by its length field.
pub open spec fn ihl(p: Seq<u8>) -> int {
    (p[14] % 16) * 4
}

/// The packet is IPv4 with a whole header and transport header.
pub open spec fn is_ipv4(p: Seq<u8>) -> bool {
    &&& p.len() >= 34
    &&& word_at(p, 12) == 0x0800
    &&& ihl(p) >= 20
    &&& transport_fits(p, 14 + ihl(p), p[23])
}

/// The packet is IPv6 with a whole header and transport header.
pub open spec fn is_ipv6(p: Seq<u8>) -> bool {
    &&& p.len() >= 54
    &&& word_at(p, 12) == 0x86dd
    &&& transport_fits(p, 54, p[20])
}

/// `h` is what the headers of the IPv4 packet say.
pub open spec fn reads_v4(p: Seq<u8>, h: Headers) -> bool {
    &&& h.src.is_v4(p.subrange(26, 30))
    &&& h.protocol == p[23]
    &&& h.ip_hdr_len == ihl(p)
    &&& h.sport == sport_at(p, 14 + ihl(p), p[23])
    &&& h.dport == dport_at(p, 14 + ihl(p), p[23])
}

/// `h` is what the headers of the IPv6 packet say.
pub open spec fn reads_v6(p: Seq<u8>, h: Headers) -> bool {
    &&& h.src.is(6, p.subrange(22, 38))
    &&& h.protocol == p[20]
    &&& h.ip_hdr_len == 40
    &&& h.sport == sport_at(p, 54, p[20])
    &&& h.dport == dport_at(p, 54, p[20])
}

/// `r` is what parsing the packet gives: its headers, or nothing where it is neither
/// IPv4 nor IPv6 or is cut short.
pub open spec fn parses_to(p: Seq<u8>, r: Option<Headers>) -> bool {
    match r {
        Some(h) => (is_ipv4(p) && reads_v4(p, h)) || (is_ipv6(p) && reads_v6(p, h)),
        None => !is_ipv4(p) && !is_ipv6(p),
    }
}

/// A packet parses in one way only.
pub proof fn law_parse_is_unique(p: Seq<u8>, a: Option<Headers>, b: Option<Headers>)
    requires
        parses_to(p, a),
        parses_to(p, b),
    ensures
        a == b,
{
    if is_ipv4(p) {
        crate::common::lemma_key_ext(
            a->0.src,
            b->0.src,
            4,
            IpKey::mapped(p.subrange(26, 30)),
        );
    } else if is_ipv6(p) {
        crate::common::lemma_key_ext(a->0.src, b->0.src, 6, p.subrange(22, 38));
    }
}

/// Source and destination port of the transport header at `off`.
pub fn read_ports(p: &[u8], off: usize, protocol: u8) -> (r: Option<(u16, u16)>)
    requires
        off <= p@.len() || off < 0x1_0000,
    ensures
        match r {
            Some(ports) => transport_fits(p@, off as int, protocol) && ports.0 == sport_at(
                p@,
                off as int,
                protocol,
            ) && ports.1 == dport_at(p@, off as int, protocol),
            None => !transport_fits(p@, off as int, protocol),
        },
{
    if protocol == IPPROTO_TCP {
        if off > p.len() || p.len() - off < TCP_HDR_LEN {
            return None;
        }
        Some((read_be16(p, off), read_be16(p, off + 2)))
    } else if protocol == IPPROTO_UDP {
        if off > p.len() || p.len() - off < UDP_HDR_LEN {
            return None;
        }
        Some((read_be16(p, off), read_be16(p, off + 2)))
    } else {
        Some((0, 0))
    }
}

pub fn parse_ipv4(p: &[u8]) -> (r: Option<Headers>)
    requires
        p@.len() >= 14,
        word_at(p@, 12) == 0x0800,
    ensures
        parses_to(p@, r),
{
    if p.len() < ETH_HDR_LEN + IP_HDR_LEN {
        return None;
    }
    let len: usize = (p[14] % 16) as usize * 4;
    if len < IP_HDR_LEN {
        return None;
    }
    let octets: [u8; 4] = [p[26], p[27], p[28], p[29]];
    assert(octets@ == p@.subrange(26, 30));
    let src: IpKey = IpKey::from_ipv4(octets);
    let protocol: u8 = p[23];
    match read_ports(p, ETH_HDR_LEN + len, protocol) {
        Some(ports) => Some(
            Headers { src, protocol, sport: ports.0, dport: ports.1, ip_hdr_len: len },
        ),
        None => None,
    }
}

pub fn parse_ipv6(p: &[u8]) -> (r: Option<Headers>)
    requires
        p@.len() >= 14,
        word_at(p@, 12) == 0x86dd,
    ensures
        parses_to(p@, r),
{
    if p.len() < ETH_HDR_LEN + IPV6_HDR_LEN {
        return None;
    }
    let addr: [u8; 16] = [
        p[22],
        p[23],
        p[24],
        p[25],
        p[26],
        p[27],
        p[28],
        p[29],
        p[30],
        p[31],
        p[32],
        p[33],
        p[34],
        p[35],
        p[36],
        p[37],
    ];
    assert(addr@ == p@.subrange(22, 38));
    let src: IpKey = IpKey::from_ipv6(addr);
    let protocol: u8 = p[20];
    match read_ports(p, ETH_HDR_LEN + IPV6_HDR_LEN, protocol) {
        Some(ports) => Some(
            Headers {
                src,
                protocol,
                sport: ports.0,
                dport: ports.1,
                ip_hdr_len: IPV6_HDR_LEN,
            },
        ),
        None => None,
    }
}

/// Reads the headers of a packet.
pub fn parse_packet(p: &[u8]) -> (r: Option<Headers>)
    ensures
        parses_to(p@, r),
{
    if p.len() < ETH_HDR_LEN {
        return None;
    }
    let kind: u16 = read_be16(p, 12);
    if kind == 0x0800 {
        parse_ipv4(p)
    } else if kind == 0x86dd {
        parse_ipv6(p)
    } else {
        None
    }
}

} // verus!
