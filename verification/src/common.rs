//! Records shared by the packet path and the control plane.

use vstd::prelude::*;

verus! {

/// Address family of a key.
#[derive(Clone, Copy, Debug, PartialEq, Eq, Hash)]
pub enum IpFamily {
    Ipv4,
    Ipv6,
}

impl IpFamily {
    /// The number that stands for the family in packed records.
    pub open spec fn code(self) -> u8 {
        match self {
            IpFamily::Ipv4 => 4,
            IpFamily::Ipv6 => 6,
        }
    }

    /// The family that a packed number stands for.
    pub open spec fn of_code(v: u8) -> Option<IpFamily> {
        if v == 4 {
            Some(IpFamily::Ipv4)
        } else if v == 6 {
            Some(IpFamily::Ipv6)
        } else {
            None
        }
    }

    pub fn from_u8(v: u8) -> (r: Option<Self>)
        ensures
            r == IpFamily::of_code(v),
    {
        match v {
            4 => Some(IpFamily::Ipv4),
            6 => Some(IpFamily::Ipv6),
            _ => None,
        }
    }

    pub fn to_u8(self) -> (r: u8)
        ensures
            r == self.code(),
            IpFamily::of_code(r) == Some(self),
    {
        match self {
            IpFamily::Ipv4 => 4,
            IpFamily::Ipv6 => 6,
        }
    }
}

/// The value of four octets in network order.
pub open spec fn be_u32(a: u8, b: u8, c: u8, d: u8) -> int {
    a * 0x100_0000 + b * 0x1_0000 + c * 0x100 + d
}

/// Key of the per-address tables. An IPv4 address sits in the last four octets,
/// the twelve before it are zero.
///
/// The records here hold the fields alone. Where a record lies in a kernel map it is
/// followed by zero octets up to the map's record size.
#[derive(Clone, Copy, Debug, PartialEq, Eq, Hash)]
pub struct IpKey {
    pub family: u8,
    pub addr: [u8; 16],
}

impl IpKey {
    /// Sixteen octets whose last four are `o` and whose others are zero.
    pub open spec fn mapped(o: Seq<u8>) -> Seq<u8> {
        Seq::new(16, |i: int| if i < 12 { 0u8 } else { o[i - 12] })
    }

    /// The key holds exactly this family number and these sixteen octets.
    pub open spec fn is(self, family: u8, octets: Seq<u8>) -> bool {
        &&& self.family == family
        &&& self.addr@ == octets
    }

    /// The key of an IPv4 address.
    pub open spec fn is_v4(self, octets: Seq<u8>) -> bool {
        self.is(4, IpKey::mapped(octets))
    }

    pub fn from_ipv4(octets: [u8; 4]) -> (r: Self)
        ensures
            r.is_v4(octets@),
    {
        let mut addr: [u8; 16] = [0u8; 16];
        addr[12] = octets[0];
        addr[13] = octets[1];
        addr[14] = octets[2];
        addr[15] = octets[3];
        assert(addr@ =~= IpKey::mapped(octets@));
        IpKey { family: 4, addr }
    }

    pub fn from_ipv6(addr: [u8; 16]) -> (r: Self)
        ensures
            r.is(6, addr@),
    {
        IpKey { family: 6, addr }
    }

    pub fn family(&self) -> (r: Option<IpFamily>)
        ensures
            r == IpFamily::of_code(self.family),
    {
        IpFamily::from_u8(self.family)
    }

    /// The last four octets as a number in network order.
    pub open spec fn ipv4_value(self) -> int {
        be_u32(self.addr[12], self.addr[13], self.addr[14], self.addr[15])
    }

    /// The IPv4 address; meaningful for a key of that family.
    pub fn ipv4(&self) -> (r: u32)
        ensures
            r == self.ipv4_value(),
    {
        self.addr[12] as u32 * 0x100_0000 + self.addr[13] as u32 * 0x1_0000 + self.addr[14] as u32
            * 0x100 + self.addr[15] as u32
    }

    /// Two keys are the same record: family and octets agree.
    pub fn same(&self, other: &IpKey) -> (r: bool)
        ensures
            r == (*self == *other),
    {
        if self.family != other.family {
            return false;
        }
        for i in 0..16usize
            invariant
                forall|j: int| 0 <= j < i ==> self.addr[j] == other.addr[j],
        {
            if self.addr[i] != other.addr[i] {
                return false;
            }
        }
        assert(self.addr =~= other.addr);
        true
    }
}

impl Default for IpKey {
    fn default() -> (r: Self)
        ensures
            r.is(0, Seq::new(16, |i: int| 0u8)),
    {
        let addr: [u8; 16] = [0u8; 16];
        assert(addr@ =~= Seq::new(16, |i: int| 0u8));
        IpKey { family: 0, addr }
    }
}

/// Two keys with the same family number and octets are equal.
pub proof fn lemma_key_ext(a: IpKey, b: IpKey, family: u8, octets: Seq<u8>)
    requires
        a.is(family, octets),
        b.is(family, octets),
    ensures
        a == b,
{
    assert forall|i: int| 0 <= i < 16 implies a.addr[i] == b.addr[i] by {
        assert(a.addr@[i] == b.addr@[i]);
    }
    assert(a.addr =~= b.addr);
}

/// Distinct IPv4 addresses have distinct keys, and the address can be read back.
pub proof fn law_ipv4_key_reads_back(k: IpKey, o: Seq<u8>)
    requires
        o.len() == 4,
        k.is_v4(o),
    ensures
        IpFamily::of_code(k.family) == Some(IpFamily::Ipv4),
        k.ipv4_value() == be_u32(o[0], o[1], o[2], o[3]),
        forall|p: Seq<u8>| p.len() == 4 && k.is_v4(p) ==> p == o,
{
    assert(k.addr@[12] == o[0]);
    assert(k.addr@[13] == o[1]);
    assert(k.addr@[14] == o[2]);
    assert(k.addr@[15] == o[3]);
    assert forall|p: Seq<u8>| p.len() == 4 && k.is_v4(p) implies p == o by {
        assert(k.addr@[12] == p[0]);
        assert(k.addr@[13] == p[1]);
        assert(k.addr@[14] == p[2]);
        assert(k.addr@[15] == p[3]);
        assert(p =~= o);
    }
}

/// A drop reported by the packet path.
#[derive(Clone, Copy, Debug)]
pub struct DropEvent {
    pub timestamp_ns: u64,
    pub src_ip: [u8; 16],
    pub family: u8,
    pub protocol: u8,
    pub rule_id: u16,
    pub dst_port: u16,
}

/// A blocked address.
#[derive(Clone, Copy, Debug)]
pub struct BlockEntry {
    pub blocked_until_ns: u64,
    pub block_reason: u8,
    pub hit_count: u32,
    pub first_seen_ns: u64,
}

/// `blocked_until_ns` of a block that never ends.
pub const BLOCK_PERMANENT: u64 = 0;

/// Reputation of an address: `trust_score` runs from 0 (malicious) to 1000 (trusted).
#[derive(Clone, Copy, Debug)]
pub struct TrustEntry {
    pub trust_score: u32,
    pub pass_count: u32,
    pub drop_count: u32,
    pub last_update_ns: u64,
    /// 0 unknown, 1 trusted, 2 neutral, 3 suspicious, 4 malicious.
    pub level: u8,
}

impl TrustEntry {
    /// An entry with this score and update time, and everything else zero.
    pub open spec fn blank_spec(score: u32, now_ns: u64) -> TrustEntry {
        TrustEntry {
            trust_score: score,
            pass_count: 0,
            drop_count: 0,
            last_update_ns: now_ns,
            level: 0,
        }
    }

    pub fn blank(score: u32, now_ns: u64) -> (r: Self)
        ensures
            r == TrustEntry::blank_spec(score, now_ns),
    {
        TrustEntry {
            trust_score: score,
            pass_count: 0,
            drop_count: 0,
            last_update_ns: now_ns,
            level: 0,
        }
    }
}

impl Default for TrustEntry {
    fn default() -> (r: Self)
        ensures
            r == TrustEntry::blank_spec(0, 0),
    {
        TrustEntry::blank(0, 0)
    }
}

pub const TRUST_MAX: u32 = 1000;
pub const TRUST_MIN: u32 = 0;
/// A passed packet adds `(1000 - score) / 100`.
pub const TRUST_ADD_DIVISOR: u32 = 100;
/// A dropped packet takes away `score / 3`.
pub const TRUST_SUB_DIVISOR: u32 = 3;
/// Score of an address seen for the first time.
pub const TRUST_DEFAULT: u32 = 500;

/// Exponentially decaying packet counter.
#[derive(Clone, Copy, Debug)]
pub struct RateCounter {
    pub counter: u64,
    pub last_decay_ns: u64,
}

/// Prefix-table keys; an IPv4 address is held in wire order.
#[derive(Clone, Copy, Debug)]
pub struct WhitelistKeyV4 {
    pub addr: u32,
}

#[derive(Clone, Copy, Debug)]
pub struct WhitelistKeyV6 {
    pub addr: [u8; 16],
}

#[derive(Clone, Copy, Debug)]
pub struct GeoIpKeyV4 {
    pub addr: u32,
}

#[derive(Clone, Copy, Debug)]
pub struct GeoIpKeyV6 {
    pub addr: [u8; 16],
}

/// Counters of the packet path. They wrap.
#[derive(Clone, Copy, Debug)]
pub struct GlobalStats {
    pub total_packets: u64,
    pub total_dropped: u64,
    pub total_passed: u64,
    pub syn_flood_blocked: u64,
    pub rate_limited: u64,
    pub l7_blocked: u64,
    pub udp_flood_blocked: u64,
    pub icmp_flood_blocked: u64,
    pub geoip_blocked: u64,
    pub blacklist_blocked: u64,
    pub tcp_rst_sent: u64,
    pub tcp_rst_fail: u64,
    pub tcp_rst_attempt: u64,
    pub tcp_dropped: u64,
    pub udp_dropped: u64,
    pub icmp_dropped: u64,
    pub other_dropped: u64,
    pub waf_blocked: u64,
    pub challenge_issued: u64,
    pub conn_track_blocked: u64,
}

impl GlobalStats {
    pub open spec fn zero() -> GlobalStats {
        GlobalStats {
            total_packets: 0,
            total_dropped: 0,
            total_passed: 0,
            syn_flood_blocked: 0,
            rate_limited: 0,
            l7_blocked: 0,
            udp_flood_blocked: 0,
            icmp_flood_blocked: 0,
            geoip_blocked: 0,
            blacklist_blocked: 0,
            tcp_rst_sent: 0,
            tcp_rst_fail: 0,
            tcp_rst_attempt: 0,
            tcp_dropped: 0,
            udp_dropped: 0,
            icmp_dropped: 0,
            other_dropped: 0,
            waf_blocked: 0,
            challenge_issued: 0,
            conn_track_blocked: 0,
        }
    }
}

impl Default for GlobalStats {
    fn default() -> (r: Self)
        ensures
            r == GlobalStats::zero(),
    {
        GlobalStats {
            total_packets: 0,
            total_dropped: 0,
            total_passed: 0,
            syn_flood_blocked: 0,
            rate_limited: 0,
            l7_blocked: 0,
            udp_flood_blocked: 0,
            icmp_flood_blocked: 0,
            geoip_blocked: 0,
            blacklist_blocked: 0,
            tcp_rst_sent: 0,
            tcp_rst_fail: 0,
            tcp_rst_attempt: 0,
            tcp_dropped: 0,
            udp_dropped: 0,
            icmp_dropped: 0,
            other_dropped: 0,
            waf_blocked: 0,
            challenge_issued: 0,
            conn_track_blocked: 0,
        }
    }
}

/// Switches of the packet path; a switch is on when it is not zero.
#[derive(Clone, Copy, Debug, PartialEq, Eq)]
pub struct RuntimeConfig {
    pub rate_limit_enabled: u8,
    pub syn_proxy_enabled: u8,
    pub l7_scan_enabled: u8,
    pub ebpf_debug: u8,
    pub udp_flood_enabled: u8,
    pub icmp_flood_enabled: u8,
    pub geoip_enabled: u8,
    pub tcp_reset_on_drop: u8,
    pub trust_enabled: u8,
    /// 0 normal, 1 elevated, 2 critical.
    pub danger_level: u8,
    pub packet_log_enabled: u8,
    pub project_enabled: u8,
    pub packet_log_sample_rate: u16,
}

/// Parameters of the per-address rate limit.
#[derive(Clone, Copy, Debug, PartialEq, Eq)]
pub struct RateLimitConfig {
    pub threshold: u64,
    pub tick_ms: u64,
    pub decay_num: u64,
    pub decay_den: u64,
    pub block_duration_s: u64,
}

impl Default for RateLimitConfig {
    fn default() -> (r: Self)
        ensures
            r == (RateLimitConfig {
                threshold: 200,
                tick_ms: 100,
                decay_num: 7,
                decay_den: 8,
                block_duration_s: 300,
            }),
    {
        RateLimitConfig {
            threshold: 200,
            tick_ms: 100,
            decay_num: 7,
            decay_den: 8,
            block_duration_s: 300,
        }
    }
}

/// Secrets of the SYN cookies for the bucket `bucket_index` and the one before it.
#[derive(Clone, Copy, Debug)]
pub struct CookieSecret {
    pub current: [u8; 16],
    pub previous: [u8; 16],
    pub bucket_index: u64,
}

/// An eight-byte payload signature.
#[derive(Clone, Copy, Debug, PartialEq, Eq)]
pub struct L7Pattern {
    pub signature: u64,
    pub mask: u64,
    pub length: u8,
    pub action: u8,
}

impl Default for L7Pattern {
    fn default() -> (r: Self)
        ensures
            r == (L7Pattern { signature: 0, mask: 0, length: 0, action: 0 }),
    {
        L7Pattern { signature: 0, mask: 0, length: 0, action: 0 }
    }
}

/// A port rule: protocol 0 is any, port 0 is any, action 1 allows and 2 drops.
/// The ports are held in wire order.
#[derive(Clone, Copy, Debug)]
pub struct PortAclEntry {
    pub protocol: u8,
    pub dport_low: u16,
    pub dport_high: u16,
    pub action: u8,
}

impl Default for PortAclEntry {
    fn default() -> (r: Self)
        ensures
            r == (PortAclEntry { protocol: 0, dport_low: 0, dport_high: 0, action: 0 }),
    {
        PortAclEntry { protocol: 0, dport_low: 0, dport_high: 0, action: 0 }
    }
}

/// Key of a protection-project policy: destination IPv4 address and port in wire
/// order, and protocol; port 0 and protocol 0 are wildcards.
#[derive(Clone, Copy, Debug, Default, PartialEq, Eq, Structural)]
pub struct ProjectPolicyKey {
    pub addr: u32,
    pub dport: u16,
    pub protocol: u8,
}

/// A protection-project policy: action 1 passes, 2 drops, 3 defends.
#[derive(Clone, Copy, Debug)]
pub struct ProjectPolicy {
    pub flags: u16,
    pub action: u8,
}

/// Counting window of a protocol and destination port.
#[derive(Clone, Copy, Debug, PartialEq, Eq, Structural)]
pub struct PortRateKey {
    pub protocol: u8,
    pub dport: u16,
}

/// Half-open connections of a source.
#[derive(Clone, Copy, Debug)]
pub struct ConnTrackEntry {
    pub last_seen_ns: u64,
    pub half_open: u32,
}

/// A sampled packet: its addresses, ports and first bytes.
#[derive(Clone, Copy, Debug)]
pub struct PacketSample {
    pub timestamp_ns: u64,
    pub src_ip: [u8; 16],
    pub dst_ip: [u8; 16],
    pub src_port: u16,
    pub dst_port: u16,
    pub rule_id: u16,
    pub packet_len: u16,
    pub family: u8,
    pub protocol: u8,
    /// 0 dropped, 1 passed.
    pub action: u8,
    pub payload_bytes: u8,
    pub payload_sample: [u8; 64],
}

} // verus!
