//! The log of sampled packets.

use crate::common::IpKey;
use crate::common::PacketSample;
use crate::ip_format::address_text;
use crate::ip_format::char_of_hex;
use crate::ip_format::format_ip_key;
use crate::ip_format::hex_char;
use crate::ip_format::v4_text;
use crate::ip_format::v6_text;
use crate::text::chars_of;
use crate::text::contains;
use crate::text::has_part;
use crate::text::lower;
use crate::text::lowered;
use crate::text::text_of;
use std::collections::VecDeque;
use vstd::prelude::*;

verus! {

/// A sampled packet in readable form.
#[derive(Debug, Clone)]
pub struct PacketSampleEntry {
    pub timestamp_ns: u64,
    pub src_ip: String,
    pub dst_ip: String,
    pub src_port: u16,
    pub dst_port: u16,
    pub protocol: u8,
    pub action: u8,
    pub rule_id: u16,
    pub packet_len: u16,
    pub payload_bytes: u8,
    pub payload_hex: String,
}

/// What a readable sample says.
pub struct EntryView {
    pub timestamp_ns: u64,
    pub src_ip: Seq<char>,
    pub dst_ip: Seq<char>,
    pub src_port: u16,
    pub dst_port: u16,
    pub protocol: u8,
    pub action: u8,
    pub rule_id: u16,
    pub packet_len: u16,
    pub payload_bytes: u8,
    pub payload_hex: Seq<char>,
}

impl View for PacketSampleEntry {
    type V = EntryView;

    open spec fn view(&self) -> EntryView {
        EntryView {
            timestamp_ns: self.timestamp_ns,
            src_ip: self.src_ip@,
            dst_ip: self.dst_ip@,
            src_port: self.src_port,
            dst_port: self.dst_port,
            protocol: self.protocol,
            action: self.action,
            rule_id: self.rule_id,
            packet_len: self.packet_len,
            payload_bytes: self.payload_bytes,
            payload_hex: self.payload_hex@,
        }
    }
}

/// Each octet as two hexadecimal digits.
pub open spec fn hex_octets(o: Seq<u8>) -> Seq<char>
    decreases o.len(),
{
    if o.len() == 0 {
        Seq::empty()
    } else {
        hex_octets(o.drop_last()).push(hex_char(o.last() as int / 16)).push(
            hex_char(o.last() as int % 16),
        )
    }
}

/// The address of a sample in text; one of no known family has the number 0.
pub open spec fn sample_address(family: u8, addr: Seq<u8>) -> Seq<char> {
    address_text(
        if family == 4 || family == 6 {
            family
        } else {
            0
        },
        addr,
    )
}

/// The sample in readable form.
pub open spec fn entry_view(s: PacketSample) -> EntryView {
    EntryView {
        timestamp_ns: s.timestamp_ns,
        src_ip: sample_address(s.family, s.src_ip@),
        dst_ip: sample_address(s.family, s.dst_ip@),
        src_port: s.src_port,
        dst_port: s.dst_port,
        protocol: s.protocol,
        action: s.action,
        rule_id: s.rule_id,
        packet_len: s.packet_len,
        payload_bytes: s.payload_bytes,
        payload_hex: hex_octets(s.payload_sample@.take(s.payload_bytes as int)),
    }
}

/// The samples in readable form.
pub open spec fn entry_views(v: Seq<PacketSampleEntry>) -> Seq<EntryView> {
    v.map_values(|e: PacketSampleEntry| e@)
}

fn bytes_to_hex(bytes: &[u8], n: usize) -> (r: String)
    requires
        n <= bytes@.len(),
    ensures
        r@ == hex_octets(bytes@.take(n as int)),
{
    let mut out: String = String::new();
    assert(out@ =~= hex_octets(bytes@.take(0)));
    for i in 0..n
        invariant
            n <= bytes@.len(),
            out@ == hex_octets(bytes@.take(i as int)),
    {
        assert(bytes@.take(i + 1).drop_last() =~= bytes@.take(i as int));
        assert(bytes@.take(i + 1).last() == bytes@[i as int]);
        out.push(char_of_hex(bytes[i] / 16));
        out.push(char_of_hex(bytes[i] % 16));
    }
    out
}

fn sample_key(family: u8, addr: &[u8; 16]) -> (r: IpKey)
    ensures
        address_text(r.family, r.addr@) == sample_address(family, addr@),
{
    if family == 4 {
        let o: [u8; 4] = [addr[12], addr[13], addr[14], addr[15]];
        let k: IpKey = IpKey::from_ipv4(o);
        assert(k.addr@.skip(12) =~= o@);
        assert(addr@.skip(12) =~= o@);
        k
    } else if family == 6 {
        IpKey::from_ipv6(*addr)
    } else {
        IpKey::default()
    }
}

impl PacketSampleEntry {
    /// The sample in readable form.
    pub fn of(sample: &PacketSample) -> (r: Self)
        requires
            sample.payload_bytes <= 64,
        ensures
            r@ == entry_view(*sample),
    {
        let src: IpKey = sample_key(sample.family, &sample.src_ip);
        let dst: IpKey = sample_key(sample.family, &sample.dst_ip);
        PacketSampleEntry {
            timestamp_ns: sample.timestamp_ns,
            src_ip: format_ip_key(&src),
            dst_ip: format_ip_key(&dst),
            src_port: sample.src_port,
            dst_port: sample.dst_port,
            protocol: sample.protocol,
            action: sample.action,
            rule_id: sample.rule_id,
            packet_len: sample.packet_len,
            payload_bytes: sample.payload_bytes,
            payload_hex: bytes_to_hex(&sample.payload_sample, sample.payload_bytes as usize),
        }
    }
}

/// Which samples to show.
#[derive(Debug, Clone, Default)]
pub struct PacketLogQuery {
    /// Part of the text of one of the addresses.
    pub ip: Option<String>,
    pub port: Option<u16>,
    pub protocol: Option<u8>,
    pub action: Option<u8>,
    pub rule: Option<u16>,
    pub from_ns: Option<u64>,
    pub to_ns: Option<u64>,
    pub limit: usize,
}

/// How many samples are shown where nothing else was asked for.
pub fn default_limit() -> (r: usize)
    ensures
        r == 100,
{
    100
}

/// The text of an address that is searched; empty where the family is not known.
pub open spec fn search_text(family: u8, addr: Seq<u8>) -> Seq<char> {
    if family == 4 {
        v4_text(addr.skip(12))
    } else if family == 6 {
        v6_text(addr)
    } else {
        Seq::empty()
    }
}

/// The text of an address holds the wanted part, whatever the case of the letters.
pub open spec fn address_matches(family: u8, addr: Seq<u8>, part: Seq<char>) -> bool {
    has_part(lowered(search_text(family, addr)), lowered(part))
}

/// The sample is one that the query asks for.
pub open spec fn matches(s: PacketSample, q: PacketLogQuery) -> bool {
    &&& (match q.ip {
        Some(ip) => address_matches(s.family, s.src_ip@, ip@) || address_matches(
            s.family,
            s.dst_ip@,
            ip@,
        ),
        None => true,
    })
    &&& (match q.port {
        Some(p) => s.src_port == p || s.dst_port == p,
        None => true,
    })
    &&& (match q.protocol {
        Some(p) => s.protocol == p,
        None => true,
    })
    &&& (match q.action {
        Some(a) => s.action == a,
        None => true,
    })
    &&& (match q.rule {
        Some(r) => s.rule_id == r,
        None => true,
    })
    &&& (match q.from_ns {
        Some(t) => s.timestamp_ns >= t,
        None => true,
    })
    &&& (match q.to_ns {
        Some(t) => s.timestamp_ns <= t,
        None => true,
    })
}

fn search_address(family: u8, addr: &[u8; 16], part: &str) -> (r: bool)
    ensures
        r == address_matches(family, addr@, part@),
{
    let text: String = if family == 4 || family == 6 {
        let k: IpKey = sample_key(family, addr);
        format_ip_key(&k)
    } else {
        String::new()
    };
    assert(text@ =~= search_text(family, addr@));
    contains(text_of(&lower(&chars_of(text.as_str()))).as_str(), text_of(&lower(&chars_of(part))).as_str())
}

fn sample_matches(s: &PacketSample, q: &PacketLogQuery) -> (r: bool)
    ensures
        r == matches(*s, *q),
{
    if let Some(ip) = &q.ip {
        if !search_address(s.family, &s.src_ip, ip.as_str()) && !search_address(
            s.family,
            &s.dst_ip,
            ip.as_str(),
        ) {
            return false;
        }
    }
    if let Some(port) = q.port {
        if s.src_port != port && s.dst_port != port {
            return false;
        }
    }
    if let Some(protocol) = q.protocol {
        if s.protocol != protocol {
            return false;
        }
    }
    if let Some(action) = q.action {
        if s.action != action {
            return false;
        }
    }
    if let Some(rule) = q.rule {
        if s.rule_id != rule {
            return false;
        }
    }
    if let Some(from) = q.from_ns {
        if s.timestamp_ns < from {
            return false;
        }
    }
    if let Some(to) = q.to_ns {
        if s.timestamp_ns > to {
            return false;
        }
    }
    true
}

/// The samples that a query asks for, the newest first, no more than `limit`.
pub open spec fn found(entries: Seq<PacketSample>, q: PacketLogQuery, limit: nat) -> Seq<EntryView>
    decreases entries.len(),
{
    if entries.len() == 0 || limit == 0 {
        Seq::empty()
    } else if matches(entries.last(), q) {
        seq![entry_view(entries.last())] + found(entries.drop_last(), q, (limit - 1) as nat)
    } else {
        found(entries.drop_last(), q, limit)
    }
}

/// The newest samples, the newest first.
pub open spec fn newest(entries: Seq<PacketSample>, n: nat) -> Seq<EntryView> {
    Seq::new(
        if entries.len() < n {
            entries.len()
        } else {
            n
        },
        |i: int| entry_view(entries[entries.len() - 1 - i]),
    )
}

/// The latest sampled packets, the newest last.
pub struct PacketLog {
    pub max_entries: usize,
    pub entries: VecDeque<PacketSample>,
}

impl PacketLog {
    /// No sample claims more payload than it holds.
    pub open spec fn wf(&self) -> bool {
        forall|i: int|
            0 <= i < self.entries@.len() ==> (#[trigger] self.entries@[i]).payload_bytes <= 64
    }

    pub fn new(max_entries: usize) -> (r: Self)
        ensures
            r.wf(),
            r.max_entries == max_entries,
            r.entries@.len() == 0,
    {
        PacketLog { max_entries, entries: VecDeque::new() }
    }

    /// What is left when room was made for one more sample.
    pub open spec fn room_made(&self) -> Seq<PacketSample> {
        if self.entries@.len() >= self.max_entries && self.entries@.len() > 0 {
            self.entries@.skip(1)
        } else {
            self.entries@
        }
    }

    /// Keeps a sample; the oldest goes where the log is full.
    pub fn push(&mut self, sample: PacketSample)
        requires
            old(self).wf(),
            sample.payload_bytes <= 64,
        ensures
            final(self).wf(),
            final(self).max_entries == old(self).max_entries,
            final(self).entries@ == old(self).room_made().push(sample),
    {
        if self.entries.len() >= self.max_entries {
            self.entries.pop_front();
        }
        assert(self.entries@ =~= old(self).room_made());
        self.entries.push_back(sample);
    }

    /// The samples that a query asks for, the newest first.
    pub fn query(&self, opts: &PacketLogQuery) -> (r: Vec<PacketSampleEntry>)
        requires
            self.wf(),
        ensures
            entry_views(r@) == found(self.entries@, *opts, opts.limit as nat),
    {
        let mut out: Vec<PacketSampleEntry> = Vec::new();
        let mut i: usize = self.entries.len();
        let ghost all = found(self.entries@, *opts, opts.limit as nat);
        assert(self.entries@.take(i as int) =~= self.entries@);
        assert(all =~= entry_views(out@) + all);
        while i > 0 && out.len() < opts.limit
            invariant
                self.wf(),
                i <= self.entries@.len(),
                out@.len() <= opts.limit,
                all == entry_views(out@) + found(
                    self.entries@.take(i as int),
                    *opts,
                    (opts.limit - out@.len()) as nat,
                ),
            decreases i,
        {
            i = i - 1;
            let ghost before = entry_views(out@);
            let ghost part = self.entries@.take(i + 1);
            assert(part.drop_last() =~= self.entries@.take(i as int));
            assert(part.last() == self.entries@[i as int]);
            if sample_matches(&self.entries[i], opts) {
                let e: PacketSampleEntry = PacketSampleEntry::of(&self.entries[i]);
                let ghost v = e@;
                out.push(e);
                assert(entry_views(out@) =~= before.push(v));
                assert(all =~= entry_views(out@) + found(
                    self.entries@.take(i as int),
                    *opts,
                    (opts.limit - out@.len()) as nat,
                ));
            }
        }
        assert(all =~= entry_views(out@));
        out
    }

    /// The newest samples, the newest first.
    pub fn latest(&self, n: usize) -> (r: Vec<PacketSampleEntry>)
        requires
            self.wf(),
        ensures
            entry_views(r@) == newest(self.entries@, n as nat),
    {
        let mut out: Vec<PacketSampleEntry> = Vec::new();
        let len: usize = self.entries.len();
        let take: usize = if len < n {
            len
        } else {
            n
        };
        for i in 0..take
            invariant
                self.wf(),
                len == self.entries@.len(),
                take <= len,
                out@.len() == i,
                forall|j: int|
                    0 <= j < i ==> (#[trigger] out@[j])@ == entry_view(self.entries@[len - 1 - j]),
        {
            out.push(PacketSampleEntry::of(&self.entries[len - 1 - i]));
        }
        assert(entry_views(out@) =~= newest(self.entries@, n as nat));
        out
    }
}

/// A query that asks for everything shows the newest samples.
pub proof fn law_open_query_shows_newest(entries: Seq<PacketSample>, q: PacketLogQuery)
    requires
        q.ip is None && q.port is None && q.protocol is None && q.action is None && q.rule is None,
        q.from_ns is None && q.to_ns is None,
    ensures
        found(entries, q, q.limit as nat) == newest(entries, q.limit as nat),
{
    lemma_all_found(entries, q, q.limit as nat);
}

proof fn lemma_all_found(entries: Seq<PacketSample>, q: PacketLogQuery, limit: nat)
    requires
        forall|s: PacketSample| #[trigger] matches(s, q),
    ensures
        found(entries, q, limit) == newest(entries, limit),
    decreases entries.len(),
{
    if entries.len() > 0 && limit > 0 {
        assert(matches(entries.last(), q));
        lemma_all_found(entries.drop_last(), q, (limit - 1) as nat);
        assert(found(entries, q, limit) =~= newest(entries, limit));
    } else {
        assert(found(entries, q, limit) =~= newest(entries, limit));
    }
}

/// A log with room for a sample at all holds no more than fit, and the latest.
pub proof fn law_log_keeps_the_latest(log: PacketLog, sample: PacketSample)
    requires
        log.max_entries > 0,
        log.entries@.len() <= log.max_entries,
    ensures
        log.room_made().push(sample).len() <= log.max_entries,
        log.room_made().push(sample).last() == sample,
        log.room_made().push(sample) == crate::node::stats::last_of(
            log.entries@.push(sample),
            log.max_entries as nat,
        ),
{
    assert(log.room_made().push(sample) =~= crate::node::stats::last_of(
        log.entries@.push(sample),
        log.max_entries as nat,
    ));
}

} // verus!
