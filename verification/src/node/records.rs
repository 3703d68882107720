//! The rules of the configuration as the packet path holds them.

use crate::common::L7Pattern;
use crate::common::PortAclEntry;
use crate::dataplane::l7_scan::le_u64;
use crate::dataplane::l7_scan::pattern_hits;
use crate::dataplane::l7_scan::read_le64;
use crate::node::config::L7PatternConfig;
use crate::node::config::PortAclItem;
use crate::node::port_rule::entry_value;
use crate::node::port_rule::PortRuleError;
use crate::node::validate::MAX_L7_PATTERNS;
use crate::node::validate::MAX_PORT_RULES;
use vstd::prelude::*;
use vstd::utf8::encode_utf8;

verus! {

/// Why a rule cannot be handed to the packet path; the number is its place in the list.
#[derive(Clone, Copy, Debug, PartialEq, Eq, Structural)]
pub enum RecordError {
    /// The pattern has more than eight octets.
    PatternTooLong(usize),
    /// Pattern and mask do not have the same length.
    MaskLength(usize),
    /// The port rule cannot be read.
    PortRule(usize, PortRuleError),
    /// There are more port rules than the table holds.
    TooManyPortRules,
    /// There are more patterns than a list may hold.
    TooManyPatterns,
}

/// Up to eight octets, and zeros up to eight.
pub open spec fn padded(o: Seq<u8>) -> Seq<u8> {
    Seq::new(
        8,
        |i: int|
            if i < o.len() {
                o[i]
            } else {
                0u8
            },
    )
}

/// As many octets of ones.
pub open spec fn ones(n: nat) -> Seq<u8> {
    Seq::new(n, |i: int| 0xffu8)
}

/// The signature of a pattern.
pub open spec fn signature_of(pattern: Seq<u8>, mask: Seq<u8>) -> L7Pattern {
    L7Pattern {
        signature: le_u64(padded(pattern), 0) as u64,
        mask: le_u64(padded(mask), 0) as u64,
        length: pattern.len() as u8,
        action: 0,
    }
}

/// The record of a pattern. Without a mask every bit of the pattern counts.
pub open spec fn pattern_record(p: L7PatternConfig, i: usize) -> Result<L7Pattern, RecordError> {
    let o: Seq<u8> = encode_utf8(p.pattern@);
    if o.len() > 8 {
        Err(RecordError::PatternTooLong(i))
    } else {
        match p.mask {
            None => Ok(signature_of(o, ones(o.len()))),
            Some(m) => if encode_utf8(m@).len() != o.len() {
                Err(RecordError::MaskLength(i))
            } else {
                Ok(signature_of(o, encode_utf8(m@)))
            },
        }
    }
}

fn pad(o: &[u8]) -> (r: [u8; 8])
    requires
        o@.len() <= 8,
    ensures
        r@ == padded(o@),
{
    let mut out: [u8; 8] = [0u8; 8];
    for i in 0..o.len()
        invariant
            o@.len() <= 8,
            forall|j: int| 0 <= j < i ==> out@[j] == o@[j],
            forall|j: int| i <= j < 8 ==> out@[j] == 0,
    {
        out[i] = o[i];
    }
    assert(out@ =~= padded(o@));
    out
}

fn full_mask(n: usize) -> (r: [u8; 8])
    requires
        n <= 8,
    ensures
        r@ == padded(ones(n as nat)),
{
    let mut out: [u8; 8] = [0u8; 8];
    for i in 0..n
        invariant
            n <= 8,
            forall|j: int| 0 <= j < i ==> out@[j] == 0xff,
            forall|j: int| i <= j < 8 ==> out@[j] == 0,
    {
        out[i] = 0xff;
    }
    assert(out@ =~= padded(ones(n as nat)));
    out
}

/// The record of a pattern.
pub fn to_pattern(p: &L7PatternConfig, i: usize) -> (r: Result<L7Pattern, RecordError>)
    ensures
        r == pattern_record(*p, i),
{
    let o: &[u8] = p.pattern.as_str().as_bytes();
    let n: usize = o.len();
    if n > 8 {
        return Err(RecordError::PatternTooLong(i));
    }
    let mask: [u8; 8] = match &p.mask {
        None => full_mask(n),
        Some(m) => {
            let b: &[u8] = m.as_str().as_bytes();
            if b.len() != n {
                return Err(RecordError::MaskLength(i));
            }
            pad(b)
        },
    };
    let sig: [u8; 8] = pad(o);
    Ok(
        L7Pattern {
            signature: read_le64(&sig, 0),
            mask: read_le64(&mask, 0),
            length: n as u8,
            action: 0,
        },
    )
}

/// The records of the patterns before the first that has none or does not fit, and what is
/// wrong with that one.
pub open spec fn pattern_records(list: Seq<L7PatternConfig>, i: int) -> (
    Seq<L7Pattern>,
    Option<RecordError>,
)
    decreases list.len() - i,
{
    if i >= list.len() {
        (Seq::empty(), None)
    } else if i >= MAX_L7_PATTERNS {
        (Seq::empty(), Some(RecordError::TooManyPatterns))
    } else {
        match pattern_record(list[i], i as usize) {
            Err(e) => (Seq::empty(), Some(e)),
            Ok(rec) => {
                let rest: (Seq<L7Pattern>, Option<RecordError>) = pattern_records(list, i + 1);
                (seq![rec] + rest.0, rest.1)
            },
        }
    }
}

/// The records of the patterns before the first that has none or does not fit, and what is
/// wrong with that one.
pub fn l7_records(list: &Vec<L7PatternConfig>) -> (r: (Vec<L7Pattern>, Option<RecordError>))
    ensures
        (r.0@, r.1) == pattern_records(list@, 0),
{
    let mut out: Vec<L7Pattern> = Vec::new();
    let ghost all = pattern_records(list@, 0);
    let mut i: usize = 0;
    assert(all.0 =~= out@ + all.0);
    while i < list.len()
        invariant
            i <= list@.len(),
            all == pattern_records(list@, 0),
            all.0 == out@ + pattern_records(list@, i as int).0,
            all.1 == pattern_records(list@, i as int).1,
        decreases list@.len() - i,
    {
        if i >= MAX_L7_PATTERNS {
            assert(all.0 =~= out@);
            return (out, Some(RecordError::TooManyPatterns));
        }
        match to_pattern(&list[i], i) {
            Err(e) => {
                assert(all.0 =~= out@);
                return (out, Some(e));
            },
            Ok(rec) => {
                out.push(rec);
                assert(all.0 =~= out@ + pattern_records(list@, i + 1).0);
            },
        }
        i = i + 1;
    }
    assert(all.0 =~= out@);
    (out, None)
}

/// The record of a port rule.
pub open spec fn rule_record(item: PortAclItem, i: usize) -> Result<PortAclEntry, RecordError> {
    match entry_value(item.protocol@, item.dport@, item.action@) {
        Ok(e) => Ok(e),
        Err(e) => Err(RecordError::PortRule(i, e)),
    }
}

/// The records of the port rules before the first that has none or does not fit, and what
/// is wrong with that one.
pub open spec fn rule_records(list: Seq<PortAclItem>, i: int) -> (
    Seq<PortAclEntry>,
    Option<RecordError>,
)
    decreases list.len() - i,
{
    if i >= list.len() {
        (Seq::empty(), None)
    } else if i >= MAX_PORT_RULES {
        (Seq::empty(), Some(RecordError::TooManyPortRules))
    } else {
        match rule_record(list[i], i as usize) {
            Err(e) => (Seq::empty(), Some(e)),
            Ok(rec) => {
                let rest: (Seq<PortAclEntry>, Option<RecordError>) = rule_records(list, i + 1);
                (seq![rec] + rest.0, rest.1)
            },
        }
    }
}

/// The records of the port rules before the first that has none or does not fit, and what
/// is wrong with that one.
pub fn port_records(list: &Vec<PortAclItem>) -> (r: (Vec<PortAclEntry>, Option<RecordError>))
    ensures
        (r.0@, r.1) == rule_records(list@, 0),
{
    let mut out: Vec<PortAclEntry> = Vec::new();
    let ghost all = rule_records(list@, 0);
    let mut i: usize = 0;
    assert(all.0 =~= out@ + all.0);
    while i < list.len()
        invariant
            i <= list@.len(),
            all == rule_records(list@, 0),
            all.0 == out@ + rule_records(list@, i as int).0,
            all.1 == rule_records(list@, i as int).1,
        decreases list@.len() - i,
    {
        if i >= MAX_PORT_RULES {
            assert(all.0 =~= out@);
            return (out, Some(RecordError::TooManyPortRules));
        }
        match list[i].to_entry() {
            Err(e) => {
                assert(all.0 =~= out@);
                return (out, Some(RecordError::PortRule(i, e)));
            },
            Ok(rec) => {
                out.push(rec);
                assert(all.0 =~= out@ + rule_records(list@, i + 1).0);
            },
        }
        i = i + 1;
    }
    assert(all.0 =~= out@);
    (out, None)
}

proof fn lemma_low_octets(a: u64, b: u64, n: nat)
    requires
        n <= 8,
    ensures
        ({
            let m: u64 = le_u64(padded(ones(n)), 0) as u64;
            (a & m) == (b & m) <==> (a as int) % low_size(n) == (b as int) % low_size(n)
        }),
{
    let o: Seq<u8> = padded(ones(n));
    assert(o.len() == 8);
    assert forall|i: int| 0 <= i < 8 implies o[i] == if i < n {
        0xffu8
    } else {
        0u8
    } by {}
    let m: u64 = le_u64(o, 0) as u64;
    reveal_with_fuel(low_size, 9);
    if n == 0 {
        assert(m == 0);
        assert(low_size(n) == 1);
        assert((a & 0) == 0 && (b & 0) == 0) by (bit_vector);
        assert((a & m) == a as int % low_size(n) && (b & m) == b as int % low_size(n));
    } else if n == 1 {
        assert(m == 0xff);
        assert(low_size(n) == 0x100);
        assert((a & 0xff) == a % 0x100 && (b & 0xff) == b % 0x100) by (bit_vector);
        assert((a & m) == a as int % low_size(n) && (b & m) == b as int % low_size(n));
    } else if n == 2 {
        assert(m == 0xffff);
        assert(low_size(n) == 0x1_0000);
        assert((a & 0xffff) == a % 0x1_0000 && (b & 0xffff) == b % 0x1_0000) by (bit_vector);
        assert((a & m) == a as int % low_size(n) && (b & m) == b as int % low_size(n));
    } else if n == 3 {
        assert(m == 0xff_ffff);
        assert(low_size(n) == 0x100_0000);
        assert((a & 0xff_ffff) == a % 0x100_0000 && (b & 0xff_ffff) == b % 0x100_0000)
            by (bit_vector);
        assert((a & m) == a as int % low_size(n) && (b & m) == b as int % low_size(n));
    } else if n == 4 {
        assert(m == 0xffff_ffff);
        assert(low_size(n) == 0x1_0000_0000);
        assert((a & 0xffff_ffff) == a % 0x1_0000_0000 && (b & 0xffff_ffff) == b % 0x1_0000_0000)
            by (bit_vector);
        assert((a & m) == a as int % low_size(n) && (b & m) == b as int % low_size(n));
    } else if n == 5 {
        assert(m == 0xff_ffff_ffff);
        assert(low_size(n) == 0x100_0000_0000);
        assert((a & 0xff_ffff_ffff) == a % 0x100_0000_0000 && (b & 0xff_ffff_ffff) == b
            % 0x100_0000_0000) by (bit_vector);
        assert((a & m) == a as int % low_size(n) && (b & m) == b as int % low_size(n));
    } else if n == 6 {
        assert(m == 0xffff_ffff_ffff);
        assert(low_size(n) == 0x1_0000_0000_0000);
        assert((a & 0xffff_ffff_ffff) == a % 0x1_0000_0000_0000 && (b & 0xffff_ffff_ffff) == b
            % 0x1_0000_0000_0000) by (bit_vector);
        assert((a & m) == a as int % low_size(n) && (b & m) == b as int % low_size(n));
    } else if n == 7 {
        assert(m == 0xff_ffff_ffff_ffff);
        assert(low_size(n) == 0x100_0000_0000_0000);
        assert((a & 0xff_ffff_ffff_ffff) == a % 0x100_0000_0000_0000 && (b & 0xff_ffff_ffff_ffff)
            == b % 0x100_0000_0000_0000) by (bit_vector);
        assert((a & m) == a as int % low_size(n) && (b & m) == b as int % low_size(n));
    } else {
        assert(m == 0xffff_ffff_ffff_ffff);
        assert(low_size(n) == 0x1_0000_0000_0000_0000);
        assert((a & 0xffff_ffff_ffff_ffff) == a && (b & 0xffff_ffff_ffff_ffff) == b)
            by (bit_vector);
        assert((a & m) == a as int % low_size(n) && (b & m) == b as int % low_size(n));
    }
}

/// How many numbers `n` octets can hold.
pub open spec fn low_size(n: nat) -> int
    decreases n,
{
    if n == 0 {
        1
    } else {
        256 * low_size((n - 1) as nat)
    }
}

spec fn le_value(p: Seq<u8>) -> int
    decreases p.len(),
{
    if p.len() == 0 {
        0
    } else {
        p[0] + 256 * le_value(p.skip(1))
    }
}

proof fn lemma_le_value(p: Seq<u8>)
    requires
        p.len() == 8,
    ensures
        le_value(p) == le_u64(p, 0),
{
    reveal_with_fuel(le_value, 9);
    assert(p.skip(1).skip(1)[0] == p[2]);
    assert(p.skip(1).skip(1).skip(1)[0] == p[3]);
    assert(p.skip(1).skip(1).skip(1).skip(1)[0] == p[4]);
    assert(p.skip(1).skip(1).skip(1).skip(1).skip(1)[0] == p[5]);
    assert(p.skip(1).skip(1).skip(1).skip(1).skip(1).skip(1)[0] == p[6]);
    assert(p.skip(1).skip(1).skip(1).skip(1).skip(1).skip(1).skip(1)[0] == p[7]);
}

proof fn lemma_low_size(n: nat)
    ensures
        low_size(n) > 0,
    decreases n,
{
    if n > 0 {
        lemma_low_size((n - 1) as nat);
    }
}

proof fn lemma_peel(x: int, a: int, s: int)
    requires
        0 <= x < 256,
        a >= 0,
        s > 0,
    ensures
        (x + 256 * a) % (256 * s) == x + 256 * (a % s),
{
    let q: int = a / s;
    let r: int = a % s;
    assert(a == s * q + r && 0 <= r < s) by (nonlinear_arith)
        requires
            s > 0,
            q == a / s,
            r == a % s,
    ;
    assert(x + 256 * a == q * (256 * s) + (x + 256 * r)) by (nonlinear_arith)
        requires
            a == s * q + r,
    ;
    vstd::arithmetic::div_mod::lemma_fundamental_div_mod_converse(
        x + 256 * a,
        256 * s,
        q,
        x + 256 * r,
    );
}

proof fn lemma_le_positive(p: Seq<u8>)
    ensures
        le_value(p) >= 0,
    decreases p.len(),
{
    if p.len() > 0 {
        lemma_le_positive(p.skip(1));
    }
}

proof fn lemma_same_low(p: Seq<u8>, q: Seq<u8>, n: nat)
    requires
        p.len() == q.len(),
        n <= p.len(),
    ensures
        le_value(p) % low_size(n) == le_value(q) % low_size(n) <==> p.take(n as int) == q.take(
            n as int,
        ),
    decreases n,
{
    if n == 0 {
        assert(p.take(0) =~= q.take(0));
    } else {
        let m: nat = (n - 1) as nat;
        let pr: Seq<u8> = p.skip(1);
        let qr: Seq<u8> = q.skip(1);
        lemma_same_low(pr, qr, m);
        lemma_low_size(m);
        lemma_le_positive(pr);
        lemma_le_positive(qr);
        lemma_peel(p[0] as int, le_value(pr), low_size(m));
        lemma_peel(q[0] as int, le_value(qr), low_size(m));
        assert(p.take(n as int) =~= seq![p[0]] + pr.take(m as int));
        assert(q.take(n as int) =~= seq![q[0]] + qr.take(m as int));
        if p.take(n as int) == q.take(n as int) {
            assert(p.take(n as int)[0] == q.take(n as int)[0]);
            assert(pr.take(m as int) =~= p.take(n as int).skip(1));
            assert(qr.take(m as int) =~= q.take(n as int).skip(1));
        }
    }
}

/// A pattern without a mask hits exactly the payloads that start with its text.
pub proof fn law_pattern_hits_its_text(c: L7PatternConfig, i: usize, payload: Seq<u8>)
    requires
        c.mask is None,
        1 <= encode_utf8(c.pattern@).len() <= 8,
        payload.len() == 8,
    ensures
        pattern_record(c, i) is Ok,
        pattern_hits(pattern_record(c, i)->Ok_0, le_u64(payload, 0) as u64)
            <==> payload.take(encode_utf8(c.pattern@).len() as int) == encode_utf8(c.pattern@),
{
    let o: Seq<u8> = encode_utf8(c.pattern@);
    let q: Seq<u8> = padded(o);
    lemma_low_octets(le_u64(payload, 0) as u64, le_u64(q, 0) as u64, o.len());
    lemma_le_value(payload);
    lemma_le_value(q);
    lemma_same_low(payload, q, o.len());
    assert(q.take(o.len() as int) =~= o);
}

} // verus!
