//! The audit log.

use crate::node::stats::last_of;
use crate::outside::from_utf8_lossy;
use crate::outside::lossy_text;
use crate::outside::lower_text;
use crate::outside::to_lower;
use crate::text::chars_of;
use crate::text::contains;
use crate::text::has_part;
use crate::text::lines;
use crate::text::lines_of;
use crate::text::same_text;
use crate::text::text_of;
use crate::text::texts;
use crate::text::trim;
use crate::text::trimmed;
use crate::text::views;
use std::collections::VecDeque;
use vstd::prelude::*;
use vstd::string::StringExecFns;

verus! {

/// What was done.
#[derive(Clone, Copy, Debug, PartialEq, Eq, Structural)]
pub enum AuditAction {
    BlockIp,
    UnblockIp,
    AllowCidr,
    DisallowCidr,
    ReloadConfig,
    PatchConfig,
    Start,
    Stop,
    Login,
    ResetToken,
}

/// The name of an action.
pub open spec fn action_text(a: AuditAction) -> Seq<char> {
    match a {
        AuditAction::BlockIp => "block_ip"@,
        AuditAction::UnblockIp => "unblock_ip"@,
        AuditAction::AllowCidr => "allow_cidr"@,
        AuditAction::DisallowCidr => "disallow_cidr"@,
        AuditAction::ReloadConfig => "reload_config"@,
        AuditAction::PatchConfig => "patch_config"@,
        AuditAction::Start => "start"@,
        AuditAction::Stop => "stop"@,
        AuditAction::Login => "login"@,
        AuditAction::ResetToken => "reset_token"@,
    }
}

impl AuditAction {
    /// The name of an action.
    pub fn name(&self) -> (r: &'static str)
        ensures
            r@ == action_text(*self),
    {
        match self {
            AuditAction::BlockIp => "block_ip",
            AuditAction::UnblockIp => "unblock_ip",
            AuditAction::AllowCidr => "allow_cidr",
            AuditAction::DisallowCidr => "disallow_cidr",
            AuditAction::ReloadConfig => "reload_config",
            AuditAction::PatchConfig => "patch_config",
            AuditAction::Start => "start",
            AuditAction::Stop => "stop",
            AuditAction::Login => "login",
            AuditAction::ResetToken => "reset_token",
        }
    }
}

/// An entry of the audit log. What it is about is JSON text.
#[derive(Clone, Debug)]
pub struct AuditEntry {
    pub timestamp: String,
    pub actor: String,
    pub action: AuditAction,
    pub detail: String,
    pub source_ip: Option<String>,
}

impl AuditEntry {
    /// A copy of an entry.
    pub fn copy(&self) -> (r: AuditEntry)
        ensures
            r == *self,
    {
        AuditEntry {
            timestamp: self.timestamp.clone(),
            actor: self.actor.clone(),
            action: self.action,
            detail: self.detail.clone(),
            source_ip: match &self.source_ip {
                Some(s) => Some(s.clone()),
                None => None,
            },
        }
    }
}

/// An audit log in memory, the newest entry last.
pub struct MemoryAuditBackend {
    pub entries: VecDeque<AuditEntry>,
    pub max_entries: usize,
}

impl MemoryAuditBackend {
    pub fn new(max_entries: usize) -> (r: Self)
        ensures
            r.entries@.len() == 0,
            r.max_entries == max_entries,
    {
        MemoryAuditBackend { entries: VecDeque::new(), max_entries }
    }

    /// Adds an entry; the oldest go beyond the number that is kept.
    pub fn append(&mut self, entry: AuditEntry)
        ensures
            final(self).entries@ == last_of(
                old(self).entries@.push(entry),
                old(self).max_entries as nat,
            ),
            final(self).max_entries == old(self).max_entries,
    {
        self.entries.push_back(entry);
        let ghost all = self.entries@;
        assert(all.skip(0) =~= all);
        let ghost gone: int = 0;
        while self.entries.len() > self.max_entries
            invariant
                0 <= gone <= all.len(),
                self.entries@ == all.skip(gone),
                gone > 0 ==> self.entries@.len() >= self.max_entries,
                self.max_entries == old(self).max_entries,
            decreases self.entries@.len(),
        {
            let _e: Option<AuditEntry> = self.entries.pop_front();
            proof {
                gone = gone + 1;
            }
            assert(self.entries@ =~= all.skip(gone));
        }
        assert(self.entries@ =~= last_of(all, self.max_entries as nat));
    }

    /// The latest entries, the newest last.
    pub fn list(&self, limit: usize) -> (r: Vec<AuditEntry>)
        ensures
            r@ == last_of(self.entries@, limit as nat),
    {
        let n: usize = self.entries.len();
        let start: usize = if n > limit {
            n - limit
        } else {
            0
        };
        let mut out: Vec<AuditEntry> = Vec::new();
        for i in start..n
            invariant
                n == self.entries@.len(),
                start <= n,
                out@ == self.entries@.subrange(start as int, i as int),
        {
            out.push(self.entries[i].copy());
            assert(out@ =~= self.entries@.subrange(start as int, i + 1));
        }
        assert(out@ =~= last_of(self.entries@, limit as nat));
        out
    }
}

/// Reading a log file from its end, stretch by stretch, until it shows enough lines.
pub struct TailReader {
    /// Where the stretches that were read start.
    pub pos: u64,
    /// How many line ends they hold.
    pub newlines: usize,
    pub limit: usize,
}

/// How much of a log file is read at once.
pub const CHUNK: u64 = 65536;

/// How many line ends octets hold.
pub open spec fn line_ends(o: Seq<u8>) -> nat
    decreases o.len(),
{
    if o.len() == 0 {
        0
    } else {
        line_ends(o.drop_last()) + if o.last() == 10 {
            1nat
        } else {
            0nat
        }
    }
}

fn count_line_ends(o: &[u8]) -> (r: usize)
    ensures
        r == line_ends(o@),
        r <= o@.len(),
{
    let mut n: usize = 0;
    for i in 0..o.len()
        invariant
            n == line_ends(o@.take(i as int)),
            n <= i,
    {
        assert(o@.take(i + 1).drop_last() =~= o@.take(i as int));
        assert(o@.take(i + 1).last() == o@[i as int]);
        if o[i] == 10 {
            n = n + 1;
        }
    }
    assert(o@.take(o@.len() as int) =~= o@);
    n
}

impl TailReader {
    /// Starts at the end of a file.
    pub fn new(file_len: u64, limit: usize) -> (r: Self)
        ensures
            r.pos == file_len,
            r.newlines == 0,
            r.limit == limit,
    {
        TailReader { pos: file_len, newlines: 0, limit }
    }

    /// More has to be read.
    pub open spec fn wants_more(&self) -> bool {
        self.pos > 0 && self.newlines <= self.limit
    }

    /// Where the next stretch starts and how long it is, where one is wanted.
    pub fn next_chunk(&mut self) -> (r: Option<(u64, u64)>)
        ensures
            match r {
                Some(c) => old(self).wants_more() && c.1 == (if old(self).pos < CHUNK {
                    old(self).pos
                } else {
                    CHUNK
                }) && c.0 == old(self).pos - c.1 && final(self).pos == c.0,
                None => !old(self).wants_more() && final(self).pos == old(self).pos,
            },
            final(self).newlines == old(self).newlines,
            final(self).limit == old(self).limit,
    {
        if self.pos == 0 || self.newlines > self.limit {
            return None;
        }
        let len: u64 = if self.pos < CHUNK {
            self.pos
        } else {
            CHUNK
        };
        self.pos = self.pos - len;
        Some((self.pos, len))
    }

    /// The stretch was read.
    pub fn take_chunk(&mut self, data: &[u8])
        ensures
            final(self).newlines == if old(self).newlines + line_ends(data@) > usize::MAX {
                usize::MAX as int
            } else {
                old(self).newlines + line_ends(data@)
            },
            final(self).pos == old(self).pos,
            final(self).limit == old(self).limit,
    {
        self.newlines = self.newlines.saturating_add(count_line_ends(data));
    }
}

/// What stands behind the last line end.
pub open spec fn open_line(o: Seq<u8>) -> Seq<u8>
    decreases o.len(),
{
    if o.len() == 0 || o.last() == 10 {
        Seq::empty()
    } else {
        open_line(o.drop_last()).push(o.last())
    }
}

/// The lines that a line end closes, without it.
pub open spec fn closed_lines(o: Seq<u8>) -> Seq<Seq<u8>>
    decreases o.len(),
{
    if o.len() == 0 {
        Seq::empty()
    } else if o.last() == 10 {
        closed_lines(o.drop_last()).push(open_line(o.drop_last()))
    } else {
        closed_lines(o.drop_last())
    }
}

/// The lines of a file; the last may end without a line end.
pub open spec fn file_lines(o: Seq<u8>) -> Seq<Seq<u8>> {
    if open_line(o).len() > 0 {
        closed_lines(o).push(open_line(o))
    } else {
        closed_lines(o)
    }
}

proof fn lemma_line_ends(a: Seq<u8>, b: Seq<u8>)
    ensures
        line_ends(a + b) == line_ends(a) + line_ends(b),
        closed_lines(b).len() == line_ends(b),
    decreases b.len(),
{
    if b.len() == 0 {
        assert(a + b =~= a);
    } else {
        assert((a + b).drop_last() =~= a + b.drop_last());
        lemma_line_ends(a, b.drop_last());
    }
}

/// What octets before others do to their lines: nothing but to the first.
proof fn lemma_lines_behind(a: Seq<u8>, b: Seq<u8>)
    ensures
        line_ends(b) == 0 ==> closed_lines(a + b) == closed_lines(a) && open_line(a + b)
            == open_line(a) + b && open_line(b) == b,
        line_ends(b) > 0 ==> open_line(a + b) == open_line(b) && closed_lines(a + b)
            == closed_lines(a) + seq![open_line(a) + closed_lines(b)[0]] + closed_lines(b).skip(1),
    decreases b.len(),
{
    lemma_line_ends(a, b);
    if b.len() == 0 {
        assert(a + b =~= a);
        assert(open_line(a) + b =~= open_line(a));
        assert(open_line(b) =~= b);
    } else {
        let f: Seq<u8> = b.drop_last();
        assert((a + b).drop_last() =~= a + f);
        lemma_lines_behind(a, f);
        lemma_line_ends(a, f);
        if line_ends(f) == 0 {
            if b.last() == 10 {
                assert(closed_lines(f).len() == 0);
                assert(closed_lines(b) =~= seq![f]);
                assert(closed_lines(a + b) =~= closed_lines(a) + seq![open_line(a) + f]
                    + closed_lines(b).skip(1));
            } else {
                assert(open_line(a) + b =~= (open_line(a) + f).push(b.last()));
                assert(b =~= f.push(b.last()));
            }
        } else if b.last() == 10 {
            assert(closed_lines(b).skip(1) =~= closed_lines(f).skip(1).push(open_line(f)));
            assert(closed_lines(a + b) =~= closed_lines(a) + seq![
                open_line(a) + closed_lines(b)[0],
            ] + closed_lines(b).skip(1));
        }
    }
}

impl TailReader {
    /// The count is that of the part of the file that was read.
    pub open spec fn accounts_for(&self, file: Seq<u8>) -> bool {
        &&& self.pos <= file.len()
        &&& self.newlines == if line_ends(file.skip(self.pos as int)) > usize::MAX {
            usize::MAX as int
        } else {
            line_ends(file.skip(self.pos as int)) as int
        }
    }
}

/// A reader at the end of a file accounts for what it read, and still does after the next
/// stretch of the file was read.
pub proof fn law_tail_reading_keeps_account(file: Seq<u8>, a: TailReader, b: TailReader)
    requires
        a.accounts_for(file) || a.pos == file.len() && a.newlines == 0,
        b.pos <= a.pos,
        b.newlines == if a.newlines + line_ends(file.subrange(b.pos as int, a.pos as int))
            > usize::MAX {
            usize::MAX as int
        } else {
            a.newlines + line_ends(file.subrange(b.pos as int, a.pos as int))
        },
    ensures
        a.accounts_for(file),
        b.accounts_for(file),
{
    if a.pos == file.len() {
        assert(file.skip(a.pos as int).len() == 0);
    }
    let read: Seq<u8> = file.subrange(b.pos as int, a.pos as int);
    assert(file.skip(b.pos as int) =~= read + file.skip(a.pos as int));
    lemma_line_ends(read, file.skip(a.pos as int));
}

/// When no more is wanted of a file, the part that was read holds its last lines, as many
/// as were asked for.
pub proof fn law_tail_holds_the_last_lines(file: Seq<u8>, r: TailReader)
    requires
        r.accounts_for(file),
        !r.wants_more(),
    ensures
        last_of(file_lines(file.skip(r.pos as int)), r.limit as nat) == last_of(
            file_lines(file),
            r.limit as nat,
        ),
{
    let a: Seq<u8> = file.take(r.pos as int);
    let b: Seq<u8> = file.skip(r.pos as int);
    let n: nat = r.limit as nat;
    assert(file =~= a + b);
    if r.pos == 0 {
        assert(b =~= file);
    } else {
        lemma_line_ends(a, b);
        lemma_lines_behind(a, b);
        let all: Seq<Seq<u8>> = file_lines(file);
        let read: Seq<Seq<u8>> = file_lines(b);
        assert(all.len() >= read.len());
        assert forall|i: int| 1 <= i < read.len() implies #[trigger] read[i] == all[all.len()
            - read.len() + i] by {
            if i < closed_lines(b).len() {
                assert(closed_lines(b)[i] == closed_lines(b).skip(1)[i - 1]);
            }
        }
        assert(read.len() > n);
        assert(last_of(read, n) =~= last_of(all, n)) by {
            assert forall|i: int| 0 <= i < n implies last_of(read, n)[i] == last_of(all, n)[i] by {
                assert(read[read.len() - n + i] == all[all.len() - n + i]);
            }
        }
    }
}

/// The lines of a text that hold anything, without the blanks around them.
pub open spec fn filled_lines(list: Seq<Seq<char>>) -> Seq<Seq<char>>
    decreases list.len(),
{
    if list.len() == 0 {
        list
    } else {
        let front: Seq<Seq<char>> = filled_lines(list.drop_last());
        let line: Seq<char> = trimmed(list.last());
        if line.len() == 0 {
            front
        } else {
            front.push(line)
        }
    }
}

/// The lines of the end of a log file that hold anything.
pub fn log_lines(data: &[u8]) -> (r: Vec<String>)
    ensures
        texts(r@) == filled_lines(lines_of(lossy_text(data@))),
{
    let text: String = from_utf8_lossy(data);
    let all: Vec<Vec<char>> = lines(&chars_of(text.as_str()));
    let ghost list = views(all@);
    let mut out: Vec<String> = Vec::new();
    assert(texts(out@) =~= filled_lines(list.take(0)));
    for i in 0..all.len()
        invariant
            list == views(all@),
            texts(out@) == filled_lines(list.take(i as int)),
    {
        let ghost before = texts(out@);
        assert(list.take(i + 1).drop_last() =~= list.take(i as int));
        assert(list.take(i + 1).last() == all@[i as int]@);
        let line: Vec<char> = trim(&all[i]);
        if line.len() > 0 {
            out.push(text_of(&line));
            assert(texts(out@) =~= before.push(line@));
        }
    }
    assert(list.take(all@.len() as int) =~= list);
    out
}

/// The entries among what lines were read as, in order.
pub open spec fn entries_in(parsed: Seq<Option<AuditEntry>>) -> Seq<AuditEntry>
    decreases parsed.len(),
{
    if parsed.len() == 0 {
        Seq::empty()
    } else {
        match parsed.last() {
            Some(e) => entries_in(parsed.drop_last()).push(e),
            None => entries_in(parsed.drop_last()),
        }
    }
}

/// The latest entries among what the lines of a log file were read as; lines that are no
/// entry do not count.
pub fn list_tail(parsed: Vec<Option<AuditEntry>>, limit: usize) -> (r: Vec<AuditEntry>)
    ensures
        r@ == last_of(entries_in(parsed@), limit as nat),
{
    let mut all: Vec<AuditEntry> = Vec::new();
    for i in 0..parsed.len()
        invariant
            all@ == entries_in(parsed@.take(i as int)),
    {
        assert(parsed@.take(i + 1).drop_last() =~= parsed@.take(i as int));
        assert(parsed@.take(i + 1).last() == parsed@[i as int]);
        if let Some(e) = &parsed[i] {
            all.push(e.copy());
        }
    }
    assert(parsed@.take(parsed@.len() as int) =~= parsed@);
    let n: usize = all.len();
    if n > limit {
        let rest: Vec<AuditEntry> = all.split_off(n - limit);
        assert(rest@ =~= last_of(entries_in(parsed@), limit as nat));
        rest
    } else {
        all
    }
}

/// The log file is to be put aside: it has grown beyond its size. No size is no limit, and
/// a file that is not there has not grown.
pub fn rotation_due(max_size: u64, file_len: Option<u64>) -> (r: bool)
    ensures
        r == (max_size != 0 && file_len is Some && file_len->0 > max_size),
{
    if max_size == 0 {
        return false;
    }
    match file_len {
        Some(n) => n > max_size,
        None => false,
    }
}

/// How large a log file may grow, given megabytes.
pub fn max_file_size(mb: u64) -> (r: u64)
    ensures
        r == if mb * 1048576 > u64::MAX {
            u64::MAX
        } else {
            (mb * 1048576) as u64
        },
{
    match mb.checked_mul(1048576) {
        Some(n) => n,
        None => u64::MAX,
    }
}

/// The renamings that put a log file aside: backup `i` becomes backup `i + 1`, the oldest
/// first, and the log itself, as 0, becomes backup 1. `present[i]` tells of backup `i + 1`.
pub open spec fn renamings(present: Seq<bool>, i: int) -> Seq<(u32, u32)>
    decreases i,
{
    if i <= 0 {
        seq![(0u32, 1u32)]
    } else if present[i - 1] {
        seq![(i as u32, (i + 1) as u32)] + renamings(present, i - 1)
    } else {
        renamings(present, i - 1)
    }
}

/// How many backups of a log file are kept.
pub const MAX_BACKUPS: usize = 3;

/// The renamings that put a log file aside, given which of the first backups are there.
pub fn rotation(present: &[bool; 2]) -> (r: Vec<(u32, u32)>)
    ensures
        r@ == renamings(present@, 2),
{
    let mut out: Vec<(u32, u32)> = Vec::new();
    if present[1] {
        out.push((2, 3));
    }
    if present[0] {
        out.push((1, 2));
    }
    out.push((0, 1));
    proof {
        reveal_with_fuel(renamings, 3);
        assert(out@ =~= renamings(present@, 2));
    }
    out
}

/// No renaming overwrites a backup but the oldest: whatever a renaming makes place for was
/// moved on before.
pub proof fn law_rotation_loses_only_the_oldest(present: Seq<bool>, k: int)
    requires
        present.len() == 2,
        0 <= k < renamings(present, 2).len(),
        renamings(present, 2)[k].1 <= 2,
        present[renamings(present, 2)[k].1 - 1],
    ensures
        exists|j: int|
            0 <= j < k && (#[trigger] renamings(present, 2)[j]).0 == renamings(present, 2)[k].1,
{
    reveal_with_fuel(renamings, 3);
    let r: Seq<(u32, u32)> = renamings(present, 2);
    if present[1] && present[0] {
        assert(r =~= seq![(2u32, 3u32), (1u32, 2u32), (0u32, 1u32)]);
        assert(r[0].0 == 2 && r[1].0 == 1);
    } else if present[1] {
        assert(r =~= seq![(2u32, 3u32), (0u32, 1u32)]);
    } else if present[0] {
        assert(r =~= seq![(1u32, 2u32), (0u32, 1u32)]);
        assert(r[0].0 == 1);
    } else {
        assert(r =~= seq![(0u32, 1u32)]);
    }
}

/// Which entries to show.
#[derive(Clone, Debug, Default)]
pub struct AuditQuery {
    pub limit: usize,
    pub offset: usize,
    pub filter: Option<String>,
    pub ip: Option<String>,
    pub action: Option<String>,
    pub from: Option<String>,
    pub to: Option<String>,
}

/// The text comes before another in the order of their characters.
pub open spec fn before(a: Seq<char>, b: Seq<char>) -> bool
    decreases a.len(),
{
    if b.len() == 0 {
        false
    } else if a.len() == 0 {
        true
    } else if a[0] != b[0] {
        a[0] < b[0]
    } else {
        before(a.skip(1), b.skip(1))
    }
}

fn comes_before(a: &str, b: &str) -> (r: bool)
    ensures
        r == before(a@, b@),
{
    let x: Vec<char> = chars_of(a);
    let y: Vec<char> = chars_of(b);
    let mut i: usize = 0;
    assert(x@.skip(0) =~= x@);
    assert(y@.skip(0) =~= y@);
    while i < x.len() && i < y.len()
        invariant
            x@ == a@,
            y@ == b@,
            i <= x@.len(),
            i <= y@.len(),
            before(a@, b@) == before(x@.skip(i as int), y@.skip(i as int)),
        decreases x@.len() - i,
    {
        let ghost p = x@.skip(i as int);
        let ghost q = y@.skip(i as int);
        assert(p[0] == x@[i as int]);
        assert(q[0] == y@[i as int]);
        if x[i] != y[i] {
            return x[i] < y[i];
        }
        assert(p.skip(1) =~= x@.skip(i + 1));
        assert(q.skip(1) =~= y@.skip(i + 1));
        i = i + 1;
    }
    i < y.len()
}

/// The text in which the general filter looks.
pub open spec fn search_line(e: AuditEntry) -> Seq<char> {
    e.timestamp@ + " "@ + e.actor@ + " \""@ + action_text(e.action) + "\" "@ + e.detail@
}

/// The text in which the address filter looks.
pub open spec fn address_line(e: AuditEntry) -> Seq<char> {
    (match e.source_ip {
        Some(s) => s@,
        None => Seq::empty(),
    }) + " "@ + e.actor@ + " "@ + e.detail@
}

/// Part of a text, whatever the case of the letters.
pub open spec fn part_of(text: Seq<char>, part: Seq<char>) -> bool {
    has_part(lower_text(text), lower_text(part))
}

/// The entry is one that the query asks for.
pub open spec fn selects(q: AuditQuery, e: AuditEntry) -> bool {
    &&& (match q.filter {
        Some(f) => part_of(search_line(e), f@),
        None => true,
    })
    &&& (match q.ip {
        Some(ip) => part_of(address_line(e), ip@),
        None => true,
    })
    &&& (match q.action {
        Some(a) => lower_text(action_text(e.action)) == lower_text(a@),
        None => true,
    })
    &&& (match q.from {
        Some(t) => !before(e.timestamp@, t@),
        None => true,
    })
    &&& (match q.to {
        Some(t) => !before(t@, e.timestamp@),
        None => true,
    })
}

fn holds_part(text: &str, part: &str) -> (r: bool)
    ensures
        r == part_of(text@, part@),
{
    contains(to_lower(text).as_str(), to_lower(part).as_str())
}

fn entry_selected(q: &AuditQuery, e: &AuditEntry) -> (r: bool)
    ensures
        r == selects(*q, *e),
{
    if let Some(f) = &q.filter {
        let mut line: String = String::new();
        line.append(e.timestamp.as_str());
        line.append(" ");
        line.append(e.actor.as_str());
        line.append(" \"");
        line.append(e.action.name());
        line.append("\" ");
        line.append(e.detail.as_str());
        assert(line@ =~= search_line(*e));
        if !holds_part(line.as_str(), f.as_str()) {
            return false;
        }
    }
    if let Some(ip) = &q.ip {
        let mut line: String = String::new();
        if let Some(s) = &e.source_ip {
            line.append(s.as_str());
        }
        line.append(" ");
        line.append(e.actor.as_str());
        line.append(" ");
        line.append(e.detail.as_str());
        assert(line@ =~= address_line(*e));
        if !holds_part(line.as_str(), ip.as_str()) {
            return false;
        }
    }
    if let Some(a) = &q.action {
        if !same_text(to_lower(e.action.name()).as_str(), to_lower(a.as_str()).as_str()) {
            return false;
        }
    }
    if let Some(t) = &q.from {
        if comes_before(e.timestamp.as_str(), t.as_str()) {
            return false;
        }
    }
    if let Some(t) = &q.to {
        if comes_before(t.as_str(), e.timestamp.as_str()) {
            return false;
        }
    }
    true
}

/// The entries that a query asks for, in order.
pub open spec fn selected(q: AuditQuery, entries: Seq<AuditEntry>) -> Seq<AuditEntry>
    decreases entries.len(),
{
    if entries.len() == 0 {
        entries
    } else if selects(q, entries.last()) {
        selected(q, entries.drop_last()).push(entries.last())
    } else {
        selected(q, entries.drop_last())
    }
}

/// A page of a list: it starts after `offset` items and holds `limit` at most.
pub open spec fn page<T>(s: Seq<T>, offset: nat, limit: nat) -> Seq<T> {
    let rest: Seq<T> = if offset >= s.len() {
        Seq::empty()
    } else {
        s.skip(offset as int)
    };
    if rest.len() <= limit {
        rest
    } else {
        rest.take(limit as int)
    }
}

/// A page of the entries that a query asks for, the newest first, and how many there are.
pub fn audit_page(entries: &Vec<AuditEntry>, q: &AuditQuery) -> (r: (Vec<AuditEntry>, usize))
    ensures
        r.0@ == page(selected(*q, entries@).reverse(), q.offset as nat, q.limit as nat),
        r.1 == selected(*q, entries@).len(),
{
    let mut found: Vec<usize> = Vec::new();
    let ghost all = selected(*q, entries@);
    for i in 0..entries.len()
        invariant
            forall|j: int| 0 <= j < found@.len() ==> (#[trigger] found@[j]) < entries@.len(),
            selected(*q, entries@.take(i as int)) == found@.map_values(
                |j: usize| entries@[j as int],
            ),
    {
        let ghost f = |j: usize| entries@[j as int];
        let ghost before = found@.map_values(f);
        assert(entries@.take(i + 1).drop_last() =~= entries@.take(i as int));
        assert(entries@.take(i + 1).last() == entries@[i as int]);
        if entry_selected(q, &entries[i]) {
            found.push(i);
            assert(found@.map_values(f) =~= before.push(entries@[i as int]));
        }
    }
    assert(entries@.take(entries@.len() as int) =~= entries@);
    let n: usize = found.len();
    assert(all.len() == n);
    let left: usize = if q.offset >= n {
        0
    } else {
        n - q.offset
    };
    let count: usize = if left <= q.limit {
        left
    } else {
        q.limit
    };
    let mut out: Vec<AuditEntry> = Vec::new();
    for k in 0..count
        invariant
            n == found@.len(),
            count <= left,
            left == if q.offset >= n {
                0int
            } else {
                n - q.offset
            },
            all == found@.map_values(|j: usize| entries@[j as int]),
            forall|j: int| 0 <= j < found@.len() ==> (#[trigger] found@[j]) < entries@.len(),
            out@.len() == k,
            forall|j: int| 0 <= j < k ==> out@[j] == all[n - 1 - q.offset - j],
    {
        let at: usize = n - 1 - q.offset - k;
        assert(all[at as int] == entries@[found@[at as int] as int]);
        out.push(entries[found[at]].copy());
    }
    assert(out@ =~= page(all.reverse(), q.offset as nat, q.limit as nat));
    (out, n)
}

/// Pages that follow each other show everything that a query asks for, once.
pub proof fn law_pages_join<T>(s: Seq<T>, offset: nat, limit: nat)
    requires
        offset + limit <= s.len(),
    ensures
        page(s, offset, limit) + page(s, offset + limit, s.len()) == page(s, offset, s.len()),
{
    assert(page(s, offset, limit) + page(s, offset + limit, s.len()) =~= page(s, offset, s.len()));
}

/// A log in memory shows what was added last, as far as it keeps it.
pub proof fn law_log_shows_what_was_added(entries: Seq<AuditEntry>, e: AuditEntry, max: nat, limit: nat)
    requires
        max > 0,
        limit > 0,
    ensures
        last_of(last_of(entries.push(e), max), limit).last() == e,
        last_of(entries.push(e), max).len() <= max,
{
}

} // verus!
