//! The load of the machine, and how much stricter it makes the node.

use crate::node::timeseries::growth;
use crate::text::chars_of;
use crate::text::has_prefix;
use crate::text::lines;
use crate::text::lines_of;
use crate::text::parse_uint;
use crate::text::starts_with;
use crate::text::text_of;
use crate::text::uint_value;
use crate::text::views;
use crate::text::words;
use crate::text::words_of;
use vstd::prelude::*;

verus! {

/// The numbers among words.
pub open spec fn numbers_in(list: Seq<Seq<char>>) -> Seq<u64>
    decreases list.len(),
{
    if list.len() == 0 {
        Seq::empty()
    } else {
        let front: Seq<u64> = numbers_in(list.drop_last());
        match uint_value(list.last(), u64::MAX as nat) {
            Some(n) => front.push(n as u64),
            None => front,
        }
    }
}

/// The sum of numbers. It wraps.
pub open spec fn sum_of(v: Seq<u64>) -> u64
    decreases v.len(),
{
    if v.len() == 0 {
        0
    } else {
        sum_of(v.drop_last()).wrapping_add(v.last())
    }
}

/// The first line that starts with `p`.
pub open spec fn line_with(list: Seq<Seq<char>>, p: Seq<char>) -> Option<Seq<char>>
    decreases list.len(),
{
    if list.len() == 0 {
        None
    } else if starts_with(list[0], p) {
        Some(list[0])
    } else {
        line_with(list.skip(1), p)
    }
}

/// The times of all processors in the kernel's statistics: idle and in all. The fourth
/// number of the line is the idle time.
pub open spec fn cpu_times(text: Seq<char>) -> Option<(u64, u64)> {
    match line_with(lines_of(text), "cpu "@) {
        None => None,
        Some(line) => {
            let w: Seq<Seq<char>> = words_of(line);
            let n: Seq<u64> = numbers_in(
                if w.len() == 0 {
                    w
                } else {
                    w.skip(1)
                },
            );
            if n.len() < 4 {
                None
            } else {
                Some((n[3], sum_of(n)))
            }
        },
    }
}

fn find_line(list: &Vec<Vec<char>>, p: &str) -> (r: Option<usize>)
    ensures
        match r {
            Some(i) => i < list@.len() && line_with(views(list@), p@) == Some(list@[i as int]@),
            None => line_with(views(list@), p@) is None,
        },
{
    let ghost all = views(list@);
    assert(all.skip(0) =~= all);
    for i in 0..list.len()
        invariant
            all == views(list@),
            line_with(all, p@) == line_with(all.skip(i as int), p@),
    {
        let ghost rest = all.skip(i as int);
        assert(rest[0] == list@[i as int]@);
        assert(rest.skip(1) =~= all.skip(i + 1));
        if has_prefix(text_of(&list[i]).as_str(), p) {
            return Some(i);
        }
    }
    None
}

fn read_numbers(list: &Vec<Vec<char>>, from: usize) -> (r: Vec<u64>)
    requires
        from <= list@.len(),
    ensures
        r@ == numbers_in(views(list@).skip(from as int)),
{
    let ghost all = views(list@).skip(from as int);
    let mut out: Vec<u64> = Vec::new();
    assert(out@ =~= numbers_in(all.take(0)));
    for i in from..list.len()
        invariant
            from <= list@.len(),
            all == views(list@).skip(from as int),
            out@ == numbers_in(all.take(i - from)),
    {
        assert(all.take(i + 1 - from).drop_last() =~= all.take(i - from));
        assert(all.take(i + 1 - from).last() == list@[i as int]@);
        if let Some(n) = parse_uint(&list[i], u64::MAX) {
            out.push(n);
        }
    }
    assert(all.take(list@.len() - from) =~= all);
    out
}

fn add_up(v: &Vec<u64>) -> (r: u64)
    ensures
        r == sum_of(v@),
{
    let mut sum: u64 = 0;
    for i in 0..v.len()
        invariant
            sum == sum_of(v@.take(i as int)),
    {
        assert(v@.take(i + 1).drop_last() =~= v@.take(i as int));
        assert(v@.take(i + 1).last() == v@[i as int]);
        sum = sum.wrapping_add(v[i]);
    }
    assert(v@.take(v@.len() as int) =~= v@);
    sum
}

/// The times of all processors in the kernel's statistics: idle and in all.
pub fn read_cpu_times(text: &str) -> (r: Option<(u64, u64)>)
    ensures
        r == cpu_times(text@),
{
    let all: Vec<Vec<char>> = lines(&chars_of(text));
    match find_line(&all, "cpu ") {
        None => None,
        Some(i) => {
            let w: Vec<Vec<char>> = words(&all[i]);
            let from: usize = if w.len() == 0 {
                0
            } else {
                1
            };
            assert(views(w@).skip(0) =~= views(w@));
            let n: Vec<u64> = read_numbers(&w, from);
            if n.len() < 4 {
                None
            } else {
                Some((n[3], add_up(&n)))
            }
        },
    }
}

/// The processor times at the last look.
pub struct CpuMeter {
    pub prev_idle: u64,
    pub prev_total: u64,
}

/// The second word of a line as a number; 0 where it is none.
pub open spec fn second_number(line: Seq<char>) -> u64 {
    let w: Seq<Seq<char>> = words_of(line);
    if w.len() < 2 {
        0
    } else {
        match uint_value(w[1], u64::MAX as nat) {
            Some(n) => n as u64,
            None => 0,
        }
    }
}

/// The memory in the kernel's statistics: in all and available. The last line of each kind
/// counts.
pub open spec fn memory_of(list: Seq<Seq<char>>) -> (u64, u64)
    decreases list.len(),
{
    if list.len() == 0 {
        (0, 0)
    } else {
        let front: (u64, u64) = memory_of(list.drop_last());
        if starts_with(list.last(), "MemTotal:"@) {
            (second_number(list.last()), front.1)
        } else if starts_with(list.last(), "MemAvailable:"@) {
            (front.0, second_number(list.last()))
        } else {
            front
        }
    }
}

fn read_second(line: &Vec<char>) -> (r: u64)
    ensures
        r == second_number(line@),
{
    let w: Vec<Vec<char>> = words(line);
    if w.len() < 2 {
        return 0;
    }
    match parse_uint(&w[1], u64::MAX) {
        Some(n) => n,
        None => 0,
    }
}

/// The memory in the kernel's statistics: used and in all. Nothing where none is told of.
pub fn read_memory(text: &str) -> (r: Option<(u64, u64)>)
    ensures
        ({
            let m: (u64, u64) = memory_of(lines_of(text@));
            r == if m.0 == 0 {
                None
            } else {
                Some((growth(m.0, m.1), m.0))
            }
        }),
{
    let all: Vec<Vec<char>> = lines(&chars_of(text));
    let ghost list = views(all@);
    let mut total: u64 = 0;
    let mut available: u64 = 0;
    for i in 0..all.len()
        invariant
            list == views(all@),
            (total, available) == memory_of(list.take(i as int)),
    {
        assert(list.take(i + 1).drop_last() =~= list.take(i as int));
        assert(list.take(i + 1).last() == all@[i as int]@);
        let line: String = text_of(&all[i]);
        if has_prefix(line.as_str(), "MemTotal:") {
            total = read_second(&all[i]);
        } else if has_prefix(line.as_str(), "MemAvailable:") {
            available = read_second(&all[i]);
        }
    }
    assert(list.take(all@.len() as int) =~= list);
    if total == 0 {
        None
    } else {
        Some((total.saturating_sub(available), total))
    }
}

impl CpuMeter {
    pub fn new() -> (r: Self)
        ensures
            r.prev_idle == 0,
            r.prev_total == 0,
    {
        CpuMeter { prev_idle: 0, prev_total: 0 }
    }

    /// How much time went by since the last look: idle and in all. Nothing at the first
    /// look, where no time went by, or where the statistics cannot be read.
    pub fn look(&mut self, text: &str) -> (r: Option<(u64, u64)>)
        ensures
            match cpu_times(text@) {
                None => r is None && *final(self) == *old(self),
                Some(t) => final(self).prev_idle == t.0 && final(self).prev_total == t.1 && r
                    == if old(self).prev_total == 0 || growth(t.1, old(self).prev_total) == 0 {
                    None
                } else {
                    Some((growth(t.0, old(self).prev_idle), growth(t.1, old(self).prev_total)))
                },
            },
    {
        match read_cpu_times(text) {
            None => None,
            Some(t) => {
                let idle: u64 = self.prev_idle;
                let total: u64 = self.prev_total;
                self.prev_idle = t.0;
                self.prev_total = t.1;
                let delta: u64 = t.1.saturating_sub(total);
                if total == 0 || delta == 0 {
                    None
                } else {
                    Some((t.0.saturating_sub(idle), delta))
                }
            },
        }
    }
}

/// The danger level: 2 where processors and drops are both out of the ordinary or memory
/// runs out, 1 where one of the first two is, else 0.
pub open spec fn level_of(cpu: bool, memory: bool, drops: bool) -> u8 {
    if cpu && drops || memory {
        2
    } else if cpu || drops {
        1
    } else {
        0
    }
}

/// The danger level.
pub fn danger_level(cpu: bool, memory: bool, drops: bool) -> (r: u8)
    ensures
        r == level_of(cpu, memory, drops),
{
    if (cpu && drops) || memory {
        2
    } else if cpu || drops {
        1
    } else {
        0
    }
}

/// The danger level that is in force.
pub struct DangerState {
    pub level: u8,
}

impl DangerState {
    pub fn new() -> (r: Self)
        ensures
            r.level == 0,
    {
        DangerState { level: 0 }
    }

    /// Takes over a level; the level before is returned where it was another.
    pub fn update(&mut self, level: u8) -> (r: Option<u8>)
        ensures
            final(self).level == level,
            r == if old(self).level == level {
                None
            } else {
                Some(old(self).level)
            },
    {
        let before: u8 = self.level;
        self.level = level;
        if before == level {
            None
        } else {
            Some(before)
        }
    }
}

/// More trouble never makes the node less strict.
pub proof fn law_danger_rises_with_trouble(
    cpu: bool,
    memory: bool,
    drops: bool,
    cpu2: bool,
    memory2: bool,
    drops2: bool,
)
    requires
        cpu ==> cpu2,
        memory ==> memory2,
        drops ==> drops2,
    ensures
        level_of(cpu, memory, drops) <= level_of(cpu2, memory2, drops2),
{
}

} // verus!
