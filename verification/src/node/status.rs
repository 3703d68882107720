//! What the command line shows of a running node.

use crate::node::attackers::Attacker;
use crate::rank::first_of;
use crate::text::dec;
use crate::text::push_dec;
use vstd::prelude::*;

verus! {

/// The figures that the command line shows.
#[derive(Clone, Debug)]
pub struct StatusFigures {
    pub total_dropped: u64,
    pub blacklist_blocked: u64,
    pub rate_limited: u64,
    pub syn_flood_blocked: u64,
    pub l7_blocked: u64,
    pub adaptive_blocked: u64,
    pub udp_flood_blocked: u64,
    pub icmp_flood_blocked: u64,
    pub top_attackers: Vec<Attacker>,
}

/// How many sources the command line lists.
pub const MAX_LISTED: usize = 10;

/// A line with a label and a number.
pub open spec fn figure_line(label: Seq<char>, n: u64) -> Seq<char> {
    label + ": "@ + dec(n as nat) + "\n"@
}

/// A line for each source.
pub open spec fn source_lines(list: Seq<Attacker>) -> Seq<char>
    decreases list.len(),
{
    if list.len() == 0 {
        Seq::empty()
    } else {
        source_lines(list.drop_last()) + "  "@ + list.last().ip@ + " -> "@ + dec(
            list.last().count as nat,
        ) + " 包\n"@
    }
}

/// The lines of the numbers.
pub open spec fn figure_lines(f: StatusFigures) -> Seq<char> {
    figure_line("总丢弃包数"@, f.total_dropped) + figure_line("黑名单拦截"@, f.blacklist_blocked)
        + figure_line("速率限制拦截"@, f.rate_limited) + figure_line(
        "SYN Flood 拦截"@,
        f.syn_flood_blocked,
    ) + figure_line("L7 指纹拦截"@, f.l7_blocked) + figure_line(
        "自适应阈值拦截"@,
        f.adaptive_blocked,
    ) + figure_line("UDP Flood 拦截"@, f.udp_flood_blocked) + figure_line(
        "ICMP Flood 拦截"@,
        f.icmp_flood_blocked,
    )
}

/// What is shown: the numbers, then the first sources where there are any.
pub open spec fn status_lines(f: StatusFigures) -> Seq<char> {
    "eShield 运行状态\n----------------\n"@ + figure_lines(f) + if f.top_attackers@.len() == 0 {
        Seq::empty()
    } else {
        "\nTOP 攻击源:\n"@ + source_lines(first_of(f.top_attackers@, MAX_LISTED as nat))
    }
}

fn push_figure(out: &mut String, label: &str, n: u64)
    ensures
        final(out)@ == old(out)@ + figure_line(label@, n),
{
    out.append(label);
    out.append(": ");
    push_dec(out, n);
    out.append("\n");
    assert(out@ =~= old(out)@ + figure_line(label@, n));
}

fn push_figures(out: &mut String, f: &StatusFigures)
    ensures
        final(out)@ == old(out)@ + figure_lines(*f),
{
    push_figure(out, "总丢弃包数", f.total_dropped);
    push_figure(out, "黑名单拦截", f.blacklist_blocked);
    push_figure(out, "速率限制拦截", f.rate_limited);
    push_figure(out, "SYN Flood 拦截", f.syn_flood_blocked);
    push_figure(out, "L7 指纹拦截", f.l7_blocked);
    push_figure(out, "自适应阈值拦截", f.adaptive_blocked);
    push_figure(out, "UDP Flood 拦截", f.udp_flood_blocked);
    push_figure(out, "ICMP Flood 拦截", f.icmp_flood_blocked);
    assert(out@ =~= old(out)@ + figure_lines(*f));
}

fn push_sources(out: &mut String, list: &Vec<Attacker>, n: usize)
    requires
        n <= list@.len(),
    ensures
        final(out)@ == old(out)@ + source_lines(list@.take(n as int)),
{
    let ghost start = out@;
    assert(out@ =~= start + source_lines(list@.take(0)));
    for i in 0..n
        invariant
            n <= list@.len(),
            out@ == start + source_lines(list@.take(i as int)),
    {
        assert(list@.take(i + 1).drop_last() =~= list@.take(i as int));
        assert(list@.take(i + 1).last() == list@[i as int]);
        out.append("  ");
        out.append(list[i].ip.as_str());
        out.append(" -> ");
        push_dec(out, list[i].count);
        out.append(" 包\n");
        assert(out@ =~= start + source_lines(list@.take(i + 1)));
    }
}

/// What the command line shows of a running node.
pub fn status_text(f: &StatusFigures) -> (r: String)
    ensures
        r@ == status_lines(*f),
{
    let mut out: String = String::from_str("eShield 运行状态\n----------------\n");
    push_figures(&mut out, f);
    let n: usize = if f.top_attackers.len() < MAX_LISTED {
        f.top_attackers.len()
    } else {
        MAX_LISTED
    };
    if n > 0 {
        out.append("\nTOP 攻击源:\n");
        push_sources(&mut out, &f.top_attackers, n);
        assert(f.top_attackers@.take(n as int) =~= first_of(f.top_attackers@, MAX_LISTED as nat));
    }
    assert(out@ =~= status_lines(*f));
    out
}

} // verus!
