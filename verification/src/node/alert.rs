//! Alerts when more is dropped than a node is meant to take.

use crate::maps::counts_held;
use crate::node::attackers::shows_top;
use crate::node::attackers::top_attackers;
use crate::node::attackers::Attacker;
use crate::node::stats::Stats;
use crate::text::dec;
use crate::text::push_dec;
use crate::text::same_text;
use vstd::prelude::*;
use vstd::string::StringExecFns;

verus! {

/// When to raise an alert, and where to.
#[derive(Clone, Debug, Default)]
pub struct AlertConfig {
    pub webhook_url: Option<String>,
    pub webhook_type: String,
    /// Dropped packets per second from which on an alert is raised.
    pub threshold_dps: u64,
    /// Seconds between two alerts at least.
    pub cooldown_s: u64,
    pub interface: String,
}

pub type AlertAttacker = Attacker;

/// An alert.
#[derive(Clone, Debug)]
pub struct AlertEvent {
    pub timestamp: u64,
    pub interface: String,
    pub alert_type: String,
    pub total_dropped: u64,
    pub dps: u64,
    pub threshold_dps: u64,
    pub cooldown_s: u64,
    pub message: String,
    /// What each rule dropped, by the name of the rule.
    pub rule_breakdown: Vec<(String, u64)>,
    pub top_attackers: Vec<Attacker>,
}

/// The text of an alert.
pub open spec fn message_text(interface: Seq<char>, dps: u64, threshold: u64) -> Seq<char> {
    "eShield ["@ + interface + "] 告警：DROP 速率 "@ + dec(dps as nat) + " pps 超过阈值 "@ + dec(
        threshold as nat,
    ) + " pps"@
}

fn message(interface: &str, dps: u64, threshold: u64) -> (r: String)
    ensures
        r@ == message_text(interface@, dps, threshold),
{
    let mut out: String = String::new();
    out.append("eShield [");
    out.append(interface);
    out.append("] 告警：DROP 速率 ");
    push_dec(&mut out, dps);
    out.append(" pps 超过阈值 ");
    push_dec(&mut out, threshold);
    out.append(" pps");
    assert(out@ =~= message_text(interface@, dps, threshold));
    out
}

/// Names with numbers.
pub open spec fn pairs_view(v: Seq<(String, u64)>) -> Seq<(Seq<char>, u64)> {
    v.map_values(|p: (String, u64)| (p.0@, p.1))
}

/// What each rule dropped.
pub open spec fn rules_of(stats: Stats) -> Seq<(Seq<char>, u64)> {
    seq![
        ("blacklist"@, stats.blacklist_blocked),
        ("rate_limit"@, stats.rate_limited),
        ("syn_flood"@, stats.syn_flood_blocked),
        ("l7"@, stats.l7_blocked),
        ("adaptive"@, stats.adaptive_blocked),
        ("udp_flood"@, stats.udp_flood_blocked),
        ("icmp_flood"@, stats.icmp_flood_blocked),
        ("waf"@, stats.waf_blocked),
        ("geoip"@, stats.geoip_blocked),
        ("challenge"@, stats.challenge_issued),
    ]
}

fn push_rule(out: &mut Vec<(String, u64)>, name: &str, count: u64)
    ensures
        pairs_view(final(out)@) == pairs_view(old(out)@).push((name@, count)),
{
    out.push((name.to_string(), count));
    assert(pairs_view(out@) =~= pairs_view(old(out)@).push((name@, count)));
}

fn rule_breakdown(stats: &Stats) -> (r: Vec<(String, u64)>)
    ensures
        pairs_view(r@) == rules_of(*stats),
{
    let mut out: Vec<(String, u64)> = Vec::new();
    assert(pairs_view(out@) =~= Seq::empty());
    push_rule(&mut out, "blacklist", stats.blacklist_blocked);
    push_rule(&mut out, "rate_limit", stats.rate_limited);
    push_rule(&mut out, "syn_flood", stats.syn_flood_blocked);
    push_rule(&mut out, "l7", stats.l7_blocked);
    push_rule(&mut out, "adaptive", stats.adaptive_blocked);
    push_rule(&mut out, "udp_flood", stats.udp_flood_blocked);
    push_rule(&mut out, "icmp_flood", stats.icmp_flood_blocked);
    push_rule(&mut out, "waf", stats.waf_blocked);
    push_rule(&mut out, "geoip", stats.geoip_blocked);
    push_rule(&mut out, "challenge", stats.challenge_issued);
    assert(pairs_view(out@) =~= rules_of(*stats));
    out
}

/// Raises alerts, and remembers when it last did.
pub struct AlertManager {
    pub config: AlertConfig,
    pub last_alert_s: u64,
}

impl AlertManager {
    pub fn new(config: AlertConfig) -> (r: Self)
        ensures
            r.config == config,
            r.last_alert_s == 0,
    {
        AlertManager { config, last_alert_s: 0 }
    }

    /// So much was dropped in the window that an alert is due, and none was raised lately.
    pub open spec fn raises(&self, delta: u64, window_s: u64, now_s: u64) -> bool {
        &&& window_s != 0
        &&& self.config.webhook_url is Some
        &&& delta / window_s >= self.config.threshold_dps
        &&& crate::node::timeseries::growth(now_s, self.last_alert_s) >= self.config.cooldown_s
    }

    /// `e` is the alert of the counters at `now_s`.
    pub open spec fn tells(&self, e: AlertEvent, stats: Stats, dps: u64, now_s: u64) -> bool {
        &&& e.timestamp == now_s
        &&& e.interface@ == self.config.interface@
        &&& e.alert_type@ == "drop_rate"@
        &&& e.total_dropped == stats.total_dropped
        &&& e.dps == dps
        &&& e.threshold_dps == self.config.threshold_dps
        &&& e.cooldown_s == self.config.cooldown_s
        &&& e.message@ == message_text(self.config.interface@, dps, self.config.threshold_dps)
        &&& pairs_view(e.rule_breakdown@) == rules_of(stats)
        &&& shows_top(e.top_attackers@, counts_held(stats.top_attackers), 5)
    }

    /// Raises an alert where `delta` packets dropped in `window_s` seconds call for one.
    pub fn check(&mut self, stats: &Stats, delta: u64, window_s: u64, now_s: u64) -> (r: Option<
        AlertEvent,
    >)
        ensures
            final(self).config == old(self).config,
            match r {
                Some(e) => old(self).raises(delta, window_s, now_s) && old(self).tells(
                    e,
                    *stats,
                    delta / window_s,
                    now_s,
                ) && final(self).last_alert_s == now_s,
                None => !old(self).raises(delta, window_s, now_s) && final(self).last_alert_s
                    == old(self).last_alert_s,
            },
    {
        if window_s == 0 || self.config.webhook_url.is_none() {
            return None;
        }
        let dps: u64 = delta / window_s;
        if dps < self.config.threshold_dps {
            return None;
        }
        if now_s.saturating_sub(self.last_alert_s) < self.config.cooldown_s {
            return None;
        }
        self.last_alert_s = now_s;
        Some(
            AlertEvent {
                timestamp: now_s,
                interface: self.config.interface.clone(),
                alert_type: "drop_rate".to_string(),
                total_dropped: stats.total_dropped,
                dps,
                threshold_dps: self.config.threshold_dps,
                cooldown_s: self.config.cooldown_s,
                message: message(self.config.interface.as_str(), dps, self.config.threshold_dps),
                rule_breakdown: rule_breakdown(stats),
                top_attackers: top_attackers(&stats.top_attackers, 5),
            },
        )
    }

    /// What is sent for an alert.
    pub fn format_payload(&self, event: &AlertEvent) -> (r: AlertPayload)
        ensures
            payload_is(r, self.config.webhook_type@, *event),
    {
        let kind: &str = self.config.webhook_type.as_str();
        if same_text(kind, "slack") {
            AlertPayload::Slack { text: event.message.clone(), section: slack_section(event) }
        } else if same_text(kind, "dingtalk") || same_text(kind, "wecom") || same_text(
            kind,
            "wechat",
        ) {
            AlertPayload::Text { content: plain_content(event) }
        } else {
            AlertPayload::Event
        }
    }
}

/// What is sent for an alert: a message with a section, a plain text, or the alert itself.
#[derive(Clone, Debug)]
pub enum AlertPayload {
    Slack { text: String, section: String },
    Text { content: String },
    Event,
}

/// Sources with their numbers, as in `a(1), b(2)`.
pub open spec fn attackers_text(list: Seq<Attacker>) -> Seq<char>
    decreases list.len(),
{
    if list.len() == 0 {
        Seq::empty()
    } else {
        let front: Seq<char> = attackers_text(list.drop_last());
        let sep: Seq<char> = if list.len() == 1 {
            Seq::empty()
        } else {
            ", "@
        };
        front + sep + list.last().ip@ + "("@ + dec(list.last().count as nat) + ")"@
    }
}

/// Names with numbers as a JSON object, as in `{"a":1,"b":2}`.
pub open spec fn pairs_text(list: Seq<(Seq<char>, u64)>) -> Seq<char>
    decreases list.len(),
{
    if list.len() == 0 {
        "{"@
    } else {
        let front: Seq<char> = pairs_text(list.drop_last());
        let sep: Seq<char> = if list.len() == 1 {
            Seq::empty()
        } else {
            ","@
        };
        front + sep + "\""@ + list.last().0 + "\":"@ + dec(list.last().1 as nat)
    }
}

/// The section of a message.
pub open spec fn section_text(e: AlertEvent) -> Seq<char> {
    "*eShield "@ + e.interface@ + " 告警*\nDROP 速率："@ + dec(e.dps as nat)
        + " pps\n阈值："@ + dec(e.threshold_dps as nat) + " pps\n总丢弃："@ + dec(
        e.total_dropped as nat,
    ) + "\nTOP 攻击源："@ + attackers_text(e.top_attackers@)
}

/// The plain text of an alert.
pub open spec fn content_text(e: AlertEvent) -> Seq<char> {
    e.message@ + "\n规则分布："@ + pairs_text(pairs_view(e.rule_breakdown@)) + "}"@
        + "\nTOP："@ + attackers_text(e.top_attackers@)
}

/// `r` is what is sent for an alert to a webhook of the kind.
pub open spec fn payload_is(r: AlertPayload, kind: Seq<char>, e: AlertEvent) -> bool {
    if kind == "slack"@ {
        match r {
            AlertPayload::Slack { text, section } => text@ == e.message@ && section@
                == section_text(e),
            _ => false,
        }
    } else if kind == "dingtalk"@ || kind == "wecom"@ || kind == "wechat"@ {
        match r {
            AlertPayload::Text { content } => content@ == content_text(e),
            _ => false,
        }
    } else {
        r == AlertPayload::Event
    }
}

fn push_attackers(out: &mut String, list: &Vec<Attacker>)
    ensures
        final(out)@ == old(out)@ + attackers_text(list@),
{
    let ghost start = out@;
    assert(out@ =~= start + attackers_text(list@.take(0)));
    for i in 0..list.len()
        invariant
            out@ == start + attackers_text(list@.take(i as int)),
    {
        let ghost part = list@.take(i as int);
        let ghost next = list@.take(i + 1);
        assert(next.drop_last() =~= part);
        assert(next.last() == list@[i as int]);
        if i > 0 {
            out.append(", ");
        }
        out.append(list[i].ip.as_str());
        out.append("(");
        push_dec(out, list[i].count);
        out.append(")");
        assert(out@ =~= start + attackers_text(next));
    }
    assert(list@.take(list@.len() as int) =~= list@);
}

fn push_pairs(out: &mut String, list: &Vec<(String, u64)>)
    ensures
        final(out)@ == old(out)@ + pairs_text(pairs_view(list@)) + "}"@,
{
    let ghost start = out@;
    let ghost all = pairs_view(list@);
    out.append("{");
    assert(out@ =~= start + pairs_text(all.take(0)));
    for i in 0..list.len()
        invariant
            all == pairs_view(list@),
            out@ == start + pairs_text(all.take(i as int)),
    {
        let ghost next = all.take(i + 1);
        assert(next.drop_last() =~= all.take(i as int));
        assert(next.last() == (list@[i as int].0@, list@[i as int].1));
        if i > 0 {
            out.append(",");
        }
        out.append("\"");
        out.append(list[i].0.as_str());
        out.append("\":");
        push_dec(out, list[i].1);
        assert(out@ =~= start + pairs_text(next));
    }
    assert(all.take(list@.len() as int) =~= all);
    out.append("}");
}

fn slack_section(e: &AlertEvent) -> (r: String)
    ensures
        r@ == section_text(*e),
{
    let mut out: String = String::new();
    out.append("*eShield ");
    out.append(e.interface.as_str());
    out.append(" 告警*\nDROP 速率：");
    push_dec(&mut out, e.dps);
    out.append(" pps\n阈值：");
    push_dec(&mut out, e.threshold_dps);
    out.append(" pps\n总丢弃：");
    push_dec(&mut out, e.total_dropped);
    out.append("\nTOP 攻击源：");
    push_attackers(&mut out, &e.top_attackers);
    assert(out@ =~= section_text(*e));
    out
}

fn plain_content(e: &AlertEvent) -> (r: String)
    ensures
        r@ == content_text(*e),
{
    let mut out: String = String::new();
    out.append(e.message.as_str());
    out.append("\n规则分布：");
    push_pairs(&mut out, &e.rule_breakdown);
    out.append("\nTOP：");
    push_attackers(&mut out, &e.top_attackers);
    assert(out@ =~= content_text(*e));
    out
}

/// After an alert none is raised until the cooldown is over, whatever is dropped.
pub proof fn law_alerts_keep_their_distance(
    m: AlertManager,
    now_s: u64,
    later_s: u64,
    delta: u64,
    window_s: u64,
)
    requires
        m.last_alert_s == now_s,
        now_s <= later_s < now_s + m.config.cooldown_s,
    ensures
        !m.raises(delta, window_s, later_s),
{
}

} // verus!
