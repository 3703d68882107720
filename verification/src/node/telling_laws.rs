//! What a node tells of the packets and people it turned away.

use crate::common::DropEvent;
use crate::common::PacketSample;
use crate::ip_format::v4_text;
use crate::ip_format::v6_text;
use crate::node::audit::action_text;
use crate::node::audit::selects;
use crate::node::audit::AuditAction;
use crate::node::audit::AuditEntry;
use crate::node::audit::AuditQuery;
use crate::node::auth::let_in;
use crate::node::ip_report::event_source;
use crate::node::ip_report::rule_text;
use crate::node::ip_report::tells_of;
use crate::node::ip_report::AttackEvent;
use crate::node::login_limiter::after_check;
use crate::node::login_limiter::after_failure;
use crate::node::login_limiter::recent;
use crate::node::login_limiter::Attempts;
use crate::node::packet_log::entry_view;
use crate::node::packet_log::newest;
use crate::node::packet_log::EntryView;
use crate::node::packet_log::PacketLogQuery;
use crate::node::stats::port_after;
use crate::outside::lower_text;
use crate::text::has_part;
use crate::text::lowered;
use vstd::prelude::*;

verus! {

/// An attack is told of as its event has it.
pub proof fn law_attack_tells_of_its_event(r: AttackEvent, e: DropEvent)
    requires
        tells_of(r, e),
    ensures
        r.timestamp_ns == e.timestamp_ns,
        r.protocol == e.protocol,
        r.rule_id == e.rule_id,
        r.dst_port == e.dst_port,
        e.family == 4 ==> r.src_ip@ == v4_text(e.src_ip@.skip(12)),
        e.family == 6 ==> r.src_ip@ == v6_text(e.src_ip@),
        e.family != 4 && e.family != 6 ==> r.src_ip@ == "unknown"@,
        e.rule_id == 3 ==> r.rule_name@ == "SYN Flood"@,
        e.rule_id == 1 ==> r.rule_name@ == "黑名单"@,
{
}

/// The rules have their names.
pub proof fn law_rules_have_names(rule_id: u16)
    ensures
        rule_text(1) == "黑名单"@,
        rule_text(2) == "速率限制"@,
        rule_text(3) == "SYN Flood"@,
        rule_text(4) == "L7 指纹"@,
        rule_text(5) == "自适应"@,
        rule_text(7) == "端口 ACL"@,
        rule_text(8) == "UDP Flood"@,
        rule_text(9) == "ICMP Flood"@,
        rule_text(10) == "GeoIP"@,
        rule_text(11) == "威胁情报"@,
        rule_id == 0 || rule_id == 6 || rule_id > 11 ==> rule_text(rule_id) == "未知"@,
{
}

/// The source of an event is named by its address.
pub proof fn law_event_names_its_source(e: DropEvent)
    ensures
        e.family == 4 ==> event_source(e) == v4_text(e.src_ip@.skip(12)),
        e.family == 6 ==> event_source(e) == v6_text(e.src_ip@),
        e.family != 4 && e.family != 6 ==> event_source(e) == "unknown"@,
{
}

/// The text that a question for an address looks at.
pub open spec fn where_named(e: AuditEntry) -> Seq<char> {
    (if e.source_ip is Some {
        e.source_ip->0@
    } else {
        Seq::empty()
    }) + " "@ + e.actor@ + " "@ + e.detail@
}

/// A question for an address finds the entries that hold it as their source, in the actor
/// or in the detail, and no others.
pub proof fn law_audit_is_searched_by_address(q: AuditQuery, e: AuditEntry)
    requires
        q.ip is Some,
        q.filter is None && q.action is None && q.from is None && q.to is None,
    ensures
        selects(q, e) <==> has_part(lower_text(where_named(e)), lower_text(q.ip->0@)),
{
}

/// A question for an action finds the entries of that action, whatever the letters' case.
pub proof fn law_audit_is_searched_by_action(q: AuditQuery, e: AuditEntry)
    requires
        q.action is Some,
        q.filter is None && q.ip is None && q.from is None && q.to is None,
    ensures
        selects(q, e) <==> lower_text(action_text(e.action)) == lower_text(q.action->0@),
{
}

/// The actions have their names in the log.
pub proof fn law_actions_have_names()
    ensures
        action_text(AuditAction::BlockIp) == "block_ip"@,
        action_text(AuditAction::UnblockIp) == "unblock_ip"@,
        action_text(AuditAction::AllowCidr) == "allow_cidr"@,
        action_text(AuditAction::DisallowCidr) == "disallow_cidr"@,
        action_text(AuditAction::ReloadConfig) == "reload_config"@,
        action_text(AuditAction::PatchConfig) == "patch_config"@,
        action_text(AuditAction::Start) == "start"@,
        action_text(AuditAction::Stop) == "stop"@,
        action_text(AuditAction::Login) == "login"@,
        action_text(AuditAction::ResetToken) == "reset_token"@,
{
}

/// A question for an address finds the samples to and from it.
pub proof fn law_samples_are_searched_by_address(s: PacketSample, q: PacketLogQuery)
    requires
        s.family == 4,
        q.ip is Some,
        q.port is None && q.protocol is None && q.action is None && q.rule is None,
        q.from_ns is None && q.to_ns is None,
    ensures
        crate::node::packet_log::matches(s, q) <==> has_part(
            lowered(v4_text(s.src_ip@.skip(12))),
            lowered(q.ip->0@),
        ) || has_part(lowered(v4_text(s.dst_ip@.skip(12))), lowered(q.ip->0@)),
{
}

/// The newest samples come first.
pub proof fn law_newest_samples_lead(entries: Seq<PacketSample>, n: nat, i: int)
    requires
        n > 0,
        entries.len() > 0,
    ensures
        newest(entries, n).len() <= n,
        newest(entries, n)[0] == entry_view(entries.last()),
        n >= entries.len() ==> newest(entries, n).len() == entries.len() && newest(
            entries,
            n,
        ).last() == entry_view(entries[0]),
        0 <= i < newest(entries, n).len() ==> newest(entries, n)[i] == entry_view(
            entries[entries.len() - 1 - i],
        ),
{
}

/// A sample is shown with the numbers it holds.
pub proof fn law_sample_is_shown(s: PacketSample)
    requires
        s.payload_bytes <= 64,
    ensures
        ({
            let v: EntryView = entry_view(s);
            &&& v.timestamp_ns == s.timestamp_ns
            &&& s.family == 4 ==> v.src_ip == v4_text(s.src_ip@.skip(12)) && v.dst_ip == v4_text(
                s.dst_ip@.skip(12),
            )
            &&& s.family == 6 ==> v.src_ip == v6_text(s.src_ip@) && v.dst_ip == v6_text(s.dst_ip@)
            &&& v.src_port == s.src_port
            &&& v.dst_port == s.dst_port
            &&& v.protocol == s.protocol
            &&& v.action == s.action
            &&& v.rule_id == s.rule_id
            &&& v.packet_len == s.packet_len
            &&& v.payload_hex.len() == 2 * s.payload_bytes
        }),
{
    lemma_hex_len(s.payload_sample@.take(s.payload_bytes as int));
}

proof fn lemma_hex_len(o: Seq<u8>)
    ensures
        crate::node::packet_log::hex_octets(o).len() == 2 * o.len(),
    decreases o.len(),
{
    if o.len() > 0 {
        lemma_hex_len(o.drop_last());
    }
}

/// Dropped packets add up by port; port 0 stands for none, and a port that a batch does not
/// name keeps its number.
pub proof fn law_ports_add_up(held: Map<u16, u64>, batch: Map<u16, u64>, port: u16)
    ensures
        port != 0 && batch.contains_key(port) && held.contains_key(port) && held[port] + batch[port]
            <= u64::MAX ==> port_after(held, batch, port) == Some((held[port] + batch[port]) as u64),
        port != 0 && batch.contains_key(port) && !held.contains_key(port) ==> port_after(
            held,
            batch,
            port,
        ) == Some(batch[port]),
        (port == 0 || !batch.contains_key(port)) && held.contains_key(port) ==> port_after(
            held,
            batch,
            port,
        ) == Some(held[port]),
        (port == 0 || !batch.contains_key(port)) && !held.contains_key(port) ==> port_after(
            held,
            batch,
            port,
        ) is None,
{
}

/// A further failure leaves an address locked as it is, until there are five in a minute;
/// the fifth locks it for five minutes.
pub proof fn law_failures_lead_to_a_lock(a: Attempts, now_ns: u64)
    requires
        now_ns + 300_000_000_000 <= u64::MAX,
    ensures
        recent(a.times, now_ns).len() < 4 ==> after_failure(a, now_ns).locked_until
            == a.locked_until,
        recent(a.times, now_ns).len() >= 4 ==> after_failure(a, now_ns).locked_until == Some(
            (now_ns + 300_000_000_000) as u64,
        ),
        after_failure(a, now_ns).times == recent(a.times, now_ns).push(now_ns),
{
}

/// A lock stays until its time is over, and is then lifted unless there are five failures
/// in the last minute.
pub proof fn law_lock_ends(a: Attempts, now_ns: u64)
    requires
        now_ns + 300_000_000_000 <= u64::MAX,
    ensures
        a.locked_until is Some && now_ns < a.locked_until->0 ==> after_check(a, now_ns).locked_until
            == a.locked_until,
        (a.locked_until is None || now_ns >= a.locked_until->0) && recent(a.times, now_ns).len() < 5
            ==> after_check(a, now_ns).locked_until is None,
        (a.locked_until is None || now_ns >= a.locked_until->0) && recent(a.times, now_ns).len()
            >= 5 ==> after_check(a, now_ns).locked_until == Some((now_ns + 300_000_000_000) as u64),
{
}

/// Where a token is set, a caller from elsewhere without it gets the pages that need none,
/// and nothing else; a caller on the node itself gets everything.
pub proof fn law_console_asks_for_the_token(token: Seq<char>, path: Seq<char>)
    ensures
        let_in(Some(token), path, false, None, None) <==> {
            ||| path == "/healthz"@
            ||| path == "/ready"@
            ||| path == "/login"@
            ||| path == "/blocked"@
            ||| path == "/static/echarts.min.js"@
            ||| path == "/api/auth/login"@
        },
        let_in(Some(token), path, true, None, None),
        let_in(None, path, false, None, None),
        let_in(Some(token), path, false, Some("Bearer "@ + token), None),
{
}

} // verus!
