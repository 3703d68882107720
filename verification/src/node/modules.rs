//! The protection modules of a node, for display.

use crate::node::snapshot::RuntimeConfigSnapshot;
use vstd::prelude::*;

verus! {

/// The value of a field, and how it can be changed.
#[derive(Clone, Copy, Debug, PartialEq, Eq)]
pub enum FieldValue {
    Switch(bool),
    Number(u64),
    ReadOnly(u64),
}

/// A setting of a module.
#[derive(Clone, Copy, Debug)]
pub struct Field {
    pub id: &'static str,
    pub label: &'static str,
    pub value: FieldValue,
}

pub struct FieldView {
    pub id: Seq<char>,
    pub label: Seq<char>,
    pub value: FieldValue,
}

impl View for Field {
    type V = FieldView;

    open spec fn view(&self) -> FieldView {
        FieldView { id: self.id@, label: self.label@, value: self.value }
    }
}

pub open spec fn field_views(v: Seq<Field>) -> Seq<FieldView> {
    v.map_values(|f: Field| f@)
}

/// A protection module with its settings.
#[derive(Clone, Debug)]
pub struct ProtectionModule {
    pub id: &'static str,
    pub name: &'static str,
    pub category: &'static str,
    pub description: &'static str,
    pub enabled: bool,
    /// The counter that shows what the module did.
    pub stats_key: Option<&'static str>,
    pub editable_fields: Vec<Field>,
}

pub struct ModuleView {
    pub id: Seq<char>,
    pub name: Seq<char>,
    pub category: Seq<char>,
    pub description: Seq<char>,
    pub enabled: bool,
    pub stats_key: Option<Seq<char>>,
    pub editable_fields: Seq<FieldView>,
}

impl View for ProtectionModule {
    type V = ModuleView;

    open spec fn view(&self) -> ModuleView {
        ModuleView {
            id: self.id@,
            name: self.name@,
            category: self.category@,
            description: self.description@,
            enabled: self.enabled,
            stats_key: match self.stats_key {
                Some(k) => Some(k@),
                None => None,
            },
            editable_fields: field_views(self.editable_fields@),
        }
    }
}

pub open spec fn module_views(v: Seq<ProtectionModule>) -> Seq<ModuleView> {
    v.map_values(|m: ProtectionModule| m@)
}

pub open spec fn syn_flood_module_view(rt: RuntimeConfigSnapshot) -> ModuleView {
    ModuleView {
        id: "syn_flood"@,
        name: "SYN Flood 防护"@,
        category: "DDoS"@,
        description: "基于 SYN 代理/ cookie 抵御 SYN Flood 攻击。"@,
        enabled: rt.syn_proxy_enabled,
        stats_key: Some("syn_flood_blocked"@),
        editable_fields: seq![
            FieldView { id: "enabled"@, label: "启用防护"@, value: FieldValue::Switch(rt.syn_proxy_enabled) },
        ],
    }
}

pub open spec fn udp_flood_module_view(rt: RuntimeConfigSnapshot) -> ModuleView {
    ModuleView {
        id: "udp_flood"@,
        name: "UDP Flood 防护"@,
        category: "DDoS"@,
        description: "检测并丢弃异常 UDP 泛洪流量。"@,
        enabled: rt.udp_flood_enabled,
        stats_key: Some("udp_flood_blocked"@),
        editable_fields: seq![
            FieldView { id: "enabled"@, label: "启用防护"@, value: FieldValue::Switch(rt.udp_flood_enabled) },
        ],
    }
}

pub open spec fn icmp_flood_module_view(rt: RuntimeConfigSnapshot) -> ModuleView {
    ModuleView {
        id: "icmp_flood"@,
        name: "ICMP Flood 防护"@,
        category: "DDoS"@,
        description: "检测并丢弃异常 ICMP/ICMPv6 泛洪流量。"@,
        enabled: rt.icmp_flood_enabled,
        stats_key: Some("icmp_flood_blocked"@),
        editable_fields: seq![
            FieldView { id: "enabled"@, label: "启用防护"@, value: FieldValue::Switch(rt.icmp_flood_enabled) },
        ],
    }
}

pub open spec fn rate_limit_module_view(rt: RuntimeConfigSnapshot) -> ModuleView {
    ModuleView {
        id: "rate_limit"@,
        name: "速率限制 / CC 防护"@,
        category: "访问控制"@,
        description: "基于令牌桶对每个源 IP 进行速率限制。"@,
        enabled: rt.rate_limit.enabled,
        stats_key: Some("rate_limited"@),
        editable_fields: seq![
            FieldView { id: "enabled"@, label: "启用限速"@, value: FieldValue::Switch(rt.rate_limit.enabled) },
            FieldView { id: "threshold"@, label: "阈值（包/窗口）"@, value: FieldValue::Number(rt.rate_limit.threshold) },
            FieldView { id: "tick_ms"@, label: "窗口 Tick (ms)"@, value: FieldValue::Number(rt.rate_limit.tick_ms) },
            FieldView { id: "decay_num"@, label: "衰减分子"@, value: FieldValue::Number(rt.rate_limit.decay_num) },
            FieldView { id: "decay_den"@, label: "衰减分母"@, value: FieldValue::Number(rt.rate_limit.decay_den) },
            FieldView { id: "block_duration_s"@, label: "封禁时长 (s)"@, value: FieldValue::Number(rt.rate_limit.block_duration_s) },
        ],
    }
}

pub open spec fn adaptive_module_view(rt: RuntimeConfigSnapshot) -> ModuleView {
    ModuleView {
        id: "adaptive"@,
        name: "自适应黑名单"@,
        category: "访问控制"@,
        description: "对短时间窗口内多次触发规则的源 IP 自动追加黑名单。"@,
        enabled: rt.adaptive.enabled,
        stats_key: Some("adaptive_blocked"@),
        editable_fields: seq![
            FieldView { id: "enabled"@, label: "启用自适应"@, value: FieldValue::Switch(rt.adaptive.enabled) },
            FieldView { id: "threshold"@, label: "触发阈值（次）"@, value: FieldValue::Number(rt.adaptive.threshold) },
            FieldView { id: "window_s"@, label: "统计窗口 (s)"@, value: FieldValue::Number(rt.adaptive.window_s) },
            FieldView { id: "block_duration_s"@, label: "封禁时长 (s)"@, value: FieldValue::Number(rt.adaptive.block_duration_s) },
        ],
    }
}

pub open spec fn l7_scan_module_view(rt: RuntimeConfigSnapshot) -> ModuleView {
    ModuleView {
        id: "l7_scan"@,
        name: "L7 指纹扫描"@,
        category: "应用层"@,
        description: "匹配应用层指纹特征，识别扫描/探测行为。"@,
        enabled: rt.l7_scan_enabled,
        stats_key: Some("l7_blocked"@),
        editable_fields: seq![
            FieldView { id: "enabled"@, label: "启用 L7 扫描"@, value: FieldValue::Switch(rt.l7_scan_enabled) },
        ],
    }
}

pub open spec fn geoip_module_view(rt: RuntimeConfigSnapshot) -> ModuleView {
    ModuleView {
        id: "geoip"@,
        name: "GeoIP 地区封禁"@,
        category: "访问控制"@,
        description: "根据国家/地区或 ASN 放行或封禁流量。"@,
        enabled: rt.geoip_enabled,
        stats_key: Some("geoip_blocked"@),
        editable_fields: seq![
            FieldView { id: "enabled"@, label: "启用 GeoIP"@, value: FieldValue::Switch(rt.geoip_enabled) },
        ],
    }
}

pub open spec fn tcp_reset_module_view(rt: RuntimeConfigSnapshot) -> ModuleView {
    ModuleView {
        id: "tcp_reset"@,
        name: "TCP RST 回包"@,
        category: "网络层"@,
        description: "对丢弃的 TCP 连接回复 RST，加速客户端失败重连。"@,
        enabled: rt.tcp_reset_on_drop,
        stats_key: None,
        editable_fields: seq![
            FieldView { id: "enabled"@, label: "启用 RST 回包"@, value: FieldValue::Switch(rt.tcp_reset_on_drop) },
        ],
    }
}

pub open spec fn trust_score_module_view(rt: RuntimeConfigSnapshot) -> ModuleView {
    ModuleView {
        id: "trust_score"@,
        name: "Trust Score 信誉引擎"@,
        category: "智能防御"@,
        description: "IP 双向信誉评估——PASS 加分、DROP 减分，动态调制速率阈值。高信誉 IP 自动放宽限速。"@,
        enabled: rt.trust_enabled,
        stats_key: None,
        editable_fields: seq![
            FieldView { id: "enabled"@, label: "启用 Trust Score"@, value: FieldValue::Switch(rt.trust_enabled) },
        ],
    }
}

pub open spec fn danger_signal_module_view(rt: RuntimeConfigSnapshot) -> ModuleView {
    ModuleView {
        id: "danger_signal"@,
        name: "Danger Signal 危险监测"@,
        category: "智能防御"@,
        description: "实时监测 CPU/内存/DPS 异常，自动提高全局防御等级（正常→警戒→危险）。"@,
        enabled: rt.danger_level > 0,
        stats_key: None,
        editable_fields: seq![
            FieldView { id: "danger_level"@, label: "当前等级"@, value: FieldValue::ReadOnly(rt.danger_level as u64) },
        ],
    }
}

pub open spec fn port_acl_module_view(rt: RuntimeConfigSnapshot) -> ModuleView {
    ModuleView {
        id: "port_acl"@,
        name: "端口 ACL"@,
        category: "访问控制"@,
        description: "基于协议和目的端口的显式 allow/drop 规则。"@,
        enabled: rt.port_acl@.len() > 0,
        stats_key: None,
        editable_fields: seq![
            FieldView { id: "rules_count"@, label: "已配置规则数"@, value: FieldValue::ReadOnly(rt.port_acl@.len() as u64) },
        ],
    }
}

fn syn_flood_module(rt: &RuntimeConfigSnapshot) -> (r: ProtectionModule)
    ensures
        r@ == syn_flood_module_view(*rt),
{
    let mut fields: Vec<Field> = Vec::new();
    fields.push(Field { id: "enabled", label: "启用防护", value: FieldValue::Switch(rt.syn_proxy_enabled) });
    assert(field_views(fields@) =~= syn_flood_module_view(*rt).editable_fields);
    ProtectionModule {
        id: "syn_flood",
        name: "SYN Flood 防护",
        category: "DDoS",
        description: "基于 SYN 代理/ cookie 抵御 SYN Flood 攻击。",
        enabled: rt.syn_proxy_enabled,
        stats_key: Some("syn_flood_blocked"),
        editable_fields: fields,
    }
}

fn udp_flood_module(rt: &RuntimeConfigSnapshot) -> (r: ProtectionModule)
    ensures
        r@ == udp_flood_module_view(*rt),
{
    let mut fields: Vec<Field> = Vec::new();
    fields.push(Field { id: "enabled", label: "启用防护", value: FieldValue::Switch(rt.udp_flood_enabled) });
    assert(field_views(fields@) =~= udp_flood_module_view(*rt).editable_fields);
    ProtectionModule {
        id: "udp_flood",
        name: "UDP Flood 防护",
        category: "DDoS",
        description: "检测并丢弃异常 UDP 泛洪流量。",
        enabled: rt.udp_flood_enabled,
        stats_key: Some("udp_flood_blocked"),
        editable_fields: fields,
    }
}

fn icmp_flood_module(rt: &RuntimeConfigSnapshot) -> (r: ProtectionModule)
    ensures
        r@ == icmp_flood_module_view(*rt),
{
    let mut fields: Vec<Field> = Vec::new();
    fields.push(Field { id: "enabled", label: "启用防护", value: FieldValue::Switch(rt.icmp_flood_enabled) });
    assert(field_views(fields@) =~= icmp_flood_module_view(*rt).editable_fields);
    ProtectionModule {
        id: "icmp_flood",
        name: "ICMP Flood 防护",
        category: "DDoS",
        description: "检测并丢弃异常 ICMP/ICMPv6 泛洪流量。",
        enabled: rt.icmp_flood_enabled,
        stats_key: Some("icmp_flood_blocked"),
        editable_fields: fields,
    }
}

fn rate_limit_module(rt: &RuntimeConfigSnapshot) -> (r: ProtectionModule)
    ensures
        r@ == rate_limit_module_view(*rt),
{
    let mut fields: Vec<Field> = Vec::new();
    fields.push(Field { id: "enabled", label: "启用限速", value: FieldValue::Switch(rt.rate_limit.enabled) });
    fields.push(Field { id: "threshold", label: "阈值（包/窗口）", value: FieldValue::Number(rt.rate_limit.threshold) });
    fields.push(Field { id: "tick_ms", label: "窗口 Tick (ms)", value: FieldValue::Number(rt.rate_limit.tick_ms) });
    fields.push(Field { id: "decay_num", label: "衰减分子", value: FieldValue::Number(rt.rate_limit.decay_num) });
    fields.push(Field { id: "decay_den", label: "衰减分母", value: FieldValue::Number(rt.rate_limit.decay_den) });
    fields.push(Field { id: "block_duration_s", label: "封禁时长 (s)", value: FieldValue::Number(rt.rate_limit.block_duration_s) });
    assert(field_views(fields@) =~= rate_limit_module_view(*rt).editable_fields);
    ProtectionModule {
        id: "rate_limit",
        name: "速率限制 / CC 防护",
        category: "访问控制",
        description: "基于令牌桶对每个源 IP 进行速率限制。",
        enabled: rt.rate_limit.enabled,
        stats_key: Some("rate_limited"),
        editable_fields: fields,
    }
}

fn adaptive_module(rt: &RuntimeConfigSnapshot) -> (r: ProtectionModule)
    ensures
        r@ == adaptive_module_view(*rt),
{
    let mut fields: Vec<Field> = Vec::new();
    fields.push(Field { id: "enabled", label: "启用自适应", value: FieldValue::Switch(rt.adaptive.enabled) });
    fields.push(Field { id: "threshold", label: "触发阈值（次）", value: FieldValue::Number(rt.adaptive.threshold) });
    fields.push(Field { id: "window_s", label: "统计窗口 (s)", value: FieldValue::Number(rt.adaptive.window_s) });
    fields.push(Field { id: "block_duration_s", label: "封禁时长 (s)", value: FieldValue::Number(rt.adaptive.block_duration_s) });
    assert(field_views(fields@) =~= adaptive_module_view(*rt).editable_fields);
    ProtectionModule {
        id: "adaptive",
        name: "自适应黑名单",
        category: "访问控制",
        description: "对短时间窗口内多次触发规则的源 IP 自动追加黑名单。",
        enabled: rt.adaptive.enabled,
        stats_key: Some("adaptive_blocked"),
        editable_fields: fields,
    }
}

fn l7_scan_module(rt: &RuntimeConfigSnapshot) -> (r: ProtectionModule)
    ensures
        r@ == l7_scan_module_view(*rt),
{
    let mut fields: Vec<Field> = Vec::new();
    fields.push(Field { id: "enabled", label: "启用 L7 扫描", value: FieldValue::Switch(rt.l7_scan_enabled) });
    assert(field_views(fields@) =~= l7_scan_module_view(*rt).editable_fields);
    ProtectionModule {
        id: "l7_scan",
        name: "L7 指纹扫描",
        category: "应用层",
        description: "匹配应用层指纹特征，识别扫描/探测行为。",
        enabled: rt.l7_scan_enabled,
        stats_key: Some("l7_blocked"),
        editable_fields: fields,
    }
}

fn geoip_module(rt: &RuntimeConfigSnapshot) -> (r: ProtectionModule)
    ensures
        r@ == geoip_module_view(*rt),
{
    let mut fields: Vec<Field> = Vec::new();
    fields.push(Field { id: "enabled", label: "启用 GeoIP", value: FieldValue::Switch(rt.geoip_enabled) });
    assert(field_views(fields@) =~= geoip_module_view(*rt).editable_fields);
    ProtectionModule {
        id: "geoip",
        name: "GeoIP 地区封禁",
        category: "访问控制",
        description: "根据国家/地区或 ASN 放行或封禁流量。",
        enabled: rt.geoip_enabled,
        stats_key: Some("geoip_blocked"),
        editable_fields: fields,
    }
}

fn tcp_reset_module(rt: &RuntimeConfigSnapshot) -> (r: ProtectionModule)
    ensures
        r@ == tcp_reset_module_view(*rt),
{
    let mut fields: Vec<Field> = Vec::new();
    fields.push(Field { id: "enabled", label: "启用 RST 回包", value: FieldValue::Switch(rt.tcp_reset_on_drop) });
    assert(field_views(fields@) =~= tcp_reset_module_view(*rt).editable_fields);
    ProtectionModule {
        id: "tcp_reset",
        name: "TCP RST 回包",
        category: "网络层",
        description: "对丢弃的 TCP 连接回复 RST，加速客户端失败重连。",
        enabled: rt.tcp_reset_on_drop,
        stats_key: None,
        editable_fields: fields,
    }
}

fn trust_score_module(rt: &RuntimeConfigSnapshot) -> (r: ProtectionModule)
    ensures
        r@ == trust_score_module_view(*rt),
{
    let mut fields: Vec<Field> = Vec::new();
    fields.push(Field { id: "enabled", label: "启用 Trust Score", value: FieldValue::Switch(rt.trust_enabled) });
    assert(field_views(fields@) =~= trust_score_module_view(*rt).editable_fields);
    ProtectionModule {
        id: "trust_score",
        name: "Trust Score 信誉引擎",
        category: "智能防御",
        description: "IP 双向信誉评估——PASS 加分、DROP 减分，动态调制速率阈值。高信誉 IP 自动放宽限速。",
        enabled: rt.trust_enabled,
        stats_key: None,
        editable_fields: fields,
    }
}

fn danger_signal_module(rt: &RuntimeConfigSnapshot) -> (r: ProtectionModule)
    ensures
        r@ == danger_signal_module_view(*rt),
{
    let mut fields: Vec<Field> = Vec::new();
    fields.push(Field { id: "danger_level", label: "当前等级", value: FieldValue::ReadOnly(rt.danger_level as u64) });
    assert(field_views(fields@) =~= danger_signal_module_view(*rt).editable_fields);
    ProtectionModule {
        id: "danger_signal",
        name: "Danger Signal 危险监测",
        category: "智能防御",
        description: "实时监测 CPU/内存/DPS 异常，自动提高全局防御等级（正常→警戒→危险）。",
        enabled: rt.danger_level > 0,
        stats_key: None,
        editable_fields: fields,
    }
}

fn port_acl_module(rt: &RuntimeConfigSnapshot) -> (r: ProtectionModule)
    ensures
        r@ == port_acl_module_view(*rt),
{
    let mut fields: Vec<Field> = Vec::new();
    fields.push(Field { id: "rules_count", label: "已配置规则数", value: FieldValue::ReadOnly(rt.port_acl.len() as u64) });
    assert(field_views(fields@) =~= port_acl_module_view(*rt).editable_fields);
    ProtectionModule {
        id: "port_acl",
        name: "端口 ACL",
        category: "访问控制",
        description: "基于协议和目的端口的显式 allow/drop 规则。",
        enabled: rt.port_acl.len() > 0,
        stats_key: None,
        editable_fields: fields,
    }
}

/// The modules of a node.
pub open spec fn modules_of(rt: RuntimeConfigSnapshot) -> Seq<ModuleView> {
    seq![
        syn_flood_module_view(rt),
        udp_flood_module_view(rt),
        icmp_flood_module_view(rt),
        rate_limit_module_view(rt),
        adaptive_module_view(rt),
        l7_scan_module_view(rt),
        geoip_module_view(rt),
        tcp_reset_module_view(rt),
        trust_score_module_view(rt),
        danger_signal_module_view(rt),
        port_acl_module_view(rt),
    ]
}

/// The modules of a node.
pub fn protection_modules(rt: &RuntimeConfigSnapshot) -> (r: Vec<ProtectionModule>)
    ensures
        module_views(r@) == modules_of(*rt),
{
    let mut out: Vec<ProtectionModule> = Vec::new();
    out.push(syn_flood_module(rt));
    out.push(udp_flood_module(rt));
    out.push(icmp_flood_module(rt));
    out.push(rate_limit_module(rt));
    out.push(adaptive_module(rt));
    out.push(l7_scan_module(rt));
    out.push(geoip_module(rt));
    out.push(tcp_reset_module(rt));
    out.push(trust_score_module(rt));
    out.push(danger_signal_module(rt));
    out.push(port_acl_module(rt));
    assert(module_views(out@) =~= modules_of(*rt));
    out
}

} // verus!
