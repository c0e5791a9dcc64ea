//! The match conditions that a rule compiles to on one layer.
//!
//! A rule gives one condition for each optional field that is present, in a
//! fixed order: application, local address, remote address, local port,
//! remote port, protocol. A filter applies where all of its conditions hold.

use vstd::prelude::*;
use crate::addr::{ip_of, parse_ip, IpAddr};
use crate::layer::Layer;
use crate::network::{broadcast_bits, cidr_of, network_bits, IpNetwork};
use crate::rule::{FilterAction, FilterRule, Protocol};
use crate::text::chars_of;

verus! {

/// The UTF-16 code units of one character.
pub open spec fn utf16_units(c: char) -> Seq<u16> {
    let v = c as u32;
    if v < 0x1_0000 {
        seq![v as u16]
    } else {
        seq![(0xD800 + (v - 0x1_0000) / 0x400) as u16, (0xDC00 + (v - 0x1_0000) % 0x400) as u16]
    }
}

/// The UTF-16 code units of a text.
pub open spec fn utf16(s: Seq<char>) -> Seq<u16>
    decreases s.len(),
{
    if s.len() == 0 {
        Seq::<u16>::empty()
    } else {
        utf16(s.drop_last()) + utf16_units(s.last())
    }
}

/// The UTF-16 code units of a text, followed by a terminating zero.
pub open spec fn wide_string(s: Seq<char>) -> Seq<u16> {
    utf16(s).push(0u16)
}

/// The bytes of a run of 16-bit units, each with its low byte first.
pub open spec fn wide_bytes(w: Seq<u16>) -> Seq<u8> {
    Seq::new(
        2 * w.len(),
        |i: int|
            if i % 2 == 0 {
                (w[i / 2] % 0x100) as u8
            } else {
                (w[i / 2] / 0x100) as u8
            },
    )
}

/// The blob that identifies the application at `path`: the bytes of the
/// zero-terminated UTF-16 form of the path.
pub open spec fn app_id_of(path: Seq<char>) -> Seq<u8> {
    wide_bytes(wide_string(path))
}

/// Encodes a text as zero-terminated UTF-16.
pub fn to_wide_string(s: &str) -> (w: Vec<u16>)
    ensures
        w@ == wide_string(s@),
{
    let chars = chars_of(s);
    let mut w: Vec<u16> = Vec::new();
    let mut i: usize = 0;
    while i < chars.len()
        invariant
            i <= chars.len(),
            w@ == utf16(chars@.take(i as int)),
        decreases chars.len() - i,
    {
        let c = chars[i];
        let ghost before = w@;
        proof {
            assert(chars@.take(i + 1).drop_last() =~= chars@.take(i as int));
            assert(chars@.take(i + 1).last() == c);
        }
        let v: u32 = c as u32;
        if v < 0x1_0000 {
            w.push(v as u16);
        } else {
            let rest: u32 = v - 0x1_0000;
            w.push((0xD800 + rest / 0x400) as u16);
            w.push((0xDC00 + rest % 0x400) as u16);
        }
        assert(w@ =~= before + utf16_units(c));
        i = i + 1;
    }
    assert(chars@.take(i as int) =~= chars@);
    w.push(0u16);
    w
}

/// Builds the blob that identifies the application at `path`.
pub fn app_id_blob(path: &str) -> (blob: Vec<u8>)
    ensures
        blob@ == app_id_of(path@),
{
    let w = to_wide_string(path);
    let mut blob: Vec<u8> = Vec::new();
    let mut i: usize = 0;
    while i < w.len()
        invariant
            i <= w.len(),
            blob@ == wide_bytes(w@.take(i as int)),
        decreases w.len() - i,
    {
        let unit = w[i];
        blob.push((unit % 0x100) as u8);
        blob.push((unit / 0x100) as u8);
        assert(blob@ =~= wide_bytes(w@.take(i + 1)));
        i = i + 1;
    }
    assert(w@.take(i as int) =~= w@);
    blob
}

/// The field of a connection or packet that a condition looks at.
#[derive(Clone, Copy, Debug, PartialEq, Eq, Structural)]
pub enum ConditionField {
    AppId,
    LocalAddress,
    RemoteAddress,
    LocalPort,
    RemotePort,
    Protocol,
}

/// How a condition compares the field with its value.
#[derive(Clone, Copy, Debug, PartialEq, Eq, Structural)]
pub enum MatchType {
    Equal,
    Range,
}

/// What a condition compares the field with.
#[derive(Clone, Copy, Debug, PartialEq, Eq, Structural)]
#[allow(inconsistent_fields)]
pub enum ConditionValue {
    /// The application blob that the enforcement unit carries.
    AppIdBlob,
    Uint8(u8),
    Uint16(u16),
    Uint32(u32),
    /// A 128-bit value, as of an IPv6 address.
    ByteArray16(u128),
    /// The 16-bit values from `low` to `high`, both included.
    RangeUint16 { low: u16, high: u16 },
    /// The 32-bit values from `low` to `high`, both included.
    RangeUint32 { low: u32, high: u32 },
}

/// One match condition.
#[derive(Clone, Copy, Debug, PartialEq, Eq, Structural)]
pub struct Condition {
    pub field: ConditionField,
    pub value: ConditionValue,
}

/// A feature of a rule that the engine's conditions cannot express:
/// a range of IPv6 addresses.
#[derive(Clone, Copy, Debug, PartialEq, Eq, Structural)]
pub struct NotSupported;

impl ConditionValue {
    /// Ranges are matched as ranges, everything else for equality.
    pub open spec fn spec_match_type(self) -> MatchType {
        match self {
            ConditionValue::RangeUint16 { .. } => MatchType::Range,
            ConditionValue::RangeUint32 { .. } => MatchType::Range,
            _ => MatchType::Equal,
        }
    }

    /// How the field is compared with this value.
    #[verifier::when_used_as_spec(spec_match_type)]
    pub fn match_type(self) -> (m: MatchType)
        ensures
            m == self.spec_match_type(),
    {
        match self {
            ConditionValue::RangeUint16 { .. } => MatchType::Range,
            ConditionValue::RangeUint32 { .. } => MatchType::Range,
            _ => MatchType::Equal,
        }
    }
}

/// What one filter submission consists of: the layer, the conditions, the
/// application blob that an application condition refers to, the weight and
/// the action. It owns the blob, so the blob lives as long as the conditions
/// that refer to it.
#[derive(Clone, Debug, PartialEq, Eq)]
pub struct EnforcementUnit {
    pub layer: Layer,
    pub conditions: Vec<Condition>,
    pub app_id: Option<Vec<u8>>,
    pub weight: u64,
    pub action: FilterAction,
}

/// The mathematical content of an enforcement unit.
pub struct UnitView {
    pub layer: Layer,
    pub conditions: Seq<Condition>,
    pub app_id: Option<Seq<u8>>,
    pub weight: u64,
    pub action: FilterAction,
}

impl View for EnforcementUnit {
    type V = UnitView;

    open spec fn view(&self) -> UnitView {
        UnitView {
            layer: self.layer,
            conditions: self.conditions@,
            app_id: match self.app_id {
                Some(blob) => Some(blob@),
                None => None,
            },
            weight: self.weight,
            action: self.action,
        }
    }
}

/// No condition, or the one condition given.
pub open spec fn optional(c: Option<Condition>) -> Seq<Condition> {
    match c {
        Some(c) => seq![c],
        None => Seq::<Condition>::empty(),
    }
}

/// The condition that an address field gives: equality for a single
/// address, a range from the lowest to the highest address for an IPv4
/// network, and none for an IPv6 network or a text that is no address.
pub open spec fn address_condition(field: ConditionField, text: Seq<char>) -> Option<Condition> {
    match ip_of(text) {
        Some(IpAddr::V4(a)) => Some(Condition { field, value: ConditionValue::Uint32(a.bits) }),
        Some(IpAddr::V6(a)) => Some(
            Condition { field, value: ConditionValue::ByteArray16(a.bits) },
        ),
        None => match cidr_of(text) {
            Ok(net) => match net.ip {
                IpAddr::V4(a) => Some(
                    Condition {
                        field,
                        value: ConditionValue::RangeUint32 {
                            low: network_bits(a.bits, net.prefix_len),
                            high: broadcast_bits(a.bits, net.prefix_len),
                        },
                    },
                ),
                IpAddr::V6(_) => None,
            },
            Err(_) => None,
        },
    }
}

/// Whether an address field asks for a range of IPv6 addresses.
pub open spec fn address_not_supported(text: Seq<char>) -> bool {
    ip_of(text) is None && (cidr_of(text) matches Ok(net) && net.ip is V6)
}

/// The condition that the port fields of one side give: equality where a
/// single port is set, else a range where a range is set.
pub open spec fn port_condition(
    field: ConditionField,
    port: Option<u16>,
    range: Option<(u16, u16)>,
) -> Option<Condition> {
    match port {
        Some(p) => Some(Condition { field, value: ConditionValue::Uint16(p) }),
        None => match range {
            Some((low, high)) => Some(
                Condition { field, value: ConditionValue::RangeUint16 { low, high } },
            ),
            None => None,
        },
    }
}

/// The condition on the application, where the rule names one.
pub open spec fn app_condition(app_path: Option<String>) -> Option<Condition> {
    match app_path {
        Some(_) => Some(
            Condition { field: ConditionField::AppId, value: ConditionValue::AppIdBlob },
        ),
        None => None,
    }
}

/// The condition on the protocol, where the rule names one.
pub open spec fn protocol_condition(protocol: Option<Protocol>) -> Option<Condition> {
    match protocol {
        Some(p) => Some(
            Condition { field: ConditionField::Protocol, value: ConditionValue::Uint8(p.number()) },
        ),
        None => None,
    }
}

/// The condition that an optional address field gives.
pub open spec fn field_condition(field: ConditionField, text: Option<String>) -> Option<
    Condition,
> {
    match text {
        Some(t) => address_condition(field, t@),
        None => None,
    }
}

/// Whether an optional address field asks for a range of IPv6 addresses.
pub open spec fn field_not_supported(text: Option<String>) -> bool {
    match text {
        Some(t) => address_not_supported(t@),
        None => false,
    }
}

/// The conditions of a rule, in their fixed order.
pub open spec fn rule_conditions(rule: &FilterRule) -> Seq<Condition> {
    optional(app_condition(rule.app_path)) + optional(
        field_condition(ConditionField::LocalAddress, rule.local),
    ) + optional(field_condition(ConditionField::RemoteAddress, rule.remote)) + optional(
        port_condition(ConditionField::LocalPort, rule.local_port, rule.local_port_range),
    ) + optional(
        port_condition(ConditionField::RemotePort, rule.remote_port, rule.remote_port_range),
    ) + optional(protocol_condition(rule.protocol))
}

/// The address fields of a rule that ask for what is not supported, local
/// before remote.
pub open spec fn rule_not_supported(rule: &FilterRule) -> Seq<ConditionField> {
    (if field_not_supported(rule.local) {
        seq![ConditionField::LocalAddress]
    } else {
        Seq::<ConditionField>::empty()
    }) + (if field_not_supported(rule.remote) {
        seq![ConditionField::RemoteAddress]
    } else {
        Seq::<ConditionField>::empty()
    })
}

/// The application blob of a rule, where the rule names an application.
pub open spec fn rule_app_id(rule: &FilterRule) -> Option<Seq<u8>> {
    match rule.app_path {
        Some(path) => Some(app_id_of(path@)),
        None => None,
    }
}

/// What installing `rule` on `layer` submits. The weight is the rule's
/// priority.
pub open spec fn unit_for(rule: &FilterRule, layer: Layer) -> UnitView {
    UnitView {
        layer,
        conditions: rule_conditions(rule),
        app_id: rule_app_id(rule),
        weight: rule.priority as u64,
        action: rule.action,
    }
}

/// Appends to `conditions` the condition that the address text `ip_str`
/// gives for `field`, if it gives one. A range of IPv6 addresses gives none
/// and is reported as not supported.
pub fn add_ip_condition(conditions: &mut Vec<Condition>, ip_str: &str, field: ConditionField) -> (r:
    Result<(), NotSupported>)
    ensures
        final(conditions)@ == old(conditions)@ + optional(address_condition(field, ip_str@)),
        r is Err <==> address_not_supported(ip_str@),
{
    let chars = chars_of(ip_str);
    let ghost before = conditions@;
    match parse_ip(&chars) {
        Some(IpAddr::V4(a)) => {
            conditions.push(Condition { field, value: ConditionValue::Uint32(a.bits) });
            assert(conditions@ =~= before + optional(address_condition(field, ip_str@)));
            Ok(())
        },
        Some(IpAddr::V6(a)) => {
            conditions.push(Condition { field, value: ConditionValue::ByteArray16(a.bits) });
            assert(conditions@ =~= before + optional(address_condition(field, ip_str@)));
            Ok(())
        },
        None => {
            match IpNetwork::from_cidr(ip_str) {
                Ok(network) => {
                    match network.range() {
                        Some((low, high)) => {
                            conditions.push(
                                Condition {
                                    field,
                                    value: ConditionValue::RangeUint32 { low, high },
                                },
                            );
                            assert(conditions@ =~= before + optional(
                                address_condition(field, ip_str@),
                            ));
                            Ok(())
                        },
                        None => {
                            assert(conditions@ =~= before + optional(
                                address_condition(field, ip_str@),
                            ));
                            Err(NotSupported)
                        },
                    }
                },
                Err(_) => {
                    assert(conditions@ =~= before + optional(address_condition(field, ip_str@)));
                    Ok(())
                },
            }
        },
    }
}

fn add_port_condition(
    conditions: &mut Vec<Condition>,
    field: ConditionField,
    port: Option<u16>,
    range: Option<(u16, u16)>,
)
    ensures
        final(conditions)@ == old(conditions)@ + optional(port_condition(field, port, range)),
{
    let ghost before = conditions@;
    match port {
        Some(p) => {
            conditions.push(Condition { field, value: ConditionValue::Uint16(p) });
        },
        None => {
            match range {
                Some((low, high)) => {
                    conditions.push(
                        Condition { field, value: ConditionValue::RangeUint16 { low, high } },
                    );
                },
                None => {},
            }
        },
    }
    assert(conditions@ =~= before + optional(port_condition(field, port, range)));
}

fn add_field_condition(
    conditions: &mut Vec<Condition>,
    not_supported: &mut Vec<ConditionField>,
    text: &Option<String>,
    field: ConditionField,
)
    ensures
        final(conditions)@ == old(conditions)@ + optional(field_condition(field, *text)),
        final(not_supported)@ == old(not_supported)@ + (if field_not_supported(*text) {
            seq![field]
        } else {
            Seq::<ConditionField>::empty()
        }),
{
    let ghost before = conditions@;
    let ghost before_ns = not_supported@;
    match text {
        Some(t) => {
            match add_ip_condition(conditions, t.as_str(), field) {
                Ok(()) => {
                    assert(not_supported@ =~= before_ns + Seq::<ConditionField>::empty());
                },
                Err(_) => {
                    not_supported.push(field);
                    assert(not_supported@ =~= before_ns + seq![field]);
                },
            }
        },
        None => {
            assert(conditions@ =~= before + optional(field_condition(field, *text)));
            assert(not_supported@ =~= before_ns + Seq::<ConditionField>::empty());
        },
    }
}

/// Compiles `rule` for one layer. Returns what to submit, and the address
/// fields that ask for what is not supported and so gave no condition.
pub fn build_unit(rule: &FilterRule, layer: Layer) -> (r: (EnforcementUnit, Vec<ConditionField>))
    ensures
        r.0@ == unit_for(rule, layer),
        r.1@ == rule_not_supported(rule),
{
    let mut conditions: Vec<Condition> = Vec::new();
    let mut not_supported: Vec<ConditionField> = Vec::new();
    let app_id = match &rule.app_path {
        Some(path) => {
            conditions.push(
                Condition { field: ConditionField::AppId, value: ConditionValue::AppIdBlob },
            );
            Some(app_id_blob(path.as_str()))
        },
        None => None,
    };
    assert(conditions@ =~= optional(app_condition(rule.app_path)));
    add_field_condition(
        &mut conditions,
        &mut not_supported,
        &rule.local,
        ConditionField::LocalAddress,
    );
    add_field_condition(
        &mut conditions,
        &mut not_supported,
        &rule.remote,
        ConditionField::RemoteAddress,
    );
    add_port_condition(
        &mut conditions,
        ConditionField::LocalPort,
        rule.local_port,
        rule.local_port_range,
    );
    add_port_condition(
        &mut conditions,
        ConditionField::RemotePort,
        rule.remote_port,
        rule.remote_port_range,
    );
    let ghost before = conditions@;
    match rule.protocol {
        Some(p) => {
            conditions.push(
                Condition { field: ConditionField::Protocol, value: ConditionValue::Uint8(p.number()) },
            );
        },
        None => {},
    }
    assert(conditions@ =~= before + optional(protocol_condition(rule.protocol)));
    assert(not_supported@ =~= rule_not_supported(rule));
    let unit = EnforcementUnit {
        layer,
        conditions,
        app_id,
        weight: rule.priority as u64,
        action: rule.action,
    };
    (unit, not_supported)
}

/// A rule gives at most six conditions; an application condition comes with
/// the blob it refers to and with no other; and what is submitted for a rule
/// differs between its layers in the layer alone.
pub proof fn lemma_unit_shape(rule: &FilterRule, layer: Layer, other: Layer)
    ensures
        unit_for(rule, layer).conditions.len() <= 6,
        unit_for(rule, layer).app_id is Some <==> unit_for(rule, layer).conditions.contains(
            Condition { field: ConditionField::AppId, value: ConditionValue::AppIdBlob },
        ),
        unit_for(rule, layer).weight == rule.priority,
        unit_for(rule, other) == (UnitView { layer: other, ..unit_for(rule, layer) }),
{
    let app = Condition { field: ConditionField::AppId, value: ConditionValue::AppIdBlob };
    let c = unit_for(rule, layer).conditions;
    if rule.app_path is Some {
        assert(c[0] == app);
    } else {
        assert forall|i: int| 0 <= i < c.len() implies c[i] != app by {
            assert(c[i].field != ConditionField::AppId);
        }
    }
}

} // verus!
