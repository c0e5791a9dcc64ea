//! The enforcement layers of the filtering engine, and the choice of layers
//! for a rule.
//!
//! A rule that names an application is enforced where connections are
//! authorised, so that the decision can be tied to the process. A rule
//! without one is enforced on raw packets.

use vstd::prelude::*;
use crate::rule::{Direction, FilterRule};
use crate::text::chars_of;

verus! {

/// A 128-bit identifier in the layout that the filtering engine uses.
#[derive(Clone, Copy, Debug, PartialEq, Eq)]
pub struct GUID {
    pub data1: u32,
    pub data2: u16,
    pub data3: u16,
    pub data4: [u8; 8],
}

/// The points in the traffic path at which a filter can be installed.
#[derive(Clone, Copy, Debug, PartialEq, Eq, Structural)]
pub enum Layer {
    AleAuthConnectV4,
    AleAuthConnectV6,
    AleAuthRecvAcceptV4,
    AleAuthRecvAcceptV6,
    OutboundIpPacketV4,
    OutboundIpPacketV6,
    InboundIpPacketV4,
    InboundIpPacketV6,
}

impl Layer {
    /// Whether the layer authorises connections of a process, rather than
    /// looking at single packets.
    pub open spec fn is_application_scoped(self) -> bool {
        self == Layer::AleAuthConnectV4 || self == Layer::AleAuthConnectV6 || self
            == Layer::AleAuthRecvAcceptV4 || self == Layer::AleAuthRecvAcceptV6
    }

    /// Whether the layer sees IPv6 traffic.
    pub open spec fn is_v6(self) -> bool {
        self == Layer::AleAuthConnectV6 || self == Layer::AleAuthRecvAcceptV6 || self
            == Layer::OutboundIpPacketV6 || self == Layer::InboundIpPacketV6
    }

    /// Whether the layer sees incoming traffic.
    pub open spec fn is_inbound(self) -> bool {
        self == Layer::AleAuthRecvAcceptV4 || self == Layer::AleAuthRecvAcceptV6 || self
            == Layer::InboundIpPacketV4 || self == Layer::InboundIpPacketV6
    }

    /// The 128-bit value of the layer's identifier.
    pub open spec fn spec_key_bits(self) -> u128 {
        match self {
            Layer::AleAuthConnectV4 => 0xc38d57d1_05a7_4c33_904f_7fbceee60e82u128,
            Layer::AleAuthConnectV6 => 0x4a72393b_319f_44bc_84c3_ba54dcb3b6b4u128,
            Layer::AleAuthRecvAcceptV4 => 0xe1cd9fe7_f4b5_4273_96c0_592e487b8650u128,
            Layer::AleAuthRecvAcceptV6 => 0xa3b42c97_9f04_4672_b87e_cee9c483257fu128,
            Layer::OutboundIpPacketV4 => 0x1e5c9fae_8a84_4135_a331_950b54229ecdu128,
            Layer::OutboundIpPacketV6 => 0xa3b3ab6b_3564_488c_9117_f34e82142763u128,
            Layer::InboundIpPacketV4 => 0xc86fd1bf_21cd_497e_a0bb_17425c885c58u128,
            Layer::InboundIpPacketV6 => 0xf52032cb_991c_46e7_971d_2601459a91cau128,
        }
    }

    /// The 128-bit value of the layer's identifier.
    #[verifier::when_used_as_spec(spec_key_bits)]
    pub fn key_bits(self) -> (bits: u128)
        ensures
            bits == self.spec_key_bits(),
    {
        match self {
            Layer::AleAuthConnectV4 => 0xc38d57d1_05a7_4c33_904f_7fbceee60e82u128,
            Layer::AleAuthConnectV6 => 0x4a72393b_319f_44bc_84c3_ba54dcb3b6b4u128,
            Layer::AleAuthRecvAcceptV4 => 0xe1cd9fe7_f4b5_4273_96c0_592e487b8650u128,
            Layer::AleAuthRecvAcceptV6 => 0xa3b42c97_9f04_4672_b87e_cee9c483257fu128,
            Layer::OutboundIpPacketV4 => 0x1e5c9fae_8a84_4135_a331_950b54229ecdu128,
            Layer::OutboundIpPacketV6 => 0xa3b3ab6b_3564_488c_9117_f34e82142763u128,
            Layer::InboundIpPacketV4 => 0xc86fd1bf_21cd_497e_a0bb_17425c885c58u128,
            Layer::InboundIpPacketV6 => 0xf52032cb_991c_46e7_971d_2601459a91cau128,
        }
    }
}

/// The layer of the given scope, direction and address family.
pub open spec fn layer_of(application: bool, inbound: bool, v6: bool) -> Layer {
    if application {
        if inbound {
            if v6 {
                Layer::AleAuthRecvAcceptV6
            } else {
                Layer::AleAuthRecvAcceptV4
            }
        } else {
            if v6 {
                Layer::AleAuthConnectV6
            } else {
                Layer::AleAuthConnectV4
            }
        }
    } else {
        if inbound {
            if v6 {
                Layer::InboundIpPacketV6
            } else {
                Layer::InboundIpPacketV4
            }
        } else {
            if v6 {
                Layer::OutboundIpPacketV6
            } else {
                Layer::OutboundIpPacketV4
            }
        }
    }
}

/// The layers on which a rule of the given shape is installed: one for a
/// single direction, the outgoing one and then the incoming one for both.
pub open spec fn layers_for(application: bool, direction: Direction, v6: bool) -> Seq<Layer> {
    match direction {
        Direction::Outbound => seq![layer_of(application, false, v6)],
        Direction::Inbound => seq![layer_of(application, true, v6)],
        Direction::Both => seq![layer_of(application, false, v6), layer_of(application, true, v6)],
    }
}

/// Whether an optional address field holds a colon.
pub open spec fn field_has_colon(field: Option<String>) -> bool {
    match field {
        Some(s) => s@.contains(':'),
        None => false,
    }
}

/// Whether a rule is taken to be about IPv6: one of its address fields holds
/// a colon. A rule without addresses is taken to be about IPv4.
pub open spec fn rule_is_v6(rule: &FilterRule) -> bool {
    field_has_colon(rule.local) || field_has_colon(rule.remote)
}

/// The layers on which `rule` is installed.
pub open spec fn rule_layers(rule: &FilterRule) -> Seq<Layer> {
    layers_for(rule.app_path is Some, rule.direction, rule_is_v6(rule))
}

/// Tells whether `s` holds a colon.
pub fn has_colon(s: &str) -> (r: bool)
    ensures
        r == s@.contains(':'),
{
    let chars = chars_of(s);
    let mut i: usize = 0;
    while i < chars.len()
        invariant
            i <= chars.len(),
            chars@ == s@,
            forall|j: int| 0 <= j < i ==> chars@[j] != ':',
        decreases chars.len() - i,
    {
        if chars[i] == ':' {
            return true;
        }
        i = i + 1;
    }
    false
}

fn option_has_colon(field: &Option<String>) -> (r: bool)
    ensures
        r == field_has_colon(*field),
{
    match field {
        Some(s) => has_colon(s.as_str()),
        None => false,
    }
}

/// Chooses the layers on which `rule` is installed.
pub fn get_layers_for_rule(rule: &FilterRule) -> (layers: Vec<Layer>)
    ensures
        layers@ == rule_layers(rule),
{
    let mut layers: Vec<Layer> = Vec::new();
    let is_ipv6 = option_has_colon(&rule.local) || option_has_colon(&rule.remote);
    if rule.app_path.is_some() {
        match rule.direction {
            Direction::Outbound => {
                if is_ipv6 {
                    layers.push(Layer::AleAuthConnectV6);
                } else {
                    layers.push(Layer::AleAuthConnectV4);
                }
            },
            Direction::Inbound => {
                if is_ipv6 {
                    layers.push(Layer::AleAuthRecvAcceptV6);
                } else {
                    layers.push(Layer::AleAuthRecvAcceptV4);
                }
            },
            Direction::Both => {
                if is_ipv6 {
                    layers.push(Layer::AleAuthConnectV6);
                    layers.push(Layer::AleAuthRecvAcceptV6);
                } else {
                    layers.push(Layer::AleAuthConnectV4);
                    layers.push(Layer::AleAuthRecvAcceptV4);
                }
            },
        }
    } else {
        match rule.direction {
            Direction::Outbound => {
                if is_ipv6 {
                    layers.push(Layer::OutboundIpPacketV6);
                } else {
                    layers.push(Layer::OutboundIpPacketV4);
                }
            },
            Direction::Inbound => {
                if is_ipv6 {
                    layers.push(Layer::InboundIpPacketV6);
                } else {
                    layers.push(Layer::InboundIpPacketV4);
                }
            },
            Direction::Both => {
                if is_ipv6 {
                    layers.push(Layer::OutboundIpPacketV6);
                    layers.push(Layer::InboundIpPacketV6);
                } else {
                    layers.push(Layer::OutboundIpPacketV4);
                    layers.push(Layer::InboundIpPacketV4);
                }
            },
        }
    }
    assert(layers@ =~= rule_layers(rule));
    layers
}

/// A rule is installed on one layer per direction that it covers, never on
/// the same layer twice, and each of its layers has the rule's scope and
/// address family.
pub proof fn lemma_layers_shape(application: bool, direction: Direction, v6: bool)
    ensures
        layers_for(application, direction, v6).len() == (if direction == Direction::Both {
            2nat
        } else {
            1nat
        }),
        layers_for(application, direction, v6).no_duplicates(),
        forall|i: int|
            0 <= i < layers_for(application, direction, v6).len() ==> {
                let layer = #[trigger] layers_for(application, direction, v6)[i];
                &&& layer.is_application_scoped() == application
                &&& layer.is_v6() == v6
                &&& direction == Direction::Outbound ==> !layer.is_inbound()
                &&& direction == Direction::Inbound ==> layer.is_inbound()
            },
        direction == Direction::Both ==> !layers_for(application, direction, v6)[0].is_inbound()
            && layers_for(application, direction, v6)[1].is_inbound(),
{
}

/// Different layers have different identifiers.
pub proof fn lemma_layer_keys_differ(a: Layer, b: Layer)
    ensures
        a.spec_key_bits() == b.spec_key_bits() <==> a == b,
{
}

/// The 128-bit value of an identifier: `data1`, `data2`, `data3` and the
/// eight bytes of `data4`, most significant first.
pub open spec fn guid_bits(data1: u32, data2: u16, data3: u16, data4: Seq<u8>) -> u128
    recommends
        data4.len() == 8,
{
    (data1 * 0x1_0000_0000_0000_0000_0000_0000 + data2 * 0x1_0000_0000_0000_0000_0000 + data3
        * 0x1_0000_0000_0000_0000 + data4[0] * 0x100_0000_0000_0000 + data4[1]
        * 0x1_0000_0000_0000 + data4[2] * 0x100_0000_0000 + data4[3] * 0x1_0000_0000 + data4[4]
        * 0x100_0000 + data4[5] * 0x1_0000 + data4[6] * 0x100 + data4[7]) as u128
}

impl GUID {
    /// The 128-bit value of the identifier.
    pub open spec fn spec_to_u128(&self) -> u128 {
        guid_bits(self.data1, self.data2, self.data3, self.data4@)
    }

    /// The identifier with the given 128-bit value.
    pub fn from_u128(uuid: u128) -> (g: GUID)
        ensures
            g.spec_to_u128() == uuid,
    {
        let low: u64 = (uuid % 0x1_0000_0000_0000_0000) as u64;
        let high: u64 = (uuid / 0x1_0000_0000_0000_0000) as u64;
        assert(low == (low / 0x100_0000_0000_0000) * 0x100_0000_0000_0000 + ((low
            / 0x1_0000_0000_0000) % 0x100) * 0x1_0000_0000_0000 + ((low / 0x100_0000_0000) % 0x100)
            * 0x100_0000_0000 + ((low / 0x1_0000_0000) % 0x100) * 0x1_0000_0000 + ((low
            / 0x100_0000) % 0x100) * 0x100_0000 + ((low / 0x1_0000) % 0x100) * 0x1_0000 + ((low
            / 0x100) % 0x100) * 0x100 + (low % 0x100)) by (bit_vector);
        assert(high == (high / 0x1_0000_0000) * 0x1_0000_0000 + ((high / 0x1_0000) % 0x1_0000)
            * 0x1_0000 + (high % 0x1_0000)) by (bit_vector);
        assert(low / 0x100_0000_0000_0000 < 0x100) by (bit_vector);
        assert(high / 0x1_0000_0000 < 0x1_0000_0000) by (bit_vector);
        let g = GUID {
            data1: (high / 0x1_0000_0000) as u32,
            data2: ((high / 0x1_0000) % 0x1_0000) as u16,
            data3: (high % 0x1_0000) as u16,
            data4: [
                (low / 0x100_0000_0000_0000) as u8,
                ((low / 0x1_0000_0000_0000) % 0x100) as u8,
                ((low / 0x100_0000_0000) % 0x100) as u8,
                ((low / 0x1_0000_0000) % 0x100) as u8,
                ((low / 0x100_0000) % 0x100) as u8,
                ((low / 0x1_0000) % 0x100) as u8,
                ((low / 0x100) % 0x100) as u8,
                (low % 0x100) as u8,
            ],
        };
        g
    }

    /// The 128-bit value of the identifier.
    #[verifier::when_used_as_spec(spec_to_u128)]
    pub fn to_u128(&self) -> (bits: u128)
        ensures
            bits == self.spec_to_u128(),
    {
        (self.data1 as u128) * 0x1_0000_0000_0000_0000_0000_0000 + (self.data2 as u128)
            * 0x1_0000_0000_0000_0000_0000 + (self.data3 as u128) * 0x1_0000_0000_0000_0000 + (
        self.data4[0] as u128) * 0x100_0000_0000_0000 + (self.data4[1] as u128)
            * 0x1_0000_0000_0000 + (self.data4[2] as u128) * 0x100_0000_0000 + (
        self.data4[3] as u128) * 0x1_0000_0000 + (self.data4[4] as u128) * 0x100_0000 + (
        self.data4[5] as u128) * 0x1_0000 + (self.data4[6] as u128) * 0x100 + (
        self.data4[7] as u128)
    }
}

/// The layer with the given identifier value, if there is one.
pub open spec fn layer_with_key(bits: u128) -> Option<Layer> {
    if bits == Layer::AleAuthConnectV4.spec_key_bits() {
        Some(Layer::AleAuthConnectV4)
    } else if bits == Layer::AleAuthConnectV6.spec_key_bits() {
        Some(Layer::AleAuthConnectV6)
    } else if bits == Layer::AleAuthRecvAcceptV4.spec_key_bits() {
        Some(Layer::AleAuthRecvAcceptV4)
    } else if bits == Layer::AleAuthRecvAcceptV6.spec_key_bits() {
        Some(Layer::AleAuthRecvAcceptV6)
    } else if bits == Layer::OutboundIpPacketV4.spec_key_bits() {
        Some(Layer::OutboundIpPacketV4)
    } else if bits == Layer::OutboundIpPacketV6.spec_key_bits() {
        Some(Layer::OutboundIpPacketV6)
    } else if bits == Layer::InboundIpPacketV4.spec_key_bits() {
        Some(Layer::InboundIpPacketV4)
    } else if bits == Layer::InboundIpPacketV6.spec_key_bits() {
        Some(Layer::InboundIpPacketV6)
    } else {
        None
    }
}

/// The name under which a layer appears in diagnostics.
pub open spec fn layer_name(layer: Option<Layer>) -> Seq<char> {
    match layer {
        Some(Layer::AleAuthConnectV4) => "ALE_AUTH_CONNECT_V4"@,
        Some(Layer::AleAuthConnectV6) => "ALE_AUTH_CONNECT_V6"@,
        Some(Layer::AleAuthRecvAcceptV4) => "ALE_AUTH_RECV_ACCEPT_V4"@,
        Some(Layer::AleAuthRecvAcceptV6) => "ALE_AUTH_RECV_ACCEPT_V6"@,
        Some(Layer::OutboundIpPacketV4) => "OUTBOUND_IPPACKET_V4"@,
        Some(Layer::OutboundIpPacketV6) => "OUTBOUND_IPPACKET_V6"@,
        Some(Layer::InboundIpPacketV4) => "INBOUND_IPPACKET_V4"@,
        Some(Layer::InboundIpPacketV6) => "INBOUND_IPPACKET_V6"@,
        None => "UNKNOWN_LAYER"@,
    }
}

impl Layer {
    /// The identifier of the layer.
    pub fn key(self) -> (g: GUID)
        ensures
            g.spec_to_u128() == self.spec_key_bits(),
    {
        GUID::from_u128(self.key_bits())
    }

    /// The layer with the given identifier, if there is one.
    pub fn from_key(key: &GUID) -> (r: Option<Layer>)
        ensures
            r == layer_with_key(key.spec_to_u128()),
    {
        let bits = key.to_u128();
        if bits == Layer::AleAuthConnectV4.key_bits() {
            Some(Layer::AleAuthConnectV4)
        } else if bits == Layer::AleAuthConnectV6.key_bits() {
            Some(Layer::AleAuthConnectV6)
        } else if bits == Layer::AleAuthRecvAcceptV4.key_bits() {
            Some(Layer::AleAuthRecvAcceptV4)
        } else if bits == Layer::AleAuthRecvAcceptV6.key_bits() {
            Some(Layer::AleAuthRecvAcceptV6)
        } else if bits == Layer::OutboundIpPacketV4.key_bits() {
            Some(Layer::OutboundIpPacketV4)
        } else if bits == Layer::OutboundIpPacketV6.key_bits() {
            Some(Layer::OutboundIpPacketV6)
        } else if bits == Layer::InboundIpPacketV4.key_bits() {
            Some(Layer::InboundIpPacketV4)
        } else if bits == Layer::InboundIpPacketV6.key_bits() {
            Some(Layer::InboundIpPacketV6)
        } else {
            None
        }
    }
}

/// The name of the layer with the given identifier, for diagnostics.
pub fn get_layer_name(layer_key: &GUID) -> (name: &'static str)
    ensures
        name@ == layer_name(layer_with_key(layer_key.spec_to_u128())),
{
    match Layer::from_key(layer_key) {
        Some(Layer::AleAuthConnectV4) => "ALE_AUTH_CONNECT_V4",
        Some(Layer::AleAuthConnectV6) => "ALE_AUTH_CONNECT_V6",
        Some(Layer::AleAuthRecvAcceptV4) => "ALE_AUTH_RECV_ACCEPT_V4",
        Some(Layer::AleAuthRecvAcceptV6) => "ALE_AUTH_RECV_ACCEPT_V6",
        Some(Layer::OutboundIpPacketV4) => "OUTBOUND_IPPACKET_V4",
        Some(Layer::OutboundIpPacketV6) => "OUTBOUND_IPPACKET_V6",
        Some(Layer::InboundIpPacketV4) => "INBOUND_IPPACKET_V4",
        Some(Layer::InboundIpPacketV6) => "INBOUND_IPPACKET_V6",
        None => "UNKNOWN_LAYER",
    }
}

/// The identifier of a layer leads back to that layer.
pub proof fn lemma_layer_key_round_trip(layer: Layer)
    ensures
        layer_with_key(layer.spec_key_bits()) == Some(layer),
{
}

} // verus!
