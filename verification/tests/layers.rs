use astral_wfp::layer::{get_layer_name, get_layers_for_rule, has_colon, Layer, GUID};
use astral_wfp::rule::{Direction, FilterRule};

const ALL: [Layer; 8] = [
    Layer::AleAuthConnectV4,
    Layer::AleAuthConnectV6,
    Layer::AleAuthRecvAcceptV4,
    Layer::AleAuthRecvAcceptV6,
    Layer::OutboundIpPacketV4,
    Layer::OutboundIpPacketV6,
    Layer::InboundIpPacketV4,
    Layer::InboundIpPacketV6,
];

fn rule(app: bool, direction: Direction, local: Option<&str>, remote: Option<&str>) -> FilterRule {
    let mut r = FilterRule::new("r");
    if app {
        r.set_app_path(Some("C:\\app.exe".to_string()));
    }
    r.set_direction(direction);
    r.set_local_ip(local.map(|s| s.to_string()));
    r.set_remote_ip(remote.map(|s| s.to_string()));
    r
}

#[test]
fn application_rule_both_directions_ipv4() {
    let r = rule(true, Direction::Both, Some("10.0.0.1"), Some("10.0.0.0/8"));
    assert_eq!(get_layers_for_rule(&r), vec![Layer::AleAuthConnectV4, Layer::AleAuthRecvAcceptV4]);
}

#[test]
fn network_rule_outbound_ipv6() {
    let r = rule(false, Direction::Outbound, None, Some("2001:db8::1"));
    assert_eq!(get_layers_for_rule(&r), vec![Layer::OutboundIpPacketV6]);
    let r = rule(false, Direction::Outbound, Some("::1"), Some("10.0.0.1"));
    assert_eq!(get_layers_for_rule(&r), vec![Layer::OutboundIpPacketV6]);
}

#[test]
fn every_shape_of_rule() {
    let v4 = Some("10.0.0.1");
    let v6 = Some("fe80::1");
    assert_eq!(get_layers_for_rule(&rule(true, Direction::Outbound, v4, None)), vec![Layer::AleAuthConnectV4]);
    assert_eq!(get_layers_for_rule(&rule(true, Direction::Outbound, v6, None)), vec![Layer::AleAuthConnectV6]);
    assert_eq!(get_layers_for_rule(&rule(true, Direction::Inbound, v4, None)), vec![Layer::AleAuthRecvAcceptV4]);
    assert_eq!(get_layers_for_rule(&rule(true, Direction::Inbound, v6, None)), vec![Layer::AleAuthRecvAcceptV6]);
    assert_eq!(
        get_layers_for_rule(&rule(true, Direction::Both, v6, None)),
        vec![Layer::AleAuthConnectV6, Layer::AleAuthRecvAcceptV6]
    );
    assert_eq!(get_layers_for_rule(&rule(false, Direction::Outbound, v4, None)), vec![Layer::OutboundIpPacketV4]);
    assert_eq!(get_layers_for_rule(&rule(false, Direction::Inbound, v4, None)), vec![Layer::InboundIpPacketV4]);
    assert_eq!(get_layers_for_rule(&rule(false, Direction::Inbound, v6, None)), vec![Layer::InboundIpPacketV6]);
    assert_eq!(
        get_layers_for_rule(&rule(false, Direction::Both, v4, None)),
        vec![Layer::OutboundIpPacketV4, Layer::InboundIpPacketV4]
    );
    assert_eq!(
        get_layers_for_rule(&rule(false, Direction::Both, None, v6)),
        vec![Layer::OutboundIpPacketV6, Layer::InboundIpPacketV6]
    );
}

#[test]
fn rule_without_addresses_counts_as_ipv4() {
    assert_eq!(
        get_layers_for_rule(&rule(false, Direction::Both, None, None)),
        vec![Layer::OutboundIpPacketV4, Layer::InboundIpPacketV4]
    );
    assert_eq!(get_layers_for_rule(&rule(true, Direction::Inbound, None, None)), vec![Layer::AleAuthRecvAcceptV4]);
}

#[test]
fn family_goes_by_the_colon_alone() {
    assert!(has_colon("::1"));
    assert!(has_colon("not:an:address"));
    assert!(!has_colon("10.0.0.1"));
    assert!(!has_colon(""));
    let r = rule(false, Direction::Inbound, Some("a:b"), None);
    assert_eq!(get_layers_for_rule(&r), vec![Layer::InboundIpPacketV6]);
}

#[test]
fn layer_keys_are_those_of_the_platform() {
    let expected: [(u32, u16, u16, [u8; 8]); 8] = [
        (0xc38d57d1, 0x05a7, 0x4c33, [0x90, 0x4f, 0x7f, 0xbc, 0xee, 0xe6, 0x0e, 0x82]),
        (0x4a72393b, 0x319f, 0x44bc, [0x84, 0xc3, 0xba, 0x54, 0xdc, 0xb3, 0xb6, 0xb4]),
        (0xe1cd9fe7, 0xf4b5, 0x4273, [0x96, 0xc0, 0x59, 0x2e, 0x48, 0x7b, 0x86, 0x50]),
        (0xa3b42c97, 0x9f04, 0x4672, [0xb8, 0x7e, 0xce, 0xe9, 0xc4, 0x83, 0x25, 0x7f]),
        (0x1e5c9fae, 0x8a84, 0x4135, [0xa3, 0x31, 0x95, 0x0b, 0x54, 0x22, 0x9e, 0xcd]),
        (0xa3b3ab6b, 0x3564, 0x488c, [0x91, 0x17, 0xf3, 0x4e, 0x82, 0x14, 0x27, 0x63]),
        (0xc86fd1bf, 0x21cd, 0x497e, [0xa0, 0xbb, 0x17, 0x42, 0x5c, 0x88, 0x5c, 0x58]),
        (0xf52032cb, 0x991c, 0x46e7, [0x97, 0x1d, 0x26, 0x01, 0x45, 0x9a, 0x91, 0xca]),
    ];
    for (layer, key) in ALL.iter().zip(expected.iter()) {
        let g = layer.key();
        assert_eq!((g.data1, g.data2, g.data3, g.data4), *key);
        assert_eq!(g.to_u128(), layer.key_bits());
        assert_eq!(Layer::from_key(&g), Some(*layer));
    }
}

#[test]
fn guid_layout() {
    let g = GUID::from_u128(0xc38d57d1_05a7_4c33_904f_7fbceee60e82);
    assert_eq!(g.data1, 0xc38d57d1);
    assert_eq!(g.data2, 0x05a7);
    assert_eq!(g.data3, 0x4c33);
    assert_eq!(g.data4, [0x90, 0x4f, 0x7f, 0xbc, 0xee, 0xe6, 0x0e, 0x82]);
    assert_eq!(g.to_u128(), 0xc38d57d1_05a7_4c33_904f_7fbceee60e82);
    assert_eq!(GUID::from_u128(0).to_u128(), 0);
    assert_eq!(GUID::from_u128(u128::MAX).to_u128(), u128::MAX);
    let g = GUID::from_u128(0x0123_4567_89ab_cdef_fedc_ba98_7654_3210);
    assert_eq!(
        (g.data1, g.data2, g.data3, g.data4),
        (0x0123_4567, 0x89ab, 0xcdef, [0xfe, 0xdc, 0xba, 0x98, 0x76, 0x54, 0x32, 0x10])
    );
}

#[test]
fn layer_names() {
    let names = [
        "ALE_AUTH_CONNECT_V4",
        "ALE_AUTH_CONNECT_V6",
        "ALE_AUTH_RECV_ACCEPT_V4",
        "ALE_AUTH_RECV_ACCEPT_V6",
        "OUTBOUND_IPPACKET_V4",
        "OUTBOUND_IPPACKET_V6",
        "INBOUND_IPPACKET_V4",
        "INBOUND_IPPACKET_V6",
    ];
    for (layer, name) in ALL.iter().zip(names.iter()) {
        assert_eq!(get_layer_name(&layer.key()), *name);
    }
    assert_eq!(get_layer_name(&GUID::from_u128(0)), "UNKNOWN_LAYER");
    let other = GUID::from_u128(0xeebecc03_ced4_4380_819a_2734397b2b74);
    assert_eq!(get_layer_name(&other), "UNKNOWN_LAYER");
    assert_eq!(Layer::from_key(&other), None);
}
