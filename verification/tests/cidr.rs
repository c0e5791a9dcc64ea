use astral_wfp::addr::{IpAddr, Ipv4Addr, Ipv6Addr};
use astral_wfp::network::{mask_for, CidrError, IpNetwork};

fn v4(a: u8, b: u8, c: u8, d: u8) -> IpAddr {
    IpAddr::V4(Ipv4Addr { bits: u32::from_be_bytes([a, b, c, d]) })
}

#[test]
fn cidr_masks_host_bits() {
    let net = IpNetwork::from_cidr("192.168.1.5/24").unwrap();
    assert_eq!(net.ip, v4(192, 168, 1, 0));
    assert_eq!(net.prefix_len, 24);
}

#[test]
fn cidr_rejects_prefix_beyond_family_width() {
    assert_eq!(IpNetwork::from_cidr("10.0.0.0/33"), Err(CidrError::InvalidPrefixLength));
    assert_eq!(IpNetwork::from_cidr("::1/129"), Err(CidrError::InvalidPrefixLength));
    assert_eq!(IpNetwork::from_cidr("10.0.0.0/256"), Err(CidrError::InvalidPrefixLength));
    assert_eq!(IpNetwork::from_cidr("10.0.0.0/99999999999999999999"), Err(CidrError::InvalidPrefixLength));
}

#[test]
fn cidr_prefix_zero_and_full() {
    let all = IpNetwork::from_cidr("10.0.0.0/0").unwrap();
    assert_eq!(all.ip, v4(0, 0, 0, 0));
    assert_eq!(all.prefix_len, 0);
    let host = IpNetwork::from_cidr("10.0.0.0/32").unwrap();
    assert_eq!(host.ip, v4(10, 0, 0, 0));
    let host = IpNetwork::from_cidr("10.1.2.3/32").unwrap();
    assert_eq!(host.ip, v4(10, 1, 2, 3));
    assert_eq!(host.prefix_len, 32);
}

#[test]
fn cidr_needs_exactly_two_parts() {
    assert_eq!(IpNetwork::from_cidr("10.0.0.0"), Err(CidrError::MalformedCidr));
    assert_eq!(IpNetwork::from_cidr("10.0.0.0/8/9"), Err(CidrError::MalformedCidr));
    assert_eq!(IpNetwork::from_cidr(""), Err(CidrError::MalformedCidr));
}

#[test]
fn cidr_reports_bad_address_before_bad_prefix() {
    assert_eq!(IpNetwork::from_cidr("not-an-ip/8"), Err(CidrError::InvalidAddress));
    assert_eq!(IpNetwork::from_cidr("not-an-ip/x"), Err(CidrError::InvalidAddress));
    assert_eq!(IpNetwork::from_cidr("/8"), Err(CidrError::InvalidAddress));
    assert_eq!(IpNetwork::from_cidr("300.0.0.0/8"), Err(CidrError::InvalidAddress));
}

#[test]
fn cidr_reports_prefix_that_is_no_number() {
    assert_eq!(IpNetwork::from_cidr("10.0.0.0/"), Err(CidrError::InvalidPrefixLength));
    assert_eq!(IpNetwork::from_cidr("10.0.0.0/x"), Err(CidrError::InvalidPrefixLength));
    assert_eq!(IpNetwork::from_cidr("10.0.0.0/-1"), Err(CidrError::InvalidPrefixLength));
    assert_eq!(IpNetwork::from_cidr("10.0.0.0/+"), Err(CidrError::InvalidPrefixLength));
    assert_eq!(IpNetwork::from_cidr("10.0.0.0/ 8"), Err(CidrError::InvalidPrefixLength));
    assert_eq!(IpNetwork::from_cidr("10.0.0.0/8 "), Err(CidrError::InvalidPrefixLength));
}

#[test]
fn cidr_prefix_may_carry_plus_and_leading_zeros() {
    let net = IpNetwork::from_cidr("10.9.8.7/+16").unwrap();
    assert_eq!(net.ip, v4(10, 9, 0, 0));
    assert_eq!(net.prefix_len, 16);
    let net = IpNetwork::from_cidr("10.9.8.7/008").unwrap();
    assert_eq!(net.ip, v4(10, 0, 0, 0));
    assert_eq!(net.prefix_len, 8);
}

#[test]
fn cidr_odd_prefixes() {
    let net = IpNetwork::from_cidr("255.255.255.255/1").unwrap();
    assert_eq!(net.ip, v4(128, 0, 0, 0));
    let net = IpNetwork::from_cidr("255.255.255.255/31").unwrap();
    assert_eq!(net.ip, v4(255, 255, 255, 254));
    let net = IpNetwork::from_cidr("172.16.37.200/20").unwrap();
    assert_eq!(net.ip, v4(172, 16, 32, 0));
}

#[test]
fn cidr_ipv6_address_is_kept_as_written() {
    let net = IpNetwork::from_cidr("2001:db8::1/32").unwrap();
    assert_eq!(net.ip, IpAddr::V6(Ipv6Addr { bits: 0x2001_0db8_0000_0000_0000_0000_0000_0001 }));
    assert_eq!(net.prefix_len, 32);
    let net = IpNetwork::from_cidr("::1/128").unwrap();
    assert_eq!(net.prefix_len, 128);
    let net = IpNetwork::from_cidr("ffff::/0").unwrap();
    assert_eq!(net.ip, IpAddr::V6(Ipv6Addr { bits: 0xffff_0000_0000_0000_0000_0000_0000_0000 }));
}

#[test]
fn mask_values() {
    assert_eq!(mask_for(0), 0);
    assert_eq!(mask_for(1), 0x8000_0000);
    assert_eq!(mask_for(8), 0xFF00_0000);
    assert_eq!(mask_for(24), 0xFFFF_FF00);
    assert_eq!(mask_for(31), 0xFFFF_FFFE);
    assert_eq!(mask_for(32), 0xFFFF_FFFF);
}

#[test]
fn range_of_ipv4_network() {
    let net = IpNetwork::from_cidr("192.168.1.5/24").unwrap();
    assert_eq!(net.range(), Some((0xC0A8_0100, 0xC0A8_01FF)));
    let net = IpNetwork::from_cidr("10.0.0.0/0").unwrap();
    assert_eq!(net.range(), Some((0, 0xFFFF_FFFF)));
    let net = IpNetwork::from_cidr("10.1.2.3/32").unwrap();
    assert_eq!(net.range(), Some((0x0A01_0203, 0x0A01_0203)));
    let net = IpNetwork::from_cidr("2001:db8::/32").unwrap();
    assert_eq!(net.range(), None);
}

#[test]
fn matches_single_address() {
    let net = IpNetwork::from_cidr("192.168.1.5/24").unwrap();
    assert!(net.matches_single(v4(192, 168, 1, 0)));
    assert!(net.matches_single(v4(192, 168, 1, 77)));
    assert!(net.matches_single(v4(192, 168, 1, 255)));
    assert!(!net.matches_single(v4(192, 168, 2, 0)));
    assert!(!net.matches_single(v4(192, 168, 0, 255)));
    assert!(!net.matches_single(IpAddr::V6(Ipv6Addr { bits: 0xC0A8_0101 })));
    let net6 = IpNetwork::from_cidr("2001:db8::/32").unwrap();
    assert!(!net6.matches_single(IpAddr::V6(Ipv6Addr { bits: 0x2001_0db8_0000_0000_0000_0000_0000_0000 })));
    assert!(!net6.matches_single(v4(1, 2, 3, 4)));
}

#[test]
fn network_address_is_idempotent() {
    let net = IpNetwork::from_cidr("172.16.37.200/20").unwrap();
    let again = IpNetwork::from_cidr("172.16.32.0/20").unwrap();
    assert_eq!(net, again);
}
