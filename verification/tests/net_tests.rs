use frps_defender::net::{parse_cidr, CidrError, IpAddress, IpNetwork};
use frps_defender::text::str_eq;

#[test]
fn parses_ipv4_cidr_keeping_host_bits() {
    assert_eq!(parse_cidr("1.2.3.0/24"), Ok(IpNetwork::V4 { addr: 0x0102_0300, prefix_len: 24 }));
    assert_eq!(parse_cidr("1.2.3.99/24"), Ok(IpNetwork::V4 { addr: 0x0102_0363, prefix_len: 24 }));
}

#[test]
fn parses_ipv6_cidr() {
    assert_eq!(parse_cidr("fc00::/7"), Ok(IpNetwork::V6 { addr: 0xfc00_u128 << 112, prefix_len: 7 }));
    assert_eq!(parse_cidr("::1/128"), Ok(IpNetwork::V6 { addr: 1, prefix_len: 128 }));
}

#[test]
fn refuses_bad_cidr() {
    assert_eq!(parse_cidr("not-a-cidr"), Err(CidrError::Invalid));
    assert_eq!(parse_cidr("1.2.3.4/33"), Err(CidrError::Invalid));
    assert_eq!(parse_cidr("1.2.3.4"), Err(CidrError::Invalid));
    assert_eq!(parse_cidr(""), Err(CidrError::Invalid));
}

#[test]
fn contains_follows_the_prefix() {
    let net = parse_cidr("1.2.3.0/24").unwrap();
    assert!(net.contains(&IpAddress::v4(1, 2, 3, 0)));
    assert!(net.contains(&IpAddress::v4(1, 2, 3, 255)));
    assert!(!net.contains(&IpAddress::v4(1, 2, 4, 0)));
    assert!(!net.contains(&IpAddress::v4(1, 2, 2, 255)));
    assert!(!net.contains(&IpAddress::V6(0x0102_0301)));
}

#[test]
fn zero_prefix_contains_its_family() {
    let v4 = IpNetwork::V4 { addr: 0x0a00_0000, prefix_len: 0 };
    assert!(v4.contains(&IpAddress::v4(255, 255, 255, 255)));
    assert!(v4.contains(&IpAddress::v4(0, 0, 0, 0)));
    assert!(!v4.contains(&IpAddress::V6(0)));
    let v6 = IpNetwork::V6 { addr: 7, prefix_len: 0 };
    assert!(v6.contains(&IpAddress::V6(u128::MAX)));
}

#[test]
fn host_network_holds_one_address() {
    let net = IpNetwork::host(IpAddress::v4(5, 6, 7, 8));
    assert_eq!(net, IpNetwork::V4 { addr: 0x0506_0708, prefix_len: 32 });
    assert!(net.contains(&IpAddress::v4(5, 6, 7, 8)));
    assert!(!net.contains(&IpAddress::v4(5, 6, 7, 9)));
}

#[test]
fn v4_builds_big_endian_value() {
    assert_eq!(IpAddress::v4(192, 168, 1, 2), IpAddress::V4(0xc0a8_0102));
}

#[test]
fn str_eq_compares_characters() {
    assert!(str_eq("private", "private"));
    assert!(!str_eq("private", "privatE"));
    assert!(!str_eq("all", "al"));
    assert!(str_eq("", ""));
}
