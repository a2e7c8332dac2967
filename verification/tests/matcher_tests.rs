use frps_defender::matcher::{provider_names, provider_strs, Matcher};
use frps_defender::net::IpAddress;

fn matcher() -> Matcher {
    Matcher::build()
}

fn providers(names: &[&str]) -> Vec<String> {
    names.iter().map(|s| s.to_string()).collect()
}

#[test]
fn private_ip_blocked_by_private_provider() {
    let m = matcher();
    let ip = IpAddress::v4(10, 0, 0, 1);
    assert!(m.is_blocked(ip, &providers(&["private"])).is_some());
}

#[test]
fn private_ip_blocked_by_all_provider() {
    let m = matcher();
    let ip = IpAddress::v4(192, 168, 1, 1);
    assert!(m.is_blocked(ip, &providers(&["all"])).is_some());
}

#[test]
fn public_ip_not_blocked_by_private_provider() {
    let m = matcher();
    let ip = IpAddress::v4(8, 8, 8, 8);
    assert!(m.is_blocked(ip, &providers(&["private"])).is_none());
}

#[test]
fn unknown_provider_does_not_block() {
    let m = matcher();
    let ip = IpAddress::v4(10, 0, 0, 1);
    assert!(m.is_blocked(ip, &providers(&["nonexistent"])).is_none());
}

#[test]
fn returns_first_matching_provider_name() {
    let m = matcher();
    let ip = IpAddress::v4(10, 0, 0, 1);
    let binding = providers(&["aws", "private"]);
    let result = m.is_blocked(ip, &binding);
    assert_eq!(result, Some("private"));
}

#[test]
fn empty_providers_never_blocks() {
    let m = matcher();
    let ip = IpAddress::v4(10, 0, 0, 1);
    assert!(m.is_blocked(ip, &[]).is_none());
}

#[test]
fn first_of_two_blocking_providers_is_named() {
    let m = matcher();
    let ip = IpAddress::v4(172, 16, 5, 4);
    let binding = providers(&["nonexistent", "all", "private"]);
    assert_eq!(m.is_blocked(ip, &binding), Some("all"));
}

#[test]
fn ipv6_loopback_blocked_by_private_provider() {
    let m = matcher();
    let ip = IpAddress::V6(1);
    assert_eq!(m.is_blocked(ip, &providers(&["private"])), Some("private"));
    assert!(m.is_blocked(IpAddress::V6(2), &providers(&["private"])).is_none());
}

#[test]
fn all_blocks_what_private_blocks() {
    let m = matcher();
    for ip in [
        IpAddress::v4(10, 255, 0, 1),
        IpAddress::v4(127, 0, 0, 1),
        IpAddress::v4(169, 254, 3, 3),
        IpAddress::v4(172, 31, 255, 255),
        IpAddress::v4(192, 168, 0, 0),
        IpAddress::V6(0xfe80_u128 << 112),
        IpAddress::V6(0xfd12_u128 << 112),
    ] {
        assert!(m.is_blocked(ip, &providers(&["private"])).is_some());
        assert!(m.is_blocked(ip, &providers(&["all"])).is_some());
    }
    assert!(m.is_blocked(IpAddress::v4(172, 32, 0, 0), &providers(&["all"])).is_none());
}

#[test]
fn provider_strs_of_known_and_unknown_names() {
    assert_eq!(provider_strs("private").map(|s| s.len()), Some(8));
    assert_eq!(provider_strs("all").map(|s| s.len()), Some(8));
    assert_eq!(provider_strs("private").unwrap()[0], "10.0.0.0/8");
    assert!(provider_strs("aws").is_some());
    assert!(provider_strs("nonexistent").is_none());
    assert!(provider_strs("").is_none());
    assert_eq!(provider_names().len(), 16);
    for name in provider_names() {
        assert!(provider_strs(name).is_some());
    }
}
