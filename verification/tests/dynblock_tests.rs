use frps_defender::dynblock::{DynBlockStore, Route, StoreOutcome};
use frps_defender::net::{CidrError, IpAddress};

fn in_memory() -> DynBlockStore {
    DynBlockStore::new()
}

#[test]
fn empty_store_allows_all() {
    let store = in_memory();
    let ip = IpAddress::v4(1, 2, 3, 4);
    assert!(!store.is_blocked(&ip));
}

#[test]
fn add_route_blocks_ip_in_range() {
    let mut store = in_memory();
    let route = Route::parse("1.2.3.0/24").unwrap();
    store.add(&route, StoreOutcome::Inserted);
    assert!(store.is_blocked(&IpAddress::v4(1, 2, 3, 99)));
    assert!(!store.is_blocked(&IpAddress::v4(1, 2, 4, 1)));
}

#[test]
fn add_ephemeral_blocks_exact_ip_only() {
    let mut store = in_memory();
    let ip = IpAddress::v4(5, 6, 7, 8);
    store.add_ephemeral(ip);
    assert!(store.is_blocked(&IpAddress::v4(5, 6, 7, 8)));
    assert!(!store.is_blocked(&IpAddress::v4(5, 6, 7, 9)));
}

#[test]
fn duplicate_add_is_idempotent() {
    let mut store = in_memory();
    let route = Route::parse("10.0.0.0/8").unwrap();
    store.add(&route, StoreOutcome::Inserted);
    store.add(&route, StoreOutcome::AlreadyStored);
    assert!(store.is_blocked(&IpAddress::v4(10, 1, 2, 3)));
}

#[test]
fn route_stored_elsewhere_is_listed() {
    let mut store = in_memory();
    let route = Route::parse("10.0.0.0/8").unwrap();
    store.add(&route, StoreOutcome::AlreadyStored);
    assert!(store.is_blocked(&IpAddress::v4(10, 1, 2, 3)));
}

#[test]
fn failed_store_still_blocks_for_the_session() {
    let mut store = in_memory();
    let route = Route::parse("198.51.100.0/24").unwrap();
    store.add(&route, StoreOutcome::Failed);
    assert!(store.is_blocked(&IpAddress::v4(198, 51, 100, 200)));
    assert!(!store.is_blocked(&IpAddress::v4(198, 51, 101, 0)));
}

#[test]
fn reloaded_row_counts_as_stored() {
    let mut store = DynBlockStore::from_stored(&vec!["10.0.0.0/8".to_string()]);
    let route = Route::parse("10.0.0.0/8").unwrap();
    store.add(&route, StoreOutcome::AlreadyStored);
    assert!(store.is_blocked(&IpAddress::v4(10, 9, 9, 9)));
}

#[test]
fn route_parse_keeps_text_and_network() {
    let route = Route::parse("1.2.3.0/24").unwrap();
    assert_eq!(route.cidr(), "1.2.3.0/24");
    assert_eq!(route.network(), frps_defender::net::IpNetwork::V4 { addr: 0x0102_0300, prefix_len: 24 });
    assert_eq!(Route::parse("1.2.3.0/99").err(), Some(CidrError::Invalid));
}

#[test]
fn stored_routes_reload_skipping_bad_rows() {
    let stored = vec!["192.168.1.0/24".to_string(), "garbage".to_string(), "2001:db8::/32".to_string()];
    let store = DynBlockStore::from_stored(&stored);
    assert!(store.is_blocked(&IpAddress::v4(192, 168, 1, 100)));
    assert!(store.is_blocked(&IpAddress::V6(0x2001_0db8_u128 << 96 | 5)));
    assert!(!store.is_blocked(&IpAddress::v4(192, 168, 2, 1)));
}

#[test]
fn ephemeral_ipv6_blocks_exact_address_only() {
    let mut store = in_memory();
    store.add_ephemeral(IpAddress::V6(42));
    assert!(store.is_blocked(&IpAddress::V6(42)));
    assert!(!store.is_blocked(&IpAddress::V6(43)));
    assert!(!store.is_blocked(&IpAddress::V4(42)));
}
