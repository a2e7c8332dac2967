use frps_defender::config::{Config, ProxyConfig};
use frps_defender::dynblock::{DynBlockStore, Route, StoreOutcome};
use frps_defender::handler::{resolve_threat, screen, screen_request, PluginResponse, Screening, ThreatAction};
use frps_defender::ipdata::{Asn, IpInfo, Threat};
use frps_defender::matcher::Matcher;
use frps_defender::net::{remote_ip, IpAddress};

fn config(block: Vec<String>) -> Config {
    Config {
        listen: "127.0.0.1:7200".into(),
        block,
        proxies: Vec::new(),
        ipdata_api_key: None,
        db_path: String::new(),
    }
}

fn respond(s: Screening) -> PluginResponse {
    match s {
        Screening::Respond(r) => r,
        Screening::LookUpThreat(_) => panic!("expected a response"),
    }
}

fn no_threat() -> Threat {
    Threat {
        is_tor: false,
        is_proxy: false,
        is_known_attacker: false,
        is_known_abuser: false,
        is_threat: false,
        is_bogon: false,
    }
}

#[test]
fn blocks_private_ip() {
    let c = config(vec!["private".into()]);
    let resp = respond(screen("NewUserConn", "test", Some(IpAddress::v4(10, 0, 0, 1)), &c, &Matcher::build(), &DynBlockStore::new(), false));
    assert!(resp.reject);
    assert!(resp.reject_reason.unwrap().contains("blocked"));
}

#[test]
fn blocked_reason_names_the_provider() {
    let c = config(vec!["private".into()]);
    let resp = respond(screen("NewUserConn", "test", Some(IpAddress::v4(10, 0, 0, 1)), &c, &Matcher::build(), &DynBlockStore::new(), true));
    assert_eq!(resp.reject_reason.as_deref(), Some("IP blocked: private"));
    assert_eq!(resp.unchange, None);
}

#[test]
fn allows_public_ip() {
    let c = config(vec!["private".into()]);
    let resp = respond(screen("NewUserConn", "test", Some(IpAddress::v4(8, 8, 8, 8)), &c, &Matcher::build(), &DynBlockStore::new(), false));
    assert!(!resp.reject);
    assert_eq!(resp.unchange, Some(true));
}

#[test]
fn passes_through_non_newuserconn_ops() {
    let c = config(vec!["all".into()]);
    let resp = respond(screen("Login", "", None, &c, &Matcher::build(), &DynBlockStore::new(), true));
    assert!(!resp.reject);
    assert_eq!(resp.unchange, Some(true));
}

#[test]
fn rejects_invalid_remote_addr() {
    let c = config(vec!["private".into()]);
    let resp = respond(screen("NewUserConn", "test", None, &c, &Matcher::build(), &DynBlockStore::new(), false));
    assert!(resp.reject);
    assert_eq!(resp.reject_reason.as_deref(), Some("invalid remote address"));
}

#[test]
fn per_proxy_override_blocks_ip() {
    let mut c = config(vec![]);
    c.proxies.push(("restricted".to_string(), ProxyConfig { block: vec!["private".into()] }));
    let resp = respond(screen("NewUserConn", "restricted", Some(IpAddress::v4(10, 0, 0, 1)), &c, &Matcher::build(), &DynBlockStore::new(), false));
    assert!(resp.reject);
    let other = respond(screen("NewUserConn", "open", Some(IpAddress::v4(10, 0, 0, 1)), &c, &Matcher::build(), &DynBlockStore::new(), false));
    assert!(!other.reject);
}

#[test]
fn dynblock_blocks_ip() {
    let mut dynblock = DynBlockStore::new();
    dynblock.add(&Route::parse("203.0.113.0/24").unwrap(), StoreOutcome::Inserted);
    let c = config(vec![]);
    let resp = respond(screen("NewUserConn", "test", Some(IpAddress::v4(203, 0, 113, 50)), &c, &Matcher::build(), &dynblock, true));
    assert!(resp.reject);
    assert_eq!(resp.reject_reason.as_deref(), Some("IP blocked: dynamic"));
}

#[test]
fn ipdata_none_allows_clean_ip() {
    let c = config(vec!["private".into()]);
    let resp = respond(screen("NewUserConn", "test", Some(IpAddress::v4(8, 8, 8, 8)), &c, &Matcher::build(), &DynBlockStore::new(), false));
    assert!(!resp.reject);
    assert_eq!(resp.unchange, Some(true));
}

#[test]
fn clean_ip_goes_to_lookup_when_configured() {
    let c = config(vec!["private".into()]);
    let ip = IpAddress::v4(8, 8, 8, 8);
    match screen("NewUserConn", "test", Some(ip), &c, &Matcher::build(), &DynBlockStore::new(), true) {
        Screening::LookUpThreat(x) => assert_eq!(x, ip),
        Screening::Respond(_) => panic!("expected a lookup"),
    }
}

#[test]
fn failed_lookup_allows() {
    let (action, resp) = resolve_threat(IpAddress::v4(8, 8, 8, 8), None);
    assert!(matches!(action, ThreatAction::Nothing));
    assert!(!resp.reject);
    assert_eq!(resp.unchange, Some(true));
}

#[test]
fn report_without_flags_allows() {
    let info = IpInfo { asn: None, threat: Some(no_threat()) };
    let (action, resp) = resolve_threat(IpAddress::v4(8, 8, 8, 8), Some(info));
    assert!(matches!(action, ThreatAction::Nothing));
    assert!(!resp.reject);
    let (action, resp) = resolve_threat(IpAddress::v4(8, 8, 8, 8), Some(IpInfo { asn: None, threat: None }));
    assert!(matches!(action, ThreatAction::Nothing));
    assert!(!resp.reject);
}

#[test]
fn threat_with_route_stores_route() {
    let mut t = no_threat();
    t.is_tor = true;
    let asn = Asn { asn: "AS64496".into(), name: "Test Net".into(), route: "203.0.113.0/24".into() };
    let (action, resp) = resolve_threat(IpAddress::v4(203, 0, 113, 9), Some(IpInfo { asn: Some(asn), threat: Some(t) }));
    match action {
        ThreatAction::StoreRoute { cidr, asn, asn_name, reason } => {
            assert_eq!(cidr, "203.0.113.0/24");
            assert_eq!(asn, "AS64496");
            assert_eq!(asn_name, "Test Net");
            assert_eq!(reason, "threat detected");
        },
        _ => panic!("expected a route to store"),
    }
    assert!(resp.reject);
    assert_eq!(resp.reject_reason.as_deref(), Some("IP blocked: threat detected"));
}

#[test]
fn threat_without_route_blocks_address() {
    let ip = IpAddress::v4(198, 51, 100, 7);
    for with_asn in [false, true] {
        let mut t = no_threat();
        t.is_bogon = true;
        let asn = if with_asn {
            Some(Asn { asn: "AS1".into(), name: "Org".into(), route: String::new() })
        } else {
            None
        };
        let (action, resp) = resolve_threat(ip, Some(IpInfo { asn, threat: Some(t) }));
        match action {
            ThreatAction::BlockAddress(x) => assert_eq!(x, ip),
            _ => panic!("expected the address to be blocked"),
        }
        assert_eq!(resp.reject_reason.as_deref(), Some("IP blocked: threat detected"));
    }
}

#[test]
fn blocked_threat_address_is_rejected_later_without_lookup() {
    let ip = IpAddress::v4(198, 51, 100, 7);
    let mut dynblock = DynBlockStore::new();
    dynblock.add_ephemeral(ip);
    let c = config(vec![]);
    let resp = respond(screen("NewUserConn", "test", Some(ip), &c, &Matcher::build(), &dynblock, true));
    assert_eq!(resp.reject_reason.as_deref(), Some("IP blocked: dynamic"));
}

#[test]
fn each_threat_flag_counts() {
    for k in 0..6 {
        let mut t = no_threat();
        match k {
            0 => t.is_tor = true,
            1 => t.is_proxy = true,
            2 => t.is_known_attacker = true,
            3 => t.is_known_abuser = true,
            4 => t.is_threat = true,
            _ => t.is_bogon = true,
        }
        assert!(t.flagged());
        let info = IpInfo { asn: None, threat: Some(t) };
        assert!(info.is_threat());
    }
    assert!(!no_threat().flagged());
}

#[test]
fn allow_and_block_responses() {
    let a = PluginResponse::allow();
    assert!(!a.reject && a.reject_reason.is_none() && a.unchange == Some(true));
    let b = PluginResponse::block("why".to_string());
    assert!(b.reject && b.reject_reason.as_deref() == Some("why") && b.unchange.is_none());
}

#[test]
fn remote_addr_reads_as_socket_address() {
    assert_eq!(remote_ip("10.0.0.1:12345"), Some(IpAddress::v4(10, 0, 0, 1)));
    assert_eq!(remote_ip("[::1]:80"), Some(IpAddress::V6(1)));
    assert_eq!(remote_ip("not-an-ip"), None);
    assert_eq!(remote_ip("10.0.0.1"), None);
    assert_eq!(remote_ip(""), None);
}

#[test]
fn request_with_raw_remote_addr() {
    let c = config(vec!["private".into()]);
    let m = Matcher::build();
    let d = DynBlockStore::new();
    let blocked = respond(screen_request("NewUserConn", "test", "10.0.0.1:12345", &c, &m, &d, false));
    assert_eq!(blocked.reject_reason.as_deref(), Some("IP blocked: private"));
    let invalid = respond(screen_request("NewUserConn", "test", "not-an-ip", &c, &m, &d, false));
    assert_eq!(invalid.reject_reason.as_deref(), Some("invalid remote address"));
    let other_op = respond(screen_request("Login", "test", "not-an-ip", &c, &m, &d, false));
    assert!(!other_op.reject);
    let clean = respond(screen_request("NewUserConn", "test", "8.8.8.8:1", &c, &m, &d, false));
    assert!(!clean.reject);
}
