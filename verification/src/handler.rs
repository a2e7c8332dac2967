//! The verdict on a connection that frps reports: the decisions of the
//! plugin handler, from the request's fields to the response, with the
//! threat lookup and the storing of routes left to the caller.

use vstd::prelude::*;
use crate::config::Config;
use crate::dynblock::DynBlockStore;
use crate::ipdata::IpInfo;
use crate::matcher::Matcher;
use crate::net::{IpAddress, remote_ip, spec_parse_socket_ip};
use crate::text::str_eq;

verus! {

/// The plugin's answer to frps.
pub struct PluginResponse {
    pub reject: bool,
    pub reject_reason: Option<String>,
    pub unchange: Option<bool>,
}

impl PluginResponse {
    /// The answer that lets the connection through unchanged.
    pub open spec fn spec_allows(&self) -> bool {
        &&& !self.reject
        &&& self.reject_reason is None
        &&& self.unchange == Some(true)
    }

    /// The answer that rejects the connection for `reason`.
    pub open spec fn spec_rejects_with(&self, reason: Seq<char>) -> bool {
        &&& self.reject
        &&& self.reject_reason matches Some(r) && r@ == reason
        &&& self.unchange is None
    }

    /// Lets the connection through.
    pub fn allow() -> (r: PluginResponse)
        ensures
            r.spec_allows(),
    {
        PluginResponse { reject: false, reject_reason: None, unchange: Some(true) }
    }

    /// Rejects the connection for `reason`.
    pub fn block(reason: String) -> (r: PluginResponse)
        ensures
            r.spec_rejects_with(reason@),
            r.reject_reason == Some(reason),
    {
        PluginResponse { reject: true, reject_reason: Some(reason), unchange: None }
    }
}

/// The operation that the plugin screens; every other one is let through.
pub open spec fn spec_new_user_conn() -> Seq<char> {
    "NewUserConn"@
}

/// What the handler does after the checks that need no lookup.
pub enum Screening {
    /// Answer frps with this response.
    Respond(PluginResponse),
    /// Ask the threat lookup about this address, then call `resolve_threat`.
    LookUpThreat(IpAddress),
}

/// What the caller is to do with the dynamic block list after a lookup.
pub enum ThreatAction {
    /// Nothing.
    Nothing,
    /// Store the route, then add it to the dynamic block list.
    StoreRoute { cidr: String, asn: String, asn_name: String, reason: String },
    /// Block this address for the rest of the session.
    BlockAddress(IpAddress),
}

/// What screening a connection gives, without the threat lookup.
///
/// `remote_ip` is the address of the connection's `remote_addr`, or `None`
/// where that is no socket address; `threat_lookup` tells whether a lookup
/// service is configured. Operations other than `NewUserConn` are let
/// through. Then, in order: an unreadable address is rejected; an address
/// that a provider of the proxy's block list holds is rejected, naming the
/// first such provider; an address on the dynamic block list is rejected;
/// otherwise the address goes to the lookup where there is one, and is let
/// through where there is none.
pub open spec fn screens_to(
    op: Seq<char>,
    proxy_name: Seq<char>,
    remote_ip: Option<IpAddress>,
    config: Config,
    matcher: Matcher,
    dynblock: DynBlockStore,
    threat_lookup: bool,
    r: Screening,
) -> bool {
    &&& op != spec_new_user_conn() ==> (r matches Screening::Respond(resp) && resp.spec_allows())
    &&& op == spec_new_user_conn() && remote_ip is None ==> (r matches Screening::Respond(resp)
        && resp.spec_rejects_with("invalid remote address"@))
    &&& op == spec_new_user_conn() && remote_ip is Some ==> ({
        let ip = remote_ip.unwrap();
        let providers = config.spec_providers_for(proxy_name);
        &&& forall|i: int| #[trigger] matcher.first_blocking_at(providers, ip, i)
            ==> (r matches Screening::Respond(resp)
                && resp.spec_rejects_with("IP blocked: "@ + providers[i]@))
        &&& matcher.none_blocks(providers, ip) && dynblock.spec_is_blocked(ip)
            ==> (r matches Screening::Respond(resp) && resp.spec_rejects_with("IP blocked: dynamic"@))
        &&& matcher.none_blocks(providers, ip) && !dynblock.spec_is_blocked(ip) && threat_lookup
            ==> r == Screening::LookUpThreat(ip)
        &&& matcher.none_blocks(providers, ip) && !dynblock.spec_is_blocked(ip) && !threat_lookup
            ==> (r matches Screening::Respond(resp) && resp.spec_allows())
    })
}

/// Screens a connection whose `remote_addr` field reads as in frps's request;
/// the address is what the standard library reads from it as a socket
/// address.
pub fn screen_request(
    op: &str,
    proxy_name: &str,
    remote_addr: &str,
    config: &Config,
    matcher: &Matcher,
    dynblock: &DynBlockStore,
    threat_lookup: bool,
) -> (r: Screening)
    ensures
        screens_to(op@, proxy_name@, spec_parse_socket_ip(remote_addr@), *config, *matcher,
            *dynblock, threat_lookup, r),
{
    let ip = remote_ip(remote_addr);
    screen(op, proxy_name, ip, config, matcher, dynblock, threat_lookup)
}

/// Screens a connection, given the address read from its `remote_addr`.
pub fn screen(
    op: &str,
    proxy_name: &str,
    remote_ip: Option<IpAddress>,
    config: &Config,
    matcher: &Matcher,
    dynblock: &DynBlockStore,
    threat_lookup: bool,
) -> (r: Screening)
    ensures
        screens_to(op@, proxy_name@, remote_ip, *config, *matcher, *dynblock, threat_lookup, r),
{
    if !str_eq(op, "NewUserConn") {
        return Screening::Respond(PluginResponse::allow());
    }
    let ip = match remote_ip {
        Some(ip) => ip,
        None => {
            return Screening::Respond(PluginResponse::block(String::from_str("invalid remote address")));
        },
    };
    let providers = config.providers_for(proxy_name);
    match matcher.is_blocked(ip, providers) {
        Some(provider) => {
            let reason = String::from_str("IP blocked: ").concat(provider);
            let resp = PluginResponse::block(reason);
            proof {
                let k = choose|k: int| #[trigger] matcher.first_blocking_at(providers@, ip, k)
                    && provider@ == providers@[k]@;
                assert forall|i: int| #[trigger] matcher.first_blocking_at(providers@, ip, i)
                    implies providers@[i]@ == providers@[k]@ by {
                    if i < k {
                        assert(!matcher.provider_blocks(providers@[i]@, ip));
                    } else if i > k {
                        assert(!matcher.provider_blocks(providers@[k]@, ip));
                    }
                }
            }
            return Screening::Respond(resp);
        },
        None => {},
    }
    if dynblock.is_blocked(&ip) {
        return Screening::Respond(PluginResponse::block(String::from_str("IP blocked: dynamic")));
    }
    if threat_lookup {
        Screening::LookUpThreat(ip)
    } else {
        Screening::Respond(PluginResponse::allow())
    }
}

/// Decides on an address from the lookup's report, `None` where the lookup
/// failed. A failed lookup, or a report with no threat flag set, lets the
/// connection through. A threat is rejected; its route, where the report
/// gives a non-empty one, is to be stored and blocked, and otherwise the
/// address alone is blocked for the session.
pub fn resolve_threat(ip: IpAddress, report: Option<IpInfo>) -> (r: (ThreatAction, PluginResponse))
    ensures
        match report {
            None => r.0 is Nothing && r.1.spec_allows(),
            Some(info) => if !info.spec_is_threat() {
                r.0 is Nothing && r.1.spec_allows()
            } else {
                &&& r.1.spec_rejects_with("IP blocked: threat detected"@)
                &&& match info.asn {
                    Some(asn) => if asn.route@.len() > 0 {
                        r.0 matches ThreatAction::StoreRoute { cidr, asn: number, asn_name, reason }
                            && cidr == asn.route && number == asn.asn && asn_name == asn.name
                            && reason@ == "threat detected"@
                    } else {
                        r.0 == ThreatAction::BlockAddress(ip)
                    },
                    None => r.0 == ThreatAction::BlockAddress(ip),
                }
            },
        },
{
    let info = match report {
        Some(info) => info,
        None => {
            return (ThreatAction::Nothing, PluginResponse::allow());
        },
    };
    if !info.is_threat() {
        return (ThreatAction::Nothing, PluginResponse::allow());
    }
    let action = match info.asn {
        Some(asn) => {
            if !asn.route.as_str().is_empty() {
                ThreatAction::StoreRoute {
                    cidr: asn.route,
                    asn: asn.asn,
                    asn_name: asn.name,
                    reason: String::from_str("threat detected"),
                }
            } else {
                ThreatAction::BlockAddress(ip)
            }
        },
        None => ThreatAction::BlockAddress(ip),
    };
    (action, PluginResponse::block(String::from_str("IP blocked: threat detected")))
}

} // verus!
