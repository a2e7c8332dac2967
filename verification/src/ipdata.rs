//! What a threat-intelligence lookup reports of an address.

use vstd::prelude::*;

verus! {

/// The autonomous system an address belongs to, with the route (a CIDR
/// string) that holds it.
pub struct Asn {
    pub asn: String,
    pub name: String,
    pub route: String,
}

/// The threat flags of an address.
pub struct Threat {
    pub is_tor: bool,
    pub is_proxy: bool,
    pub is_known_attacker: bool,
    pub is_known_abuser: bool,
    pub is_threat: bool,
    pub is_bogon: bool,
}

/// A lookup's report on one address.
pub struct IpInfo {
    pub asn: Option<Asn>,
    pub threat: Option<Threat>,
}

impl Threat {
    /// Some flag is set.
    pub open spec fn spec_flagged(&self) -> bool {
        self.is_tor || self.is_proxy || self.is_known_attacker || self.is_known_abuser
            || self.is_threat || self.is_bogon
    }

    /// Whether some flag is set.
    pub fn flagged(&self) -> (r: bool)
        ensures
            r == self.spec_flagged(),
    {
        self.is_tor || self.is_proxy || self.is_known_attacker || self.is_known_abuser
            || self.is_threat || self.is_bogon
    }
}

impl IpInfo {
    /// The report holds threat flags and one of them is set.
    pub open spec fn spec_is_threat(&self) -> bool {
        match self.threat {
            Some(t) => t.spec_flagged(),
            None => false,
        }
    }

    /// Whether the report marks the address as a threat.
    pub fn is_threat(&self) -> (r: bool)
        ensures
            r == self.spec_is_threat(),
    {
        match &self.threat {
            Some(t) => t.flagged(),
            None => false,
        }
    }
}

/// A threat record counts as flagged exactly when at least one of its six
/// flags is set: a record with no flag set is not flagged, any one set flag
/// makes it flagged, and setting more flags never unflags it.
pub proof fn lemma_flagged_iff_some_flag(t: Threat)
    ensures
        t.spec_flagged() <==> (t.is_tor || t.is_proxy || t.is_known_attacker || t.is_known_abuser
            || t.is_threat || t.is_bogon),
{
}

/// Setting more flags on a flagged record keeps it flagged.
pub proof fn lemma_flagged_monotone(t: Threat, u: Threat)
    requires
        t.spec_flagged(),
        t.is_tor ==> u.is_tor,
        t.is_proxy ==> u.is_proxy,
        t.is_known_attacker ==> u.is_known_attacker,
        t.is_known_abuser ==> u.is_known_abuser,
        t.is_threat ==> u.is_threat,
        t.is_bogon ==> u.is_bogon,
    ensures
        u.spec_flagged(),
{
}

/// A report is a threat exactly when it holds a threat record with at least
/// one flag set; the route and autonomous system play no part.
pub proof fn lemma_threat_iff_some_flag(info: IpInfo)
    ensures
        info.spec_is_threat() <==> (info.threat matches Some(t) && (t.is_tor || t.is_proxy
            || t.is_known_attacker || t.is_known_abuser || t.is_threat || t.is_bogon)),
{
}

} // verus!
