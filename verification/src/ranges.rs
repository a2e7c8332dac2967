//! The CIDR ranges of each provider, as text, one list per provider.
//!
//! Only the private address space is listed here; the lists of the cloud,
//! AI and VPN providers are empty in this build.

use vstd::prelude::*;

verus! {

/// The ranges of private, loopback, link-local and unique-local address space.
pub open spec fn spec_private() -> Seq<Seq<char>> {
    seq![
        "10.0.0.0/8"@,
        "127.0.0.0/8"@,
        "169.254.0.0/16"@,
        "172.16.0.0/12"@,
        "192.168.0.0/16"@,
        "::1/128"@,
        "fc00::/7"@,
        "fe80::/10"@,
    ]
}

/// The union of every provider's ranges, sorted and without duplicates.
pub open spec fn spec_all() -> Seq<Seq<char>> {
    seq![
        "10.0.0.0/8"@,
        "127.0.0.0/8"@,
        "169.254.0.0/16"@,
        "172.16.0.0/12"@,
        "192.168.0.0/16"@,
        "::1/128"@,
        "fc00::/7"@,
        "fe80::/10"@,
    ]
}

/// The list of a provider whose ranges this build does not hold.
pub open spec fn spec_unlisted() -> Seq<Seq<char>> {
    Seq::empty()
}

/// The views of a list of string slices.
pub open spec fn views(s: Seq<&str>) -> Seq<Seq<char>> {
    s.map_values(|x: &str| x@)
}

pub fn private() -> (r: &'static [&'static str])
    ensures
        views(r@) == spec_private(),
{
    let r: &'static [&'static str] = &[
        "10.0.0.0/8",
        "127.0.0.0/8",
        "169.254.0.0/16",
        "172.16.0.0/12",
        "192.168.0.0/16",
        "::1/128",
        "fc00::/7",
        "fe80::/10",
    ];
    assert(views(r@) =~= spec_private());
    r
}

pub fn all() -> (r: &'static [&'static str])
    ensures
        views(r@) == spec_all(),
{
    let r: &'static [&'static str] = &[
        "10.0.0.0/8",
        "127.0.0.0/8",
        "169.254.0.0/16",
        "172.16.0.0/12",
        "192.168.0.0/16",
        "::1/128",
        "fc00::/7",
        "fe80::/10",
    ];
    assert(views(r@) =~= spec_all());
    r
}

pub fn unlisted() -> (r: &'static [&'static str])
    ensures
        views(r@) == spec_unlisted(),
{
    let r: &'static [&'static str] = &[];
    assert(views(r@) =~= spec_unlisted());
    r
}

} // verus!
