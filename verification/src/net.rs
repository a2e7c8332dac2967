//! IP addresses and networks as plain values, with the two calls into
//! `ipnet` that the rest of the library relies on: parsing a CIDR string and
//! testing whether a network contains an address.

use vstd::prelude::*;

verus! {

/// An IP address: IPv4 as a `u32`, IPv6 as a `u128`, both in network
/// (big-endian) order of their octets.
#[derive(Clone, Copy, Debug, PartialEq, Eq, Structural)]
pub enum IpAddress {
    V4(u32),
    V6(u128),
}

/// An IP network: an address and a prefix length. The address keeps its host
/// bits, as `ipnet` does.
#[allow(inconsistent_fields)]
#[derive(Clone, Copy, Debug, PartialEq, Eq, Structural)]
pub enum IpNetwork {
    V4 { addr: u32, prefix_len: u8 },
    V6 { addr: u128, prefix_len: u8 },
}

/// Mask with the `prefix_len` highest bits of an IPv4 address set.
pub open spec fn v4_netmask(prefix_len: u8) -> u32 {
    if prefix_len == 0 {
        0
    } else {
        u32::MAX << ((32 - prefix_len) as u32)
    }
}

/// Mask with the bits below the first `prefix_len` bits of an IPv4 address set.
pub open spec fn v4_hostmask(prefix_len: u8) -> u32 {
    if prefix_len >= 32 {
        0
    } else {
        u32::MAX >> (prefix_len as u32)
    }
}

/// Mask with the `prefix_len` highest bits of an IPv6 address set.
pub open spec fn v6_netmask(prefix_len: u8) -> u128 {
    if prefix_len == 0 {
        0
    } else {
        u128::MAX << ((128 - prefix_len) as u32)
    }
}

/// Mask with the bits below the first `prefix_len` bits of an IPv6 address set.
pub open spec fn v6_hostmask(prefix_len: u8) -> u128 {
    if prefix_len >= 128 {
        0
    } else {
        u128::MAX >> (prefix_len as u32)
    }
}

impl IpAddress {
    /// The IPv4 address `a.b.c.d`.
    pub open spec fn spec_v4(a: u8, b: u8, c: u8, d: u8) -> IpAddress {
        IpAddress::V4(((a as u32) * 0x100_0000 + (b as u32) * 0x1_0000 + (c as u32) * 0x100 + (d as u32)) as u32)
    }

    /// Builds the IPv4 address `a.b.c.d`.
    pub fn v4(a: u8, b: u8, c: u8, d: u8) -> (r: IpAddress)
        ensures
            r == IpAddress::spec_v4(a, b, c, d),
    {
        IpAddress::V4((a as u32) * 0x100_0000 + (b as u32) * 0x1_0000 + (c as u32) * 0x100 + (d as u32))
    }
}

impl IpNetwork {
    /// The prefix length fits the address family.
    pub open spec fn wf(self) -> bool {
        match self {
            IpNetwork::V4 { prefix_len, .. } => prefix_len <= 32,
            IpNetwork::V6 { prefix_len, .. } => prefix_len <= 128,
        }
    }

    /// The network contains the address: both are of one family and the
    /// address lies between the network address and the last address of the
    /// network.
    pub open spec fn spec_contains(self, ip: IpAddress) -> bool {
        match (self, ip) {
            (IpNetwork::V4 { addr, prefix_len }, IpAddress::V4(a)) =>
                (addr & v4_netmask(prefix_len)) <= a && a <= (addr | v4_hostmask(prefix_len)),
            (IpNetwork::V6 { addr, prefix_len }, IpAddress::V6(a)) =>
                (addr & v6_netmask(prefix_len)) <= a && a <= (addr | v6_hostmask(prefix_len)),
            _ => false,
        }
    }

    /// The network of exactly one address: `/32` for IPv4, `/128` for IPv6.
    pub open spec fn spec_host(ip: IpAddress) -> IpNetwork {
        match ip {
            IpAddress::V4(a) => IpNetwork::V4 { addr: a, prefix_len: 32 },
            IpAddress::V6(a) => IpNetwork::V6 { addr: a, prefix_len: 128 },
        }
    }

    /// Builds the network that holds exactly `ip`.
    pub fn host(ip: IpAddress) -> (r: IpNetwork)
        ensures
            r == IpNetwork::spec_host(ip),
            r.wf(),
    {
        match ip {
            IpAddress::V4(a) => IpNetwork::V4 { addr: a, prefix_len: 32 },
            IpAddress::V6(a) => IpNetwork::V6 { addr: a, prefix_len: 128 },
        }
    }

    /// Whether the network contains `ip`.
    pub fn contains(&self, ip: &IpAddress) -> (r: bool)
        requires
            self.wf(),
        ensures
            r == self.spec_contains(*ip),
    {
        ipnet_contains(self, ip)
    }
}

/// The host network of an address contains that address and no other.
pub proof fn lemma_host_contains_exactly(ip: IpAddress, other: IpAddress)
    ensures
        IpNetwork::spec_host(ip).spec_contains(other) <==> other == ip,
{
    match (ip, other) {
        (IpAddress::V4(a), IpAddress::V4(b)) => {
            assert(u32::MAX << 0u32 == u32::MAX) by (bit_vector);
            assert(a & u32::MAX == a) by (bit_vector);
            assert(a | 0u32 == a) by (bit_vector);
        },
        (IpAddress::V6(a), IpAddress::V6(b)) => {
            assert(u128::MAX << 0u32 == u128::MAX) by (bit_vector);
            assert(a & u128::MAX == a) by (bit_vector);
            assert(a | 0u128 == a) by (bit_vector);
        },
        _ => {},
    }
}

proof fn lemma_v4_window(addr: u32, a: u32, s: u32, q: u32)
    by (bit_vector)
    requires
        1 <= s < 32,
        q == 32 - s,
    ensures
        ((addr & (u32::MAX << s)) <= a && a <= (addr | (u32::MAX >> q))) <==> ((a >> s) == (addr >> s)),
{
}

#[verifier::rlimit(100)]
proof fn lemma_v6_window_low(addr: u128, a: u128, s: u32)
    by (bit_vector)
    requires
        1 <= s < 128,
        (a >> s) == (addr >> s),
    ensures
        (addr & (u128::MAX << s)) <= a,
{
}

#[verifier::rlimit(100)]
proof fn lemma_v6_window_high(addr: u128, a: u128, s: u32, q: u32)
    by (bit_vector)
    requires
        1 <= s < 128,
        q == 128 - s,
        (a >> s) == (addr >> s),
    ensures
        a <= (addr | (u128::MAX >> q)),
{
}

#[verifier::rlimit(100)]
proof fn lemma_v6_window_back(addr: u128, a: u128, s: u32, q: u32)
    by (bit_vector)
    requires
        1 <= s < 128,
        q == 128 - s,
        (addr & (u128::MAX << s)) <= a,
        a <= (addr | (u128::MAX >> q)),
    ensures
        (a >> s) == (addr >> s),
{
}

proof fn lemma_v6_window(addr: u128, a: u128, s: u32, q: u32)
    requires
        1 <= s < 128,
        q == 128 - s,
    ensures
        ((addr & (u128::MAX << s)) <= a && a <= (addr | (u128::MAX >> q))) <==> ((a >> s) == (addr >> s)),
{
    if (a >> s) == (addr >> s) {
        lemma_v6_window_low(addr, a, s);
        lemma_v6_window_high(addr, a, s, q);
    }
    if (addr & (u128::MAX << s)) <= a && a <= (addr | (u128::MAX >> q)) {
        lemma_v6_window_back(addr, a, s, q);
    }
}

/// An IPv4 network of prefix length 1 to 32 contains an IPv4 address exactly
/// when the two agree on the first `prefix_len` bits; in particular it holds
/// no address below its network address or above its last address.
pub proof fn lemma_v4_contains_iff_prefix_agrees(addr: u32, prefix_len: u8, a: u32)
    requires
        1 <= prefix_len <= 32,
    ensures
        (IpNetwork::V4 { addr, prefix_len }).spec_contains(IpAddress::V4(a))
            <==> (a >> ((32 - prefix_len) as u32)) == (addr >> ((32 - prefix_len) as u32)),
{
    let s: u32 = (32 - prefix_len) as u32;
    let q: u32 = prefix_len as u32;
    if prefix_len == 32 {
        assert(s == 0);
        assert(u32::MAX << 0u32 == u32::MAX) by (bit_vector);
        assert(addr & u32::MAX == addr) by (bit_vector);
        assert(addr | 0u32 == addr) by (bit_vector);
        assert(a >> 0u32 == a && addr >> 0u32 == addr) by (bit_vector);
    } else {
        lemma_v4_window(addr, a, s, q);
    }
}

/// An IPv4 network of prefix length 0 contains every IPv4 address.
pub proof fn lemma_v4_zero_prefix_contains_all(addr: u32, a: u32)
    ensures
        (IpNetwork::V4 { addr, prefix_len: 0 }).spec_contains(IpAddress::V4(a)),
{
    assert(u32::MAX >> 0u32 == u32::MAX) by (bit_vector);
    assert(addr & 0u32 == 0u32) by (bit_vector);
    assert(addr | u32::MAX == u32::MAX) by (bit_vector);
}

/// An IPv6 network of prefix length 1 to 128 contains an IPv6 address exactly
/// when the two agree on the first `prefix_len` bits; in particular it holds
/// no address above its last address.
pub proof fn lemma_v6_contains_iff_prefix_agrees(addr: u128, prefix_len: u8, a: u128)
    requires
        1 <= prefix_len <= 128,
    ensures
        (IpNetwork::V6 { addr, prefix_len }).spec_contains(IpAddress::V6(a))
            <==> (a >> ((128 - prefix_len) as u32)) == (addr >> ((128 - prefix_len) as u32)),
{
    let s: u32 = (128 - prefix_len) as u32;
    let q: u32 = prefix_len as u32;
    if prefix_len == 128 {
        assert(s == 0);
        assert(u128::MAX << 0u32 == u128::MAX) by (bit_vector);
        assert(addr & u128::MAX == addr) by (bit_vector);
        assert(addr | 0u128 == addr) by (bit_vector);
        assert(a >> 0u32 == a && addr >> 0u32 == addr) by (bit_vector);
    } else {
        lemma_v6_window(addr, a, s, q);
    }
}

/// An IPv6 network of prefix length 0 contains every IPv6 address.
pub proof fn lemma_v6_zero_prefix_contains_all(addr: u128, a: u128)
    ensures
        (IpNetwork::V6 { addr, prefix_len: 0 }).spec_contains(IpAddress::V6(a)),
{
    assert(u128::MAX >> 0u32 == u128::MAX) by (bit_vector);
    assert(addr & 0u128 == 0u128) by (bit_vector);
    assert(addr | u128::MAX == u128::MAX) by (bit_vector);
}

/// A network never contains an address of the other family.
pub proof fn lemma_families_never_mix(n: IpNetwork, ip: IpAddress)
    requires
        (n is V4 && ip is V6) || (n is V6 && ip is V4),
    ensures
        !n.spec_contains(ip),
{
}

/// What `ipnet` makes of a CIDR string, where it accepts it: the address and
/// prefix length it read.
pub uninterp spec fn spec_parse_cidr(s: Seq<char>) -> Option<IpNetwork>;

/// The error that `ipnet` returns for a string that is not a CIDR network.
#[verifier::external_type_specification]
#[verifier::external_body]
pub struct ExAddrParseError(ipnet::AddrParseError);

/// The decimal digit of `n`, for `n` below 10.
pub open spec fn digit_char(n: u8) -> char {
    if n == 0 { '0' }
    else if n == 1 { '1' }
    else if n == 2 { '2' }
    else if n == 3 { '3' }
    else if n == 4 { '4' }
    else if n == 5 { '5' }
    else if n == 6 { '6' }
    else if n == 7 { '7' }
    else if n == 8 { '8' }
    else { '9' }
}

/// `n` in decimal, without leading zeros.
pub open spec fn dec_text(n: u8) -> Seq<char> {
    if n < 10 {
        seq![digit_char(n)]
    } else if n < 100 {
        seq![digit_char(n / 10), digit_char(n % 10)]
    } else {
        seq![digit_char(n / 100), digit_char((n / 10) % 10), digit_char(n % 10)]
    }
}

/// The text `a.b.c.d/p`, each number in decimal without leading zeros.
pub open spec fn v4_cidr_text(a: u8, b: u8, c: u8, d: u8, p: u8) -> Seq<char> {
    dec_text(a) + seq!['.'] + dec_text(b) + seq!['.'] + dec_text(c) + seq!['.'] + dec_text(d)
        + seq!['/'] + dec_text(p)
}

/// The value of the IPv4 address `a.b.c.d`.
pub open spec fn v4_value(a: u8, b: u8, c: u8, d: u8) -> u32 {
    ((a as u32) * 0x100_0000 + (b as u32) * 0x1_0000 + (c as u32) * 0x100 + (d as u32)) as u32
}

/// Where `s` is the text `a.b.c.d/p` of an IPv4 network with `p` at most 32,
/// `ipnet` reads exactly that network from it.
pub open spec fn reads_v4_text(s: Seq<char>) -> bool {
    forall|a: u8, b: u8, c: u8, d: u8, p: u8| p <= 32 && s == #[trigger] v4_cidr_text(a, b, c, d, p)
        ==> spec_parse_cidr(s) == Some(IpNetwork::V4 { addr: v4_value(a, b, c, d), prefix_len: p })
}

/// What `ipnet` reads from a text holding `:` is an IPv6 network, if anything.
pub open spec fn reads_colon_text_as_v6(s: Seq<char>) -> bool {
    s.contains(':') ==> match spec_parse_cidr(s) {
        Some(n) => n is V6,
        None => true,
    }
}

/// The two facts of `ipnet`'s grammar that the library relies on, for `s`.
pub open spec fn grammar_facts(s: Seq<char>) -> bool {
    reads_v4_text(s) && reads_colon_text_as_v6(s)
}

/// `r` is the IPv4 network `a.b.c.d/p` wherever `s` is the text of one, with
/// `p` at most 32.
pub open spec fn v4_text_read(s: Seq<char>, r: Result<IpNetwork, ipnet::AddrParseError>) -> bool {
    forall|a: u8, b: u8, c: u8, d: u8, p: u8| p <= 32 && s == #[trigger] v4_cidr_text(a, b, c, d, p)
        ==> (r matches Ok(n) && n == (IpNetwork::V4 { addr: v4_value(a, b, c, d), prefix_len: p }))
}

/// Parses `s` with `<ipnet::IpNet as FromStr>::from_str` and gives the
/// network's address and prefix length. The contract claims that the result
/// depends on `s` alone (it is `spec_parse_cidr(s@)`), and that an accepted
/// prefix length fits its family: `ipnet`'s parser reads at most 32 (IPv4) or
/// 128 (IPv6) and builds the network with `Ipv4Net::new` / `Ipv6Net::new`.
/// It claims two facts of `ipnet`'s grammar (parser.rs): the text
/// `a.b.c.d/p` in plain decimal, with `p` at most 32, is read as that IPv4
/// network (IPv4 is tried first, each octet is a decimal number below 256 and
/// the prefix one below 33); and an accepted text holding `:` is read as an
/// IPv6 network, since the IPv4 network grammar has no `:`. Which other
/// strings are accepted is not stated.
#[verifier::external_body]
fn ipnet_parse(s: &str) -> (r: Result<IpNetwork, ipnet::AddrParseError>)
    ensures
        r is Ok <==> spec_parse_cidr(s@) is Some,
        r matches Ok(n) ==> spec_parse_cidr(s@) == Some(n) && n.wf(),
        v4_text_read(s@, r),
        r matches Ok(n) ==> (s@.contains(':') ==> (n is V6)),
{
    match s.parse::<ipnet::IpNet>() {
        Ok(ipnet::IpNet::V4(n)) => Ok(IpNetwork::V4 { addr: n.addr().into(), prefix_len: n.prefix_len() }),
        Ok(ipnet::IpNet::V6(n)) => Ok(IpNetwork::V6 { addr: n.addr().into(), prefix_len: n.prefix_len() }),
        Err(e) => Err(e),
    }
}

/// Calls `<ipnet::IpNet as Contains<&IpAddr>>::contains` on the network and
/// address given as plain values. The contract restates `ipnet`'s source:
/// families must match, and the address must lie between `network()`
/// (address masked with the netmask) and `broadcast()` (address or-ed with
/// the hostmask), the masks being `checked_shl`/`checked_shr` of all ones.
#[verifier::external_body]
fn ipnet_contains(net: &IpNetwork, ip: &IpAddress) -> (r: bool)
    requires
        net.wf(),
    ensures
        r == net.spec_contains(*ip),
{
    let n: ipnet::IpNet = match *net {
        IpNetwork::V4 { addr, prefix_len } => ipnet::Ipv4Net::new_assert(addr.into(), prefix_len).into(),
        IpNetwork::V6 { addr, prefix_len } => ipnet::Ipv6Net::new_assert(addr.into(), prefix_len).into(),
    };
    let a: core::net::IpAddr = match *ip {
        IpAddress::V4(x) => core::net::IpAddr::V4(x.into()),
        IpAddress::V6(x) => core::net::IpAddr::V6(x.into()),
    };
    n.contains(&a)
}

/// Why a CIDR string was refused.
#[derive(Clone, Copy, Debug, PartialEq, Eq, Structural)]
pub enum CidrError {
    Invalid,
}

/// Parses a CIDR string such as `10.0.0.0/8` or `fc00::/7`.
pub fn parse_cidr(s: &str) -> (r: Result<IpNetwork, CidrError>)
    ensures
        r is Ok <==> spec_parse_cidr(s@) is Some,
        r matches Ok(n) ==> spec_parse_cidr(s@) == Some(n) && n.wf(),
        r matches Err(e) ==> e == CidrError::Invalid,
        grammar_facts(s@),
{
    let parsed = ipnet_parse(s);
    proof {
        assert forall|a: u8, b: u8, c: u8, d: u8, p: u8| p <= 32 && s@ == #[trigger] v4_cidr_text(a, b, c, d, p)
            implies spec_parse_cidr(s@) == Some(IpNetwork::V4 { addr: v4_value(a, b, c, d), prefix_len: p }) by {
            assert(v4_text_read(s@, parsed));
            assert(parsed matches Ok(n) && n == (IpNetwork::V4 { addr: v4_value(a, b, c, d), prefix_len: p }));
        }
    }
    match parsed {
        Ok(n) => Ok(n),
        Err(_) => Err(CidrError::Invalid),
    }
}

/// What the standard library reads as the address part of a socket address
/// (`address:port`, with the IPv6 address in brackets), where it accepts the
/// string.
pub uninterp spec fn spec_parse_socket_ip(s: Seq<char>) -> Option<IpAddress>;

/// The error that the standard library returns for a string that is not a
/// socket address.
#[verifier::external_type_specification]
#[verifier::external_body]
pub struct ExSocketAddrParseError(core::net::AddrParseError);

/// Parses `s` with `<core::net::SocketAddr as FromStr>::from_str` and gives
/// the address part. The contract claims only that the result depends on `s`
/// alone (it is `spec_parse_socket_ip(s@)`); which strings are accepted is not
/// stated.
#[verifier::external_body]
fn socket_addr_parse(s: &str) -> (r: Result<IpAddress, core::net::AddrParseError>)
    ensures
        r is Ok <==> spec_parse_socket_ip(s@) is Some,
        r matches Ok(ip) ==> spec_parse_socket_ip(s@) == Some(ip),
{
    match s.parse::<core::net::SocketAddr>() {
        Ok(core::net::SocketAddr::V4(a)) => Ok(IpAddress::V4((*a.ip()).into())),
        Ok(core::net::SocketAddr::V6(a)) => Ok(IpAddress::V6((*a.ip()).into())),
        Err(e) => Err(e),
    }
}

/// The address of a remote socket address such as `10.0.0.1:12345` or
/// `[::1]:80`; `None` where the string is no socket address.
pub fn remote_ip(remote_addr: &str) -> (r: Option<IpAddress>)
    ensures
        r == spec_parse_socket_ip(remote_addr@),
{
    match socket_addr_parse(remote_addr) {
        Ok(ip) => Some(ip),
        Err(_) => None,
    }
}

} // verus!
