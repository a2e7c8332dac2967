//! Which provider, of those a proxy blocks, holds an address.

use vstd::prelude::*;
use crate::net::{
    IpAddress, IpNetwork, grammar_facts, lemma_v4_contains_iff_prefix_agrees, parse_cidr, spec_parse_cidr,
    v4_cidr_text, v4_value,
};
use crate::ranges::{self, views, spec_all, spec_private, spec_unlisted};
use crate::text::str_eq;

verus! {

/// The provider names, in the order the matcher holds them.
pub open spec fn spec_provider_names() -> Seq<Seq<char>> {
    seq![
        "aws"@, "cloudflare"@, "gcloud"@, "azure"@, "github-copilot"@,
        "openai"@, "mistral"@, "deepseek"@, "digitalocean"@, "linode"@,
        "vultr"@, "oci"@, "aliyun"@, "vpn"@, "private"@, "all"@,
    ]
}

/// The ranges, as text, of the provider called `name`; `None` for a name
/// that is no provider's.
pub open spec fn spec_provider_strs(name: Seq<char>) -> Option<Seq<Seq<char>>> {
    if name == "aws"@ || name == "cloudflare"@ || name == "gcloud"@ || name == "azure"@
        || name == "github-copilot"@ || name == "openai"@ || name == "mistral"@
        || name == "deepseek"@ || name == "digitalocean"@ || name == "linode"@
        || name == "vultr"@ || name == "oci"@ || name == "aliyun"@ || name == "vpn"@ {
        Some(spec_unlisted())
    } else if name == "private"@ {
        Some(spec_private())
    } else if name == "all"@ {
        Some(spec_all())
    } else {
        None
    }
}

/// The networks that `ipnet` accepts among `strs`, in order; the strings it
/// refuses are left out.
pub open spec fn parse_valid(strs: Seq<Seq<char>>) -> Seq<IpNetwork>
    decreases strs.len(),
{
    if strs.len() == 0 {
        Seq::empty()
    } else {
        let rest = parse_valid(strs.drop_last());
        match spec_parse_cidr(strs.last()) {
            Some(n) => rest.push(n),
            None => rest,
        }
    }
}

/// The provider names.
pub fn provider_names() -> (r: &'static [&'static str])
    ensures
        views(r@) == spec_provider_names(),
{
    let r: &'static [&'static str] = &[
        "aws", "cloudflare", "gcloud", "azure", "github-copilot",
        "openai", "mistral", "deepseek", "digitalocean", "linode",
        "vultr", "oci", "aliyun", "vpn", "private", "all",
    ];
    assert(views(r@) =~= spec_provider_names());
    r
}

/// The ranges, as text, of the provider called `name`.
pub fn provider_strs(name: &str) -> (r: Option<&'static [&'static str]>)
    ensures
        r is Some <==> spec_provider_strs(name@) is Some,
        r matches Some(s) ==> views(s@) == spec_provider_strs(name@).unwrap(),
{
    if str_eq(name, "aws") || str_eq(name, "cloudflare") || str_eq(name, "gcloud")
        || str_eq(name, "azure") || str_eq(name, "github-copilot") || str_eq(name, "openai")
        || str_eq(name, "mistral") || str_eq(name, "deepseek") || str_eq(name, "digitalocean")
        || str_eq(name, "linode") || str_eq(name, "vultr") || str_eq(name, "oci")
        || str_eq(name, "aliyun") || str_eq(name, "vpn") {
        Some(ranges::unlisted())
    } else if str_eq(name, "private") {
        Some(ranges::private())
    } else if str_eq(name, "all") {
        Some(ranges::all())
    } else {
        None
    }
}

/// Every provider name has a list of ranges.
proof fn lemma_names_have_ranges(k: int)
    requires
        0 <= k < spec_provider_names().len(),
    ensures
        spec_provider_strs(spec_provider_names()[k]) is Some,
{
    let names = spec_provider_names();
    assert(names.len() == 16);
    if k == 0 { assert(names[0] == "aws"@); }
    else if k == 1 { assert(names[1] == "cloudflare"@); }
    else if k == 2 { assert(names[2] == "gcloud"@); }
    else if k == 3 { assert(names[3] == "azure"@); }
    else if k == 4 { assert(names[4] == "github-copilot"@); }
    else if k == 5 { assert(names[5] == "openai"@); }
    else if k == 6 { assert(names[6] == "mistral"@); }
    else if k == 7 { assert(names[7] == "deepseek"@); }
    else if k == 8 { assert(names[8] == "digitalocean"@); }
    else if k == 9 { assert(names[9] == "linode"@); }
    else if k == 10 { assert(names[10] == "vultr"@); }
    else if k == 11 { assert(names[11] == "oci"@); }
    else if k == 12 { assert(names[12] == "aliyun"@); }
    else if k == 13 { assert(names[13] == "vpn"@); }
    else if k == 14 { assert(names[14] == "private"@); }
    else { assert(names[15] == "all"@); }
}

/// A name that is none of the provider names has no list of ranges.
proof fn lemma_other_names_have_none(name: Seq<char>)
    requires
        forall|k: int| 0 <= k < spec_provider_names().len() ==> spec_provider_names()[k] != name,
    ensures
        spec_provider_strs(name) is None,
{
    let names = spec_provider_names();
    assert(names[0] != name && names[1] != name && names[2] != name && names[3] != name);
    assert(names[4] != name && names[5] != name && names[6] != name && names[7] != name);
    assert(names[8] != name && names[9] != name && names[10] != name && names[11] != name);
    assert(names[12] != name && names[13] != name && names[14] != name && names[15] != name);
}

/// A network is among the parsed ranges of `strs` exactly when `ipnet` reads
/// it from one of the strings.
pub proof fn lemma_parse_valid_member(strs: Seq<Seq<char>>, n: IpNetwork)
    ensures
        parse_valid(strs).contains(n) <==> exists|i: int| 0 <= i < strs.len()
            && #[trigger] spec_parse_cidr(strs[i]) == Some(n),
    decreases strs.len(),
{
    if strs.len() > 0 {
        let init = strs.drop_last();
        lemma_parse_valid_member(init, n);
        let rest = parse_valid(init);
        if exists|i: int| 0 <= i < strs.len() && #[trigger] spec_parse_cidr(strs[i]) == Some(n) {
            let i = choose|i: int| 0 <= i < strs.len() && #[trigger] spec_parse_cidr(strs[i]) == Some(n);
            if i < strs.len() - 1 {
                assert(spec_parse_cidr(init[i]) == Some(n));
                let k = choose|k: int| 0 <= k < rest.len() && rest[k] == n;
                match spec_parse_cidr(strs.last()) {
                    Some(m) => { assert(rest.push(m)[k] == n); },
                    None => {},
                }
            } else {
                assert(parse_valid(strs) == rest.push(n));
                assert(rest.push(n)[rest.len() as int] == n);
            }
        }
        if parse_valid(strs).contains(n) {
            let k = choose|k: int| 0 <= k < parse_valid(strs).len() && parse_valid(strs)[k] == n;
            if k < rest.len() {
                assert(rest[k] == n);
                let i = choose|i: int| 0 <= i < init.len() && #[trigger] spec_parse_cidr(init[i]) == Some(n);
                assert(strs[i] == init[i]);
            } else {
                assert(spec_parse_cidr(strs[strs.len() - 1]) == Some(n));
            }
        }
    }
}

/// The lists of `private` and `all`, by name.
proof fn lemma_named_lists()
    ensures
        spec_provider_strs("private"@) == Some(spec_private()),
        spec_provider_strs("all"@) == Some(spec_all()),
        "private"@ != "all"@,
{
    reveal_strlit("aws");
    reveal_strlit("cloudflare");
    reveal_strlit("gcloud");
    reveal_strlit("azure");
    reveal_strlit("github-copilot");
    reveal_strlit("openai");
    reveal_strlit("mistral");
    reveal_strlit("deepseek");
    reveal_strlit("digitalocean");
    reveal_strlit("linode");
    reveal_strlit("vultr");
    reveal_strlit("oci");
    reveal_strlit("aliyun");
    reveal_strlit("vpn");
    reveal_strlit("private");
    reveal_strlit("all");
    assert("private"@.len() == 7 && "all"@.len() == 3);
    assert("aws"@.len() == 3 && "cloudflare"@.len() == 10 && "gcloud"@.len() == 6);
    assert("azure"@.len() == 5 && "github-copilot"@.len() == 14 && "openai"@.len() == 6);
    assert("mistral"@.len() == 7 && "deepseek"@.len() == 8 && "digitalocean"@.len() == 12);
    assert("linode"@.len() == 6 && "vultr"@.len() == 5 && "oci"@.len() == 3);
    assert("aliyun"@.len() == 6 && "vpn"@.len() == 3);
    assert("private"@[0] != "mistral"@[0]);
    assert("all"@[0] != "aws"@[0] || "all"@[1] != "aws"@[1]);
    assert("all"@[0] != "oci"@[0] && "all"@[0] != "vpn"@[0]);
}

/// `ipnet` reads a network from `s` and that network contains `ip`.
pub open spec fn cidr_blocks(s: Seq<char>, ip: IpAddress) -> bool {
    match spec_parse_cidr(s) {
        Some(n) => n.spec_contains(ip),
        None => false,
    }
}

/// A provider blocks an address exactly when one of its range strings, as
/// `ipnet` reads it, contains the address.
proof fn lemma_provider_blocks_by_string(m: Matcher, name: Seq<char>, ip: IpAddress)
    requires
        m.holds_provider_ranges(),
        spec_provider_strs(name) is Some,
    ensures
        m.provider_blocks(name, ip) <==> exists|i: int| 0 <= i < spec_provider_strs(name).unwrap().len()
            && #[trigger] cidr_blocks(spec_provider_strs(name).unwrap()[i], ip),
{
    let strs = spec_provider_strs(name).unwrap();
    let nets = parse_valid(strs);
    assert(m.ranges_for(name) == Some(nets)) by {
        assert(m.ranges_for(name) == match spec_provider_strs(name) {
            Some(strs) => Some(parse_valid(strs)),
            None => None,
        });
    }
    if m.provider_blocks(name, ip) {
        let k = choose|k: int| 0 <= k < nets.len() && #[trigger] nets[k].spec_contains(ip);
        lemma_parse_valid_member(strs, nets[k]);
        assert(nets.contains(nets[k]));
        let i = choose|i: int| 0 <= i < strs.len() && #[trigger] spec_parse_cidr(strs[i]) == Some(nets[k]);
        assert(cidr_blocks(strs[i], ip));
        assert(exists|i: int| 0 <= i < strs.len() && #[trigger] cidr_blocks(strs[i], ip));
    }
    if exists|i: int| 0 <= i < strs.len() && #[trigger] cidr_blocks(strs[i], ip) {
        let i = choose|i: int| 0 <= i < strs.len() && #[trigger] cidr_blocks(strs[i], ip);
        let n = spec_parse_cidr(strs[i]).unwrap();
        assert(spec_parse_cidr(strs[i]) == Some(n));
        lemma_parse_valid_member(strs, n);
        assert(nets.contains(n));
        let k = choose|k: int| 0 <= k < nets.len() && nets[k] == n;
        assert(cidr_blocks(strs[i], ip));
        assert(n.spec_contains(ip));
        assert(0 <= k < nets.len() && nets[k].spec_contains(ip));
        assert(exists|k: int| 0 <= k < nets.len() && #[trigger] nets[k].spec_contains(ip));
        assert(m.provider_blocks(name, ip));
    }
}

/// The `all` provider blocks every address that some provider blocks: its
/// ranges are the union of every provider's.
pub proof fn lemma_all_covers_each_provider(m: Matcher, name: Seq<char>, ip: IpAddress)
    requires
        m.holds_provider_ranges(),
        m.provider_blocks(name, ip),
    ensures
        m.provider_blocks("all"@, ip),
{
    lemma_provider_blocks_by_string(m, name, ip);
    lemma_provider_blocks_by_string(m, "all"@, ip);
    let strs = spec_provider_strs(name).unwrap();
    let i = choose|i: int| 0 <= i < strs.len() && #[trigger] cidr_blocks(strs[i], ip);
    assert(strs == spec_private() || strs == spec_all() || strs == spec_unlisted());
    lemma_named_lists();
    assert(spec_all()[i] == strs[i]);
}

/// Every address that the `all` provider blocks, a provider other than `all`
/// blocks too: `all` holds no range of its own.
pub proof fn lemma_all_adds_nothing(m: Matcher, ip: IpAddress)
    requires
        m.holds_provider_ranges(),
        m.provider_blocks("all"@, ip),
    ensures
        exists|k: int| 0 <= k < spec_provider_names().len() && spec_provider_names()[k] != "all"@
            && #[trigger] m.provider_blocks(spec_provider_names()[k], ip),
{
    lemma_named_lists();
    assert(spec_provider_names()[14] == "private"@);
    assert(spec_private() == spec_all());
    assert(m.ranges_for("private"@) == Some(parse_valid(spec_private())));
    assert(m.ranges_for("all"@) == Some(parse_valid(spec_all())));
    assert(m.provider_blocks(spec_provider_names()[14], ip));
}

/// `a` comes before `b` when their characters are compared one by one by
/// code point, a proper prefix coming first.
pub open spec fn text_lt(a: Seq<char>, b: Seq<char>) -> bool
    decreases a.len(),
{
    if a.len() == 0 {
        b.len() > 0
    } else if b.len() == 0 {
        false
    } else if a[0] == b[0] {
        text_lt(a.drop_first(), b.drop_first())
    } else {
        (a[0] as u32) < (b[0] as u32)
    }
}

/// Each string comes before every later one: sorted, with no duplicates.
pub open spec fn strictly_ascending(s: Seq<Seq<char>>) -> bool {
    forall|i: int, j: int| 0 <= i < j < s.len() ==> text_lt(#[trigger] s[i], #[trigger] s[j])
}

/// Every range string of the providers other than `all`.
pub open spec fn union_of_providers() -> Set<Seq<char>> {
    Set::new(|s: Seq<char>| exists|k: int| 0 <= k < spec_provider_names().len()
        && spec_provider_names()[k] != "all"@
        && (#[trigger] spec_provider_strs(spec_provider_names()[k])).unwrap().contains(s))
}

proof fn lemma_text_lt_transitive(a: Seq<char>, b: Seq<char>, c: Seq<char>)
    requires
        text_lt(a, b),
        text_lt(b, c),
    ensures
        text_lt(a, c),
    decreases a.len(),
{
    if a.len() > 0 && b.len() > 0 && c.len() > 0 && a[0] == b[0] && b[0] == c[0] {
        lemma_text_lt_transitive(a.drop_first(), b.drop_first(), c.drop_first());
    }
}

proof fn lemma_ascending_from_neighbours(s: Seq<Seq<char>>, i: int, j: int)
    requires
        forall|k: int| 0 <= k < s.len() - 1 ==> text_lt(#[trigger] s[k], s[k + 1]),
        0 <= i < j < s.len(),
    ensures
        text_lt(s[i], s[j]),
    decreases j - i,
{
    if j > i + 1 {
        lemma_ascending_from_neighbours(s, i, j - 1);
        assert(text_lt(s[j - 1], s[j]));
        lemma_text_lt_transitive(s[i], s[j - 1], s[j]);
    }
}

/// The list of each provider name.
proof fn lemma_list_of_name(k: int)
    requires
        0 <= k < spec_provider_names().len(),
    ensures
        k < 14 ==> spec_provider_strs(spec_provider_names()[k]) == Some(spec_unlisted()),
        k == 14 ==> spec_provider_strs(spec_provider_names()[k]) == Some(spec_private()),
        k == 15 ==> spec_provider_names()[k] == "all"@,
{
    lemma_names_have_ranges(k);
    lemma_named_lists();
    let names = spec_provider_names();
    assert(names[14] == "private"@ && names[15] == "all"@);
}

/// The list of `all` is strictly ascending, and its strings are exactly those
/// of the other providers' lists.
pub proof fn lemma_all_sorted_union()
    ensures
        strictly_ascending(spec_provider_strs("all"@).unwrap()),
        spec_provider_strs("all"@).unwrap().to_set() == union_of_providers(),
{
    lemma_named_lists();
    let all = spec_all();
    reveal_strlit("10.0.0.0/8");
    reveal_strlit("127.0.0.0/8");
    reveal_strlit("169.254.0.0/16");
    reveal_strlit("172.16.0.0/12");
    reveal_strlit("192.168.0.0/16");
    reveal_strlit("::1/128");
    reveal_strlit("fc00::/7");
    reveal_strlit("fe80::/10");
    reveal_with_fuel(text_lt, 3);
    assert(text_lt(all[0], all[1]));
    assert(text_lt(all[1], all[2]));
    assert(text_lt(all[2], all[3]));
    assert(text_lt(all[3], all[4]));
    assert(text_lt(all[4], all[5]));
    assert(text_lt(all[5], all[6]));
    assert(text_lt(all[6], all[7]));
    assert forall|i: int, j: int| 0 <= i < j < all.len() implies text_lt(#[trigger] all[i], #[trigger] all[j]) by {
        lemma_ascending_from_neighbours(all, i, j);
    }
    assert forall|s: Seq<char>| all.to_set().contains(s) <==> union_of_providers().contains(s) by {
        if all.contains(s) {
            lemma_list_of_name(14);
            assert(spec_provider_strs(spec_provider_names()[14]).unwrap().contains(s));
        }
        if union_of_providers().contains(s) {
            let k = choose|k: int| 0 <= k < spec_provider_names().len()
                && spec_provider_names()[k] != "all"@
                && (#[trigger] spec_provider_strs(spec_provider_names()[k])).unwrap().contains(s);
            lemma_list_of_name(k);
            assert(spec_private() == spec_all());
        }
    }
    assert(all.to_set() =~= union_of_providers());
}

/// The IPv4 private, loopback and link-local space: 10.0.0.0/8,
/// 127.0.0.0/8, 169.254.0.0/16, 172.16.0.0/12 and 192.168.0.0/16.
pub open spec fn in_private_v4_space(a: u32) -> bool {
    ||| 0x0a00_0000 <= a <= 0x0aff_ffff
    ||| 0x7f00_0000 <= a <= 0x7fff_ffff
    ||| 0xa9fe_0000 <= a <= 0xa9fe_ffff
    ||| 0xac10_0000 <= a <= 0xac1f_ffff
    ||| 0xc0a8_0000 <= a <= 0xc0a8_ffff
}

/// The texts of the private list: five IPv4 networks, then three texts
/// holding `:`.
proof fn lemma_private_texts()
    ensures
        spec_private()[0] == v4_cidr_text(10, 0, 0, 0, 8),
        spec_private()[1] == v4_cidr_text(127, 0, 0, 0, 8),
        spec_private()[2] == v4_cidr_text(169, 254, 0, 0, 16),
        spec_private()[3] == v4_cidr_text(172, 16, 0, 0, 12),
        spec_private()[4] == v4_cidr_text(192, 168, 0, 0, 16),
        spec_private()[5].contains(':'),
        spec_private()[6].contains(':'),
        spec_private()[7].contains(':'),
        spec_private().len() == 8,
{
    reveal_strlit("10.0.0.0/8");
    reveal_strlit("127.0.0.0/8");
    reveal_strlit("169.254.0.0/16");
    reveal_strlit("172.16.0.0/12");
    reveal_strlit("192.168.0.0/16");
    reveal_strlit("::1/128");
    reveal_strlit("fc00::/7");
    reveal_strlit("fe80::/10");
    assert(spec_private()[0] =~= v4_cidr_text(10, 0, 0, 0, 8));
    assert(spec_private()[1] =~= v4_cidr_text(127, 0, 0, 0, 8));
    assert(spec_private()[2] =~= v4_cidr_text(169, 254, 0, 0, 16));
    assert(spec_private()[3] =~= v4_cidr_text(172, 16, 0, 0, 12));
    assert(spec_private()[4] =~= v4_cidr_text(192, 168, 0, 0, 16));
    assert(spec_private()[5][0] == ':');
    assert(spec_private()[6][2] == '0' && spec_private()[6][4] == ':');
    assert(spec_private()[7][4] == ':');
}

/// An entry of a range list that is the text of an IPv4 network blocks an
/// IPv4 address exactly when the address agrees with it on the prefix.
proof fn lemma_v4_entry(text: Seq<char>, a: u8, b: u8, c: u8, d: u8, p: u8, x: u32)
    requires
        grammar_facts(text),
        text == v4_cidr_text(a, b, c, d, p),
        1 <= p <= 32,
    ensures
        cidr_blocks(text, IpAddress::V4(x))
            <==> (x >> ((32 - p) as u32)) == (v4_value(a, b, c, d) >> ((32 - p) as u32)),
{
    assert(spec_parse_cidr(text) == Some(IpNetwork::V4 { addr: v4_value(a, b, c, d), prefix_len: p }));
    lemma_v4_contains_iff_prefix_agrees(v4_value(a, b, c, d), p, x);
}

/// An entry holding `:` blocks no IPv4 address.
proof fn lemma_colon_entry(text: Seq<char>, x: u32)
    requires
        grammar_facts(text),
        text.contains(':'),
    ensures
        !cidr_blocks(text, IpAddress::V4(x)),
{
}

proof fn lemma_prefix_ranges(x: u32)
    ensures
        (x >> 24u32) == (0x0a00_0000u32 >> 24u32) <==> 0x0a00_0000 <= x <= 0x0aff_ffff,
        (x >> 24u32) == (0x7f00_0000u32 >> 24u32) <==> 0x7f00_0000 <= x <= 0x7fff_ffff,
        (x >> 16u32) == (0xa9fe_0000u32 >> 16u32) <==> 0xa9fe_0000 <= x <= 0xa9fe_ffff,
        (x >> 20u32) == (0xac10_0000u32 >> 20u32) <==> 0xac10_0000 <= x <= 0xac1f_ffff,
        (x >> 16u32) == (0xc0a8_0000u32 >> 16u32) <==> 0xc0a8_0000 <= x <= 0xc0a8_ffff,
{
    assert((x >> 24u32) == (0x0a00_0000u32 >> 24u32) <==> 0x0a00_0000 <= x <= 0x0aff_ffff) by (bit_vector);
    assert((x >> 24u32) == (0x7f00_0000u32 >> 24u32) <==> 0x7f00_0000 <= x <= 0x7fff_ffff) by (bit_vector);
    assert((x >> 16u32) == (0xa9fe_0000u32 >> 16u32) <==> 0xa9fe_0000 <= x <= 0xa9fe_ffff) by (bit_vector);
    assert((x >> 20u32) == (0xac10_0000u32 >> 20u32) <==> 0xac10_0000 <= x <= 0xac1f_ffff) by (bit_vector);
    assert((x >> 16u32) == (0xc0a8_0000u32 >> 16u32) <==> 0xc0a8_0000 <= x <= 0xc0a8_ffff) by (bit_vector);
}

/// A provider whose list is the private list blocks exactly the IPv4 private,
/// loopback and link-local space.
proof fn lemma_private_space_v4(m: Matcher, name: Seq<char>, x: u32)
    requires
        m.holds_provider_ranges(),
        spec_provider_strs(name) == Some(spec_private()),
        forall|j: int| 0 <= j < spec_private().len() ==> grammar_facts(#[trigger] spec_private()[j]),
    ensures
        m.provider_blocks(name, IpAddress::V4(x)) <==> in_private_v4_space(x),
{
    let l = spec_private();
    lemma_private_texts();
    lemma_provider_blocks_by_string(m, name, IpAddress::V4(x));
    assert(grammar_facts(l[0]) && grammar_facts(l[1]) && grammar_facts(l[2]) && grammar_facts(l[3]));
    assert(grammar_facts(l[4]) && grammar_facts(l[5]) && grammar_facts(l[6]) && grammar_facts(l[7]));
    lemma_v4_entry(l[0], 10, 0, 0, 0, 8, x);
    lemma_v4_entry(l[1], 127, 0, 0, 0, 8, x);
    lemma_v4_entry(l[2], 169, 254, 0, 0, 16, x);
    lemma_v4_entry(l[3], 172, 16, 0, 0, 12, x);
    lemma_v4_entry(l[4], 192, 168, 0, 0, 16, x);
    lemma_colon_entry(l[5], x);
    lemma_colon_entry(l[6], x);
    lemma_colon_entry(l[7], x);
    assert(v4_value(10, 0, 0, 0) == 0x0a00_0000u32);
    assert(v4_value(127, 0, 0, 0) == 0x7f00_0000u32);
    assert(v4_value(169, 254, 0, 0) == 0xa9fe_0000u32);
    assert(v4_value(172, 16, 0, 0) == 0xac10_0000u32);
    assert(v4_value(192, 168, 0, 0) == 0xc0a8_0000u32);
    lemma_prefix_ranges(x);
    if in_private_v4_space(x) {
        if 0x0a00_0000 <= x <= 0x0aff_ffff { assert(cidr_blocks(l[0], IpAddress::V4(x))); }
        else if 0x7f00_0000 <= x <= 0x7fff_ffff { assert(cidr_blocks(l[1], IpAddress::V4(x))); }
        else if 0xa9fe_0000 <= x <= 0xa9fe_ffff { assert(cidr_blocks(l[2], IpAddress::V4(x))); }
        else if 0xac10_0000 <= x <= 0xac1f_ffff { assert(cidr_blocks(l[3], IpAddress::V4(x))); }
        else { assert(cidr_blocks(l[4], IpAddress::V4(x))); }
    }
    if m.provider_blocks(name, IpAddress::V4(x)) {
        let i = choose|i: int| 0 <= i < l.len() && #[trigger] cidr_blocks(l[i], IpAddress::V4(x));
        assert(0 <= i < 8);
    }
}

/// `name` is the `k`-th provider name and none before it.
pub open spec fn first_name_at(name: Seq<char>, k: int) -> bool {
    &&& 0 <= k < spec_provider_names().len()
    &&& spec_provider_names()[k] == name
    &&& forall|j: int| 0 <= j < k ==> #[trigger] spec_provider_names()[j] != name
}

/// The parsed ranges of every provider, looked up by provider name.
pub struct Matcher {
    ranges: Vec<Vec<IpNetwork>>,
}

impl Matcher {
    #[verifier::type_invariant]
    spec fn inv(self) -> bool {
        &&& self.ranges.len() == spec_provider_names().len()
        &&& forall|k: int, j: int| 0 <= k < self.ranges.len() && 0 <= j < self.ranges[k].len()
            ==> #[trigger] self.ranges[k][j].wf()
    }

    /// The networks held for the provider called `name`; `None` for a name
    /// that is no provider's.
    pub closed spec fn ranges_for(self, name: Seq<char>) -> Option<Seq<IpNetwork>> {
        if exists|k: int| first_name_at(name, k) {
            Some(self.ranges[choose|k: int| first_name_at(name, k)]@)
        } else {
            None
        }
    }

    /// Each provider's networks are the ranges of that provider that `ipnet`
    /// accepts, in order.
    pub open spec fn holds_provider_ranges(self) -> bool {
        forall|name: Seq<char>| #[trigger] self.ranges_for(name) == match spec_provider_strs(name) {
            Some(strs) => Some(parse_valid(strs)),
            None => None,
        }
    }

    /// The provider called `name` holds a network that contains `ip`.
    pub open spec fn provider_blocks(self, name: Seq<char>, ip: IpAddress) -> bool {
        match self.ranges_for(name) {
            Some(nets) => exists|k: int| 0 <= k < nets.len() && #[trigger] nets[k].spec_contains(ip),
            None => false,
        }
    }

    /// `providers[i]` is the first of `providers` that blocks `ip`.
    pub open spec fn first_blocking_at(self, providers: Seq<String>, ip: IpAddress, i: int) -> bool {
        &&& 0 <= i < providers.len()
        &&& self.provider_blocks(providers[i]@, ip)
        &&& forall|j: int| 0 <= j < i ==> !self.provider_blocks(#[trigger] providers[j]@, ip)
    }

    /// No provider of `providers` blocks `ip`.
    pub open spec fn none_blocks(self, providers: Seq<String>, ip: IpAddress) -> bool {
        forall|i: int| 0 <= i < providers.len() ==> !self.provider_blocks(#[trigger] providers[i]@, ip)
    }

    /// Parses the ranges of every provider; a string that `ipnet` refuses is
    /// skipped.
    pub fn build() -> (r: Matcher)
        ensures
            r.holds_provider_ranges(),
            forall|a: u32| #[trigger] r.provider_blocks("private"@, IpAddress::V4(a))
                <==> in_private_v4_space(a),
            forall|a: u32| #[trigger] r.provider_blocks("all"@, IpAddress::V4(a))
                <==> in_private_v4_space(a),
    {
        let names = provider_names();
        let mut ranges: Vec<Vec<IpNetwork>> = Vec::new();
        let mut k: usize = 0;
        while k < names.len()
            invariant
                views(names@) == spec_provider_names(),
                k <= names.len(),
                ranges.len() == k,
                forall|i: int| #![trigger ranges[i]] 0 <= i < k ==>
                    ranges[i]@ == parse_valid(spec_provider_strs(spec_provider_names()[i]).unwrap()),
                forall|i: int, j: int| 0 <= i < ranges.len() && 0 <= j < ranges[i].len()
                    ==> #[trigger] ranges[i][j].wf(),
                forall|i: int, j: int| 0 <= i < k && 0 <= j < spec_provider_strs(spec_provider_names()[i]).unwrap().len()
                    ==> grammar_facts(#[trigger] spec_provider_strs(spec_provider_names()[i]).unwrap()[j]),
            decreases names.len() - k,
        {
            proof {
                assert(names@[k as int]@ == spec_provider_names()[k as int]);
                lemma_names_have_ranges(k as int);
            }
            match provider_strs(names[k]) {
                Some(strs) => {
                    let nets = parse_all(strs);
                    ranges.push(nets);
                    proof {
                        assert(views(strs@) == spec_provider_strs(spec_provider_names()[k as int]).unwrap());
                    }
                },
                None => {
                    proof { assert(false); }
                },
            }
            k = k + 1;
        }
        let r = Matcher { ranges };
        proof {
            assert forall|name: Seq<char>| #[trigger] r.ranges_for(name) == match spec_provider_strs(name) {
                Some(strs) => Some(parse_valid(strs)),
                None => None,
            } by {
                if exists|k: int| first_name_at(name, k) {
                    let c = choose|k: int| first_name_at(name, k);
                    lemma_names_have_ranges(c);
                    assert(r.ranges[c]@ == parse_valid(spec_provider_strs(spec_provider_names()[c]).unwrap()));
                } else {
                    assert forall|k: int| 0 <= k < spec_provider_names().len()
                        implies spec_provider_names()[k] != name by {
                        if spec_provider_names()[k] == name {
                            lemma_first_name_exists(name, k);
                        }
                    }
                    lemma_other_names_have_none(name);
                }
            }
            lemma_list_of_name(14);
            lemma_named_lists();
            assert(spec_private() == spec_all());
            assert forall|j: int| 0 <= j < spec_private().len()
                implies grammar_facts(#[trigger] spec_private()[j]) by {
                assert(spec_provider_strs(spec_provider_names()[14]).unwrap()[j] == spec_private()[j]);
            }
            assert forall|a: u32| #[trigger] r.provider_blocks("private"@, IpAddress::V4(a))
                <==> in_private_v4_space(a) by {
                lemma_private_space_v4(r, "private"@, a);
            }
            assert forall|a: u32| #[trigger] r.provider_blocks("all"@, IpAddress::V4(a))
                <==> in_private_v4_space(a) by {
                lemma_private_space_v4(r, "all"@, a);
            }
        }
        r
    }

    /// The first provider of `providers` that holds a network containing
    /// `ip`; names that are no provider's are passed over.
    pub fn is_blocked<'a>(&self, ip: IpAddress, providers: &'a [String]) -> (r: Option<&'a str>)
        ensures
            r is None <==> self.none_blocks(providers@, ip),
            r matches Some(s) ==> exists|i: int| #[trigger] self.first_blocking_at(providers@, ip, i)
                && s@ == providers@[i]@,
    {
        let mut i: usize = 0;
        while i < providers.len()
            invariant
                i <= providers@.len(),
                forall|j: int| 0 <= j < i ==> !self.provider_blocks(#[trigger] providers@[j]@, ip),
            decreases providers@.len() - i,
        {
            let provider = providers[i].as_str();
            match self.get(provider) {
                Some(nets) => {
                    if any_contains(nets, &ip) {
                        assert(self.first_blocking_at(providers@, ip, i as int));
                        return Some(provider);
                    }
                },
                None => {},
            }
            i = i + 1;
        }
        None
    }

    /// The networks held for the provider called `name`.
    fn get(&self, name: &str) -> (r: Option<&Vec<IpNetwork>>)
        ensures
            r is Some <==> self.ranges_for(name@) is Some,
            r matches Some(nets) ==> nets@ == self.ranges_for(name@).unwrap()
                && forall|j: int| 0 <= j < nets.len() ==> #[trigger] nets[j].wf(),
    {
        proof { use_type_invariant(self); }
        let names = provider_names();
        let mut k: usize = 0;
        while k < names.len()
            invariant
                views(names@) == spec_provider_names(),
                k <= names.len(),
                self.ranges.len() == names.len(),
                forall|i: int| 0 <= i < k ==> #[trigger] spec_provider_names()[i] != name@,
            decreases names.len() - k,
        {
            proof { assert(names@[k as int]@ == spec_provider_names()[k as int]); }
            if str_eq(name, names[k]) {
                proof {
                    use_type_invariant(self);
                    assert(first_name_at(name@, k as int));
                    let c = choose|c: int| first_name_at(name@, c);
                    if c < k {
                        assert(spec_provider_names()[c] != name@);
                    } else if c > k {
                        assert(spec_provider_names()[k as int] != name@);
                    }
                    assert forall|j: int| 0 <= j < self.ranges[k as int].len()
                        implies #[trigger] self.ranges[k as int][j].wf() by {}
                }
                return Some(&self.ranges[k]);
            }
            k = k + 1;
        }
        None
    }
}

/// Where a provider name is some name, there is a first one.
proof fn lemma_first_name_exists(name: Seq<char>, k: int)
    requires
        0 <= k < spec_provider_names().len(),
        spec_provider_names()[k] == name,
    ensures
        exists|c: int| first_name_at(name, c),
    decreases k,
{
    if forall|j: int| 0 <= j < k ==> #[trigger] spec_provider_names()[j] != name {
        assert(first_name_at(name, k));
    } else {
        let j = choose|j: int| 0 <= j < k && #[trigger] spec_provider_names()[j] == name;
        lemma_first_name_exists(name, j);
    }
}

/// Parses each string of `strs`, keeping those that `ipnet` accepts.
fn parse_all(strs: &[&str]) -> (r: Vec<IpNetwork>)
    ensures
        r@ == parse_valid(views(strs@)),
        forall|j: int| 0 <= j < r.len() ==> #[trigger] r[j].wf(),
        forall|j: int| 0 <= j < strs@.len() ==> grammar_facts(#[trigger] views(strs@)[j]),
{
    let mut nets: Vec<IpNetwork> = Vec::new();
    let mut i: usize = 0;
    while i < strs.len()
        invariant
            i <= strs@.len(),
            nets@ == parse_valid(views(strs@).take(i as int)),
            forall|j: int| 0 <= j < nets.len() ==> #[trigger] nets[j].wf(),
            forall|j: int| 0 <= j < i ==> grammar_facts(#[trigger] views(strs@)[j]),
        decreases strs@.len() - i,
    {
        proof {
            assert(views(strs@).take(i + 1).drop_last() =~= views(strs@).take(i as int));
        }
        match parse_cidr(strs[i]) {
            Ok(n) => nets.push(n),
            Err(_) => {},
        }
        i = i + 1;
    }
    proof { assert(views(strs@).take(strs@.len() as int) =~= views(strs@)); }
    nets
}

/// Whether some network of `nets` contains `ip`.
fn any_contains(nets: &Vec<IpNetwork>, ip: &IpAddress) -> (r: bool)
    requires
        forall|j: int| 0 <= j < nets.len() ==> #[trigger] nets[j].wf(),
    ensures
        r == exists|k: int| 0 <= k < nets@.len() && #[trigger] nets@[k].spec_contains(*ip),
{
    let mut k: usize = 0;
    while k < nets.len()
        invariant
            k <= nets@.len(),
            forall|j: int| 0 <= j < nets.len() ==> #[trigger] nets[j].wf(),
            forall|j: int| 0 <= j < k ==> !(#[trigger] nets@[j].spec_contains(*ip)),
        decreases nets@.len() - k,
    {
        if nets[k].contains(ip) {
            return true;
        }
        k = k + 1;
    }
    false
}

} // verus!
