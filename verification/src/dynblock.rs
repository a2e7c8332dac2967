//! The dynamic block list: routes reported as threats, which the caller also
//! keeps in storage, and single addresses blocked for the session.

use vstd::prelude::*;
use crate::matcher::{cidr_blocks, lemma_parse_valid_member, parse_valid};
use crate::net::{CidrError, IpAddress, IpNetwork, lemma_host_contains_exactly, parse_cidr, spec_parse_cidr};
use crate::text::str_eq;

verus! {

/// The views of a list of owned strings.
pub open spec fn string_views(s: Seq<String>) -> Seq<Seq<char>> {
    s.map_values(|x: String| x@)
}

/// Where `ipnet` reads a network from `row`, that network is in `nets`.
pub open spec fn row_listed(nets: Seq<IpNetwork>, row: Seq<char>) -> bool {
    match spec_parse_cidr(row) {
        Some(n) => nets.contains(n),
        None => true,
    }
}

/// A CIDR string together with the network that `ipnet` reads from it.
pub struct Route {
    cidr: String,
    net: IpNetwork,
}

impl Route {
    #[verifier::type_invariant]
    spec fn inv(self) -> bool {
        &&& spec_parse_cidr(self.cidr@) == Some(self.net)
        &&& self.net.wf()
    }

    /// The route's text.
    pub closed spec fn spec_cidr(self) -> Seq<char> {
        self.cidr@
    }

    /// The route's network.
    pub closed spec fn spec_network(self) -> IpNetwork {
        self.net
    }

    /// Reads a route; an error where `ipnet` refuses the string.
    pub fn parse(cidr: &str) -> (r: Result<Route, CidrError>)
        ensures
            r is Ok <==> spec_parse_cidr(cidr@) is Some,
            r matches Ok(route) ==> route.spec_cidr() == cidr@
                && spec_parse_cidr(cidr@) == Some(route.spec_network()),
            r matches Err(e) ==> e == CidrError::Invalid,
    {
        match parse_cidr(cidr) {
            Ok(net) => Ok(Route { cidr: String::from_str(cidr), net }),
            Err(e) => Err(e),
        }
    }

    /// The route's text.
    pub fn cidr(&self) -> (r: &str)
        ensures
            r@ == self.spec_cidr(),
    {
        self.cidr.as_str()
    }

    /// The route's network, the one `ipnet` reads from its text.
    pub fn network(&self) -> (r: IpNetwork)
        ensures
            r == self.spec_network(),
            spec_parse_cidr(self.spec_cidr()) == Some(r),
            r.wf(),
    {
        proof { use_type_invariant(self); }
        self.net
    }
}

/// What became of the caller's attempt to store a route.
#[derive(Clone, Copy, Debug, PartialEq, Eq, Structural)]
pub enum StoreOutcome {
    /// A new row holds the route.
    Inserted,
    /// A row held the route already.
    AlreadyStored,
    /// The write failed.
    Failed,
}

/// The networks that block an address, in the order they were added, and
/// the rows of the route table as far as this list has seen them (read at
/// start, or stored since).
pub struct DynBlockStore {
    nets: Vec<IpNetwork>,
    stored: Vec<String>,
}

impl View for DynBlockStore {
    type V = Seq<IpNetwork>;

    closed spec fn view(&self) -> Seq<IpNetwork> {
        self.nets@
    }
}

impl DynBlockStore {
    #[verifier::type_invariant]
    spec fn inv(self) -> bool {
        &&& forall|k: int| 0 <= k < self.nets.len() ==> #[trigger] self.nets[k].wf()
        &&& forall|i: int| 0 <= i < self.stored.len() ==> row_listed(self.nets@, #[trigger] self.stored@[i]@)
    }

    /// The stored rows that this list knows of.
    pub closed spec fn stored_rows(self) -> Seq<Seq<char>> {
        string_views(self.stored@)
    }

    /// Every stored row that `ipnet` reads is listed.
    pub open spec fn rows_listed(self) -> bool {
        forall|i: int| 0 <= i < self.stored_rows().len() ==> row_listed(self@, #[trigger] self.stored_rows()[i])
    }

    /// Some network of the list contains `ip`.
    pub open spec fn spec_is_blocked(self, ip: IpAddress) -> bool {
        exists|k: int| 0 <= k < self@.len() && #[trigger] self@[k].spec_contains(ip)
    }

    proof fn lemma_rows_listed(self)
        requires
            self.inv(),
        ensures
            self.rows_listed(),
    {
        assert forall|i: int| 0 <= i < self.stored_rows().len()
            implies row_listed(self@, #[trigger] self.stored_rows()[i]) by {
            assert(self.stored_rows()[i] == self.stored@[i]@);
        }
    }

    /// An empty list.
    pub fn new() -> (r: DynBlockStore)
        ensures
            r@ == Seq::<IpNetwork>::empty(),
            r.stored_rows() == Seq::<Seq<char>>::empty(),
            r.rows_listed(),
    {
        let r = DynBlockStore { nets: Vec::new(), stored: Vec::new() };
        proof { assert(r.stored_rows() =~= Seq::<Seq<char>>::empty()); }
        r
    }

    /// The list of the routes kept in storage: each stored string that
    /// `ipnet` accepts, in order; the others are skipped.
    pub fn from_stored(cidrs: &[String]) -> (r: DynBlockStore)
        ensures
            r@ == parse_valid(string_views(cidrs@)),
            r.stored_rows() == string_views(cidrs@),
            r.rows_listed(),
    {
        let mut nets: Vec<IpNetwork> = Vec::new();
        let mut stored: Vec<String> = Vec::new();
        let mut i: usize = 0;
        while i < cidrs.len()
            invariant
                i <= cidrs@.len(),
                nets@ == parse_valid(string_views(cidrs@).take(i as int)),
                string_views(stored@) == string_views(cidrs@).take(i as int),
                forall|j: int| 0 <= j < nets.len() ==> #[trigger] nets[j].wf(),
            decreases cidrs@.len() - i,
        {
            proof {
                assert(string_views(cidrs@).take(i + 1).drop_last()
                    =~= string_views(cidrs@).take(i as int));
            }
            match parse_cidr(cidrs[i].as_str()) {
                Ok(n) => nets.push(n),
                Err(_) => {},
            }
            stored.push(cidrs[i].clone());
            proof {
                assert(string_views(stored@) =~= string_views(cidrs@).take(i + 1));
            }
            i = i + 1;
        }
        proof {
            assert(string_views(cidrs@).take(cidrs@.len() as int) =~= string_views(cidrs@));
            assert forall|i: int| 0 <= i < stored.len()
                implies row_listed(nets@, #[trigger] stored@[i]@) by {
                let strs = string_views(cidrs@);
                assert(stored@[i]@ == strs[i]);
                match spec_parse_cidr(strs[i]) {
                    Some(n) => { lemma_parse_valid_member(strs, n); },
                    None => {},
                }
            }
        }
        let r = DynBlockStore { nets, stored };
        proof { r.lemma_rows_listed(); }
        r
    }

    /// Whether some network of the list contains `ip`.
    pub fn is_blocked(&self, ip: &IpAddress) -> (r: bool)
        ensures
            r == self.spec_is_blocked(*ip),
    {
        proof { use_type_invariant(self); }
        let mut k: usize = 0;
        while k < self.nets.len()
            invariant
                k <= self.nets@.len(),
                forall|j: int| 0 <= j < self.nets.len() ==> #[trigger] self.nets[j].wf(),
                forall|j: int| 0 <= j < k ==> !(#[trigger] self.nets@[j].spec_contains(*ip)),
            decreases self.nets@.len() - k,
        {
            if self.nets[k].contains(ip) {
                assert(self@[k as int].spec_contains(*ip));
                return true;
            }
            k = k + 1;
        }
        false
    }

    /// Whether the list knows of a stored row holding `cidr`.
    fn is_stored(&self, cidr: &str) -> (r: bool)
        ensures
            r == self.stored_rows().contains(cidr@),
    {
        let mut i: usize = 0;
        while i < self.stored.len()
            invariant
                i <= self.stored@.len(),
                forall|j: int| 0 <= j < i ==> #[trigger] self.stored@[j]@ != cidr@,
            decreases self.stored@.len() - i,
        {
            if str_eq(self.stored[i].as_str(), cidr) {
                proof { assert(self.stored_rows()[i as int] == cidr@); }
                return true;
            }
            i = i + 1;
        }
        proof {
            assert forall|j: int| 0 <= j < self.stored_rows().len()
                implies #[trigger] self.stored_rows()[j] != cidr@ by {
                assert(self.stored_rows()[j] == self.stored@[j]@);
            }
        }
        false
    }

    /// Lists a route once the caller has tried to store it, whatever came of
    /// that: the route blocks its addresses for the session even where the
    /// write failed. A route that a known row held already is listed by that
    /// row and is not listed twice; one stored by someone else is listed now.
    pub fn add(&mut self, route: &Route, outcome: StoreOutcome)
        ensures
            forall|ip: IpAddress| #[trigger] final(self).spec_is_blocked(ip)
                == (old(self).spec_is_blocked(ip) || route.spec_network().spec_contains(ip)),
            final(self).rows_listed(),
            outcome == StoreOutcome::Inserted ==> final(self)@ == old(self)@.push(route.spec_network())
                && final(self).stored_rows() == old(self).stored_rows().push(route.spec_cidr()),
            outcome == StoreOutcome::AlreadyStored ==> if old(self).stored_rows().contains(route.spec_cidr()) {
                final(self)@ == old(self)@ && final(self).stored_rows() == old(self).stored_rows()
            } else {
                final(self)@ == old(self)@.push(route.spec_network())
                    && final(self).stored_rows() == old(self).stored_rows().push(route.spec_cidr())
            },
            outcome == StoreOutcome::Failed ==> final(self)@ == old(self)@.push(route.spec_network())
                && final(self).stored_rows() == old(self).stored_rows(),
            outcome != StoreOutcome::Failed ==> final(self).stored_rows().contains(route.spec_cidr()),
    {
        proof {
            use_type_invariant(&*self);
            use_type_invariant(route);
        }
        let net = route.network();
        let known = match outcome {
            StoreOutcome::AlreadyStored => self.is_stored(route.cidr()),
            _ => false,
        };
        if known {
            proof {
                let i = choose|i: int| 0 <= i < self.stored_rows().len()
                    && self.stored_rows()[i] == route.spec_cidr();
                assert(self.stored_rows()[i] == self.stored@[i]@);
                assert(row_listed(self.nets@, self.stored@[i]@));
                assert(self@.contains(net));
                assert forall|ip: IpAddress| #[trigger] self.spec_is_blocked(ip)
                    == (self.spec_is_blocked(ip) || net.spec_contains(ip)) by {
                    if net.spec_contains(ip) {
                        let k = choose|k: int| 0 <= k < self@.len() && self@[k] == net;
                        assert(self@[k].spec_contains(ip));
                    }
                }
                self.lemma_rows_listed();
                assert(self.stored_rows().contains(route.spec_cidr()));
            }
            return;
        }
        let ghost old_rows = self.stored_rows();
        let mut list = DynBlockStore::new();
        std::mem::swap(&mut list, self);
        proof { use_type_invariant(&list); }
        let DynBlockStore { mut nets, mut stored } = list;
        nets.push(net);
        match outcome {
            StoreOutcome::Failed => {},
            _ => stored.push(String::from_str(route.cidr())),
        }
        proof {
            assert forall|i: int| 0 <= i < stored.len()
                implies row_listed(nets@, #[trigger] stored@[i]@) by {
                if i < old(self).stored@.len() {
                    assert(stored@[i] == old(self).stored@[i]);
                    match spec_parse_cidr(stored@[i]@) {
                        Some(n) => {
                            assert(old(self).nets@.contains(n));
                            let k = choose|k: int| 0 <= k < old(self).nets@.len() && old(self).nets@[k] == n;
                            assert(nets@[k] == n);
                        },
                        None => {},
                    }
                } else {
                    assert(stored@[i]@ == route.spec_cidr());
                    assert(nets@[nets@.len() - 1] == net);
                }
            }
        }
        *self = DynBlockStore { nets, stored };
        proof {
            self.lemma_rows_listed();
            assert forall|ip: IpAddress| #[trigger] self.spec_is_blocked(ip)
                == (old(self).spec_is_blocked(ip) || net.spec_contains(ip)) by {
                if old(self).spec_is_blocked(ip) {
                    let k = choose|k: int| 0 <= k < old(self)@.len()
                        && #[trigger] old(self)@[k].spec_contains(ip);
                    assert(self@[k] == old(self)@[k]);
                }
                if net.spec_contains(ip) {
                    assert(self@[old(self)@.len() as int] == net);
                }
                if self.spec_is_blocked(ip) {
                    let k = choose|k: int| 0 <= k < self@.len()
                        && #[trigger] self@[k].spec_contains(ip);
                    if k < old(self)@.len() {
                        assert(old(self)@[k] == self@[k]);
                    }
                }
            }
            if outcome != StoreOutcome::Failed {
                assert(self.stored_rows() =~= old_rows.push(route.spec_cidr()));
                assert(self.stored_rows()[old_rows.len() as int] == route.spec_cidr());
            } else {
                assert(self.stored_rows() =~= old_rows);
            }
        }
    }

    /// Blocks exactly `ip` for the rest of the session: its `/32` or `/128`
    /// network joins the list, and no row is stored. Afterwards `ip` is
    /// blocked, and every other address is blocked exactly when it was before.
    pub fn add_ephemeral(&mut self, ip: IpAddress)
        ensures
            final(self)@ == old(self)@.push(IpNetwork::spec_host(ip)),
            final(self).stored_rows() == old(self).stored_rows(),
            final(self).rows_listed(),
            final(self).spec_is_blocked(ip),
            forall|other: IpAddress| other != ip
                ==> #[trigger] final(self).spec_is_blocked(other) == old(self).spec_is_blocked(other),
    {
        proof { use_type_invariant(&*self); }
        let net = IpNetwork::host(ip);
        let mut list = DynBlockStore::new();
        std::mem::swap(&mut list, self);
        proof { use_type_invariant(&list); }
        let DynBlockStore { mut nets, stored } = list;
        nets.push(net);
        proof {
            assert forall|i: int| 0 <= i < stored.len()
                implies row_listed(nets@, #[trigger] stored@[i]@) by {
                match spec_parse_cidr(stored@[i]@) {
                    Some(n) => {
                        assert(old(self).nets@.contains(n));
                        let k = choose|k: int| 0 <= k < old(self).nets@.len() && old(self).nets@[k] == n;
                        assert(nets@[k] == n);
                    },
                    None => {},
                }
            }
        }
        *self = DynBlockStore { nets, stored };
        proof {
            self.lemma_rows_listed();
            lemma_host_contains_exactly(ip, ip);
            assert(self@[old(self)@.len() as int] == net);
            assert forall|other: IpAddress| other != ip
                implies #[trigger] self.spec_is_blocked(other) == old(self).spec_is_blocked(other) by {
                lemma_host_contains_exactly(ip, other);
                if old(self).spec_is_blocked(other) {
                    let k = choose|k: int| 0 <= k < old(self)@.len()
                        && #[trigger] old(self)@[k].spec_contains(other);
                    assert(self@[k] == old(self)@[k]);
                }
                if self.spec_is_blocked(other) {
                    let k = choose|k: int| 0 <= k < self@.len()
                        && #[trigger] self@[k].spec_contains(other);
                    if k < old(self)@.len() {
                        assert(old(self)@[k] == self@[k]);
                    }
                }
            }
        }
    }
}

/// A route kept in storage still blocks, once the list is rebuilt from
/// storage, every address that it contains.
pub proof fn lemma_stored_route_blocks_after_reload(
    list: DynBlockStore,
    cidrs: Seq<String>,
    i: int,
    ip: IpAddress,
)
    requires
        list@ == parse_valid(string_views(cidrs)),
        0 <= i < cidrs.len(),
        cidr_blocks(cidrs[i]@, ip),
    ensures
        list.spec_is_blocked(ip),
{
    let strs = string_views(cidrs);
    let n = spec_parse_cidr(strs[i]).unwrap();
    assert(spec_parse_cidr(strs[i]) == Some(n));
    lemma_parse_valid_member(strs, n);
    let k = choose|k: int| 0 <= k < list@.len() && list@[k] == n;
    assert(list@[k].spec_contains(ip));
}

/// Every address of a route whose row the list knows of is blocked.
pub proof fn lemma_known_row_blocks(list: DynBlockStore, i: int, ip: IpAddress)
    requires
        list.rows_listed(),
        0 <= i < list.stored_rows().len(),
        cidr_blocks(list.stored_rows()[i], ip),
    ensures
        list.spec_is_blocked(ip),
{
    let n = spec_parse_cidr(list.stored_rows()[i]).unwrap();
    assert(row_listed(list@, list.stored_rows()[i]));
    let k = choose|k: int| 0 <= k < list@.len() && list@[k] == n;
    assert(list@[k].spec_contains(ip));
}

} // verus!
