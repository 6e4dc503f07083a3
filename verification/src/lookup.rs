//! Longest-prefix queries over a routing snapshot: the source address
//! to use toward a destination, and the full link/neighbor picture for
//! an address. Both pick, among the routes whose masked destination
//! covers the address, one with the greatest prefix length, earliest
//! in the snapshot among ties.

use vstd::prelude::*;

use crate::addr::{bits_of, Addr, Ipv4, RtAddr};
use crate::allocator::high_mask;
use crate::cache::Cache;
use crate::route::{is_default, neigh_matches, Link, Neigh, Route};

verus! {

/// The mask a route's prefix length imposes; prefix 0 masks nothing
/// and so covers every address.
pub open spec fn route_mask(plen: u32) -> u32 {
    if plen == 0 {
        0
    } else {
        high_mask(plen)
    }
}

/// The prefix length of a route's destination (0 when it has none).
pub open spec fn route_prefix(rt: Route) -> u32 {
    match rt.dst {
        Some(d) => d.prefix,
        None => 0,
    }
}

/// True when the route's destination block covers `ip`: the
/// destination is a well-formed IPv4 prefix and agrees with `ip` under
/// its own mask.
pub open spec fn route_covers(rt: Route, ip: u32) -> bool {
    match rt.dst {
        Some(d) => d.data@.len() == 4 && d.prefix <= 32 && (bits_of(d.data@) & route_mask(
            d.prefix,
        )) == (ip & route_mask(d.prefix)),
        None => false,
    }
}

/// The source address a route offers: its first hop's gateway when
/// that is set, otherwise its destination; and only when that address
/// is 4 bytes of IPv4.
pub open spec fn src_candidate(rt: Route) -> Option<u32> {
    let a = if rt.hops@.len() > 0 && rt.hops@[0].gateway is Some {
        rt.hops@[0].gateway
    } else {
        rt.dst
    };
    match a {
        Some(ad) => if ad.data@.len() == 4 {
            Some(bits_of(ad.data@))
        } else {
            None
        },
        None => None,
    }
}

/// The best source offer over a snapshot prefix: the offer of a
/// covering route with an offer, of greatest prefix length, earliest
/// among ties; as a pair of that prefix length and the offered bits.
pub open spec fn best_src(routes: Seq<Route>, ip: u32) -> Option<(u32, u32)>
    decreases routes.len(),
{
    if routes.len() == 0 {
        None
    } else {
        let prev = best_src(routes.drop_last(), ip);
        let rt = routes.last();
        if route_covers(rt, ip) && src_candidate(rt) is Some {
            match prev {
                None => Some((route_prefix(rt), src_candidate(rt)->Some_0)),
                Some(pv) => if route_prefix(rt) > pv.0 {
                    Some((route_prefix(rt), src_candidate(rt)->Some_0))
                } else {
                    prev
                },
            }
        } else {
            prev
        }
    }
}

/// Determines the source address to use in order to reach `ip`: the
/// offer of the covering route with the longest prefix (earliest in
/// the snapshot among equals), or nothing when no covering route
/// offers one.
pub fn get_srcip_for_dstip(routes: &Cache<Route>, ip: Ipv4) -> (r: Option<Ipv4>)
    ensures
        match best_src(routes@, ip.bits) {
            Some(pv) => r == Some((Ipv4 { bits: pv.1 })),
            None => r is None,
        },
{
    let n = routes.len();
    let mut i: usize = 0;
    let mut found = false;
    let mut best_plen: u32 = 0;
    let mut best_bits: u32 = 0;
    proof {
        assert(routes@.take(0) =~= Seq::<Route>::empty());
    }
    while i < n
        invariant
            i <= n,
            n == routes@.len(),
            match best_src(routes@.take(i as int), ip.bits) {
                Some(pv) => found && pv.0 == best_plen && pv.1 == best_bits,
                None => !found,
            },
        decreases n - i,
    {
        let rt = routes.get(i);
        let mut covers = false;
        let mut plen: u32 = 0;
        match rt.dst() {
            Some(d) => {
                plen = d.cidrlen();
                if d.len_is_four() && plen <= 32 {
                    let bits = d.ipv4_bits();
                    let mask = exec_route_mask(plen);
                    if (bits & mask) == (ip.bits & mask) {
                        covers = true;
                    }
                }
            },
            None => {},
        }
        proof {
            assert(covers == route_covers(routes@[i as int], ip.bits));
            assert(plen == route_prefix(routes@[i as int]) || !covers);
        }
        if covers {
            let cand = candidate_of(rt);
            match cand {
                Some(bits) => {
                    if !found || plen > best_plen {
                        found = true;
                        best_plen = plen;
                        best_bits = bits;
                    }
                },
                None => {},
            }
        }
        proof {
            assert(routes@.take(i + 1).drop_last() =~= routes@.take(i as int));
            assert(routes@.take(i + 1).last() == routes@[i as int]);
        }
        i = i + 1;
    }
    proof {
        assert(routes@.take(n as int) =~= routes@);
    }
    if found {
        Some(Ipv4 { bits: best_bits })
    } else {
        None
    }
}

/// The route's source offer, as `src_candidate` names it.
fn candidate_of(rt: &Route) -> (r: Option<u32>)
    ensures
        r == src_candidate(*rt),
{
    let a: Option<&crate::addr::Addr> = if rt.nexthop_len() > 0 {
        match rt.nexthop(0) {
            Some(h) => match h.gateway() {
                Some(g) => Some(g),
                None => rt.dst(),
            },
            None => rt.dst(),
        }
    } else {
        rt.dst()
    };
    match a {
        Some(ad) => {
            if ad.len_is_four() {
                Some(ad.ipv4_bits())
            } else {
                None
            }
        },
        None => None,
    }
}

/// The mask for a prefix length, matching `route_mask`.
fn exec_route_mask(plen: u32) -> (r: u32)
    requires
        plen <= 32,
    ensures
        r == route_mask(plen),
{
    if plen == 0 {
        0
    } else {
        ((0xFFFFFFFFu64 << ((32 - plen) as u64)) & 0xFFFFFFFF) as u32
    }
}

/// The index of the covering route with the greatest prefix length,
/// earliest among equals; -1 when no route covers `ip`.
pub open spec fn best_route_idx(routes: Seq<Route>, ip: u32) -> int
    decreases routes.len(),
{
    if routes.len() == 0 {
        -1
    } else {
        let prev = best_route_idx(routes.drop_last(), ip);
        let rt = routes.last();
        if route_covers(rt, ip) && (prev < 0 || route_prefix(rt) > route_prefix(routes[prev])) {
            routes.len() - 1
        } else {
            prev
        }
    }
}

proof fn lemma_best_route_idx_props(routes: Seq<Route>, ip: u32)
    ensures
        -1 <= best_route_idx(routes, ip) < routes.len(),
        best_route_idx(routes, ip) >= 0 ==> route_covers(routes[best_route_idx(routes, ip)], ip),
    decreases routes.len(),
{
    if routes.len() > 0 {
        lemma_best_route_idx_props(routes.drop_last(), ip);
        assert(forall|j: int|
            0 <= j < routes.len() - 1 ==> routes.drop_last()[j] == #[trigger] routes[j]);
    }
}

/// The index of the first link with the given kernel index, or -1.
pub open spec fn first_link_idx(links: Seq<Link>, ifx: i32) -> int
    decreases links.len(),
{
    if links.len() == 0 {
        -1
    } else if links[0].ifindex == ifx {
        0
    } else {
        let r = first_link_idx(links.drop_first(), ifx);
        if r < 0 {
            -1
        } else {
            r + 1
        }
    }
}

proof fn lemma_first_link_idx_prefix(links: Seq<Link>, ifx: i32, i: int)
    requires
        0 <= i <= links.len(),
        forall|j: int| 0 <= j < i ==> (#[trigger] links[j]).ifindex != ifx,
    ensures
        i == links.len() ==> first_link_idx(links, ifx) == -1,
        i < links.len() && links[i].ifindex == ifx ==> first_link_idx(links, ifx) == i,
    decreases links.len(),
{
    if links.len() > 0 && links[0].ifindex != ifx && i > 0 {
        assert(forall|j: int|
            0 <= j < i - 1 ==> (#[trigger] links.drop_first()[j]) == links[j + 1]);
        lemma_first_link_idx_prefix(links.drop_first(), ifx, i - 1);
    }
}

/// The index of the first neighbor entry scoped to the given link
/// index, or -1.
pub open spec fn first_neigh_idx(neighs: Seq<Neigh>, ifx: i32) -> int
    decreases neighs.len(),
{
    if neighs.len() == 0 {
        -1
    } else if neighs[0].ifindex == ifx {
        0
    } else {
        let r = first_neigh_idx(neighs.drop_first(), ifx);
        if r < 0 {
            -1
        } else {
            r + 1
        }
    }
}

proof fn lemma_first_neigh_idx_prefix(neighs: Seq<Neigh>, ifx: i32, i: int)
    requires
        0 <= i <= neighs.len(),
        forall|j: int| 0 <= j < i ==> (#[trigger] neighs[j]).ifindex != ifx,
    ensures
        i == neighs.len() ==> first_neigh_idx(neighs, ifx) == -1,
        i < neighs.len() && neighs[i].ifindex == ifx ==> first_neigh_idx(neighs, ifx) == i,
    decreases neighs.len(),
{
    if neighs.len() > 0 && neighs[0].ifindex != ifx && i > 0 {
        assert(forall|j: int|
            0 <= j < i - 1 ==> (#[trigger] neighs.drop_first()[j]) == neighs[j + 1]);
        lemma_first_neigh_idx_prefix(neighs.drop_first(), ifx, i - 1);
    }
}

/// The index of the first address object owned by the given link
/// index, or -1.
pub open spec fn first_addr_idx(addrs: Seq<RtAddr>, ifx: i32) -> int
    decreases addrs.len(),
{
    if addrs.len() == 0 {
        -1
    } else if addrs[0].ifindex == ifx {
        0
    } else {
        let r = first_addr_idx(addrs.drop_first(), ifx);
        if r < 0 {
            -1
        } else {
            r + 1
        }
    }
}

proof fn lemma_first_addr_idx_prefix(addrs: Seq<RtAddr>, ifx: i32, i: int)
    requires
        0 <= i <= addrs.len(),
        forall|j: int| 0 <= j < i ==> (#[trigger] addrs[j]).ifindex != ifx,
    ensures
        i == addrs.len() ==> first_addr_idx(addrs, ifx) == -1,
        i < addrs.len() && addrs[i].ifindex == ifx ==> first_addr_idx(addrs, ifx) == i,
    decreases addrs.len(),
{
    if addrs.len() > 0 && addrs[0].ifindex != ifx && i > 0 {
        assert(forall|j: int|
            0 <= j < i - 1 ==> (#[trigger] addrs.drop_first()[j]) == addrs[j + 1]);
        lemma_first_addr_idx_prefix(addrs.drop_first(), ifx, i - 1);
    }
}

/// A neighbor's 6-byte hardware address, or the broadcast address
/// `ff:ff:ff:ff:ff:ff` when no entry for the link exists or the entry
/// holds data of another length.
pub open spec fn neigh_mac_or_default(neighs: Seq<Neigh>, ifx: i32) -> Seq<u8> {
    let ni = first_neigh_idx(neighs, ifx);
    if ni >= 0 && neighs[ni].lladdr.data@.len() == 6 {
        neighs[ni].lladdr.data@
    } else {
        seq![255u8, 255u8, 255u8, 255u8, 255u8, 255u8]
    }
}

/// True when this route's destination block covers `ip`.
fn covers_exec(rt: &Route, ip: u32) -> (c: bool)
    ensures
        c == route_covers(*rt, ip),
{
    match rt.dst() {
        Some(d) => {
            let plen = d.cidrlen();
            if d.len_is_four() && plen <= 32 {
                let bits = d.ipv4_bits();
                let mask = exec_route_mask(plen);
                (bits & mask) == (ip & mask)
            } else {
                false
            }
        },
        None => false,
    }
}

/// The prefix length of this route's destination.
fn prefix_exec(rt: &Route) -> (p: u32)
    ensures
        p == route_prefix(*rt),
{
    match rt.dst() {
        Some(d) => d.cidrlen(),
        None => 0,
    }
}

/// The position of the longest-prefix covering route, earliest among
/// equals.
fn scan_best_route(routes: &Cache<Route>, ip: u32) -> (r: Option<usize>)
    ensures
        match r {
            Some(ri) => ri < routes@.len() && best_route_idx(routes@, ip) == ri as int,
            None => best_route_idx(routes@, ip) == -1,
        },
{
    let n = routes.len();
    let mut i: usize = 0;
    let mut have = false;
    let mut ri: usize = 0;
    let mut rplen: u32 = 0;
    proof {
        assert(routes@.take(0) =~= Seq::<Route>::empty());
    }
    while i < n
        invariant
            i <= n,
            n == routes@.len(),
            best_route_idx(routes@.take(i as int), ip) == (if have {
                ri as int
            } else {
                -1
            }),
            have ==> ri < i && rplen == route_prefix(routes@[ri as int]),
        decreases n - i,
    {
        let rt = routes.get(i);
        let covers = covers_exec(rt, ip);
        let plen = prefix_exec(rt);
        proof {
            assert(routes@.take(i + 1).drop_last() =~= routes@.take(i as int));
            assert(routes@.take(i + 1).last() == routes@[i as int]);
            assert(forall|j: int| 0 <= j < i ==> routes@.take(i + 1)[j] == #[trigger] routes@[j]);
        }
        if covers && (!have || plen > rplen) {
            have = true;
            ri = i;
            rplen = plen;
        }
        i = i + 1;
    }
    proof {
        assert(routes@.take(n as int) =~= routes@);
    }
    if have {
        Some(ri)
    } else {
        None
    }
}

/// The position of the first link with the given kernel index.
fn scan_link(links: &Cache<Link>, ifx: i32) -> (r: Option<usize>)
    ensures
        match r {
            Some(li) => li < links@.len() && first_link_idx(links@, ifx) == li as int,
            None => first_link_idx(links@, ifx) == -1,
        },
{
    let n = links.len();
    let mut i: usize = 0;
    while i < n
        invariant
            i <= n,
            n == links@.len(),
            forall|j: int| 0 <= j < i ==> (#[trigger] links@[j]).ifindex != ifx,
        decreases n - i,
    {
        if links.get(i).ifindex == ifx {
            proof {
                lemma_first_link_idx_prefix(links@, ifx, i as int);
            }
            return Some(i);
        }
        i = i + 1;
    }
    proof {
        lemma_first_link_idx_prefix(links@, ifx, n as int);
    }
    None
}

/// The position of the first neighbor entry scoped to the given link
/// index.
fn scan_neigh(neighs: &Cache<Neigh>, ifx: i32) -> (r: Option<usize>)
    ensures
        match r {
            Some(ni) => ni < neighs@.len() && first_neigh_idx(neighs@, ifx) == ni as int,
            None => first_neigh_idx(neighs@, ifx) == -1,
        },
{
    let n = neighs.len();
    let mut i: usize = 0;
    while i < n
        invariant
            i <= n,
            n == neighs@.len(),
            forall|j: int| 0 <= j < i ==> (#[trigger] neighs@[j]).ifindex != ifx,
        decreases n - i,
    {
        if neighs.get(i).ifindex == ifx {
            proof {
                lemma_first_neigh_idx_prefix(neighs@, ifx, i as int);
            }
            return Some(i);
        }
        i = i + 1;
    }
    proof {
        lemma_first_neigh_idx_prefix(neighs@, ifx, n as int);
    }
    None
}

/// The position of the first address object owned by the given link
/// index.
fn scan_addr(addrs: &Cache<RtAddr>, ifx: i32) -> (r: Option<usize>)
    ensures
        match r {
            Some(ai) => ai < addrs@.len() && first_addr_idx(addrs@, ifx) == ai as int,
            None => first_addr_idx(addrs@, ifx) == -1,
        },
{
    let n = addrs.len();
    let mut i: usize = 0;
    while i < n
        invariant
            i <= n,
            n == addrs@.len(),
            forall|j: int| 0 <= j < i ==> (#[trigger] addrs@[j]).ifindex != ifx,
        decreases n - i,
    {
        if addrs.get(i).ifindex == ifx {
            proof {
                lemma_first_addr_idx_prefix(addrs@, ifx, i as int);
            }
            return Some(i);
        }
        i = i + 1;
    }
    proof {
        lemma_first_addr_idx_prefix(addrs@, ifx, n as int);
    }
    None
}

/// What `get_macs_and_src_for_ip` reports for an address, over the
/// four snapshots: the chosen route is the longest-prefix covering
/// route; its first hop names the link; the link must exist and carry
/// a name, a 6-byte hardware address and an IPv4 source address; the
/// neighbor's address defaults to broadcast.
pub open spec fn macs_src_spec(
    addrs: Seq<RtAddr>,
    routes: Seq<Route>,
    neighs: Seq<Neigh>,
    links: Seq<Link>,
    ip: u32,
) -> Option<(Seq<u8>, i32, u32, Seq<u8>, Seq<u8>, u8)> {
    let ri = best_route_idx(routes, ip);
    if ri < 0 {
        None
    } else {
        let rt = routes[ri];
        if rt.hops@.len() == 0 {
            None
        } else {
            let link_ind = rt.hops@[0].ifindex;
            let li = first_link_idx(links, link_ind);
            if li < 0 {
                None
            } else {
                let link = links[li];
                let mac = neigh_mac_or_default(neighs, link.ifindex);
                let ai = first_addr_idx(addrs, link.ifindex);
                if ai < 0 {
                    None
                } else {
                    match addrs[ai].local {
                        Some(loc) => if loc.data@.len() == 4 {
                            match link.hwaddr {
                                Some(hw) => if hw.data@.len() == 6 {
                                    Some(
                                        (
                                            link.name@,
                                            link_ind,
                                            bits_of(loc.data@),
                                            hw.data@,
                                            mac,
                                            route_prefix(rt) as u8,
                                        ),
                                    )
                                } else {
                                    None
                                },
                                None => None,
                            }
                        } else {
                            None
                        },
                        None => None,
                    }
                }
            }
        }
    }
}

/// Copies a 6-byte address into an array.
fn six_bytes(data: &Vec<u8>) -> (r: [u8; 6])
    requires
        data@.len() == 6,
    ensures
        r@ == data@,
{
    let r: [u8; 6] = [data[0], data[1], data[2], data[3], data[4], data[5]];
    proof {
        assert(r@ =~= data@);
    }
    r
}

/// Determines everything needed to emit traffic toward `addr`: the
/// outbound link's name and kernel index, the host's source address
/// on that link, the link's own hardware address, the next hop's
/// hardware address (broadcast when unresolved), and the chosen
/// route's prefix length.
pub fn get_macs_and_src_for_ip(
    addrs: &Cache<RtAddr>,
    routes: &Cache<Route>,
    neighs: &Cache<Neigh>,
    links: &Cache<Link>,
    addr: Ipv4,
) -> (r: Option<(Vec<u8>, i32, Ipv4, [u8; 6], [u8; 6], u8)>)
    ensures
        match r {
            Some(t) => macs_src_spec(addrs@, routes@, neighs@, links@, addr.bits) matches Some(s)
                && t.0@ == s.0 && t.1 == s.1 && t.2.bits == s.2 && t.3@ == s.3 && t.4@ == s.4
                && t.5 == s.5,
            None => macs_src_spec(addrs@, routes@, neighs@, links@, addr.bits) is None,
        },
{
    let ri = match scan_best_route(routes, addr.bits) {
        Some(ri) => ri,
        None => {
            return None;
        },
    };
    proof {
        lemma_best_route_idx_props(routes@, addr.bits);
    }
    let rt = routes.get(ri);
    if rt.nexthop_len() == 0 {
        return None;
    }
    let link_ind = match rt.nexthop(0) {
        Some(h) => h.ifindex(),
        None => {
            proof {
                assert(false);
            }
            return None;
        },
    };
    let li = match scan_link(links, link_ind) {
        Some(li) => li,
        None => {
            return None;
        },
    };
    let link = links.get(li);
    let mac: [u8; 6] = match scan_neigh(neighs, link.ifindex) {
        Some(ni) => {
            let ne = neighs.get(ni);
            if ne.lladdr.data.len() == 6 {
                six_bytes(&ne.lladdr.data)
            } else {
                let d: [u8; 6] = [255, 255, 255, 255, 255, 255];
                proof {
                    assert(d@ =~= seq![255u8, 255u8, 255u8, 255u8, 255u8, 255u8]);
                }
                d
            }
        },
        None => {
            let d: [u8; 6] = [255, 255, 255, 255, 255, 255];
            proof {
                assert(d@ =~= seq![255u8, 255u8, 255u8, 255u8, 255u8, 255u8]);
            }
            d
        },
    };
    proof {
        assert(mac@ == neigh_mac_or_default(neighs@, link.ifindex));
    }
    let ai = match scan_addr(addrs, link.ifindex) {
        Some(ai) => ai,
        None => {
            return None;
        },
    };
    let loc = match addrs.get(ai).local() {
        Some(loc) => loc,
        None => {
            return None;
        },
    };
    if !loc.len_is_four() {
        return None;
    }
    let src_bits = loc.ipv4_bits();
    let hw = match link.addr() {
        Some(hw) => hw,
        None => {
            return None;
        },
    };
    if hw.data.len() != 6 {
        return None;
    }
    let hw_arr = six_bytes(&hw.data);
    let name = crate::text::copy_bytes(link.name().as_slice());
    let cidr = prefix_exec(rt);
    proof {
        assert(route_covers(routes@[ri as int], addr.bits));
        assert(route_prefix(routes@[ri as int]) <= 32);
    }
    Some((name, link_ind, Ipv4 { bits: src_bits }, hw_arr, mac, cidr as u8))
}

} // verus!

verus! {

/// True when some neighbor entry resolves `a` on link `l` with a
/// 6-byte hardware address.
pub open spec fn link_neigh_hit(neighs: Seq<Neigh>, l: Link, a: Addr) -> bool {
    exists|i: int|
        0 <= i < neighs.len() && neigh_matches(#[trigger] neighs[i], l.ifindex, a)
            && neighs[i].lladdr.data@.len() == 6
}

/// The index of the first link with a usable neighbor entry for `a`,
/// or -1.
pub open spec fn first_hit_link_idx(links: Seq<Link>, neighs: Seq<Neigh>, a: Addr) -> int
    decreases links.len(),
{
    if links.len() == 0 {
        -1
    } else if link_neigh_hit(neighs, links[0], a) {
        0
    } else {
        let r = first_hit_link_idx(links.drop_first(), neighs, a);
        if r < 0 {
            -1
        } else {
            r + 1
        }
    }
}

proof fn lemma_first_hit_link_idx_prefix(links: Seq<Link>, neighs: Seq<Neigh>, a: Addr, i: int)
    requires
        0 <= i <= links.len(),
        forall|j: int| 0 <= j < i ==> !link_neigh_hit(neighs, #[trigger] links[j], a),
    ensures
        i == links.len() ==> first_hit_link_idx(links, neighs, a) == -1,
        i < links.len() && link_neigh_hit(neighs, links[i], a) ==> first_hit_link_idx(
            links,
            neighs,
            a,
        ) == i,
    decreases links.len(),
{
    if links.len() > 0 && !link_neigh_hit(neighs, links[0], a) && i > 0 {
        assert(forall|j: int|
            0 <= j < i - 1 ==> (#[trigger] links.drop_first()[j]) == links[j + 1]);
        lemma_first_hit_link_idx_prefix(links.drop_first(), neighs, a, i - 1);
    }
}

/// The index of the first default route of the snapshot, or -1.
pub open spec fn first_default_idx(routes: Seq<Route>) -> int
    decreases routes.len(),
{
    if routes.len() == 0 {
        -1
    } else if is_default(routes[0]) {
        0
    } else {
        let r = first_default_idx(routes.drop_first());
        if r < 0 {
            -1
        } else {
            r + 1
        }
    }
}

proof fn lemma_first_default_idx_prefix(routes: Seq<Route>, i: int)
    requires
        0 <= i <= routes.len(),
        forall|j: int| 0 <= j < i ==> !is_default(#[trigger] routes[j]),
    ensures
        i == routes.len() ==> first_default_idx(routes) == -1,
        i < routes.len() && is_default(routes[i]) ==> first_default_idx(routes) == i,
    decreases routes.len(),
{
    if routes.len() > 0 && !is_default(routes[0]) && i > 0 {
        assert(forall|j: int|
            0 <= j < i - 1 ==> (#[trigger] routes.drop_first()[j]) == routes[j + 1]);
        lemma_first_default_idx_prefix(routes.drop_first(), i - 1);
    }
}

/// True when a neighbor entry can stand in for the default route's
/// gateway: a known link owns it, it sits on the default route's
/// first-hop link, and that hop carries an IPv4 gateway.
pub open spec fn fallback_hit(n: Neigh, links: Seq<Link>, dr: Route) -> bool {
    first_link_idx(links, n.ifindex) >= 0 && dr.hops@.len() > 0 && n.ifindex
        == dr.hops@[0].ifindex && (match dr.hops@[0].gateway {
        Some(g) => g.data@.len() == 4,
        None => false,
    })
}

/// The index of the first such neighbor entry, or -1.
pub open spec fn first_fallback_idx(neighs: Seq<Neigh>, links: Seq<Link>, dr: Route) -> int
    decreases neighs.len(),
{
    if neighs.len() == 0 {
        -1
    } else if fallback_hit(neighs[0], links, dr) {
        0
    } else {
        let r = first_fallback_idx(neighs.drop_first(), links, dr);
        if r < 0 {
            -1
        } else {
            r + 1
        }
    }
}

proof fn lemma_first_fallback_idx_prefix(neighs: Seq<Neigh>, links: Seq<Link>, dr: Route, i: int)
    requires
        0 <= i <= neighs.len(),
        forall|j: int| 0 <= j < i ==> !fallback_hit(#[trigger] neighs[j], links, dr),
    ensures
        i == neighs.len() ==> first_fallback_idx(neighs, links, dr) == -1,
        i < neighs.len() && fallback_hit(neighs[i], links, dr) ==> first_fallback_idx(
            neighs,
            links,
            dr,
        ) == i,
    decreases neighs.len(),
{
    if neighs.len() > 0 && !fallback_hit(neighs[0], links, dr) && i > 0 {
        assert(forall|j: int|
            0 <= j < i - 1 ==> (#[trigger] neighs.drop_first()[j]) == neighs[j + 1]);
        lemma_first_fallback_idx_prefix(neighs.drop_first(), links, dr, i - 1);
    }
}

/// The position of the first default route.
fn scan_default(routes: &Cache<Route>) -> (r: Option<usize>)
    ensures
        match r {
            Some(di) => di < routes@.len() && first_default_idx(routes@) == di as int,
            None => first_default_idx(routes@) == -1,
        },
{
    let n = routes.len();
    let mut i: usize = 0;
    while i < n
        invariant
            i <= n,
            n == routes@.len(),
            forall|j: int| 0 <= j < i ==> !is_default(#[trigger] routes@[j]),
        decreases n - i,
    {
        let rt = routes.get(i);
        let mut hit = false;
        match rt.dst() {
            Some(d) => {
                if d.cidrlen() == 0 {
                    hit = true;
                }
            },
            None => {},
        }
        if hit {
            proof {
                lemma_first_default_idx_prefix(routes@, i as int);
            }
            return Some(i);
        }
        i = i + 1;
    }
    proof {
        lemma_first_default_idx_prefix(routes@, n as int);
    }
    None
}

/// Gets the neighbor record to use for `addr`: the first link that
/// resolves it directly, or failing that, the default route's gateway
/// with its resolving neighbor entry.
pub fn get_neigh_for_addr<'a>(
    routes: &Cache<Route>,
    neighs: &Cache<Neigh>,
    links: &'a Cache<Link>,
    addr: &Addr,
) -> (r: Option<(Ipv4, &'a Link, [u8; 6])>)
    ensures
        ({
            let hl = first_hit_link_idx(links@, neighs@, *addr);
            let di = first_default_idx(routes@);
            &&& (hl >= 0 ==> (match r {
                Some(t) => addr.data@.len() == 4 && t.0.bits == bits_of(addr.data@) && *t.1
                    == links@[hl] && (exists|i: int|
                    0 <= i < neighs@.len() && neigh_matches(
                        #[trigger] neighs@[i],
                        links@[hl].ifindex,
                        *addr,
                    ) && t.2@ == neighs@[i].lladdr.data@),
                None => addr.data@.len() != 4,
            }))
            &&& (hl < 0 && di < 0 ==> r is None)
            &&& (hl < 0 && di >= 0 ==> ({
                let dr = routes@[di];
                let ni = first_fallback_idx(neighs@, links@, dr);
                if ni < 0 {
                    r is None
                } else {
                    let n = neighs@[ni];
                    if n.lladdr.data@.len() == 6 {
                        match r {
                            Some(t) => t.0.bits == bits_of(dr.hops@[0].gateway->Some_0.data@)
                                && *t.1 == links@[first_link_idx(links@, n.ifindex)] && t.2@
                                == n.lladdr.data@,
                            None => false,
                        }
                    } else {
                        r is None
                    }
                }
            }))
        }),
{
    let nl = links.len();
    let mut i: usize = 0;
    while i < nl
        invariant
            i <= nl,
            nl == links@.len(),
            forall|j: int| 0 <= j < i ==> !link_neigh_hit(neighs@, #[trigger] links@[j], *addr),
        decreases nl - i,
    {
        let l = links.get(i);
        match l.get_neigh(neighs, addr) {
            Some(mac) => {
                proof {
                    assert(link_neigh_hit(neighs@, links@[i as int], *addr));
                    lemma_first_hit_link_idx_prefix(links@, neighs@, *addr, i as int);
                }
                match addr.to_ipv4() {
                    Ok(ip) => {
                        return Some((ip, l, mac));
                    },
                    Err(_) => {
                        return None;
                    },
                }
            },
            None => {
                proof {
                    assert(!link_neigh_hit(neighs@, links@[i as int], *addr));
                }
            },
        }
        i = i + 1;
    }
    proof {
        lemma_first_hit_link_idx_prefix(links@, neighs@, *addr, nl as int);
    }
    let di = match scan_default(routes) {
        Some(di) => di,
        None => {
            return None;
        },
    };
    let dr = routes.get(di);
    let nn = neighs.len();
    let mut k: usize = 0;
    while k < nn
        invariant
            k <= nn,
            nn == neighs@.len(),
            *dr == routes@[di as int],
            di < routes@.len(),
            first_default_idx(routes@) == di as int,
            first_hit_link_idx(links@, neighs@, *addr) == -1,
            forall|j: int| 0 <= j < k ==> !fallback_hit(#[trigger] neighs@[j], links@, *dr),
        decreases nn - k,
    {
        let n = neighs.get(k);
        let li_opt = scan_link(links, n.ifindex);
        let mut hit = false;
        let mut gbits: u32 = 0;
        match li_opt {
            Some(_) => {
                if dr.nexthop_len() > 0 {
                    match dr.nexthop(0) {
                        Some(h) => {
                            if n.ifindex == h.ifindex() {
                                match h.gateway() {
                                    Some(g) => {
                                        if g.len_is_four() {
                                            hit = true;
                                            gbits = g.ipv4_bits();
                                        }
                                    },
                                    None => {},
                                }
                            }
                        },
                        None => {},
                    }
                }
            },
            None => {},
        }
        proof {
            assert(hit == fallback_hit(neighs@[k as int], links@, *dr));
        }
        if hit {
            proof {
                lemma_first_fallback_idx_prefix(neighs@, links@, *dr, k as int);
            }
            if n.lladdr.data.len() == 6 {
                let mac = six_bytes(&n.lladdr.data);
                match li_opt {
                    Some(li) => {
                        let ll = links.get(li);
                        return Some((Ipv4 { bits: gbits }, ll, mac));
                    },
                    None => {
                        proof {
                            assert(false);
                        }
                        return None;
                    },
                }
            } else {
                return None;
            }
        }
        k = k + 1;
    }
    proof {
        lemma_first_fallback_idx_prefix(neighs@, links@, *dr, nn as int);
    }
    None
}

} // verus!
