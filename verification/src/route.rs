//! The kernel route object model: links, neighbor entries, routes and
//! next-hops, with the lookup helpers the orchestrator uses.

use vstd::prelude::*;

use crate::addr::Addr;
use crate::cache::Cache;
use crate::text::bytes_eq;

verus! {

/// The administrative-up bit of a link's flag set.
pub const IFF_UP: u32 = 1;

/// A network interface: its stable kernel index, name, hardware address,
/// MTU, type tag, flag bitset, and the pending namespace assignment of a
/// change request. Two links created as a veth pair point at each other
/// by index, not by ownership.
pub struct Link {
    pub ifindex: i32,
    pub name: Vec<u8>,
    pub flags: u32,
    pub mtu: u32,
    pub hwaddr: Option<Addr>,
    pub ltype: Option<Vec<u8>>,
    pub ns_pid: Option<i32>,
    pub ns_fd: Option<i32>,
    pub peer_ifindex: Option<i32>,
}

impl Link {
    /// A fresh, empty link object, to be filled by the setters and used
    /// either as a creation request or as a change set.
    pub fn new() -> (r: Link)
        ensures
            r.ifindex == 0,
            r.name@ == Seq::<u8>::empty(),
            r.flags == 0,
            r.mtu == 0,
            r.hwaddr is None,
            r.ltype is None,
            r.ns_pid is None,
            r.ns_fd is None,
            r.peer_ifindex is None,
    {
        Link {
            ifindex: 0,
            name: Vec::new(),
            flags: 0,
            mtu: 0,
            hwaddr: None,
            ltype: None,
            ns_pid: None,
            ns_fd: None,
            peer_ifindex: None,
        }
    }

    /// A fresh virtual-ethernet pair request: the two ends of a
    /// point-to-point link, to be named and submitted together. The
    /// pair relation of the request lives in the returned tuple; the
    /// kernel assigns both indices on creation, and a link snapshot
    /// fetched afterwards carries the relation as each end's
    /// `peer_ifindex` (a weak reference by index, not ownership), so
    /// the request itself names no peer index yet.
    pub fn new_veth() -> (r: (Link, Link))
        ensures
            r.0.ltype matches Some(t) && t@ == veth_type_text(),
            r.1.ltype matches Some(t) && t@ == veth_type_text(),
            r.0.name@ == Seq::<u8>::empty(),
            r.1.name@ == Seq::<u8>::empty(),
            r.0.ifindex == 0,
            r.1.ifindex == 0,
            r.0.peer_ifindex is None,
            r.1.peer_ifindex is None,
    {
        let mut host = Link::new();
        let mut peer = Link::new();
        host.ltype = Some(veth_type_vec());
        peer.ltype = Some(veth_type_vec());
        (host, peer)
    }

    /// The link's name, e.g. `eth0`.
    pub fn name(&self) -> (r: &Vec<u8>)
        ensures
            r@ == self.name@,
    {
        &self.name
    }

    /// The link's hardware address, when the kernel reported one.
    pub fn addr(&self) -> (r: Option<&Addr>)
        ensures
            match r {
                Some(a) => self.hwaddr == Some(*a),
                None => self.hwaddr is None,
            },
    {
        self.hwaddr.as_ref()
    }

    /// The link's maximum transmission unit.
    pub fn mtu(&self) -> (r: u32)
        ensures
            r == self.mtu,
    {
        self.mtu
    }

    /// The link's type tag, e.g. `veth`, when the kernel reported one.
    pub fn ltype(&self) -> (r: Option<&Vec<u8>>)
        ensures
            match r {
                Some(t) => self.ltype == Some(*t),
                None => self.ltype is None,
            },
    {
        self.ltype.as_ref()
    }

    /// The link's stable kernel index.
    pub fn ifindex(&self) -> (r: i32)
        ensures
            r == self.ifindex,
    {
        self.ifindex
    }

    /// The veth peer's kernel index, when this link is one end of a pair.
    pub fn get_peer(&self) -> (r: Option<i32>)
        ensures
            r == self.peer_ifindex,
    {
        self.peer_ifindex
    }

    /// The link's flag bitset.
    pub fn get_flags(&self) -> (r: u32)
        ensures
            r == self.flags,
    {
        self.flags
    }

    /// Turns the given flags on.
    pub fn set_flags(&mut self, flags: u32)
        ensures
            final(self).flags == old(self).flags | flags,
            *final(self) == (Link { flags: final(self).flags, ..*old(self) }),
    {
        self.flags = self.flags | flags;
    }

    /// Turns the given flags off.
    pub fn unset_flags(&mut self, flags: u32)
        ensures
            final(self).flags == old(self).flags & !flags,
            *final(self) == (Link { flags: final(self).flags, ..*old(self) }),
    {
        self.flags = self.flags & !flags;
    }

    /// Renames the interface. The kernel caps names at 15 bytes.
    pub fn set_name(&mut self, name: Vec<u8>)
        requires
            name@.len() <= 15,
        ensures
            final(self).name@ == name@,
            *final(self) == (Link { name: final(self).name, ..*old(self) }),
    {
        self.name = name;
    }

    /// Requests a move of the interface into the namespace of the process
    /// with the given pid.
    pub fn set_ns_pid(&mut self, pid: i32)
        ensures
            final(self).ns_pid == Some(pid),
            *final(self) == (Link { ns_pid: final(self).ns_pid, ..*old(self) }),
    {
        self.ns_pid = Some(pid);
    }

    /// Requests a move of the interface into the namespace named by an
    /// open file descriptor.
    pub fn set_ns_fd(&mut self, fd: i32)
        ensures
            final(self).ns_fd == Some(fd),
            *final(self) == (Link { ns_fd: final(self).ns_fd, ..*old(self) }),
    {
        self.ns_fd = Some(fd);
    }

    /// Looks this link's neighbor entry for `addr` up, and returns the
    /// neighbor's 6-byte hardware address when the entry holds one.
    pub fn get_neigh(&self, neigh_table: &Cache<Neigh>, addr: &Addr) -> (r: Option<[u8; 6]>)
        ensures
            match r {
                Some(mac) => exists|i: int|
                    0 <= i < neigh_table@.len() && #[trigger] neigh_matches(
                        neigh_table@[i],
                        self.ifindex,
                        *addr,
                    ) && neigh_table@[i].lladdr.data@ == mac@,
                None => forall|i: int|
                    0 <= i < neigh_table@.len() ==> !(#[trigger] neigh_matches(
                        neigh_table@[i],
                        self.ifindex,
                        *addr,
                    )) || neigh_table@[i].lladdr.data@.len() != 6,
            },
    {
        let n = neigh_table.len();
        let mut i: usize = 0;
        while i < n
            invariant
                n == neigh_table@.len(),
                i <= n,
                forall|j: int|
                    0 <= j < i ==> !(#[trigger] neigh_matches(
                        neigh_table@[j],
                        self.ifindex,
                        *addr,
                    )) || neigh_table@[j].lladdr.data@.len() != 6,
            decreases n - i,
        {
            let ne = neigh_table.get(i);
            if ne.ifindex == self.ifindex && ne.dst.family == addr.family && bytes_eq(
                ne.dst.data.as_slice(),
                addr.data.as_slice(),
            ) {
                if ne.lladdr.data.len() == 6 {
                    let mac: [u8; 6] = [
                        ne.lladdr.data[0],
                        ne.lladdr.data[1],
                        ne.lladdr.data[2],
                        ne.lladdr.data[3],
                        ne.lladdr.data[4],
                        ne.lladdr.data[5],
                    ];
                    proof {
                        assert(mac@ =~= neigh_table@[i as int].lladdr.data@);
                        assert(neigh_matches(neigh_table@[i as int], self.ifindex, *addr));
                    }
                    return Some(mac);
                }
            }
            i = i + 1;
        }
        None
    }
}

/// The type tag of a virtual-ethernet link: `veth`.
pub open spec fn veth_type_text() -> Seq<u8> {
    seq![118u8, 101u8, 116u8, 104u8]
}

/// Builds the `veth` type tag.
fn veth_type_vec() -> (r: Vec<u8>)
    ensures
        r@ == veth_type_text(),
{
    let mut v: Vec<u8> = Vec::new();
    v.push(118);
    v.push(101);
    v.push(116);
    v.push(104);
    proof {
        assert(v@ =~= veth_type_text());
    }
    v
}

/// True when the neighbor entry belongs to link `ifx` and resolves the
/// destination address `a` (same family, same raw bytes).
pub open spec fn neigh_matches(n: Neigh, ifx: i32, a: Addr) -> bool {
    n.ifindex == ifx && n.dst.family == a.family && n.dst.data@ == a.data@
}

/// An ARP/resolution cache entry: a destination address is reachable at
/// a hardware address through the link with the given index.
pub struct Neigh {
    pub dst: Addr,
    pub lladdr: Addr,
    pub ifindex: i32,
}

impl Neigh {
    /// The destination address this entry resolves.
    pub fn dst(&self) -> (r: &Addr)
        ensures
            *r == self.dst,
    {
        &self.dst
    }

    /// The hardware address the destination resolves to.
    pub fn lladdr(&self) -> (r: &Addr)
        ensures
            *r == self.lladdr,
    {
        &self.lladdr
    }

    /// The index of the link the entry is scoped to.
    pub fn ifindex(&self) -> (r: i32)
        ensures
            r == self.ifindex,
    {
        self.ifindex
    }
}

/// One hop of a route: an optional gateway address and the index of the
/// link the hop leaves through.
pub struct Nexthop {
    pub gateway: Option<Addr>,
    pub ifindex: i32,
}

impl Nexthop {
    /// A fresh, empty hop to be filled by the setters.
    pub fn new() -> (r: Nexthop)
        ensures
            r.gateway is None,
            r.ifindex == 0,
    {
        Nexthop { gateway: None, ifindex: 0 }
    }

    /// The gateway used for this hop, when one is set.
    pub fn gateway(&self) -> (r: Option<&Addr>)
        ensures
            match r {
                Some(a) => self.gateway == Some(*a),
                None => self.gateway is None,
            },
    {
        self.gateway.as_ref()
    }

    /// The index of the link this hop leaves through.
    pub fn ifindex(&self) -> (r: i32)
        ensures
            r == self.ifindex,
    {
        self.ifindex
    }

    /// Sets the gateway address.
    pub fn set_gateway(&mut self, a: Addr)
        ensures
            final(self).gateway == Some(a),
            final(self).ifindex == old(self).ifindex,
    {
        self.gateway = Some(a);
    }

    /// Sets the owning link's index.
    pub fn set_ifindex(&mut self, i: i32)
        ensures
            final(self).ifindex == i,
            final(self).gateway == old(self).gateway,
    {
        self.ifindex = i;
    }
}

/// A route: a destination prefix (none for an incomplete request; prefix
/// length 0 names the default route), an optional preferred source, and
/// the hops traffic takes.
pub struct Route {
    pub dst: Option<Addr>,
    pub src: Option<Addr>,
    pub hops: Vec<Nexthop>,
}

impl Route {
    /// A fresh, empty route to be filled before submission.
    pub fn new() -> (r: Route)
        ensures
            r.dst is None,
            r.src is None,
            r.hops@ == Seq::<Nexthop>::empty(),
    {
        Route { dst: None, src: None, hops: Vec::new() }
    }

    /// The route's source address, when one is set.
    pub fn src(&self) -> (r: Option<&Addr>)
        ensures
            match r {
                Some(a) => self.src == Some(*a),
                None => self.src is None,
            },
    {
        self.src.as_ref()
    }

    /// The route's destination prefix, when one is set.
    pub fn dst(&self) -> (r: Option<&Addr>)
        ensures
            match r {
                Some(a) => self.dst == Some(*a),
                None => self.dst is None,
            },
    {
        self.dst.as_ref()
    }

    /// Sets the destination prefix.
    pub fn set_dst(&mut self, a: Addr)
        ensures
            final(self).dst == Some(a),
            final(self).src == old(self).src,
            final(self).hops@ == old(self).hops@,
    {
        self.dst = Some(a);
    }

    /// Appends a hop to the route.
    pub fn add_nexthop(&mut self, hop: Nexthop)
        ensures
            final(self).hops@ == old(self).hops@.push(hop),
            final(self).dst == old(self).dst,
            final(self).src == old(self).src,
    {
        self.hops.push(hop);
    }

    /// How many hops the route has.
    pub fn nexthop_len(&self) -> (r: usize)
        ensures
            r == self.hops@.len(),
    {
        self.hops.len()
    }

    /// The hop at position `ind`, when there is one.
    pub fn nexthop(&self, ind: usize) -> (r: Option<&Nexthop>)
        ensures
            match r {
                Some(h) => ind < self.hops@.len() && *h == self.hops@[ind as int],
                None => ind >= self.hops@.len(),
            },
    {
        if ind < self.hops.len() {
            Some(&self.hops[ind])
        } else {
            None
        }
    }

    /// A cursor over the route's hops.
    pub fn hop_iter(&self) -> (r: NexthopIter<'_>)
        ensures
            r.route == self,
            r.index == 0,
    {
        NexthopIter { route: self, index: 0 }
    }
}

/// A cursor over a route's hops: the hops before `index` have been handed
/// out already.
pub struct NexthopIter<'a> {
    pub route: &'a Route,
    pub index: usize,
}

impl<'a> NexthopIter<'a> {
    /// Hands out the next hop, or nothing when they are exhausted.
    pub fn next(&mut self) -> (r: Option<&'a Nexthop>)
        ensures
            final(self).route == old(self).route,
            old(self).index < old(self).route.hops@.len() ==> final(self).index == old(self).index
                + 1 && (match r {
                Some(h) => *h == old(self).route.hops@[old(self).index as int],
                None => false,
            }),
            old(self).index >= old(self).route.hops@.len() ==> final(self).index == old(
                self,
            ).index && r is None,
    {
        if self.index < self.route.hops.len() {
            let h = &self.route.hops[self.index];
            self.index = self.index + 1;
            Some(h)
        } else {
            None
        }
    }

    /// How many hops the underlying route holds in all.
    pub fn size_hint(&self) -> (r: usize)
        ensures
            r == self.route.hops@.len(),
    {
        self.route.hops.len()
    }
}

/// True when the route names the default route: a destination is present
/// and its prefix length is 0.
pub open spec fn is_default(r: Route) -> bool {
    match r.dst {
        Some(a) => a.prefix == 0,
        None => false,
    }
}

/// Returns the first default route of the snapshot, when there is one.
pub fn get_default_route(routes: &Cache<Route>) -> (r: Option<&Route>)
    ensures
        match r {
            Some(rt) => exists|i: int|
                0 <= i < routes@.len() && *rt == routes@[i] && #[trigger] is_default(routes@[i])
                    && (forall|j: int| 0 <= j < i ==> !is_default(routes@[j])),
            None => forall|i: int| 0 <= i < routes@.len() ==> !(#[trigger] is_default(routes@[i])),
        },
{
    let n = routes.len();
    let mut i: usize = 0;
    while i < n
        invariant
            n == routes@.len(),
            i <= n,
            forall|j: int| 0 <= j < i ==> !(#[trigger] is_default(routes@[j])),
        decreases n - i,
    {
        let rt = routes.get(i);
        match rt.dst() {
            Some(a) => {
                if a.cidrlen() == 0 {
                    proof {
                        assert(is_default(routes@[i as int]));
                    }
                    return Some(rt);
                }
            },
            None => {},
        }
        i = i + 1;
    }
    None
}

/// Returns the first link of the snapshot with the given kernel index.
/// Absence is not an error: an index can go stale between snapshot and
/// lookup.
pub fn get_link_by_index<'a>(cache: &'a Cache<Link>, index: i32) -> (r: Option<&'a Link>)
    ensures
        match r {
            Some(l) => exists|i: int|
                0 <= i < cache@.len() && *l == cache@[i] && #[trigger] cache@[i].ifindex == index
                    && (forall|j: int| 0 <= j < i ==> cache@[j].ifindex != index),
            None => forall|i: int| 0 <= i < cache@.len() ==> #[trigger] cache@[i].ifindex != index,
        },
{
    let n = cache.len();
    let mut i: usize = 0;
    while i < n
        invariant
            n == cache@.len(),
            i <= n,
            forall|j: int| 0 <= j < i ==> #[trigger] cache@[j].ifindex != index,
        decreases n - i,
    {
        let l = cache.get(i);
        if l.ifindex == index {
            return Some(l);
        }
        i = i + 1;
    }
    None
}

/// Resolves a link's veth peer within a snapshot: the first link
/// carrying the peer index this link names. Nothing for a link that
/// is not one end of a pair, and nothing when the peer index has gone
/// stale between snapshot and lookup.
pub fn find_peer<'a>(cache: &'a Cache<Link>, l: &Link) -> (r: Option<&'a Link>)
    ensures
        match l.peer_ifindex {
            None => r is None,
            Some(ix) => match r {
                Some(p) => exists|i: int|
                    0 <= i < cache@.len() && *p == cache@[i] && #[trigger] cache@[i].ifindex == ix
                        && (forall|j: int| 0 <= j < i ==> cache@[j].ifindex != ix),
                None => forall|i: int| 0 <= i < cache@.len() ==> #[trigger] cache@[i].ifindex != ix,
            },
        },
{
    match l.get_peer() {
        Some(ix) => get_link_by_index(cache, ix),
        None => None,
    }
}

/// Returns the first link of the snapshot carrying the given name.
pub fn find_link_by_name<'a>(cache: &'a Cache<Link>, name: &[u8]) -> (r: Option<&'a Link>)
    ensures
        match r {
            Some(l) => exists|i: int|
                0 <= i < cache@.len() && *l == cache@[i] && #[trigger] cache@[i].name@ == name@ && (
                forall|j: int| 0 <= j < i ==> cache@[j].name@ != name@),
            None => forall|i: int| 0 <= i < cache@.len() ==> #[trigger] cache@[i].name@ != name@,
        },
{
    let n = cache.len();
    let mut i: usize = 0;
    while i < n
        invariant
            n == cache@.len(),
            i <= n,
            forall|j: int| 0 <= j < i ==> #[trigger] cache@[j].name@ != name@,
        decreases n - i,
    {
        let l = cache.get(i);
        if bytes_eq(l.name.as_slice(), name) {
            return Some(l);
        }
        i = i + 1;
    }
    None
}

} // verus!
