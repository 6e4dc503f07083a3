use download_shell::addr::{Addr, Ipv4, RtAddr, FAMILY_INET, FAMILY_LLC};
use download_shell::cache::Cache;
use download_shell::lookup::{get_macs_and_src_for_ip, get_neigh_for_addr, get_srcip_for_dstip};
use download_shell::route::{
    find_link_by_name, find_peer, get_default_route, get_link_by_index, Link, Neigh, Nexthop,
    Route, IFF_UP,
};

fn v4(a: u8, b: u8, c: u8, d: u8, prefix: u32) -> Addr {
    Addr {
        family: FAMILY_INET,
        data: vec![a, b, c, d],
        prefix,
    }
}

fn mac(bytes: [u8; 6]) -> Addr {
    Addr {
        family: FAMILY_LLC,
        data: bytes.to_vec(),
        prefix: 0,
    }
}

fn link(ifindex: i32, name: &[u8]) -> Link {
    let mut l = Link::new();
    l.ifindex = ifindex;
    l.set_name(name.to_vec());
    l
}

#[test]
fn default_route_is_the_first_with_prefix_zero() {
    let routes = Cache::new(vec![
        Route {
            dst: Some(v4(10, 0, 0, 0, 8)),
            src: None,
            hops: Vec::new(),
        },
        Route {
            dst: Some(v4(0, 0, 0, 0, 0)),
            src: None,
            hops: vec![Nexthop {
                gateway: Some(v4(10, 0, 0, 1, 32)),
                ifindex: 3,
            }],
        },
    ]);
    let d = get_default_route(&routes).expect("a default route exists");
    assert_eq!(d.hop_iter().size_hint(), 1);
    let mut hops = d.hop_iter();
    let h = hops.next().expect("the default route has a hop");
    assert_eq!(h.ifindex(), 3);
    assert!(hops.next().is_none());
}

#[test]
fn no_default_route_in_an_empty_table() {
    let routes: Cache<Route> = Cache::new(Vec::new());
    assert!(get_default_route(&routes).is_none());
}

#[test]
fn link_lookup_by_index_and_name() {
    let links = Cache::new(vec![link(1, b"lo"), link(2, b"eth0"), link(7, b"dlsh42.0")]);
    assert_eq!(get_link_by_index(&links, 2).unwrap().name(), &b"eth0".to_vec());
    assert!(get_link_by_index(&links, 9).is_none());
    assert_eq!(find_link_by_name(&links, b"lo").unwrap().ifindex(), 1);
    assert!(find_link_by_name(&links, b"eth1").is_none());
}

#[test]
fn cache_cursor_walks_every_item_once() {
    let links = Cache::new(vec![link(1, b"lo"), link(2, b"eth0")]);
    let mut it = links.iter();
    assert_eq!(it.size_hint(), 2);
    assert_eq!(it.next().unwrap().ifindex(), 1);
    assert_eq!(it.next().unwrap().ifindex(), 2);
    assert!(it.next().is_none());
    assert!(it.next().is_none());
}

#[test]
fn veth_peers_resolve_each_other_by_index() {
    let mut host = link(7, b"dlsh42.0");
    host.peer_ifindex = Some(8);
    let mut peer = link(8, b"dlsh42.1");
    peer.peer_ifindex = Some(7);
    let plain = link(2, b"eth0");
    let links = Cache::new(vec![plain, host, peer]);
    let h = find_link_by_name(&links, b"dlsh42.0").unwrap();
    let p = find_peer(&links, h).expect("the host end names its peer");
    assert_eq!(p.ifindex(), 8);
    assert_eq!(p.name(), &b"dlsh42.1".to_vec());
    let back = find_peer(&links, p).expect("the peer end names the host");
    assert_eq!(back.ifindex(), 7);
    // a link outside any pair has no peer
    let e = find_link_by_name(&links, b"eth0").unwrap();
    assert!(find_peer(&links, e).is_none());
    // the request objects of a fresh pair carry no index yet
    let (a, b) = Link::new_veth();
    assert_eq!(a.get_peer(), None);
    assert_eq!(b.get_peer(), None);
    assert_eq!(a.ltype().unwrap(), &b"veth".to_vec());
}

#[test]
fn flag_operations_set_and_clear_bits() {
    let mut l = Link::new();
    l.set_flags(IFF_UP);
    assert_eq!(l.get_flags(), 1);
    l.set_flags(8);
    assert_eq!(l.get_flags(), 9);
    l.unset_flags(IFF_UP);
    assert_eq!(l.get_flags(), 8);
}

#[test]
fn link_change_requests_carry_namespace_moves() {
    let mut l = Link::new();
    l.set_ns_pid(1234);
    assert_eq!(l.ns_pid, Some(1234));
    l.set_ns_fd(5);
    assert_eq!(l.ns_fd, Some(5));
}

#[test]
fn srcip_follows_the_longest_covering_prefix() {
    let routes = Cache::new(vec![
        // default route via 192.0.2.1
        Route {
            dst: Some(v4(0, 0, 0, 0, 0)),
            src: None,
            hops: vec![Nexthop {
                gateway: Some(v4(192, 0, 2, 1, 32)),
                ifindex: 2,
            }],
        },
        // the LAN route offers its own destination as the source hint
        Route {
            dst: Some(v4(10, 1, 2, 0, 24)),
            src: None,
            hops: Vec::new(),
        },
    ]);
    // inside the LAN: the /24 wins over the /0
    let r = get_srcip_for_dstip(&routes, Ipv4::new(10, 1, 2, 77));
    assert_eq!(r, Some(Ipv4::new(10, 1, 2, 0)));
    // outside: only the default route covers
    let r = get_srcip_for_dstip(&routes, Ipv4::new(8, 8, 8, 8));
    assert_eq!(r, Some(Ipv4::new(192, 0, 2, 1)));
}

#[test]
fn srcip_is_none_when_nothing_covers() {
    let routes = Cache::new(vec![Route {
        dst: Some(v4(10, 0, 0, 0, 8)),
        src: None,
        hops: Vec::new(),
    }]);
    assert_eq!(get_srcip_for_dstip(&routes, Ipv4::new(8, 8, 8, 8)), None);
}

#[test]
fn macs_and_src_report_the_whole_picture() {
    let mut eth = link(2, b"eth0");
    eth.hwaddr = Some(mac([2, 4, 6, 8, 10, 12]));
    let links = Cache::new(vec![link(1, b"lo"), eth]);
    let routes = Cache::new(vec![Route {
        dst: Some(v4(0, 0, 0, 0, 0)),
        src: None,
        hops: vec![Nexthop {
            gateway: Some(v4(192, 0, 2, 1, 32)),
            ifindex: 2,
        }],
    }]);
    let neighs = Cache::new(vec![Neigh {
        dst: v4(192, 0, 2, 1, 32),
        lladdr: mac([1, 3, 5, 7, 9, 11]),
        ifindex: 2,
    }]);
    let addrs = Cache::new(vec![RtAddr {
        local: Some(v4(192, 0, 2, 55, 24)),
        broadcast: None,
        ifindex: 2,
        family: FAMILY_INET,
        prefix: 24,
    }]);
    let (name, ifindex, src, hw, neigh_mac, cidr) =
        get_macs_and_src_for_ip(&addrs, &routes, &neighs, &links, Ipv4::new(8, 8, 8, 8))
            .expect("the default route reaches everything");
    assert_eq!(name, b"eth0".to_vec());
    assert_eq!(ifindex, 2);
    assert_eq!(src, Ipv4::new(192, 0, 2, 55));
    assert_eq!(hw, [2, 4, 6, 8, 10, 12]);
    assert_eq!(neigh_mac, [1, 3, 5, 7, 9, 11]);
    assert_eq!(cidr, 0);
}

#[test]
fn unresolved_neighbor_defaults_to_broadcast() {
    let mut eth = link(2, b"eth0");
    eth.hwaddr = Some(mac([2, 4, 6, 8, 10, 12]));
    let links = Cache::new(vec![eth]);
    let routes = Cache::new(vec![Route {
        dst: Some(v4(192, 0, 2, 0, 24)),
        src: None,
        hops: vec![Nexthop {
            gateway: None,
            ifindex: 2,
        }],
    }]);
    let neighs: Cache<Neigh> = Cache::new(Vec::new());
    let addrs = Cache::new(vec![RtAddr {
        local: Some(v4(192, 0, 2, 55, 24)),
        broadcast: None,
        ifindex: 2,
        family: FAMILY_INET,
        prefix: 24,
    }]);
    let (_, _, _, _, neigh_mac, cidr) =
        get_macs_and_src_for_ip(&addrs, &routes, &neighs, &links, Ipv4::new(192, 0, 2, 9))
            .expect("the LAN route covers the address");
    assert_eq!(neigh_mac, [0xFF; 6]);
    assert_eq!(cidr, 24);
}

#[test]
fn neighbor_lookup_prefers_a_direct_entry() {
    let target = v4(192, 0, 2, 9, 32);
    let links = Cache::new(vec![link(1, b"lo"), link(2, b"eth0")]);
    let neighs = Cache::new(vec![Neigh {
        dst: v4(192, 0, 2, 9, 32),
        lladdr: mac([1, 2, 3, 4, 5, 6]),
        ifindex: 2,
    }]);
    let routes: Cache<Route> = Cache::new(Vec::new());
    let (ip, l, m) =
        get_neigh_for_addr(&routes, &neighs, &links, &target).expect("a direct entry exists");
    assert_eq!(ip, Ipv4::new(192, 0, 2, 9));
    assert_eq!(l.ifindex(), 2);
    assert_eq!(m, [1, 2, 3, 4, 5, 6]);
}

#[test]
fn neighbor_lookup_falls_back_to_the_default_gateway() {
    let target = v4(8, 8, 8, 8, 32);
    let links = Cache::new(vec![link(2, b"eth0")]);
    let routes = Cache::new(vec![Route {
        dst: Some(v4(0, 0, 0, 0, 0)),
        src: None,
        hops: vec![Nexthop {
            gateway: Some(v4(192, 0, 2, 1, 32)),
            ifindex: 2,
        }],
    }]);
    let neighs = Cache::new(vec![Neigh {
        dst: v4(192, 0, 2, 1, 32),
        lladdr: mac([9, 8, 7, 6, 5, 4]),
        ifindex: 2,
    }]);
    let (ip, l, m) =
        get_neigh_for_addr(&routes, &neighs, &links, &target).expect("the gateway resolves");
    assert_eq!(ip, Ipv4::new(192, 0, 2, 1));
    assert_eq!(l.ifindex(), 2);
    assert_eq!(m, [9, 8, 7, 6, 5, 4]);
}

#[test]
fn neighbor_lookup_gives_up_without_default_route() {
    let target = v4(8, 8, 8, 8, 32);
    let links = Cache::new(vec![link(2, b"eth0")]);
    let routes: Cache<Route> = Cache::new(Vec::new());
    let neighs: Cache<Neigh> = Cache::new(Vec::new());
    assert!(get_neigh_for_addr(&routes, &neighs, &links, &target).is_none());
}

#[test]
fn route_builders_accumulate_hops() {
    let mut r = Route::new();
    assert!(r.dst().is_none());
    assert!(r.src().is_none());
    r.set_dst(v4(203, 0, 113, 5, 32));
    let mut hop = Nexthop::new();
    hop.set_ifindex(7);
    hop.set_gateway(v4(172, 16, 0, 1, 32));
    r.add_nexthop(hop);
    assert_eq!(r.nexthop_len(), 1);
    let h = r.nexthop(0).unwrap();
    assert_eq!(h.ifindex(), 7);
    assert!(h.gateway().is_some());
    assert!(r.nexthop(1).is_none());
}

#[test]
fn link_neighbor_lookup_matches_address_bytes() {
    let mut l = link(2, b"eth0");
    l.ifindex = 2;
    let neighs = Cache::new(vec![
        Neigh {
            dst: v4(192, 0, 2, 1, 32),
            lladdr: mac([1, 1, 1, 1, 1, 1]),
            ifindex: 3,
        },
        Neigh {
            dst: v4(192, 0, 2, 1, 32),
            lladdr: mac([2, 2, 2, 2, 2, 2]),
            ifindex: 2,
        },
    ]);
    let got = l.get_neigh(&neighs, &v4(192, 0, 2, 1, 32));
    assert_eq!(got, Some([2, 2, 2, 2, 2, 2]));
    assert_eq!(l.get_neigh(&neighs, &v4(192, 0, 2, 2, 32)), None);
}
