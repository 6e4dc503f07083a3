use download_shell::addr::{Addr, Ipv4};
use download_shell::allocator::find_tunnel_ip_range;
use download_shell::cache::Cache;
use download_shell::error::Error;
use download_shell::route::{Nexthop, Route};

fn v4(bits: u32, prefix: u32) -> Addr {
    Addr {
        family: 2,
        data: vec![
            (bits >> 24) as u8,
            (bits >> 16) as u8,
            (bits >> 8) as u8,
            bits as u8,
        ],
        prefix,
    }
}

fn route_to(bits: u32, prefix: u32) -> Route {
    Route {
        dst: Some(v4(bits, prefix)),
        src: None,
        hops: Vec::new(),
    }
}

#[test]
fn empty_snapshot_yields_range_base() {
    let routes: Cache<Route> = Cache::new(Vec::new());
    let r = find_tunnel_ip_range(&routes);
    assert_eq!(r, Ok(Ipv4 { bits: 0xAC100000 }));
}

#[test]
fn three_adjacent_blocks_yield_the_fourth() {
    let routes = Cache::new(vec![
        route_to(0xAC100000, 30),
        route_to(0xAC100004, 30),
        route_to(0xAC100008, 30),
    ]);
    let r = find_tunnel_ip_range(&routes);
    // 172.16.0.12
    assert_eq!(r, Ok(Ipv4 { bits: 0xAC10000C }));
}

#[test]
fn iteration_order_does_not_matter() {
    let forward = Cache::new(vec![
        route_to(0xAC100000, 30),
        route_to(0xAC100004, 30),
        route_to(0xAC100008, 30),
    ]);
    let backward = Cache::new(vec![
        route_to(0xAC100008, 30),
        route_to(0xAC100000, 30),
        route_to(0xAC100004, 30),
    ]);
    assert_eq!(
        find_tunnel_ip_range(&forward),
        find_tunnel_ip_range(&backward)
    );
    assert_eq!(find_tunnel_ip_range(&backward), Ok(Ipv4 { bits: 0xAC10000C }));
}

#[test]
fn saturated_range_is_terminal() {
    // /30 blocks at every address from 172.16.0.0 through 172.31.255.252
    let mut routes: Vec<Route> = Vec::with_capacity(1 << 20);
    let mut bits: u32 = 0xAC100000;
    for _ in 0..(1u32 << 20) {
        routes.push(route_to(bits, 30));
        bits = bits.wrapping_add(4);
    }
    let routes = Cache::new(routes);
    let r = find_tunnel_ip_range(&routes);
    assert_eq!(r, Err(Error::NoTunnelRangeAvailable));
    assert!(r.unwrap_err().is_terminal());
}

#[test]
fn narrow_routes_push_to_the_next_aligned_block() {
    // a /32 host route at the bottom of the range: the candidate must
    // land on the next /30 boundary, never inside a block
    let routes = Cache::new(vec![route_to(0xAC100000, 32)]);
    assert_eq!(find_tunnel_ip_range(&routes), Ok(Ipv4 { bits: 0xAC100004 }));
    // a /31 route likewise
    let routes = Cache::new(vec![route_to(0xAC100000, 31)]);
    assert_eq!(find_tunnel_ip_range(&routes), Ok(Ipv4 { bits: 0xAC100004 }));
    // two host routes in the first block still land the candidate on
    // the next boundary
    let routes = Cache::new(vec![route_to(0xAC100000, 32), route_to(0xAC100001, 32)]);
    assert_eq!(find_tunnel_ip_range(&routes), Ok(Ipv4 { bits: 0xAC100004 }));
}

#[test]
fn the_base_is_always_a_multiple_of_four() {
    for &(bits, plen) in &[
        (0xAC100000u32, 32u32),
        (0xAC100002, 31),
        (0xAC100003, 32),
        (0xAC100000, 29),
        (0xAC100005, 32),
    ] {
        let routes = Cache::new(vec![route_to(bits, plen)]);
        if let Ok(ip) = find_tunnel_ip_range(&routes) {
            assert_eq!(ip.bits % 4, 0);
        }
    }
}

#[test]
fn default_route_never_constrains() {
    let routes = Cache::new(vec![
        Route {
            dst: Some(v4(0, 0)),
            src: None,
            hops: vec![Nexthop {
                gateway: Some(v4(0xC0A80001, 32)),
                ifindex: 2,
            }],
        },
        route_to(0xAC100000, 30),
    ]);
    let r = find_tunnel_ip_range(&routes);
    assert_eq!(r, Ok(Ipv4 { bits: 0xAC100004 }));
}

#[test]
fn routes_outside_the_private_range_are_ignored() {
    let routes = Cache::new(vec![
        route_to(0xC0A80000, 24), // 192.168.0.0/24
        route_to(0x0A000000, 8),  // 10.0.0.0/8
    ]);
    let r = find_tunnel_ip_range(&routes);
    assert_eq!(r, Ok(Ipv4 { bits: 0xAC100000 }));
}

#[test]
fn a_covering_block_pushes_the_candidate_past_it() {
    // 172.16.0.0/16 covers the whole start of the range
    let routes = Cache::new(vec![route_to(0xAC100000, 16)]);
    let r = find_tunnel_ip_range(&routes);
    // 172.17.0.0
    assert_eq!(r, Ok(Ipv4 { bits: 0xAC110000 }));
}

#[test]
fn sixteen_wide_blocks_exhaust_the_range() {
    let mut routes: Vec<Route> = Vec::new();
    for i in 0..16u32 {
        routes.push(route_to(0xAC100000 + (i << 16), 16));
    }
    let r = find_tunnel_ip_range(&Cache::new(routes));
    assert_eq!(r, Err(Error::NoTunnelRangeAvailable));
}

#[test]
fn non_ipv4_destinations_are_ignored() {
    let routes = Cache::new(vec![Route {
        dst: Some(Addr {
            family: 26,
            data: vec![0xAC, 0x10, 0x00, 0x00, 0x00, 0x00],
            prefix: 30,
        }),
        src: None,
        hops: Vec::new(),
    }]);
    let r = find_tunnel_ip_range(&routes);
    assert_eq!(r, Ok(Ipv4 { bits: 0xAC100000 }));
}
