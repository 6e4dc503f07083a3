use download_shell::addr::{Addr, Ipv4, RtAddr, FAMILY_INET, FAMILY_LLC};
use download_shell::error::Error;

#[test]
fn ipv4_round_trips_through_the_generic_representation() {
    let ip = Ipv4::new(203, 0, 113, 5);
    let a = Addr::from_ipv4(ip);
    assert_eq!(a.family, FAMILY_INET);
    assert_eq!(a.data, vec![203, 0, 113, 5]);
    assert_eq!(a.to_ipv4(), Ok(ip));
}

#[test]
fn every_octet_pattern_round_trips() {
    for &bits in &[0u32, 1, 0xFF, 0xFFFFFFFF, 0xAC100000, 0x7F000001, 0x01020304] {
        let ip = Ipv4 { bits };
        assert_eq!(Addr::from_ipv4(ip).to_ipv4(), Ok(ip));
    }
}

#[test]
fn hardware_address_does_not_convert() {
    let hw = Addr {
        family: FAMILY_LLC,
        data: vec![0x0A, 0x1B, 0x2C, 0x3D, 0x4E, 0x5F],
        prefix: 0,
    };
    assert_eq!(hw.to_ipv4(), Err(Error::AddressFamilyMismatch));
}

#[test]
fn conversion_checks_length_not_family() {
    // a 4-byte value converts whatever its family tag says
    let odd = Addr {
        family: FAMILY_LLC,
        data: vec![1, 2, 3, 4],
        prefix: 0,
    };
    assert_eq!(odd.to_ipv4(), Ok(Ipv4::new(1, 2, 3, 4)));
}

#[test]
fn dotted_quad_text_is_exact() {
    let ip = Ipv4::new(172, 16, 0, 1);
    assert_eq!(download_shell::addr::ipv4_dotted(ip), b"172.16.0.1".to_vec());
    let ip = Ipv4::new(0, 0, 0, 0);
    assert_eq!(download_shell::addr::ipv4_dotted(ip), b"0.0.0.0".to_vec());
    let ip = Ipv4::new(255, 255, 255, 255);
    assert_eq!(
        download_shell::addr::ipv4_dotted(ip),
        b"255.255.255.255".to_vec()
    );
}

#[test]
fn ipv4_display_carries_the_prefix() {
    let mut a = Addr::from_ipv4(Ipv4::new(172, 16, 0, 1));
    a.set_cidrlen(30);
    assert_eq!(a.display_bytes(), b"172.16.0.1/30".to_vec());
}

#[test]
fn hardware_display_is_colon_separated_hex() {
    let hw = Addr {
        family: FAMILY_LLC,
        data: vec![0x0A, 0x1B, 0x2C, 0x3D, 0x4E, 0x5F],
        prefix: 0,
    };
    assert_eq!(hw.display_bytes(), b"0A:1B:2C:3D:4E:5F".to_vec());
}

#[test]
fn address_accessors_report_the_fields() {
    let mut a = Addr::from_ipv4(Ipv4::new(10, 0, 0, 1));
    assert_eq!(a.len(), 4);
    assert_eq!(a.cidrlen(), 32);
    assert_eq!(a.atype(), Some(FAMILY_INET));
    assert_eq!(a.hw_address(), vec![10, 0, 0, 1]);
    a.set_cidrlen(8);
    assert_eq!(a.cidrlen(), 8);
}

#[test]
fn address_object_setters_build_a_request() {
    let mut ra = RtAddr::new();
    assert!(ra.local().is_none());
    ra.set_local(Addr::from_ipv4(Ipv4::new(172, 16, 0, 1)));
    ra.set_broadcast(Addr::from_ipv4(Ipv4::new(172, 16, 0, 3)));
    ra.set_ifindex(7);
    ra.set_prefixlen(30);
    assert_eq!(ra.family(), FAMILY_INET);
    assert_eq!(ra.ifindex(), 7);
    let local = ra.local().expect("local address was set");
    assert_eq!(local.data, vec![172, 16, 0, 1]);
}
