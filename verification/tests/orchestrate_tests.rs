use download_shell::addr::Ipv4;
use download_shell::orchestrate::{make_env_entry, make_link_name, TunnelPlan};

#[test]
fn plan_names_the_four_addresses_of_the_block() {
    let base = Ipv4::new(172, 16, 0, 12);
    let plan = TunnelPlan::new(base);
    assert_eq!(plan.network, base);
    assert_eq!(plan.host, Ipv4::new(172, 16, 0, 13));
    assert_eq!(plan.container, Ipv4::new(172, 16, 0, 14));
    assert_eq!(plan.broadcast, Ipv4::new(172, 16, 0, 15));
}

#[test]
fn veth_names_come_from_the_pid() {
    assert_eq!(make_link_name(42, true), b"dlsh42.0".to_vec());
    assert_eq!(make_link_name(42, false), b"dlsh42.1".to_vec());
    assert_eq!(make_link_name(4194304, true), b"dlsh4194304.0".to_vec());
    assert!(make_link_name(999999999, false).len() <= 15);
}

#[test]
fn env_entries_keep_key_and_value() {
    assert_eq!(make_env_entry(b"HOME", b"/root"), b"HOME=/root".to_vec());
    assert_eq!(make_env_entry(b"EMPTY", b""), b"EMPTY=".to_vec());
}

#[test]
fn the_prompt_variable_is_decorated() {
    assert_eq!(
        make_env_entry(b"PS1", b"\\u@\\h$ "),
        b"PS1=(download-shell) \\u@\\h$ ".to_vec()
    );
    // a key that merely contains PS1 is not decorated
    assert_eq!(make_env_entry(b"PS12", b"x"), b"PS12=x".to_vec());
}
