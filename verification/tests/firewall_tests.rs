use download_shell::addr::Ipv4;
use download_shell::error::Error;
use download_shell::firewall::{plan_cleanup, plan_firewall_setup, FirewallStep};
use download_shell::orchestrate::make_firewall_tag;

#[test]
fn no_source_ip_installs_masquerade_and_forward_only() {
    let container = Ipv4::new(172, 16, 0, 2);
    let steps = plan_firewall_setup(None, b"eth0", container, 7, b"dlsh42");
    assert_eq!(steps.len(), 2);
    assert_eq!(
        steps[0],
        FirewallStep::Masquerade {
            out_if: b"eth0".to_vec(),
            tag: b"dlsh42".to_vec(),
        }
    );
    assert_eq!(
        steps[1],
        FirewallStep::ForwardAccept {
            container,
            tag: b"dlsh42".to_vec(),
        }
    );
}

#[test]
fn source_ip_installs_snat_proxy_arp_twice_and_host_route() {
    let container = Ipv4::new(172, 16, 0, 2);
    let source = Ipv4::new(203, 0, 113, 5);
    let steps = plan_firewall_setup(Some(source), b"eth0", container, 7, b"dlsh42");
    assert_eq!(steps.len(), 5);
    assert_eq!(
        steps[0],
        FirewallStep::SourceNat {
            container,
            source,
            tag: b"dlsh42".to_vec(),
        }
    );
    assert_eq!(steps[1], FirewallStep::EnableProxyArpAll);
    assert_eq!(
        steps[2],
        FirewallStep::EnableProxyArpIf {
            out_if: b"eth0".to_vec(),
        }
    );
    assert_eq!(
        steps[3],
        FirewallStep::AddHostRoute {
            source,
            host_ifindex: 7,
        }
    );
    assert_eq!(
        steps[4],
        FirewallStep::ForwardAccept {
            container,
            tag: b"dlsh42".to_vec(),
        }
    );
    let masquerades = steps
        .iter()
        .filter(|s| matches!(s, FirewallStep::Masquerade { .. }))
        .count();
    assert_eq!(masquerades, 0);
}

#[test]
fn cleanup_finds_the_tagged_line_number() {
    let listing = b"Chain FORWARD (policy ACCEPT)\n\
num   pkts bytes target  prot opt in  out source       destination\n\
1     0    0     ACCEPT  all  --  *   *   10.0.0.0/8   0.0.0.0/0\n\
2     4    256   ACCEPT  all  --  *   *   172.16.0.2   0.0.0.0/0    /* dlsh42 */\n";
    assert_eq!(plan_cleanup(listing, b"dlsh42"), Ok(Some(2)));
}

#[test]
fn cleanup_without_a_match_warns_instead_of_failing() {
    let listing = b"Chain FORWARD (policy ACCEPT)\n1  ACCEPT all -- * * 10.0.0.0/8 0.0.0.0/0\n";
    assert_eq!(plan_cleanup(listing, b"dlsh42"), Ok(None));
}

#[test]
fn cleanup_never_touches_another_runs_rule() {
    let listing = b"Chain POSTROUTING (policy ACCEPT)\n\
1  MASQUERADE all -- * eth0 0.0.0.0/0 0.0.0.0/0  /* dlsh43 */\n";
    // run 42's cleanup must not name run 43's line
    assert_eq!(plan_cleanup(listing, b"dlsh42"), Ok(None));
    // and run 43's cleanup names exactly it
    assert_eq!(plan_cleanup(listing, b"dlsh43"), Ok(Some(1)));
}

#[test]
fn tags_that_share_a_prefix_stay_apart() {
    let listing = b"1  MASQUERADE all -- * eth0 0.0.0.0/0 0.0.0.0/0  /* dlsh423 */\n";
    assert_eq!(plan_cleanup(listing, b"dlsh42"), Ok(None));
    assert_eq!(plan_cleanup(listing, b"dlsh4"), Ok(None));
    assert_eq!(plan_cleanup(listing, b"dlsh423"), Ok(Some(1)));
}

#[test]
fn cleanup_twice_is_safe() {
    let before = b"Chain FORWARD (policy ACCEPT)\n\
1  ACCEPT all -- * * 10.0.0.0/8 0.0.0.0/0\n\
2  ACCEPT all -- * * 172.16.0.2 0.0.0.0/0  /* dlsh42 */\n";
    assert_eq!(plan_cleanup(before, b"dlsh42"), Ok(Some(2)));
    // the listing after that rule was deleted
    let after = b"Chain FORWARD (policy ACCEPT)\n\
1  ACCEPT all -- * * 10.0.0.0/8 0.0.0.0/0\n";
    // the second run finds nothing and only warns
    assert_eq!(plan_cleanup(after, b"dlsh42"), Ok(None));
}

#[test]
fn unparseable_rule_number_is_a_tool_error() {
    let listing = b"num pkts\nx  ACCEPT /* dlsh42 */\n";
    assert_eq!(plan_cleanup(listing, b"dlsh42"), Err(Error::FirewallTool));
    let huge = b"70000  ACCEPT /* dlsh42 */\n";
    assert_eq!(plan_cleanup(huge, b"dlsh42"), Err(Error::FirewallTool));
    let empty_line = b"   \t /* dlsh42 */junk-without-number...\n";
    // first token exists but is not a number
    assert_eq!(
        plan_cleanup(empty_line, b"dlsh42"),
        Err(Error::FirewallTool)
    );
}

#[test]
fn cleanup_takes_the_first_matching_line() {
    let listing = b"1  ACCEPT /* dlsh42 */\n2  ACCEPT /* dlsh42 */\n";
    assert_eq!(plan_cleanup(listing, b"dlsh42"), Ok(Some(1)));
}

#[test]
fn cleanup_handles_carriage_returns() {
    let listing = b"1  ACCEPT other\r\n3  ACCEPT /* dlsh42 */\r\n";
    assert_eq!(plan_cleanup(listing, b"dlsh42"), Ok(Some(3)));
}

#[test]
fn tag_is_dlsh_plus_pid() {
    assert_eq!(make_firewall_tag(42), b"dlsh42".to_vec());
    assert_eq!(make_firewall_tag(0), b"dlsh0".to_vec());
    assert_eq!(make_firewall_tag(4194304), b"dlsh4194304".to_vec());
}
