use download_shell::handshake::{ChildPhase, Handshake, ParentPhase};

#[test]
fn initial_state_matches_the_protocol() {
    let s = Handshake::initial();
    assert_eq!(s.parent, ParentPhase::WaitUnshare);
    assert_eq!(s.child, ChildPhase::Unshare);
    assert_eq!(s.unshare_sem, 0);
    assert_eq!(s.move_sem, 0);
    assert!(!s.peer_moved());
    assert!(!s.unshare_signaled());
    assert!(!s.child_unshared());
    assert!(!s.child_configured());
}

#[test]
fn parent_blocks_until_the_child_signals() {
    let mut s = Handshake::initial();
    // the parent cannot take a step before the child posts unshare_sem
    assert!(!s.step_parent());
    assert!(!s.peer_moved());
    // child unshares and signals
    assert!(s.step_child());
    assert!(s.child_unshared());
    assert!(!s.unshare_signaled());
    assert!(s.step_child());
    assert!(s.unshare_signaled());
    // now the parent may proceed to the move
    assert!(s.step_parent());
    assert_eq!(s.parent, ParentPhase::MovePeer);
    assert!(!s.peer_moved());
    assert!(s.step_parent());
    assert!(s.peer_moved());
}

#[test]
fn full_run_in_strict_alternation() {
    let mut s = Handshake::initial();
    let mut steps = 0;
    while steps < 100 {
        let a = s.step_child();
        let b = s.step_parent();
        if !a && !b {
            break;
        }
        steps += 1;
    }
    assert_eq!(s.parent, ParentPhase::Done);
    assert_eq!(s.child, ChildPhase::Exec);
    assert!(s.peer_moved());
    assert!(s.child_configured());
}

#[test]
fn ordering_holds_under_randomized_schedules() {
    for seed in 0u64..200 {
        let mut rng = seed.wrapping_mul(6364136223846793005).wrapping_add(1442695040888963407);
        let mut s = Handshake::initial();
        let mut signal_order: Vec<&'static str> = Vec::new();
        for _ in 0..64 {
            rng = rng
                .wrapping_mul(6364136223846793005)
                .wrapping_add(1442695040888963407);
            let before_signal = s.unshare_signaled();
            let before_move = s.peer_moved();
            let progressed = if (rng >> 33) & 1 == 0 {
                s.step_child()
            } else {
                s.step_parent()
            };
            if progressed {
                if !before_signal && s.unshare_signaled() {
                    signal_order.push("signal");
                }
                if !before_move && s.peer_moved() {
                    signal_order.push("move");
                }
            }
            // the peer interface never appears in the child's namespace
            // before the child has signaled that the namespace exists,
            // and the child never configures the peer before it arrived
            assert!(!s.peer_moved() || s.unshare_signaled());
            assert!(!s.unshare_signaled() || s.child_unshared());
            assert!(!s.child_configured() || s.peer_moved());
        }
        // whenever both events happened, the signal came first
        if signal_order.len() == 2 {
            assert_eq!(signal_order, vec!["signal", "move"]);
        }
    }
}

#[test]
fn child_blocks_at_the_move_gate_until_the_parent_posts() {
    // move_sem starts at count 0, so a child that reaches the wait
    // before the parent moved the interface is held there; it may
    // configure the peer only after the move.
    let mut s = Handshake::initial();
    assert!(s.step_child()); // unshare
    assert!(s.step_child()); // signal
    assert!(!s.step_child()); // the move gate is still closed
    assert_eq!(s.child, ChildPhase::WaitMove);
    assert!(!s.child_configured());
    assert!(s.step_parent()); // win the unshare wait
    assert!(s.step_parent()); // move the peer interface
    assert!(s.peer_moved());
    assert!(!s.step_child()); // still closed: the parent has not posted yet
    assert!(s.step_parent()); // post the move gate
    assert!(s.step_child()); // now the child passes it
    assert_eq!(s.child, ChildPhase::Configure);
    assert!(s.step_child()); // configure
    assert!(s.child_configured());
    assert!(!s.step_child()); // exec: no further steps
}
