//! The two-process namespace handshake, as a state machine over the two
//! shared semaphores. The parent may move the peer interface into the
//! child's namespace only after it has won the wait on `unshare_sem`,
//! and the child posts that semaphore only after its namespace exists;
//! the child in turn may configure the peer interface only after it has
//! won the wait on `move_sem`, which the parent posts only after the
//! move. The invariant proved here is exactly that pair of ordering
//! guarantees.
//!
//! Both semaphores start at count 0 and are posted exactly once per
//! run: the move gate starts closed, so the child cannot slip past it
//! before the interface has actually arrived.

use vstd::prelude::*;

verus! {

/// Where the parent stands: waiting for the child's namespace, about to
/// move the peer interface, about to release the child, waiting for the
/// child to exit, or done.
#[derive(Clone, Copy, Debug, PartialEq, Eq, Structural)]
pub enum ParentPhase {
    WaitUnshare,
    MovePeer,
    SignalMove,
    WaitChild,
    Done,
}

/// Where the child stands: about to unshare its namespaces, about to
/// signal that the namespace exists, waiting for the interface move,
/// configuring its side of the tunnel, or replaced by the target
/// program.
#[derive(Clone, Copy, Debug, PartialEq, Eq, Structural)]
pub enum ChildPhase {
    Unshare,
    SignalUnshare,
    WaitMove,
    Configure,
    Exec,
}

/// The joint state of one handshake run: both processes' phases, the two
/// semaphore counts, and what has actually happened to the kernel so
/// far.
pub struct Handshake {
    pub parent: ParentPhase,
    pub child: ChildPhase,
    pub unshare_sem: u32,
    pub move_sem: u32,
    /// The child's new network namespace exists.
    pub child_unshared: bool,
    /// The child has posted `unshare_sem`.
    pub unshare_signaled: bool,
    /// The peer interface has been moved into the child's namespace.
    pub peer_moved: bool,
    /// The child has configured addresses on the peer interface.
    pub child_configured: bool,
}

impl Handshake {
    /// The invariant every reachable state satisfies. Its heart is the
    /// ordering chain: the peer interface is moved only after the child
    /// signaled, the child signals only after its namespace exists, and
    /// the child configures the peer only after the move.
    pub open spec fn inv(&self) -> bool {
        &&& (self.unshare_signaled ==> self.child_unshared)
        &&& (self.peer_moved ==> self.unshare_signaled)
        &&& self.unshare_sem <= 1
        &&& (self.unshare_sem == 1 ==> self.unshare_signaled)
        &&& (!(self.parent is WaitUnshare) ==> self.unshare_signaled)
        &&& ((self.parent is SignalMove || self.parent is WaitChild || self.parent is Done)
            ==> self.peer_moved)
        &&& (!(self.child is Unshare) ==> self.child_unshared)
        &&& ((self.child is WaitMove || self.child is Configure || self.child is Exec)
            ==> self.unshare_signaled)
        &&& ((self.child is Unshare || self.child is SignalUnshare) ==> self.unshare_sem == 0)
        &&& self.move_sem <= 1
        &&& (self.move_sem == 1 ==> self.peer_moved)
        &&& ((self.parent is WaitUnshare || self.parent is MovePeer || self.parent
            is SignalMove) ==> self.move_sem == 0)
        &&& ((self.child is Configure || self.child is Exec) ==> self.peer_moved)
        &&& (self.child_configured ==> self.peer_moved)
    }

    /// The state at the start of a run: both processes at their first
    /// step, both semaphores at count 0, nothing done yet.
    pub fn initial() -> (s: Handshake)
        ensures
            s.inv(),
            s.parent is WaitUnshare,
            s.child is Unshare,
            s.unshare_sem == 0,
            s.move_sem == 0,
            !s.child_unshared,
            !s.unshare_signaled,
            !s.peer_moved,
            !s.child_configured,
    {
        Handshake {
            parent: ParentPhase::WaitUnshare,
            child: ChildPhase::Unshare,
            unshare_sem: 0,
            move_sem: 0,
            child_unshared: false,
            unshare_signaled: false,
            peer_moved: false,
            child_configured: false,
        }
    }

    /// Runs the child's next action when it is enabled; returns whether
    /// the child progressed. The parent's side of the state is left
    /// alone, and each phase takes exactly the transition the protocol
    /// prescribes: unshare, post `unshare_sem`, win `move_sem`,
    /// configure, and nothing after that.
    pub fn step_child(&mut self) -> (progressed: bool)
        requires
            old(self).inv(),
        ensures
            final(self).inv(),
            final(self).parent == old(self).parent,
            final(self).peer_moved == old(self).peer_moved,
            final(self).unshare_signaled ==> final(self).child_unshared,
            old(self).child is Unshare ==> final(self).child is SignalUnshare && final(self).child_unshared && final(self).unshare_sem == old(self).unshare_sem && final(self).move_sem == old(self).move_sem && final(self).unshare_signaled == old(self).unshare_signaled && final(self).child_configured == old(self).child_configured
                && progressed,
            old(self).child is SignalUnshare ==> final(self).child is WaitMove && final(self).unshare_sem == old(self).unshare_sem + 1 && final(self).unshare_signaled && final(self).move_sem == old(self).move_sem && final(self).child_unshared == old(self).child_unshared && final(self).child_configured == old(self).child_configured
                && progressed,
            old(self).child is WaitMove && old(self).move_sem > 0 ==> final(self).child is Configure && final(self).move_sem == old(self).move_sem - 1 && final(self).unshare_sem == old(self).unshare_sem && final(self).unshare_signaled == old(self).unshare_signaled && final(self).child_unshared == old(self).child_unshared && final(self).child_configured == old(self).child_configured && progressed,
            old(self).child is WaitMove && old(self).move_sem == 0 ==> *final(self) == *old(self)
                && !progressed,
            old(self).child is Configure ==> final(self).child is Exec && final(self).child_configured && final(self).unshare_sem == old(self).unshare_sem && final(self).move_sem == old(self).move_sem && final(self).unshare_signaled == old(self).unshare_signaled && final(self).child_unshared == old(self).child_unshared
                && progressed,
            old(self).child is Exec ==> *final(self) == *old(self) && !progressed,
    {
        match self.child {
            ChildPhase::Unshare => {
                self.child_unshared = true;
                self.child = ChildPhase::SignalUnshare;
                true
            },
            ChildPhase::SignalUnshare => {
                self.unshare_sem = self.unshare_sem + 1;
                self.unshare_signaled = true;
                self.child = ChildPhase::WaitMove;
                true
            },
            ChildPhase::WaitMove => {
                if self.move_sem > 0 {
                    self.move_sem = self.move_sem - 1;
                    self.child = ChildPhase::Configure;
                    true
                } else {
                    false
                }
            },
            ChildPhase::Configure => {
                self.child_configured = true;
                self.child = ChildPhase::Exec;
                true
            },
            ChildPhase::Exec => false,
        }
    }

    /// Runs the parent's next action when it is enabled; returns whether
    /// the parent progressed. The child's side of the state is left
    /// alone, and each phase takes exactly the transition the protocol
    /// prescribes: win `unshare_sem`, move the peer interface, post
    /// `move_sem`, reap the child, and nothing after that; in
    /// particular the move is taken only after the child has signaled
    /// that its namespace exists.
    pub fn step_parent(&mut self) -> (progressed: bool)
        requires
            old(self).inv(),
        ensures
            final(self).inv(),
            final(self).child == old(self).child,
            final(self).child_unshared == old(self).child_unshared,
            final(self).unshare_signaled == old(self).unshare_signaled,
            final(self).child_configured == old(self).child_configured,
            (!old(self).peer_moved && final(self).peer_moved) ==> old(self).unshare_signaled
                && old(self).child_unshared,
            old(self).parent is WaitUnshare && old(self).unshare_sem > 0 ==> final(self).parent is MovePeer && final(self).unshare_sem == old(self).unshare_sem - 1 && final(self).move_sem == old(self).move_sem && final(self).peer_moved == old(self).peer_moved
                && progressed,
            old(self).parent is WaitUnshare && old(self).unshare_sem == 0 ==> *final(self) == *old(self) && !progressed,
            old(self).parent is MovePeer ==> final(self).parent is SignalMove && final(self).peer_moved && final(self).unshare_sem == old(self).unshare_sem && final(self).move_sem == old(self).move_sem && progressed,
            old(self).parent is SignalMove ==> final(self).parent is WaitChild && final(self).move_sem == old(self).move_sem + 1 && final(self).unshare_sem == old(self).unshare_sem && final(self).peer_moved == old(self).peer_moved && progressed,
            old(self).parent is WaitChild ==> final(self).parent is Done && final(self).move_sem
                == old(self).move_sem && final(self).unshare_sem == old(self).unshare_sem && final(self).peer_moved == old(self).peer_moved && progressed,
            old(self).parent is Done ==> *final(self) == *old(self) && !progressed,
    {
        match self.parent {
            ParentPhase::WaitUnshare => {
                if self.unshare_sem > 0 {
                    self.unshare_sem = self.unshare_sem - 1;
                    self.parent = ParentPhase::MovePeer;
                    true
                } else {
                    false
                }
            },
            ParentPhase::MovePeer => {
                self.peer_moved = true;
                self.parent = ParentPhase::SignalMove;
                true
            },
            ParentPhase::SignalMove => {
                self.move_sem = self.move_sem + 1;
                self.parent = ParentPhase::WaitChild;
                true
            },
            ParentPhase::WaitChild => {
                self.parent = ParentPhase::Done;
                true
            },
            ParentPhase::Done => false,
        }
    }

    /// True once the peer interface sits in the child's namespace.
    pub fn peer_moved(&self) -> (r: bool)
        ensures
            r == self.peer_moved,
    {
        self.peer_moved
    }

    /// True once the child has signaled that its namespace exists.
    pub fn unshare_signaled(&self) -> (r: bool)
        ensures
            r == self.unshare_signaled,
    {
        self.unshare_signaled
    }

    /// True once the child's namespace exists.
    pub fn child_unshared(&self) -> (r: bool)
        ensures
            r == self.child_unshared,
    {
        self.child_unshared
    }

    /// True once the child has configured the peer interface.
    pub fn child_configured(&self) -> (r: bool)
        ensures
            r == self.child_configured,
    {
        self.child_configured
    }
}

/// The handshake's two ordering guarantees, which hold in every
/// reachable state since the steps preserve the invariant under any
/// interleaving: the peer interface appears inside the child's
/// namespace only after the child has signaled `unshare_sem`, which in
/// turn happens only after the child's namespace exists; and the child
/// reaches its configuration phase — and so configures addresses on
/// the peer interface — only after the interface has actually been
/// moved.
pub proof fn lemma_handshake_ordering(s: Handshake)
    requires
        s.inv(),
    ensures
        s.peer_moved ==> s.unshare_signaled,
        s.peer_moved ==> s.child_unshared,
        s.unshare_signaled ==> s.child_unshared,
        (s.child is Configure || s.child is Exec) ==> s.peer_moved,
        s.child_configured ==> s.peer_moved,
{
}

} // verus!
