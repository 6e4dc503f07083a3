//! The error taxonomy of the tunnel core.

use vstd::prelude::*;

verus! {

/// Everything that can go wrong inside the tunnel core or at its kernel
/// and firewall boundaries.
#[derive(Clone, Copy, Debug, PartialEq, Eq, Structural)]
pub enum Error {
    /// A routing-table query or mutation was rejected by the kernel; the
    /// payload is the numeric error code the kernel protocol reported.
    KernelProtocol(i32),
    /// An address conversion was attempted on data of the wrong length
    /// (for example a hardware address where an IPv4 address was expected).
    AddressFamilyMismatch,
    /// The tunnel allocator exhausted the private range; terminal.
    NoTunnelRangeAvailable,
    /// A semaphore wait or signal of the two-process handshake failed; the
    /// payload is the numeric error code of the failing operation.
    Handshake(i32),
    /// An expected link or route was absent right after a mutation.
    LookupNotFound,
    /// Replacing the process image failed; the payload is the OS error.
    ExecFailure(i32),
    /// The external firewall rule tool failed or produced output that
    /// could not be parsed.
    FirewallTool,
}

impl Error {
    /// True for the one terminal, non-retryable condition: the allocator
    /// found no free /30 inside the private range.
    pub fn is_terminal(&self) -> (r: bool)
        ensures
            r == (*self == Error::NoTunnelRangeAvailable),
    {
        match self {
            Error::NoTunnelRangeAvailable => true,
            _ => false,
        }
    }
}

} // verus!
