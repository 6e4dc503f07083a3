//! Verified core of a network-namespace tunnel tool.
//!
//! The library models the kernel's routing objects (links, addresses,
//! routes, next-hops, neighbor entries) as plain values, allocates a free
//! /30 tunnel subnet from a routing-table snapshot, plans the firewall
//! rules for a run and the exact-match cleanup of those rules, and proves
//! the ordering guarantees of the two-process namespace handshake.
//! All kernel, firewall and process I/O lives outside this crate; the
//! caller hands in snapshots and carries out the planned actions.

pub mod addr;
pub mod allocator;
pub mod cache;
pub mod error;
pub mod firewall;
pub mod handshake;
pub mod lookup;
pub mod orchestrate;
pub mod route;
pub mod text;
