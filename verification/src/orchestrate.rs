//! Per-run derived data for the orchestrator: the four addresses of the
//! tunnel's /30 block, the deterministic names of the veth pair, the
//! run-unique firewall tag, and the environment entries handed to the
//! program launched inside the namespace.

use vstd::prelude::*;

use crate::addr::Ipv4;
use crate::allocator::{RANGE_BASE, RANGE_MASK};
use crate::text::{dec_digits, push_bytes, push_decimal};

verus! {

/// The four addresses of one run's /30 tunnel block: the network id,
/// the host endpoint, the container endpoint, and the broadcast
/// address.
pub struct TunnelPlan {
    pub network: Ipv4,
    pub host: Ipv4,
    pub container: Ipv4,
    pub broadcast: Ipv4,
}

impl TunnelPlan {
    /// Derives the run's four tunnel addresses from the base address the
    /// allocator named: a /30 network id (a multiple of 4) inside
    /// 172.16.0.0/12, so the block is whole and the three offsets
    /// cannot wrap.
    pub fn new(base: Ipv4) -> (p: TunnelPlan)
        requires
            base.bits & RANGE_MASK == RANGE_BASE,
            base.bits % 4 == 0,
        ensures
            p.network == base,
            p.host.bits == base.bits + 1,
            p.container.bits == base.bits + 2,
            p.broadcast.bits == base.bits + 3,
    {
        proof {
            let b = base.bits;
            assert(b <= 0xAC1FFFFF) by (bit_vector)
                requires
                    b & 0xFFF00000 == 0xAC100000u32,
            ;
        }
        TunnelPlan {
            network: base,
            host: Ipv4 { bits: base.bits + 1 },
            container: Ipv4 { bits: base.bits + 2 },
            broadcast: Ipv4 { bits: base.bits + 3 },
        }
    }
}

/// The text `dlsh` followed by the decimal process id: the stem both
/// interface names and the firewall tag are built from.
pub open spec fn run_stem_text(pid: u32) -> Seq<u8> {
    seq![100u8, 108u8, 115u8, 104u8] + dec_digits(pid as nat)
}

/// The name of one side of the run's veth pair: the stem, a dot, and
/// `0` for the host side or `1` for the container side.
pub open spec fn link_name_text(pid: u32, host_side: bool) -> Seq<u8> {
    run_stem_text(pid) + seq![46u8, if host_side { 48u8 } else { 49u8 }]
}

/// The run-unique firewall tag attached to every rule this run
/// installs: `dlsh` followed by the process id. Such a tag is
/// well-formed in the sense the tag-isolation guarantee asks for:
/// nonempty, letters and digits only.
pub fn make_firewall_tag(pid: u32) -> (r: Vec<u8>)
    ensures
        r@ == run_stem_text(pid),
        crate::firewall::wf_tag(r@),
{
    proof {
        crate::text::lemma_dec_digits_are_digits(pid as nat);
    }
    let mut out: Vec<u8> = Vec::new();
    out.push(100);
    out.push(108);
    out.push(115);
    out.push(104);
    push_decimal(&mut out, pid);
    proof {
        assert(out@ =~= run_stem_text(pid));
        assert(crate::firewall::wf_tag(out@)) by {
            assert(forall|i: int|
                0 <= i < out@.len() ==> crate::firewall::is_tag_byte(#[trigger] out@[i])) by {
                assert(forall|i: int|
                    4 <= i < out@.len() ==> out@[i] == dec_digits(pid as nat)[i - 4]);
            }
        }
    }
    out
}

/// The deterministic name of one side of the run's veth pair. Process
/// ids on this kernel are far below 10^9, which keeps the name within
/// the kernel's 15-byte limit.
pub fn make_link_name(pid: u32, host_side: bool) -> (r: Vec<u8>)
    requires
        pid < 1000000000,
    ensures
        r@ == link_name_text(pid, host_side),
        r@.len() <= 15,
{
    let mut out: Vec<u8> = Vec::new();
    out.push(100);
    out.push(108);
    out.push(115);
    out.push(104);
    push_decimal(&mut out, pid);
    out.push(46);
    if host_side {
        out.push(48);
    } else {
        out.push(49);
    }
    proof {
        assert(out@ =~= link_name_text(pid, host_side));
        assert(crate::text::pow10(9) == 1000000000) by {
            assert(crate::text::pow10(0) == 1);
            assert(crate::text::pow10(1) == 10);
            assert(crate::text::pow10(2) == 100);
            assert(crate::text::pow10(3) == 1000);
            assert(crate::text::pow10(4) == 10000);
            assert(crate::text::pow10(5) == 100000);
            assert(crate::text::pow10(6) == 1000000);
            assert(crate::text::pow10(7) == 10000000);
            assert(crate::text::pow10(8) == 100000000);
        }
        crate::text::lemma_dec_digits_len(pid as nat, 9);
    }
    out
}

/// The text of one environment entry handed to the launched program:
/// `KEY=VALUE`, except that the interactive prompt variable `PS1` is
/// decorated to show that the tunnel is active.
pub open spec fn env_entry_text(key: Seq<u8>, value: Seq<u8>) -> Seq<u8> {
    if key == seq![80u8, 83u8, 49u8] {
        seq![80u8, 83u8, 49u8, 61u8] + prompt_prefix_text() + value
    } else {
        key + seq![61u8] + value
    }
}

/// The prompt decoration `(download-shell) `.
pub open spec fn prompt_prefix_text() -> Seq<u8> {
    seq![
        40u8,
        100u8,
        111u8,
        119u8,
        110u8,
        108u8,
        111u8,
        97u8,
        100u8,
        45u8,
        115u8,
        104u8,
        101u8,
        108u8,
        108u8,
        41u8,
        32u8,
    ]
}

/// Builds one environment entry for the launched program.
pub fn make_env_entry(key: &[u8], value: &[u8]) -> (r: Vec<u8>)
    ensures
        r@ == env_entry_text(key@, value@),
{
    let mut out: Vec<u8> = Vec::new();
    let is_ps1 = key.len() == 3 && key[0] == 80 && key[1] == 83 && key[2] == 49;
    proof {
        if is_ps1 {
            assert(key@ =~= seq![80u8, 83u8, 49u8]);
        } else {
            assert(key@ != seq![80u8, 83u8, 49u8]);
        }
    }
    if is_ps1 {
        out.push(80);
        out.push(83);
        out.push(49);
        out.push(61);
        out.push(40);
        out.push(100);
        out.push(111);
        out.push(119);
        out.push(110);
        out.push(108);
        out.push(111);
        out.push(97);
        out.push(100);
        out.push(45);
        out.push(115);
        out.push(104);
        out.push(101);
        out.push(108);
        out.push(108);
        out.push(41);
        out.push(32);
        push_bytes(&mut out, value);
        proof {
            assert(out@ =~= env_entry_text(key@, value@));
        }
    } else {
        push_bytes(&mut out, key);
        out.push(61);
        push_bytes(&mut out, value);
        proof {
            assert(out@ =~= env_entry_text(key@, value@));
        }
    }
    out
}

} // verus!
