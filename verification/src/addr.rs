//! Addresses: a plain IPv4 value, the generic kernel address (family tag,
//! raw bytes, prefix length), and the address object attached to a link.
//! Conversion between the generic representation and IPv4 is exact and
//! proved to round-trip.

use vstd::prelude::*;

use crate::error::Error;
use crate::text::dec_digits;

verus! {

/// Address family tag for IPv4 data, as the kernel protocol numbers it.
pub const FAMILY_INET: i32 = 2;

/// Address family tag for link-layer (hardware) data.
pub const FAMILY_LLC: i32 = 26;

/// An IPv4 address held as one 32-bit value, highest octet first.
#[derive(Clone, Copy, Debug, PartialEq, Eq, Structural)]
pub struct Ipv4 {
    pub bits: u32,
}

/// The four octets of a 32-bit address, highest first.
pub open spec fn octets_of(bits: u32) -> Seq<u8> {
    seq![(bits >> 24) as u8, (bits >> 16) as u8, (bits >> 8) as u8, bits as u8]
}

/// The 32-bit value named by four octets, highest first.
pub open spec fn bits_of(bytes: Seq<u8>) -> u32
    recommends
        bytes.len() == 4,
{
    ((bytes[0] as u32) << 24) | ((bytes[1] as u32) << 16) | ((bytes[2] as u32) << 8) | (
    bytes[3] as u32)
}

/// Converting an IPv4 value to its four generic-representation octets and
/// reading them back yields the original value.
pub proof fn lemma_octets_round_trip(bits: u32)
    ensures
        bits_of(octets_of(bits)) == bits,
{
    assert((((bits >> 24) as u8 as u32) << 24) | (((bits >> 16) as u8 as u32) << 16) | (((bits
        >> 8) as u8 as u32) << 8) | (bits as u8 as u32) == bits) by (bit_vector);
}

impl Ipv4 {
    /// The address `a.b.c.d`.
    pub fn new(a: u8, b: u8, c: u8, d: u8) -> (r: Ipv4)
        ensures
            r.bits == bits_of(seq![a, b, c, d]),
            octets_of(r.bits) == seq![a, b, c, d],
    {
        let bits: u32 = ((a as u32) << 24) | ((b as u32) << 16) | ((c as u32) << 8) | (d as u32);
        proof {
            assert((bits >> 24) as u8 == a && (bits >> 16) as u8 == b && (bits >> 8) as u8 == c
                && bits as u8 == d) by (bit_vector)
                requires
                    bits == ((a as u32) << 24) | ((b as u32) << 16) | ((c as u32) << 8) | (
                    d as u32),
            ;
            assert(octets_of(bits) =~= seq![a, b, c, d]);
        }
        Ipv4 { bits }
    }
}

/// The generic kernel address representation: a family tag, the raw
/// address bytes, and the prefix length of the subnet it names.
pub struct Addr {
    pub family: i32,
    pub data: Vec<u8>,
    pub prefix: u32,
}

impl Addr {
    /// Well-formed: the data is no longer than the largest address the
    /// kernel hands out, and the prefix length fits the data.
    pub open spec fn wf(&self) -> bool {
        self.data@.len() <= 16 && self.prefix <= 8 * self.data@.len()
    }

    /// An IPv4 host address in the generic representation, as the kernel
    /// parser builds it from a dotted quad: family IPv4, four octets, a
    /// full-length prefix.
    pub fn from_ipv4(ip: Ipv4) -> (r: Addr)
        ensures
            r.family == FAMILY_INET,
            r.data@ == octets_of(ip.bits),
            r.prefix == 32,
            r.wf(),
    {
        let mut data: Vec<u8> = Vec::new();
        let b = ip.bits;
        proof {
            assert(b >> 24 <= 0xff && b >> 16 <= 0xffff && b >> 8 <= 0xffffff) by (bit_vector);
        }
        data.push((b >> 24) as u8);
        data.push(#[verifier::truncate] ((b >> 16) as u8));
        data.push(#[verifier::truncate] ((b >> 8) as u8));
        data.push(#[verifier::truncate] (b as u8));
        proof {
            assert(data@ =~= octets_of(ip.bits));
        }
        Addr { family: FAMILY_INET, data, prefix: 32 }
    }

    /// The number of bytes in the address.
    pub fn len(&self) -> (r: u32)
        requires
            self.wf(),
        ensures
            r == self.data@.len(),
    {
        self.data.len() as u32
    }

    /// A copy of the raw address bytes.
    pub fn hw_address(&self) -> (r: Vec<u8>)
        ensures
            r@ == self.data@,
    {
        let mut out: Vec<u8> = Vec::new();
        let mut i: usize = 0;
        while i < self.data.len()
            invariant
                i <= self.data@.len(),
                out@ == self.data@.take(i as int),
            decreases self.data@.len() - i,
        {
            out.push(self.data[i]);
            proof {
                assert(out@ =~= self.data@.take(i + 1));
            }
            i = i + 1;
        }
        proof {
            assert(self.data@.take(i as int) =~= self.data@);
        }
        out
    }

    /// The family tag that says how the raw bytes are to be read.
    pub fn atype(&self) -> (r: Option<i32>)
        ensures
            r == Some(self.family),
    {
        Some(self.family)
    }

    /// The prefix length of the subnet this address is a member of.
    pub fn cidrlen(&self) -> (r: u32)
        ensures
            r == self.prefix,
    {
        self.prefix
    }

    /// Replaces the prefix length.
    pub fn set_cidrlen(&mut self, l: u32)
        requires
            l <= 8 * old(self).data@.len(),
        ensures
            final(self).prefix == l,
            final(self).family == old(self).family,
            final(self).data@ == old(self).data@,
    {
        self.prefix = l;
    }

    /// True when the raw data is exactly the four bytes of an IPv4
    /// value.
    pub fn len_is_four(&self) -> (r: bool)
        ensures
            r == (self.data@.len() == 4),
    {
        self.data.len() == 4
    }

    /// The 32-bit value of a 4-byte address, highest octet first.
    pub fn ipv4_bits(&self) -> (r: u32)
        requires
            self.data@.len() == 4,
        ensures
            r == bits_of(self.data@),
    {
        ((self.data[0] as u32) << 24) | ((self.data[1] as u32) << 16) | ((self.data[2] as u32)
            << 8) | (self.data[3] as u32)
    }

    /// Reads the address back as an IPv4 value. Fails exactly when the
    /// underlying data is not 4 bytes long (for example a 6-byte hardware
    /// address was supplied where an IPv4 address was expected).
    pub fn to_ipv4(&self) -> (r: Result<Ipv4, Error>)
        ensures
            self.data@.len() == 4 ==> r == Ok::<Ipv4, Error>((Ipv4 { bits: bits_of(self.data@) })),
            self.data@.len() != 4 ==> r == Err::<Ipv4, Error>(Error::AddressFamilyMismatch),
    {
        if self.data.len() != 4 {
            return Err(Error::AddressFamilyMismatch);
        }
        let bits: u32 = ((self.data[0] as u32) << 24) | ((self.data[1] as u32) << 16) | ((
        self.data[2] as u32) << 8) | (self.data[3] as u32);
        Ok(Ipv4 { bits })
    }
}

/// An address object attached (or to be attached) to a link: the local
/// address, the broadcast address, the owning link's index, and the
/// prefix length under which the local address is installed.
pub struct RtAddr {
    pub local: Option<Addr>,
    pub broadcast: Option<Addr>,
    pub ifindex: i32,
    pub family: i32,
    pub prefix: u32,
}

impl RtAddr {
    /// A fresh, empty address object to be filled by the setters before
    /// it is submitted to the kernel.
    pub fn new() -> (r: RtAddr)
        ensures
            r.local is None,
            r.broadcast is None,
            r.ifindex == 0,
            r.family == 0,
            r.prefix == 0,
    {
        RtAddr { local: None, broadcast: None, ifindex: 0, family: 0, prefix: 0 }
    }

    /// The local address, when one has been set.
    pub fn local(&self) -> (r: Option<&Addr>)
        ensures
            match r {
                Some(a) => self.local == Some(*a),
                None => self.local is None,
            },
    {
        self.local.as_ref()
    }

    /// The owning link's kernel index.
    pub fn ifindex(&self) -> (r: i32)
        ensures
            r == self.ifindex,
    {
        self.ifindex
    }

    /// The address family, taken from the local address when one is set.
    pub fn family(&self) -> (r: i32)
        ensures
            r == self.family,
    {
        self.family
    }

    /// Sets the local address; the object takes the address's family.
    pub fn set_local(&mut self, a: Addr)
        ensures
            final(self).local == Some(a),
            final(self).family == a.family,
            final(self).broadcast == old(self).broadcast,
            final(self).ifindex == old(self).ifindex,
            final(self).prefix == old(self).prefix,
    {
        self.family = a.family;
        self.local = Some(a);
    }

    /// Sets the broadcast address.
    pub fn set_broadcast(&mut self, a: Addr)
        ensures
            final(self).broadcast == Some(a),
            final(self).local == old(self).local,
            final(self).family == old(self).family,
            final(self).ifindex == old(self).ifindex,
            final(self).prefix == old(self).prefix,
    {
        self.broadcast = Some(a);
    }

    /// Sets the owning link's kernel index.
    pub fn set_ifindex(&mut self, i: i32)
        ensures
            final(self).ifindex == i,
            final(self).local == old(self).local,
            final(self).broadcast == old(self).broadcast,
            final(self).family == old(self).family,
            final(self).prefix == old(self).prefix,
    {
        self.ifindex = i;
    }

    /// Sets the prefix length under which the local address is installed.
    pub fn set_prefixlen(&mut self, l: u32)
        ensures
            final(self).prefix == l,
            final(self).local == old(self).local,
            final(self).broadcast == old(self).broadcast,
            final(self).family == old(self).family,
            final(self).ifindex == old(self).ifindex,
    {
        self.prefix = l;
    }
}

/// The upper-case hexadecimal digit for a value below 16.
pub open spec fn hex_digit(n: u8) -> u8
    recommends
        n < 16,
{
    if n < 10 {
        (48 + n) as u8
    } else {
        (55 + n) as u8
    }
}

/// The colon-separated upper-case hexadecimal text of a 6-byte
/// hardware address, e.g. `0A:1B:2C:3D:4E:5F`.
pub open spec fn mac_text(d: Seq<u8>) -> Seq<u8>
    recommends
        d.len() == 6,
{
    seq![
        hex_digit(d[0] / 16),
        hex_digit(d[0] % 16),
        58u8,
        hex_digit(d[1] / 16),
        hex_digit(d[1] % 16),
        58u8,
        hex_digit(d[2] / 16),
        hex_digit(d[2] % 16),
        58u8,
        hex_digit(d[3] / 16),
        hex_digit(d[3] % 16),
        58u8,
        hex_digit(d[4] / 16),
        hex_digit(d[4] % 16),
        58u8,
        hex_digit(d[5] / 16),
        hex_digit(d[5] % 16),
    ]
}

/// The display text of an address: dotted quad with prefix length for
/// IPv4 (`172.16.0.1/30`), colon-separated hexadecimal for a hardware
/// address.
pub open spec fn addr_display_text(a: Addr) -> Seq<u8>
    recommends
        a.family == FAMILY_INET ==> a.data@.len() == 4,
        a.family != FAMILY_INET ==> a.data@.len() == 6,
{
    if a.family == FAMILY_INET {
        dotted_quad_text(bits_of(a.data@)) + seq![47u8] + dec_digits(a.prefix as nat)
    } else {
        mac_text(a.data@)
    }
}

impl Addr {
    /// Writes the address out for people: dotted quad with prefix
    /// length for IPv4, colon-separated hexadecimal for a 6-byte
    /// hardware address.
    pub fn display_bytes(&self) -> (r: Vec<u8>)
        requires
            self.family == FAMILY_INET ==> self.data@.len() == 4,
            self.family != FAMILY_INET ==> self.data@.len() == 6,
        ensures
            r@ == addr_display_text(*self),
    {
        if self.family == FAMILY_INET {
            let mut out = ipv4_dotted(Ipv4 { bits: self.ipv4_bits() });
            out.push(47);
            crate::text::push_decimal(&mut out, self.prefix);
            proof {
                assert(out@ =~= addr_display_text(*self));
            }
            out
        } else {
            let mut out: Vec<u8> = Vec::new();
            let mut i: usize = 0;
            while i < 6
                invariant
                    i <= 6,
                    self.data@.len() == 6,
                    out@ == mac_text(self.data@).take(if i == 0 {
                        0int
                    } else {
                        3 * i - 1
                    }),
                decreases 6 - i,
            {
                if i > 0 {
                    out.push(58);
                }
                let b = self.data[i];
                out.push(push_hex_hi(b));
                out.push(push_hex_lo(b));
                proof {
                    assert(out@ =~= mac_text(self.data@).take(3 * (i + 1) - 1));
                }
                i = i + 1;
            }
            proof {
                assert(mac_text(self.data@).take(17) =~= mac_text(self.data@));
            }
            out
        }
    }
}

/// The upper-case hexadecimal digit of a byte's high nibble.
fn push_hex_hi(b: u8) -> (r: u8)
    ensures
        r == hex_digit(b / 16),
{
    let n = b / 16;
    if n < 10 {
        48 + n
    } else {
        55 + n
    }
}

/// The upper-case hexadecimal digit of a byte's low nibble.
fn push_hex_lo(b: u8) -> (r: u8)
    ensures
        r == hex_digit(b % 16),
{
    let n = b % 16;
    if n < 10 {
        48 + n
    } else {
        55 + n
    }
}

/// The dotted-quad text of an IPv4 value, e.g. `172.16.0.1`.
pub open spec fn dotted_quad_text(bits: u32) -> Seq<u8> {
    dec_digits((bits >> 24) as nat) + seq![46u8] + dec_digits(((bits >> 16) & 0xff) as nat)
        + seq![46u8] + dec_digits(((bits >> 8) & 0xff) as nat) + seq![46u8] + dec_digits(
        (bits & 0xff) as nat,
    )
}

/// Writes an IPv4 value as dotted-quad text, as the firewall tool and the
/// kernel address parser expect it.
pub fn ipv4_dotted(ip: Ipv4) -> (r: Vec<u8>)
    ensures
        r@ == dotted_quad_text(ip.bits),
{
    let b = ip.bits;
    let mut out: Vec<u8> = Vec::new();
    crate::text::push_decimal(&mut out, b >> 24);
    out.push(46);
    crate::text::push_decimal(&mut out, (b >> 16) & 0xff);
    out.push(46);
    crate::text::push_decimal(&mut out, (b >> 8) & 0xff);
    out.push(46);
    crate::text::push_decimal(&mut out, b & 0xff);
    proof {
        assert(out@ =~= dotted_quad_text(ip.bits));
    }
    out
}

} // verus!
