//! Hardware and internet addresses.

use vstd::prelude::*;

use crate::table::Key;
use crate::net::wire::{be32, lemma_be32_bytes, u32_bytes};

verus! {

/// A 48-bit Ethernet address.
#[derive(Clone, Copy, Debug, Hash)]
pub struct MacAddr(pub [u8; 6]);

impl PartialEq for MacAddr {
    fn eq(&self, other: &MacAddr) -> (r: bool) {
        let r = self.0[0] == other.0[0] && self.0[1] == other.0[1] && self.0[2] == other.0[2]
            && self.0[3] == other.0[3] && self.0[4] == other.0[4] && self.0[5] == other.0[5];
        assert(r ==> self.0 =~= other.0);
        r
    }
}

impl vstd::std_specs::cmp::PartialEqSpecImpl for MacAddr {
    open spec fn obeys_eq_spec() -> bool {
        true
    }

    open spec fn eq_spec(&self, other: &MacAddr) -> bool {
        *self == *other
    }
}

impl Eq for MacAddr {

}

/// Two addresses with the same six bytes are the same address.
pub proof fn lemma_mac_ext(a: MacAddr, b: MacAddr)
    requires
        a.0@ == b.0@,
    ensures
        a == b,
{
    assert forall|i: int| 0 <= i < 6 implies a.0[i] == b.0[i] by {
        assert(a.0@[i] == b.0@[i]);
    }
    assert(a.0 =~= b.0);
}

impl MacAddr {
    /// The all-ones broadcast address.
    pub fn broadcast() -> (r: MacAddr)
        ensures
            r.is_broadcast(),
    {
        let m: [u8; 6] = [0xff, 0xff, 0xff, 0xff, 0xff, 0xff];
        assert(m@ =~= seq![0xffu8, 0xff, 0xff, 0xff, 0xff, 0xff]);
        MacAddr(m)
    }

    /// Whether every bit is set.
    pub open spec fn is_broadcast(&self) -> bool {
        self.0@ == seq![0xffu8, 0xff, 0xff, 0xff, 0xff, 0xff]
    }

    /// The all-zero address.
    pub fn zero() -> (r: MacAddr)
        ensures
            r.0@ == seq![0u8, 0, 0, 0, 0, 0],
    {
        let m: [u8; 6] = [0, 0, 0, 0, 0, 0];
        assert(m@ =~= seq![0u8, 0, 0, 0, 0, 0]);
        MacAddr(m)
    }
}

impl Key for MacAddr {
    fn same(&self, other: &Self) -> (r: bool) {
        *self == *other
    }
}

/// An IPv4 address, held as its 32-bit value.
#[derive(Clone, Copy, Debug, PartialEq, Eq, Structural, Hash, PartialOrd, Ord)]
pub struct Ipv4Addr {
    pub bits: u32,
}

impl Key for Ipv4Addr {
    fn same(&self, other: &Self) -> (r: bool) {
        *self == *other
    }
}

/// The four octets of an address, in network order.
pub open spec fn ip_bytes(ip: Ipv4Addr) -> Seq<u8> {
    u32_bytes(ip.bits)
}

impl Ipv4Addr {
    /// The address written `a.b.c.d`.
    pub fn new(a: u8, b: u8, c: u8, d: u8) -> (r: Ipv4Addr)
        ensures
            r.bits == a * 0x100_0000 + b * 0x1_0000 + c * 0x100 + d,
            ip_bytes(r) == seq![a, b, c, d],
    {
        let bits: u32 = a as u32 * 0x100_0000 + b as u32 * 0x1_0000 + c as u32 * 0x100 + d as u32;
        proof {
            let s = seq![a, b, c, d];
            assert(bits == be32(s, 0));
            lemma_be32_bytes(s, 0);
            assert(s.subrange(0, 4) =~= s);
        }
        Ipv4Addr { bits }
    }

    /// The four octets, in network order.
    pub fn octets(&self) -> (r: [u8; 4])
        ensures
            r@ == ip_bytes(*self),
    {
        let hi: u32 = self.bits / 0x1_0000;
        let lo: u32 = self.bits % 0x1_0000;
        let r: [u8; 4] = [
            (hi / 256) as u8,
            (hi % 256) as u8,
            (lo / 256) as u8,
            (lo % 256) as u8,
        ];
        assert(r@ =~= ip_bytes(*self));
        r
    }

    /// `0.0.0.0`.
    pub fn unspecified() -> (r: Ipv4Addr)
        ensures
            r.bits == 0,
    {
        Ipv4Addr { bits: 0 }
    }

    /// `255.255.255.255`.
    pub fn broadcast() -> (r: Ipv4Addr)
        ensures
            r.bits == 0xFFFF_FFFF,
    {
        Ipv4Addr { bits: 0xFFFF_FFFF }
    }

    /// Whether this is `0.0.0.0`.
    pub fn is_unspecified(&self) -> (r: bool)
        ensures
            r == (self.bits == 0),
    {
        self.bits == 0
    }
}

/// A transport address.
#[derive(Clone, Copy, Debug, PartialEq, Eq, Structural)]
pub enum SocketAddr {
    V4 { ip: Ipv4Addr, port: u16 },
    V6 { ip6: u128, port: u16 },
}

} // verus!
