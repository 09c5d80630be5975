//! Ethernet / ARP / IPv4 / UDP / TCP / ICMP frame views and builders.
//!
//! Views are zero-copy wrappers over `&[u8]` that validate length and basic
//! structure on construction; every parser returns `Option` and is total on
//! truncated or malformed input. Builders return owned `Vec<u8>` with all
//! checksums computed, or `None` when a payload cannot fit the protocol's
//! 16-bit length fields.

use vstd::prelude::*;
use vstd::slice::slice_subrange;

pub use crate::net::addr::{Ipv4Addr, MacAddr};
pub use crate::net::wire::internet_checksum;
use crate::net::addr::ip_bytes;
use crate::net::wire::{
    be16, be32, checksum, checksum_word, ip_at, ipv4_at, lemma_mac_of, mac_at, mac_of, push_bytes, push_mac, push_u16, push_u32, set_u16,
    u16_at, u16_bytes, u32_at, u32_bytes, with_u16, word_at,
};

verus! {

pub const ETHERTYPE_IPV4: u16 = 0x0800;

pub const ETHERTYPE_ARP: u16 = 0x0806;

/// Recognised for completeness; the fabric is IPv4-only.
pub const ETHERTYPE_IPV6: u16 = 0x86DD;

pub const IPPROTO_ICMP: u8 = 1;

pub const IPPROTO_TCP: u8 = 6;

pub const IPPROTO_UDP: u8 = 17;

/// Length of an ethernet header (no 802.1Q tag).
pub const ETH_HEADER_LEN: usize = 14;

pub const TCP_FIN: u8 = 0x01;

pub const TCP_SYN: u8 = 0x02;

pub const TCP_RST: u8 = 0x04;

pub const TCP_PSH: u8 = 0x08;

pub const TCP_ACK: u8 = 0x10;

pub const TCP_URG: u8 = 0x20;

pub const ARP_LEN: usize = 28;

pub const IPV4_MIN_HEADER_LEN: usize = 20;

pub const UDP_HEADER_LEN: usize = 8;

pub const TCP_MIN_HEADER_LEN: usize = 20;

pub const TCP_MAX_OPTIONS_LEN: usize = 40;

pub const ICMP_HEADER_LEN: usize = 8;

pub const ICMP_ECHO_REPLY: u8 = 0;

pub const ICMP_DEST_UNREACHABLE: u8 = 3;

pub const ICMP_ECHO_REQUEST: u8 = 8;

// ---------------------------------------------------------------------------
// Pseudo-header checksum
// ---------------------------------------------------------------------------

/// The IPv4 pseudo-header of a segment of `len` bytes.
pub open spec fn pseudo_header(src: Ipv4Addr, dst: Ipv4Addr, proto: u8, len: u16) -> Seq<u8> {
    ip_bytes(src) + ip_bytes(dst) + seq![0u8, proto] + u16_bytes(len)
}

/// The checksum of `segment` behind its pseudo-header.
pub open spec fn l4_sum(src: Ipv4Addr, dst: Ipv4Addr, proto: u8, segment: Seq<u8>) -> int {
    checksum(pseudo_header(src, dst, proto, segment.len() as u16) + segment)
}

/// Internet checksum over the IPv4 pseudo-header (src, dst, zero, proto,
/// length) followed by the full L4 segment. `None` when the segment cannot
/// fit an IPv4 packet's 16-bit length.
pub fn l4_checksum(src: Ipv4Addr, dst: Ipv4Addr, proto: u8, segment: &[u8]) -> (r: Option<u16>)
    ensures
        r is Some <==> segment@.len() <= 0xFFFF,
        r matches Some(c) ==> c == l4_sum(src, dst, proto, segment@),
{
    if segment.len() > 0xFFFF {
        return None;
    }
    let mut buf: Vec<u8> = Vec::new();
    push_u32(&mut buf, src.bits);
    push_u32(&mut buf, dst.bits);
    buf.push(0);
    buf.push(proto);
    push_u16(&mut buf, segment.len() as u16);
    push_bytes(&mut buf, segment);
    assert(buf@ =~= pseudo_header(src, dst, proto, segment@.len() as u16) + segment@);
    Some(internet_checksum(buf.as_slice()))
}

// ---------------------------------------------------------------------------
// Ethernet
// ---------------------------------------------------------------------------

/// View over an ethernet II frame.
#[derive(Debug, Clone, Copy)]
pub struct EthView<'a> {
    buf: &'a [u8],
}

/// Whether `s` holds an ethernet header.
pub open spec fn eth_wf(s: Seq<u8>) -> bool {
    s.len() >= ETH_HEADER_LEN
}

impl<'a> View for EthView<'a> {
    type V = Seq<u8>;

    /// The bytes of the frame.
    closed spec fn view(&self) -> Seq<u8> {
        self.buf@
    }
}

impl<'a> EthView<'a> {
    #[verifier::type_invariant]
    spec fn valid(self) -> bool {
        eth_wf(self.buf@)
    }

    pub fn parse(buf: &'a [u8]) -> (r: Option<Self>)
        ensures
            r is Some <==> eth_wf(buf@),
            r matches Some(v) ==> v@ == buf@,
    {
        if buf.len() >= ETH_HEADER_LEN {
            Some(EthView { buf })
        } else {
            None
        }
    }

    pub fn dst_mac(&self) -> (r: MacAddr)
        ensures
            r == mac_of(self@, 0),
    {
        proof {
            use_type_invariant(self);
        }
        mac_at(self.buf, 0)
    }

    pub fn src_mac(&self) -> (r: MacAddr)
        ensures
            r == mac_of(self@, 6),
    {
        proof {
            use_type_invariant(self);
        }
        mac_at(self.buf, 6)
    }

    pub fn ethertype(&self) -> (r: u16)
        ensures
            r == be16(self@, 12),
    {
        proof {
            use_type_invariant(self);
        }
        u16_at(self.buf, 12)
    }

    pub fn payload(&self) -> (r: &'a [u8])
        ensures
            r@ == self@.skip(14),
    {
        proof {
            use_type_invariant(self);
        }
        let r = slice_subrange(self.buf, ETH_HEADER_LEN, self.buf.len());
        assert(r@ =~= self@.skip(14));
        r
    }
}

/// The bytes of an ethernet II frame.
pub open spec fn eth_bytes(dst: Seq<u8>, src: Seq<u8>, ethertype: u16, payload: Seq<u8>) -> Seq<
    u8,
> {
    dst + src + u16_bytes(ethertype) + payload
}

/// Build an ethernet II frame.
pub fn eth_build(dst: MacAddr, src: MacAddr, ethertype: u16, payload: &[u8]) -> (r: Vec<u8>)
    ensures
        r@ == eth_bytes(dst.0@, src.0@, ethertype, payload@),
{
    let mut f: Vec<u8> = Vec::new();
    push_mac(&mut f, dst);
    push_mac(&mut f, src);
    push_u16(&mut f, ethertype);
    push_bytes(&mut f, payload);
    assert(f@ =~= eth_bytes(dst.0@, src.0@, ethertype, payload@));
    f
}

/// Parsing a built frame gives back its fields and its payload.
pub proof fn eth_round_trip(dst: MacAddr, src: MacAddr, ethertype: u16, payload: Seq<u8>)
    ensures
        ({
            let f = eth_bytes(dst.0@, src.0@, ethertype, payload);
            &&& eth_wf(f)
            &&& mac_of(f, 0) == dst
            &&& mac_of(f, 6) == src
            &&& be16(f, 12) == ethertype
            &&& f.skip(14) == payload
        }),
{
    let f = eth_bytes(dst.0@, src.0@, ethertype, payload);
    assert(f.subrange(0, 6) =~= dst.0@);
    assert(f.subrange(6, 12) =~= src.0@);
    assert(f.skip(14) =~= payload);
    lemma_mac_of(f, 0, dst);
    lemma_mac_of(f, 6, src);
}

// ---------------------------------------------------------------------------
// ARP (IPv4 over ethernet only)
// ---------------------------------------------------------------------------

#[derive(Debug, Clone, Copy, PartialEq, Eq, Structural)]
pub enum ArpOp {
    Request,
    Reply,
}

/// View over an ARP packet (the ethernet payload) for IPv4-over-ethernet:
/// htype 1, ptype 0x0800, hlen 6, plen 4. Anything else fails to parse.
#[derive(Debug, Clone, Copy)]
pub struct ArpView<'a> {
    buf: &'a [u8],
}

/// Whether `s` holds an IPv4-over-ethernet ARP request or reply.
pub open spec fn arp_wf(s: Seq<u8>) -> bool {
    &&& s.len() >= ARP_LEN
    &&& be16(s, 0) == 1
    &&& be16(s, 2) == ETHERTYPE_IPV4
    &&& s[4] == 6
    &&& s[5] == 4
    &&& (be16(s, 6) == 1 || be16(s, 6) == 2)
}

impl<'a> View for ArpView<'a> {
    type V = Seq<u8>;

    /// The bytes of the packet.
    closed spec fn view(&self) -> Seq<u8> {
        self.buf@
    }
}

impl<'a> ArpView<'a> {
    #[verifier::type_invariant]
    spec fn valid(self) -> bool {
        arp_wf(self.buf@)
    }

    pub fn parse(buf: &'a [u8]) -> (r: Option<Self>)
        ensures
            r is Some <==> arp_wf(buf@),
            r matches Some(v) ==> v@ == buf@,
    {
        if buf.len() < ARP_LEN {
            return None;
        }
        if u16_at(buf, 0) != 1 || u16_at(buf, 2) != ETHERTYPE_IPV4 || buf[4] != 6 || buf[5] != 4 {
            return None;
        }
        let op: u16 = u16_at(buf, 6);
        if op != 1 && op != 2 {
            return None;
        }
        Some(ArpView { buf })
    }

    pub fn op(&self) -> (r: ArpOp)
        ensures
            r == (if be16(self@, 6) == 1 {
                ArpOp::Request
            } else {
                ArpOp::Reply
            }),
    {
        proof {
            use_type_invariant(self);
        }
        if u16_at(self.buf, 6) == 1 {
            ArpOp::Request
        } else {
            ArpOp::Reply
        }
    }

    /// Sender hardware address.
    pub fn sha(&self) -> (r: MacAddr)
        ensures
            r == mac_of(self@, 8),
    {
        proof {
            use_type_invariant(self);
        }
        mac_at(self.buf, 8)
    }

    /// Sender protocol address.
    pub fn spa(&self) -> (r: Ipv4Addr)
        ensures
            r.bits == be32(self@, 14),
    {
        proof {
            use_type_invariant(self);
        }
        ipv4_at(self.buf, 14)
    }

    /// Target hardware address.
    pub fn tha(&self) -> (r: MacAddr)
        ensures
            r == mac_of(self@, 18),
    {
        proof {
            use_type_invariant(self);
        }
        mac_at(self.buf, 18)
    }

    /// Target protocol address.
    pub fn tpa(&self) -> (r: Ipv4Addr)
        ensures
            r.bits == be32(self@, 24),
    {
        proof {
            use_type_invariant(self);
        }
        ipv4_at(self.buf, 24)
    }
}

/// The bytes of an ARP packet.
pub open spec fn arp_bytes(
    op: u16,
    sha: Seq<u8>,
    spa: Ipv4Addr,
    tha: Seq<u8>,
    tpa: Ipv4Addr,
) -> Seq<u8> {
    u16_bytes(1) + u16_bytes(ETHERTYPE_IPV4) + seq![6u8, 4u8] + u16_bytes(op) + sha + ip_bytes(spa)
        + tha + ip_bytes(tpa)
}

fn arp_build(op: u16, sha: MacAddr, spa: Ipv4Addr, tha: MacAddr, tpa: Ipv4Addr) -> (r: Vec<u8>)
    ensures
        r@ == arp_bytes(op, sha.0@, spa, tha.0@, tpa),
{
    let mut p: Vec<u8> = Vec::new();
    push_u16(&mut p, 1);
    push_u16(&mut p, ETHERTYPE_IPV4);
    p.push(6);
    p.push(4);
    push_u16(&mut p, op);
    push_mac(&mut p, sha);
    push_u32(&mut p, spa.bits);
    push_mac(&mut p, tha);
    push_u32(&mut p, tpa.bits);
    assert(p@ =~= arp_bytes(op, sha.0@, spa, tha.0@, tpa));
    p
}

/// Build a complete ethernet frame carrying an ARP request (who-has `tpa`),
/// broadcast at L2.
pub fn arp_request_build(sha: MacAddr, spa: Ipv4Addr, tpa: Ipv4Addr) -> (r: Vec<u8>)
    ensures
        r@ == eth_bytes(
            seq![0xffu8, 0xff, 0xff, 0xff, 0xff, 0xff],
            sha.0@,
            ETHERTYPE_ARP,
            arp_bytes(1, sha.0@, spa, seq![0u8, 0, 0, 0, 0, 0], tpa),
        ),
{
    let none = MacAddr::zero();
    let arp = arp_build(1, sha, spa, none, tpa);
    eth_build(MacAddr::broadcast(), sha, ETHERTYPE_ARP, arp.as_slice())
}

/// Build a complete ethernet frame carrying an ARP reply (`spa` is-at `sha`),
/// unicast to `tha`.
pub fn arp_reply_build(sha: MacAddr, spa: Ipv4Addr, tha: MacAddr, tpa: Ipv4Addr) -> (r: Vec<u8>)
    ensures
        r@ == eth_bytes(
            tha.0@,
            sha.0@,
            ETHERTYPE_ARP,
            arp_bytes(2, sha.0@, spa, tha.0@, tpa),
        ),
{
    let arp = arp_build(2, sha, spa, tha, tpa);
    eth_build(tha, sha, ETHERTYPE_ARP, arp.as_slice())
}

/// Parsing a built ARP packet gives back its fields.
pub proof fn arp_round_trip(
    op: u16,
    sha: MacAddr,
    spa: Ipv4Addr,
    tha: MacAddr,
    tpa: Ipv4Addr,
)
    requires
        op == 1 || op == 2,
    ensures
        ({
            let p = arp_bytes(op, sha.0@, spa, tha.0@, tpa);
            &&& arp_wf(p)
            &&& be16(p, 6) == op
            &&& mac_of(p, 8) == sha
            &&& be32(p, 14) == spa.bits
            &&& mac_of(p, 18) == tha
            &&& be32(p, 24) == tpa.bits
        }),
{
    let p = arp_bytes(op, sha.0@, spa, tha.0@, tpa);
    assert(p.subrange(8, 14) =~= sha.0@);
    assert(p.subrange(18, 24) =~= tha.0@);
    lemma_mac_of(p, 8, sha);
    lemma_mac_of(p, 18, tha);
    assert(p.subrange(14, 18) =~= ip_bytes(spa));
    assert(p.subrange(24, 28) =~= ip_bytes(tpa));
    lemma_be32_at(p, 14, spa.bits);
    lemma_be32_at(p, 24, tpa.bits);
}

/// A 32-bit word is read back from where its bytes stand.
pub(crate) proof fn lemma_be32_at(p: Seq<u8>, off: int, v: u32)
    requires
        0 <= off,
        off + 4 <= p.len(),
        p.subrange(off, off + 4) == u32_bytes(v),
    ensures
        be32(p, off) == v,
{
    let s = p.subrange(off, off + 4);
    assert(s[0] == p[off] && s[1] == p[off + 1] && s[2] == p[off + 2] && s[3] == p[off + 3]);
    crate::net::wire::lemma_u32_round_trip(v);
    assert(be32(s, 0) == be32(p, off));
}

// ---------------------------------------------------------------------------
// IPv4
// ---------------------------------------------------------------------------

/// View over an IPv4 packet (the ethernet payload). Handles header options
/// (IHL > 5) and trailing buffer padding (ethernet minimum-frame padding):
/// `payload()` honours both the header length and `total_len`.
#[derive(Debug, Clone, Copy)]
pub struct Ipv4View<'a> {
    buf: &'a [u8],
}

/// The header length that the first byte of an IPv4 packet announces.
pub open spec fn ipv4_header_len(s: Seq<u8>) -> int {
    (s[0] % 16) * 4
}

/// Whether `s` starts with a version 4 packet whose header and total length
/// lie within it.
pub open spec fn ipv4_wf(s: Seq<u8>) -> bool {
    &&& s.len() >= IPV4_MIN_HEADER_LEN
    &&& s[0] / 16 == 4
    &&& IPV4_MIN_HEADER_LEN <= ipv4_header_len(s) <= s.len()
    &&& ipv4_header_len(s) <= be16(s, 2) <= s.len()
}

/// The L4 payload of an IPv4 packet.
pub open spec fn ipv4_payload(s: Seq<u8>) -> Seq<u8> {
    s.subrange(ipv4_header_len(s), be16(s, 2))
}

impl<'a> View for Ipv4View<'a> {
    type V = Seq<u8>;

    /// The bytes of the packet, padding included.
    closed spec fn view(&self) -> Seq<u8> {
        self.buf@
    }
}

impl<'a> Ipv4View<'a> {
    #[verifier::type_invariant]
    spec fn valid(self) -> bool {
        ipv4_wf(self.buf@)
    }

    pub fn parse(buf: &'a [u8]) -> (r: Option<Self>)
        ensures
            r is Some <==> ipv4_wf(buf@),
            r matches Some(v) ==> v@ == buf@,
    {
        if buf.len() < IPV4_MIN_HEADER_LEN {
            return None;
        }
        if buf[0] / 16 != 4 {
            return None;
        }
        let header_len: usize = (buf[0] % 16) as usize * 4;
        if header_len < IPV4_MIN_HEADER_LEN || header_len > buf.len() {
            return None;
        }
        let total_len: usize = u16_at(buf, 2) as usize;
        if total_len < header_len || total_len > buf.len() {
            return None;
        }
        Some(Ipv4View { buf })
    }

    pub fn version(&self) -> (r: u8)
        ensures
            r == self@[0] / 16,
    {
        proof {
            use_type_invariant(self);
        }
        self.buf[0] / 16
    }

    pub fn ihl(&self) -> (r: u8)
        ensures
            r == self@[0] % 16,
    {
        proof {
            use_type_invariant(self);
        }
        self.buf[0] % 16
    }

    pub fn header_len(&self) -> (r: usize)
        ensures
            r == ipv4_header_len(self@),
    {
        self.ihl() as usize * 4
    }

    pub fn total_len(&self) -> (r: u16)
        ensures
            r == be16(self@, 2),
    {
        proof {
            use_type_invariant(self);
        }
        u16_at(self.buf, 2)
    }

    pub fn id(&self) -> (r: u16)
        ensures
            r == be16(self@, 4),
    {
        proof {
            use_type_invariant(self);
        }
        u16_at(self.buf, 4)
    }

    /// The three flag bits (reserved, DF, MF).
    pub fn flags(&self) -> (r: u8)
        ensures
            r == self@[6] / 32,
    {
        proof {
            use_type_invariant(self);
        }
        self.buf[6] / 32
    }

    pub fn dont_fragment(&self) -> (r: bool)
        ensures
            r == (self@[6] / 32 / 2 % 2 == 1),
    {
        self.flags() / 2 % 2 == 1
    }

    pub fn more_fragments(&self) -> (r: bool)
        ensures
            r == (self@[6] / 32 % 2 == 1),
    {
        self.flags() % 2 == 1
    }

    /// Fragment offset in 8-byte units.
    pub fn frag_offset(&self) -> (r: u16)
        ensures
            r == be16(self@, 6) % 0x2000,
    {
        proof {
            use_type_invariant(self);
        }
        u16_at(self.buf, 6) % 0x2000
    }

    pub fn ttl(&self) -> (r: u8)
        ensures
            r == self@[8],
    {
        proof {
            use_type_invariant(self);
        }
        self.buf[8]
    }

    pub fn proto(&self) -> (r: u8)
        ensures
            r == self@[9],
    {
        proof {
            use_type_invariant(self);
        }
        self.buf[9]
    }

    pub fn header_checksum(&self) -> (r: u16)
        ensures
            r == be16(self@, 10),
    {
        proof {
            use_type_invariant(self);
        }
        u16_at(self.buf, 10)
    }

    pub fn src(&self) -> (r: Ipv4Addr)
        ensures
            r.bits == be32(self@, 12),
    {
        proof {
            use_type_invariant(self);
        }
        ipv4_at(self.buf, 12)
    }

    pub fn dst(&self) -> (r: Ipv4Addr)
        ensures
            r.bits == be32(self@, 16),
    {
        proof {
            use_type_invariant(self);
        }
        ipv4_at(self.buf, 16)
    }

    /// Header options (empty when IHL == 5).
    pub fn options(&self) -> (r: &'a [u8])
        ensures
            r@ == self@.subrange(20, ipv4_header_len(self@)),
    {
        proof {
            use_type_invariant(self);
        }
        slice_subrange(self.buf, IPV4_MIN_HEADER_LEN, self.header_len())
    }

    /// L4 payload, bounded by `total_len` (ignores ethernet padding).
    pub fn payload(&self) -> (r: &'a [u8])
        ensures
            r@ == ipv4_payload(self@),
    {
        proof {
            use_type_invariant(self);
        }
        slice_subrange(self.buf, self.header_len(), self.total_len() as usize)
    }

    /// Verify the header checksum.
    pub fn checksum_valid(&self) -> (r: bool)
        ensures
            r == ipv4_checksum_valid(self@),
    {
        proof {
            use_type_invariant(self);
        }
        let h = slice_subrange(self.buf, 0, self.header_len());
        assert(h@ =~= self@.take(ipv4_header_len(self@)));
        internet_checksum(h) == 0
    }
}

/// Whether the header checksum of a packet is right.
pub open spec fn ipv4_checksum_valid(s: Seq<u8>) -> bool {
    checksum(s.take(ipv4_header_len(s))) == 0
}

/// An option-less IPv4 header with a zero checksum field.
pub open spec fn ipv4_raw_header(
    src: Ipv4Addr,
    dst: Ipv4Addr,
    proto: u8,
    ttl: u8,
    total_len: u16,
    id: u16,
) -> Seq<u8> {
    seq![0x45u8, 0u8] + u16_bytes(total_len) + u16_bytes(id) + seq![0u8, 0u8, ttl, proto, 0u8, 0u8]
        + ip_bytes(src) + ip_bytes(dst)
}

/// The bytes of an option-less IPv4 packet with its checksum filled in.
pub open spec fn ipv4_bytes(
    src: Ipv4Addr,
    dst: Ipv4Addr,
    proto: u8,
    ttl: u8,
    payload: Seq<u8>,
    id: u16,
) -> Seq<u8> {
    let raw = ipv4_raw_header(src, dst, proto, ttl, (20 + payload.len()) as u16, id);
    with_u16(raw, 10, checksum_word(raw)) + payload
}

/// Build an IPv4 packet (no options, IHL 5) with the header checksum
/// computed. Flags and fragment offset are zero. `None` when the packet would
/// not fit its 16-bit length.
pub fn ipv4_build(
    src: Ipv4Addr,
    dst: Ipv4Addr,
    proto: u8,
    ttl: u8,
    payload: &[u8],
    id: u16,
) -> (r: Option<Vec<u8>>)
    ensures
        r is Some <==> 20 + payload@.len() <= 0xFFFF,
        r matches Some(p) ==> p@ == ipv4_bytes(src, dst, proto, ttl, payload@, id),
{
    if payload.len() > 0xFFFF - IPV4_MIN_HEADER_LEN {
        return None;
    }
    let total_len: u16 = (IPV4_MIN_HEADER_LEN + payload.len()) as u16;
    let mut p: Vec<u8> = Vec::new();
    p.push(0x45);
    p.push(0);
    push_u16(&mut p, total_len);
    push_u16(&mut p, id);
    p.push(0);
    p.push(0);
    p.push(ttl);
    p.push(proto);
    p.push(0);
    p.push(0);
    push_u32(&mut p, src.bits);
    push_u32(&mut p, dst.bits);
    assert(p@ =~= ipv4_raw_header(src, dst, proto, ttl, total_len, id));
    let csum: u16 = internet_checksum(p.as_slice());
    set_u16(&mut p, 10, csum);
    push_bytes(&mut p, payload);
    Some(p)
}

/// Parsing a built packet gives back its fields and its payload, and its
/// header checksum verifies.
pub proof fn ipv4_round_trip(
    src: Ipv4Addr,
    dst: Ipv4Addr,
    proto: u8,
    ttl: u8,
    payload: Seq<u8>,
    id: u16,
)
    requires
        20 + payload.len() <= 0xFFFF,
    ensures
        ({
            let p = ipv4_bytes(src, dst, proto, ttl, payload, id);
            &&& ipv4_wf(p)
            &&& ipv4_header_len(p) == 20
            &&& be16(p, 2) == 20 + payload.len()
            &&& be16(p, 4) == id
            &&& be16(p, 6) == 0
            &&& p[8] == ttl
            &&& p[9] == proto
            &&& be32(p, 12) == src.bits
            &&& be32(p, 16) == dst.bits
            &&& ipv4_payload(p) == payload
            &&& ipv4_checksum_valid(p)
        }),
{
    let raw = ipv4_raw_header(src, dst, proto, ttl, (20 + payload.len()) as u16, id);
    let head = with_u16(raw, 10, checksum_word(raw));
    let p = ipv4_bytes(src, dst, proto, ttl, payload, id);
    assert(raw.len() == 20);
    assert(p.subrange(12, 16) =~= ip_bytes(src));
    assert(p.subrange(16, 20) =~= ip_bytes(dst));
    lemma_be32_at(p, 12, src.bits);
    lemma_be32_at(p, 16, dst.bits);
    assert(p[0] == 0x45);
    assert(p.take(20) =~= head);
    assert(p.subrange(20, 20 + payload.len() as int) =~= payload);
    crate::net::wire::checksum_fill_verifies(raw, 10);
}

// ---------------------------------------------------------------------------
// UDP
// ---------------------------------------------------------------------------

/// View over a UDP datagram (the IPv4 payload).
#[derive(Debug, Clone, Copy)]
pub struct UdpView<'a> {
    buf: &'a [u8],
}

/// Whether `s` starts with a UDP datagram that lies within it.
pub open spec fn udp_wf(s: Seq<u8>) -> bool {
    s.len() >= UDP_HEADER_LEN && UDP_HEADER_LEN <= be16(s, 4) <= s.len()
}

/// The payload of a UDP datagram.
pub open spec fn udp_payload(s: Seq<u8>) -> Seq<u8> {
    s.subrange(8, be16(s, 4))
}

/// Whether a datagram's checksum is right, or was left out by its sender.
pub open spec fn udp_checksum_valid(s: Seq<u8>, src: Ipv4Addr, dst: Ipv4Addr) -> bool {
    be16(s, 6) == 0 || l4_sum(src, dst, IPPROTO_UDP, s.take(be16(s, 4))) == 0
}

impl<'a> View for UdpView<'a> {
    type V = Seq<u8>;

    /// The bytes of the datagram, trailing bytes included.
    closed spec fn view(&self) -> Seq<u8> {
        self.buf@
    }
}

impl<'a> UdpView<'a> {
    #[verifier::type_invariant]
    spec fn valid(self) -> bool {
        udp_wf(self.buf@)
    }

    pub fn parse(buf: &'a [u8]) -> (r: Option<Self>)
        ensures
            r is Some <==> udp_wf(buf@),
            r matches Some(v) ==> v@ == buf@,
    {
        if buf.len() < UDP_HEADER_LEN {
            return None;
        }
        let len: usize = u16_at(buf, 4) as usize;
        if len < UDP_HEADER_LEN || len > buf.len() {
            return None;
        }
        Some(UdpView { buf })
    }

    pub fn src_port(&self) -> (r: u16)
        ensures
            r == be16(self@, 0),
    {
        proof {
            use_type_invariant(self);
        }
        u16_at(self.buf, 0)
    }

    pub fn dst_port(&self) -> (r: u16)
        ensures
            r == be16(self@, 2),
    {
        proof {
            use_type_invariant(self);
        }
        u16_at(self.buf, 2)
    }

    /// The UDP length field (header + payload).
    pub fn len(&self) -> (r: u16)
        ensures
            r == be16(self@, 4),
    {
        proof {
            use_type_invariant(self);
        }
        u16_at(self.buf, 4)
    }

    pub fn is_empty(&self) -> (r: bool)
        ensures
            r == (be16(self@, 4) == 8),
    {
        self.len() as usize == UDP_HEADER_LEN
    }

    pub fn checksum(&self) -> (r: u16)
        ensures
            r == be16(self@, 6),
    {
        proof {
            use_type_invariant(self);
        }
        u16_at(self.buf, 6)
    }

    pub fn payload(&self) -> (r: &'a [u8])
        ensures
            r@ == udp_payload(self@),
    {
        proof {
            use_type_invariant(self);
        }
        slice_subrange(self.buf, UDP_HEADER_LEN, self.len() as usize)
    }

    /// Verify the checksum against the IPv4 pseudo-header. A zero checksum
    /// (transmitter opted out, legal on IPv4) is accepted.
    pub fn checksum_valid(&self, src: Ipv4Addr, dst: Ipv4Addr) -> (r: bool)
        ensures
            r == udp_checksum_valid(self@, src, dst),
    {
        proof {
            use_type_invariant(self);
        }
        if self.checksum() == 0 {
            return true;
        }
        let d = slice_subrange(self.buf, 0, self.len() as usize);
        assert(d@ =~= self@.take(be16(self@, 4)));
        match l4_checksum(src, dst, IPPROTO_UDP, d) {
            Some(c) => c == 0,
            None => false,
        }
    }
}

/// A UDP datagram with a zero checksum field.
pub open spec fn udp_raw(src_port: u16, dst_port: u16, payload: Seq<u8>) -> Seq<u8> {
    u16_bytes(src_port) + u16_bytes(dst_port) + u16_bytes((8 + payload.len()) as u16) + seq![
        0u8,
        0u8,
    ] + payload
}

/// The checksum that a datagram is sent with: a computed zero becomes all
/// ones, since zero means that there is none.
pub open spec fn udp_sent_checksum(src_ip: Ipv4Addr, dst_ip: Ipv4Addr, raw: Seq<u8>) -> u16 {
    let c = l4_sum(src_ip, dst_ip, IPPROTO_UDP, raw);
    if c == 0 {
        0xFFFF
    } else {
        c as u16
    }
}

/// The bytes of a UDP datagram with its checksum filled in.
pub open spec fn udp_bytes(
    src_ip: Ipv4Addr,
    dst_ip: Ipv4Addr,
    src_port: u16,
    dst_port: u16,
    payload: Seq<u8>,
) -> Seq<u8> {
    let raw = udp_raw(src_port, dst_port, payload);
    with_u16(raw, 6, udp_sent_checksum(src_ip, dst_ip, raw))
}

/// Build a UDP datagram with the pseudo-header checksum computed (a computed
/// checksum of zero is transmitted as 0xFFFF per RFC 768). `None` when the
/// datagram would not fit its 16-bit length.
pub fn udp_build(
    src_ip: Ipv4Addr,
    dst_ip: Ipv4Addr,
    src_port: u16,
    dst_port: u16,
    payload: &[u8],
) -> (r: Option<Vec<u8>>)
    ensures
        r is Some <==> 8 + payload@.len() <= 0xFFFF,
        r matches Some(p) ==> p@ == udp_bytes(src_ip, dst_ip, src_port, dst_port, payload@),
{
    if payload.len() > 0xFFFF - UDP_HEADER_LEN {
        return None;
    }
    let len: u16 = (UDP_HEADER_LEN + payload.len()) as u16;
    let mut p: Vec<u8> = Vec::new();
    push_u16(&mut p, src_port);
    push_u16(&mut p, dst_port);
    push_u16(&mut p, len);
    p.push(0);
    p.push(0);
    push_bytes(&mut p, payload);
    assert(p@ =~= udp_raw(src_port, dst_port, payload@));
    match l4_checksum(src_ip, dst_ip, IPPROTO_UDP, p.as_slice()) {
        None => None,
        Some(c) => {
            let csum: u16 = if c == 0 {
                0xFFFF
            } else {
                c
            };
            set_u16(&mut p, 6, csum);
            Some(p)
        },
    }
}

/// Filling a 16-bit field of a segment commutes with prefixing it.
pub(crate) proof fn lemma_prefix_with_u16(head: Seq<u8>, s: Seq<u8>, off: int, x: u16)
    requires
        0 <= off,
        off + 2 <= s.len(),
    ensures
        head + with_u16(s, off, x) == with_u16(head + s, head.len() + off, x),
{
    assert(head + with_u16(s, off, x) =~= with_u16(head + s, head.len() + off, x));
}

/// Parsing a built datagram gives back its fields and its payload, and its
/// checksum verifies against the addresses it was built for.
pub proof fn udp_round_trip(
    src_ip: Ipv4Addr,
    dst_ip: Ipv4Addr,
    src_port: u16,
    dst_port: u16,
    payload: Seq<u8>,
)
    requires
        8 + payload.len() <= 0xFFFF,
    ensures
        ({
            let p = udp_bytes(src_ip, dst_ip, src_port, dst_port, payload);
            &&& udp_wf(p)
            &&& be16(p, 0) == src_port
            &&& be16(p, 2) == dst_port
            &&& be16(p, 4) == 8 + payload.len()
            &&& be16(p, 6) != 0
            &&& udp_payload(p) == payload
            &&& udp_checksum_valid(p, src_ip, dst_ip)
        }),
{
    let raw = udp_raw(src_port, dst_port, payload);
    let c = udp_sent_checksum(src_ip, dst_ip, raw);
    let p = udp_bytes(src_ip, dst_ip, src_port, dst_port, payload);
    let head = pseudo_header(src_ip, dst_ip, IPPROTO_UDP, raw.len() as u16);
    assert(p.len() == raw.len());
    assert(p.subrange(8, 8 + payload.len() as int) =~= payload);
    assert(p.take(8 + payload.len() as int) =~= p);
    lemma_prefix_with_u16(head, raw, 6, c);
    assert(head.len() == 12);
    assert((head + raw)[18] == raw[6] && (head + raw)[19] == raw[7]);
    crate::net::wire::checksum_fill_verifies(head + raw, 18);
    if checksum(head + raw) == 0 {
        crate::net::wire::checksum_fill_nonzero_verifies(head + raw, 18);
    }
    assert(be16(p, 6) == c);
}

// ---------------------------------------------------------------------------
// TCP
// ---------------------------------------------------------------------------

/// View over a TCP segment (the IPv4 payload).
#[derive(Debug, Clone, Copy)]
pub struct TcpView<'a> {
    buf: &'a [u8],
}

/// The header length that a TCP segment announces.
pub open spec fn tcp_header_len(s: Seq<u8>) -> int {
    s[12] / 16 * 4
}

/// Whether `s` holds a TCP header with its options.
pub open spec fn tcp_wf(s: Seq<u8>) -> bool {
    s.len() >= TCP_MIN_HEADER_LEN && TCP_MIN_HEADER_LEN <= tcp_header_len(s) <= s.len()
}

impl<'a> View for TcpView<'a> {
    type V = Seq<u8>;

    /// The bytes of the segment.
    closed spec fn view(&self) -> Seq<u8> {
        self.buf@
    }
}

impl<'a> TcpView<'a> {
    #[verifier::type_invariant]
    spec fn valid(self) -> bool {
        tcp_wf(self.buf@)
    }

    pub fn parse(buf: &'a [u8]) -> (r: Option<Self>)
        ensures
            r is Some <==> tcp_wf(buf@),
            r matches Some(v) ==> v@ == buf@,
    {
        if buf.len() < TCP_MIN_HEADER_LEN {
            return None;
        }
        let data_offset: usize = (buf[12] / 16) as usize * 4;
        if data_offset < TCP_MIN_HEADER_LEN || data_offset > buf.len() {
            return None;
        }
        Some(TcpView { buf })
    }

    pub fn src_port(&self) -> (r: u16)
        ensures
            r == be16(self@, 0),
    {
        proof {
            use_type_invariant(self);
        }
        u16_at(self.buf, 0)
    }

    pub fn dst_port(&self) -> (r: u16)
        ensures
            r == be16(self@, 2),
    {
        proof {
            use_type_invariant(self);
        }
        u16_at(self.buf, 2)
    }

    pub fn seq(&self) -> (r: u32)
        ensures
            r == be32(self@, 4),
    {
        proof {
            use_type_invariant(self);
        }
        u32_at(self.buf, 4)
    }

    pub fn ack(&self) -> (r: u32)
        ensures
            r == be32(self@, 8),
    {
        proof {
            use_type_invariant(self);
        }
        u32_at(self.buf, 8)
    }

    pub fn data_offset(&self) -> (r: usize)
        ensures
            r == tcp_header_len(self@),
    {
        proof {
            use_type_invariant(self);
        }
        (self.buf[12] / 16) as usize * 4
    }

    /// Raw flag byte (CWR/ECE bits included).
    pub fn flags(&self) -> (r: u8)
        ensures
            r == self@[13],
    {
        proof {
            use_type_invariant(self);
        }
        self.buf[13]
    }

    pub fn is_fin(&self) -> (r: bool)
        ensures
            r == (self@[13] & TCP_FIN != 0),
    {
        self.flags() & TCP_FIN != 0
    }

    pub fn is_syn(&self) -> (r: bool)
        ensures
            r == (self@[13] & TCP_SYN != 0),
    {
        self.flags() & TCP_SYN != 0
    }

    pub fn is_rst(&self) -> (r: bool)
        ensures
            r == (self@[13] & TCP_RST != 0),
    {
        self.flags() & TCP_RST != 0
    }

    pub fn is_psh(&self) -> (r: bool)
        ensures
            r == (self@[13] & TCP_PSH != 0),
    {
        self.flags() & TCP_PSH != 0
    }

    pub fn is_ack(&self) -> (r: bool)
        ensures
            r == (self@[13] & TCP_ACK != 0),
    {
        self.flags() & TCP_ACK != 0
    }

    pub fn is_urg(&self) -> (r: bool)
        ensures
            r == (self@[13] & TCP_URG != 0),
    {
        self.flags() & TCP_URG != 0
    }

    pub fn window(&self) -> (r: u16)
        ensures
            r == be16(self@, 14),
    {
        proof {
            use_type_invariant(self);
        }
        u16_at(self.buf, 14)
    }

    pub fn checksum(&self) -> (r: u16)
        ensures
            r == be16(self@, 16),
    {
        proof {
            use_type_invariant(self);
        }
        u16_at(self.buf, 16)
    }

    /// Options bytes (empty when data offset == 5 words).
    pub fn options(&self) -> (r: &'a [u8])
        ensures
            r@ == self@.subrange(20, tcp_header_len(self@)),
    {
        proof {
            use_type_invariant(self);
        }
        slice_subrange(self.buf, TCP_MIN_HEADER_LEN, self.data_offset())
    }

    pub fn payload(&self) -> (r: &'a [u8])
        ensures
            r@ == self@.skip(tcp_header_len(self@)),
    {
        proof {
            use_type_invariant(self);
        }
        let r = slice_subrange(self.buf, self.data_offset(), self.buf.len());
        assert(r@ =~= self@.skip(tcp_header_len(self@)));
        r
    }

    /// Verify the checksum against the IPv4 pseudo-header.
    pub fn checksum_valid(&self, src: Ipv4Addr, dst: Ipv4Addr) -> (r: bool)
        ensures
            r == tcp_checksum_valid(self@, src, dst),
    {
        match l4_checksum(src, dst, IPPROTO_TCP, self.buf) {
            Some(c) => c == 0,
            None => false,
        }
    }
}

/// Whether a segment's checksum is right for the addresses it travels between.
pub open spec fn tcp_checksum_valid(s: Seq<u8>, src: Ipv4Addr, dst: Ipv4Addr) -> bool {
    s.len() <= 0xFFFF && l4_sum(src, dst, IPPROTO_TCP, s) == 0
}

/// Header fields for [`tcp_build`].
#[derive(Debug, Clone, Copy)]
pub struct TcpFields<'a> {
    pub src_port: u16,
    pub dst_port: u16,
    pub seq: u32,
    pub ack: u32,
    /// Flag bits ([`TCP_SYN`] | [`TCP_ACK`] | ...).
    pub flags: u8,
    pub window: u16,
    /// Raw options; padded with zero (end-of-options) to a 4-byte boundary,
    /// truncated past 40 bytes.
    pub options: &'a [u8],
}

/// The options as they are sent: cut to 40 bytes, then padded with zeros to a
/// 4-byte boundary.
pub open spec fn tcp_sent_options(options: Seq<u8>) -> Seq<u8> {
    let cut = if options.len() <= TCP_MAX_OPTIONS_LEN {
        options
    } else {
        options.take(TCP_MAX_OPTIONS_LEN as int)
    };
    cut + Seq::new(((4 - cut.len() % 4) % 4) as nat, |i: int| 0u8)
}

/// The contents of the fields of a TCP header.
pub ghost struct TcpHead {
    pub src_port: u16,
    pub dst_port: u16,
    pub seq: u32,
    pub ack: u32,
    pub flags: u8,
    pub window: u16,
    pub options: Seq<u8>,
}

impl<'a> View for TcpFields<'a> {
    type V = TcpHead;

    open spec fn view(&self) -> TcpHead {
        TcpHead {
            src_port: self.src_port,
            dst_port: self.dst_port,
            seq: self.seq,
            ack: self.ack,
            flags: self.flags,
            window: self.window,
            options: self.options@,
        }
    }
}

/// A TCP segment with a zero checksum field.
pub open spec fn tcp_raw(fields: TcpHead, payload: Seq<u8>) -> Seq<u8> {
    let opts = tcp_sent_options(fields.options);
    u16_bytes(fields.src_port) + u16_bytes(fields.dst_port) + u32_bytes(fields.seq) + u32_bytes(
        fields.ack,
    ) + seq![((20 + opts.len()) / 4 * 16) as u8, fields.flags] + u16_bytes(fields.window) + seq![
        0u8,
        0u8,
        0u8,
        0u8,
    ] + opts + payload
}

/// The bytes of a TCP segment with its checksum filled in.
pub open spec fn tcp_bytes(
    src_ip: Ipv4Addr,
    dst_ip: Ipv4Addr,
    fields: TcpHead,
    payload: Seq<u8>,
) -> Seq<u8> {
    let raw = tcp_raw(fields, payload);
    with_u16(raw, 16, l4_sum(src_ip, dst_ip, IPPROTO_TCP, raw) as u16)
}

/// Build a TCP segment with the pseudo-header checksum computed. `None` when
/// the segment would not fit an IPv4 packet's 16-bit length.
pub fn tcp_build(
    src_ip: Ipv4Addr,
    dst_ip: Ipv4Addr,
    fields: TcpFields<'_>,
    payload: &[u8],
) -> (r: Option<Vec<u8>>)
    ensures
        r is Some <==> 20 + tcp_sent_options(fields.options@).len() + payload@.len() <= 0xFFFF,
        r matches Some(p) ==> p@ == tcp_bytes(src_ip, dst_ip, fields@, payload@),
{
    let cut: usize = if fields.options.len() <= TCP_MAX_OPTIONS_LEN {
        fields.options.len()
    } else {
        TCP_MAX_OPTIONS_LEN
    };
    let opts = slice_subrange(fields.options, 0, cut);
    let opts_padded: usize = (cut + 3) / 4 * 4;
    let header_len: usize = TCP_MIN_HEADER_LEN + opts_padded;
    let ghost sent = tcp_sent_options(fields.options@);
    assert(opts@ =~= (if fields.options@.len() <= TCP_MAX_OPTIONS_LEN {
        fields.options@
    } else {
        fields.options@.take(TCP_MAX_OPTIONS_LEN as int)
    }));
    assert(sent.len() == opts_padded);
    let mut p: Vec<u8> = Vec::new();
    push_u16(&mut p, fields.src_port);
    push_u16(&mut p, fields.dst_port);
    push_u32(&mut p, fields.seq);
    push_u32(&mut p, fields.ack);
    p.push((header_len / 4 * 16) as u8);
    p.push(fields.flags);
    push_u16(&mut p, fields.window);
    p.push(0);
    p.push(0);
    p.push(0);
    p.push(0);
    let ghost fixed = p@;
    assert(fixed.len() == 20);
    push_bytes(&mut p, opts);
    while p.len() < header_len
        invariant
            fixed.len() == 20,
            cut == opts@.len(),
            cut <= 40,
            opts_padded == (cut + 3) / 4 * 4,
            header_len == 20 + opts_padded,
            20 + cut <= p@.len() <= header_len,
            p@ == fixed + opts@ + Seq::new((p@.len() - 20 - cut) as nat, |i: int| 0u8),
        decreases header_len - p@.len(),
    {
        p.push(0);
        assert(p@ =~= fixed + opts@ + Seq::new((p@.len() - 20 - cut) as nat, |i: int| 0u8));
    }
    assert(p@ =~= fixed + sent);
    push_bytes(&mut p, payload);
    assert(p@ =~= tcp_raw(fields@, payload@));
    match l4_checksum(src_ip, dst_ip, IPPROTO_TCP, p.as_slice()) {
        None => None,
        Some(csum) => {
            set_u16(&mut p, 16, csum);
            Some(p)
        },
    }
}

/// Parsing a built segment gives back its fields, its options and its
/// payload, and its checksum verifies against the addresses it was built for.
pub proof fn tcp_round_trip(
    src_ip: Ipv4Addr,
    dst_ip: Ipv4Addr,
    fields: TcpHead,
    payload: Seq<u8>,
)
    requires
        20 + tcp_sent_options(fields.options).len() + payload.len() <= 0xFFFF,
    ensures
        ({
            let p = tcp_bytes(src_ip, dst_ip, fields, payload);
            let opts = tcp_sent_options(fields.options);
            &&& tcp_wf(p)
            &&& be16(p, 0) == fields.src_port
            &&& be16(p, 2) == fields.dst_port
            &&& be32(p, 4) == fields.seq
            &&& be32(p, 8) == fields.ack
            &&& tcp_header_len(p) == 20 + opts.len()
            &&& p[13] == fields.flags
            &&& be16(p, 14) == fields.window
            &&& p.subrange(20, tcp_header_len(p)) == opts
            &&& p.skip(tcp_header_len(p)) == payload
            &&& tcp_checksum_valid(p, src_ip, dst_ip)
        }),
{
    let opts = tcp_sent_options(fields.options);
    let raw = tcp_raw(fields, payload);
    let p = tcp_bytes(src_ip, dst_ip, fields, payload);
    let head = pseudo_header(src_ip, dst_ip, IPPROTO_TCP, raw.len() as u16);
    assert(opts.len() % 4 == 0 && opts.len() <= 40);
    assert(raw.len() == 20 + opts.len() + payload.len());
    assert(p.subrange(4, 8) =~= u32_bytes(fields.seq));
    assert(p.subrange(8, 12) =~= u32_bytes(fields.ack));
    lemma_be32_at(p, 4, fields.seq);
    lemma_be32_at(p, 8, fields.ack);
    assert(p[12] == (20 + opts.len()) / 4 * 16);
    assert(p.subrange(20, 20 + opts.len() as int) =~= opts);
    assert(p.skip(20 + opts.len() as int) =~= payload);
    assert(head.len() == 12);
    assert((head + raw)[28] == raw[16] && (head + raw)[29] == raw[17]);
    lemma_prefix_with_u16(head, raw, 16, l4_sum(src_ip, dst_ip, IPPROTO_TCP, raw) as u16);
    crate::net::wire::checksum_fill_verifies(head + raw, 28);
}

/// Exchanging source and destination leaves a segment's checksum as it was.
pub proof fn l4_sum_symmetric(src: Ipv4Addr, dst: Ipv4Addr, proto: u8, segment: Seq<u8>)
    ensures
        l4_sum(src, dst, proto, segment) == l4_sum(dst, src, proto, segment),
{
    let tail = seq![0u8, proto] + u16_bytes(segment.len() as u16) + segment;
    let a = pseudo_header(src, dst, proto, segment.len() as u16) + segment;
    let b = pseudo_header(dst, src, proto, segment.len() as u16) + segment;
    assert(a =~= ip_bytes(src) + (ip_bytes(dst) + tail));
    assert(b =~= ip_bytes(dst) + (ip_bytes(src) + tail));
    crate::net::wire::lemma_word_sum_concat(ip_bytes(src), ip_bytes(dst) + tail);
    crate::net::wire::lemma_word_sum_concat(ip_bytes(dst), tail);
    crate::net::wire::lemma_word_sum_concat(ip_bytes(dst), ip_bytes(src) + tail);
    crate::net::wire::lemma_word_sum_concat(ip_bytes(src), tail);
}

// ---------------------------------------------------------------------------
// ICMP
// ---------------------------------------------------------------------------

/// View over an ICMP message (the IPv4 payload).
#[derive(Debug, Clone, Copy)]
pub struct IcmpView<'a> {
    buf: &'a [u8],
}

/// Whether `s` holds an ICMP header.
pub open spec fn icmp_wf(s: Seq<u8>) -> bool {
    s.len() >= ICMP_HEADER_LEN
}

impl<'a> View for IcmpView<'a> {
    type V = Seq<u8>;

    /// The bytes of the message.
    closed spec fn view(&self) -> Seq<u8> {
        self.buf@
    }
}

impl<'a> IcmpView<'a> {
    #[verifier::type_invariant]
    spec fn valid(self) -> bool {
        icmp_wf(self.buf@)
    }

    pub fn parse(buf: &'a [u8]) -> (r: Option<Self>)
        ensures
            r is Some <==> icmp_wf(buf@),
            r matches Some(v) ==> v@ == buf@,
    {
        if buf.len() >= ICMP_HEADER_LEN {
            Some(IcmpView { buf })
        } else {
            None
        }
    }

    pub fn icmp_type(&self) -> (r: u8)
        ensures
            r == self@[0],
    {
        proof {
            use_type_invariant(self);
        }
        self.buf[0]
    }

    pub fn code(&self) -> (r: u8)
        ensures
            r == self@[1],
    {
        proof {
            use_type_invariant(self);
        }
        self.buf[1]
    }

    pub fn checksum(&self) -> (r: u16)
        ensures
            r == be16(self@, 2),
    {
        proof {
            use_type_invariant(self);
        }
        u16_at(self.buf, 2)
    }

    /// The 4 "rest of header" bytes (identifier/sequence for echo, unused for
    /// unreachable, ...).
    pub fn rest(&self) -> (r: [u8; 4])
        ensures
            r@ == self@.subrange(4, 8),
    {
        proof {
            use_type_invariant(self);
        }
        let r: [u8; 4] = [self.buf[4], self.buf[5], self.buf[6], self.buf[7]];
        assert(r@ =~= self@.subrange(4, 8));
        r
    }

    pub fn payload(&self) -> (r: &'a [u8])
        ensures
            r@ == self@.skip(8),
    {
        proof {
            use_type_invariant(self);
        }
        let r = slice_subrange(self.buf, ICMP_HEADER_LEN, self.buf.len());
        assert(r@ =~= self@.skip(8));
        r
    }

    /// Verify the checksum (over the whole ICMP message).
    pub fn checksum_valid(&self) -> (r: bool)
        ensures
            r == (checksum(self@) == 0),
    {
        internet_checksum(self.buf) == 0
    }
}

/// An ICMP message with a zero checksum field.
pub open spec fn icmp_raw(icmp_type: u8, code: u8, rest: Seq<u8>, payload: Seq<u8>) -> Seq<u8> {
    seq![icmp_type, code, 0u8, 0u8] + rest + payload
}

/// The bytes of an ICMP message with its checksum filled in.
pub open spec fn icmp_bytes(icmp_type: u8, code: u8, rest: Seq<u8>, payload: Seq<u8>) -> Seq<u8> {
    let raw = icmp_raw(icmp_type, code, rest, payload);
    with_u16(raw, 2, checksum_word(raw))
}

/// Build an ICMP message with the checksum computed.
pub fn icmp_build(icmp_type: u8, code: u8, rest: [u8; 4], payload: &[u8]) -> (r: Vec<u8>)
    ensures
        r@ == icmp_bytes(icmp_type, code, rest@, payload@),
{
    let mut p: Vec<u8> = Vec::new();
    p.push(icmp_type);
    p.push(code);
    p.push(0);
    p.push(0);
    p.push(rest[0]);
    p.push(rest[1]);
    p.push(rest[2]);
    p.push(rest[3]);
    push_bytes(&mut p, payload);
    assert(p@ =~= icmp_raw(icmp_type, code, rest@, payload@));
    let csum: u16 = internet_checksum(p.as_slice());
    set_u16(&mut p, 2, csum);
    p
}

/// Parsing a built message gives back its fields and its payload, and its
/// checksum verifies.
pub proof fn icmp_round_trip(icmp_type: u8, code: u8, rest: Seq<u8>, payload: Seq<u8>)
    requires
        rest.len() == 4,
    ensures
        ({
            let m = icmp_bytes(icmp_type, code, rest, payload);
            &&& icmp_wf(m)
            &&& m[0] == icmp_type
            &&& m[1] == code
            &&& m.subrange(4, 8) == rest
            &&& m.skip(8) == payload
            &&& checksum(m) == 0
        }),
{
    let raw = icmp_raw(icmp_type, code, rest, payload);
    let m = icmp_bytes(icmp_type, code, rest, payload);
    assert(m.subrange(4, 8) =~= rest);
    assert(m.skip(8) =~= payload);
    crate::net::wire::checksum_fill_verifies(raw, 2);
}

/// Whether an IPv4 packet carries an ICMP echo request.
pub open spec fn is_echo_request(p: Seq<u8>) -> bool {
    &&& ipv4_wf(p)
    &&& p[9] == IPPROTO_ICMP
    &&& icmp_wf(ipv4_payload(p))
    &&& ipv4_payload(p)[0] == ICMP_ECHO_REQUEST
    &&& ipv4_payload(p)[1] == 0
}

/// The answer to an echo request: addresses exchanged, identifier, sequence
/// number and data echoed.
pub open spec fn echo_reply_bytes(p: Seq<u8>) -> Seq<u8> {
    let m = ipv4_payload(p);
    ipv4_bytes(
        ip_at(p, 16),
        ip_at(p, 12),
        IPPROTO_ICMP,
        64,
        icmp_bytes(ICMP_ECHO_REPLY, 0, m.subrange(4, 8), m.skip(8)),
        word_at(p, 4),
    )
}

/// Given a full IPv4 packet containing an ICMP echo request, build the full
/// IPv4 echo-reply packet (src/dst swapped, identifier/sequence and payload
/// echoed). Returns `None` if the input is not a well-formed echo request.
pub fn icmp_echo_reply_for(request_ipv4_packet: &[u8]) -> (r: Option<Vec<u8>>)
    ensures
        r is Some <==> is_echo_request(request_ipv4_packet@),
        r matches Some(p) ==> p@ == echo_reply_bytes(request_ipv4_packet@),
{
    let ip = match Ipv4View::parse(request_ipv4_packet) {
        Some(ip) => ip,
        None => return None,
    };
    if ip.proto() != IPPROTO_ICMP {
        return None;
    }
    let icmp = match IcmpView::parse(ip.payload()) {
        Some(icmp) => icmp,
        None => return None,
    };
    if icmp.icmp_type() != ICMP_ECHO_REQUEST || icmp.code() != 0 {
        return None;
    }
    let reply = icmp_build(ICMP_ECHO_REPLY, 0, icmp.rest(), icmp.payload());
    ipv4_build(ip.dst(), ip.src(), IPPROTO_ICMP, 64, reply.as_slice(), ip.id())
}

/// How much of an undeliverable packet is quoted back: its header and the
/// first eight bytes behind it, or what there is of them.
pub open spec fn unreachable_quote_len(original: Seq<u8>) -> int {
    let want = if ipv4_wf(original) {
        ipv4_header_len(original) + 8
    } else {
        28
    };
    if want <= original.len() {
        want
    } else {
        original.len() as int
    }
}

/// Build an ICMP destination-unreachable message (type 3, the given code)
/// quoting the original packet's IP header plus the first 8 payload bytes,
/// per RFC 792. The return value is the ICMP message (an IPv4 *payload*);
/// the caller wraps it in its own IPv4 packet. Tolerates truncated input by
/// quoting whatever is available.
pub fn icmp_unreachable_for(original_ipv4: &[u8], code: u8) -> (r: Vec<u8>)
    ensures
        r@ == icmp_bytes(
            ICMP_DEST_UNREACHABLE,
            code,
            seq![0u8, 0, 0, 0],
            original_ipv4@.take(unreachable_quote_len(original_ipv4@)),
        ),
{
    let want: usize = match Ipv4View::parse(original_ipv4) {
        Some(ip) => ip.header_len() + 8,
        None => 28,
    };
    let quote_len: usize = if want <= original_ipv4.len() {
        want
    } else {
        original_ipv4.len()
    };
    let quote = slice_subrange(original_ipv4, 0, quote_len);
    assert(quote@ =~= original_ipv4@.take(unreachable_quote_len(original_ipv4@)));
    let rest: [u8; 4] = [0, 0, 0, 0];
    assert(rest@ =~= seq![0u8, 0, 0, 0]);
    icmp_build(ICMP_DEST_UNREACHABLE, code, rest, quote)
}

/// The reply to an echo request is a valid packet from the pinged address
/// back to the sender, with the request's identifier, sequence and data.
pub proof fn echo_reply_answers(p: Seq<u8>)
    requires
        is_echo_request(p),
    ensures
        ({
            let r = echo_reply_bytes(p);
            &&& ipv4_wf(r)
            &&& ipv4_checksum_valid(r)
            &&& be32(r, 12) == be32(p, 16)
            &&& be32(r, 16) == be32(p, 12)
            &&& ipv4_payload(r)[0] == ICMP_ECHO_REPLY
            &&& ipv4_payload(r).skip(4) == ipv4_payload(p).skip(4)
            &&& checksum(ipv4_payload(r)) == 0
        }),
{
    let m = ipv4_payload(p);
    let reply = icmp_bytes(ICMP_ECHO_REPLY, 0, m.subrange(4, 8), m.skip(8));
    icmp_round_trip(ICMP_ECHO_REPLY, 0, m.subrange(4, 8), m.skip(8));
    assert(reply.len() == m.len());
    crate::net::wire::lemma_be32_bytes(p, 12);
    crate::net::wire::lemma_be32_bytes(p, 16);
    ipv4_round_trip(
        ip_at(p, 16),
        ip_at(p, 12),
        IPPROTO_ICMP,
        64,
        reply,
        word_at(p, 4),
    );
    assert(reply.skip(4) =~= m.skip(4)) by {
        assert(reply.subrange(4, 8) == m.subrange(4, 8));
        assert(reply.skip(8) == m.skip(8));
        assert forall|i: int| 0 <= i < m.len() - 4 implies reply.skip(4)[i] == m.skip(4)[i] by {
            if i < 4 {
                assert(reply.subrange(4, 8)[i] == m.subrange(4, 8)[i]);
            } else {
                assert(reply.skip(8)[i - 4] == m.skip(8)[i - 4]);
            }
        }
    }
}

} // verus!
