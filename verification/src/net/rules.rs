//! L3 filter / redirect rule engine.
//!
//! Pure, synchronous rule evaluation, called for every guest-originated IPv4
//! packet. Two rule layers:
//!
//! - **redirect** (DNAT): traffic to `X[:port]` is rewritten to `Y[:port]`.
//!   A NAT-style translation entry is recorded so [`RuleSet::eval_return`]
//!   can rewrite replies from the redirect target back to the original
//!   destination. Entries expire after 5 minutes idle.
//! - **block**: drop, answering with a TCP RST (correct seq/ack so the guest
//!   fails fast) or an ICMP unreachable for UDP/other protocols.
//!
//! Redirect rules are consulted before block rules: a packet matching both is
//! redirected, not dropped. Within a layer the most specific match wins:
//!
//! - redirects: `ip:port` beats `ip` (port-less);
//! - blocks: longest prefix first, then a rule with a port beats one
//!   without, then a rule with a protocol beats one without.
//!
//! Remaining ties are broken by insertion (declaration) order.
//!
//! Reply packets synthesized for blocks are sourced from the *blocked
//! destination address* (the host the guest believed it was talking to).
//!
//! Forward-direction translation is purely rule-driven: removing a redirect
//! immediately stops new rewrites, while established return-path entries
//! linger until they idle out.
//!
//! Times are milliseconds of a monotonic clock, handed in by the caller.

use vstd::prelude::*;
use vstd::slice::{slice_subrange, slice_to_vec};
use vstd::string::*;

use crate::config::model::{BlockRule, HostPort, L4Proto, RedirectRule};
use crate::net::addr::{ip_bytes, Ipv4Addr};
use crate::net::cidr::{ip_text, net_text};
use crate::net::frame::{
    icmp_bytes, icmp_unreachable_for, icmp_wf, ipv4_build, ipv4_bytes, ipv4_checksum_valid,
    ipv4_header_len, ipv4_payload, ipv4_wf, l4_checksum, l4_sum, tcp_build, tcp_bytes,
    tcp_checksum_valid, tcp_wf, udp_checksum_valid, udp_sent_checksum, udp_wf,
    unreachable_quote_len, IcmpView, Ipv4View, TcpFields, TcpHead, TcpView, UdpView,
    ICMP_DEST_UNREACHABLE, ICMP_ECHO_REPLY, ICMP_ECHO_REQUEST, IPPROTO_ICMP, IPPROTO_TCP,
    IPPROTO_UDP, TCP_ACK, TCP_FIN, TCP_RST, TCP_SYN,
};
use crate::net::wire::{
    be16, be32, checksum, checksum_word, internet_checksum, ip_at, set_ip, set_u16, u16_at,
    with_bytes, with_u16, word_at,
};
use crate::table::{kept, Keep, Key, Table};
use crate::text::{decimal, decimal_string, joined};

verus! {

/// Idle expiry for redirect translation (return-path) entries, in
/// milliseconds.
pub const CONN_IDLE_MS: u64 = 300_000;

/// Opaque handle to an installed rule.
#[derive(Debug, Clone, Copy, PartialEq, Eq, Structural, Hash, PartialOrd, Ord)]
pub struct RuleId(pub u64);

/// Which layer a rule belongs to.
#[derive(Debug, Clone, Copy, PartialEq, Eq, Structural)]
pub enum RuleKind {
    Redirect,
    Block,
}

/// Verdict of [`RuleSet::eval`] / [`RuleSet::eval_return`] for one packet.
#[derive(Debug, Clone, PartialEq, Eq)]
pub enum Verdict {
    /// Forward unchanged.
    Pass,
    /// Drop the packet; `reply` (when present) is a full IPv4 packet to send
    /// back toward the source (TCP RST or ICMP unreachable).
    Drop { reply: Option<Vec<u8>> },
    /// Forward the rewritten (DNAT'd / un-DNAT'd) IPv4 packet instead.
    Rewrite(Vec<u8>),
}

/// What a [`Verdict`] says.
pub ghost enum VerdictView {
    Pass,
    Drop(Option<Seq<u8>>),
    Rewrite(Seq<u8>),
}

impl View for Verdict {
    type V = VerdictView;

    open spec fn view(&self) -> VerdictView {
        match *self {
            Verdict::Pass => VerdictView::Pass,
            Verdict::Drop { reply } => VerdictView::Drop(
                match reply {
                    Some(p) => Some(p@),
                    None => None,
                },
            ),
            Verdict::Rewrite(p) => VerdictView::Rewrite(p@),
        }
    }
}

/// Display entry for a rule listing.
#[derive(Debug, Clone)]
pub struct RuleEntry {
    pub id: RuleId,
    pub kind: RuleKind,
    /// One-line human description.
    pub description: String,
    /// Block: matched CIDR.
    pub cidr: Option<String>,
    /// Block: matched destination port.
    pub port: Option<u16>,
    /// Redirect: original destination `ip[:port]`.
    pub from: Option<String>,
    /// Redirect: rewrite target `ip[:port]`.
    pub to: Option<String>,
    /// Protocol filter (both kinds).
    pub proto: Option<L4Proto>,
}

/// The contents of an optional string.
pub open spec fn opt_text(s: Option<String>) -> Option<Seq<char>> {
    match s {
        Some(t) => Some(t@),
        None => None,
    }
}

/// What a [`RuleEntry`] says.
pub ghost struct RuleEntryView {
    pub id: RuleId,
    pub kind: RuleKind,
    pub description: Seq<char>,
    pub cidr: Option<Seq<char>>,
    pub port: Option<u16>,
    pub from: Option<Seq<char>>,
    pub to: Option<Seq<char>>,
    pub proto: Option<L4Proto>,
}

impl View for RuleEntry {
    type V = RuleEntryView;

    open spec fn view(&self) -> RuleEntryView {
        RuleEntryView {
            id: self.id,
            kind: self.kind,
            description: self.description@,
            cidr: opt_text(self.cidr),
            port: self.port,
            from: opt_text(self.from),
            to: opt_text(self.to),
            proto: self.proto,
        }
    }
}

// ---------------------------------------------------------------------------
// Packet metadata
// ---------------------------------------------------------------------------

/// The transport of a packet.
pub open spec fn packet_l4(p: Seq<u8>) -> Option<L4Proto> {
    if p[9] == IPPROTO_TCP {
        Some(L4Proto::Tcp)
    } else if p[9] == IPPROTO_UDP {
        Some(L4Proto::Udp)
    } else if p[9] == IPPROTO_ICMP {
        Some(L4Proto::Icmp)
    } else {
        None
    }
}

/// Whether the payload of a packet has ports that can be read.
pub open spec fn has_ports(p: Seq<u8>) -> bool {
    ||| p[9] == IPPROTO_TCP && tcp_wf(ipv4_payload(p))
    ||| p[9] == IPPROTO_UDP && udp_wf(ipv4_payload(p))
}

/// The destination port of a TCP or UDP packet.
pub open spec fn packet_dst_port(p: Seq<u8>) -> Option<u16> {
    if has_ports(p) {
        Some(word_at(ipv4_payload(p), 2))
    } else {
        None
    }
}

/// The port pair by which a packet's conversation is told apart. An ICMP echo
/// request counts as coming from its identifier, a reply as going to it.
pub open spec fn packet_conn(p: Seq<u8>) -> Option<(u16, u16)> {
    let pl = ipv4_payload(p);
    if has_ports(p) {
        Some((word_at(pl, 0), word_at(pl, 2)))
    } else if p[9] == IPPROTO_ICMP && icmp_wf(pl) && pl[0] == ICMP_ECHO_REQUEST {
        Some((word_at(pl, 4), 0))
    } else if p[9] == IPPROTO_ICMP && icmp_wf(pl) && pl[0] == ICMP_ECHO_REPLY {
        Some((0, word_at(pl, 4)))
    } else {
        None
    }
}

struct Meta {
    l4: Option<L4Proto>,
    /// Destination port for TCP/UDP (rule matching).
    dst_port: Option<u16>,
    /// (sport, dport) used for connection tracking.
    conn_ports: Option<(u16, u16)>,
}

impl Meta {
    spec fn is_of(&self, p: Seq<u8>) -> bool {
        &&& self.l4 == packet_l4(p)
        &&& self.dst_port == packet_dst_port(p)
        &&& self.conn_ports == packet_conn(p)
    }

    fn of(ip: &Ipv4View<'_>) -> (r: Meta)
        ensures
            r.is_of(ip@),
    {
        let proto: u8 = ip.proto();
        if proto == IPPROTO_TCP {
            match TcpView::parse(ip.payload()) {
                Some(t) => Meta {
                    l4: Some(L4Proto::Tcp),
                    dst_port: Some(t.dst_port()),
                    conn_ports: Some((t.src_port(), t.dst_port())),
                },
                None => Meta { l4: Some(L4Proto::Tcp), dst_port: None, conn_ports: None },
            }
        } else if proto == IPPROTO_UDP {
            match UdpView::parse(ip.payload()) {
                Some(u) => Meta {
                    l4: Some(L4Proto::Udp),
                    dst_port: Some(u.dst_port()),
                    conn_ports: Some((u.src_port(), u.dst_port())),
                },
                None => Meta { l4: Some(L4Proto::Udp), dst_port: None, conn_ports: None },
            }
        } else if proto == IPPROTO_ICMP {
            let conn_ports = match IcmpView::parse(ip.payload()) {
                Some(m) => {
                    let id: u16 = u16_at(&m.rest(), 0);
                    proof {
                        let pl = ipv4_payload(ip@);
                        assert(pl.subrange(4, 8)[0] == pl[4]);
                        assert(pl.subrange(4, 8)[1] == pl[5]);
                    }
                    if m.icmp_type() == ICMP_ECHO_REQUEST {
                        Some((id, 0))
                    } else if m.icmp_type() == ICMP_ECHO_REPLY {
                        Some((0, id))
                    } else {
                        None
                    }
                },
                None => None,
            };
            Meta { l4: Some(L4Proto::Icmp), dst_port: None, conn_ports }
        } else {
            Meta { l4: None, dst_port: None, conn_ports: None }
        }
    }
}

// ---------------------------------------------------------------------------
// Packet rewriting
// ---------------------------------------------------------------------------

/// A new address and, where the transport has ports, a new port.
pub type Endpoint = Option<(Ipv4Addr, Option<u16>)>;

/// `s` with the address at `off` replaced where `to` names one.
pub open spec fn readdressed(s: Seq<u8>, off: int, to: Endpoint) -> Seq<u8> {
    match to {
        Some((ip, _)) => with_bytes(s, off, ip_bytes(ip)),
        None => s,
    }
}

/// `s` with the port at `off` replaced where `to` names one.
pub open spec fn reported(s: Seq<u8>, off: int, to: Endpoint) -> Seq<u8> {
    match to {
        Some((_, Some(port))) => with_u16(s, off, port),
        _ => s,
    }
}

/// The packet with its addresses and ports replaced, checksums not yet right.
pub open spec fn with_endpoints(p: Seq<u8>, new_src: Endpoint, new_dst: Endpoint) -> Seq<u8> {
    let hl = ipv4_header_len(p);
    let a = readdressed(readdressed(p.take(be16(p, 2)), 12, new_src), 16, new_dst);
    if (p[9] == IPPROTO_TCP || p[9] == IPPROTO_UDP) && be16(p, 2) >= hl + 4 {
        reported(reported(a, hl, new_src), hl + 2, new_dst)
    } else {
        a
    }
}

/// The packet `d` with its transport checksum recomputed. A datagram that
/// opted out of checksums (field zero) stays opted out.
pub open spec fn with_l4_checksum(d: Seq<u8>, hl: int) -> Seq<u8> {
    if d[9] == IPPROTO_TCP && d.len() >= hl + 18 {
        let z = with_u16(d, hl + 16, 0);
        with_u16(
            z,
            hl + 16,
            l4_sum(ip_at(d, 12), ip_at(d, 16), IPPROTO_TCP, z.skip(hl)) as u16,
        )
    } else if d[9] == IPPROTO_UDP && d.len() >= hl + 8 && be16(d, hl + 6) != 0 {
        let z = with_u16(d, hl + 6, 0);
        with_u16(z, hl + 6, udp_sent_checksum(ip_at(d, 12), ip_at(d, 16), z.skip(hl)))
    } else {
        d
    }
}

/// The packet `e` with its header checksum recomputed.
pub open spec fn with_header_checksum(e: Seq<u8>, hl: int) -> Seq<u8> {
    let z = with_u16(e, 10, 0);
    with_u16(z, 10, checksum_word(z.take(hl)))
}

/// The packet `p` sent from and to other endpoints: clipped to its total
/// length, addresses and ports replaced, all checksums recomputed.
pub open spec fn rewritten(p: Seq<u8>, new_src: Endpoint, new_dst: Endpoint) -> Seq<u8> {
    let hl = ipv4_header_len(p);
    with_header_checksum(with_l4_checksum(with_endpoints(p, new_src, new_dst), hl), hl)
}

fn set_l4_checksum(out: &mut Vec<u8>, hl: usize)
    requires
        20 <= hl <= old(out)@.len() <= 0xFFFF,
    ensures
        final(out)@ == with_l4_checksum(old(out)@, hl as int),
{
    let proto: u8 = out[9];
    let src = crate::net::wire::ipv4_at(out.as_slice(), 12);
    let dst = crate::net::wire::ipv4_at(out.as_slice(), 16);
    if proto == IPPROTO_TCP && out.len() >= hl + 18 {
        set_u16(out, hl + 16, 0);
        let seg = slice_subrange(out.as_slice(), hl, out.len());
        assert(seg@ =~= out@.skip(hl as int));
        if let Some(c) = l4_checksum(src, dst, IPPROTO_TCP, seg) {
            set_u16(out, hl + 16, c);
        }
    } else if proto == IPPROTO_UDP && out.len() >= hl + 8 && u16_at(out.as_slice(), hl + 6) != 0 {
        set_u16(out, hl + 6, 0);
        let seg = slice_subrange(out.as_slice(), hl, out.len());
        assert(seg@ =~= out@.skip(hl as int));
        if let Some(c) = l4_checksum(src, dst, IPPROTO_UDP, seg) {
            let sent: u16 = if c == 0 {
                0xFFFF
            } else {
                c
            };
            set_u16(out, hl + 6, sent);
        }
    }
}

fn set_header_checksum(out: &mut Vec<u8>, hl: usize)
    requires
        20 <= hl <= old(out)@.len(),
    ensures
        final(out)@ == with_header_checksum(old(out)@, hl as int),
{
    set_u16(out, 10, 0);
    let head = slice_subrange(out.as_slice(), 0, hl);
    assert(head@ =~= out@.take(hl as int));
    let c: u16 = internet_checksum(head);
    set_u16(out, 10, c);
}

fn set_endpoints(pkt: &[u8], ip: &Ipv4View<'_>, new_src: Endpoint, new_dst: Endpoint) -> (out: Vec<
    u8,
>)
    requires
        ip@ == pkt@,
        ipv4_wf(pkt@),
    ensures
        out@ == with_endpoints(pkt@, new_src, new_dst),
        out@.len() == be16(pkt@, 2),
{
    let total: usize = ip.total_len() as usize;
    let hl: usize = ip.header_len();
    let proto: u8 = ip.proto();
    let mut out: Vec<u8> = slice_to_vec(slice_subrange(pkt, 0, total));
    assert(out@ =~= pkt@.take(be16(pkt@, 2)));
    if let Some((a, _)) = new_src {
        set_ip(&mut out, 12, a);
    }
    if let Some((a, _)) = new_dst {
        set_ip(&mut out, 16, a);
    }
    if (proto == IPPROTO_TCP || proto == IPPROTO_UDP) && out.len() >= hl + 4 {
        if let Some((_, Some(port))) = new_src {
            set_u16(&mut out, hl, port);
        }
        if let Some((_, Some(port))) = new_dst {
            set_u16(&mut out, hl + 2, port);
        }
    }
    out
}

/// Rewrite source and/or destination (ip, optional port) of an IPv4 packet,
/// recomputing the IP header checksum and the TCP/UDP checksum (over the new
/// pseudo-header). ICMP checksums do not cover the IP addresses, so they are
/// left untouched. The result is clipped to `total_len` (ethernet padding
/// shed).
fn rewrite_packet(pkt: &[u8], ip: &Ipv4View<'_>, new_src: Endpoint, new_dst: Endpoint) -> (out: Vec<
    u8,
>)
    requires
        ip@ == pkt@,
        ipv4_wf(pkt@),
    ensures
        out@ == rewritten(pkt@, new_src, new_dst),
{
    let hl: usize = ip.header_len();
    let mut out = set_endpoints(pkt, ip, new_src, new_dst);
    set_l4_checksum(&mut out, hl);
    set_header_checksum(&mut out, hl);
    out
}

proof fn lemma_endpoints(p: Seq<u8>, new_src: Endpoint, new_dst: Endpoint)
    requires
        ipv4_wf(p),
    ensures
        ({
            let e = with_endpoints(p, new_src, new_dst);
            let hl = ipv4_header_len(p);
            &&& e.len() == be16(p, 2)
            &&& forall|i: int|
                0 <= i < 12 || 20 <= i < hl || hl + 4 <= i < e.len() ==> #[trigger] e[i] == p[i]
            &&& be32(e, 12) == (match new_src {
                Some((ip, _)) => ip.bits as int,
                None => be32(p, 12),
            })
            &&& be32(e, 16) == (match new_dst {
                Some((ip, _)) => ip.bits as int,
                None => be32(p, 16),
            })
            &&& has_ports(p) ==> be16(e, hl) == (match new_src {
                Some((_, Some(port))) => port as int,
                _ => be16(p, hl),
            })
            &&& has_ports(p) ==> be16(e, hl + 2) == (match new_dst {
                Some((_, Some(port))) => port as int,
                _ => be16(p, hl + 2),
            })
            &&& !has_ports(p) && p[9] != IPPROTO_TCP && p[9] != IPPROTO_UDP ==> forall|i: int|
                hl <= i < e.len() ==> #[trigger] e[i] == p[i]
        }),
{
    let e = with_endpoints(p, new_src, new_dst);
    let hl = ipv4_header_len(p);
    let t = p.take(be16(p, 2));
    let a1 = readdressed(t, 12, new_src);
    let a = readdressed(a1, 16, new_dst);
    if let Some((ip, _)) = new_src {
        assert(a1.subrange(12, 16) =~= ip_bytes(ip));
        crate::net::frame::lemma_be32_at(a1, 12, ip.bits);
    }
    assert(be32(a, 12) == be32(a1, 12));
    if let Some((ip, _)) = new_dst {
        assert(a.subrange(16, 20) =~= ip_bytes(ip));
        crate::net::frame::lemma_be32_at(a, 16, ip.bits);
    }
    assert(be32(e, 12) == be32(a, 12));
    assert(be32(e, 16) == be32(a, 16));
    if has_ports(p) {
        assert(ipv4_payload(p).len() == be16(p, 2) - hl);
    }
}

proof fn lemma_l4_checksum(d: Seq<u8>, hl: int)
    requires
        20 <= hl <= d.len() <= 0xFFFF,
    ensures
        ({
            let e = with_l4_checksum(d, hl);
            &&& e.len() == d.len()
            &&& forall|i: int|
                0 <= i < d.len() && !(d[9] == IPPROTO_TCP && hl + 16 <= i < hl + 18) && !(d[9]
                    == IPPROTO_UDP && hl + 6 <= i < hl + 8) ==> #[trigger] e[i] == d[i]
            &&& d[9] == IPPROTO_TCP && d.len() >= hl + 18 ==> l4_sum(
                ip_at(d, 12),
                ip_at(d, 16),
                IPPROTO_TCP,
                e.skip(hl),
            ) == 0
            &&& d[9] == IPPROTO_UDP && d.len() >= hl + 8 && be16(d, hl + 6) != 0 ==> l4_sum(
                ip_at(d, 12),
                ip_at(d, 16),
                IPPROTO_UDP,
                e.skip(hl),
            ) == 0
        }),
{
    let e = with_l4_checksum(d, hl);
    let src = ip_at(d, 12);
    let dst = ip_at(d, 16);
    if d[9] == IPPROTO_TCP && d.len() >= hl + 18 {
        let seg = with_u16(d, hl + 16, 0).skip(hl);
        let head = crate::net::frame::pseudo_header(src, dst, IPPROTO_TCP, seg.len() as u16);
        let c = l4_sum(src, dst, IPPROTO_TCP, seg) as u16;
        assert(e.skip(hl) =~= with_u16(seg, 16, c));
        crate::net::frame::lemma_prefix_with_u16(head, seg, 16, c);
        assert(head.len() == 12);
        assert((head + seg)[28] == seg[16] && (head + seg)[29] == seg[17]);
        crate::net::wire::checksum_fill_verifies(head + seg, 28);
    } else if d[9] == IPPROTO_UDP && d.len() >= hl + 8 && be16(d, hl + 6) != 0 {
        let seg = with_u16(d, hl + 6, 0).skip(hl);
        let head = crate::net::frame::pseudo_header(src, dst, IPPROTO_UDP, seg.len() as u16);
        let c = udp_sent_checksum(src, dst, seg);
        assert(e.skip(hl) =~= with_u16(seg, 6, c));
        crate::net::frame::lemma_prefix_with_u16(head, seg, 6, c);
        assert(head.len() == 12);
        assert((head + seg)[18] == seg[6] && (head + seg)[19] == seg[7]);
        crate::net::wire::checksum_fill_verifies(head + seg, 18);
        if checksum(head + seg) == 0 {
            crate::net::wire::checksum_fill_nonzero_verifies(head + seg, 18);
        }
    }
}

proof fn lemma_header_checksum(e: Seq<u8>, hl: int)
    requires
        20 <= hl <= e.len(),
    ensures
        ({
            let f = with_header_checksum(e, hl);
            &&& f.len() == e.len()
            &&& forall|i: int| 0 <= i < 10 || 12 <= i < e.len() ==> #[trigger] f[i] == e[i]
            &&& checksum(f.take(hl)) == 0
        }),
{
    let z = with_u16(e, 10, 0);
    let f = with_header_checksum(e, hl);
    assert(f.take(hl) =~= with_u16(z.take(hl), 10, checksum_word(z.take(hl))));
    crate::net::wire::checksum_fill_verifies(z.take(hl), 10);
}

/// A rewritten packet is a well-formed packet of the same transport between
/// the new endpoints, with a right header checksum and, where it carries a
/// whole TCP segment or a checksummed UDP datagram that fills it, a right
/// transport checksum. What lies behind the ports is as it was.
pub proof fn rewritten_is_valid(p: Seq<u8>, new_src: Endpoint, new_dst: Endpoint)
    requires
        ipv4_wf(p),
    ensures
        ({
            let f = rewritten(p, new_src, new_dst);
            let hl = ipv4_header_len(p);
            &&& ipv4_wf(f)
            &&& f.len() == be16(p, 2)
            &&& ipv4_header_len(f) == hl
            &&& be16(f, 2) == be16(p, 2)
            &&& f[9] == p[9]
            &&& ipv4_checksum_valid(f)
            &&& ip_at(f, 12) == (match new_src {
                Some((ip, _)) => ip,
                None => ip_at(p, 12),
            })
            &&& ip_at(f, 16) == (match new_dst {
                Some((ip, _)) => ip,
                None => ip_at(p, 16),
            })
            &&& has_ports(p) ==> has_ports(f)
            &&& has_ports(p) ==> be16(f, hl) == (match new_src {
                Some((_, Some(port))) => port as int,
                _ => be16(p, hl),
            })
            &&& has_ports(p) ==> be16(f, hl + 2) == (match new_dst {
                Some((_, Some(port))) => port as int,
                _ => be16(p, hl + 2),
            })
            &&& p[9] == IPPROTO_TCP && has_ports(p) ==> tcp_checksum_valid(
                ipv4_payload(f),
                ip_at(f, 12),
                ip_at(f, 16),
            )
            &&& p[9] == IPPROTO_UDP && has_ports(p) && be16(ipv4_payload(p), 4) == ipv4_payload(
                p,
            ).len() ==> udp_checksum_valid(ipv4_payload(f), ip_at(f, 12), ip_at(f, 16))
            &&& p[9] == IPPROTO_UDP && has_ports(p) && be16(ipv4_payload(p), 6) == 0 ==> be16(
                ipv4_payload(f),
                6,
            ) == 0
            &&& forall|i: int|
                hl + 4 <= i < f.len() && !(p[9] == IPPROTO_TCP && hl + 16 <= i < hl + 18) && !(p[9]
                    == IPPROTO_UDP && hl + 6 <= i < hl + 8) ==> #[trigger] f[i] == p[i]
            &&& p[9] != IPPROTO_TCP && p[9] != IPPROTO_UDP ==> ipv4_payload(f) == ipv4_payload(p)
        }),
{
    let hl = ipv4_header_len(p);
    let d = with_endpoints(p, new_src, new_dst);
    let e = with_l4_checksum(d, hl);
    let f = rewritten(p, new_src, new_dst);
    lemma_endpoints(p, new_src, new_dst);
    lemma_l4_checksum(d, hl);
    lemma_header_checksum(e, hl);
    assert(f[0] == p[0] && f[2] == p[2] && f[3] == p[3] && f[9] == p[9]);
    assert(d[9] == p[9]);
    assert(be32(f, 12) == be32(d, 12));
    assert(be32(f, 16) == be32(d, 16));
    let pf = ipv4_payload(f);
    let pp = ipv4_payload(p);
    assert(pf =~= f.skip(hl));
    assert(pf =~= e.skip(hl));
    assert forall|i: int| 4 <= i < pf.len() && !(p[9] == IPPROTO_TCP && 16 <= i < 18) && !(p[9]
        == IPPROTO_UDP && 6 <= i < 8) implies #[trigger] pf[i] == pp[i] by {
        assert(f[hl + i] == e[hl + i]);
        assert(e[hl + i] == d[hl + i]);
        assert(d[hl + i] == p[hl + i]);
    }
    if has_ports(p) {
        assert(pf.len() == pp.len());
        assert(pp[4] == p[hl + 4] && pp[5] == p[hl + 5]);
        if p[9] == IPPROTO_TCP {
            assert(pf[12] == pp[12]);
        } else {
            assert(pf[4] == pp[4] && pf[5] == pp[5]);
            assert(d[hl + 6] == p[hl + 6] && d[hl + 7] == p[hl + 7]);
            assert(pp[6] == p[hl + 6] && pp[7] == p[hl + 7]);
            if be16(pp, 4) == pp.len() {
                assert(pf.take(be16(pf, 4)) =~= pf);
            }
        }
        assert(f[hl] == e[hl] && f[hl + 1] == e[hl + 1] && f[hl + 2] == e[hl + 2] && f[hl + 3]
            == e[hl + 3]);
    }
    if p[9] != IPPROTO_TCP && p[9] != IPPROTO_UDP {
        assert(pf =~= pp) by {
            assert forall|i: int| 0 <= i < pf.len() implies pf[i] == pp[i] by {
                assert(f[hl + i] == e[hl + i]);
                assert(e[hl + i] == d[hl + i]);
                assert(d[hl + i] == p[hl + i]);
            }
        }
    }
}

// ---------------------------------------------------------------------------
// Block replies
// ---------------------------------------------------------------------------

/// One where a flag is set.
pub open spec fn bit(set: bool) -> int {
    if set {
        1
    } else {
        0
    }
}

/// The reset that answers a blocked TCP segment: at the acknowledged number
/// where the segment acknowledges, else acknowledging all it occupies.
pub open spec fn reset_head(t: Seq<u8>) -> TcpHead {
    let acked = t[13] & TCP_ACK != 0;
    let advance = t.skip(crate::net::frame::tcp_header_len(t)).len() + bit(t[13] & TCP_SYN != 0)
        + bit(t[13] & TCP_FIN != 0);
    TcpHead {
        src_port: word_at(t, 2),
        dst_port: word_at(t, 0),
        seq: if acked {
            be32(t, 8) as u32
        } else {
            0
        },
        ack: if acked {
            0
        } else {
            ((be32(t, 4) + advance) % 0x1_0000_0000) as u32
        },
        flags: if acked {
            TCP_RST
        } else {
            TCP_RST | TCP_ACK
        },
        window: 0,
        options: Seq::empty(),
    }
}

/// The packet that answers a blocked one: a reset for TCP (unless it is a
/// reset itself or cannot be read), a port unreachable for UDP, a host
/// unreachable for everything else; sent in the name of the blocked address.
pub open spec fn block_answer(p: Seq<u8>) -> Option<Seq<u8>> {
    let src = ip_at(p, 12);
    let dst = ip_at(p, 16);
    let t = ipv4_payload(p);
    let clipped = p.take(be16(p, 2));
    if p[9] == IPPROTO_TCP {
        if tcp_wf(t) && t[13] & TCP_RST == 0 {
            Some(
                ipv4_bytes(
                    dst,
                    src,
                    IPPROTO_TCP,
                    64,
                    tcp_bytes(dst, src, reset_head(t), Seq::empty()),
                    0,
                ),
            )
        } else {
            None
        }
    } else {
        let code: u8 = if p[9] == IPPROTO_UDP {
            3
        } else {
            1
        };
        Some(
            ipv4_bytes(
                dst,
                src,
                IPPROTO_ICMP,
                64,
                icmp_bytes(
                    ICMP_DEST_UNREACHABLE,
                    code,
                    seq![0u8, 0, 0, 0],
                    clipped.take(unreachable_quote_len(clipped)),
                ),
                0,
            ),
        )
    }
}

/// Sequence number, acknowledgement and flags of the reset that answers a
/// segment.
pub(crate) fn reset_for(tcp: &TcpView<'_>) -> (r: (u32, u32, u8))
    requires
        tcp@.len() <= 0xFFFF,
        tcp_wf(tcp@),
    ensures
        r.0 == reset_head(tcp@).seq,
        r.1 == reset_head(tcp@).ack,
        r.2 == reset_head(tcp@).flags,
{
    if tcp.is_ack() {
        (tcp.ack(), 0, TCP_RST)
    } else {
        let syn: u32 = if tcp.is_syn() {
            1
        } else {
            0
        };
        let fin: u32 = if tcp.is_fin() {
            1
        } else {
            0
        };
        let advance: u32 = tcp.payload().len() as u32 + syn + fin;
        (0, tcp.seq().wrapping_add(advance), TCP_RST | TCP_ACK)
    }
}

/// Synthesize the fail-fast reply for a blocked packet: TCP gets an RST with
/// RFC 793 reset sequence rules, UDP an ICMP port-unreachable, everything
/// else an ICMP host-unreachable. Returns `None` for packets that must not
/// be answered (e.g. an incoming RST, or unparseable L4).
fn block_reply(pkt: &[u8], ip: &Ipv4View<'_>) -> (r: Option<Vec<u8>>)
    requires
        ip@ == pkt@,
        ipv4_wf(pkt@),
    ensures
        r is Some <==> block_answer(pkt@) is Some,
        r matches Some(v) ==> block_answer(pkt@) == Some(v@),
{
    let proto: u8 = ip.proto();
    let src = ip.src();
    let dst = ip.dst();
    assert(src == ip_at(pkt@, 12) && dst == ip_at(pkt@, 16));
    if proto == IPPROTO_TCP {
        let tcp = match TcpView::parse(ip.payload()) {
            Some(t) => t,
            None => return None,
        };
        if tcp.is_rst() {
            return None;
        }
        let (seq, ack, flags) = reset_for(&tcp);
        let none: [u8; 0] = [];
        let fields = TcpFields {
            src_port: tcp.dst_port(),
            dst_port: tcp.src_port(),
            seq,
            ack,
            flags,
            window: 0,
            options: &none,
        };
        assert(fields.options@ =~= Seq::<u8>::empty());
        assert(fields@ == reset_head(tcp@));
        assert(none@ =~= Seq::<u8>::empty());
        match tcp_build(dst, src, fields, &none) {
            Some(seg) => ipv4_build(dst, src, IPPROTO_TCP, 64, seg.as_slice(), 0),
            None => None,
        }
    } else {
        let code: u8 = if proto == IPPROTO_UDP {
            3
        } else {
            1
        };
        let clipped = clip(pkt, ip);
        let msg = icmp_unreachable_for(clipped, code);
        assert(clipped@.take(unreachable_quote_len(clipped@)).len() <= 68);
        assert(msg@.len() <= 76);
        ipv4_build(dst, src, IPPROTO_ICMP, 64, msg.as_slice(), 0)
    }
}

/// The packet without what follows its total length.
fn clip<'a>(pkt: &'a [u8], ip: &Ipv4View<'_>) -> (r: &'a [u8])
    requires
        ip@ == pkt@,
        ipv4_wf(pkt@),
    ensures
        r@ == pkt@.take(be16(pkt@, 2)),
{
    let total: usize = ip.total_len() as usize;
    let r = slice_subrange(pkt, 0, total);
    assert(r@ =~= pkt@.take(be16(pkt@, 2)));
    r
}

// ---------------------------------------------------------------------------
// Matching
// ---------------------------------------------------------------------------

/// Whether an optional filter lets `actual` through.
pub open spec fn filter_allows<T>(filter: Option<T>, actual: Option<T>) -> bool {
    filter is Some ==> filter == actual
}

/// Whether a redirect applies to a packet.
pub open spec fn redirect_matches(r: RedirectRule, p: Seq<u8>) -> bool {
    &&& r.from.ip == ip_at(p, 16)
    &&& filter_allows(r.proto, packet_l4(p))
    &&& filter_allows(r.from.port, packet_dst_port(p))
}

/// Whether a block applies to a packet.
pub open spec fn block_matches(b: BlockRule, p: Seq<u8>) -> bool {
    &&& b.cidr.holds(ip_at(p, 16))
    &&& filter_allows(b.proto, packet_l4(p))
    &&& filter_allows(b.port, packet_dst_port(p))
}

/// How specific a redirect is.
pub open spec fn redirect_rank(r: RedirectRule) -> int {
    bit(r.from.port is Some)
}

/// How specific a block is: by prefix length, then by port, then by protocol.
pub open spec fn block_rank(b: BlockRule) -> int {
    b.cidr.prefix() * 4 + bit(b.port is Some) * 2 + bit(b.proto is Some)
}

/// Whether the redirect at `i` is the one that applies: it matches, none that
/// matches is more specific, and none as specific stands before it.
pub open spec fn is_best_redirect(rs: Seq<(RuleId, RedirectRule)>, p: Seq<u8>, i: int) -> bool {
    &&& 0 <= i < rs.len()
    &&& redirect_matches(rs[i].1, p)
    &&& forall|j: int|
        0 <= j < rs.len() && redirect_matches((#[trigger] rs[j]).1, p) ==> redirect_rank(rs[j].1)
            < redirect_rank(rs[i].1) || (redirect_rank(rs[j].1) == redirect_rank(rs[i].1) && i
            <= j)
}

/// Whether the block at `i` is the one that applies.
pub open spec fn is_best_block(bs: Seq<(RuleId, BlockRule)>, p: Seq<u8>, i: int) -> bool {
    &&& 0 <= i < bs.len()
    &&& block_matches(bs[i].1, p)
    &&& forall|j: int|
        0 <= j < bs.len() && block_matches((#[trigger] bs[j]).1, p) ==> block_rank(bs[j].1)
            < block_rank(bs[i].1) || (block_rank(bs[j].1) == block_rank(bs[i].1) && i <= j)
}

/// Whether some redirect applies.
pub open spec fn any_redirect(rs: Seq<(RuleId, RedirectRule)>, p: Seq<u8>) -> bool {
    exists|i: int| 0 <= i < rs.len() && redirect_matches((#[trigger] rs[i]).1, p)
}

/// Whether some block applies.
pub open spec fn any_block(bs: Seq<(RuleId, BlockRule)>, p: Seq<u8>) -> bool {
    exists|i: int| 0 <= i < bs.len() && block_matches((#[trigger] bs[i]).1, p)
}

/// The redirect that applies to a packet.
pub open spec fn best_redirect(rs: Seq<(RuleId, RedirectRule)>, p: Seq<u8>) -> Option<
    RedirectRule,
> {
    if any_redirect(rs, p) {
        Some(rs[choose|i: int| is_best_redirect(rs, p, i)].1)
    } else {
        None
    }
}

/// At most one redirect is the one that applies.
pub proof fn best_redirect_unique(rs: Seq<(RuleId, RedirectRule)>, p: Seq<u8>, i: int, j: int)
    requires
        is_best_redirect(rs, p, i),
        is_best_redirect(rs, p, j),
    ensures
        i == j,
{
    assert(redirect_matches(rs[i].1, p) && redirect_matches(rs[j].1, p));
}

// ---------------------------------------------------------------------------
// RuleSet
// ---------------------------------------------------------------------------

/// Key of a translation entry, viewed from the *reply* direction:
/// `src` is the redirect target, `dst` the original guest. For ICMP echo,
/// the echo identifier stands in for a port (`sport` = 0, `dport` = id).
#[derive(Debug, Clone, Copy, PartialEq, Eq, Structural)]
pub struct ConnKey {
    pub src: Ipv4Addr,
    pub sport: u16,
    pub dst: Ipv4Addr,
    pub dport: u16,
    pub proto: u8,
}

impl Key for ConnKey {
    fn same(&self, other: &Self) -> (r: bool) {
        *self == *other
    }
}

/// What a reply is translated back to.
#[derive(Debug, Clone, Copy)]
pub struct RevVal {
    /// Original destination the guest addressed.
    pub orig_ip: Ipv4Addr,
    /// Original destination port (None for ICMP).
    pub orig_port: Option<u16>,
    /// When the entry was last used.
    pub last: u64,
}

/// Ordered set of L3 rules plus the redirect translation table.
pub struct RuleSet {
    next_id: u64,
    redirects: Vec<(RuleId, RedirectRule)>,
    blocks: Vec<(RuleId, BlockRule)>,
    conns: Table<ConnKey, RevVal>,
}

/// What a [`RuleSet`] holds.
pub ghost struct RuleSetView {
    pub next_id: u64,
    pub redirects: Seq<(RuleId, RedirectRule)>,
    pub blocks: Seq<(RuleId, BlockRule)>,
    pub conns: Map<ConnKey, RevVal>,
}

impl View for RuleSet {
    type V = RuleSetView;

    closed spec fn view(&self) -> RuleSetView {
        RuleSetView {
            next_id: self.next_id,
            redirects: self.redirects@,
            blocks: self.blocks@,
            conns: self.conns@,
        }
    }
}

/// Whether an entry last used at `last` is still live at `now`.
pub open spec fn conn_live(last: u64, now: u64) -> bool {
    now - last < CONN_IDLE_MS
}

/// The translation entries that are live at `now`.
pub open spec fn live_conns(m: Map<ConnKey, RevVal>, now: u64) -> Map<ConnKey, RevVal> {
    kept(m, |v: RevVal| conn_live(v.last, now))
}

/// The port that a redirected packet goes to, where it has ports.
pub open spec fn redirected_port(r: RedirectRule, p: Seq<u8>) -> Option<u16> {
    match packet_dst_port(p) {
        Some(orig) => Some(
            match r.to.port {
                Some(port) => port,
                None => orig,
            },
        ),
        None => None,
    }
}

/// Under which key the replies to a redirected packet are looked up.
pub open spec fn return_key(r: RedirectRule, p: Seq<u8>) -> Option<ConnKey> {
    match packet_conn(p) {
        Some((sport, dport)) => Some(
            ConnKey {
                src: r.to.ip,
                sport: match redirected_port(r, p) {
                    Some(port) => port,
                    None => 0,
                },
                dst: ip_at(p, 12),
                dport: if p[9] == IPPROTO_ICMP && dport > sport {
                    dport
                } else {
                    sport
                },
                proto: p[9],
            },
        ),
        None => None,
    }
}

/// The table after a packet was redirected by `r`.
pub open spec fn recorded(
    m: Map<ConnKey, RevVal>,
    r: RedirectRule,
    p: Seq<u8>,
    now: u64,
) -> Map<ConnKey, RevVal> {
    match return_key(r, p) {
        Some(key) => m.insert(
            key,
            RevVal { orig_ip: ip_at(p, 16), orig_port: packet_dst_port(p), last: now },
        ),
        None => m,
    }
}

/// The verdict on a guest's packet.
pub open spec fn eval_verdict(rs: RuleSetView, p: Seq<u8>) -> VerdictView {
    if !ipv4_wf(p) {
        VerdictView::Pass
    } else {
        match best_redirect(rs.redirects, p) {
            Some(r) => VerdictView::Rewrite(
                rewritten(p, None, Some((r.to.ip, redirected_port(r, p)))),
            ),
            None => if any_block(rs.blocks, p) {
                VerdictView::Drop(block_answer(p))
            } else {
                VerdictView::Pass
            },
        }
    }
}

/// The rule set after a guest's packet.
pub open spec fn eval_state(rs: RuleSetView, p: Seq<u8>, now: u64) -> RuleSetView {
    if !ipv4_wf(p) {
        rs
    } else {
        let live = live_conns(rs.conns, now);
        RuleSetView {
            conns: match best_redirect(rs.redirects, p) {
                Some(r) => recorded(live, r, p, now),
                None => live,
            },
            ..rs
        }
    }
}

/// The key under which a reply's translation entry would stand.
pub open spec fn reply_key(p: Seq<u8>) -> Option<ConnKey> {
    match packet_conn(p) {
        Some((sport, dport)) => Some(
            ConnKey { src: ip_at(p, 12), sport, dst: ip_at(p, 16), dport, proto: p[9] },
        ),
        None => None,
    }
}

/// The live translation entry of a reply.
pub open spec fn reply_entry(rs: RuleSetView, p: Seq<u8>, now: u64) -> Option<RevVal> {
    match reply_key(p) {
        Some(key) => if rs.conns.dom().contains(key) && conn_live(rs.conns[key].last, now) {
            Some(rs.conns[key])
        } else {
            None
        },
        None => None,
    }
}

/// The verdict on a packet from a redirect target.
pub open spec fn return_verdict(rs: RuleSetView, p: Seq<u8>, now: u64) -> VerdictView {
    if !ipv4_wf(p) {
        VerdictView::Pass
    } else {
        match reply_entry(rs, p, now) {
            Some(v) => VerdictView::Rewrite(rewritten(p, Some((v.orig_ip, v.orig_port)), None)),
            None => VerdictView::Pass,
        }
    }
}

/// The rule set after a packet from a redirect target: the entry it used is
/// as new.
pub open spec fn return_state(rs: RuleSetView, p: Seq<u8>, now: u64) -> RuleSetView {
    if !ipv4_wf(p) {
        rs
    } else {
        match reply_entry(rs, p, now) {
            Some(v) => RuleSetView {
                conns: rs.conns.insert(reply_key(p)->0, RevVal { last: now, ..v }),
                ..rs
            },
            None => rs,
        }
    }
}

/// The rule set without the rule `id`.
pub open spec fn without_rule(rs: RuleSetView, id: RuleId) -> RuleSetView {
    RuleSetView {
        redirects: without_id(rs.redirects, id),
        blocks: without_id(rs.blocks, id),
        ..rs
    }
}

/// The rules that are not `id`, in order.
pub open spec fn without_id<T>(rules: Seq<(RuleId, T)>, id: RuleId) -> Seq<(RuleId, T)>
    decreases rules.len(),
{
    if rules.len() == 0 {
        rules
    } else {
        let front = without_id(rules.drop_last(), id);
        if rules.last().0 == id {
            front
        } else {
            front.push(rules.last())
        }
    }
}

/// Whether `id` names a rule.
pub open spec fn has_rule<T>(rules: Seq<(RuleId, T)>, id: RuleId) -> bool {
    exists|i: int| 0 <= i < rules.len() && (#[trigger] rules[i]).0 == id
}

/// Whether every rule was numbered no later than `next_id`.
pub open spec fn ids_bounded<T>(rules: Seq<(RuleId, T)>, next_id: u64) -> bool {
    forall|i: int| 0 <= i < rules.len() ==> (#[trigger] rules[i]).0.0 <= next_id
}

fn drop_rule<T: Copy>(rules: &Vec<(RuleId, T)>, id: RuleId) -> (r: (Vec<(RuleId, T)>, bool))
    ensures
        r.0@ == without_id(rules@, id),
        r.1 == has_rule(rules@, id),
        forall|n: u64| ids_bounded(rules@, n) ==> ids_bounded(r.0@, n),
{
    let mut out: Vec<(RuleId, T)> = Vec::new();
    let mut found = false;
    let mut i: usize = 0;
    assert(rules@.take(0) =~= Seq::<(RuleId, T)>::empty());
    while i < rules.len()
        invariant
            i <= rules@.len(),
            out@ == without_id(rules@.take(i as int), id),
            found == exists|j: int| 0 <= j < i && (#[trigger] rules@[j]).0 == id,
            forall|j: int|
                0 <= j < out@.len() ==> exists|k: int|
                    0 <= k < i && #[trigger] out@[j] == #[trigger] rules@[k],
        decreases rules@.len() - i,
    {
        let e = rules[i];
        let ghost prev = out@;
        assert(rules@.take(i as int + 1).drop_last() =~= rules@.take(i as int));
        assert(rules@.take(i as int + 1).last() == e);
        if e.0 == id {
            found = true;
        } else {
            out.push(e);
        }
        proof {
            assert forall|j: int| 0 <= j < out@.len() implies exists|k: int|
                0 <= k < i + 1 && #[trigger] out@[j] == #[trigger] rules@[k] by {
                if j < prev.len() {
                    assert(prev[j] == out@[j]);
                } else {
                    assert(out@[j] == rules@[i as int]);
                }
            }
        }
        i = i + 1;
    }
    assert(rules@.take(i as int) =~= rules@);
    (out, found)
}

impl RuleSet {
    #[verifier::type_invariant]
    spec fn valid(self) -> bool {
        ids_bounded(self.redirects@, self.next_id) && ids_bounded(self.blocks@, self.next_id)
    }

    /// An empty rule set.
    pub fn new() -> (r: RuleSet)
        ensures
            r@.next_id == 0,
            r@.redirects == Seq::<(RuleId, RedirectRule)>::empty(),
            r@.blocks == Seq::<(RuleId, BlockRule)>::empty(),
            r@.conns == Map::<ConnKey, RevVal>::empty(),
    {
        RuleSet { next_id: 0, redirects: Vec::new(), blocks: Vec::new(), conns: Table::new() }
    }

    /// Installs a block and returns its new handle.
    pub fn add_block(&mut self, rule: BlockRule) -> (id: RuleId)
        requires
            old(self)@.next_id < u64::MAX,
        ensures
            id.0 == old(self)@.next_id + 1,
            final(self)@ == (RuleSetView {
                next_id: id.0,
                blocks: old(self)@.blocks.push((id, rule)),
                ..old(self)@
            }),
            !has_rule(old(self)@.redirects, id),
            !has_rule(old(self)@.blocks, id),
    {
        proof {
            use_type_invariant(&*self);
        }
        let id = RuleId(self.next_id + 1);
        self.next_id = self.next_id + 1;
        let mut blocks: Vec<(RuleId, BlockRule)> = Vec::new();
        std::mem::swap(&mut blocks, &mut self.blocks);
        blocks.push((id, rule));
        self.blocks = blocks;
        id
    }

    /// Installs a redirect and returns its new handle.
    pub fn add_redirect(&mut self, rule: RedirectRule) -> (id: RuleId)
        requires
            old(self)@.next_id < u64::MAX,
        ensures
            id.0 == old(self)@.next_id + 1,
            final(self)@ == (RuleSetView {
                next_id: id.0,
                redirects: old(self)@.redirects.push((id, rule)),
                ..old(self)@
            }),
            !has_rule(old(self)@.redirects, id),
            !has_rule(old(self)@.blocks, id),
    {
        proof {
            use_type_invariant(&*self);
        }
        let id = RuleId(self.next_id + 1);
        self.next_id = self.next_id + 1;
        let mut redirects: Vec<(RuleId, RedirectRule)> = Vec::new();
        std::mem::swap(&mut redirects, &mut self.redirects);
        redirects.push((id, rule));
        self.redirects = redirects;
        id
    }

    /// Remove a rule by id. Returns whether anything was removed. Existing
    /// return-path translation entries are left to idle out so in-flight
    /// connections keep receiving rewritten replies.
    pub fn remove(&mut self, id: RuleId) -> (removed: bool)
        ensures
            removed == (has_rule(old(self)@.redirects, id) || has_rule(old(self)@.blocks, id)),
            final(self)@ == without_rule(old(self)@, id),
    {
        proof {
            use_type_invariant(&*self);
        }
        let (redirects, a) = drop_rule(&self.redirects, id);
        let (blocks, b) = drop_rule(&self.blocks, id);
        self.redirects = redirects;
        self.blocks = blocks;
        a || b
    }

    /// Most specific matching redirect: `ip:port` beats `ip`; ties go to the
    /// earliest-inserted rule.
    fn best_redirect(&self, ip: &Ipv4View<'_>, meta: &Meta) -> (r: Option<RedirectRule>)
        requires
            meta.is_of(ip@),
        ensures
            r == best_redirect(self@.redirects, ip@),
    {
        let ghost rs = self.redirects@;
        let dst = ip.dst();
        let mut best: Option<usize> = None;
        let mut i: usize = 0;
        while i < self.redirects.len()
            invariant
                i <= rs.len(),
                rs == self.redirects@,
                dst == ip_at(ip@, 16),
                meta.is_of(ip@),
                best is None <==> !any_redirect(rs.take(i as int), ip@),
                best matches Some(b) ==> b < i && is_best_redirect(rs.take(i as int), ip@, b as int),
            decreases rs.len() - i,
        {
            let r = self.redirects[i].1;
            let proto_ok = match r.proto {
                Some(_) => r.proto == meta.l4,
                None => true,
            };
            let port_ok = match r.from.port {
                Some(_) => r.from.port == meta.dst_port,
                None => true,
            };
            let hit = r.from.ip == dst && proto_ok && port_ok;
            let ghost t0 = rs.take(i as int);
            let ghost t1 = rs.take(i as int + 1);
            proof {
                assert(hit == redirect_matches(rs[i as int].1, ip@));
                assert forall|j: int| 0 <= j < i implies #[trigger] t1[j] == t0[j] by {}
                assert(t1[i as int] == rs[i as int]);
                if any_redirect(t0, ip@) {
                    let j = choose|j: int|
                        0 <= j < t0.len() && redirect_matches((#[trigger] t0[j]).1, ip@);
                    assert(redirect_matches(t1[j].1, ip@));
                }
                if any_redirect(t1, ip@) && !hit {
                    let j = choose|j: int|
                        0 <= j < t1.len() && redirect_matches((#[trigger] t1[j]).1, ip@);
                    assert(redirect_matches(t0[j].1, ip@));
                }
            }
            if hit {
                let better = match best {
                    None => true,
                    Some(b) => r.from.port.is_some() && !self.redirects[b].1.from.port.is_some(),
                };
                if better {
                    best = Some(i);
                }
            }
            i = i + 1;
        }
        assert(rs.take(i as int) =~= rs);
        match best {
            Some(b) => {
                proof {
                    let c = choose|c: int| is_best_redirect(rs, ip@, c);
                    assert(redirect_matches(rs[b as int].1, ip@));
                    best_redirect_unique(rs, ip@, b as int, c);
                }
                Some(self.redirects[b].1)
            },
            None => None,
        }
    }

    /// Most specific matching block: longest prefix, then with-port beats
    /// without, then with-proto beats without; ties to insertion order.
    fn best_block(&self, ip: &Ipv4View<'_>, meta: &Meta) -> (r: Option<usize>)
        requires
            meta.is_of(ip@),
        ensures
            r is Some <==> any_block(self@.blocks, ip@),
            r matches Some(b) ==> is_best_block(self@.blocks, ip@, b as int),
    {
        let ghost bs = self.blocks@;
        let dst = ip.dst();
        let mut best: Option<usize> = None;
        let mut i: usize = 0;
        while i < self.blocks.len()
            invariant
                i <= bs.len(),
                bs == self.blocks@,
                dst == ip_at(ip@, 16),
                meta.is_of(ip@),
                best is None <==> !any_block(bs.take(i as int), ip@),
                best matches Some(b) ==> b < i && is_best_block(bs.take(i as int), ip@, b as int),
            decreases bs.len() - i,
        {
            let r = self.blocks[i].1;
            let proto_ok = match r.proto {
                Some(_) => r.proto == meta.l4,
                None => true,
            };
            let port_ok = match r.port {
                Some(_) => r.port == meta.dst_port,
                None => true,
            };
            let hit = r.cidr.contains(dst) && proto_ok && port_ok;
            let ghost t0 = bs.take(i as int);
            let ghost t1 = bs.take(i as int + 1);
            proof {
                assert(hit == block_matches(bs[i as int].1, ip@));
                assert forall|j: int| 0 <= j < i implies #[trigger] t1[j] == t0[j] by {}
                assert(t1[i as int] == bs[i as int]);
                if any_block(t0, ip@) {
                    let j = choose|j: int|
                        0 <= j < t0.len() && block_matches((#[trigger] t0[j]).1, ip@);
                    assert(block_matches(t1[j].1, ip@));
                }
                if any_block(t1, ip@) && !hit {
                    let j = choose|j: int|
                        0 <= j < t1.len() && block_matches((#[trigger] t1[j]).1, ip@);
                    assert(block_matches(t0[j].1, ip@));
                }
            }
            if hit {
                let better = match best {
                    None => true,
                    Some(b) => rank_of(&r) > rank_of(&self.blocks[b].1),
                };
                if better {
                    best = Some(i);
                }
            }
            i = i + 1;
        }
        assert(bs.take(i as int) =~= bs);
        proof {
            if let Some(b) = best {
                assert(block_matches(bs[b as int].1, ip@));
            }
        }
        best
    }

    fn expire_conns(&mut self, now: u64)
        ensures
            final(self)@ == (RuleSetView { conns: live_conns(old(self)@.conns, now), ..old(self)@ }),
    {
        proof {
            use_type_invariant(&*self);
        }
        let mut conns: Table<ConnKey, RevVal> = Table::new();
        std::mem::swap(&mut conns, &mut self.conns);
        conns.retain(&LiveAt { now });
        assert(kept(old(self)@.conns, |v: RevVal| (LiveAt { now }).wants(v)) =~= live_conns(
            old(self)@.conns,
            now,
        ));
        self.conns = conns;
    }

    /// Remembers how to translate the replies to a redirected packet.
    fn record_conn(
        &mut self,
        rule: &RedirectRule,
        ip: &Ipv4View<'_>,
        meta: &Meta,
        new_port: Option<u16>,
        now: u64,
    )
        requires
            meta.is_of(ip@),
            new_port == redirected_port(*rule, ip@),
        ensures
            final(self)@ == (RuleSetView {
                conns: recorded(old(self)@.conns, *rule, ip@, now),
                ..old(self)@
            }),
    {
        proof {
            use_type_invariant(&*self);
        }
        if let Some((sport, dport)) = meta.conn_ports {
            let rev_sport: u16 = match new_port {
                Some(port) => port,
                None => 0,
            };
            let rev_dport: u16 = if ip.proto() == IPPROTO_ICMP && dport > sport {
                dport
            } else {
                sport
            };
            let key = ConnKey {
                src: rule.to.ip,
                sport: rev_sport,
                dst: ip.src(),
                dport: rev_dport,
                proto: ip.proto(),
            };
            let val = RevVal { orig_ip: ip.dst(), orig_port: meta.dst_port, last: now };
            let mut conns: Table<ConnKey, RevVal> = Table::new();
            std::mem::swap(&mut conns, &mut self.conns);
            conns.insert(key, val);
            self.conns = conns;
        }
    }

    /// Evaluate a guest-originated IPv4 packet. Non-IPv4 / unparseable input
    /// passes (it is not this layer's job to police framing).
    pub fn eval(&mut self, ipv4_packet: &[u8], now: u64) -> (r: Verdict)
        ensures
            r@ == eval_verdict(old(self)@, ipv4_packet@),
            final(self)@ == eval_state(old(self)@, ipv4_packet@, now),
    {
        let ip = match Ipv4View::parse(ipv4_packet) {
            Some(ip) => ip,
            None => return Verdict::Pass,
        };
        self.expire_conns(now);
        let meta = Meta::of(&ip);
        if let Some(rule) = self.best_redirect(&ip, &meta) {
            let new_ip = rule.to.ip;
            let new_port = target_port(&rule, &ip, &meta);
            self.record_conn(&rule, &ip, &meta, new_port, now);
            return Verdict::Rewrite(
                rewrite_packet(ipv4_packet, &ip, None, Some((new_ip, new_port))),
            );
        }
        if self.best_block(&ip, &meta).is_some() {
            return Verdict::Drop { reply: block_reply(ipv4_packet, &ip) };
        }
        Verdict::Pass
    }

    /// Evaluate a packet *sourced from a redirect target*: if it matches a
    /// live translation entry, rewrite its source back to the original
    /// destination the guest addressed. Otherwise pass.
    pub fn eval_return(&mut self, ipv4_packet: &[u8], now: u64) -> (r: Verdict)
        ensures
            r@ == return_verdict(old(self)@, ipv4_packet@, now),
            final(self)@ == return_state(old(self)@, ipv4_packet@, now),
    {
        proof {
            use_type_invariant(&*self);
        }
        let ip = match Ipv4View::parse(ipv4_packet) {
            Some(ip) => ip,
            None => return Verdict::Pass,
        };
        let meta = Meta::of(&ip);
        let (sport, dport) = match meta.conn_ports {
            Some(ports) => ports,
            None => return Verdict::Pass,
        };
        let key = ConnKey { src: ip.src(), sport, dst: ip.dst(), dport, proto: ip.proto() };
        match self.conns.get(key) {
            Some(v) => {
                if is_live(v.last, now) {
                    let mut conns: Table<ConnKey, RevVal> = Table::new();
                    std::mem::swap(&mut conns, &mut self.conns);
                    conns.insert(
                        key,
                        RevVal { orig_ip: v.orig_ip, orig_port: v.orig_port, last: now },
                    );
                    self.conns = conns;
                    Verdict::Rewrite(
                        rewrite_packet(ipv4_packet, &ip, Some((v.orig_ip, v.orig_port)), None),
                    )
                } else {
                    Verdict::Pass
                }
            },
            None => Verdict::Pass,
        }
    }

    /// Number of translation entries.
    pub fn conn_count(&self) -> (n: usize)
        ensures
            self@.conns.dom().finite(),
            n == self@.conns.dom().len(),
    {
        self.conns.len()
    }
}

/// The port that a redirected packet goes to, where it has ports.
fn target_port(rule: &RedirectRule, ip: &Ipv4View<'_>, meta: &Meta) -> (r: Option<u16>)
    requires
        meta.is_of(ip@),
    ensures
        r == redirected_port(*rule, ip@),
{
    match meta.dst_port {
        Some(orig) => Some(
            match rule.to.port {
                Some(port) => port,
                None => orig,
            },
        ),
        None => None,
    }
}

/// Whether an entry last used at `last` is still live at `now`.
fn is_live(last: u64, now: u64) -> (r: bool)
    ensures
        r == conn_live(last, now),
{
    now.saturating_sub(last) < CONN_IDLE_MS
}

/// The entries that are live at `now`.
struct LiveAt {
    now: u64,
}

impl Keep<RevVal> for LiveAt {
    closed spec fn wants(&self, v: RevVal) -> bool {
        conn_live(v.last, self.now)
    }

    fn test(&self, v: &RevVal) -> (r: bool) {
        is_live(v.last, self.now)
    }
}

/// The specificity of a block.
fn rank_of(b: &BlockRule) -> (r: u32)
    ensures
        r == block_rank(*b),
{
    let port: u32 = if b.port.is_some() {
        2
    } else {
        0
    };
    let proto: u32 = if b.proto.is_some() {
        1
    } else {
        0
    };
    b.cidr.prefix_len() as u32 * 4 + port + proto
}

// ---------------------------------------------------------------------------
// Listing
// ---------------------------------------------------------------------------

/// The name of a transport.
pub open spec fn proto_text(p: L4Proto) -> Seq<char> {
    match p {
        L4Proto::Tcp => "tcp"@,
        L4Proto::Udp => "udp"@,
        L4Proto::Icmp => "icmp"@,
    }
}

/// The name of a transport.
pub fn proto_name(p: L4Proto) -> (r: &'static str)
    ensures
        r@ == proto_text(p),
{
    match p {
        L4Proto::Tcp => "tcp",
        L4Proto::Udp => "udp",
        L4Proto::Icmp => "icmp",
    }
}

/// `ip` or `ip:port`.
pub open spec fn host_port_text(h: HostPort) -> Seq<char> {
    match h.port {
        Some(p) => ip_text(h.ip) + ":"@ + decimal(p as nat),
        None => ip_text(h.ip),
    }
}

/// `ip` or `ip:port`.
pub fn host_port_str(ip: Ipv4Addr, port: Option<u16>) -> (s: String)
    ensures
        s@ == host_port_text(HostPort { ip, port }),
{
    let mut s = ip.to_text();
    if let Some(p) = port {
        s.append(":");
        s.append(decimal_string(p as u64).as_str());
    }
    s
}

/// A protocol filter as a description writes it.
pub open spec fn proto_suffix(p: Option<L4Proto>) -> Seq<char> {
    match p {
        Some(p) => " "@ + proto_text(p),
        None => Seq::empty(),
    }
}

/// A port filter as a description writes it.
pub open spec fn port_suffix(p: Option<u16>) -> Seq<char> {
    match p {
        Some(p) => " port "@ + decimal(p as nat),
        None => Seq::empty(),
    }
}

fn proto_suffix_str(p: Option<L4Proto>) -> (s: String)
    ensures
        s@ == proto_suffix(p),
{
    match p {
        Some(p) => joined(" ", proto_name(p)),
        None => String::new(),
    }
}

fn port_suffix_str(p: Option<u16>) -> (s: String)
    ensures
        s@ == port_suffix(p),
{
    match p {
        Some(p) => joined(" port ", decimal_string(p as u64).as_str()),
        None => String::new(),
    }
}

/// The listing of a redirect.
pub open spec fn redirect_entry(e: (RuleId, RedirectRule)) -> RuleEntryView {
    let from = host_port_text(e.1.from);
    let to = host_port_text(e.1.to);
    RuleEntryView {
        id: e.0,
        kind: RuleKind::Redirect,
        description: "redirect "@ + from + " -> "@ + to + proto_suffix(e.1.proto),
        cidr: None,
        port: None,
        from: Some(from),
        to: Some(to),
        proto: e.1.proto,
    }
}

/// The listing of a block.
pub open spec fn block_entry(e: (RuleId, BlockRule)) -> RuleEntryView {
    let cidr = net_text(e.1.cidr);
    RuleEntryView {
        id: e.0,
        kind: RuleKind::Block,
        description: "block "@ + cidr + proto_suffix(e.1.proto) + port_suffix(e.1.port),
        cidr: Some(cidr),
        port: e.1.port,
        from: None,
        to: None,
        proto: e.1.proto,
    }
}

fn describe_redirect(id: RuleId, r: &RedirectRule) -> (e: RuleEntry)
    ensures
        e@ == redirect_entry((id, *r)),
{
    let from = host_port_str(r.from.ip, r.from.port);
    let to = host_port_str(r.to.ip, r.to.port);
    assert(HostPort { ip: r.from.ip, port: r.from.port } == r.from);
    assert(HostPort { ip: r.to.ip, port: r.to.port } == r.to);
    let mut description = joined("redirect ", from.as_str());
    description.append(" -> ");
    description.append(to.as_str());
    description.append(proto_suffix_str(r.proto).as_str());
    RuleEntry {
        id,
        kind: RuleKind::Redirect,
        description,
        cidr: None,
        port: None,
        from: Some(from),
        to: Some(to),
        proto: r.proto,
    }
}

fn describe_block(id: RuleId, b: &BlockRule) -> (e: RuleEntry)
    ensures
        e@ == block_entry((id, *b)),
{
    let cidr = b.cidr.to_text();
    let mut description = joined("block ", cidr.as_str());
    description.append(proto_suffix_str(b.proto).as_str());
    description.append(port_suffix_str(b.port).as_str());
    RuleEntry {
        id,
        kind: RuleKind::Block,
        description,
        cidr: Some(cidr),
        port: b.port,
        from: None,
        to: None,
        proto: b.proto,
    }
}

impl RuleSet {
    /// All rules in evaluation order (redirects first, then blocks; each in
    /// insertion order).
    pub fn list(&self) -> (out: Vec<RuleEntry>)
        ensures
            out@.len() == self@.redirects.len() + self@.blocks.len(),
            forall|i: int|
                0 <= i < self@.redirects.len() ==> (#[trigger] out@[i])@ == redirect_entry(
                    self@.redirects[i],
                ),
            forall|i: int|
                self@.redirects.len() <= i < out@.len() ==> (#[trigger] out@[i])@ == block_entry(
                    self@.blocks[i - self@.redirects.len()],
                ),
    {
        let mut out: Vec<RuleEntry> = Vec::new();
        let mut i: usize = 0;
        while i < self.redirects.len()
            invariant
                i <= self.redirects@.len(),
                out@.len() == i,
                forall|k: int|
                    0 <= k < i ==> (#[trigger] out@[k])@ == redirect_entry(self.redirects@[k]),
            decreases self.redirects@.len() - i,
        {
            out.push(describe_redirect(self.redirects[i].0, &self.redirects[i].1));
            i = i + 1;
        }
        let mut j: usize = 0;
        while j < self.blocks.len()
            invariant
                j <= self.blocks@.len(),
                i == self.redirects@.len(),
                out@.len() == i + j,
                forall|k: int|
                    0 <= k < i ==> (#[trigger] out@[k])@ == redirect_entry(self.redirects@[k]),
                forall|k: int|
                    i <= k < i + j ==> (#[trigger] out@[k])@ == block_entry(self.blocks@[k - i]),
            decreases self.blocks@.len() - j,
        {
            out.push(describe_block(self.blocks[j].0, &self.blocks[j].1));
            j = j + 1;
        }
        out
    }
}

// ---------------------------------------------------------------------------
// Laws
// ---------------------------------------------------------------------------

/// Where a redirect matches, one of them is the most specific, and it is the
/// one that applies.
pub proof fn most_specific_redirect_applies(rs: Seq<(RuleId, RedirectRule)>, p: Seq<u8>)
    requires
        any_redirect(rs, p),
    ensures
        exists|i: int| #[trigger]
            is_best_redirect(rs, p, i) && best_redirect(rs, p) == Some(rs[i].1),
{
    lemma_best_redirect_exists(rs, p);
    let i = choose|i: int| is_best_redirect(rs, p, i);
    assert(is_best_redirect(rs, p, i));
}

proof fn lemma_best_redirect_exists(rs: Seq<(RuleId, RedirectRule)>, p: Seq<u8>)
    requires
        any_redirect(rs, p),
    ensures
        exists|i: int| is_best_redirect(rs, p, i),
    decreases rs.len(),
{
    let t = rs.drop_last();
    let n = rs.len() - 1;
    if any_redirect(t, p) {
        lemma_best_redirect_exists(t, p);
        let b = choose|b: int| is_best_redirect(t, p, b);
        assert(t[b] == rs[b]);
        let better = redirect_matches(rs[n].1, p) && redirect_rank(rs[n].1) > redirect_rank(
            rs[b].1,
        );
        let i = if better {
            n
        } else {
            b
        };
        assert forall|j: int| 0 <= j < rs.len() && redirect_matches(
            (#[trigger] rs[j]).1,
            p,
        ) implies redirect_rank(rs[j].1) < redirect_rank(rs[i].1) || (redirect_rank(rs[j].1)
            == redirect_rank(rs[i].1) && i <= j) by {
            if j < n {
                assert(t[j] == rs[j]);
            }
        }
        assert(is_best_redirect(rs, p, i));
    } else {
        let k = choose|k: int| 0 <= k < rs.len() && redirect_matches((#[trigger] rs[k]).1, p);
        if k < n {
            assert(t[k] == rs[k]);
        }
        assert forall|j: int| 0 <= j < n implies !redirect_matches((#[trigger] rs[j]).1, p) by {
            assert(t[j] == rs[j]);
        }
        assert(is_best_redirect(rs, p, n));
    }
}

/// A packet that both a redirect and a block match is redirected, not dropped.
pub proof fn redirect_beats_block(rs: RuleSetView, p: Seq<u8>)
    requires
        ipv4_wf(p),
        any_redirect(rs.redirects, p),
    ensures
        eval_verdict(rs, p) is Rewrite,
{
}

/// A packet is dropped exactly when it is well formed, a block matches it and
/// no redirect does.
pub proof fn drop_iff_blocked(rs: RuleSetView, p: Seq<u8>)
    ensures
        eval_verdict(rs, p) is Drop <==> ipv4_wf(p) && any_block(rs.blocks, p) && !any_redirect(
            rs.redirects,
            p,
        ),
{
}

/// Removing a rule that was just added gives back the rules as they were.
pub proof fn remove_undoes_add<T>(rules: Seq<(RuleId, T)>, id: RuleId, rule: T)
    requires
        !has_rule(rules, id),
    ensures
        without_id(rules.push((id, rule)), id) == rules,
{
    assert(rules.push((id, rule)).drop_last() =~= rules);
    lemma_without_absent(rules, id);
}

proof fn lemma_without_absent<T>(rules: Seq<(RuleId, T)>, id: RuleId)
    requires
        !has_rule(rules, id),
    ensures
        without_id(rules, id) == rules,
    decreases rules.len(),
{
    if rules.len() > 0 {
        let t = rules.drop_last();
        assert(!has_rule(t, id)) by {
            if has_rule(t, id) {
                let i = choose|i: int| 0 <= i < t.len() && (#[trigger] t[i]).0 == id;
                assert(rules[i].0 == id);
            }
        }
        assert(rules[rules.len() - 1].0 != id);
        lemma_without_absent(t, id);
        assert(t.push(rules.last()) =~= rules);
    }
}

/// After a packet was redirected, a reply that comes back from the redirect
/// target before the entry idles out has its source put back to the address
/// and port that the guest had sent to.
pub proof fn reply_is_restored(
    rs: RuleSetView,
    r: RedirectRule,
    p: Seq<u8>,
    sent: u64,
    q: Seq<u8>,
    now: u64,
)
    requires
        ipv4_wf(p),
        ipv4_wf(q),
        best_redirect(rs.redirects, p) == Some(r),
        return_key(r, p) is Some,
        reply_key(q) == return_key(r, p),
        conn_live(sent, now),
    ensures
        ({
            let after = eval_state(rs, p, sent);
            let back = rewritten(q, Some((ip_at(p, 16), packet_dst_port(p))), None);
            &&& return_verdict(after, q, now) == VerdictView::Rewrite(back)
            &&& ipv4_wf(back)
            &&& ipv4_checksum_valid(back)
            &&& ip_at(back, 12) == ip_at(p, 16)
            &&& ip_at(back, 16) == ip_at(q, 16)
        }),
{
    rewritten_is_valid(q, Some((ip_at(p, 16), packet_dst_port(p))), None);
}

/// Once a translation entry has idled out, a packet from the redirect target
/// passes as it is, and the entry is not revived.
pub proof fn idle_entry_is_forgotten(rs: RuleSetView, p: Seq<u8>, now: u64)
    requires
        reply_key(p) matches Some(key) && rs.conns.dom().contains(key) && !conn_live(
            rs.conns[key].last,
            now,
        ),
    ensures
        return_verdict(rs, p, now) == VerdictView::Pass,
        return_state(rs, p, now) == rs,
{
}

/// The answer to a blocked packet is a valid packet that comes from the blocked
/// address and goes back to the sender.
pub proof fn block_is_answered_to_the_sender(rs: RuleSetView, p: Seq<u8>)
    requires
        ipv4_wf(p),
    ensures
        eval_verdict(rs, p) matches VerdictView::Drop(Some(a)) ==> ipv4_wf(a) && ipv4_checksum_valid(
            a,
        ) && be32(a, 12) == be32(p, 16) && be32(a, 16) == be32(p, 12),
{
    let src = ip_at(p, 12);
    let dst = ip_at(p, 16);
    let t = ipv4_payload(p);
    crate::net::wire::lemma_be32_bytes(p, 12);
    crate::net::wire::lemma_be32_bytes(p, 16);
    if p[9] == IPPROTO_TCP {
        crate::net::frame::ipv4_round_trip(
            dst,
            src,
            IPPROTO_TCP,
            64,
            tcp_bytes(dst, src, reset_head(t), Seq::empty()),
            0,
        );
    } else {
        let code: u8 = if p[9] == IPPROTO_UDP {
            3
        } else {
            1
        };
        let clipped = p.take(be16(p, 2));
        crate::net::frame::ipv4_round_trip(
            dst,
            src,
            IPPROTO_ICMP,
            64,
            icmp_bytes(
                ICMP_DEST_UNREACHABLE,
                code,
                seq![0u8, 0, 0, 0],
                clipped.take(unreachable_quote_len(clipped)),
            ),
            0,
        );
    }
}

/// Connections that were redirected outlive the rule: replies to them are
/// restored as before it was removed.
pub proof fn replies_outlive_their_rule(rs: RuleSetView, id: RuleId, p: Seq<u8>, now: u64)
    ensures
        return_verdict(without_rule(rs, id), p, now) == return_verdict(rs, p, now),
{
}

/// Whether bytes are an IPv4 packet with a header of `hl` and a total of
/// `total` bytes, read off byte by byte.
pub open spec fn laid_out(p: Seq<u8>, hl: int, total: int) -> bool {
    &&& p.len() >= 20
    &&& p[0] / 16 == 4
    &&& hl == p[0] % 16 * 4
    &&& total == p[2] * 256 + p[3]
    &&& 20 <= hl <= total <= p.len()
}

/// Whether such a packet carries a TCP or UDP header with ports, read off byte
/// by byte.
pub open spec fn shows_ports(p: Seq<u8>, hl: int, total: int) -> bool {
    &&& laid_out(p, hl, total)
    &&& {
        ||| p[9] == 6 && total - hl >= 20 && 20 <= p[hl + 12] / 16 * 4 <= total - hl
        ||| p[9] == 17 && total - hl >= 8 && 8 <= p[hl + 4] * 256 + p[hl + 5] <= total - hl
    }
}

/// Whether the filters of a rule, on the protocol and on the destination port,
/// let such a packet through.
pub open spec fn lets_through(
    proto: Option<L4Proto>,
    port: Option<u16>,
    p: Seq<u8>,
    hl: int,
) -> bool {
    &&& proto is None || (proto == Some(L4Proto::Tcp) && p[9] == 6) || (proto == Some(L4Proto::Udp)
        && p[9] == 17)
    &&& port matches Some(n) ==> n == p[hl + 2] * 256 + p[hl + 3]
}

/// The address in four bytes of a packet.
pub open spec fn four_bytes(p: Seq<u8>, off: int) -> int {
    p[off] * 0x100_0000 + p[off + 1] * 0x1_0000 + p[off + 2] * 0x100 + p[off + 3]
}

/// The port in two bytes of a packet.
pub open spec fn two_bytes(p: Seq<u8>, off: int) -> int {
    p[off] * 0x100 + p[off + 1]
}

proof fn lemma_reading(p: Seq<u8>, hl: int, total: int)
    requires
        shows_ports(p, hl, total),
    ensures
        ipv4_wf(p),
        ipv4_header_len(p) == hl,
        be16(p, 2) == total,
        has_ports(p),
        packet_dst_port(p) == Some((p[hl + 2] * 256 + p[hl + 3]) as u16),
        packet_conn(p) == Some(
            ((p[hl] * 256 + p[hl + 1]) as u16, (p[hl + 2] * 256 + p[hl + 3]) as u16),
        ),
        packet_l4(p) == Some(
            if p[9] == 6 {
                L4Proto::Tcp
            } else {
                L4Proto::Udp
            },
        ),
        ip_at(p, 16).bits == four_bytes(p, 16),
        ip_at(p, 12).bits == four_bytes(p, 12),
{
    let t = ipv4_payload(p);
    assert(t.len() == total - hl);
    assert(t[0] == p[hl] && t[1] == p[hl + 1] && t[2] == p[hl + 2] && t[3] == p[hl + 3]);
    assert(p[9] == 6 ==> t[12] == p[hl + 12]);
    assert(t[4] == p[hl + 4] && t[5] == p[hl + 5]);
}

/// A TCP or UDP packet with readable ports that no redirect fits is dropped
/// exactly when some block fits it: its network holds the destination, its
/// protocol is left open or is the packet's, and its port is left open or is
/// the packet's destination port. Otherwise it passes.
pub proof fn blocked_iff_some_block_fits(rs: RuleSetView, p: Seq<u8>, hl: int, total: int)
    requires
        shows_ports(p, hl, total),
        forall|i: int|
            0 <= i < rs.redirects.len() ==> !((#[trigger] rs.redirects[i]).1.from.ip.bits
                == four_bytes(p, 16) && lets_through(
                rs.redirects[i].1.proto,
                rs.redirects[i].1.from.port,
                p,
                hl,
            )),
    ensures
        eval_verdict(rs, p) is Drop || eval_verdict(rs, p) is Pass,
        eval_verdict(rs, p) is Drop <==> exists|i: int|
            0 <= i < rs.blocks.len() && (#[trigger] rs.blocks[i]).1.cidr.first() <= four_bytes(
                p,
                16,
            ) <= rs.blocks[i].1.cidr.last() && lets_through(
                rs.blocks[i].1.proto,
                rs.blocks[i].1.port,
                p,
                hl,
            ),
{
    lemma_reading(p, hl, total);
    assert forall|i: int| 0 <= i < rs.redirects.len() implies !redirect_matches(
        (#[trigger] rs.redirects[i]).1,
        p,
    ) by {
        let r = rs.redirects[i].1;
        assert(redirect_matches(r, p) ==> r.from.ip.bits == four_bytes(p, 16) && lets_through(
            r.proto,
            r.from.port,
            p,
            hl,
        ));
    }
    assert forall|i: int| 0 <= i < rs.blocks.len() implies block_matches(
        (#[trigger] rs.blocks[i]).1,
        p,
    ) == (rs.blocks[i].1.cidr.first() <= four_bytes(p, 16) <= rs.blocks[i].1.cidr.last()
        && lets_through(rs.blocks[i].1.proto, rs.blocks[i].1.port, p, hl)) by {}
}

/// Anything but TCP and UDP is blocked by the destination and the protocol
/// alone: a block with a port never fits it, nor does one for a protocol that
/// the packet does not have.
pub proof fn portless_packets_are_blocked_by_address(
    rs: RuleSetView,
    p: Seq<u8>,
    hl: int,
    total: int,
)
    requires
        laid_out(p, hl, total),
        p[9] != 6 && p[9] != 17,
        rs.redirects.len() == 0,
    ensures
        eval_verdict(rs, p) is Drop || eval_verdict(rs, p) is Pass,
        eval_verdict(rs, p) is Drop <==> exists|i: int|
            0 <= i < rs.blocks.len() && (#[trigger] rs.blocks[i]).1.cidr.first() <= four_bytes(
                p,
                16,
            ) <= rs.blocks[i].1.cidr.last() && rs.blocks[i].1.port is None && (
            rs.blocks[i].1.proto is None || (rs.blocks[i].1.proto == Some(L4Proto::Icmp) && p[9]
                == 1)),
{
    assert(ip_at(p, 16).bits == four_bytes(p, 16));
    assert forall|i: int| 0 <= i < rs.blocks.len() implies block_matches(
        (#[trigger] rs.blocks[i]).1,
        p,
    ) == (rs.blocks[i].1.cidr.first() <= four_bytes(p, 16) <= rs.blocks[i].1.cidr.last()
        && rs.blocks[i].1.port is None && (rs.blocks[i].1.proto is None || (rs.blocks[i].1.proto
        == Some(L4Proto::Icmp) && p[9] == 1))) by {}
}

/// A TCP or UDP packet with readable ports is rewritten exactly when some
/// redirect names its destination and lets it through. It then goes to the
/// target of one such redirect, at the target's port or, where that names
/// none, at the port that it had; it comes from where it came from. No other
/// redirect that fits names a port where that one does not, and none of the
/// same kind stands before it.
pub proof fn redirected_iff_some_redirect_fits(rs: RuleSetView, p: Seq<u8>, hl: int, total: int)
    requires
        shows_ports(p, hl, total),
    ensures
        eval_verdict(rs, p) is Rewrite <==> exists|i: int|
            0 <= i < rs.redirects.len() && (#[trigger] rs.redirects[i]).1.from.ip.bits
                == four_bytes(p, 16) && lets_through(
                rs.redirects[i].1.proto,
                rs.redirects[i].1.from.port,
                p,
                hl,
            ),
        eval_verdict(rs, p) matches VerdictView::Rewrite(f) ==> exists|i: int|
            {
                let r = (#[trigger] rs.redirects[i]).1;
                &&& 0 <= i < rs.redirects.len()
                &&& r.from.ip.bits == four_bytes(p, 16)
                &&& lets_through(r.proto, r.from.port, p, hl)
                &&& forall|j: int|
                    0 <= j < rs.redirects.len() && (#[trigger] rs.redirects[j]).1.from.ip.bits
                        == four_bytes(p, 16) && lets_through(
                        rs.redirects[j].1.proto,
                        rs.redirects[j].1.from.port,
                        p,
                        hl,
                    ) ==> (rs.redirects[j].1.from.port is None && r.from.port is Some) || ((
                    rs.redirects[j].1.from.port is Some <==> r.from.port is Some) && i <= j)
                &&& f.len() == total
                &&& f[9] == p[9]
                &&& four_bytes(f, 12) == four_bytes(p, 12)
                &&& four_bytes(f, 16) == r.to.ip.bits
                &&& f[hl] == p[hl] && f[hl + 1] == p[hl + 1]
                &&& f[hl + 2] * 256 + f[hl + 3] == (match r.to.port {
                    Some(n) => n as int,
                    None => p[hl + 2] * 256 + p[hl + 3],
                })
            },
{
    lemma_reading(p, hl, total);
    assert forall|i: int| 0 <= i < rs.redirects.len() implies redirect_matches(
        (#[trigger] rs.redirects[i]).1,
        p,
    ) == (rs.redirects[i].1.from.ip.bits == four_bytes(p, 16) && lets_through(
        rs.redirects[i].1.proto,
        rs.redirects[i].1.from.port,
        p,
        hl,
    )) by {
        let r = rs.redirects[i].1;
        assert(r.from.ip == ip_at(p, 16) <==> r.from.ip.bits == four_bytes(p, 16));
    }
    if any_redirect(rs.redirects, p) {
        most_specific_redirect_applies(rs.redirects, p);
        let i = choose|i: int| #[trigger]
            is_best_redirect(rs.redirects, p, i) && best_redirect(rs.redirects, p) == Some(
                rs.redirects[i].1,
            );
        let r = rs.redirects[i].1;
        let to = Some((r.to.ip, redirected_port(r, p)));
        rewritten_is_valid(p, None, to);
        let f = rewritten(p, None, to);
        assert(eval_verdict(rs, p) == VerdictView::Rewrite(f));
        assert(ip_at(f, 12) == ip_at(p, 12));
        assert(ip_at(f, 16) == r.to.ip);
        assert(be32(f, 12) == four_bytes(f, 12));
        assert(be32(f, 16) == four_bytes(f, 16));
        assert(f[hl] * 256 + f[hl + 1] == p[hl] * 256 + p[hl + 1]);
        assert forall|j: int| 0 <= j < rs.redirects.len() && redirect_matches(
            (#[trigger] rs.redirects[j]).1,
            p,
        ) implies (rs.redirects[j].1.from.port is None && r.from.port is Some) || ((
        rs.redirects[j].1.from.port is Some <==> r.from.port is Some) && i <= j) by {
            assert(redirect_rank(rs.redirects[j].1) <= redirect_rank(r));
        }
    }
}

/// What cannot be read as IPv4 passes, and so does everything while there are
/// no rules; neither is remembered.
pub proof fn unreadable_packets_pass(rs: RuleSetView, p: Seq<u8>, now: u64)
    requires
        (forall|hl: int, total: int| !laid_out(p, hl, total)) || (rs.redirects.len() == 0
            && rs.blocks.len() == 0),
    ensures
        eval_verdict(rs, p) == VerdictView::Pass,
        forall|k: ConnKey| #[trigger]
            eval_state(rs, p, now).conns.dom().contains(k) ==> rs.conns.dom().contains(k),
{
    assert(ipv4_wf(p) ==> laid_out(p, p[0] % 16 * 4, p[2] * 256 + p[3]));
}

/// What a packet with ports looks like once it was sent from or to another
/// endpoint.
proof fn lemma_rewritten_reads(
    p: Seq<u8>,
    hl: int,
    total: int,
    new_src: Endpoint,
    new_dst: Endpoint,
)
    requires
        shows_ports(p, hl, total),
    ensures
        ({
            let f = rewritten(p, new_src, new_dst);
            &&& f.len() == total
            &&& four_bytes(f, 12) == (match new_src {
                Some((ip, _)) => ip.bits as int,
                None => four_bytes(p, 12),
            })
            &&& four_bytes(f, 16) == (match new_dst {
                Some((ip, _)) => ip.bits as int,
                None => four_bytes(p, 16),
            })
            &&& two_bytes(f, hl) == (match new_src {
                Some((_, Some(port))) => port as int,
                _ => two_bytes(p, hl),
            })
            &&& two_bytes(f, hl + 2) == (match new_dst {
                Some((_, Some(port))) => port as int,
                _ => two_bytes(p, hl + 2),
            })
        }),
{
    lemma_reading(p, hl, total);
    rewritten_is_valid(p, new_src, new_dst);
    let f = rewritten(p, new_src, new_dst);
    assert(ip_at(f, 12).bits == four_bytes(f, 12));
    assert(ip_at(f, 16).bits == four_bytes(f, 16));
}

/// A reply to a redirected TCP or UDP packet has its source put back: after
/// `p` was sent on to another address, a packet of the same protocol that
/// comes from there to the sender of `p`, less than five minutes later and
/// between the same two ports, leaves with the address and port that `p` had
/// been sent to as its source, and with its destination as it was.
#[verifier::spinoff_prover]
#[verifier::rlimit(60)]
pub proof fn replies_come_from_where_the_guest_sent(
    rs: RuleSetView,
    p: Seq<u8>,
    hl: int,
    total: int,
    sent: u64,
    q: Seq<u8>,
    qhl: int,
    qtotal: int,
    now: u64,
)
    requires
        shows_ports(p, hl, total),
        shows_ports(q, qhl, qtotal),
        eval_verdict(rs, p) is Rewrite,
        ({
            let f = eval_verdict(rs, p)->Rewrite_0;
            &&& q[9] == p[9]
            &&& four_bytes(q, 12) == four_bytes(f, 16)
            &&& four_bytes(q, 16) == four_bytes(f, 12)
            &&& two_bytes(q, qhl) == two_bytes(f, hl + 2)
            &&& two_bytes(q, qhl + 2) == two_bytes(f, hl)
        }),
        now - sent < 300_000,
    ensures
        return_verdict(eval_state(rs, p, sent), q, now) matches VerdictView::Rewrite(back)
            && back.len() == qtotal && four_bytes(back, 12) == four_bytes(p, 16) && four_bytes(
            back,
            16,
        ) == four_bytes(q, 16) && two_bytes(back, qhl) == two_bytes(p, hl + 2) && two_bytes(
            back,
            qhl + 2,
        ) == two_bytes(q, qhl + 2),
{
    lemma_reading(p, hl, total);
    lemma_reading(q, qhl, qtotal);
    let r = best_redirect(rs.redirects, p)->0;
    let to = Some((r.to.ip, redirected_port(r, p)));
    lemma_rewritten_reads(p, hl, total, None, to);
    let f = rewritten(p, None, to);
    assert(eval_verdict(rs, p) == VerdictView::Rewrite(f));
    assert(ip_at(q, 12) == r.to.ip);
    assert(ip_at(q, 16) == ip_at(p, 12));
    assert(redirected_port(r, p) == Some(two_bytes(q, qhl) as u16));
    assert(reply_key(q) == return_key(r, p));
    let back_to = Some((ip_at(p, 16), packet_dst_port(p)));
    reply_is_restored(rs, r, p, sent, q, now);
    lemma_rewritten_reads(q, qhl, qtotal, back_to, None);
}

/// A packet from a redirect target that answers nothing passes as it is: there
/// is no entry that was used less than five minutes ago for exactly its two
/// addresses, two ports and protocol.
pub proof fn unasked_packets_pass(
    rs: RuleSetView,
    q: Seq<u8>,
    hl: int,
    total: int,
    now: u64,
)
    requires
        shows_ports(q, hl, total),
        forall|k: ConnKey| #[trigger]
            rs.conns.dom().contains(k) ==> now - rs.conns[k].last >= 300_000 || k.src.bits
                != four_bytes(q, 12) || k.dst.bits != four_bytes(q, 16) || k.sport != q[hl] * 256
                + q[hl + 1] || k.dport != q[hl + 2] * 256 + q[hl + 3] || k.proto != q[9],
    ensures
        return_verdict(rs, q, now) == VerdictView::Pass,
        return_state(rs, q, now) == rs,
{
    lemma_reading(q, hl, total);
}

/// Anything blocked but TCP is answered with an ICMP message that quotes the
/// packet's start: a port unreachable for UDP, else a host unreachable.
#[verifier::spinoff_prover]
#[verifier::rlimit(60)]
pub proof fn blocked_datagram_is_unreachable(rs: RuleSetView, p: Seq<u8>, hl: int, total: int)
    requires
        laid_out(p, hl, total),
        p[9] != 6,
        eval_verdict(rs, p) is Drop,
    ensures
        eval_verdict(rs, p)->Drop_0 matches Some(a) && a.len() >= 28 && a[9] == 1 && a[20] == 3
            && a[21] == (if p[9] == 17 {
            3u8
        } else {
            1
        }) && forall|i: int| 28 <= i < a.len() ==> #[trigger] a[i] == p[i - 28],
{
    let src = ip_at(p, 12);
    let dst = ip_at(p, 16);
    let clipped = p.take(be16(p, 2));
    let code: u8 = if p[9] == IPPROTO_UDP {
        3
    } else {
        1
    };
    let quote = clipped.take(unreachable_quote_len(clipped));
    let m = icmp_bytes(ICMP_DEST_UNREACHABLE, code, seq![0u8, 0, 0, 0], quote);
    crate::net::frame::icmp_round_trip(ICMP_DEST_UNREACHABLE, code, seq![0u8, 0, 0, 0], quote);
    crate::net::frame::ipv4_round_trip(dst, src, IPPROTO_ICMP, 64, m, 0);
    let a = ipv4_bytes(dst, src, IPPROTO_ICMP, 64, m, 0);
    assert(a.subrange(20, be16(a, 2)) == m);
    assert(a[20] == m[0] && a[21] == m[1]);
    assert forall|i: int| 28 <= i < a.len() implies #[trigger] a[i] == p[i - 28] by {
        assert(a.subrange(20, be16(a, 2))[i - 20] == a[i]);
        assert(m.skip(8)[i - 28] == m[i - 20]);
    }
}

/// The reset that answers a segment goes between the same two ports and
/// carries no data. A segment that acknowledges something gets a bare reset at
/// just that number, any other one a reset that acknowledges all that the
/// segment occupies: its data, its SYN and its FIN.
#[verifier::spinoff_prover]
pub proof fn reset_will_be_accepted(t: Seq<u8>)
    requires
        t.len() >= 20,
        20 <= t[12] / 16 * 4 <= t.len(),
    ensures
        ({
            let h = reset_head(t);
            let occupied = t.len() - t[12] / 16 * 4 + (if t[13] & 0x02 != 0 {
                1int
            } else {
                0
            }) + (if t[13] & 0x01 != 0 {
                1int
            } else {
                0
            });
            &&& h.src_port == two_bytes(t, 2)
            &&& h.dst_port == two_bytes(t, 0)
            &&& h.options.len() == 0
            &&& t[13] & 0x10 != 0 ==> h.flags == 0x04 && h.seq == four_bytes(t, 8)
            &&& t[13] & 0x10 == 0 ==> h.flags == 0x14 && h.seq == 0 && h.ack == (four_bytes(t, 4)
                + occupied) % 0x1_0000_0000
        }),
{
    assert(TCP_RST | TCP_ACK == 0x14) by (bit_vector);
}

/// A blocked TCP segment is answered with the reset that its sender will
/// accept; a reset is not answered.
#[verifier::spinoff_prover]
#[verifier::rlimit(60)]
pub proof fn blocked_segment_is_reset(rs: RuleSetView, p: Seq<u8>, hl: int, total: int)
    requires
        shows_ports(p, hl, total),
        p[9] == 6,
        eval_verdict(rs, p) is Drop,
    ensures
        p[hl + 13] & 0x04 != 0 ==> eval_verdict(rs, p)->Drop_0 is None,
        p[hl + 13] & 0x04 == 0 ==> {
            let h = reset_head(p.subrange(hl, total));
            eval_verdict(rs, p)->Drop_0 matches Some(a) && a.len() >= 40 && a[9] == 6 && {
                let t = a.subrange(20, 40);
                &&& be16(t, 0) == h.src_port
                &&& be16(t, 2) == h.dst_port
                &&& be32(t, 4) == h.seq
                &&& be32(t, 8) == h.ack
                &&& t[13] == h.flags
            }
        },
{
    lemma_reading(p, hl, total);
    let t = ipv4_payload(p);
    assert(t == p.subrange(hl, total));
    assert(t[13] == p[hl + 13]);
    lemma_reset_packet(ip_at(p, 16), ip_at(p, 12), reset_head(t));
}

#[verifier::spinoff_prover]
#[verifier::rlimit(80)]
proof fn lemma_reset_packet(src: Ipv4Addr, dst: Ipv4Addr, h: TcpHead)
    requires
        h.options.len() == 0,
    ensures
        ({
            let a = ipv4_bytes(src, dst, IPPROTO_TCP, 64, tcp_bytes(src, dst, h, Seq::empty()), 0);
            let t = a.subrange(20, 40);
            &&& a.len() >= 40
            &&& a[9] == 6
            &&& be16(t, 0) == h.src_port
            &&& be16(t, 2) == h.dst_port
            &&& be32(t, 4) == h.seq
            &&& be32(t, 8) == h.ack
            &&& t[13] == h.flags
        }),
{
    let none = crate::net::frame::tcp_sent_options(h.options);
    assert(none.len() == 0);
    crate::net::frame::tcp_round_trip(src, dst, h, Seq::empty());
    lemma_carried(src, dst, tcp_bytes(src, dst, h, Seq::empty()));
}

proof fn lemma_carried(src: Ipv4Addr, dst: Ipv4Addr, payload: Seq<u8>)
    requires
        payload.len() == 20,
    ensures
        ({
            let a = ipv4_bytes(src, dst, IPPROTO_TCP, 64, payload, 0);
            &&& a.len() >= 40
            &&& a[9] == 6
            &&& a.subrange(20, 40) == payload
        }),
{
    crate::net::frame::ipv4_round_trip(src, dst, IPPROTO_TCP, 64, payload, 0);
}

/// What the rules say of a packet with readable ports, asked of the rules in use:
/// without a redirect that fits it is dropped exactly when a block fits it, be it
/// TCP or UDP, and passes otherwise; with one it is rewritten.
pub proof fn packet_meets_the_rules_in_use(
    rules: &mut RuleSet,
    packet: &[u8],
    now: u64,
    r: Verdict,
    hl: int,
    total: int,
)
    requires
        call_ensures(RuleSet::eval, (rules, packet, now), r),
        shows_ports(packet@, hl, total),
    ensures
        ({
            let rs = old(rules)@;
            let p = packet@;
            let redirected = exists|i: int|
                0 <= i < rs.redirects.len() && (#[trigger] rs.redirects[i]).1.from.ip.bits
                    == four_bytes(p, 16) && lets_through(
                    rs.redirects[i].1.proto,
                    rs.redirects[i].1.from.port,
                    p,
                    hl,
                );
            let blocked = exists|i: int|
                0 <= i < rs.blocks.len() && (#[trigger] rs.blocks[i]).1.cidr.first() <= four_bytes(
                    p,
                    16,
                ) <= rs.blocks[i].1.cidr.last() && lets_through(
                    rs.blocks[i].1.proto,
                    rs.blocks[i].1.port,
                    p,
                    hl,
                );
            &&& !redirected && blocked ==> r@ is Drop
            &&& !redirected && !blocked ==> r@ is Pass
            &&& redirected <==> r@ is Rewrite
            &&& final(rules)@.blocks == rs.blocks && final(rules)@.redirects == rs.redirects
        }),
{
    let rs = old(rules)@;
    let p = packet@;
    redirected_iff_some_redirect_fits(rs, p, hl, total);
    if !(exists|i: int|
        0 <= i < rs.redirects.len() && (#[trigger] rs.redirects[i]).1.from.ip.bits == four_bytes(
            p,
            16,
        ) && lets_through(rs.redirects[i].1.proto, rs.redirects[i].1.from.port, p, hl)) {
        blocked_iff_some_block_fits(rs, p, hl, total);
    }
}

} // verus!
