//! Userspace NAT engine: internet egress for guests, and the host-to-guest
//! path behind port forwards.
//!
//! The segment gateway hands the engine full ethernet frames whose
//! destination MAC is the gateway and whose destination IP is non-local
//! ([`NatEngine::handle_frame`]); the engine says what is to be done with
//! each: a frame to send back, a segment to feed to a flow, a datagram to
//! forward over a host socket, a destination to probe. The caller owns the
//! sockets and the flow tasks.
//!
//! - **TCP**: a minimal in-process TCP responder ([`vtcp`]).
//! - **UDP**: per-flow connected host sockets with a 60 s idle expiry.
//! - **ICMP echo**: reachability probes with a short cache ([`icmp`]).
//!
//! Frames toward a guest need the guest's MAC: it is learned from every frame
//! the engine sees, and the gateway can prime the table via
//! [`NatEngine::learn_mac`]. Unknown guests fall back to the L2 broadcast
//! address, which the switch floods.

use vstd::prelude::*;
use vstd::slice::{slice_subrange, slice_to_vec};

use crate::net::addr::{Ipv4Addr, MacAddr};
use crate::net::engine::icmp::{cached_result, ProbeState, ProbeView};
use crate::net::engine::vtcp::{flagged, mss_of, rst_for, FlowKey, Segment, SegmentView};
use crate::net::frame::{
    echo_reply_bytes, eth_build, eth_bytes, eth_wf, icmp_bytes, icmp_echo_reply_for,
    icmp_unreachable_for, icmp_wf, ipv4_build, ipv4_bytes, ipv4_payload, ipv4_wf, is_echo_request,
    tcp_bytes, tcp_header_len, tcp_wf, udp_build, udp_bytes, udp_payload, udp_wf,
    unreachable_quote_len, EthView, IcmpView, Ipv4View, TcpView, UdpView, ETHERTYPE_IPV4,
    ICMP_DEST_UNREACHABLE, ICMP_ECHO_REQUEST, IPPROTO_ICMP, IPPROTO_TCP, IPPROTO_UDP, TCP_ACK,
    TCP_RST, TCP_SYN,
};
use crate::net::rules::{four_bytes, laid_out, reset_head, shows_ports, two_bytes};
use crate::net::wire::{be16, be32, ip_at, mac_of, word_at};
use crate::table::{Key, Table};

pub mod icmp;
pub mod vtcp;

verus! {

/// Outbound UDP flows idle longer than this are torn down, in milliseconds.
pub const UDP_IDLE_MS: u64 = 60_000;

/// How many ephemeral ports there are.
pub const EPHEMERAL_PORTS: u32 = 16384;

/// Static engine configuration.
#[derive(Debug, Clone, Copy)]
pub struct NatConfig {
    /// The segment gateway address: the engine's own L3 identity for active
    /// opens and ICMP errors it originates.
    pub gw_ip: Ipv4Addr,
    /// The gateway MAC, used as the source of every emitted frame.
    pub gw_mac: MacAddr,
    /// Segment MTU; vTCP advertises an MSS of `mtu - 40`.
    pub mtu: u16,
}

impl NatConfig {
    /// Config with the default 1500-byte MTU.
    pub fn new(gw_ip: Ipv4Addr, gw_mac: MacAddr) -> (r: Self)
        ensures
            r == (NatConfig { gw_ip, gw_mac, mtu: 1500 }),
    {
        NatConfig { gw_ip, gw_mac, mtu: 1500 }
    }
}

/// Identity of an engine-bound UDP flow.
#[derive(Debug, Clone, Copy, PartialEq, Eq, Structural)]
pub struct GuestUdpKey {
    pub guest_ip: Ipv4Addr,
    pub guest_port: u16,
    pub gw_port: u16,
}

impl Key for GuestUdpKey {
    fn same(&self, other: &Self) -> (r: bool) {
        *self == *other
    }
}

/// The userspace NAT engine.
pub struct NatEngine {
    cfg: NatConfig,
    /// Live vTCP flows.
    tcp_flows: Table<FlowKey, ()>,
    /// Outbound UDP NAT flows, and when each was last used.
    udp_flows: Table<FlowKey, u64>,
    /// Engine-bound UDP flows.
    guest_udp: Table<GuestUdpKey, ()>,
    /// Learned guest IP to MAC mappings.
    macs: Table<Ipv4Addr, MacAddr>,
    probes: ProbeState,
    ip_id: u16,
    eph_counter: u32,
}

/// What a [`NatEngine`] knows.
pub ghost struct NatView {
    pub cfg: NatConfig,
    pub tcp_flows: Set<FlowKey>,
    pub udp_flows: Map<FlowKey, u64>,
    pub guest_udp: Set<GuestUdpKey>,
    pub macs: Map<Ipv4Addr, MacAddr>,
    pub probes: ProbeView,
    pub ip_id: u16,
    pub eph_counter: u32,
}

impl View for NatEngine {
    type V = NatView;

    closed spec fn view(&self) -> NatView {
        NatView {
            cfg: self.cfg,
            tcp_flows: self.tcp_flows@.dom(),
            udp_flows: self.udp_flows@,
            guest_udp: self.guest_udp@.dom(),
            macs: self.macs@,
            probes: self.probes@,
            ip_id: self.ip_id,
            eph_counter: self.eph_counter,
        }
    }
}

/// What is to be done with a frame.
#[derive(Debug)]
pub enum NatAction {
    Nothing,
    /// Send this frame to the guest.
    Send(Vec<u8>),
    /// Feed a segment to the flow that owns it.
    FeedTcp { key: FlowKey, seg: Segment },
    /// Open a flow to the destination that the guest's SYN asks for.
    OpenTcp { key: FlowKey, guest_mac: MacAddr, seg: Segment },
    /// Hand a guest's datagram to the engine-bound flow that it answers.
    DeliverUdp { guest: GuestUdpKey, payload: Vec<u8> },
    /// Forward a datagram over the flow's host socket, opening one if there
    /// is none yet.
    ForwardUdp { key: FlowKey, guest_mac: MacAddr, payload: Vec<u8>, open: bool },
    /// Probe a destination, then answer the echo request in `pkt`.
    Probe { dst: Ipv4Addr, guest_mac: MacAddr, pkt: Vec<u8> },
}

/// The contents of a [`NatAction`].
pub ghost enum NatActionView {
    Nothing,
    Send(Seq<u8>),
    FeedTcp { key: FlowKey, seg: SegmentView },
    OpenTcp { key: FlowKey, guest_mac: MacAddr, seg: SegmentView },
    DeliverUdp { guest: GuestUdpKey, payload: Seq<u8> },
    ForwardUdp { key: FlowKey, guest_mac: MacAddr, payload: Seq<u8>, open: bool },
    Probe { dst: Ipv4Addr, guest_mac: MacAddr, pkt: Seq<u8> },
}

impl View for NatAction {
    type V = NatActionView;

    open spec fn view(&self) -> NatActionView {
        match *self {
            NatAction::Nothing => NatActionView::Nothing,
            NatAction::Send(f) => NatActionView::Send(f@),
            NatAction::FeedTcp { key, seg } => NatActionView::FeedTcp { key, seg: seg@ },
            NatAction::OpenTcp { key, guest_mac, seg } => NatActionView::OpenTcp {
                key,
                guest_mac,
                seg: seg@,
            },
            NatAction::DeliverUdp { guest, payload } => NatActionView::DeliverUdp {
                guest,
                payload: payload@,
            },
            NatAction::ForwardUdp { key, guest_mac, payload, open } => NatActionView::ForwardUdp {
                key,
                guest_mac,
                payload: payload@,
                open,
            },
            NatAction::Probe { dst, guest_mac, pkt } => NatActionView::Probe {
                dst,
                guest_mac,
                pkt: pkt@,
            },
        }
    }
}

/// The next identification number.
pub open spec fn next_id(id: u16) -> u16 {
    if id == 0xFFFF {
        0
    } else {
        (id + 1) as u16
    }
}

/// The flow that a packet's addresses and ports name.
pub open spec fn flow_key(p: Seq<u8>) -> FlowKey {
    FlowKey {
        guest_ip: ip_at(p, 12),
        guest_port: word_at(ipv4_payload(p), 0),
        dst_ip: ip_at(p, 16),
        dst_port: word_at(ipv4_payload(p), 2),
    }
}

/// The contents of a parsed TCP segment.
pub open spec fn segment_of(t: Seq<u8>) -> SegmentView {
    SegmentView {
        seq: crate::net::wire::be32(t, 4) as u32,
        ack: crate::net::wire::be32(t, 8) as u32,
        flags: t[13],
        window: word_at(t, 14),
        payload: t.skip(tcp_header_len(t)),
        mss: mss_of(t.subrange(20, tcp_header_len(t))),
    }
}

/// A packet as a frame from the gateway to a guest.
pub open spec fn to_guest(cfg: NatConfig, mac: MacAddr, packet: Seq<u8>) -> Seq<u8> {
    eth_bytes(mac.0@, cfg.gw_mac.0@, ETHERTYPE_IPV4, packet)
}

/// What the engine does with a guest's TCP packet: segments of a known flow go
/// to it, a bare SYN opens one, and anything else but a reset is reset.
pub open spec fn tcp_step(n: NatView, p: Seq<u8>, mac: MacAddr) -> (NatView, NatActionView) {
    let t = ipv4_payload(p);
    let key = flow_key(p);
    if !tcp_wf(t) {
        (n, NatActionView::Nothing)
    } else if n.tcp_flows.contains(key) {
        (n, NatActionView::FeedTcp { key, seg: segment_of(t) })
    } else if flagged(t[13], TCP_SYN) && !flagged(t[13], TCP_ACK) {
        (
            NatView { tcp_flows: n.tcp_flows.insert(key), ..n },
            NatActionView::OpenTcp { key, guest_mac: mac, seg: segment_of(t) },
        )
    } else if !flagged(t[13], TCP_RST) {
        (
            NatView { ip_id: next_id(n.ip_id), ..n },
            NatActionView::Send(
                to_guest(
                    n.cfg,
                    mac,
                    ipv4_bytes(
                        ip_at(p, 16),
                        ip_at(p, 12),
                        IPPROTO_TCP,
                        64,
                        tcp_bytes(ip_at(p, 16), ip_at(p, 12), reset_head(t), Seq::empty()),
                        n.ip_id,
                    ),
                ),
            ),
        )
    } else {
        (n, NatActionView::Nothing)
    }
}

/// What the engine does with a guest's UDP packet: answers to engine-bound
/// flows are delivered, everything else is forwarded.
pub open spec fn udp_step(n: NatView, p: Seq<u8>, mac: MacAddr) -> (NatView, NatActionView) {
    let d = ipv4_payload(p);
    if !udp_wf(d) {
        (n, NatActionView::Nothing)
    } else if ip_at(p, 16) == n.cfg.gw_ip {
        let guest = GuestUdpKey {
            guest_ip: ip_at(p, 12),
            guest_port: word_at(d, 0),
            gw_port: word_at(d, 2),
        };
        if n.guest_udp.contains(guest) {
            (n, NatActionView::DeliverUdp { guest, payload: udp_payload(d) })
        } else {
            (n, NatActionView::Nothing)
        }
    } else {
        let key = flow_key(p);
        (
            n,
            NatActionView::ForwardUdp {
                key,
                guest_mac: mac,
                payload: udp_payload(d),
                open: !n.udp_flows.dom().contains(key),
            },
        )
    }
}

/// The answer to an echo request, by whether its destination is reachable: a
/// mirrored reply, or a host-unreachable from the gateway.
pub open spec fn echo_answer(n: NatView, mac: MacAddr, pkt: Seq<u8>, reachable: bool) -> (
    NatView,
    Option<Seq<u8>>,
) {
    if reachable {
        (
            n,
            if is_echo_request(pkt) {
                Some(to_guest(n.cfg, mac, echo_reply_bytes(pkt)))
            } else {
                None
            },
        )
    } else if ipv4_wf(pkt) {
        (
            NatView { ip_id: next_id(n.ip_id), ..n },
            Some(
                to_guest(
                    n.cfg,
                    mac,
                    ipv4_bytes(
                        n.cfg.gw_ip,
                        ip_at(pkt, 12),
                        IPPROTO_ICMP,
                        64,
                        icmp_bytes(
                            ICMP_DEST_UNREACHABLE,
                            1,
                            seq![0u8, 0, 0, 0],
                            pkt.take(unreachable_quote_len(pkt)),
                        ),
                        n.ip_id,
                    ),
                ),
            ),
        )
    } else {
        (n, None)
    }
}

/// Send an answer, if there is one.
pub open spec fn send_answer(answer: Option<Seq<u8>>) -> NatActionView {
    match answer {
        Some(f) => NatActionView::Send(f),
        None => NatActionView::Nothing,
    }
}

/// What the engine does with a guest's ICMP packet: an echo request to
/// elsewhere is answered from the cache, or a probe is claimed for it, or it
/// is dropped while one is in flight.
pub open spec fn echo_step(n: NatView, p: Seq<u8>, mac: MacAddr, now: u64) -> (
    NatView,
    NatActionView,
) {
    let m = ipv4_payload(p);
    let dst = ip_at(p, 16);
    let pkt = p.take(be16(p, 2));
    if !icmp_wf(m) || m[0] != ICMP_ECHO_REQUEST || dst == n.cfg.gw_ip {
        (n, NatActionView::Nothing)
    } else {
        match cached_result(n.probes, dst, now) {
            Some(ok) => {
                let (after, answer) = echo_answer(n, mac, pkt, ok);
                (after, send_answer(answer))
            },
            None => if n.probes.pending.contains(dst) {
                (n, NatActionView::Nothing)
            } else {
                (
                    NatView {
                        probes: ProbeView {
                            pending: n.probes.pending.insert(dst),
                            ..n.probes
                        },
                        ..n
                    },
                    NatActionView::Probe { dst, guest_mac: mac, pkt },
                )
            },
        }
    }
}

/// What the engine does with a frame.
pub open spec fn nat_step(n0: NatView, f: Seq<u8>, now: u64) -> (NatView, NatActionView) {
    let p = f.skip(14);
    let mac = mac_of(f, 6);
    if !eth_wf(f) || be16(f, 12) != ETHERTYPE_IPV4 || !ipv4_wf(p) {
        (n0, NatActionView::Nothing)
    } else {
        let n = NatView { macs: n0.macs.insert(ip_at(p, 12), mac), ..n0 };
        if p[9] == IPPROTO_TCP {
            tcp_step(n, p, mac)
        } else if p[9] == IPPROTO_UDP {
            udp_step(n, p, mac)
        } else if p[9] == IPPROTO_ICMP {
            echo_step(n, p, mac, now)
        } else {
            (n, NatActionView::Nothing)
        }
    }
}

/// The ephemeral port of a counter value.
pub open spec fn eph_port(counter: int) -> u16 {
    (49152 + counter % 16384) as u16
}

impl NatEngine {
    /// A new engine.
    pub fn new(cfg: NatConfig) -> (r: NatEngine)
        ensures
            r@ == (NatView {
                cfg,
                tcp_flows: Set::empty(),
                udp_flows: Map::empty(),
                guest_udp: Set::empty(),
                macs: Map::empty(),
                probes: ProbeView { cache: Map::empty(), pending: Set::empty() },
                ip_id: 1,
                eph_counter: 0,
            }),
    {
        let r = NatEngine {
            cfg,
            tcp_flows: Table::new(),
            udp_flows: Table::new(),
            guest_udp: Table::new(),
            macs: Table::new(),
            probes: ProbeState::new(),
            ip_id: 1,
            eph_counter: 0,
        };
        assert(r@.tcp_flows =~= Set::<FlowKey>::empty());
        assert(r@.guest_udp =~= Set::<GuestUdpKey>::empty());
        r
    }

    pub fn config(&self) -> (r: NatConfig)
        ensures
            r == self@.cfg,
    {
        self.cfg
    }

    /// Prime the IP to MAC table (the gateway sees ARP/DHCP and knows best).
    pub fn learn_mac(&mut self, ip: Ipv4Addr, mac: MacAddr)
        ensures
            final(self)@ == (NatView { macs: old(self)@.macs.insert(ip, mac), ..old(self)@ }),
    {
        self.macs.insert(ip, mac);
    }

    /// The hardware address of a guest, or the broadcast address.
    pub fn guest_mac(&self, ip: Ipv4Addr) -> (r: MacAddr)
        ensures
            self@.macs.dom().contains(ip) ==> r == self@.macs[ip],
            !self@.macs.dom().contains(ip) ==> r.is_broadcast(),
    {
        match self.macs.get(ip) {
            Some(mac) => mac,
            None => MacAddr::broadcast(),
        }
    }

    /// The next IP identification number.
    pub fn next_ip_id(&mut self) -> (r: u16)
        ensures
            r == old(self)@.ip_id,
            final(self)@ == (NatView { ip_id: next_id(r), ..old(self)@ }),
    {
        let r: u16 = self.ip_id;
        self.ip_id = r.wrapping_add(1);
        r
    }

    /// Entry point: one guest-to-world IPv4 ethernet frame (dst MAC =
    /// gateway). Non-IPv4 and unparseable frames are silently dropped.
    pub fn handle_frame(&mut self, eth_frame: &[u8], now: u64) -> (r: NatAction)
        ensures
            (final(self)@, r@) == nat_step(old(self)@, eth_frame@, now),
    {
        let eth = match EthView::parse(eth_frame) {
            Some(eth) => eth,
            None => return NatAction::Nothing,
        };
        if eth.ethertype() != ETHERTYPE_IPV4 {
            return NatAction::Nothing;
        }
        let src_mac = eth.src_mac();
        let ip = match Ipv4View::parse(eth.payload()) {
            Some(ip) => ip,
            None => return NatAction::Nothing,
        };
        self.learn_mac(ip.src(), src_mac);
        let proto: u8 = ip.proto();
        if proto == IPPROTO_TCP {
            self.handle_tcp(&ip, src_mac)
        } else if proto == IPPROTO_UDP {
            self.handle_udp(&ip, src_mac)
        } else if proto == IPPROTO_ICMP {
            self.handle_echo(eth.payload(), &ip, src_mac, now)
        } else {
            NatAction::Nothing
        }
    }

    fn handle_tcp(&mut self, ip: &Ipv4View<'_>, src_mac: MacAddr) -> (r: NatAction)
        requires
            ipv4_wf(ip@),
        ensures
            (final(self)@, r@) == tcp_step(old(self)@, ip@, src_mac),
    {
        let tcp = match TcpView::parse(ip.payload()) {
            Some(tcp) => tcp,
            None => return NatAction::Nothing,
        };
        let key = FlowKey {
            guest_ip: ip.src(),
            guest_port: tcp.src_port(),
            dst_ip: ip.dst(),
            dst_port: tcp.dst_port(),
        };
        let seg = Segment::from_view(&tcp);
        assert(key == flow_key(ip@));
        assert(seg@ == segment_of(tcp@));
        if self.tcp_flows.contains(key) {
            return NatAction::FeedTcp { key, seg };
        }
        if seg.is_syn() && !seg.is_ack() {
            self.tcp_flows.insert(key, ());
            assert(self@.tcp_flows =~= old(self)@.tcp_flows.insert(key));
            NatAction::OpenTcp { key, guest_mac: src_mac, seg }
        } else if !seg.is_rst() {
            // Anything unexpected for an unknown flow: reset it.
            let id: u16 = self.next_ip_id();
            match rst_for(ip, &tcp, id) {
                Some(rst) => NatAction::Send(self.frame_to(src_mac, rst.as_slice())),
                None => NatAction::Nothing,
            }
        } else {
            NatAction::Nothing
        }
    }

    fn handle_udp(&mut self, ip: &Ipv4View<'_>, src_mac: MacAddr) -> (r: NatAction)
        requires
            ipv4_wf(ip@),
        ensures
            (final(self)@, r@) == udp_step(old(self)@, ip@, src_mac),
    {
        let udp = match UdpView::parse(ip.payload()) {
            Some(udp) => udp,
            None => return NatAction::Nothing,
        };
        if ip.dst() == self.cfg.gw_ip {
            // Reply to an engine-originated flow.
            let guest = GuestUdpKey {
                guest_ip: ip.src(),
                guest_port: udp.src_port(),
                gw_port: udp.dst_port(),
            };
            return if self.guest_udp.contains(guest) {
                NatAction::DeliverUdp { guest, payload: slice_to_vec(udp.payload()) }
            } else {
                NatAction::Nothing
            };
        }
        let key = FlowKey {
            guest_ip: ip.src(),
            guest_port: udp.src_port(),
            dst_ip: ip.dst(),
            dst_port: udp.dst_port(),
        };
        assert(key == flow_key(ip@));
        let open = !self.udp_flows.contains(key);
        NatAction::ForwardUdp {
            key,
            guest_mac: src_mac,
            payload: slice_to_vec(udp.payload()),
            open,
        }
    }

    fn handle_echo(&mut self, raw: &[u8], ip: &Ipv4View<'_>, src_mac: MacAddr, now: u64) -> (r:
        NatAction)
        requires
            ipv4_wf(ip@),
            raw@ == ip@,
        ensures
            (final(self)@, r@) == echo_step(old(self)@, ip@, src_mac, now),
    {
        let msg = match IcmpView::parse(ip.payload()) {
            Some(msg) => msg,
            None => return NatAction::Nothing,
        };
        let dst = ip.dst();
        if msg.icmp_type() != ICMP_ECHO_REQUEST || dst == self.cfg.gw_ip {
            // Echo to the gateway itself is answered by the gateway, not
            // here; everything but echo requests is dropped.
            return NatAction::Nothing;
        }
        let pkt = whole_packet(raw, ip);
        match self.probes.cached(dst, now) {
            Some(ok) => match self.respond(src_mac, pkt.as_slice(), ok) {
                Some(f) => NatAction::Send(f),
                None => NatAction::Nothing,
            },
            None => {
                if self.probes.claim(dst) {
                    NatAction::Probe { dst, guest_mac: src_mac, pkt }
                } else {
                    assert(old(self)@.probes.pending.insert(dst) =~= old(self)@.probes.pending);
                    NatAction::Nothing
                }
            },
        }
    }

    /// A probe came back: remember the result, and answer the request that
    /// asked for it.
    pub fn probe_done(
        &mut self,
        dst: Ipv4Addr,
        ok: bool,
        guest_mac: MacAddr,
        pkt: &[u8],
        now: u64,
    ) -> (r: Option<Vec<u8>>)
        ensures
            ({
                let n = NatView {
                    probes: ProbeView {
                        cache: old(self)@.probes.cache.insert(dst, (ok, now)),
                        pending: old(self)@.probes.pending.remove(dst),
                    },
                    ..old(self)@
                };
                let (after, answer) = echo_answer(n, guest_mac, pkt@, ok);
                &&& final(self)@ == after
                &&& r is Some <==> answer is Some
                &&& r matches Some(f) ==> answer == Some(f@)
            }),
    {
        self.probes.complete(dst, ok, now);
        self.respond(guest_mac, pkt, ok)
    }

    /// Synthesize the guest-facing answer: a mirrored echo reply on success,
    /// an ICMP host-unreachable from the gateway on failure.
    fn respond(&mut self, guest_mac: MacAddr, pkt: &[u8], reachable: bool) -> (r: Option<Vec<u8>>)
        ensures
            final(self)@ == echo_answer(old(self)@, guest_mac, pkt@, reachable).0,
            r is Some <==> echo_answer(old(self)@, guest_mac, pkt@, reachable).1 is Some,
            r matches Some(f) ==> echo_answer(old(self)@, guest_mac, pkt@, reachable).1 == Some(
                f@,
            ),
    {
        if reachable {
            return match icmp_echo_reply_for(pkt) {
                Some(reply) => Some(self.frame_to(guest_mac, reply.as_slice())),
                None => None,
            };
        }
        let ip = match Ipv4View::parse(pkt) {
            Some(ip) => ip,
            None => return None,
        };
        let msg = icmp_unreachable_for(pkt, 1);
        assert(pkt@.take(unreachable_quote_len(pkt@)).len() <= 68);
        let id: u16 = self.next_ip_id();
        match ipv4_build(self.cfg.gw_ip, ip.src(), IPPROTO_ICMP, 64, msg.as_slice(), id) {
            Some(out) => Some(self.frame_to(guest_mac, out.as_slice())),
            None => None,
        }
    }

    /// Wrap an IPv4 packet in ethernet (src = gateway MAC).
    pub fn frame_to(&self, dst_mac: MacAddr, ipv4_packet: &[u8]) -> (r: Vec<u8>)
        ensures
            r@ == to_guest(self@.cfg, dst_mac, ipv4_packet@),
    {
        eth_build(dst_mac, self.cfg.gw_mac, ETHERTYPE_IPV4, ipv4_packet)
    }

    // -- flow tables ----------------------------------------------------------

    /// A host socket was opened for an outbound UDP flow, or used again.
    pub fn udp_used(&mut self, key: FlowKey, now: u64)
        ensures
            final(self)@ == with_udp_use(old(self)@, key, now),
    {
        self.udp_flows.insert(key, now);
    }

    /// Nothing came back on an outbound UDP flow for a while: is it idle, and
    /// then torn down?
    pub fn udp_expire(&mut self, key: FlowKey, now: u64) -> (r: bool)
        ensures
            r == udp_idle(old(self)@, key, now),
            final(self)@ == (if r {
                NatView { udp_flows: old(self)@.udp_flows.remove(key), ..old(self)@ }
            } else {
                old(self)@
            }),
    {
        let live = match self.udp_flows.get(key) {
            Some(at) => udp_live(at, now),
            None => false,
        };
        if !live {
            let _ = self.udp_flows.remove(key);
        }
        !live
    }

    /// An outbound UDP flow failed.
    pub fn remove_udp_flow(&mut self, key: FlowKey)
        ensures
            final(self)@ == (NatView {
                udp_flows: old(self)@.udp_flows.remove(key),
                ..old(self)@
            }),
    {
        let _ = self.udp_flows.remove(key);
    }

    /// A vTCP flow is over.
    pub fn remove_tcp_flow(&mut self, key: FlowKey)
        ensures
            final(self)@ == (NatView {
                tcp_flows: old(self)@.tcp_flows.remove(key),
                ..old(self)@
            }),
    {
        let _ = self.tcp_flows.remove(key);
        assert(self@.tcp_flows =~= old(self)@.tcp_flows.remove(key));
    }

    /// Next port from the 49152..=65535 ephemeral range (round-robin).
    pub fn next_ephemeral(&mut self) -> (r: u16)
        ensures
            r == eph_port(old(self)@.eph_counter as int),
            final(self)@ == (NatView {
                eph_counter: ((old(self)@.eph_counter + 1) % 0x1_0000_0000) as u32,
                ..old(self)@
            }),
    {
        let n: u32 = self.eph_counter;
        self.eph_counter = n.wrapping_add(1);
        49152 + (n % 16384) as u16
    }
}

fn udp_live(at: u64, now: u64) -> (r: bool)
    ensures
        r == (now - at < UDP_IDLE_MS),
{
    now.saturating_sub(at) < UDP_IDLE_MS
}

fn whole_packet(raw: &[u8], ip: &Ipv4View<'_>) -> (r: Vec<u8>)
    requires
        ipv4_wf(ip@),
        raw@ == ip@,
    ensures
        r@ == raw@.take(be16(raw@, 2)),
{
    let total: usize = ip.total_len() as usize;
    let s = slice_subrange(raw, 0, total);
    assert(s@ =~= raw@.take(be16(raw@, 2)));
    slice_to_vec(s)
}

/// The flow of an active open to a guest, from the ephemeral port that is `k`
/// steps ahead.
pub open spec fn active_key(n: NatView, guest_ip: Ipv4Addr, guest_port: u16, k: int) -> FlowKey {
    FlowKey { guest_ip, guest_port, dst_ip: n.cfg.gw_ip, dst_port: eph_port(n.eph_counter + k) }
}

/// The engine-bound UDP flow from the ephemeral port that is `k` steps ahead.
pub open spec fn bound_key(
    n: NatView,
    guest_ip: Ipv4Addr,
    guest_port: u16,
    k: int,
) -> GuestUdpKey {
    GuestUdpKey { guest_ip, guest_port, gw_port: eph_port(n.eph_counter + k) }
}

/// The engine after `k` ephemeral ports were tried.
pub open spec fn tried_ports(n: NatView, k: int) -> NatView {
    NatView { eph_counter: ((n.eph_counter + k) % 0x1_0000_0000) as u32, ..n }
}

/// Some ephemeral port is still free for a UDP flow to this guest port.
pub open spec fn udp_port_free(n: NatView, guest_ip: Ipv4Addr, guest_port: u16) -> bool {
    exists|k: int|
        0 <= k < EPHEMERAL_PORTS && !n.guest_udp.contains(
            #[trigger] bound_key(n, guest_ip, guest_port, k),
        )
}

/// A datagram from the engine to a guest: the frame, and the engine after it.
pub open spec fn udp_frame(
    n: NatView,
    mac: MacAddr,
    src: (Ipv4Addr, u16),
    dst: (Ipv4Addr, u16),
    payload: Seq<u8>,
) -> (NatView, Option<Seq<u8>>) {
    if payload.len() + 8 > 0xFFFF {
        (n, None)
    } else {
        let id = n.ip_id;
        let after = NatView { ip_id: next_id(id), ..n };
        if payload.len() + 28 > 0xFFFF {
            (after, None)
        } else {
            (
                after,
                Some(
                    to_guest(
                        n.cfg,
                        mac,
                        ipv4_bytes(
                            src.0,
                            dst.0,
                            IPPROTO_UDP,
                            64,
                            udp_bytes(src.0, dst.0, src.1, dst.1, payload),
                            id,
                        ),
                    ),
                ),
            )
        }
    }
}

/// The hardware address that frames to a guest go to.
pub open spec fn mac_for(n: NatView, ip: Ipv4Addr, mac: MacAddr) -> bool {
    if n.macs.dom().contains(ip) {
        mac == n.macs[ip]
    } else {
        mac.is_broadcast()
    }
}

proof fn lemma_eph(c: int)
    requires
        0 <= c,
    ensures
        eph_port(c % 0x1_0000_0000) == eph_port(c),
        49152 <= eph_port(c) <= 65535,
{
    assert((c % 0x1_0000_0000) % 16384 == c % 16384);
}

impl NatEngine {
    /// Reserve an ephemeral gateway port and a flow-table slot for an active
    /// vTCP open: the first free port from the round robin.
    pub fn alloc_active_tcp_flow(&mut self, guest_ip: Ipv4Addr, guest_port: u16) -> (r: Option<
        FlowKey,
    >)
        ensures
            match r {
                Some(key) => exists|k: int|
                    {
                        &&& 0 <= k < EPHEMERAL_PORTS
                        &&& key == #[trigger] active_key(old(self)@, guest_ip, guest_port, k)
                        &&& !old(self)@.tcp_flows.contains(key)
                        &&& forall|j: int|
                            0 <= j < k ==> old(self)@.tcp_flows.contains(
                                #[trigger] active_key(old(self)@, guest_ip, guest_port, j),
                            )
                        &&& final(self)@ == (NatView {
                            tcp_flows: old(self)@.tcp_flows.insert(key),
                            ..tried_ports(old(self)@, k + 1)
                        })
                    },
                None => {
                    &&& forall|j: int|
                        0 <= j < EPHEMERAL_PORTS ==> old(self)@.tcp_flows.contains(
                            #[trigger] active_key(old(self)@, guest_ip, guest_port, j),
                        )
                    &&& final(self)@ == tried_ports(old(self)@, EPHEMERAL_PORTS as int)
                },
            },
    {
        let mut k: u32 = 0;
        while k < EPHEMERAL_PORTS
            invariant
                k <= EPHEMERAL_PORTS,
                self@ == tried_ports(old(self)@, k as int),
                forall|j: int|
                    0 <= j < k ==> old(self)@.tcp_flows.contains(
                        #[trigger] active_key(old(self)@, guest_ip, guest_port, j),
                    ),
            decreases EPHEMERAL_PORTS - k,
        {
            let port: u16 = self.next_ephemeral();
            proof {
                lemma_eph(old(self)@.eph_counter + k);
            }
            let key = FlowKey { guest_ip, guest_port, dst_ip: self.cfg.gw_ip, dst_port: port };
            assert(key == active_key(old(self)@, guest_ip, guest_port, k as int));
            assert(self@ == tried_ports(old(self)@, k + 1));
            if !self.tcp_flows.contains(key) {
                self.tcp_flows.insert(key, ());
                assert(self@.tcp_flows =~= old(self)@.tcp_flows.insert(key));
                return Some(key);
            }
            k = k + 1;
        }
        None
    }

    /// Is there a port left for [`NatEngine::udp_bind_guest_flow`]?
    pub fn udp_port_left(&self, guest_ip: Ipv4Addr, guest_port: u16) -> (r: bool)
        ensures
            r == udp_port_free(self@, guest_ip, guest_port),
    {
        let mut k: u32 = 0;
        while k < EPHEMERAL_PORTS
            invariant
                k <= EPHEMERAL_PORTS,
                forall|j: int|
                    0 <= j < k ==> self@.guest_udp.contains(
                        #[trigger] bound_key(self@, guest_ip, guest_port, j),
                    ),
            decreases EPHEMERAL_PORTS - k,
        {
            let c: u32 = self.eph_counter.wrapping_add(k);
            proof {
                lemma_eph(self@.eph_counter + k);
            }
            let key = GuestUdpKey { guest_ip, guest_port, gw_port: 49152 + (c % 16384) as u16 };
            assert(key == bound_key(self@, guest_ip, guest_port, k as int));
            if !self.guest_udp.contains(key) {
                return true;
            }
            k = k + 1;
        }
        false
    }

    /// Bind a bidirectional UDP exchange with a guest port: payloads go out
    /// as datagrams `gw_ip:port` to `guest:port`, and the datagrams that the
    /// guest sends back to `gw_ip:port` are delivered
    /// ([`NatAction::DeliverUdp`]). Returns the gateway port: the first free
    /// one from the round robin.
    pub fn udp_bind_guest_flow(&mut self, guest_ip: Ipv4Addr, guest_port: u16) -> (r: u16)
        requires
            udp_port_free(old(self)@, guest_ip, guest_port),
        ensures
            exists|k: int|
                {
                    &&& 0 <= k < EPHEMERAL_PORTS
                    &&& r == (#[trigger] bound_key(old(self)@, guest_ip, guest_port, k)).gw_port
                    &&& !old(self)@.guest_udp.contains(
                        bound_key(old(self)@, guest_ip, guest_port, k),
                    )
                    &&& forall|j: int|
                        0 <= j < k ==> old(self)@.guest_udp.contains(
                            #[trigger] bound_key(old(self)@, guest_ip, guest_port, j),
                        )
                    &&& final(self)@ == (NatView {
                        guest_udp: old(self)@.guest_udp.insert(
                            bound_key(old(self)@, guest_ip, guest_port, k),
                        ),
                        ..tried_ports(old(self)@, k + 1)
                    })
                },
    {
        let mut k: u32 = 0;
        loop
            invariant
                k <= EPHEMERAL_PORTS,
                udp_port_free(old(self)@, guest_ip, guest_port),
                self@ == tried_ports(old(self)@, k as int),
                forall|j: int|
                    0 <= j < k ==> old(self)@.guest_udp.contains(
                        #[trigger] bound_key(old(self)@, guest_ip, guest_port, j),
                    ),
            decreases EPHEMERAL_PORTS - k,
        {
            let port: u16 = self.next_ephemeral();
            proof {
                lemma_eph(old(self)@.eph_counter + k);
            }
            let key = GuestUdpKey { guest_ip, guest_port, gw_port: port };
            assert(key == bound_key(old(self)@, guest_ip, guest_port, k as int));
            assert(self@ == tried_ports(old(self)@, k + 1));
            if !self.guest_udp.contains(key) {
                self.guest_udp.insert(key, ());
                assert(self@.guest_udp =~= old(self)@.guest_udp.insert(key));
                return port;
            }
            k = k + 1;
        }
    }

    /// Tear an engine-bound UDP flow down.
    pub fn remove_guest_flow(&mut self, key: GuestUdpKey)
        ensures
            final(self)@ == (NatView {
                guest_udp: old(self)@.guest_udp.remove(key),
                ..old(self)@
            }),
    {
        let _ = self.guest_udp.remove(key);
        assert(self@.guest_udp =~= old(self)@.guest_udp.remove(key));
    }

    /// A datagram to a guest; `None` when the payload does not fit in one.
    pub fn send_udp_to_guest(
        &mut self,
        dst_mac: MacAddr,
        src: (Ipv4Addr, u16),
        dst: (Ipv4Addr, u16),
        payload: &[u8],
    ) -> (r: Option<Vec<u8>>)
        ensures
            final(self)@ == udp_frame(old(self)@, dst_mac, src, dst, payload@).0,
            r is Some <==> udp_frame(old(self)@, dst_mac, src, dst, payload@).1 is Some,
            r matches Some(f) ==> udp_frame(old(self)@, dst_mac, src, dst, payload@).1 == Some(
                f@,
            ),
    {
        let seg = match udp_build(src.0, dst.0, src.1, dst.1, payload) {
            Some(seg) => seg,
            None => return None,
        };
        let id: u16 = self.next_ip_id();
        match ipv4_build(src.0, dst.0, IPPROTO_UDP, 64, seg.as_slice(), id) {
            Some(pkt) => Some(self.frame_to(dst_mac, pkt.as_slice())),
            None => None,
        }
    }

    /// One-shot UDP datagram to a guest from `gw_ip` and an ephemeral port.
    /// Replies (if any) are not routed anywhere; use
    /// [`NatEngine::udp_bind_guest_flow`] for request/response exchanges.
    pub fn udp_to_guest(&mut self, guest_ip: Ipv4Addr, guest_port: u16, payload: &[u8]) -> (r:
        Option<Vec<u8>>)
        ensures
            exists|mac: MacAddr|
                {
                    let src = (old(self)@.cfg.gw_ip, eph_port(old(self)@.eph_counter as int));
                    let (after, f) = udp_frame(
                        tried_ports(old(self)@, 1),
                        mac,
                        src,
                        (guest_ip, guest_port),
                        payload@,
                    );
                    &&& #[trigger] mac_for(old(self)@, guest_ip, mac)
                    &&& final(self)@ == after
                    &&& r is Some <==> f is Some
                    &&& r matches Some(bytes) ==> f == Some(bytes@)
                },
    {
        let src_port: u16 = self.next_ephemeral();
        let mac = self.guest_mac(guest_ip);
        assert(mac_for(old(self)@, guest_ip, mac));
        assert(self@ == tried_ports(old(self)@, 1));
        let gw = self.cfg.gw_ip;
        self.send_udp_to_guest(mac, (gw, src_port), (guest_ip, guest_port), payload)
    }
}

/// The engine once an outbound UDP flow was used.
pub open spec fn with_udp_use(n: NatView, key: FlowKey, now: u64) -> NatView {
    NatView { udp_flows: n.udp_flows.insert(key, now), ..n }
}

/// Whether an outbound UDP flow was not used for the whole idle time.
pub open spec fn udp_idle(n: NatView, key: FlowKey, now: u64) -> bool {
    !(n.udp_flows.dom().contains(key) && now - n.udp_flows[key] < UDP_IDLE_MS)
}

// -- laws --------------------------------------------------------------------

/// Traffic on a UDP flow that is known takes no second entry, and a flow
/// expires once it was not used for the idle time, and not before.
pub proof fn udp_table_stays_bounded(n: NatView, key: FlowKey, first: u64, last: u64, now: u64)
    ensures
        with_udp_use(with_udp_use(n, key, first), key, last).udp_flows.dom()
            == n.udp_flows.dom().insert(key),
        udp_idle(with_udp_use(n, key, last), key, now) <==> now >= last + UDP_IDLE_MS,
{
    assert(n.udp_flows.dom().insert(key).insert(key) =~= n.udp_flows.dom().insert(key));
}

/// The flow that a guest's SYN opens gets every later segment of the guest on
/// that flow, whatever other frames came between, until it is removed.
pub proof fn opened_flow_is_fed(n: NatView, syn: Seq<u8>, now: u64, m: NatView, f: Seq<u8>, at: u64)
    requires
        nat_step(n, syn, now).1 matches NatActionView::OpenTcp { key, .. } && m.tcp_flows.contains(
            key,
        ) && eth_wf(f) && be16(f, 12) == ETHERTYPE_IPV4 && ipv4_wf(f.skip(14)) && f.skip(14)[9]
            == IPPROTO_TCP && tcp_wf(ipv4_payload(f.skip(14))) && flow_key(f.skip(14)) == key,
    ensures
        nat_step(n, syn, now).0.tcp_flows.contains(flow_key(syn.skip(14))),
        nat_step(m, f, at).1 == (NatActionView::FeedTcp {
            key: flow_key(syn.skip(14)),
            seg: segment_of(ipv4_payload(f.skip(14))),
        }),
{
}

/// No frame ends a flow: what is in the flow tables stays there.
pub proof fn frames_keep_flows(n: NatView, f: Seq<u8>, now: u64, key: FlowKey, guest: GuestUdpKey)
    ensures
        n.tcp_flows.contains(key) ==> nat_step(n, f, now).0.tcp_flows.contains(key),
        nat_step(n, f, now).0.udp_flows == n.udp_flows,
        nat_step(n, f, now).0.guest_udp == n.guest_udp,
{
}

/// A flood of echo requests does not become a storm of probes: while a probe
/// for a destination is in flight, and for as long as its result is fresh, no
/// frame asks for another one.
pub proof fn one_probe_at_a_time(n: NatView, f: Seq<u8>, now: u64)
    ensures
        nat_step(n, f, now).1 matches NatActionView::Probe { dst, .. } ==> {
            &&& !n.probes.pending.contains(dst)
            &&& cached_result(n.probes, dst, now) is None
            &&& nat_step(n, f, now).0.probes.pending.contains(dst)
        },
{
}

/// A probe's result answers every echo request to that destination for ten
/// seconds from when it came.
pub proof fn probe_result_is_fresh(p: ProbeView, dst: Ipv4Addr, ok: bool, at: u64, now: u64)
    requires
        at <= now,
    ensures
        cached_result(
            ProbeView {
                cache: p.cache.insert(dst, (ok, at)),
                pending: p.pending.remove(dst),
            },
            dst,
            now,
        ) == (if now - at < 10_000 {
            Some(ok)
        } else {
            None
        }),
{
}

/// A bound UDP flow gets what the guest sends back to its port.
pub proof fn bound_flow_gets_answers(n: NatView, f: Seq<u8>, now: u64, guest: GuestUdpKey)
    requires
        n.guest_udp.contains(guest),
        eth_wf(f),
        be16(f, 12) == ETHERTYPE_IPV4,
        ipv4_wf(f.skip(14)),
        f.skip(14)[9] == IPPROTO_UDP,
        udp_wf(ipv4_payload(f.skip(14))),
        ip_at(f.skip(14), 16) == n.cfg.gw_ip,
        ip_at(f.skip(14), 12) == guest.guest_ip,
        word_at(ipv4_payload(f.skip(14)), 0) == guest.guest_port,
        word_at(ipv4_payload(f.skip(14)), 2) == guest.gw_port,
    ensures
        nat_step(n, f, now).1 == (NatActionView::DeliverUdp {
            guest,
            payload: udp_payload(ipv4_payload(f.skip(14))),
        }),
{
}

/// The ephemeral ports that the round robin goes through are those from 49152
/// to 65535, and it comes to each of them before any one twice.
#[verifier::spinoff_prover]
pub proof fn round_robin_covers_ports(n: NatView, port: u16)
    requires
        49152 <= port,
    ensures
        exists|k: int| 0 <= k < EPHEMERAL_PORTS && #[trigger] eph_port(n.eph_counter + k) == port,
        forall|j: int, k: int|
            0 <= j < k < EPHEMERAL_PORTS ==> #[trigger] eph_port(n.eph_counter + j)
                != #[trigger] eph_port(n.eph_counter + k),
{
    let c = n.eph_counter as int;
    let k = (port - 49152 - c) % 16384;
    assert((c + k) % 16384 == port - 49152);
    assert(eph_port(n.eph_counter + k) == port);
    assert forall|j: int, k: int| 0 <= j < k < EPHEMERAL_PORTS implies #[trigger] eph_port(
        n.eph_counter + j,
    ) != #[trigger] eph_port(n.eph_counter + k) by {
        lemma_eph_apart(c, j, k);
    }
}

#[verifier::spinoff_prover]
proof fn lemma_eph_apart(c: int, j: int, k: int)
    requires
        0 <= c,
        0 <= j < k < 16384,
    ensures
        eph_port(c + j) != eph_port(c + k),
{
    vstd::arithmetic::div_mod::lemma_fundamental_div_mod(c + j, 16384);
    vstd::arithmetic::div_mod::lemma_fundamental_div_mod(c + k, 16384);
    let a = (c + j) / 16384;
    let b = (c + k) / 16384;
    if (c + j) % 16384 == (c + k) % 16384 {
        assert(k - j == 16384 * (b - a));
    }
}

/// A guest that sent a packet is known by the hardware address it came from.
pub proof fn sender_is_learned(n: NatView, f: Seq<u8>, now: u64)
    requires
        eth_wf(f),
        be16(f, 12) == ETHERTYPE_IPV4,
        ipv4_wf(f.skip(14)),
    ensures
        mac_for(nat_step(n, f, now).0, ip_at(f.skip(14), 12), mac_of(f, 6)),
{
}

/// The answer to an echo request tells whether its destination can be reached:
/// the mirrored reply of the destination, or a host-unreachable of the gateway.
pub proof fn echo_answer_tells_reachability(
    n: NatView,
    mac: MacAddr,
    pkt: Seq<u8>,
    reachable: bool,
)
    requires
        is_echo_request(pkt),
    ensures
        echo_answer(n, mac, pkt, reachable).1 matches Some(f) && eth_wf(f) && mac_of(f, 0) == mac
            && ipv4_wf(f.skip(14)) && be32(f.skip(14), 16) == be32(pkt, 12) && ({
            let m = ipv4_payload(f.skip(14));
            if reachable {
                &&& be32(f.skip(14), 12) == be32(pkt, 16)
                &&& m[0] == crate::net::frame::ICMP_ECHO_REPLY
                &&& m.skip(4) == ipv4_payload(pkt).skip(4)
            } else {
                &&& be32(f.skip(14), 12) == n.cfg.gw_ip.bits
                &&& m[0] == ICMP_DEST_UNREACHABLE
                &&& m[1] == 1
            }
        }),
{
    crate::net::wire::lemma_be32_bytes(pkt, 12);
    crate::net::frame::echo_reply_answers(pkt);
    crate::net::frame::eth_round_trip(mac, n.cfg.gw_mac, ETHERTYPE_IPV4, echo_reply_bytes(pkt));
    let quote = pkt.take(unreachable_quote_len(pkt));
    let m = icmp_bytes(ICMP_DEST_UNREACHABLE, 1, seq![0u8, 0, 0, 0], quote);
    crate::net::frame::icmp_round_trip(ICMP_DEST_UNREACHABLE, 1, seq![0u8, 0, 0, 0], quote);
    crate::net::frame::ipv4_round_trip(n.cfg.gw_ip, ip_at(pkt, 12), IPPROTO_ICMP, 64, m, n.ip_id);
    crate::net::frame::eth_round_trip(
        mac,
        n.cfg.gw_mac,
        ETHERTYPE_IPV4,
        ipv4_bytes(n.cfg.gw_ip, ip_at(pkt, 12), IPPROTO_ICMP, 64, m, n.ip_id),
    );
}

/// What the engine makes of a guest's TCP segment, read off its bytes: it goes,
/// with its numbers, flags, window and data, to the flow between its two
/// endpoints, where there is one; a SYN that acknowledges nothing opens that
/// flow; anything else but a reset is answered to the sender with a reset. The
/// guest's hardware address is noted either way.
#[verifier::spinoff_prover]
#[verifier::rlimit(60)]
pub proof fn segments_are_dispatched(n: NatView, f: Seq<u8>, now: u64, hl: int, total: int)
    requires
        f.len() >= 14,
        f[12] == 8 && f[13] == 0,
        shows_ports(f.skip(14), hl, total),
        f.skip(14)[9] == 6,
    ensures
        ({
            let p = f.skip(14);
            let (after, action) = nat_step(n, f, now);
            let key = FlowKey {
                guest_ip: Ipv4Addr { bits: four_bytes(p, 12) as u32 },
                guest_port: two_bytes(p, hl) as u16,
                dst_ip: Ipv4Addr { bits: four_bytes(p, 16) as u32 },
                dst_port: two_bytes(p, hl + 2) as u16,
            };
            let known = n.tcp_flows.contains(key);
            let flags = p[hl + 13];
            let opens = flags & 0x02 != 0 && flags & 0x10 == 0;
            &&& after.macs == n.macs.insert(key.guest_ip, mac_of(f, 6))
            &&& known ==> (action matches NatActionView::FeedTcp { key: k, seg } && k == key
                && carries(seg, p, hl, total))
            &&& !known && opens ==> (action matches NatActionView::OpenTcp {
                key: k,
                guest_mac,
                seg,
            } && k == key && guest_mac == mac_of(f, 6) && carries(seg, p, hl, total))
            &&& !known && !opens ==> (action is Send <==> flags & 0x04 == 0) && (action is Nothing
                <==> flags & 0x04 != 0)
            &&& after.tcp_flows == (if !known && opens {
                n.tcp_flows.insert(key)
            } else {
                n.tcp_flows
            })
        }),
{
    let p = f.skip(14);
    let t = ipv4_payload(p);
    assert(t.len() == total - hl);
    assert forall|i: int| 0 <= i < t.len() implies #[trigger] t[i] == p[hl + i] by {}
    assert(t[0] == p[hl] && t[1] == p[hl + 1] && t[2] == p[hl + 2] && t[3] == p[hl + 3]);
    assert(t[4] == p[hl + 4] && t[5] == p[hl + 5] && t[6] == p[hl + 6] && t[7] == p[hl + 7]);
    assert(t[8] == p[hl + 8] && t[9] == p[hl + 9] && t[10] == p[hl + 10] && t[11] == p[hl + 11]);
    assert(t[12] == p[hl + 12] && t[13] == p[hl + 13]);
    assert(t[14] == p[hl + 14] && t[15] == p[hl + 15]);
    assert(t.skip(tcp_header_len(t)) =~= p.subrange(hl + p[hl + 12] / 16 * 4, total));
}

/// Whether a segment holds what the bytes of its packet say.
pub open spec fn carries(seg: SegmentView, p: Seq<u8>, hl: int, total: int) -> bool {
    &&& seg.seq == four_bytes(p, hl + 4)
    &&& seg.ack == four_bytes(p, hl + 8)
    &&& seg.flags == p[hl + 13]
    &&& seg.window == two_bytes(p, hl + 14)
    &&& seg.payload == p.subrange(hl + p[hl + 12] / 16 * 4, total)
}

/// The reset that answers a stray segment goes back to whoever sent it, in the
/// name of the address that it was sent to.
#[verifier::spinoff_prover]
#[verifier::rlimit(60)]
pub proof fn stray_segment_is_reset(n: NatView, f: Seq<u8>, now: u64, hl: int, total: int)
    requires
        f.len() >= 14,
        f[12] == 8 && f[13] == 0,
        shows_ports(f.skip(14), hl, total),
        f.skip(14)[9] == 6,
        nat_step(n, f, now).1 is Send,
    ensures
        ({
            let p = f.skip(14);
            let a = nat_step(n, f, now).1->Send_0;
            let q = a.skip(14);
            let t = ipv4_payload(q);
            let h = reset_head(p.subrange(hl, total));
            &&& mac_of(a, 0) == mac_of(f, 6)
            &&& mac_of(a, 6) == n.cfg.gw_mac
            &&& ipv4_wf(q) && q[9] == 6
            &&& be32(q, 12) == four_bytes(p, 16)
            &&& be32(q, 16) == four_bytes(p, 12)
            &&& be16(t, 0) == h.src_port && be16(t, 2) == h.dst_port
            &&& be32(t, 4) == h.seq && be32(t, 8) == h.ack && t[13] == h.flags
        }),
{
    let p = f.skip(14);
    let t = ipv4_payload(p);
    assert(t == p.subrange(hl, total));
    let h = reset_head(t);
    let src = ip_at(p, 16);
    let dst = ip_at(p, 12);
    assert(src.bits == four_bytes(p, 16) && dst.bits == four_bytes(p, 12));
    lemma_reset_frame(src, dst, h, mac_of(f, 6), n.cfg.gw_mac, n.ip_id);
}

#[verifier::spinoff_prover]
#[verifier::rlimit(80)]
proof fn lemma_reset_frame(
    src: Ipv4Addr,
    dst: Ipv4Addr,
    h: crate::net::frame::TcpHead,
    to: MacAddr,
    from: MacAddr,
    id: u16,
)
    requires
        h.options.len() == 0,
    ensures
        ({
            let a = eth_bytes(
                to.0@,
                from.0@,
                ETHERTYPE_IPV4,
                ipv4_bytes(
                    src,
                    dst,
                    IPPROTO_TCP,
                    64,
                    tcp_bytes(src, dst, h, Seq::empty()),
                    id,
                ),
            );
            let q = a.skip(14);
            let t = ipv4_payload(q);
            &&& mac_of(a, 0) == to
            &&& mac_of(a, 6) == from
            &&& ipv4_wf(q) && q[9] == 6
            &&& be32(q, 12) == src.bits
            &&& be32(q, 16) == dst.bits
            &&& be16(t, 0) == h.src_port && be16(t, 2) == h.dst_port
            &&& be32(t, 4) == h.seq && be32(t, 8) == h.ack && t[13] == h.flags
        }),
{
    let none = crate::net::frame::tcp_sent_options(h.options);
    assert(none.len() == 0);
    crate::net::frame::tcp_round_trip(src, dst, h, Seq::empty());
    lemma_framed_packet(src, dst, IPPROTO_TCP, tcp_bytes(src, dst, h, Seq::empty()), to, from, id);
}

/// A payload that is carried to a station in a packet is read back.
proof fn lemma_framed_packet(
    src: Ipv4Addr,
    dst: Ipv4Addr,
    proto: u8,
    payload: Seq<u8>,
    to: MacAddr,
    from: MacAddr,
    id: u16,
)
    requires
        payload.len() + 20 <= 0xFFFF,
    ensures
        ({
            let a = eth_bytes(
                to.0@,
                from.0@,
                ETHERTYPE_IPV4,
                ipv4_bytes(src, dst, proto, 64, payload, id),
            );
            let q = a.skip(14);
            &&& mac_of(a, 0) == to
            &&& mac_of(a, 6) == from
            &&& ipv4_wf(q) && q[9] == proto
            &&& be32(q, 12) == src.bits
            &&& be32(q, 16) == dst.bits
            &&& ipv4_payload(q) == payload
        }),
{
    crate::net::frame::ipv4_round_trip(src, dst, proto, 64, payload, id);
    crate::net::frame::eth_round_trip(
        to,
        from,
        ETHERTYPE_IPV4,
        ipv4_bytes(src, dst, proto, 64, payload, id),
    );
}

/// What the engine makes of a guest's datagram, read off its bytes: one to the
/// gateway is delivered to the bound flow between its endpoints, or dropped
/// where there is none; any other is forwarded whole for its two endpoints, and
/// a socket is opened exactly when the flow has none.
#[verifier::spinoff_prover]
#[verifier::rlimit(60)]
pub proof fn guest_datagrams_are_dispatched(n: NatView, f: Seq<u8>, now: u64, hl: int, total: int)
    requires
        f.len() >= 14,
        f[12] == 8 && f[13] == 0,
        shows_ports(f.skip(14), hl, total),
        f.skip(14)[9] == 17,
    ensures
        ({
            let p = f.skip(14);
            let (after, action) = nat_step(n, f, now);
            let guest_ip = Ipv4Addr { bits: four_bytes(p, 12) as u32 };
            let guest_port = two_bytes(p, hl) as u16;
            let port = two_bytes(p, hl + 2) as u16;
            let data = p.subrange(hl + 8, hl + two_bytes(p, hl + 4));
            let guest = GuestUdpKey { guest_ip, guest_port, gw_port: port };
            let key = FlowKey {
                guest_ip,
                guest_port,
                dst_ip: Ipv4Addr { bits: four_bytes(p, 16) as u32 },
                dst_port: port,
            };
            let here = four_bytes(p, 16) == n.cfg.gw_ip.bits;
            &&& after == (NatView { macs: n.macs.insert(guest_ip, mac_of(f, 6)), ..n })
            &&& here && n.guest_udp.contains(guest) ==> action == (NatActionView::DeliverUdp {
                guest,
                payload: data,
            })
            &&& here && !n.guest_udp.contains(guest) ==> action == NatActionView::Nothing
            &&& !here ==> action == (NatActionView::ForwardUdp {
                key,
                guest_mac: mac_of(f, 6),
                payload: data,
                open: !n.udp_flows.dom().contains(key),
            })
        }),
{
    let p = f.skip(14);
    let d = ipv4_payload(p);
    assert(d.len() == total - hl);
    assert(d[0] == p[hl] && d[1] == p[hl + 1] && d[2] == p[hl + 2] && d[3] == p[hl + 3]);
    assert(d[4] == p[hl + 4] && d[5] == p[hl + 5]);
    assert(udp_payload(d) =~= p.subrange(hl + 8, hl + two_bytes(p, hl + 4)));
    assert(ip_at(p, 16).bits == four_bytes(p, 16));
    assert(ip_at(p, 16) == n.cfg.gw_ip <==> four_bytes(p, 16) == n.cfg.gw_ip.bits);
}

/// What the engine makes of a guest's ping of somewhere else: it is answered
/// from a result of the last ten seconds; without one it asks for a probe, or
/// for nothing while a probe is in flight. Pings of the gateway, other ICMP and
/// other protocols are not its business.
#[verifier::spinoff_prover]
#[verifier::rlimit(60)]
pub proof fn pings_are_dispatched(n: NatView, f: Seq<u8>, now: u64, hl: int, total: int)
    requires
        f.len() >= 14,
        f[12] == 8 && f[13] == 0,
        laid_out(f.skip(14), hl, total),
        f.skip(14)[9] != 6 && f.skip(14)[9] != 17,
    ensures
        ({
            let p = f.skip(14);
            let dst = Ipv4Addr { bits: four_bytes(p, 16) as u32 };
            let (after, action) = nat_step(n, f, now);
            let ping = p[9] == 1 && total - hl >= 8 && p[hl] == 8 && dst != n.cfg.gw_ip;
            let tested = n.probes.cache.dom().contains(dst) && now - n.probes.cache[dst].1 < 10_000;
            let waits = n.probes.pending.contains(dst);
            &&& !ping ==> action == NatActionView::Nothing
            &&& ping && !tested && waits ==> action == NatActionView::Nothing
            &&& ping && !tested && !waits ==> action == (NatActionView::Probe {
                dst,
                guest_mac: mac_of(f, 6),
                pkt: p.take(total),
            }) && after.probes.pending == n.probes.pending.insert(dst)
            &&& ping && tested && p[hl + 1] == 0 ==> (action matches NatActionView::Send(a)
                && mac_of(a, 0) == mac_of(f, 6) && mac_of(a, 6) == n.cfg.gw_mac)
            &&& !ping || tested || waits ==> after.probes == n.probes
            &&& after.tcp_flows == n.tcp_flows && after.udp_flows == n.udp_flows && after.guest_udp
                == n.guest_udp
        }),
{
    let p = f.skip(14);
    let m = ipv4_payload(p);
    let pkt = p.take(total);
    assert(m.len() == total - hl);
    assert(ip_at(p, 16).bits == four_bytes(p, 16));
    if m.len() >= 8 {
        assert(m[0] == p[hl] && m[1] == p[hl + 1]);
        assert(ipv4_payload(pkt) =~= m);
        if p[9] == 1 && p[hl] == 8 && p[hl + 1] == 0 {
            assert(is_echo_request(pkt));
            let after = NatView { macs: n.macs.insert(ip_at(p, 12), mac_of(f, 6)), ..n };
            lemma_echo_frame(after, mac_of(f, 6), pkt, true);
            lemma_echo_frame(after, mac_of(f, 6), pkt, false);
        }
    }
}

proof fn lemma_echo_frame(n: NatView, mac: MacAddr, pkt: Seq<u8>, reachable: bool)
    requires
        is_echo_request(pkt),
    ensures
        echo_answer(n, mac, pkt, reachable).1 matches Some(a) && mac_of(a, 0) == mac && mac_of(a, 6)
            == n.cfg.gw_mac,
{
    crate::net::frame::eth_round_trip(mac, n.cfg.gw_mac, ETHERTYPE_IPV4, echo_reply_bytes(pkt));
    let quote = pkt.take(unreachable_quote_len(pkt));
    let m = icmp_bytes(ICMP_DEST_UNREACHABLE, 1, seq![0u8, 0, 0, 0], quote);
    crate::net::frame::eth_round_trip(
        mac,
        n.cfg.gw_mac,
        ETHERTYPE_IPV4,
        ipv4_bytes(n.cfg.gw_ip, ip_at(pkt, 12), IPPROTO_ICMP, 64, m, n.ip_id),
    );
}

/// What is no IPv4 packet in an ethernet frame is dropped without a trace.
pub proof fn other_frames_are_dropped(n: NatView, f: Seq<u8>, now: u64)
    requires
        f.len() < 14 || f[12] != 8 || f[13] != 0 || forall|hl: int, total: int|
            !laid_out(f.skip(14), hl, total),
    ensures
        nat_step(n, f, now) == (n, NatActionView::Nothing),
{
    let p = f.skip(14);
    if f.len() >= 14 {
        assert(ipv4_wf(p) ==> laid_out(p, p[0] % 16 * 4, p[2] * 256 + p[3]));
        assert(be16(f, 12) == 0x0800 <==> f[12] == 8 && f[13] == 0);
    }
}

/// A datagram to a guest reaches it whole: from and to the given endpoints, in
/// a frame to its hardware address; only one that no packet can hold is not
/// sent. Each takes a new identification.
#[verifier::spinoff_prover]
#[verifier::rlimit(60)]
pub proof fn datagram_reaches_the_guest(
    n: NatView,
    mac: MacAddr,
    src: (Ipv4Addr, u16),
    dst: (Ipv4Addr, u16),
    payload: Seq<u8>,
)
    ensures
        udp_frame(n, mac, src, dst, payload).1 is Some <==> payload.len() <= 0xFFFF - 28,
        payload.len() <= 0xFFFF - 28 ==> {
            let (after, sent) = udp_frame(n, mac, src, dst, payload);
            let q = sent->0.skip(14);
            let d = ipv4_payload(q);
            &&& mac_of(sent->0, 0) == mac
            &&& mac_of(sent->0, 6) == n.cfg.gw_mac
            &&& ipv4_wf(q) && q[9] == 17
            &&& be32(q, 12) == src.0.bits
            &&& be32(q, 16) == dst.0.bits
            &&& udp_wf(d)
            &&& be16(d, 0) == src.1
            &&& be16(d, 2) == dst.1
            &&& udp_payload(d) == payload
            &&& after.ip_id == (n.ip_id + 1) % 0x1_0000
            &&& after == (NatView { ip_id: after.ip_id, ..n })
        },
{
    if payload.len() <= 0xFFFF - 28 {
        lemma_datagram(src, dst, payload, mac, n.cfg.gw_mac, n.ip_id);
    }
}

#[verifier::spinoff_prover]
#[verifier::rlimit(60)]
proof fn lemma_datagram(
    src: (Ipv4Addr, u16),
    dst: (Ipv4Addr, u16),
    payload: Seq<u8>,
    to: MacAddr,
    from: MacAddr,
    id: u16,
)
    requires
        payload.len() <= 0xFFFF - 28,
    ensures
        ({
            let a = eth_bytes(
                to.0@,
                from.0@,
                ETHERTYPE_IPV4,
                ipv4_bytes(
                    src.0,
                    dst.0,
                    IPPROTO_UDP,
                    64,
                    udp_bytes(src.0, dst.0, src.1, dst.1, payload),
                    id,
                ),
            );
            let q = a.skip(14);
            let d = ipv4_payload(q);
            &&& mac_of(a, 0) == to
            &&& mac_of(a, 6) == from
            &&& ipv4_wf(q) && q[9] == 17
            &&& be32(q, 12) == src.0.bits
            &&& be32(q, 16) == dst.0.bits
            &&& udp_wf(d)
            &&& be16(d, 0) == src.1
            &&& be16(d, 2) == dst.1
            &&& udp_payload(d) == payload
        }),
{
    let u = udp_bytes(src.0, dst.0, src.1, dst.1, payload);
    crate::net::frame::udp_round_trip(src.0, dst.0, src.1, dst.1, payload);
    assert(u.len() == 8 + payload.len());
    lemma_framed_packet(src.0, dst.0, IPPROTO_UDP, u, to, from, id);
}

/// A guest's segment of a known flow is fed to it, a SYN opens a flow that was not
/// there, and what fits no flow opens none.
pub proof fn guest_segments_reach_their_flow(
    engine: &mut NatEngine,
    frame: &[u8],
    now: u64,
    r: NatAction,
    hl: int,
    total: int,
)
    requires
        call_ensures(NatEngine::handle_frame, (engine, frame, now), r),
        frame@.len() >= 14,
        frame@[12] == 8 && frame@[13] == 0,
        shows_ports(frame@.skip(14), hl, total),
        frame@.skip(14)[9] == 6,
    ensures
        ({
            let p = frame@.skip(14);
            let (n, after) = (old(engine)@, final(engine)@);
            let key = FlowKey {
                guest_ip: Ipv4Addr { bits: four_bytes(p, 12) as u32 },
                guest_port: two_bytes(p, hl) as u16,
                dst_ip: Ipv4Addr { bits: four_bytes(p, 16) as u32 },
                dst_port: two_bytes(p, hl + 2) as u16,
            };
            let known = n.tcp_flows.contains(key);
            let opens = p[hl + 13] & 0x02 != 0 && p[hl + 13] & 0x10 == 0;
            &&& known ==> (r@ matches NatActionView::FeedTcp { key: k, seg } && k == key && carries(
                seg,
                p,
                hl,
                total,
            ))
            &&& !known && opens ==> (r@ matches NatActionView::OpenTcp { key: k, seg, .. } && k
                == key && carries(seg, p, hl, total))
            &&& !known && !opens ==> r@ is Send || r@ is Nothing
            &&& after.tcp_flows.contains(key) <==> known || opens
        }),
{
    segments_are_dispatched(old(engine)@, frame@, now, hl, total);
}

} // verus!
