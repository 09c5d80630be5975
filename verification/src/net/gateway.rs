//! The per-segment gateway service.
//!
//! One gateway attaches to each segment's switch as a service port. It owns
//! the segment's first usable IP and a deterministic locally-administered MAC
//! ([`gateway_mac`]), and:
//!
//! - answers ARP requests for its IP,
//! - replies to ICMP echo addressed to it,
//! - serves DHCP (UDP 67) and DNS (UDP 53) when enabled,
//! - hands every other IPv4 frame addressed to the gateway MAC (guests
//!   routing off-segment traffic through their default gateway) to an
//!   uplink: the NAT / inter-segment routing engine.
//!
//! Sans-I/O: [`GatewayHandle::handle_frame`] says what is to be done with a
//! frame that reaches the gateway's port.

use vstd::prelude::*;
use vstd::string::*;

use crate::net::addr::{Ipv4Addr, MacAddr, SocketAddr};
use crate::net::cidr::Ipv4Net;
use crate::net::dhcp::{
    by_address, handle_reply, handle_state, lease_ip, DhcpConfig, DhcpConfigView, DhcpServer,
    DhcpView, DHCP_SERVER_PORT,
};
use crate::net::dns::{
    frame_action, handle_query, DnsAction, DnsActionView, DnsRespondCtx, DnsZone, ZoneView, DNS_PORT,
};
use crate::net::frame::{
    arp_bytes, arp_reply_build, arp_wf, echo_reply_bytes, eth_build, eth_bytes, eth_wf,
    icmp_echo_reply_for, ipv4_payload, ipv4_wf, is_echo_request, udp_wf, ArpOp, ArpView, EthView,
    Ipv4View, UdpView, ETHERTYPE_ARP, ETHERTYPE_IPV4, IPPROTO_ICMP, IPPROTO_UDP,
};
use crate::net::rules::{four_bytes, laid_out, shows_ports, two_bytes};
use crate::net::switch::PortId;
use crate::net::wire::{be16, be32, ip_at, mac_of};
use crate::table::keys_distinct;

verus! {

/// How long the gateway waits for an upstream DNS resolver, in milliseconds.
pub const UPSTREAM_DNS_TIMEOUT_MS: u64 = 3000;

pub const FNV_OFFSET: u64 = 0xcbf2_9ce4_8422_2325;

pub const FNV_PRIME: u64 = 0x0000_0100_0000_01b3;

/// The FNV-1a hash of a byte string, started from `h`.
pub open spec fn fnv1a(h: u64, s: Seq<u8>) -> u64
    decreases s.len(),
{
    if s.len() == 0 {
        h
    } else {
        let x = fnv1a(h, s.drop_last()) ^ (s.last() as u64);
        ((x * FNV_PRIME) % 0x1_0000_0000_0000_0000) as u64
    }
}

fn fnv1a_from(h: u64, s: &[u8]) -> (r: u64)
    ensures
        r == fnv1a(h, s@),
{
    let mut r: u64 = h;
    let mut i: usize = 0;
    assert(s@.take(0) =~= Seq::<u8>::empty());
    while i < s.len()
        invariant
            i <= s@.len(),
            r == fnv1a(h, s@.take(i as int)),
        decreases s@.len() - i,
    {
        assert(s@.take(i as int + 1).drop_last() =~= s@.take(i as int));
        assert(s@.take(i as int + 1).last() == s@[i as int]);
        r = (r ^ (s[i] as u64)).wrapping_mul(FNV_PRIME);
        i = i + 1;
    }
    assert(s@.take(i as int) =~= s@);
    r
}

/// Byte `i` of a 64-bit number, most significant first.
pub open spec fn byte_of(h: u64, i: int) -> u8 {
    (if i == 0 {
        h / 0x100_0000_0000_0000
    } else if i == 1 {
        h / 0x1_0000_0000_0000
    } else if i == 2 {
        h / 0x100_0000_0000
    } else if i == 3 {
        h / 0x1_0000_0000
    } else if i == 4 {
        h / 0x100_0000
    } else if i == 5 {
        h / 0x1_0000
    } else if i == 6 {
        h / 0x100
    } else {
        h
    } % 256) as u8
}

/// The gateway MAC of a lab and a segment: a fixed prefix, and the hash of
/// `lab/segment` folded to four bytes.
pub open spec fn gateway_mac_of(lab: Seq<char>, segment: Seq<char>) -> MacAddr {
    let h = fnv1a(
        fnv1a(fnv1a(FNV_OFFSET, vstd::utf8::encode_utf8(lab)), seq![0x2fu8]),
        vstd::utf8::encode_utf8(segment),
    );
    MacAddr(
        [
            0x52,
            0x56,
            byte_of(h, 0) ^ byte_of(h, 4),
            byte_of(h, 1) ^ byte_of(h, 5),
            byte_of(h, 2) ^ byte_of(h, 6),
            byte_of(h, 3) ^ byte_of(h, 7),
        ],
    )
}

/// Deterministic locally-administered gateway MAC for a lab/segment pair:
/// fixed `52:56` prefix (local bit set, multicast bit clear) plus four bytes
/// folded from an FNV-1a hash of `lab/segment`.
pub fn gateway_mac(lab: &str, segment: &str) -> (r: MacAddr)
    ensures
        r == gateway_mac_of(lab@, segment@),
{
    let slash: [u8; 1] = [0x2f];
    assert(slash@ =~= seq![0x2fu8]);
    let h: u64 = fnv1a_from(
        fnv1a_from(fnv1a_from(FNV_OFFSET, lab.as_bytes()), &slash),
        segment.as_bytes(),
    );
    MacAddr(
        [
            0x52,
            0x56,
            (h / 0x100_0000_0000_0000 % 256) as u8 ^ (h / 0x100_0000 % 256) as u8,
            (h / 0x1_0000_0000_0000 % 256) as u8 ^ (h / 0x1_0000 % 256) as u8,
            (h / 0x100_0000_0000 % 256) as u8 ^ (h / 0x100 % 256) as u8,
            (h / 0x1_0000_0000 % 256) as u8 ^ (h % 256) as u8,
        ],
    )
}

/// A gateway MAC is locally administered and unicast.
pub proof fn gateway_mac_is_local_unicast(lab: Seq<char>, segment: Seq<char>)
    ensures
        gateway_mac_of(lab, segment).0@[0] % 2 == 0,
        gateway_mac_of(lab, segment).0@[0] / 2 % 2 == 1,
{
}

/// Configuration for one segment's gateway.
pub struct GatewayConfig {
    pub subnet: Ipv4Net,
    /// The gateway's address: the segment's first usable IP.
    pub gw_ip: Ipv4Addr,
    /// See [`gateway_mac`].
    pub gw_mac: MacAddr,
    /// DHCP service; `None` disables it. The gateway forces
    /// `gateway`/`server_mac` to its own identity.
    pub dhcp: Option<DhcpConfig>,
    /// DNS service; `None` disables it.
    pub dns: Option<DnsZone>,
    /// Default upstream resolver, applied to the zone when it has none.
    pub upstream_dns: Option<SocketAddr>,
}

/// A running gateway.
pub struct GatewayHandle {
    port_id: PortId,
    gw_ip: Ipv4Addr,
    gw_mac: MacAddr,
    subnet: Ipv4Net,
    dhcp: Option<DhcpServer>,
    dns: Option<DnsZone>,
}

/// What a [`GatewayHandle`] knows.
pub ghost struct GatewayView {
    pub port_id: PortId,
    pub gw_ip: Ipv4Addr,
    pub gw_mac: MacAddr,
    pub subnet: Ipv4Net,
    pub dhcp: Option<DhcpView>,
    pub dns: Option<ZoneView>,
}

impl View for GatewayHandle {
    type V = GatewayView;

    closed spec fn view(&self) -> GatewayView {
        GatewayView {
            port_id: self.port_id,
            gw_ip: self.gw_ip,
            gw_mac: self.gw_mac,
            subnet: self.subnet,
            dhcp: match self.dhcp {
                Some(d) => Some(d@),
                None => None,
            },
            dns: match self.dns {
                Some(z) => Some(z@),
                None => None,
            },
        }
    }
}

/// What is to be done with a frame that reached the gateway.
#[derive(Debug)]
pub enum GatewayAction {
    Nothing,
    /// Send this frame out the gateway's port.
    Send(Vec<u8>),
    /// Ask `upstream`, and send what comes back wrapped by `respond`.
    ForwardDns { upstream: SocketAddr, raw_query: Vec<u8>, respond: DnsRespondCtx },
    /// Hand the frame to the uplink, if one is attached.
    Uplink,
}

/// What a [`GatewayAction`] says.
pub ghost enum GatewayActionView {
    Nothing,
    Send(Seq<u8>),
    ForwardDns { upstream: SocketAddr, raw_query: Seq<u8>, respond: DnsRespondCtx },
    Uplink,
}

impl View for GatewayAction {
    type V = GatewayActionView;

    open spec fn view(&self) -> GatewayActionView {
        match *self {
            GatewayAction::Nothing => GatewayActionView::Nothing,
            GatewayAction::Send(f) => GatewayActionView::Send(f@),
            GatewayAction::ForwardDns { upstream, raw_query, respond } =>
                GatewayActionView::ForwardDns { upstream, raw_query: raw_query@, respond },
            GatewayAction::Uplink => GatewayActionView::Uplink,
        }
    }
}

/// Send a reply, if there is one.
pub open spec fn send_if(reply: Option<Seq<u8>>) -> GatewayActionView {
    match reply {
        Some(f) => GatewayActionView::Send(f),
        None => GatewayActionView::Nothing,
    }
}

/// What follows from the DNS server's verdict.
pub open spec fn dns_followup(a: DnsActionView) -> GatewayActionView {
    match a {
        DnsActionView::Reply(f) => GatewayActionView::Send(f),
        DnsActionView::ForwardUpstream { upstream, raw_query, respond, .. } =>
            GatewayActionView::ForwardDns { upstream, raw_query, respond },
        DnsActionView::Ignore => GatewayActionView::Nothing,
    }
}

/// Whether an IPv4 packet is a UDP datagram to `port`.
pub open spec fn udp_to(p: Seq<u8>, port: u16) -> bool {
    p[9] == IPPROTO_UDP && udp_wf(ipv4_payload(p)) && be16(ipv4_payload(p), 2) == port
}

/// What the gateway does with an ARP packet.
pub open spec fn arp_action(g: GatewayView, a: Seq<u8>) -> GatewayActionView {
    if arp_wf(a) && be16(a, 6) == 1 && ip_at(a, 24) == g.gw_ip {
        GatewayActionView::Send(
            eth_bytes(
                mac_of(a, 8).0@,
                g.gw_mac.0@,
                ETHERTYPE_ARP,
                arp_bytes(2, g.gw_mac.0@, g.gw_ip, mac_of(a, 8).0@, ip_at(a, 14)),
            ),
        )
    } else {
        GatewayActionView::Nothing
    }
}

/// What the gateway does with an IPv4 frame: DHCP and DNS first, then pings of
/// itself; what else is sent to its hardware address goes to the uplink.
pub open spec fn ipv4_action(g: GatewayView, f: Seq<u8>, now: u64) -> GatewayActionView {
    let p = f.skip(14);
    if !ipv4_wf(p) {
        GatewayActionView::Nothing
    } else if udp_to(p, DHCP_SERVER_PORT) {
        match g.dhcp {
            Some(d) => send_if(handle_reply(d, f, now)),
            None => GatewayActionView::Nothing,
        }
    } else if udp_to(p, DNS_PORT) && ip_at(p, 16) == g.gw_ip {
        match g.dns {
            Some(z) => dns_followup(frame_action(z, f)),
            None => GatewayActionView::Nothing,
        }
    } else if ip_at(p, 16) == g.gw_ip && p[9] == IPPROTO_ICMP {
        if is_echo_request(p) {
            GatewayActionView::Send(
                eth_bytes(mac_of(f, 6).0@, g.gw_mac.0@, ETHERTYPE_IPV4, echo_reply_bytes(p)),
            )
        } else {
            GatewayActionView::Nothing
        }
    } else if mac_of(f, 0) == g.gw_mac {
        GatewayActionView::Uplink
    } else {
        GatewayActionView::Nothing
    }
}

/// What the gateway does with a frame.
pub open spec fn gateway_action(g: GatewayView, f: Seq<u8>, now: u64) -> GatewayActionView {
    if !eth_wf(f) {
        GatewayActionView::Nothing
    } else if be16(f, 12) == ETHERTYPE_ARP {
        arp_action(g, f.skip(14))
    } else if be16(f, 12) == ETHERTYPE_IPV4 {
        ipv4_action(g, f, now)
    } else {
        GatewayActionView::Nothing
    }
}

/// The gateway after a frame: only DHCP messages change it.
pub open spec fn gateway_state(g: GatewayView, f: Seq<u8>, now: u64) -> GatewayView {
    if eth_wf(f) && be16(f, 12) == ETHERTYPE_IPV4 && ipv4_wf(f.skip(14)) && udp_to(
        f.skip(14),
        DHCP_SERVER_PORT,
    ) {
        GatewayView {
            dhcp: match g.dhcp {
                Some(d) => Some(handle_state(d, f, now)),
                None => None,
            },
            ..g
        }
    } else {
        g
    }
}

/// The gateway service constructor (see module docs).
pub struct Gateway;

impl Gateway {
    /// A gateway on the service port `port_id`.
    pub fn spawn(port_id: PortId, config: GatewayConfig) -> (r: GatewayHandle)
        ensures
            r@.port_id == port_id,
            r@.gw_ip == config.gw_ip,
            r@.gw_mac == config.gw_mac,
            r@.subnet == config.subnet,
            r@.dhcp == (match config.dhcp {
                Some(c) => Some(
                    DhcpView {
                        config: DhcpConfigView {
                            gateway: config.gw_ip,
                            server_mac: config.gw_mac,
                            ..c@
                        },
                        leases: Map::empty(),
                        declined: Set::empty(),
                    },
                ),
                None => None,
            }),
            r@.dns == (match config.dns {
                Some(z) => Some(
                    if z@.upstream is None {
                        ZoneView { upstream: config.upstream_dns, ..z@ }
                    } else {
                        z@
                    },
                ),
                None => None,
            }),
    {
        let GatewayConfig { subnet, gw_ip, gw_mac, dhcp, dns, upstream_dns } = config;
        let dhcp = match dhcp {
            Some(mut c) => {
                c.gateway = gw_ip;
                c.server_mac = gw_mac;
                Some(DhcpServer::new(c))
            },
            None => None,
        };
        let dns = match dns {
            Some(mut z) => {
                if z.get_upstream().is_none() {
                    z.set_upstream(upstream_dns);
                }
                Some(z)
            },
            None => None,
        };
        GatewayHandle { port_id, gw_ip, gw_mac, subnet, dhcp, dns }
    }
}

impl GatewayHandle {
    pub fn port_id(&self) -> (r: PortId)
        ensures
            r == self@.port_id,
    {
        self.port_id
    }

    pub fn gw_ip(&self) -> (r: Ipv4Addr)
        ensures
            r == self@.gw_ip,
    {
        self.gw_ip
    }

    pub fn gw_mac(&self) -> (r: MacAddr)
        ensures
            r == self@.gw_mac,
    {
        self.gw_mac
    }

    pub fn subnet(&self) -> (r: Ipv4Net)
        ensures
            r == self@.subnet,
    {
        self.subnet
    }

    /// Current DHCP leases for status display; empty when DHCP is disabled.
    pub fn dhcp_leases(&self, now: u64) -> (r: Vec<(MacAddr, Ipv4Addr)>)
        ensures
            self@.dhcp is None ==> r@.len() == 0,
            self@.dhcp matches Some(d) ==> by_address(r@) && keys_distinct(r@) && forall|
                m: MacAddr,
                ip: Ipv4Addr,
            |
                #![trigger r@.contains((m, ip))]
                r@.contains((m, ip)) <==> lease_ip(d, m, now) == Some(ip),
    {
        match &self.dhcp {
            Some(d) => d.leases(now),
            None => Vec::new(),
        }
    }

    /// The DNS zone, for runtime mutation; `None` when DNS is disabled.
    pub fn take_dns_zone(&mut self) -> (r: Option<DnsZone>)
        ensures
            r is Some <==> old(self)@.dns is Some,
            r matches Some(z) ==> old(self)@.dns == Some(z@),
            final(self)@ == (GatewayView { dns: None, ..old(self)@ }),
    {
        self.dns.take()
    }

    /// Puts the DNS zone back.
    pub fn put_dns_zone(&mut self, zone: DnsZone)
        ensures
            final(self)@ == (GatewayView { dns: Some(zone@), ..old(self)@ }),
    {
        self.dns = Some(zone);
    }

    /// Decide what to do with a frame that reached the gateway's port.
    pub fn handle_frame(&mut self, frame: &[u8], now: u64) -> (r: GatewayAction)
        requires
            old(self)@.dhcp matches Some(d) ==> now + d.config.lease_secs * 1000 <= u64::MAX,
        ensures
            r@ == gateway_action(old(self)@, frame@, now),
            final(self)@ == gateway_state(old(self)@, frame@, now),
    {
        let eth = match EthView::parse(frame) {
            Some(eth) => eth,
            None => return GatewayAction::Nothing,
        };
        let ethertype: u16 = eth.ethertype();
        if ethertype == ETHERTYPE_ARP {
            self.handle_arp(eth.payload())
        } else if ethertype == ETHERTYPE_IPV4 {
            self.handle_ipv4(&eth, frame, now)
        } else {
            GatewayAction::Nothing
        }
    }

    fn handle_arp(&self, payload: &[u8]) -> (r: GatewayAction)
        ensures
            r@ == arp_action(self@, payload@),
    {
        let arp = match ArpView::parse(payload) {
            Some(arp) => arp,
            None => return GatewayAction::Nothing,
        };
        if arp.op() == ArpOp::Request && arp.tpa() == self.gw_ip {
            GatewayAction::Send(arp_reply_build(self.gw_mac, self.gw_ip, arp.sha(), arp.spa()))
        } else {
            GatewayAction::Nothing
        }
    }

    fn handle_ipv4(&mut self, eth: &EthView<'_>, frame: &[u8], now: u64) -> (r: GatewayAction)
        requires
            eth@ == frame@,
            eth_wf(frame@),
            be16(frame@, 12) == ETHERTYPE_IPV4,
            old(self)@.dhcp matches Some(d) ==> now + d.config.lease_secs * 1000 <= u64::MAX,
        ensures
            r@ == ipv4_action(old(self)@, frame@, now),
            final(self)@ == gateway_state(old(self)@, frame@, now),
    {
        let ip = match Ipv4View::parse(eth.payload()) {
            Some(ip) => ip,
            None => return GatewayAction::Nothing,
        };
        let dst = ip.dst();
        let proto: u8 = ip.proto();
        // DHCP and DNS first: DHCP arrives broadcast (DISCOVER/REQUEST) or
        // unicast (renewals), so match on the UDP port alone.
        if proto == IPPROTO_UDP {
            if let Some(udp) = UdpView::parse(ip.payload()) {
                let port: u16 = udp.dst_port();
                if port == DHCP_SERVER_PORT {
                    return match &mut self.dhcp {
                        Some(dhcp) => match dhcp.handle(frame, now) {
                            Some(reply) => GatewayAction::Send(reply),
                            None => GatewayAction::Nothing,
                        },
                        None => GatewayAction::Nothing,
                    };
                }
                if port == DNS_PORT && dst == self.gw_ip {
                    return match &self.dns {
                        Some(zone) => dns_action(handle_query(zone, frame)),
                        None => GatewayAction::Nothing,
                    };
                }
            }
        }
        if dst == self.gw_ip && proto == IPPROTO_ICMP {
            return match icmp_echo_reply_for(eth.payload()) {
                Some(reply) => GatewayAction::Send(
                    eth_build(eth.src_mac(), self.gw_mac, ETHERTYPE_IPV4, reply.as_slice()),
                ),
                None => GatewayAction::Nothing,
            };
        }
        // Addressed to the gateway MAC: a guest routing off-segment traffic
        // through us, or traffic for a flow that the uplink originated.
        if eth.dst_mac() == self.gw_mac {
            GatewayAction::Uplink
        } else {
            GatewayAction::Nothing
        }
    }
}

fn dns_action(a: DnsAction) -> (r: GatewayAction)
    ensures
        r@ == dns_followup(a@),
{
    match a {
        DnsAction::Reply(f) => GatewayAction::Send(f),
        DnsAction::ForwardUpstream { upstream, raw_query, respond, .. } =>
            GatewayAction::ForwardDns { upstream, raw_query, respond },
        DnsAction::Ignore => GatewayAction::Nothing,
    }
}

/// Whoever asks for the gateway's address by ARP is told its hardware address.
pub proof fn arp_request_is_answered(g: GatewayView, a: Seq<u8>)
    requires
        arp_wf(a),
        be16(a, 6) == 1,
        ip_at(a, 24) == g.gw_ip,
    ensures
        arp_action(g, a) matches GatewayActionView::Send(f) && eth_wf(f) && mac_of(f, 0) == mac_of(
            a,
            8,
        ) && mac_of(f, 6) == g.gw_mac && arp_wf(f.skip(14)) && be16(f.skip(14), 6) == 2 && mac_of(
            f.skip(14),
            8,
        ) == g.gw_mac && be32(f.skip(14), 14) == g.gw_ip.bits,
{
    let reply = arp_bytes(2, g.gw_mac.0@, g.gw_ip, mac_of(a, 8).0@, ip_at(a, 14));
    crate::net::frame::eth_round_trip(mac_of(a, 8), g.gw_mac, ETHERTYPE_ARP, reply);
    crate::net::frame::arp_round_trip(2, g.gw_mac, g.gw_ip, mac_of(a, 8), ip_at(a, 14));
}

/// Whatever else comes to the gateway's hardware address goes to the uplink:
/// all but DHCP, and DNS and ICMP to its own address.
pub proof fn other_traffic_goes_up(g: GatewayView, f: Seq<u8>, now: u64)
    requires
        eth_wf(f),
        be16(f, 12) == ETHERTYPE_IPV4,
        ipv4_wf(f.skip(14)),
        !udp_to(f.skip(14), DHCP_SERVER_PORT),
        ip_at(f.skip(14), 16) == g.gw_ip ==> !udp_to(f.skip(14), DNS_PORT) && f.skip(14)[9]
            != IPPROTO_ICMP,
        mac_of(f, 0) == g.gw_mac,
    ensures
        gateway_action(g, f, now) == GatewayActionView::Uplink,
        gateway_state(g, f, now) == g,
{
}

/// An echo request to the gateway's own address is answered, by the gateway,
/// to whoever sent it.
pub proof fn echo_request_is_answered(g: GatewayView, f: Seq<u8>, now: u64)
    requires
        eth_wf(f),
        be16(f, 12) == ETHERTYPE_IPV4,
        is_echo_request(f.skip(14)),
        ip_at(f.skip(14), 16) == g.gw_ip,
    ensures
        gateway_action(g, f, now) matches GatewayActionView::Send(a) && eth_wf(a) && mac_of(a, 0)
            == mac_of(f, 6) && mac_of(a, 6) == g.gw_mac && ipv4_wf(a.skip(14)) && be32(
            a.skip(14),
            12,
        ) == g.gw_ip.bits && be32(a.skip(14), 16) == be32(f.skip(14), 12) && ipv4_payload(
            a.skip(14),
        )[0] == crate::net::frame::ICMP_ECHO_REPLY && ipv4_payload(a.skip(14)).skip(4) == ipv4_payload(
            f.skip(14),
        ).skip(4),
{
    let p = f.skip(14);
    crate::net::wire::lemma_be32_bytes(p, 16);
    crate::net::frame::echo_reply_answers(p);
    crate::net::frame::eth_round_trip(mac_of(f, 6), g.gw_mac, ETHERTYPE_IPV4, echo_reply_bytes(p));
}

/// What the gateway makes of a UDP datagram, read off its bytes: one to the
/// DHCP server's port is served by DHCP, wherever it is addressed to; one to
/// the DNS port at the gateway's own address by DNS; with the service off
/// either is ignored. Any other goes up if it is for the gateway's hardware
/// address, and is ignored if not.
pub proof fn datagrams_are_dispatched(
    g: GatewayView,
    f: Seq<u8>,
    now: u64,
    hl: int,
    total: int,
)
    requires
        f.len() >= 14,
        f[12] == 8 && f[13] == 0,
        shows_ports(f.skip(14), hl, total),
        f.skip(14)[9] == 17,
    ensures
        ({
            let p = f.skip(14);
            let port = two_bytes(p, hl + 2);
            let here = four_bytes(p, 16) == g.gw_ip.bits;
            let action = gateway_action(g, f, now);
            &&& port == 67 ==> match g.dhcp {
                Some(d) => match handle_reply(d, f, now) {
                    Some(reply) => action == GatewayActionView::Send(reply),
                    None => action == GatewayActionView::Nothing,
                },
                None => action == GatewayActionView::Nothing,
            }
            &&& port == 67 ==> gateway_state(g, f, now).dhcp == (match g.dhcp {
                Some(d) => Some(handle_state(d, f, now)),
                None => None,
            })
            &&& port != 67 ==> gateway_state(g, f, now) == g
            &&& port == 53 && here ==> match g.dns {
                Some(z) => match frame_action(z, f) {
                    DnsActionView::Reply(reply) => action == GatewayActionView::Send(reply),
                    DnsActionView::ForwardUpstream { upstream, raw_query, respond, .. } => action
                        == (GatewayActionView::ForwardDns { upstream, raw_query, respond }),
                    DnsActionView::Ignore => action == GatewayActionView::Nothing,
                },
                None => action == GatewayActionView::Nothing,
            }
            &&& port != 67 && !(port == 53 && here) ==> action == (if mac_of(f, 0) == g.gw_mac {
                GatewayActionView::Uplink
            } else {
                GatewayActionView::Nothing
            })
        }),
{
    let p = f.skip(14);
    let t = ipv4_payload(p);
    assert(t.len() == total - hl);
    assert(t[2] == p[hl + 2] && t[3] == p[hl + 3] && t[4] == p[hl + 4] && t[5] == p[hl + 5]);
    assert(ip_at(p, 16) == g.gw_ip <==> four_bytes(p, 16) == g.gw_ip.bits);
}

/// What the gateway makes of any other IPv4 packet: ICMP to its own address is
/// never handed up, and gets an answer only if it is an echo request;
/// everything else goes up if it is for the gateway's hardware address, and is
/// ignored if not. None of it changes the gateway.
pub proof fn other_packets_are_dispatched(
    g: GatewayView,
    f: Seq<u8>,
    now: u64,
    hl: int,
    total: int,
)
    requires
        f.len() >= 14,
        f[12] == 8 && f[13] == 0,
        laid_out(f.skip(14), hl, total),
        f.skip(14)[9] != 17,
    ensures
        ({
            let p = f.skip(14);
            let action = gateway_action(g, f, now);
            let ping = p[9] == 1 && total - hl >= 8 && p[hl] == 8 && p[hl + 1] == 0;
            &&& gateway_state(g, f, now) == g
            &&& p[9] == 1 && four_bytes(p, 16) == g.gw_ip.bits ==> (action is Send <==> ping) && (
            action is Nothing <==> !ping)
            &&& !(p[9] == 1 && four_bytes(p, 16) == g.gw_ip.bits) ==> action == (if mac_of(f, 0)
                == g.gw_mac {
                GatewayActionView::Uplink
            } else {
                GatewayActionView::Nothing
            })
        }),
{
    let p = f.skip(14);
    let t = ipv4_payload(p);
    assert(t.len() == total - hl);
    if t.len() >= 8 {
        assert(t[0] == p[hl] && t[1] == p[hl + 1]);
    }
    assert(ip_at(p, 16) == g.gw_ip <==> four_bytes(p, 16) == g.gw_ip.bits);
}

/// The gateway speaks up for its own address only, and ignores what is neither
/// ARP nor IPv4.
pub proof fn gateway_answers_for_itself_only(g: GatewayView, f: Seq<u8>, now: u64)
    requires
        f.len() >= 14,
        (f[12] == 8 && f[13] == 6 && f.len() >= 42 && (f[21] != 1 || four_bytes(f, 38)
            != g.gw_ip.bits)) || (f[12] * 256 + f[13] != 0x0800 && f[12] * 256 + f[13] != 0x0806),
    ensures
        gateway_action(g, f, now) == GatewayActionView::Nothing,
        gateway_state(g, f, now) == g,
{
    let a = f.skip(14);
    if f.len() >= 42 {
        assert(a[7] == f[21]);
        assert(a[24] == f[38] && a[25] == f[39] && a[26] == f[40] && a[27] == f[41]);
    }
}

/// The gateway's hardware address depends on the lab and segment through the
/// path `lab/segment` alone, and starts with a fixed prefix.
pub proof fn gateway_mac_hashes_the_path(
    lab: Seq<char>,
    segment: Seq<char>,
    lab2: Seq<char>,
    segment2: Seq<char>,
)
    ensures
        gateway_mac_of(lab, segment).0@[0] == 0x52,
        gateway_mac_of(lab, segment).0@[1] == 0x56,
        vstd::utf8::encode_utf8(lab) + seq![0x2fu8] + vstd::utf8::encode_utf8(segment)
            == vstd::utf8::encode_utf8(lab2) + seq![0x2fu8] + vstd::utf8::encode_utf8(segment2)
            ==> gateway_mac_of(lab, segment) == gateway_mac_of(lab2, segment2),
{
    let a = vstd::utf8::encode_utf8(lab);
    let b = vstd::utf8::encode_utf8(segment);
    let c = vstd::utf8::encode_utf8(lab2);
    let d = vstd::utf8::encode_utf8(segment2);
    lemma_fnv1a_concat(FNV_OFFSET, a, seq![0x2fu8]);
    lemma_fnv1a_concat(FNV_OFFSET, a + seq![0x2fu8], b);
    lemma_fnv1a_concat(FNV_OFFSET, c, seq![0x2fu8]);
    lemma_fnv1a_concat(FNV_OFFSET, c + seq![0x2fu8], d);
}

proof fn lemma_fnv1a_concat(h: u64, a: Seq<u8>, b: Seq<u8>)
    ensures
        fnv1a(fnv1a(h, a), b) == fnv1a(h, a + b),
    decreases b.len(),
{
    if b.len() == 0 {
        assert(a + b =~= a);
    } else {
        lemma_fnv1a_concat(h, a, b.drop_last());
        assert((a + b).drop_last() =~= a + b.drop_last());
        assert((a + b).last() == b.last());
    }
}

} // verus!
