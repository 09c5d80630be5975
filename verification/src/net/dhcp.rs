//! DHCP server state machine for segment gateways.
//!
//! Sans-I/O: [`DhcpServer::handle`] consumes a raw ethernet frame and
//! returns the raw ethernet reply frame (or `None`). The gateway service
//! wires it to a switch port.
//!
//! Served options: subnet mask (1), router (3), DNS (6, omitted when
//! unconfigured), domain (15), interface MTU (26, where it is not 1500),
//! lease time (51), message type (53), server identifier (54), and RFC 3442
//! classless static routes (121) when the segment declares routes.
//!
//! Times are milliseconds of a monotonic clock, handed in by the caller.

use vstd::prelude::*;
use vstd::slice::slice_subrange;
use vstd::string::*;

use crate::net::addr::{ip_bytes, Ipv4Addr, MacAddr};
use crate::net::cidr::{block_size, Ipv4Net};
use crate::net::frame::{
    eth_build, eth_bytes, eth_wf, ipv4_build, ipv4_bytes, ipv4_payload, ipv4_wf, udp_build,
    udp_bytes, udp_payload, udp_wf, EthView, Ipv4View, UdpView, ETHERTYPE_IPV4, IPPROTO_UDP,
};
use crate::net::wire::{
    be16, be32, ip_at, ipv4_at, mac_at, mac_of, push_bytes, push_mac, push_u16, push_u32, u16_at,
    u16_bytes, u32_at, u32_bytes, word_at,
};
use crate::table::{as_map, has_key, kept, keys_distinct, lemma_entry, Keep, Table};

verus! {

/// UDP port the server listens on.
pub const DHCP_SERVER_PORT: u16 = 67;

/// UDP port clients send from and receive on.
pub const DHCP_CLIENT_PORT: u16 = 68;

pub const DHCP_DISCOVER: u8 = 1;

pub const DHCP_OFFER: u8 = 2;

pub const DHCP_REQUEST: u8 = 3;

pub const DHCP_DECLINE: u8 = 4;

pub const DHCP_ACK: u8 = 5;

pub const DHCP_NAK: u8 = 6;

pub const DHCP_RELEASE: u8 = 7;

pub const BOOTREQUEST: u8 = 1;

pub const BOOTREPLY: u8 = 2;

/// BOOTP fixed header (236 bytes) plus the magic cookie (4 bytes).
pub const BOOTP_MIN_LEN: usize = 240;

pub const OPT_PAD: u8 = 0;

pub const OPT_SUBNET_MASK: u8 = 1;

pub const OPT_ROUTER: u8 = 3;

pub const OPT_DNS: u8 = 6;

pub const OPT_DOMAIN: u8 = 15;

pub const OPT_MTU: u8 = 26;

pub const OPT_REQUESTED_IP: u8 = 50;

pub const OPT_LEASE_TIME: u8 = 51;

pub const OPT_MSG_TYPE: u8 = 53;

pub const OPT_SERVER_ID: u8 = 54;

pub const OPT_CLASSLESS_ROUTES: u8 = 121;

pub const OPT_END: u8 = 255;

// ---------------------------------------------------------------------------
// Requests
// ---------------------------------------------------------------------------

/// A parsed inbound BOOTP/DHCP request.
#[derive(Debug, Clone, Copy)]
pub struct BootpRequest {
    pub xid: u32,
    pub flags: u16,
    pub ciaddr: Ipv4Addr,
    pub giaddr: Ipv4Addr,
    pub chaddr: MacAddr,
    pub msg_type: u8,
    pub requested_ip: Option<Ipv4Addr>,
    pub server_id: Option<Ipv4Addr>,
}

/// What the options of a request say, as far as they were read.
#[derive(Debug, Clone, Copy)]
pub struct BootpOptions {
    pub msg_type: Option<u8>,
    pub requested_ip: Option<Ipv4Addr>,
    pub server_id: Option<Ipv4Addr>,
}

/// The options after one more, whose value stands at `at`.
pub open spec fn option_read(o: BootpOptions, p: Seq<u8>, code: u8, at: int, len: int) -> BootpOptions {
    if code == OPT_MSG_TYPE && len == 1 {
        BootpOptions { msg_type: Some(p[at]), ..o }
    } else if code == OPT_REQUESTED_IP && len == 4 {
        BootpOptions { requested_ip: Some(ip_at(p, at)), ..o }
    } else if code == OPT_SERVER_ID && len == 4 {
        BootpOptions { server_id: Some(ip_at(p, at)), ..o }
    } else {
        o
    }
}

/// The options from position `i` on: padding is skipped, the end mark or the
/// end of the buffer closes the list, an option that overruns the buffer
/// spoils it, and a later option replaces an earlier one of its code.
pub open spec fn options_from(p: Seq<u8>, i: int, o: BootpOptions) -> Option<BootpOptions>
    decreases p.len() - i,
{
    if i < 0 || i >= p.len() || p[i] == OPT_END {
        Some(o)
    } else if p[i] == OPT_PAD {
        options_from(p, i + 1, o)
    } else if i + 1 >= p.len() || i + 2 + p[i + 1] > p.len() {
        None
    } else {
        options_from(p, i + 2 + p[i + 1], option_read(o, p, p[i], i + 2, p[i + 1] as int))
    }
}

/// The DHCP request that a UDP payload holds.
pub open spec fn bootp_request(p: Seq<u8>) -> Option<BootpRequest> {
    if p.len() >= BOOTP_MIN_LEN && p[0] == BOOTREQUEST && p[1] == 1 && p[2] == 6 && p[236] == 99
        && p[237] == 130 && p[238] == 83 && p[239] == 99 {
        match options_from(
            p,
            240,
            BootpOptions { msg_type: None, requested_ip: None, server_id: None },
        ) {
            Some(BootpOptions { msg_type: Some(msg_type), requested_ip, server_id }) => Some(
                BootpRequest {
                    xid: be32(p, 4) as u32,
                    flags: word_at(p, 10),
                    ciaddr: ip_at(p, 12),
                    giaddr: ip_at(p, 24),
                    chaddr: mac_of(p, 28),
                    msg_type,
                    requested_ip,
                    server_id,
                },
            ),
            _ => None,
        }
    } else {
        None
    }
}

fn read_options(p: &[u8]) -> (r: Option<BootpOptions>)
    requires
        p@.len() >= 240,
    ensures
        r == options_from(
            p@,
            240,
            BootpOptions { msg_type: None, requested_ip: None, server_id: None },
        ),
{
    let mut o = BootpOptions { msg_type: None, requested_ip: None, server_id: None };
    let mut i: usize = 240;
    while i < p.len() && p[i] != OPT_END
        invariant
            240 <= i <= p@.len(),
            options_from(
                p@,
                240,
                BootpOptions { msg_type: None, requested_ip: None, server_id: None },
            ) == options_from(p@, i as int, o),
        decreases p@.len() - i,
    {
        let code: u8 = p[i];
        if code == OPT_PAD {
            i = i + 1;
        } else {
            if i + 1 >= p.len() {
                return None;
            }
            let len: usize = p[i + 1] as usize;
            if len > p.len() - i - 2 {
                return None;
            }
            if code == OPT_MSG_TYPE && len == 1 {
                o.msg_type = Some(p[i + 2]);
            } else if code == OPT_REQUESTED_IP && len == 4 {
                o.requested_ip = Some(ipv4_at(p, i + 2));
            } else if code == OPT_SERVER_ID && len == 4 {
                o.server_id = Some(ipv4_at(p, i + 2));
            }
            i = i + 2 + len;
        }
    }
    Some(o)
}

/// Parse a BOOTP/DHCP request (the UDP payload). Returns `None` for replies,
/// non-ethernet hardware, missing cookie, or any truncation.
pub fn parse_bootp(p: &[u8]) -> (r: Option<BootpRequest>)
    ensures
        r == bootp_request(p@),
{
    if p.len() < BOOTP_MIN_LEN {
        return None;
    }
    if p[0] != BOOTREQUEST || p[1] != 1 || p[2] != 6 {
        return None;
    }
    if p[236] != 99 || p[237] != 130 || p[238] != 83 || p[239] != 99 {
        return None;
    }
    let o = match read_options(p) {
        Some(o) => o,
        None => return None,
    };
    match o.msg_type {
        Some(msg_type) => Some(
            BootpRequest {
                xid: u32_at(p, 4),
                flags: u16_at(p, 10),
                ciaddr: ipv4_at(p, 12),
                giaddr: ipv4_at(p, 24),
                chaddr: mac_at(p, 28),
                msg_type,
                requested_ip: o.requested_ip,
                server_id: o.server_id,
            },
        ),
        None => None,
    }
}

/// Where in an ethernet frame a client's DHCP message stands.
pub open spec fn dhcp_message(f: Seq<u8>) -> Option<Seq<u8>> {
    let p = f.skip(14);
    let d = ipv4_payload(p);
    if eth_wf(f) && be16(f, 12) == ETHERTYPE_IPV4 && ipv4_wf(p) && p[9] == IPPROTO_UDP && udp_wf(d)
        && be16(d, 0) == DHCP_CLIENT_PORT && be16(d, 2) == DHCP_SERVER_PORT {
        Some(udp_payload(d))
    } else {
        None
    }
}

/// The DHCP request that an ethernet frame carries.
pub open spec fn frame_request(f: Seq<u8>) -> Option<BootpRequest> {
    match dhcp_message(f) {
        Some(p) => bootp_request(p),
        None => None,
    }
}

fn request_in(eth_frame: &[u8]) -> (r: Option<BootpRequest>)
    ensures
        r == frame_request(eth_frame@),
{
    let eth = match EthView::parse(eth_frame) {
        Some(eth) => eth,
        None => return None,
    };
    if eth.ethertype() != ETHERTYPE_IPV4 {
        return None;
    }
    let ip = match Ipv4View::parse(eth.payload()) {
        Some(ip) => ip,
        None => return None,
    };
    if ip.proto() != IPPROTO_UDP {
        return None;
    }
    let udp = match UdpView::parse(ip.payload()) {
        Some(udp) => udp,
        None => return None,
    };
    if udp.src_port() != DHCP_CLIENT_PORT || udp.dst_port() != DHCP_SERVER_PORT {
        return None;
    }
    parse_bootp(udp.payload())
}

// ---------------------------------------------------------------------------
// Replies
// ---------------------------------------------------------------------------

/// Configuration of one segment's DHCP service.
pub struct DhcpConfig {
    pub subnet: Ipv4Net,
    /// The gateway's IP, pushed as router and server identifier, excluded
    /// from the dynamic pool.
    pub gateway: Ipv4Addr,
    /// The MAC the server's reply frames are sent from (the gateway MAC).
    pub server_mac: MacAddr,
    /// DNS server pushed via option 6; `None` omits the option entirely.
    pub dns_server: Option<Ipv4Addr>,
    /// Domain suffix pushed via option 15.
    pub domain: Option<String>,
    /// Classless static routes pushed via option 121.
    pub routes: Vec<(Ipv4Net, Ipv4Addr)>,
    /// Static reservations keyed on client MAC; always win over the dynamic
    /// pool and may sit outside it.
    pub reservations: Table<MacAddr, Ipv4Addr>,
    pub lease_secs: u32,
    /// Interface MTU pushed via option 26.
    pub mtu: u16,
}

/// What a [`DhcpConfig`] says.
pub ghost struct DhcpConfigView {
    pub subnet: Ipv4Net,
    pub gateway: Ipv4Addr,
    pub server_mac: MacAddr,
    pub dns_server: Option<Ipv4Addr>,
    pub domain: Option<Seq<u8>>,
    pub routes: Seq<(Ipv4Net, Ipv4Addr)>,
    pub reservations: Map<MacAddr, Ipv4Addr>,
    pub lease_secs: u32,
    pub mtu: u16,
}

impl View for DhcpConfig {
    type V = DhcpConfigView;

    open spec fn view(&self) -> DhcpConfigView {
        DhcpConfigView {
            subnet: self.subnet,
            gateway: self.gateway,
            server_mac: self.server_mac,
            dns_server: self.dns_server,
            domain: match self.domain {
                Some(d) => Some(vstd::utf8::encode_utf8(d@)),
                None => None,
            },
            routes: self.routes@,
            reservations: self.reservations@,
            lease_secs: self.lease_secs,
            mtu: self.mtu,
        }
    }
}

impl DhcpConfig {
    /// A config with no DNS/domain/routes/reservations, the default
    /// 3600-second lease and the standard MTU.
    pub fn new(subnet: Ipv4Net, gateway: Ipv4Addr, server_mac: MacAddr) -> (r: Self)
        ensures
            r@ == (DhcpConfigView {
                subnet,
                gateway,
                server_mac,
                dns_server: None,
                domain: None,
                routes: Seq::empty(),
                reservations: Map::empty(),
                lease_secs: 3600,
                mtu: 1500,
            }),
    {
        DhcpConfig {
            subnet,
            gateway,
            server_mac,
            dns_server: None,
            domain: None,
            routes: Vec::new(),
            reservations: Table::new(),
            lease_secs: 3600,
            mtu: 1500,
        }
    }
}

/// A TLV option: code, length (in one byte), value.
pub open spec fn opt_bytes(code: u8, val: Seq<u8>) -> Seq<u8> {
    seq![code, (val.len() % 256) as u8] + val
}

/// Append a TLV option.
fn opt(out: &mut Vec<u8>, code: u8, val: &[u8])
    ensures
        final(out)@ == old(out)@ + opt_bytes(code, val@),
{
    out.push(code);
    out.push((val.len() % 256) as u8);
    push_bytes(out, val);
    assert(out@ =~= old(out)@ + opt_bytes(code, val@));
}

/// One route in RFC 3442 encoding: the prefix length, the significant octets
/// of the destination, then the four router octets.
pub open spec fn route_bytes(r: (Ipv4Net, Ipv4Addr)) -> Seq<u8> {
    seq![r.0.prefix()] + u32_bytes(r.0.first() as u32).take((r.0.prefix() + 7) / 8) + ip_bytes(r.1)
}

/// The routes in RFC 3442 encoding.
pub open spec fn routes_bytes(routes: Seq<(Ipv4Net, Ipv4Addr)>) -> Seq<u8>
    decreases routes.len(),
{
    if routes.len() == 0 {
        Seq::empty()
    } else {
        routes_bytes(routes.drop_last()) + route_bytes(routes.last())
    }
}

/// RFC 3442 classless-static-routes encoding: for each route, the prefix
/// length, the `ceil(len/8)` significant octets of the destination, then the
/// four router octets.
pub fn encode_classless_routes(routes: &[(Ipv4Net, Ipv4Addr)]) -> (out: Vec<u8>)
    ensures
        out@ == routes_bytes(routes@),
{
    let mut out: Vec<u8> = Vec::new();
    let mut i: usize = 0;
    assert(routes@.take(0) =~= Seq::<(Ipv4Net, Ipv4Addr)>::empty());
    while i < routes.len()
        invariant
            i <= routes@.len(),
            out@ == routes_bytes(routes@.take(i as int)),
        decreases routes@.len() - i,
    {
        let (net, via) = routes[i];
        let plen: u8 = net.prefix_len();
        let significant: usize = (plen as usize + 7) / 8;
        let octets = net.network().octets();
        let ghost before = out@;
        out.push(plen);
        let head = slice_subrange(&octets, 0, significant);
        push_bytes(&mut out, head);
        push_u32(&mut out, via.bits);
        proof {
            let t = routes@.take(i as int + 1);
            assert(t.drop_last() =~= routes@.take(i as int));
            assert(t.last() == (net, via));
            assert(head@ =~= u32_bytes(net.first() as u32).take((net.prefix() + 7) / 8));
            assert(out@ =~= before + route_bytes((net, via)));
        }
        i = i + 1;
    }
    assert(routes@.take(i as int) =~= routes@);
    out
}

/// The options of a reply.
pub open spec fn reply_options(cfg: DhcpConfigView, msg_type: u8) -> Seq<u8> {
    let ident = opt_bytes(OPT_MSG_TYPE, seq![msg_type]) + opt_bytes(
        OPT_SERVER_ID,
        ip_bytes(cfg.gateway),
    );
    if msg_type == DHCP_NAK {
        ident
    } else {
        ident + opt_bytes(OPT_LEASE_TIME, u32_bytes(cfg.lease_secs)) + opt_bytes(
            OPT_SUBNET_MASK,
            u32_bytes((0x1_0000_0000 - block_size(cfg.subnet.prefix())) as u32),
        ) + opt_bytes(OPT_ROUTER, ip_bytes(cfg.gateway)) + (match cfg.dns_server {
            Some(dns) => opt_bytes(OPT_DNS, ip_bytes(dns)),
            None => Seq::empty(),
        }) + (match cfg.domain {
            Some(d) => opt_bytes(OPT_DOMAIN, d),
            None => Seq::empty(),
        }) + (if cfg.mtu != 1500 {
            opt_bytes(OPT_MTU, u16_bytes(cfg.mtu))
        } else {
            Seq::empty()
        }) + (if cfg.routes.len() > 0 {
            opt_bytes(OPT_CLASSLESS_ROUTES, routes_bytes(cfg.routes))
        } else {
            Seq::empty()
        })
    }
}

/// `n` zero bytes.
pub open spec fn zeros(n: nat) -> Seq<u8> {
    Seq::new(n, |i: int| 0u8)
}

/// The BOOTP fixed header of a reply, magic cookie included.
pub open spec fn reply_header(
    cfg: DhcpConfigView,
    req: BootpRequest,
    msg_type: u8,
    yiaddr: Ipv4Addr,
) -> Seq<u8> {
    let ciaddr = if msg_type == DHCP_ACK {
        req.ciaddr
    } else {
        Ipv4Addr { bits: 0 }
    };
    seq![BOOTREPLY, 1u8, 6u8, 0u8] + u32_bytes(req.xid) + seq![0u8, 0u8] + u16_bytes(req.flags)
        + ip_bytes(ciaddr) + ip_bytes(yiaddr) + ip_bytes(cfg.gateway) + ip_bytes(req.giaddr)
        + req.chaddr.0@ + zeros(202) + seq![99u8, 130u8, 83u8, 99u8]
}

/// A whole reply message.
pub open spec fn reply_message(
    cfg: DhcpConfigView,
    req: BootpRequest,
    msg_type: u8,
    yiaddr: Ipv4Addr,
) -> Seq<u8> {
    (reply_header(cfg, req, msg_type, yiaddr) + reply_options(cfg, msg_type)).push(OPT_END)
}

/// Whether a reply is broadcast: refusals always, and whatever the client
/// asked to be.
pub open spec fn reply_broadcast(req: BootpRequest, msg_type: u8, yiaddr: Ipv4Addr) -> bool {
    msg_type == DHCP_NAK || req.flags >= 0x8000 || yiaddr.bits == 0
}

/// The ethernet frame that carries a reply.
pub open spec fn reply_frame(
    cfg: DhcpConfigView,
    req: BootpRequest,
    msg_type: u8,
    yiaddr: Ipv4Addr,
) -> Option<Seq<u8>> {
    let msg = reply_message(cfg, req, msg_type, yiaddr);
    let all = reply_broadcast(req, msg_type, yiaddr);
    let dst_ip = if all {
        Ipv4Addr { bits: 0xFFFF_FFFF }
    } else {
        yiaddr
    };
    let dst_mac = if all {
        seq![0xffu8, 0xff, 0xff, 0xff, 0xff, 0xff]
    } else {
        req.chaddr.0@
    };
    if msg.len() + 28 <= 0xFFFF {
        let d = udp_bytes(cfg.gateway, dst_ip, DHCP_SERVER_PORT, DHCP_CLIENT_PORT, msg);
        Some(
            eth_bytes(
                dst_mac,
                cfg.server_mac.0@,
                ETHERTYPE_IPV4,
                ipv4_bytes(cfg.gateway, dst_ip, IPPROTO_UDP, 64, d, (req.xid % 0x1_0000) as u16),
            ),
        )
    } else {
        None
    }
}

fn push_reply_header(cfg: &DhcpConfig, req: &BootpRequest, msg_type: u8, yiaddr: Ipv4Addr) -> (b: Vec<
    u8,
>)
    ensures
        b@ == reply_header(cfg@, *req, msg_type, yiaddr),
{
    let ciaddr = if msg_type == DHCP_ACK {
        req.ciaddr
    } else {
        Ipv4Addr::unspecified()
    };
    let mut b: Vec<u8> = Vec::new();
    b.push(BOOTREPLY);
    b.push(1);
    b.push(6);
    b.push(0);
    push_u32(&mut b, req.xid);
    b.push(0);
    b.push(0);
    push_u16(&mut b, req.flags);
    push_u32(&mut b, ciaddr.bits);
    push_u32(&mut b, yiaddr.bits);
    push_u32(&mut b, cfg.gateway.bits);
    push_u32(&mut b, req.giaddr.bits);
    push_mac(&mut b, req.chaddr);
    let ghost fixed = b@;
    let mut n: usize = 0;
    assert(fixed + zeros(0) =~= fixed);
    while n < 202
        invariant
            n <= 202,
            b@ == fixed + zeros(n as nat),
        decreases 202 - n,
    {
        b.push(0);
        n = n + 1;
        assert(b@ =~= fixed + zeros(n as nat));
    }
    b.push(99);
    b.push(130);
    b.push(83);
    b.push(99);
    assert(b@ =~= reply_header(cfg@, *req, msg_type, yiaddr));
    b
}

fn push_reply_options(b: &mut Vec<u8>, cfg: &DhcpConfig, msg_type: u8)
    ensures
        final(b)@ == old(b)@ + reply_options(cfg@, msg_type),
{
    let ghost start = b@;
    let kind: [u8; 1] = [msg_type];
    assert(kind@ =~= seq![msg_type]);
    let mut o: Vec<u8> = Vec::new();
    opt(&mut o, OPT_MSG_TYPE, &kind);
    opt(&mut o, OPT_SERVER_ID, &cfg.gateway.octets());
    assert(o@ =~= opt_bytes(OPT_MSG_TYPE, seq![msg_type]) + opt_bytes(
        OPT_SERVER_ID,
        ip_bytes(cfg.gateway),
    ));
    if msg_type != DHCP_NAK {
        let mut lease: Vec<u8> = Vec::new();
        push_u32(&mut lease, cfg.lease_secs);
        assert(lease@ =~= u32_bytes(cfg.lease_secs));
        opt(&mut o, OPT_LEASE_TIME, lease.as_slice());
        opt(&mut o, OPT_SUBNET_MASK, &cfg.subnet.netmask().octets());
        opt(&mut o, OPT_ROUTER, &cfg.gateway.octets());
        let ghost o1 = o@;
        match cfg.dns_server {
            Some(dns) => opt(&mut o, OPT_DNS, &dns.octets()),
            None => {
                assert(o@ =~= o1 + Seq::<u8>::empty());
            },
        }
        let ghost o2 = o@;
        match &cfg.domain {
            Some(domain) => opt(&mut o, OPT_DOMAIN, domain.as_str().as_bytes()),
            None => {
                assert(o@ =~= o2 + Seq::<u8>::empty());
            },
        }
        let ghost o3 = o@;
        if cfg.mtu != 1500 {
            let mut mtu: Vec<u8> = Vec::new();
            push_u16(&mut mtu, cfg.mtu);
            assert(mtu@ =~= u16_bytes(cfg.mtu));
            opt(&mut o, OPT_MTU, mtu.as_slice());
        } else {
            assert(o@ =~= o3 + Seq::<u8>::empty());
        }
        let ghost o4 = o@;
        if cfg.routes.len() > 0 {
            let routes = encode_classless_routes(cfg.routes.as_slice());
            opt(&mut o, OPT_CLASSLESS_ROUTES, routes.as_slice());
        } else {
            assert(o@ =~= o4 + Seq::<u8>::empty());
        }
    }
    assert(o@ == reply_options(cfg@, msg_type));
    push_bytes(b, o.as_slice());
}

fn build_reply(cfg: &DhcpConfig, req: &BootpRequest, msg_type: u8, yiaddr: Option<Ipv4Addr>) -> (r:
    Option<Vec<u8>>)
    ensures
        ({
            let ip = match yiaddr {
                Some(ip) => ip,
                None => Ipv4Addr { bits: 0 },
            };
            &&& r is Some <==> reply_frame(cfg@, *req, msg_type, ip) is Some
            &&& r matches Some(f) ==> reply_frame(cfg@, *req, msg_type, ip) == Some(f@)
        }),
{
    let ip = match yiaddr {
        Some(ip) => ip,
        None => Ipv4Addr::unspecified(),
    };
    let mut b = push_reply_header(cfg, req, msg_type, ip);
    push_reply_options(&mut b, cfg, msg_type);
    b.push(OPT_END);
    let all = msg_type == DHCP_NAK || req.flags >= 0x8000 || ip.is_unspecified();
    let dst_mac = if all {
        MacAddr::broadcast()
    } else {
        req.chaddr
    };
    let dst_ip = if all {
        Ipv4Addr::broadcast()
    } else {
        ip
    };
    match udp_build(cfg.gateway, dst_ip, DHCP_SERVER_PORT, DHCP_CLIENT_PORT, b.as_slice()) {
        Some(d) => {
            let id: u16 = (req.xid % 0x1_0000) as u16;
            assert(d@.len() == b@.len() + 8);
            match ipv4_build(cfg.gateway, dst_ip, IPPROTO_UDP, 64, d.as_slice(), id) {
                Some(p) => Some(eth_build(dst_mac, cfg.server_mac, ETHERTYPE_IPV4, p.as_slice())),
                None => None,
            }
        },
        None => None,
    }
}

// ---------------------------------------------------------------------------
// Leases
// ---------------------------------------------------------------------------

/// An address that a client holds until `expiry`.
#[derive(Debug, Clone, Copy)]
pub struct Lease {
    pub ip: Ipv4Addr,
    pub expiry: u64,
}

/// The DHCP server state machine: a lease table over a [`DhcpConfig`].
pub struct DhcpServer {
    config: DhcpConfig,
    leases: Table<MacAddr, Lease>,
    /// Addresses quarantined by client DECLINEs (duplicate detection).
    declined: Table<Ipv4Addr, ()>,
}

/// What a [`DhcpServer`] knows.
pub ghost struct DhcpView {
    pub config: DhcpConfigView,
    pub leases: Map<MacAddr, Lease>,
    pub declined: Set<Ipv4Addr>,
}

impl View for DhcpServer {
    type V = DhcpView;

    closed spec fn view(&self) -> DhcpView {
        DhcpView {
            config: self.config@,
            leases: self.leases@,
            declined: self.declined@.dom(),
        }
    }
}

/// The leases that are still valid at `now`.
pub open spec fn live_leases(m: Map<MacAddr, Lease>, now: u64) -> Map<MacAddr, Lease> {
    kept(m, |l: Lease| l.expiry > now)
}

/// Whether some client has a valid lease on `ip`.
pub open spec fn leased(m: Map<MacAddr, Lease>, ip: Ipv4Addr, now: u64) -> bool {
    exists|k: MacAddr| #[trigger] m.dom().contains(k) && m[k].ip == ip && m[k].expiry > now
}

/// Whether some client has `ip` reserved.
pub open spec fn reserved(m: Map<MacAddr, Ipv4Addr>, ip: Ipv4Addr) -> bool {
    exists|k: MacAddr| #[trigger] m.dom().contains(k) && m[k] == ip
}

/// Whether `ip` is a host address of the subnet: not its network or broadcast
/// address, unless it has two addresses or one.
pub open spec fn is_host(net: Ipv4Net, ip: Ipv4Addr) -> bool {
    if net.prefix() < 31 {
        net.first() < ip.bits < net.last()
    } else {
        net.holds(ip)
    }
}

/// Whether `ip` must not be given to a new client.
pub open spec fn taken(st: DhcpView, ip: Ipv4Addr, now: u64) -> bool {
    ||| ip == st.config.gateway
    ||| reserved(st.config.reservations, ip)
    ||| st.declined.contains(ip)
    ||| leased(st.leases, ip, now)
}

/// Whether `ip` is in the dynamic pool and free.
pub open spec fn is_free(st: DhcpView, ip: Ipv4Addr, now: u64) -> bool {
    is_host(st.config.subnet, ip) && !taken(st, ip, now)
}

/// Whether `ip` is the lowest free address of the pool.
pub open spec fn is_first_free(st: DhcpView, ip: Ipv4Addr, now: u64) -> bool {
    &&& is_free(st, ip, now)
    &&& forall|b: Ipv4Addr| #[trigger] is_free(st, b, now) ==> ip.bits <= b.bits
}

/// The address that a fresh allocation gives.
pub open spec fn first_free(st: DhcpView, now: u64) -> Option<Ipv4Addr> {
    if exists|ip: Ipv4Addr| is_free(st, ip, now) {
        Some(choose|ip: Ipv4Addr| is_first_free(st, ip, now))
    } else {
        None
    }
}

/// The valid lease of a client.
pub open spec fn lease_ip(st: DhcpView, mac: MacAddr, now: u64) -> Option<Ipv4Addr> {
    if st.leases.dom().contains(mac) && st.leases[mac].expiry > now {
        Some(st.leases[mac].ip)
    } else {
        None
    }
}

/// The address that a client is entitled to: its reservation, else its valid
/// lease.
pub open spec fn entitled(st: DhcpView, mac: MacAddr, now: u64) -> Option<Ipv4Addr> {
    if st.config.reservations.dom().contains(mac) {
        Some(st.config.reservations[mac])
    } else {
        lease_ip(st, mac, now)
    }
}

/// The address that a client is offered.
pub open spec fn offered(st: DhcpView, mac: MacAddr, now: u64) -> Option<Ipv4Addr> {
    match entitled(st, mac, now) {
        Some(ip) => Some(ip),
        None => first_free(st, now),
    }
}

/// Whether a client with no reservation and no lease may claim `ip`.
pub open spec fn requestable(st: DhcpView, ip: Ipv4Addr, now: u64) -> bool {
    st.config.subnet.first() < ip.bits < st.config.subnet.last() && !taken(st, ip, now)
}

/// The address that a request asks for.
pub open spec fn requested(req: BootpRequest) -> Option<Ipv4Addr> {
    match req.requested_ip {
        Some(ip) => Some(ip),
        None => if req.ciaddr.bits != 0 {
            Some(req.ciaddr)
        } else {
            None
        },
    }
}

/// The address that a request is granted: what it asks for, if the client is
/// entitled to it or may claim it; what the client is entitled to, if it asks
/// for none.
pub open spec fn granted(st: DhcpView, req: BootpRequest, now: u64) -> Option<Ipv4Addr> {
    match (requested(req), entitled(st, req.chaddr, now)) {
        (None, e) => e,
        (Some(r), Some(e)) => if r == e {
            Some(e)
        } else {
            None
        },
        (Some(r), None) => if requestable(st, r, now) {
            Some(r)
        } else {
            None
        },
    }
}

/// The state with `ip` leased to `mac` from `now` on.
pub open spec fn with_lease(st: DhcpView, mac: MacAddr, ip: Ipv4Addr, now: u64) -> DhcpView {
    DhcpView {
        leases: st.leases.insert(
            mac,
            Lease { ip, expiry: (now + st.config.lease_secs * 1000) as u64 },
        ),
        ..st
    }
}

/// What the server does with a request: its state afterwards, and the kind
/// and the address of its reply.
pub open spec fn dhcp_step(st0: DhcpView, req: BootpRequest, now: u64) -> (
    DhcpView,
    Option<(u8, Option<Ipv4Addr>)>,
) {
    let st = DhcpView { leases: live_leases(st0.leases, now), ..st0 };
    if req.msg_type == DHCP_DISCOVER {
        match offered(st, req.chaddr, now) {
            Some(ip) => (with_lease(st, req.chaddr, ip, now), Some((DHCP_OFFER, Some(ip)))),
            None => (st, None),
        }
    } else if req.msg_type == DHCP_REQUEST {
        if req.server_id is Some && req.server_id != Some(st.config.gateway) {
            (DhcpView { leases: st.leases.remove(req.chaddr), ..st }, None)
        } else {
            match granted(st, req, now) {
                Some(ip) => (with_lease(st, req.chaddr, ip, now), Some((DHCP_ACK, Some(ip)))),
                None => (st, Some((DHCP_NAK, None))),
            }
        }
    } else if req.msg_type == DHCP_RELEASE {
        (DhcpView { leases: st.leases.remove(req.chaddr), ..st }, None)
    } else if req.msg_type == DHCP_DECLINE {
        let ip = if st.leases.dom().contains(req.chaddr) {
            Some(st.leases[req.chaddr].ip)
        } else {
            req.requested_ip
        };
        (
            DhcpView {
                leases: st.leases.remove(req.chaddr),
                declined: match ip {
                    Some(ip) => st.declined.insert(ip),
                    None => st.declined,
                },
                ..st
            },
            None,
        )
    } else {
        (st, None)
    }
}

/// The state after a frame.
pub open spec fn handle_state(st: DhcpView, f: Seq<u8>, now: u64) -> DhcpView {
    match frame_request(f) {
        Some(req) => dhcp_step(st, req, now).0,
        None => st,
    }
}

/// The reply to a frame.
pub open spec fn handle_reply(st: DhcpView, f: Seq<u8>, now: u64) -> Option<Seq<u8>> {
    match frame_request(f) {
        Some(req) => match dhcp_step(st, req, now).1 {
            Some((kind, ip)) => reply_frame(
                st.config,
                req,
                kind,
                match ip {
                    Some(ip) => ip,
                    None => Ipv4Addr { bits: 0 },
                },
            ),
            None => None,
        },
        None => None,
    }
}

struct StillValid {
    now: u64,
}

impl Keep<Lease> for StillValid {
    closed spec fn wants(&self, l: Lease) -> bool {
        l.expiry > self.now
    }

    fn test(&self, l: &Lease) -> (r: bool) {
        l.expiry > self.now
    }
}

struct ValidOn {
    ip: Ipv4Addr,
    now: u64,
}

impl Keep<Lease> for ValidOn {
    closed spec fn wants(&self, l: Lease) -> bool {
        l.ip == self.ip && l.expiry > self.now
    }

    fn test(&self, l: &Lease) -> (r: bool) {
        l.ip == self.ip && l.expiry > self.now
    }
}

struct Is {
    ip: Ipv4Addr,
}

impl Keep<Ipv4Addr> for Is {
    closed spec fn wants(&self, v: Ipv4Addr) -> bool {
        v == self.ip
    }

    fn test(&self, v: &Ipv4Addr) -> (r: bool) {
        *v == self.ip
    }
}

impl DhcpServer {
    /// A server with no leases.
    pub fn new(config: DhcpConfig) -> (r: Self)
        ensures
            r@ == (DhcpView {
                config: config@,
                leases: Map::empty(),
                declined: Set::empty(),
            }),
    {
        let r = DhcpServer { config, leases: Table::new(), declined: Table::new() };
        assert(r@.declined =~= Set::<Ipv4Addr>::empty());
        r
    }

    /// Process one ethernet frame. Returns the full ethernet reply frame for
    /// DISCOVER/REQUEST that warrant one (OFFER/ACK/NAK); `None` for
    /// non-DHCP traffic, RELEASE, DECLINE, and pool exhaustion.
    pub fn handle(&mut self, eth_frame: &[u8], now: u64) -> (r: Option<Vec<u8>>)
        requires
            now + old(self)@.config.lease_secs * 1000 <= u64::MAX,
        ensures
            final(self)@ == handle_state(old(self)@, eth_frame@, now),
            r is Some <==> handle_reply(old(self)@, eth_frame@, now) is Some,
            r matches Some(f) ==> handle_reply(old(self)@, eth_frame@, now) == Some(f@),
    {
        let req = match request_in(eth_frame) {
            Some(req) => req,
            None => return None,
        };
        match self.step(&req, now) {
            Some((kind, ip)) => build_reply(&self.config, &req, kind, ip),
            None => None,
        }
    }

    /// Takes one request: updates the leases and decides on the reply.
    pub fn step(&mut self, req: &BootpRequest, now: u64) -> (r: Option<(u8, Option<Ipv4Addr>)>)
        requires
            now + old(self)@.config.lease_secs * 1000 <= u64::MAX,
        ensures
            (final(self)@, r) == dhcp_step(old(self)@, *req, now),
    {
        self.purge_expired(now);
        if req.msg_type == DHCP_DISCOVER {
            self.on_discover(req, now)
        } else if req.msg_type == DHCP_REQUEST {
            self.on_request(req, now)
        } else if req.msg_type == DHCP_RELEASE {
            let _ = self.leases.remove(req.chaddr);
            None
        } else if req.msg_type == DHCP_DECLINE {
            self.on_decline(req);
            None
        } else {
            None
        }
    }

    /// The valid lease held by `mac`, if any.
    pub fn lease_of(&self, mac: MacAddr, now: u64) -> (r: Option<Ipv4Addr>)
        ensures
            r == lease_ip(self@, mac, now),
    {
        match self.leases.get(mac) {
            Some(l) => if l.expiry > now {
                Some(l.ip)
            } else {
                None
            },
            None => None,
        }
    }

    // -- message handling -----------------------------------------------------

    fn on_discover(&mut self, req: &BootpRequest, now: u64) -> (r: Option<(u8, Option<Ipv4Addr>)>)
        requires
            now + old(self)@.config.lease_secs * 1000 <= u64::MAX,
        ensures
            (final(self)@, r) == (match offered(old(self)@, req.chaddr, now) {
                Some(ip) => (
                    with_lease(old(self)@, req.chaddr, ip, now),
                    Some((DHCP_OFFER, Some(ip))),
                ),
                None => (old(self)@, None),
            }),
    {
        match self.ip_for(req.chaddr, now) {
            Some(ip) => {
                self.grant(req.chaddr, ip, now);
                Some((DHCP_OFFER, Some(ip)))
            },
            None => None,
        }
    }

    fn on_request(&mut self, req: &BootpRequest, now: u64) -> (r: Option<(u8, Option<Ipv4Addr>)>)
        requires
            now + old(self)@.config.lease_secs * 1000 <= u64::MAX,
        ensures
            (final(self)@, r) == (if req.server_id is Some && req.server_id != Some(
                old(self)@.config.gateway,
            ) {
                (
                    DhcpView { leases: old(self)@.leases.remove(req.chaddr), ..old(self)@ },
                    None,
                )
            } else {
                match granted(old(self)@, *req, now) {
                    Some(ip) => (
                        with_lease(old(self)@, req.chaddr, ip, now),
                        Some((DHCP_ACK, Some(ip))),
                    ),
                    None => (old(self)@, Some((DHCP_NAK, None))),
                }
            }),
    {
        // SELECTING with a different server: the client chose someone else.
        if let Some(sid) = req.server_id {
            if sid != self.config.gateway {
                let _ = self.leases.remove(req.chaddr);
                return None;
            }
        }
        let wanted = match req.requested_ip {
            Some(ip) => Some(ip),
            None => if req.ciaddr.is_unspecified() {
                None
            } else {
                Some(req.ciaddr)
            },
        };
        let granted = match (wanted, self.entitled_ip(req.chaddr, now)) {
            (None, e) => e,
            (Some(r), Some(e)) => if r == e {
                Some(e)
            } else {
                None
            },
            (Some(r), None) => if self.requestable(r, now) {
                Some(r)
            } else {
                None
            },
        };
        match granted {
            Some(ip) => {
                self.grant(req.chaddr, ip, now);
                Some((DHCP_ACK, Some(ip)))
            },
            None => Some((DHCP_NAK, None)),
        }
    }

    fn on_decline(&mut self, req: &BootpRequest)
        ensures
            final(self)@ == ({
                let st = old(self)@;
                let ip = if st.leases.dom().contains(req.chaddr) {
                    Some(st.leases[req.chaddr].ip)
                } else {
                    req.requested_ip
                };
                DhcpView {
                    leases: st.leases.remove(req.chaddr),
                    declined: match ip {
                        Some(ip) => st.declined.insert(ip),
                        None => st.declined,
                    },
                    ..st
                }
            }),
    {
        let declined = match self.leases.get(req.chaddr) {
            Some(l) => Some(l.ip),
            None => req.requested_ip,
        };
        let _ = self.leases.remove(req.chaddr);
        if let Some(ip) = declined {
            self.declined.insert(ip, ());
            assert(self@.declined =~= old(self)@.declined.insert(ip));
        }
    }

    // -- allocation -----------------------------------------------------------

    fn entitled_ip(&self, mac: MacAddr, now: u64) -> (r: Option<Ipv4Addr>)
        ensures
            r == entitled(self@, mac, now),
    {
        match self.config.reservations.get(mac) {
            Some(ip) => Some(ip),
            None => self.lease_of(mac, now),
        }
    }

    /// The address this client should get: reservation, then existing valid
    /// lease, then a fresh allocation from the dynamic pool.
    fn ip_for(&self, mac: MacAddr, now: u64) -> (r: Option<Ipv4Addr>)
        ensures
            r == offered(self@, mac, now),
    {
        match self.entitled_ip(mac, now) {
            Some(ip) => Some(ip),
            None => self.allocate(now),
        }
    }

    fn is_taken(&self, ip: Ipv4Addr, now: u64) -> (r: bool)
        ensures
            r == taken(self@, ip, now),
    {
        let by_reservation = self.config.reservations.any(&Is { ip });
        let by_lease = self.leases.any(&ValidOn { ip, now });
        proof {
            let same = Is { ip };
            let on = ValidOn { ip, now };
            if by_reservation {
                let k = choose|k: MacAddr| #[trigger]
                    self@.config.reservations.dom().contains(k) && same.wants(
                        self@.config.reservations[k],
                    );
                assert(reserved(self@.config.reservations, ip));
            } else {
                assert forall|k: MacAddr| #[trigger]
                    self@.config.reservations.dom().contains(k) implies self@.config.reservations[k]
                    != ip by {
                    assert(!same.wants(self@.config.reservations[k]));
                }
            }
            if by_lease {
                let k = choose|k: MacAddr| #[trigger]
                    self@.leases.dom().contains(k) && on.wants(self@.leases[k]);
                assert(leased(self@.leases, ip, now));
            } else {
                assert forall|k: MacAddr| #[trigger] self@.leases.dom().contains(k) implies !(
                self@.leases[k].ip == ip && self@.leases[k].expiry > now) by {
                    assert(!on.wants(self@.leases[k]));
                }
            }
        }
        ip == self.config.gateway || by_reservation || self.declined.contains(ip) || by_lease
    }

    /// First free address in the dynamic pool: subnet hosts minus gateway,
    /// reservations, valid leases, and quarantined addresses.
    fn allocate(&self, now: u64) -> (r: Option<Ipv4Addr>)
        ensures
            r == first_free(self@, now),
    {
        let net = self.config.subnet;
        let narrow: u64 = if net.prefix_len() < 31 {
            1
        } else {
            0
        };
        let start: u64 = net.network().bits as u64 + narrow;
        let end: u64 = net.broadcast().bits as u64 + 1 - narrow;
        proof {
            crate::net::cidr::lemma_block(net.base().bits, net.prefix());
        }
        let mut a: u64 = start;
        while a < end
            invariant
                start <= a,
                end <= 0x1_0000_0000,
                a <= end || a == start,
                net == self@.config.subnet,
                forall|ip: Ipv4Addr|
                    #![trigger is_host(net, ip)]
                    is_host(net, ip) <==> start <= ip.bits < end,
                forall|ip: Ipv4Addr| #[trigger] is_free(self@, ip, now) ==> ip.bits >= a,
            decreases end - a,
        {
            let ip = Ipv4Addr { bits: a as u32 };
            if !self.is_taken(ip, now) {
                proof {
                    assert(is_host(net, ip));
                    assert(is_first_free(self@, ip, now));
                    let c = choose|c: Ipv4Addr| is_first_free(self@, c, now);
                    assert(is_free(self@, c, now) && is_free(self@, ip, now));
                    assert(c.bits == ip.bits);
                }
                return Some(ip);
            }
            proof {
                assert forall|b: Ipv4Addr| #[trigger] is_free(self@, b, now) implies b.bits >= a
                    + 1 by {
                    if b.bits == a {
                        assert(b == ip);
                    }
                }
            }
            a = a + 1;
        }
        proof {
            assert forall|ip: Ipv4Addr| !is_free(self@, ip, now) by {
                if is_free(self@, ip, now) {
                    assert(is_host(net, ip));
                }
            }
        }
        None
    }

    /// May a client with no reservation and no lease claim `ip`?
    fn requestable(&self, ip: Ipv4Addr, now: u64) -> (r: bool)
        ensures
            r == requestable(self@, ip, now),
    {
        self.config.subnet.contains(ip) && ip != self.config.subnet.network() && ip
            != self.config.subnet.broadcast() && !self.is_taken(ip, now)
    }

    fn grant(&mut self, mac: MacAddr, ip: Ipv4Addr, now: u64)
        requires
            now + old(self)@.config.lease_secs * 1000 <= u64::MAX,
        ensures
            final(self)@ == with_lease(old(self)@, mac, ip, now),
    {
        let expiry: u64 = now + self.config.lease_secs as u64 * 1000;
        self.leases.insert(mac, Lease { ip, expiry });
    }

    fn purge_expired(&mut self, now: u64)
        ensures
            final(self)@ == (DhcpView {
                leases: live_leases(old(self)@.leases, now),
                ..old(self)@
            }),
    {
        self.leases.retain(&StillValid { now });
        assert(kept(old(self)@.leases, |l: Lease| (StillValid { now }).wants(l)) =~= live_leases(
            old(self)@.leases,
            now,
        ));
    }
}

// ---------------------------------------------------------------------------
// Listing
// ---------------------------------------------------------------------------

/// Whether a listing is in the order of its addresses.
pub open spec fn by_address(v: Seq<(MacAddr, Ipv4Addr)>) -> bool {
    forall|i: int, j: int|
        0 <= i < j < v.len() ==> (#[trigger] v[i]).1.bits <= (#[trigger] v[j]).1.bits
}

fn insert_by_address(v: &mut Vec<(MacAddr, Ipv4Addr)>, e: (MacAddr, Ipv4Addr))
    requires
        by_address(old(v)@),
        keys_distinct(old(v)@),
        !has_key(old(v)@, e.0),
    ensures
        by_address(final(v)@),
        keys_distinct(final(v)@),
        forall|x: (MacAddr, Ipv4Addr)|
            #![trigger final(v)@.contains(x)]
            final(v)@.contains(x) <==> old(v)@.contains(x) || x == e,
{
    let mut at: usize = 0;
    let ghost before = v@;
    while at < v.len() && v[at].1.bits <= e.1.bits
        invariant
            v@ == before,
            at <= before.len(),
            forall|i: int| 0 <= i < at ==> (#[trigger] before[i]).1.bits <= e.1.bits,
        decreases before.len() - at,
    {
        at = at + 1;
    }
    v.insert(at, e);
    proof {
        let after = v@;
        let src = |i: int| if i < at { i } else { i - 1 };
        assert(after =~= before.insert(at as int, e));
        assert forall|i: int| 0 <= i < after.len() && i != at implies #[trigger] after[i]
            == before[src(i)] by {}
        assert(after[at as int] == e);
        assert forall|i: int, j: int| 0 <= i < j < after.len() implies (#[trigger] after[i]).1.bits
            <= (#[trigger] after[j]).1.bits by {
            if i == at {
                assert(before[at as int].1.bits <= before[src(j)].1.bits || src(j) == at);
            }
        }
        assert forall|i: int, j: int| 0 <= i < j < after.len() implies (#[trigger] after[i]).0 != (
        #[trigger] after[j]).0 by {
            if i == at {
                assert(before[src(j)].0 != e.0);
            } else if j == at {
                assert(before[src(i)].0 != e.0);
            } else {
                assert(before[src(i)].0 != before[src(j)].0);
            }
        }
        assert forall|x: (MacAddr, Ipv4Addr)| #[trigger]
            after.contains(x) <==> before.contains(x) || x == e by {
            if after.contains(x) {
                let i = after.index_of(x);
                if i != at {
                    assert(before[src(i)] == x);
                }
            }
            if before.contains(x) {
                let i = before.index_of(x);
                if i < at {
                    assert(after[i] == x);
                } else {
                    assert(after[i + 1] == x);
                }
            }
        }
    }
}

impl DhcpServer {
    /// Current (unexpired) leases, sorted by address, for status display.
    pub fn leases(&self, now: u64) -> (r: Vec<(MacAddr, Ipv4Addr)>)
        ensures
            by_address(r@),
            keys_distinct(r@),
            forall|m: MacAddr, ip: Ipv4Addr|
                #![trigger r@.contains((m, ip))]
                r@.contains((m, ip)) <==> lease_ip(self@, m, now) == Some(ip),
    {
        let all = self.leases.entries();
        let mut r: Vec<(MacAddr, Ipv4Addr)> = Vec::new();
        let mut i: usize = 0;
        while i < all.len()
            invariant
                i <= all@.len(),
                keys_distinct(all@),
                as_map(all@) == self@.leases,
                by_address(r@),
                keys_distinct(r@),
                forall|m: MacAddr, ip: Ipv4Addr|
                    #![trigger r@.contains((m, ip))]
                    r@.contains((m, ip)) <==> listed(all@, i as int, m, ip, now),
            decreases all@.len() - i,
        {
            let (mac, lease) = all[i];
            let ghost r0 = r@;
            proof {
                assert forall|m: MacAddr, ip: Ipv4Addr|
                    listed(all@, i + 1, m, ip, now) <==> listed(all@, i as int, m, ip, now) || (m
                        == mac && ip == lease.ip && lease.expiry > now) by {
                    if listed(all@, i + 1, m, ip, now) {
                        let j = choose|j: int|
                            0 <= j < i + 1 && (#[trigger] all@[j]).0 == m && all@[j].1.ip == ip
                                && all@[j].1.expiry > now;
                        if j < i {
                            assert(listed(all@, i as int, m, ip, now));
                        }
                    }
                    if listed(all@, i as int, m, ip, now) {
                        let j = choose|j: int|
                            0 <= j < i && (#[trigger] all@[j]).0 == m && all@[j].1.ip == ip
                                && all@[j].1.expiry > now;
                        assert(all@[j].0 == m);
                    }
                    if m == mac && ip == lease.ip && lease.expiry > now {
                        assert(all@[i as int].0 == m);
                    }
                }
                assert(!has_key(r@, mac)) by {
                    if has_key(r@, mac) {
                        let j = choose|j: int| 0 <= j < r@.len() && (#[trigger] r@[j]).0 == mac;
                        assert(r@.contains((r@[j].0, r@[j].1)));
                        assert(listed(all@, i as int, mac, r@[j].1, now));
                    }
                }
            }
            if lease.expiry > now {
                insert_by_address(&mut r, (mac, lease.ip));
                assert forall|m: MacAddr, ip: Ipv4Addr|
                    #![trigger r@.contains((m, ip))]
                    r@.contains((m, ip)) <==> listed(all@, i + 1, m, ip, now) by {
                    assert(r@.contains((m, ip)) <==> r0.contains((m, ip)) || (m, ip) == (
                        mac,
                        lease.ip,
                    ));
                }
            } else {
                assert forall|m: MacAddr, ip: Ipv4Addr|
                    #![trigger r@.contains((m, ip))]
                    r@.contains((m, ip)) <==> listed(all@, i + 1, m, ip, now) by {
                    assert(listed(all@, i + 1, m, ip, now) <==> listed(
                        all@,
                        i as int,
                        m,
                        ip,
                        now,
                    ));
                }
            }
            i = i + 1;
        }
        proof {
            assert forall|m: MacAddr, ip: Ipv4Addr|
                #![trigger r@.contains((m, ip))]
                r@.contains((m, ip)) <==> lease_ip(self@, m, now) == Some(ip) by {
                if listed(all@, i as int, m, ip, now) {
                    let j = choose|j: int|
                        0 <= j < i && (#[trigger] all@[j]).0 == m && all@[j].1.ip == ip
                            && all@[j].1.expiry > now;
                    lemma_entry(all@, j);
                }
                if lease_ip(self@, m, now) == Some(ip) {
                    assert(has_key(all@, m));
                    let j = choose|j: int| 0 <= j < all@.len() && (#[trigger] all@[j]).0 == m;
                    lemma_entry(all@, j);
                    assert(listed(all@, i as int, m, ip, now));
                }
            }
        }
        r
    }
}

/// Whether one of the first `n` entries is a lease of `ip` to `m` that is
/// valid at `now`.
spec fn listed(all: Seq<(MacAddr, Lease)>, n: int, m: MacAddr, ip: Ipv4Addr, now: u64) -> bool {
    exists|j: int|
        0 <= j < n && (#[trigger] all[j]).0 == m && all[j].1.ip == ip && all[j].1.expiry > now
}

// ---------------------------------------------------------------------------
// Laws
// ---------------------------------------------------------------------------

/// Whether `ip` may be leased to `mac`: it is reserved for it, or it is an
/// address of the subnet that is neither the gateway's nor reserved.
pub open spec fn leasable(cfg: DhcpConfigView, mac: MacAddr, ip: Ipv4Addr) -> bool {
    ||| cfg.reservations.dom().contains(mac) && cfg.reservations[mac] == ip
    ||| cfg.subnet.holds(ip) && ip != cfg.gateway && !reserved(cfg.reservations, ip)
}

/// The soundness of a lease table: every leased address may be leased to its
/// holder, and no two clients hold the same address unless both have it
/// reserved.
pub open spec fn leases_sound(st: DhcpView) -> bool {
    &&& forall|m: MacAddr| #[trigger]
        st.leases.dom().contains(m) ==> leasable(st.config, m, st.leases[m].ip)
    &&& forall|m: MacAddr, n: MacAddr|
        #![trigger st.leases.dom().contains(m), st.leases.dom().contains(n)]
        st.leases.dom().contains(m) && st.leases.dom().contains(n) && m != n && st.leases[m].ip
            == st.leases[n].ip ==> st.config.reservations.dom().contains(m)
            && st.config.reservations[m] == st.leases[m].ip
}

proof fn lemma_first_free_exists(st: DhcpView, now: u64, ip: Ipv4Addr)
    requires
        is_free(st, ip, now),
    ensures
        exists|b: Ipv4Addr| is_first_free(st, b, now),
    decreases ip.bits,
{
    if !is_first_free(st, ip, now) {
        let b = choose|b: Ipv4Addr| #[trigger] is_free(st, b, now) && b.bits < ip.bits;
        lemma_first_free_exists(st, now, b);
    }
}

/// A fresh allocation gives the lowest free address of the pool, and fails
/// only when there is none.
pub proof fn allocation_is_first_free(st: DhcpView, now: u64)
    ensures
        first_free(st, now) matches Some(ip) ==> is_first_free(st, ip, now),
        first_free(st, now) is None ==> forall|ip: Ipv4Addr| !is_free(st, ip, now),
{
    if exists|ip: Ipv4Addr| is_free(st, ip, now) {
        let ip = choose|ip: Ipv4Addr| is_free(st, ip, now);
        lemma_first_free_exists(st, now, ip);
    }
}

/// Whatever a client sends, the lease table stays sound: addresses stay in
/// the subnet or reserved, and no two clients come to share one that is not
/// reserved for both.
pub proof fn step_keeps_leases_sound(st0: DhcpView, req: BootpRequest, now: u64)
    requires
        leases_sound(st0),
    ensures
        leases_sound(dhcp_step(st0, req, now).0),
{
    let st = DhcpView { leases: live_leases(st0.leases, now), ..st0 };
    assert(leases_sound(st)) by {
        assert forall|m: MacAddr| #[trigger] st.leases.dom().contains(m) implies leasable(
            st.config,
            m,
            st.leases[m].ip,
        ) by {
            assert(st0.leases.dom().contains(m));
        }
        assert forall|m: MacAddr, n: MacAddr|
            #![trigger st.leases.dom().contains(m), st.leases.dom().contains(n)]
            st.leases.dom().contains(m) && st.leases.dom().contains(n) && m != n && st.leases[m].ip
                == st.leases[n].ip implies st.config.reservations.dom().contains(m)
            && st.config.reservations[m] == st.leases[m].ip by {
            assert(st0.leases.dom().contains(m) && st0.leases.dom().contains(n));
        }
    }
    assert(forall|m: MacAddr| #[trigger]
        st.leases.dom().contains(m) ==> st.leases[m].expiry > now);
    allocation_is_first_free(st, now);
    let mac = req.chaddr;
    lemma_removal_sound(st, mac);
    if req.msg_type == DHCP_DISCOVER {
        if let Some(ip) = offered(st, mac, now) {
            lemma_grant_sound(st, mac, ip, now);
        }
    } else if req.msg_type == DHCP_REQUEST {
        if let Some(ip) = granted(st, req, now) {
            lemma_grant_sound(st, mac, ip, now);
        }
    } else if req.msg_type == DHCP_DECLINE {
        let after = dhcp_step(st0, req, now).0;
        assert(after.leases == st.leases.remove(mac));
        assert(leases_sound(DhcpView { leases: st.leases.remove(mac), ..st }));
    }
}

proof fn lemma_removal_sound(st: DhcpView, mac: MacAddr)
    requires
        leases_sound(st),
    ensures
        leases_sound(DhcpView { leases: st.leases.remove(mac), ..st }),
{
    let after = DhcpView { leases: st.leases.remove(mac), ..st };
    assert forall|m: MacAddr| #[trigger] after.leases.dom().contains(m) implies leasable(
        after.config,
        m,
        after.leases[m].ip,
    ) by {
        assert(st.leases.dom().contains(m));
    }
    assert forall|m: MacAddr, n: MacAddr|
        #![trigger after.leases.dom().contains(m), after.leases.dom().contains(n)]
        after.leases.dom().contains(m) && after.leases.dom().contains(n) && m != n
            && after.leases[m].ip == after.leases[n].ip implies after.config.reservations.dom().contains(
        m,
    ) && after.config.reservations[m] == after.leases[m].ip by {
        assert(st.leases.dom().contains(m) && st.leases.dom().contains(n));
    }
}

/// Granting an address that the client is entitled to, or that is free, keeps
/// the table sound.
proof fn lemma_grant_sound(st: DhcpView, mac: MacAddr, ip: Ipv4Addr, now: u64)
    requires
        leases_sound(st),
        forall|m: MacAddr| #[trigger]
            st.leases.dom().contains(m) ==> st.leases[m].expiry > now,
        entitled(st, mac, now) == Some(ip) || (!taken(st, ip, now) && st.config.subnet.holds(ip)),
    ensures
        leases_sound(with_lease(st, mac, ip, now)),
{
    let after = with_lease(st, mac, ip, now);
    if entitled(st, mac, now) == Some(ip) && st.leases.dom().contains(mac)
        && !st.config.reservations.dom().contains(mac) {
        assert(st.leases[mac].ip == ip);
    }
    assert(leasable(st.config, mac, ip));
    assert forall|m: MacAddr| #[trigger] after.leases.dom().contains(m) implies leasable(
        after.config,
        m,
        after.leases[m].ip,
    ) by {
        if m != mac {
            assert(st.leases.dom().contains(m));
        }
    }
    assert forall|m: MacAddr, n: MacAddr|
        #![trigger after.leases.dom().contains(m), after.leases.dom().contains(n)]
        after.leases.dom().contains(m) && after.leases.dom().contains(n) && m != n
            && after.leases[m].ip == after.leases[n].ip implies after.config.reservations.dom().contains(
        m,
    ) && after.config.reservations[m] == after.leases[m].ip by {
        let other = if m == mac {
            n
        } else {
            m
        };
        if m != mac && n != mac {
            assert(st.leases.dom().contains(m) && st.leases.dom().contains(n));
        } else {
            assert(st.leases.dom().contains(other));
            assert(leasable(st.config, other, ip));
            assert(leased(st.leases, ip, now)) by {
                assert(st.leases.dom().contains(other) && st.leases[other].ip == ip);
            }
            assert(entitled(st, mac, now) == Some(ip));
            if st.config.reservations.dom().contains(mac) {
                assert(reserved(st.config.reservations, ip));
            } else {
                assert(st.leases.dom().contains(mac) && st.leases[mac].ip == ip);
            }
        }
    }
}

/// A client that asks for what it was offered, before the lease runs out and
/// without having chosen another server, is acknowledged.
pub proof fn offer_is_honoured(
    st: DhcpView,
    discover: BootpRequest,
    ip: Ipv4Addr,
    then: u64,
    request: BootpRequest,
    now: u64,
)
    requires
        discover.msg_type == DHCP_DISCOVER,
        dhcp_step(st, discover, then).1 == Some((DHCP_OFFER, Some(ip))),
        request.msg_type == DHCP_REQUEST,
        request.chaddr == discover.chaddr,
        requested(request) == Some(ip),
        request.server_id is None || request.server_id == Some(st.config.gateway),
        then + st.config.lease_secs * 1000 <= u64::MAX,
        now < then + st.config.lease_secs * 1000,
    ensures
        dhcp_step(dhcp_step(st, discover, then).0, request, now).1 == Some(
            (DHCP_ACK, Some(ip)),
        ),
{
    let st1 = dhcp_step(st, discover, then).0;
    let live = DhcpView { leases: live_leases(st1.leases, now), ..st1 };
    assert(st1.leases.dom().contains(request.chaddr));
    assert(live.leases.dom().contains(request.chaddr));
}

/// A client with a reservation is offered it, and a request of it is
/// acknowledged with it or, where it asks for another address, refused.
pub proof fn reservation_wins(st: DhcpView, req: BootpRequest, now: u64)
    requires
        st.config.reservations.dom().contains(req.chaddr),
    ensures
        ({
            let ip = st.config.reservations[req.chaddr];
            &&& req.msg_type == DHCP_DISCOVER ==> dhcp_step(st, req, now).1 == Some(
                (DHCP_OFFER, Some(ip)),
            )
            &&& req.msg_type == DHCP_REQUEST && (req.server_id is None || req.server_id == Some(
                st.config.gateway,
            )) ==> dhcp_step(st, req, now).1 == (if requested(req) is None || requested(req)
                == Some(ip) {
                Some((DHCP_ACK, Some(ip)))
            } else {
                Some((DHCP_NAK, None::<Ipv4Addr>))
            })
        }),
{
}

/// A quarantined address is neither allocated nor granted on request to a
/// client that is not entitled to it.
pub proof fn declined_is_quarantined(st: DhcpView, mac: MacAddr, ip: Ipv4Addr, now: u64)
    requires
        st.declined.contains(ip),
        entitled(st, mac, now) != Some(ip),
    ensures
        offered(st, mac, now) != Some(ip),
        !requestable(st, ip, now),
{
    allocation_is_first_free(st, now);
}

/// A released address of the pool can be allocated again at once.
pub proof fn release_frees_the_address(st: DhcpView, req: BootpRequest, now: u64)
    requires
        leases_sound(st),
        req.msg_type == DHCP_RELEASE,
        lease_ip(st, req.chaddr, now) matches Some(ip) && is_host(st.config.subnet, ip) && ip
            != st.config.gateway && !reserved(st.config.reservations, ip) && !st.declined.contains(
            ip,
        ),
    ensures
        ({
            let after = dhcp_step(st, req, now).0;
            &&& is_free(after, lease_ip(st, req.chaddr, now)->0, now)
            &&& lease_ip(after, req.chaddr, now) is None
        }),
{
    let ip = lease_ip(st, req.chaddr, now)->0;
    let after = dhcp_step(st, req, now).0;
    if leased(after.leases, ip, now) {
        let k = choose|k: MacAddr| #[trigger]
            after.leases.dom().contains(k) && after.leases[k].ip == ip && after.leases[k].expiry
                > now;
        assert(st.leases.dom().contains(k));
        assert(st.config.reservations.dom().contains(k));
        assert(reserved(st.config.reservations, ip));
    }
}

/// An address whose lease has run out is free for others.
pub proof fn expired_lease_frees_the_address(st: DhcpView, mac: MacAddr, now: u64)
    requires
        leases_sound(st),
        st.leases.dom().contains(mac),
        st.leases[mac].expiry <= now,
        is_host(st.config.subnet, st.leases[mac].ip),
        st.leases[mac].ip != st.config.gateway,
        !reserved(st.config.reservations, st.leases[mac].ip),
        !st.declined.contains(st.leases[mac].ip),
    ensures
        is_free(st, st.leases[mac].ip, now),
{
    let ip = st.leases[mac].ip;
    if leased(st.leases, ip, now) {
        let k = choose|k: MacAddr| #[trigger]
            st.leases.dom().contains(k) && st.leases[k].ip == ip && st.leases[k].expiry > now;
        assert(st.config.reservations.dom().contains(k));
        assert(reserved(st.config.reservations, ip));
    }
}

// -- what a client reads ----------------------------------------------------------------------

/// The value of the first option of a code in a message that is read, from
/// position `i` on, as a client does: code, length, value, with padding
/// skipped, up to the end mark.
pub open spec fn told(m: Seq<u8>, i: int, code: u8) -> Option<Seq<u8>>
    decreases m.len() - i,
{
    if i < 0 || i >= m.len() || m[i] == 255 {
        None
    } else if m[i] == 0 {
        told(m, i + 1, code)
    } else if i + 1 >= m.len() || i + 2 + m[i + 1] > m.len() {
        None
    } else if m[i] == code {
        Some(m.subrange(i + 2, i + 2 + m[i + 1]))
    } else {
        told(m, i + 2 + m[i + 1], code)
    }
}

/// The number that four bytes in network order hold.
pub open spec fn number(v: Seq<u8>) -> int {
    v[0] * 0x100_0000 + v[1] * 0x1_0000 + v[2] * 0x100 + v[3]
}

/// Whether an option was told that holds this number in four bytes.
pub open spec fn says(o: Option<Seq<u8>>, n: int) -> bool {
    o matches Some(v) && v.len() == 4 && number(v) == n
}

proof fn lemma_told_next(m: Seq<u8>, i: int, c: u8, v: Seq<u8>, rest: Seq<u8>)
    requires
        0 <= i <= m.len(),
        m.skip(i) == opt_bytes(c, v) + rest,
        c != 0,
        c != 255,
        v.len() <= 255,
    ensures
        i + 2 + v.len() <= m.len(),
        m.skip(i + 2 + v.len()) == rest,
        forall|code: u8| #[trigger]
            told(m, i, code) == (if code == c {
                Some(v)
            } else {
                told(m, i + 2 + v.len(), code)
            }),
{
    let t = m.skip(i);
    assert(t.len() == m.len() - i);
    assert(t.len() == 2 + v.len() + rest.len());
    assert(m[i] == t[0] && t[0] == c);
    assert(m[i + 1] == t[1] && t[1] == v.len());
    assert(m.skip(i + 2 + v.len()) =~= rest) by {
        assert forall|k: int| 0 <= k < rest.len() implies #[trigger] m.skip(i + 2 + v.len())[k]
            == rest[k] by {
            assert(t[2 + v.len() + k] == rest[k]);
        }
    }
    assert(m.subrange(i + 2, i + 2 + v.len()) =~= v) by {
        assert forall|k: int| 0 <= k < v.len() implies #[trigger] m.subrange(
            i + 2,
            i + 2 + v.len(),
        )[k] == v[k] by {
            assert(t[2 + k] == v[k]);
        }
    }
}

/// An option where there is a value, else nothing.
spec fn maybe_opt(c: u8, v: Option<Seq<u8>>) -> Seq<u8> {
    match v {
        Some(v) => opt_bytes(c, v),
        None => Seq::empty(),
    }
}

proof fn lemma_told_maybe(m: Seq<u8>, i: int, c: u8, v: Option<Seq<u8>>, rest: Seq<u8>) -> (j: int)
    requires
        0 <= i <= m.len(),
        m.skip(i) == maybe_opt(c, v) + rest,
        c != 0,
        c != 255,
        v matches Some(v) ==> v.len() <= 255,
    ensures
        0 <= j <= m.len(),
        m.skip(j) == rest,
        forall|code: u8| #[trigger]
            told(m, i, code) == (if v is Some && code == c {
                v
            } else {
                told(m, j, code)
            }),
{
    match v {
        Some(v) => {
            lemma_told_next(m, i, c, v, rest);
            i + 2 + v.len()
        },
        None => {
            assert(Seq::<u8>::empty() + rest =~= rest);
            i
        },
    }
}

proof fn lemma_told_end(m: Seq<u8>, i: int)
    requires
        0 <= i <= m.len(),
        m.skip(i) == seq![255u8],
    ensures
        forall|code: u8| #[trigger] told(m, i, code) is None,
{
    assert(m.skip(i).len() == 1);
    assert(m[i] == m.skip(i)[0]);
}

proof fn lemma_number(n: u32)
    ensures
        u32_bytes(n).len() == 4,
        number(u32_bytes(n)) == n,
{
}

proof fn lemma_header_len(cfg: DhcpConfigView, req: BootpRequest, kind: u8, yiaddr: Ipv4Addr)
    ensures
        reply_header(cfg, req, kind, yiaddr).len() == 240,
{
}

proof fn lemma_behind_header(h: Seq<u8>, o: Seq<u8>)
    requires
        h.len() == 240,
    ensures
        (h + o).push(255).skip(240) == o + seq![255u8],
{
    assert((h + o).push(255).skip(240) =~= o + seq![255u8]);
}

proof fn lemma_regroup(
    a: Seq<u8>,
    b: Seq<u8>,
    c: Seq<u8>,
    d: Seq<u8>,
    e: Seq<u8>,
    f: Seq<u8>,
    g: Seq<u8>,
    h: Seq<u8>,
    i: Seq<u8>,
    z: Seq<u8>,
)
    ensures
        a + b + c + d + e + f + g + h + i + z == a + (b + (c + (d + (e + (f + (g + (h + (i
            + z)))))))),
{
    assert(a + b + c + d + e + f + g + h + i + z =~= a + (b + (c + (d + (e + (f + (g + (h + (i
        + z)))))))));
}

proof fn lemma_mask(prefix: u8)
    requires
        prefix <= 32,
    ensures
        0 < block_size(prefix) <= 0x1_0000_0000,
{
    let host_bits = (32 - prefix) as nat;
    vstd::arithmetic::power2::lemma2_to64();
    vstd::arithmetic::power2::lemma_pow2_pos(host_bits);
    if host_bits < 32 {
        vstd::arithmetic::power2::lemma_pow2_strictly_increases(host_bits, 32);
    }
}

/// A message whose options are these nine, the last four where they are
/// there, tells exactly them.
#[verifier::spinoff_prover]
proof fn lemma_nine_options(
    m: Seq<u8>,
    kind: Seq<u8>,
    server: Seq<u8>,
    lease: Seq<u8>,
    mask: Seq<u8>,
    router: Seq<u8>,
    dns: Option<Seq<u8>>,
    domain: Option<Seq<u8>>,
    mtu: Option<Seq<u8>>,
    routes: Option<Seq<u8>>,
)
    requires
        m.len() >= 240,
        m.skip(240) == opt_bytes(53, kind) + (opt_bytes(54, server) + (opt_bytes(51, lease) + (
        opt_bytes(1, mask) + (opt_bytes(3, router) + (maybe_opt(6, dns) + (maybe_opt(15, domain) + (
        maybe_opt(26, mtu) + (maybe_opt(121, routes) + seq![255u8])))))))),
        kind.len() == 1,
        server.len() == 4,
        lease.len() == 4,
        mask.len() == 4,
        router.len() == 4,
        dns matches Some(v) ==> v.len() <= 255,
        domain matches Some(v) ==> v.len() <= 255,
        mtu matches Some(v) ==> v.len() <= 255,
        routes matches Some(v) ==> v.len() <= 255,
    ensures
        told(m, 240, 53) == Some(kind),
        told(m, 240, 54) == Some(server),
        told(m, 240, 51) == Some(lease),
        told(m, 240, 1) == Some(mask),
        told(m, 240, 3) == Some(router),
        told(m, 240, 6) == dns,
        told(m, 240, 15) == domain,
        told(m, 240, 26) == mtu,
        told(m, 240, 121) == routes,
{
    let t9 = seq![255u8];
    let t8 = maybe_opt(121, routes) + t9;
    let t7 = maybe_opt(26, mtu) + t8;
    let t6 = maybe_opt(15, domain) + t7;
    let t5 = maybe_opt(6, dns) + t6;
    let t4 = opt_bytes(3, router) + t5;
    let t3 = opt_bytes(1, mask) + t4;
    let t2 = opt_bytes(51, lease) + t3;
    let t1 = opt_bytes(54, server) + t2;
    lemma_told_next(m, 240, 53, kind, t1);
    lemma_told_next(m, 243, 54, server, t2);
    lemma_told_next(m, 249, 51, lease, t3);
    lemma_told_next(m, 255, 1, mask, t4);
    lemma_told_next(m, 261, 3, router, t5);
    let i6 = lemma_told_maybe(m, 267, 6, dns, t6);
    let i7 = lemma_told_maybe(m, i6, 15, domain, t7);
    let i8 = lemma_told_maybe(m, i7, 26, mtu, t8);
    let i9 = lemma_told_maybe(m, i8, 121, routes, t9);
    lemma_told_end(m, i9);
}

/// Every OFFER and every ACK tells the client all that it needs: what kind of
/// answer it is, which server it comes from, how long the lease runs, the mask
/// of the subnet and the gateway as its router; and the DNS server, the
/// domain, the MTU and the routes exactly where they are configured.
#[verifier::spinoff_prover]
#[verifier::rlimit(80)]
pub proof fn offers_and_acks_tell_the_lease(
    cfg: DhcpConfigView,
    req: BootpRequest,
    kind: u8,
    yiaddr: Ipv4Addr,
)
    requires
        kind == 2 || kind == 5,
        cfg.subnet.prefix() <= 32,
        cfg.domain matches Some(d) ==> d.len() <= 255,
        routes_bytes(cfg.routes).len() <= 255,
    ensures
        ({
            let m = reply_message(cfg, req, kind, yiaddr);
            &&& told(m, 240, 53) == Some(seq![kind])
            &&& says(told(m, 240, 54), cfg.gateway.bits as int)
            &&& says(told(m, 240, 51), cfg.lease_secs as int)
            &&& says(told(m, 240, 1), 0xFFFF_FFFF - (cfg.subnet.last() - cfg.subnet.first()))
            &&& says(told(m, 240, 3), cfg.gateway.bits as int)
            &&& cfg.dns_server matches Some(dns) ==> says(told(m, 240, 6), dns.bits as int)
            &&& cfg.dns_server is None ==> told(m, 240, 6) is None
            &&& told(m, 240, 15) == cfg.domain
            &&& cfg.mtu != 1500 ==> (told(m, 240, 26) matches Some(v) && v.len() == 2 && v[0] * 256
                + v[1] == cfg.mtu)
            &&& cfg.mtu == 1500 ==> told(m, 240, 26) is None
            &&& cfg.routes.len() > 0 ==> told(m, 240, 121) == Some(routes_bytes(cfg.routes))
            &&& cfg.routes.len() == 0 ==> told(m, 240, 121) is None
        }),
{
    let m = reply_message(cfg, req, kind, yiaddr);
    let mask = (0x1_0000_0000 - block_size(cfg.subnet.prefix())) as u32;
    let gateway = ip_bytes(cfg.gateway);
    let dns = match cfg.dns_server {
        Some(dns) => Some(ip_bytes(dns)),
        None => None,
    };
    let mtu = if cfg.mtu != 1500 {
        Some(u16_bytes(cfg.mtu))
    } else {
        None
    };
    let routes = if cfg.routes.len() > 0 {
        Some(routes_bytes(cfg.routes))
    } else {
        None
    };
    lemma_header_len(cfg, req, kind, yiaddr);
    lemma_behind_header(reply_header(cfg, req, kind, yiaddr), reply_options(cfg, kind));
    lemma_regroup(
        opt_bytes(53, seq![kind]),
        opt_bytes(54, gateway),
        opt_bytes(51, u32_bytes(cfg.lease_secs)),
        opt_bytes(1, u32_bytes(mask)),
        opt_bytes(3, gateway),
        maybe_opt(6, dns),
        maybe_opt(15, cfg.domain),
        maybe_opt(26, mtu),
        maybe_opt(121, routes),
        seq![255u8],
    );
    lemma_number(cfg.gateway.bits);
    lemma_number(cfg.lease_secs);
    lemma_number(mask);
    if let Some(ip) = cfg.dns_server {
        lemma_number(ip.bits);
    }
    lemma_mask(cfg.subnet.prefix());
    lemma_nine_options(
        m,
        seq![kind],
        gateway,
        u32_bytes(cfg.lease_secs),
        u32_bytes(mask),
        gateway,
        dns,
        cfg.domain,
        mtu,
        routes,
    );
}

/// A refusal tells what it is and which server it comes from, and gives
/// nothing that a client could configure itself with.
pub proof fn refusals_tell_nothing_else(
    cfg: DhcpConfigView,
    req: BootpRequest,
    yiaddr: Ipv4Addr,
    code: u8,
)
    ensures
        ({
            let m = reply_message(cfg, req, 6, yiaddr);
            &&& told(m, 240, 53) == Some(seq![6u8])
            &&& says(told(m, 240, 54), cfg.gateway.bits as int)
            &&& code != 53 && code != 54 ==> told(m, 240, code) is None
        }),
{
    let m = reply_message(cfg, req, 6, yiaddr);
    let t2 = seq![255u8];
    let t1 = opt_bytes(OPT_SERVER_ID, ip_bytes(cfg.gateway)) + t2;
    let t0 = opt_bytes(OPT_MSG_TYPE, seq![6u8]) + t1;
    assert(reply_header(cfg, req, 6, yiaddr).len() == 240);
    assert(m.skip(240) =~= t0);
    lemma_told_next(m, 240, OPT_MSG_TYPE, seq![6u8], t1);
    lemma_told_next(m, 243, OPT_SERVER_ID, ip_bytes(cfg.gateway), t2);
    lemma_told_end(m, 249);
    lemma_number(cfg.gateway.bits);
}

/// An OFFER and an ACK of the same address under the same configuration differ
/// only in the message type and in the address that the client had named as
/// its own.
#[verifier::spinoff_prover]
pub proof fn offer_and_ack_agree(cfg: DhcpConfigView, req: BootpRequest, yiaddr: Ipv4Addr)
    ensures
        ({
            let offer = reply_message(cfg, req, 2, yiaddr);
            let ack = reply_message(cfg, req, 5, yiaddr);
            &&& offer.len() == ack.len()
            &&& offer.len() > 242
            &&& offer[242] == 2
            &&& ack[242] == 5
            &&& forall|i: int|
                0 <= i < ack.len() && i != 242 && !(12 <= i < 16) ==> #[trigger] offer[i] == ack[i]
        }),
{
    let offer = reply_message(cfg, req, 2, yiaddr);
    let ack = reply_message(cfg, req, 5, yiaddr);
    let a = reply_header(cfg, req, 2, yiaddr);
    let b = reply_header(cfg, req, 5, yiaddr);
    assert(a.len() == 240 && b.len() == 240);
    let x = reply_options(cfg, 2);
    let y = reply_options(cfg, 5);
    assert(x.len() == y.len());
    assert(x[2] == 2 && y[2] == 5);
    assert forall|i: int| 0 <= i < y.len() && i != 2 implies #[trigger] x[i] == y[i] by {}
    assert(offer[242] == x[2] && ack[242] == y[2]);
    assert forall|i: int| 0 <= i < 240 && !(12 <= i < 16) implies #[trigger] a[i] == b[i] by {}
    assert forall|i: int|
        0 <= i < ack.len() && i != 242 && !(12 <= i < 16) implies #[trigger] offer[i] == ack[i] by {
        if i < 240 {
            assert(offer[i] == a[i] && ack[i] == b[i]);
        } else if i < 240 + x.len() {
            assert(offer[i] == x[i - 240] && ack[i] == y[i - 240]);
        }
    }
}

/// The fixed part of a reply: it answers the client's transaction and hardware
/// address, repeats its flags and relay, gives the address, and names the
/// gateway as the server; an ACK repeats the address that the client had.
#[verifier::spinoff_prover]
#[verifier::rlimit(60)]
pub proof fn reply_answers_the_client(
    cfg: DhcpConfigView,
    req: BootpRequest,
    kind: u8,
    yiaddr: Ipv4Addr,
)
    ensures
        ({
            let m = reply_message(cfg, req, kind, yiaddr);
            &&& m.len() > 240
            &&& m[0] == 2 && m[1] == 1 && m[2] == 6 && m[3] == 0
            &&& number(m.subrange(4, 8)) == req.xid
            &&& m[10] * 256 + m[11] == req.flags
            &&& number(m.subrange(12, 16)) == (if kind == 5 {
                req.ciaddr.bits
            } else {
                0
            })
            &&& number(m.subrange(16, 20)) == yiaddr.bits
            &&& number(m.subrange(20, 24)) == cfg.gateway.bits
            &&& number(m.subrange(24, 28)) == req.giaddr.bits
            &&& m.subrange(28, 34) == req.chaddr.0@
            &&& m[236] == 99 && m[237] == 130 && m[238] == 83 && m[239] == 99
            &&& m.last() == 255
        }),
{
    let m = reply_message(cfg, req, kind, yiaddr);
    let h = reply_header(cfg, req, kind, yiaddr);
    assert(h.len() == 240);
    assert forall|i: int| 0 <= i < 240 implies m[i] == #[trigger] h[i] by {}
    let ciaddr = if kind == DHCP_ACK {
        req.ciaddr
    } else {
        Ipv4Addr { bits: 0 }
    };
    assert(m.subrange(4, 8) =~= u32_bytes(req.xid));
    assert(m.subrange(12, 16) =~= u32_bytes(ciaddr.bits));
    assert(m.subrange(16, 20) =~= u32_bytes(yiaddr.bits));
    assert(m.subrange(20, 24) =~= u32_bytes(cfg.gateway.bits));
    assert(m.subrange(24, 28) =~= u32_bytes(req.giaddr.bits));
    assert(m.subrange(28, 34) =~= req.chaddr.0@);
    lemma_number(req.xid);
    lemma_number(ciaddr.bits);
    lemma_number(yiaddr.bits);
    lemma_number(cfg.gateway.bits);
    lemma_number(req.giaddr.bits);
    assert(h[236] == 99 && h[237] == 130 && h[238] == 83 && h[239] == 99);
}

// -- what a client gets -----------------------------------------------------------------------

/// Whether an address is free for a new client: a host address of the subnet
/// that is not the gateway's, that nobody has reserved, that no client has
/// declined, and that is not leased at `now`.
pub open spec fn up_for_grabs(st: DhcpView, ip: Ipv4Addr, now: u64) -> bool {
    &&& if st.config.subnet.prefix() < 31 {
        st.config.subnet.first() + 1 <= ip.bits <= st.config.subnet.last() - 1
    } else {
        st.config.subnet.first() <= ip.bits <= st.config.subnet.last()
    }
    &&& ip.bits != st.config.gateway.bits
    &&& forall|k: MacAddr| #[trigger]
        st.config.reservations.dom().contains(k) ==> st.config.reservations[k] != ip
    &&& !st.declined.contains(ip)
    &&& forall|k: MacAddr| #[trigger]
        st.leases.dom().contains(k) && st.leases[k].expiry > now ==> st.leases[k].ip != ip
}

/// A client that discovers servers is offered its reservation; else the
/// address of its lease while that lasts; else the lowest free address; and
/// nothing only when there is none. An offer leases the address for the lease
/// time from now on.
#[verifier::spinoff_prover]
pub proof fn discover_is_offered_the_right_address(
    st: DhcpView,
    req: BootpRequest,
    now: u64,
    other: Ipv4Addr,
)
    requires
        req.msg_type == 1,
        now + st.config.lease_secs * 1000 <= u64::MAX,
    ensures
        ({
            let (after, reply) = dhcp_step(st, req, now);
            let mine = req.chaddr;
            let own = st.leases.dom().contains(mine) && st.leases[mine].expiry > now;
            let kept = st.config.reservations.dom().contains(mine);
            &&& kept ==> reply == Some((2u8, Some(st.config.reservations[mine])))
            &&& !kept && own ==> reply == Some((2u8, Some(st.leases[mine].ip)))
            &&& !kept && !own && up_for_grabs(st, other, now) ==> (reply matches Some(
                (kind, Some(ip)),
            ) && kind == 2 && up_for_grabs(st, ip, now) && ip.bits <= other.bits)
            &&& reply matches Some((kind, ip)) ==> kind == 2 && ip is Some && (kept || own
                || up_for_grabs(st, ip->0, now)) && after.leases.dom().contains(mine)
                && after.leases[mine].ip == ip->0 && after.leases[mine].expiry == now
                + st.config.lease_secs * 1000
            &&& reply is None ==> !kept && !own && after.leases.dom() == st.leases.dom().filter(
                |k: MacAddr| st.leases[k].expiry > now,
            )
        }),
{
    let live = DhcpView { leases: live_leases(st.leases, now), ..st };
    allocation_is_first_free(live, now);
    let after = dhcp_step(st, req, now).0;
    assert forall|ip: Ipv4Addr| is_free(live, ip, now) == #[trigger] up_for_grabs(st, ip, now) by {
        assert forall|k: MacAddr| #[trigger] live.leases.dom().contains(k) <==> st.leases.dom().contains(
            k,
        ) && st.leases[k].expiry > now by {}
        if is_free(live, ip, now) {
            assert forall|k: MacAddr| #[trigger]
                st.leases.dom().contains(k) && st.leases[k].expiry > now implies st.leases[k].ip
                != ip by {
                assert(live.leases.dom().contains(k));
            }
        }
        if up_for_grabs(st, ip, now) && leased(live.leases, ip, now) {
            let k = choose|k: MacAddr| #[trigger]
                live.leases.dom().contains(k) && live.leases[k].ip == ip && live.leases[k].expiry
                    > now;
            assert(st.leases.dom().contains(k));
        }
    }
    if dhcp_step(st, req, now).1 is None {
        assert(after.leases.dom() =~= st.leases.dom().filter(
            |k: MacAddr| st.leases[k].expiry > now,
        ));
    }
}

/// A request that names this server, or none, is acknowledged exactly when the
/// address that it asks for is the one the client has, by reservation or lease,
/// or when the client has none and the address is free within the subnet; one
/// that asks for no address gets the one that the client has. Otherwise it is
/// refused. Nobody else's lease changes.
#[verifier::spinoff_prover]
pub proof fn request_is_granted_or_refused(st: DhcpView, req: BootpRequest, now: u64, m: MacAddr)
    requires
        req.msg_type == 3,
        req.server_id is None || req.server_id == Some(st.config.gateway),
        now + st.config.lease_secs * 1000 <= u64::MAX,
        st.config.subnet.prefix() < 31,
    ensures
        ({
            let (after, reply) = dhcp_step(st, req, now);
            let mine = req.chaddr;
            let own = if st.config.reservations.dom().contains(mine) {
                Some(st.config.reservations[mine])
            } else if st.leases.dom().contains(mine) && st.leases[mine].expiry > now {
                Some(st.leases[mine].ip)
            } else {
                None
            };
            let wants = if req.requested_ip is Some {
                req.requested_ip
            } else if req.ciaddr.bits != 0 {
                Some(req.ciaddr)
            } else {
                None
            };
            let gets = if wants is None {
                own
            } else if own is Some {
                if own == wants {
                    own
                } else {
                    None
                }
            } else if up_for_grabs(st, wants->0, now) {
                wants
            } else {
                None
            };
            &&& gets matches Some(ip) ==> reply == Some((5u8, Some(ip)))
                && after.leases.dom().contains(mine) && after.leases[mine].ip == ip
                && after.leases[mine].expiry == now + st.config.lease_secs * 1000
            &&& gets is None ==> reply == Some((6u8, None::<Ipv4Addr>)) && (
            after.leases.dom().contains(mine) <==> st.leases.dom().contains(mine)
                && st.leases[mine].expiry > now)
            &&& m != mine ==> (after.leases.dom().contains(m) <==> st.leases.dom().contains(m)
                && st.leases[m].expiry > now) && (after.leases.dom().contains(m) ==> after.leases[m]
                == st.leases[m])
            &&& after.declined == st.declined
            &&& after.config == st.config
        }),
{
    let live = DhcpView { leases: live_leases(st.leases, now), ..st };
    if let Some(ip) = requested(req) {
        assert(requestable(live, ip, now) == up_for_grabs(st, ip, now)) by {
            if requestable(live, ip, now) {
                assert forall|k: MacAddr| #[trigger]
                    st.leases.dom().contains(k) && st.leases[k].expiry > now implies st.leases[k].ip
                    != ip by {
                    assert(live.leases.dom().contains(k));
                }
            }
            if up_for_grabs(st, ip, now) && leased(live.leases, ip, now) {
                let k = choose|k: MacAddr| #[trigger]
                    live.leases.dom().contains(k) && live.leases[k].ip == ip
                        && live.leases[k].expiry > now;
                assert(st.leases.dom().contains(k));
            }
        }
    }
}

/// A client that chose another server, releases its address or declines it
/// loses its lease and hears nothing; only what was declined is set aside. Any
/// other message changes nothing that has not expired and is not answered.
pub proof fn other_messages_are_not_answered(
    st: DhcpView,
    req: BootpRequest,
    now: u64,
    m: MacAddr,
    ip: Ipv4Addr,
)
    requires
        req.msg_type != 1,
        req.msg_type == 3 ==> req.server_id is Some && req.server_id != Some(st.config.gateway),
    ensures
        ({
            let (after, reply) = dhcp_step(st, req, now);
            let leaves = req.msg_type == 3 || req.msg_type == 7 || req.msg_type == 4;
            let held = st.leases.dom().contains(req.chaddr) && st.leases[req.chaddr].expiry > now;
            &&& reply is None
            &&& after.config == st.config
            &&& after.leases.dom().contains(m) <==> st.leases.dom().contains(m)
                && st.leases[m].expiry > now && !(leaves && m == req.chaddr)
            &&& after.leases.dom().contains(m) ==> after.leases[m] == st.leases[m]
            &&& req.msg_type != 4 ==> after.declined == st.declined
            &&& req.msg_type == 4 ==> (after.declined.contains(ip) <==> st.declined.contains(ip)
                || (held && ip == st.leases[req.chaddr].ip) || (!held && req.requested_ip == Some(
                ip,
            )))
        }),
{
}

/// Where a reply goes: from the gateway's server port to the client port, as a
/// frame from the gateway's hardware address. It goes to the client alone, at
/// its new address, unless it is a refusal, the client asked for a broadcast,
/// or there is no address to send it to.
#[verifier::spinoff_prover]
#[verifier::rlimit(60)]
pub proof fn reply_goes_to_the_client(
    cfg: DhcpConfigView,
    req: BootpRequest,
    kind: u8,
    yiaddr: Ipv4Addr,
)
    requires
        reply_frame(cfg, req, kind, yiaddr) is Some,
    ensures
        ({
            let f = reply_frame(cfg, req, kind, yiaddr)->0;
            let all = kind == 6 || req.flags >= 0x8000 || yiaddr.bits == 0;
            let p = f.skip(14);
            let d = ipv4_payload(p);
            &&& f.subrange(0, 6) == (if all {
                seq![0xffu8, 0xff, 0xff, 0xff, 0xff, 0xff]
            } else {
                req.chaddr.0@
            })
            &&& f.subrange(6, 12) == cfg.server_mac.0@
            &&& f[12] == 8 && f[13] == 0
            &&& ipv4_wf(p)
            &&& crate::net::frame::ipv4_checksum_valid(p)
            &&& p[9] == 17
            &&& be32(p, 12) == cfg.gateway.bits
            &&& be32(p, 16) == (if all {
                0xFFFF_FFFF
            } else {
                yiaddr.bits
            })
            &&& be16(d, 0) == 67
            &&& be16(d, 2) == 68
            &&& udp_payload(d) == reply_message(cfg, req, kind, yiaddr)
        }),
{
    let msg = reply_message(cfg, req, kind, yiaddr);
    let all = reply_broadcast(req, kind, yiaddr);
    let dst_ip = if all {
        Ipv4Addr { bits: 0xFFFF_FFFF }
    } else {
        yiaddr
    };
    let dst_mac = if all {
        seq![0xffu8, 0xff, 0xff, 0xff, 0xff, 0xff]
    } else {
        req.chaddr.0@
    };
    let id = (req.xid % 0x1_0000) as u16;
    lemma_carried_reply(cfg.gateway, dst_ip, dst_mac, cfg.server_mac.0@, msg, id);
}

#[verifier::spinoff_prover]
proof fn lemma_carried_reply(
    src: Ipv4Addr,
    dst: Ipv4Addr,
    dst_mac: Seq<u8>,
    src_mac: Seq<u8>,
    msg: Seq<u8>,
    id: u16,
)
    requires
        msg.len() + 28 <= 0xFFFF,
        dst_mac.len() == 6,
        src_mac.len() == 6,
    ensures
        ({
            let u = udp_bytes(src, dst, DHCP_SERVER_PORT, DHCP_CLIENT_PORT, msg);
            let f = eth_bytes(
                dst_mac,
                src_mac,
                ETHERTYPE_IPV4,
                ipv4_bytes(src, dst, IPPROTO_UDP, 64, u, id),
            );
            let p = f.skip(14);
            let d = ipv4_payload(p);
            &&& f.subrange(0, 6) == dst_mac
            &&& f.subrange(6, 12) == src_mac
            &&& f[12] == 8 && f[13] == 0
            &&& ipv4_wf(p)
            &&& crate::net::frame::ipv4_checksum_valid(p)
            &&& p[9] == 17
            &&& be32(p, 12) == src.bits
            &&& be32(p, 16) == dst.bits
            &&& be16(d, 0) == 67
            &&& be16(d, 2) == 68
            &&& udp_payload(d) == msg
        }),
{
    let u = udp_bytes(src, dst, DHCP_SERVER_PORT, DHCP_CLIENT_PORT, msg);
    crate::net::frame::udp_round_trip(src, dst, DHCP_SERVER_PORT, DHCP_CLIENT_PORT, msg);
    assert(u.len() == 8 + msg.len());
    crate::net::frame::ipv4_round_trip(src, dst, IPPROTO_UDP, 64, u, id);
    lemma_framed(dst_mac, src_mac, ipv4_bytes(src, dst, IPPROTO_UDP, 64, u, id));
}

proof fn lemma_framed(dst_mac: Seq<u8>, src_mac: Seq<u8>, p: Seq<u8>)
    requires
        dst_mac.len() == 6,
        src_mac.len() == 6,
    ensures
        ({
            let f = eth_bytes(dst_mac, src_mac, ETHERTYPE_IPV4, p);
            &&& f.skip(14) == p
            &&& f.subrange(0, 6) == dst_mac
            &&& f.subrange(6, 12) == src_mac
            &&& f[12] == 8 && f[13] == 0
        }),
{
    let f = eth_bytes(dst_mac, src_mac, ETHERTYPE_IPV4, p);
    assert(f.skip(14) =~= p);
    assert(f.subrange(0, 6) =~= dst_mac);
    assert(f.subrange(6, 12) =~= src_mac);
}

/// A client's message is read as it was written: behind the fixed part, the
/// message type, the address that is asked for and the chosen server, each
/// where it is there.
#[verifier::spinoff_prover]
#[verifier::rlimit(60)]
pub proof fn request_is_read_as_written(
    head: Seq<u8>,
    kind: u8,
    wants: Option<u32>,
    server: Option<u32>,
)
    requires
        head.len() == 240,
        head[0] == 1 && head[1] == 1 && head[2] == 6,
        head[236] == 99 && head[237] == 130 && head[238] == 83 && head[239] == 99,
    ensures
        ({
            let m = head + (seq![53u8, 1u8, kind] + (request_option(50, wants) + (request_option(
                54,
                server,
            ) + seq![255u8])));
            &&& bootp_request(m) matches Some(r) && r.msg_type == kind && r.xid == number(
                head.subrange(4, 8),
            ) && r.flags == head[10] * 256 + head[11] && r.ciaddr.bits == number(
                head.subrange(12, 16),
            ) && r.giaddr.bits == number(head.subrange(24, 28)) && r.chaddr.0@ == head.subrange(
                28,
                34,
            ) && (wants matches Some(ip) ==> r.requested_ip == Some(Ipv4Addr { bits: ip })) && (
            wants is None ==> r.requested_ip is None) && (server matches Some(ip) ==> r.server_id
                == Some(Ipv4Addr { bits: ip })) && (server is None ==> r.server_id is None)
        }),
{
    let t2 = request_option(54, server) + seq![255u8];
    let t1 = request_option(50, wants) + t2;
    let t0 = seq![53u8, 1u8, kind] + t1;
    let m = head + t0;
    let none = BootpOptions { msg_type: None, requested_ip: None, server_id: None };
    assert(m.skip(240) =~= t0);
    assert(m[240] == t0[0] && m[241] == t0[1] && m[242] == t0[2]);
    let o1 = BootpOptions { msg_type: Some(kind), ..none };
    assert(options_from(m, 240, none) == options_from(m, 243, o1));
    assert(m.skip(243) =~= t1);
    let i2 = lemma_request_option(m, 243, 50, wants, t2, o1);
    let o2 = match wants {
        Some(ip) => BootpOptions { requested_ip: Some(Ipv4Addr { bits: ip }), ..o1 },
        None => o1,
    };
    let i3 = lemma_request_option(m, i2, 54, server, seq![255u8], o2);
    assert(m[i3] == m.skip(i3)[0]) by {
        assert(m.skip(i3).len() == 1);
    }
    assert forall|i: int| 0 <= i < 240 implies m[i] == #[trigger] head[i] by {}
    assert(head.subrange(28, 34) =~= mac_of(m, 28).0@);
}

/// A four-byte option of a request, where there is one.
pub open spec fn request_option(code: u8, ip: Option<u32>) -> Seq<u8> {
    match ip {
        Some(ip) => seq![code, 4u8] + u32_bytes(ip),
        None => Seq::empty(),
    }
}

proof fn lemma_request_option(
    m: Seq<u8>,
    i: int,
    code: u8,
    ip: Option<u32>,
    rest: Seq<u8>,
    o: BootpOptions,
) -> (j: int)
    requires
        0 <= i <= m.len(),
        m.skip(i) == request_option(code, ip) + rest,
        code == 50 || code == 54,
    ensures
        0 <= j <= m.len(),
        m.skip(j) == rest,
        options_from(m, i, o) == options_from(
            m,
            j,
            match ip {
                Some(ip) => if code == 50 {
                    BootpOptions { requested_ip: Some(Ipv4Addr { bits: ip }), ..o }
                } else {
                    BootpOptions { server_id: Some(Ipv4Addr { bits: ip }), ..o }
                },
                None => o,
            },
        ),
{
    match ip {
        Some(ip) => {
            let t = m.skip(i);
            assert(t.len() == m.len() - i);
            assert(m[i] == t[0] && m[i + 1] == t[1]);
            assert(m.skip(i + 6) =~= rest) by {
                assert forall|k: int| 0 <= k < rest.len() implies #[trigger] m.skip(i + 6)[k]
                    == rest[k] by {
                    assert(t[6 + k] == rest[k]);
                }
            }
            assert(m[i + 2] == t[2] && m[i + 3] == t[3] && m[i + 4] == t[4] && m[i + 5] == t[5]);
            lemma_number(ip);
            assert(be32(m, i + 2) == ip);
            i + 6
        },
        None => {
            assert(Seq::<u8>::empty() + rest =~= rest);
            i
        },
    }
}

/// The routes that a client reads off: for each the prefix length, the
/// destination with its missing octets zero, and the router.
pub open spec fn routes_told(v: Seq<u8>) -> Seq<(int, int, int)>
    decreases v.len(),
{
    if v.len() == 0 {
        Seq::empty()
    } else {
        let n = (v[0] + 7) / 8;
        if n > 4 || v.len() < n + 5 {
            Seq::empty()
        } else {
            seq![
                (
                    v[0] as int,
                    number(v.subrange(1, 1 + n) + zeros((4 - n) as nat)),
                    number(v.subrange(1 + n, 5 + n)),
                ),
            ] + routes_told(v.skip(5 + n))
        }
    }
}

/// A client reads off every configured route, in order: its prefix length, its
/// network address and its router.
pub proof fn routes_are_read_back(routes: Seq<(Ipv4Net, Ipv4Addr)>)
    requires
        forall|i: int| 0 <= i < routes.len() ==> (#[trigger] routes[i]).0.prefix() <= 32,
    ensures
        routes_told(routes_bytes(routes)).len() == routes.len(),
        forall|i: int|
            0 <= i < routes.len() ==> #[trigger] routes_told(routes_bytes(routes))[i] == (
                routes[i].0.prefix() as int,
                routes[i].0.first(),
                routes[i].1.bits as int,
            ),
    decreases routes.len(),
{
    if routes.len() > 0 {
        let rest = routes.skip(1);
        lemma_routes_front(routes);
        assert forall|i: int| 0 <= i < rest.len() implies (#[trigger] rest[i]).0.prefix() <= 32 by {
            assert(rest[i] == routes[i + 1]);
        }
        routes_are_read_back(rest);
        let (net, via) = routes[0];
        let p = net.prefix();
        let n = (p + 7) / 8;
        let v = routes_bytes(routes);
        let r = route_bytes(routes[0]);
        crate::net::cidr::lemma_block(net.base().bits, p);
        let first = net.first() as u32;
        lemma_octets(first, p);
        lemma_number(via.bits);
        assert(r.len() == 5 + n);
        assert(v =~= r + routes_bytes(rest));
        assert(v[0] == p);
        assert(v.subrange(1, 1 + n) =~= u32_bytes(first).take(n));
        assert(v.subrange(1 + n, 5 + n) =~= ip_bytes(via));
        assert(v.skip(5 + n) =~= routes_bytes(rest));
        assert forall|i: int| 0 <= i < routes.len() implies #[trigger] routes_told(v)[i] == (
            routes[i].0.prefix() as int,
            routes[i].0.first(),
            routes[i].1.bits as int,
        ) by {
            if i > 0 {
                assert(rest[i - 1] == routes[i]);
                assert(routes_told(v)[i] == routes_told(routes_bytes(rest))[i - 1]);
            }
        }
    }
}

proof fn lemma_routes_front(routes: Seq<(Ipv4Net, Ipv4Addr)>)
    requires
        routes.len() > 0,
    ensures
        routes_bytes(routes) == route_bytes(routes[0]) + routes_bytes(routes.skip(1)),
    decreases routes.len(),
{
    let rest = routes.skip(1);
    if routes.len() == 1 {
        assert(routes.drop_last() =~= Seq::<(Ipv4Net, Ipv4Addr)>::empty());
        assert(rest =~= Seq::<(Ipv4Net, Ipv4Addr)>::empty());
        assert(routes_bytes(routes.drop_last()) =~= Seq::<u8>::empty());
        assert(routes_bytes(routes) =~= route_bytes(routes[0]) + routes_bytes(rest));
    } else {
        lemma_routes_front(routes.drop_last());
        assert(routes.drop_last().skip(1) =~= rest.drop_last());
        assert(rest.last() == routes.last());
        assert(routes_bytes(routes) =~= route_bytes(routes[0]) + routes_bytes(rest));
    }
}

/// The octets of a network address that its prefix does not reach are zero.
proof fn lemma_octets(first: u32, p: u8)
    requires
        p <= 32,
        first as int % block_size(p) == 0,
    ensures
        number(u32_bytes(first).take((p + 7) / 8) + zeros((4 - (p + 7) / 8) as nat)) == first,
{
    let n = (p + 7) / 8;
    let low = (8 * (4 - n)) as nat;
    let k = (32 - p) as nat;
    vstd::arithmetic::power2::lemma2_to64();
    vstd::arithmetic::power2::lemma_pow2_adds(low, (k - low) as nat);
    vstd::arithmetic::power2::lemma_pow2_pos(low);
    vstd::arithmetic::power2::lemma_pow2_pos(k);
    let a = vstd::arithmetic::power2::pow2(low) as int;
    let b = vstd::arithmetic::power2::pow2((k - low) as nat) as int;
    let q = first as int / block_size(p);
    vstd::arithmetic::div_mod::lemma_fundamental_div_mod(first as int, block_size(p));
    assert(first as int == (b * q) * a) by (nonlinear_arith)
        requires
            first as int == (a * b) * q,
    ;
    vstd::arithmetic::div_mod::lemma_mod_multiples_basic(b * q, a);
    assert(first as int % a == 0);
    lemma_number(first);
    let u = u32_bytes(first);
    let w = u.take(n) + zeros((4 - n) as nat);
    assert(forall|i: int| 0 <= i < n ==> w[i] == u[i]);
    assert(forall|i: int| n <= i < 4 ==> w[i] == 0);
    if n == 4 {
        assert(w =~= u);
    } else if n == 3 {
        assert(a == 0x100);
        assert(u[3] == 0);
    } else if n == 2 {
        assert(a == 0x1_0000);
        assert(u[2] == 0 && u[3] == 0);
    } else if n == 1 {
        assert(a == 0x100_0000);
        assert(first as int % 0x100_0000 == 0);
        assert(first / 0x1_0000 % 0x100 == 0);
        assert(u[1] == 0 && u[2] == 0 && u[3] == 0);
    } else {
        assert(a == 0x1_0000_0000);
        assert(first == 0);
    }
    assert(w =~= u);
}

/// Whatever the server answers, it answers the request it got: an OFFER to a
/// DISCOVER, an ACK or a NAK to a REQUEST; and every OFFER and ACK that leaves it
/// tells the lease time, the mask, the router and the rest of the configuration.
#[verifier::spinoff_prover]
#[verifier::rlimit(60)]
pub proof fn answers_that_leave_tell_the_lease(
    server: &mut DhcpServer,
    frame: &[u8],
    now: u64,
    r: Option<Vec<u8>>,
    req: BootpRequest,
)
    requires
        call_ensures(DhcpServer::handle, (server, frame, now), r),
        frame_request(frame@) == Some(req),
        old(server)@.config.subnet.prefix() <= 32,
        old(server)@.config.domain matches Some(d) ==> d.len() <= 255,
        routes_bytes(old(server)@.config.routes).len() <= 255,
    ensures
        r matches Some(f) ==> {
            let cfg = old(server)@.config;
            let m = udp_payload(ipv4_payload(f@.skip(14)));
            let kind = told(m, 240, 53);
            &&& kind == Some(seq![2u8]) || kind == Some(seq![5u8]) || kind == Some(seq![6u8])
            &&& kind == Some(seq![2u8]) <==> req.msg_type == 1
            &&& kind != Some(seq![6u8]) ==> says(told(m, 240, 51), cfg.lease_secs as int) && says(
                told(m, 240, 1),
                0xFFFF_FFFF - (cfg.subnet.last() - cfg.subnet.first()),
            ) && says(told(m, 240, 3), cfg.gateway.bits as int) && (cfg.dns_server matches Some(dns)
                ==> says(told(m, 240, 6), dns.bits as int)) && told(m, 240, 15) == cfg.domain
            &&& says(told(m, 240, 54), cfg.gateway.bits as int)
        },
{
    let st = old(server)@;
    if let Some(f) = r {
        let (kind, ip) = dhcp_step(st, req, now).1->0;
        let yiaddr = match ip {
            Some(ip) => ip,
            None => Ipv4Addr { bits: 0 },
        };
        reply_goes_to_the_client(st.config, req, kind, yiaddr);
        assert(kind == 2 || kind == 5 || kind == 6);
        assert(seq![2u8][0] == 2 && seq![5u8][0] == 5 && seq![6u8][0] == 6 && seq![kind][0] == kind);
        if kind == 6 {
            refusals_tell_nothing_else(st.config, req, yiaddr, 0);
        } else {
            offers_and_acks_tell_the_lease(st.config, req, kind, yiaddr);
        }
    }
}

} // verus!
