//! The DHCP server, message by message.

use std::collections::HashMap;

use vmlab::net::addr::{Ipv4Addr, MacAddr};
use vmlab::net::cidr::Ipv4Net;
use vmlab::net::dhcp::{
    encode_classless_routes, DhcpConfig, DhcpServer, BOOTREPLY, BOOTREQUEST, DHCP_ACK, DHCP_DECLINE, DHCP_DISCOVER, DHCP_NAK, DHCP_OFFER, DHCP_RELEASE, DHCP_REQUEST, OPT_CLASSLESS_ROUTES, OPT_DNS, OPT_DOMAIN, OPT_END, OPT_LEASE_TIME, OPT_MSG_TYPE, OPT_MTU, OPT_PAD, OPT_REQUESTED_IP, OPT_ROUTER, OPT_SERVER_ID, OPT_SUBNET_MASK,
};
use vmlab::net::frame::{
    arp_request_build, eth_build, ipv4_build, udp_build, EthView, Ipv4View, UdpView, ETHERTYPE_IPV4, IPPROTO_UDP,
};

const GW: Ipv4Addr = Ipv4Addr { bits: 0x0AD5_0101 };
const MAGIC_COOKIE: [u8; 4] = [99, 130, 83, 99];
/// The clock does not move in these tests.
const NOW: u64 = 1_000;
const GW_MAC: MacAddr = MacAddr([0x52, 0x56, 0, 0, 0, 1]);
const XID: u32 = 0x4142_4344;

fn mac(n: u8) -> MacAddr {
    MacAddr([0x02, 0, 0, 0, 0, n])
}

fn net(s: &str) -> Ipv4Net {
    Ipv4Net::parse(s).unwrap()
}

fn config() -> DhcpConfig {
    let mut c = DhcpConfig::new(net("10.213.1.0/24"), GW, GW_MAC);
    c.dns_server = Some(GW);
    c.domain = Some("vmlab.internal".into());
    c
}

/// Build a full client→server ethernet frame carrying a DHCP message.
fn client_frame(
    mac: MacAddr,
    msg_type: u8,
    extra_opts: &[(u8, &[u8])],
    ciaddr: Ipv4Addr,
    broadcast_flag: bool,
) -> Vec<u8> {
    let mut b = vec![0u8; 240];
    b[0] = BOOTREQUEST;
    b[1] = 1;
    b[2] = 6;
    b[4..8].copy_from_slice(&XID.to_be_bytes());
    if broadcast_flag {
        b[10] = 0x80;
    }
    b[12..16].copy_from_slice(&ciaddr.octets());
    b[28..34].copy_from_slice(&mac.0);
    b[236..240].copy_from_slice(&MAGIC_COOKIE);
    b.extend_from_slice(&[OPT_MSG_TYPE, 1, msg_type]);
    for (code, val) in extra_opts {
        b.push(*code);
        b.push(val.len() as u8);
        b.extend_from_slice(val);
    }
    b.push(OPT_END);
    let src_ip = if ciaddr.is_unspecified() {
        Ipv4Addr::unspecified()
    } else {
        ciaddr
    };
    let udp = udp_build(src_ip, Ipv4Addr::broadcast(), 68, 67, &b).unwrap();
    let ip = ipv4_build(src_ip, Ipv4Addr::broadcast(), IPPROTO_UDP, 64, &udp, 1).unwrap();
    eth_build(MacAddr::broadcast(), mac, ETHERTYPE_IPV4, &ip)
}

fn discover(mac: MacAddr) -> Vec<u8> {
    client_frame(mac, DHCP_DISCOVER, &[], Ipv4Addr::unspecified(), false)
}

fn request(mac: MacAddr, ip: Ipv4Addr) -> Vec<u8> {
    client_frame(
        mac,
        DHCP_REQUEST,
        &[
            (OPT_REQUESTED_IP, &ip.octets()),
            (OPT_SERVER_ID, &GW.octets()),
        ],
        Ipv4Addr::unspecified(),
        false,
    )
}

/// Parsed server reply for assertions.
struct Reply {
    eth_dst: MacAddr,
    eth_src: MacAddr,
    ip_dst: Ipv4Addr,
    xid: u32,
    yiaddr: Ipv4Addr,
    chaddr: [u8; 6],
    opts: HashMap<u8, Vec<u8>>,
}

fn parse_reply(frame: &[u8]) -> Reply {
    let eth = EthView::parse(frame).unwrap();
    assert_eq!(eth.ethertype(), ETHERTYPE_IPV4);
    let ip = Ipv4View::parse(eth.payload()).unwrap();
    assert!(ip.checksum_valid());
    let udp = UdpView::parse(ip.payload()).unwrap();
    assert!(udp.checksum_valid(ip.src(), ip.dst()));
    assert_eq!(udp.src_port(), 67);
    assert_eq!(udp.dst_port(), 68);
    let p = udp.payload();
    assert_eq!(p[0], BOOTREPLY);
    assert_eq!(&p[236..240], &MAGIC_COOKIE);
    let mut chaddr = [0u8; 6];
    chaddr.copy_from_slice(&p[28..34]);
    let mut opts = HashMap::new();
    let mut i = 240;
    while i < p.len() && p[i] != OPT_END {
        if p[i] == OPT_PAD {
            i += 1;
            continue;
        }
        let len = usize::from(p[i + 1]);
        opts.insert(p[i], p[i + 2..i + 2 + len].to_vec());
        i += 2 + len;
    }
    // Replies always come from the configured gateway (the server id).
    assert_eq!(ip.src().octets().to_vec(), opts[&OPT_SERVER_ID]);
    Reply {
        eth_dst: eth.dst_mac(),
        eth_src: eth.src_mac(),
        ip_dst: ip.dst(),
        xid: u32::from_be_bytes([p[4], p[5], p[6], p[7]]),
        yiaddr: Ipv4Addr::new(p[16], p[17], p[18], p[19]),
        chaddr,
        opts,
    }
}

#[test]
fn discover_gets_offer_with_options() {
    let mut s = DhcpServer::new(config());
    let reply = s.handle(&discover(mac(1)), NOW).expect("offer expected");
    let r = parse_reply(&reply);
    assert_eq!(r.opts[&OPT_MSG_TYPE], vec![DHCP_OFFER]);
    assert_eq!(r.yiaddr, Ipv4Addr::new(10, 213, 1, 2)); // first free host
    assert_eq!(r.xid, XID);
    assert_eq!(r.chaddr, mac(1).0);
    // Unicast addressing (no broadcast flag).
    assert_eq!(r.eth_dst, mac(1));
    assert_eq!(r.eth_src, GW_MAC);
    assert_eq!(r.ip_dst, r.yiaddr);
    // Options.
    assert_eq!(r.opts[&OPT_SUBNET_MASK], vec![255, 255, 255, 0]);
    assert_eq!(r.opts[&OPT_ROUTER], GW.octets().to_vec());
    assert_eq!(r.opts[&OPT_DNS], GW.octets().to_vec());
    assert_eq!(r.opts[&OPT_DOMAIN], b"vmlab.internal".to_vec());
    assert_eq!(r.opts[&OPT_LEASE_TIME], 3600u32.to_be_bytes().to_vec());
    assert_eq!(r.opts[&OPT_SERVER_ID], GW.octets().to_vec());
    assert!(!r.opts.contains_key(&OPT_CLASSLESS_ROUTES));
    // Default MTU is 1500 — option 26 is omitted.
    assert!(!r.opts.contains_key(&OPT_MTU));
}

#[test]
fn jumbo_mtu_sets_option_26() {
    let mut cfg = config();
    cfg.mtu = 9000;
    let mut s = DhcpServer::new(cfg);
    let r = parse_reply(&s.handle(&discover(mac(1)), NOW).unwrap());
    assert_eq!(r.opts[&OPT_MTU], 9000u16.to_be_bytes().to_vec());
}

#[test]
fn dns_option_omitted_when_unconfigured() {
    let mut cfg = config();
    cfg.dns_server = None;
    cfg.domain = None;
    let mut s = DhcpServer::new(cfg);
    let r = parse_reply(&s.handle(&discover(mac(1)), NOW).unwrap());
    assert!(!r.opts.contains_key(&OPT_DNS));
    assert!(!r.opts.contains_key(&OPT_DOMAIN));
}

#[test]
fn request_acks_and_records_lease() {
    let mut s = DhcpServer::new(config());
    let offer = parse_reply(&s.handle(&discover(mac(1)), NOW).unwrap());
    let ack = parse_reply(&s.handle(&request(mac(1), offer.yiaddr), NOW).unwrap());
    assert_eq!(ack.opts[&OPT_MSG_TYPE], vec![DHCP_ACK]);
    assert_eq!(ack.yiaddr, offer.yiaddr);
    assert_eq!(s.leases(NOW), vec![(mac(1), offer.yiaddr)]);
    assert_eq!(s.lease_of(mac(1), NOW), Some(offer.yiaddr));
    assert_eq!(s.lease_of(mac(2), NOW), None);

    // Renewal: REQUEST with ciaddr set and no option 50.
    let renew = client_frame(mac(1), DHCP_REQUEST, &[], offer.yiaddr, false);
    let ack2 = parse_reply(&s.handle(&renew, NOW).unwrap());
    assert_eq!(ack2.opts[&OPT_MSG_TYPE], vec![DHCP_ACK]);
    assert_eq!(ack2.yiaddr, offer.yiaddr);
}

#[test]
fn broadcast_flag_honoured() {
    let mut s = DhcpServer::new(config());
    let f = client_frame(mac(1), DHCP_DISCOVER, &[], Ipv4Addr::unspecified(), true);
    let r = parse_reply(&s.handle(&f, NOW).unwrap());
    assert_eq!(r.eth_dst, MacAddr::broadcast());
    assert_eq!(r.ip_dst, Ipv4Addr::broadcast());
}

#[test]
fn reservation_wins_even_outside_pool() {
    let outside = Ipv4Addr::new(192, 168, 99, 5);
    let mut cfg = config();
    cfg.reservations.insert(mac(7), outside);
    let mut s = DhcpServer::new(cfg);
    let offer = parse_reply(&s.handle(&discover(mac(7)), NOW).unwrap());
    assert_eq!(offer.yiaddr, outside);
    let ack = parse_reply(&s.handle(&request(mac(7), outside), NOW).unwrap());
    assert_eq!(ack.opts[&OPT_MSG_TYPE], vec![DHCP_ACK]);
    assert_eq!(ack.yiaddr, outside);
    // A reserved client requesting something else is NAKed.
    let nak = parse_reply(
        &s.handle(&request(mac(7), Ipv4Addr::new(10, 213, 1, 9)), NOW)
            .unwrap(),
    );
    assert_eq!(nak.opts[&OPT_MSG_TYPE], vec![DHCP_NAK]);
}

#[test]
fn dynamic_allocation_skips_gateway_and_reservations() {
    let mut cfg = DhcpConfig::new(net("10.0.0.0/29"), Ipv4Addr::new(10, 0, 0, 1), GW_MAC);
    cfg.reservations.insert(mac(9), Ipv4Addr::new(10, 0, 0, 2));
    let mut s = DhcpServer::new(cfg);
    // .0 network, .1 gateway, .2 reserved => first dynamic is .3.
    let r = parse_reply(&s.handle(&discover(mac(1)), NOW).unwrap());
    assert_eq!(r.yiaddr, Ipv4Addr::new(10, 0, 0, 3));
    // And the next client gets .4.
    let r = parse_reply(&s.handle(&discover(mac(2)), NOW).unwrap());
    assert_eq!(r.yiaddr, Ipv4Addr::new(10, 0, 0, 4));
}

#[test]
fn nak_on_taken_or_invalid_request() {
    let mut s = DhcpServer::new(config());
    let offer = parse_reply(&s.handle(&discover(mac(1)), NOW).unwrap());
    s.handle(&request(mac(1), offer.yiaddr), NOW).unwrap();

    // Another client requests the same (taken) address.
    let nak = parse_reply(&s.handle(&request(mac(2), offer.yiaddr), NOW).unwrap());
    assert_eq!(nak.opts[&OPT_MSG_TYPE], vec![DHCP_NAK]);
    assert_eq!(nak.yiaddr, Ipv4Addr::unspecified());
    // NAKs are broadcast.
    assert_eq!(nak.eth_dst, MacAddr::broadcast());
    assert_eq!(nak.ip_dst, Ipv4Addr::broadcast());
    // NAKs carry no lease options.
    assert!(!nak.opts.contains_key(&OPT_LEASE_TIME));

    // A stale request for an off-subnet address.
    let nak = parse_reply(
        &s.handle(&request(mac(3), Ipv4Addr::new(172, 16, 0, 5)), NOW)
            .unwrap(),
    );
    assert_eq!(nak.opts[&OPT_MSG_TYPE], vec![DHCP_NAK]);
    // Requesting the gateway itself is refused.
    let nak = parse_reply(&s.handle(&request(mac(4), GW), NOW).unwrap());
    assert_eq!(nak.opts[&OPT_MSG_TYPE], vec![DHCP_NAK]);
    // Neither mac(2) nor the others were granted anything.
    assert_eq!(s.leases(NOW), vec![(mac(1), offer.yiaddr)]);
}

#[test]
fn free_request_for_unleased_pool_address_is_acked() {
    let mut s = DhcpServer::new(config());
    let want = Ipv4Addr::new(10, 213, 1, 42);
    let ack = parse_reply(&s.handle(&request(mac(1), want), NOW).unwrap());
    assert_eq!(ack.opts[&OPT_MSG_TYPE], vec![DHCP_ACK]);
    assert_eq!(ack.yiaddr, want);
    assert_eq!(s.lease_of(mac(1), NOW), Some(want));
}

#[test]
fn release_frees_and_pool_exhaustion_warns() {
    // /30: hosts .1 (gateway) and .2 — a one-address pool.
    let cfg = DhcpConfig::new(net("10.9.0.0/30"), Ipv4Addr::new(10, 9, 0, 1), GW_MAC);
    let mut s = DhcpServer::new(cfg);
    let a = parse_reply(&s.handle(&discover(mac(1)), NOW).unwrap());
    assert_eq!(a.yiaddr, Ipv4Addr::new(10, 9, 0, 2));
    // Pool exhausted for a second client: no offer at all.
    assert!(s.handle(&discover(mac(2)), NOW).is_none());
    // First client releases; second can now allocate.
    let release = client_frame(mac(1), DHCP_RELEASE, &[], a.yiaddr, false);
    assert!(s.handle(&release, NOW).is_none());
    assert!(s.leases(NOW).is_empty());
    let b = parse_reply(&s.handle(&discover(mac(2)), NOW).unwrap());
    assert_eq!(b.yiaddr, Ipv4Addr::new(10, 9, 0, 2));
}

#[test]
fn expired_lease_goes_to_another_client() {
    let mut cfg = DhcpConfig::new(net("10.9.0.0/30"), Ipv4Addr::new(10, 9, 0, 1), GW_MAC);
    cfg.lease_secs = 60;
    let mut s = DhcpServer::new(cfg);
    assert!(s.handle(&discover(mac(1)), NOW).is_some());
    assert!(s.handle(&discover(mac(2)), NOW + 59_999).is_none());
    let b = parse_reply(&s.handle(&discover(mac(2)), NOW + 60_000).unwrap());
    assert_eq!(b.yiaddr, Ipv4Addr::new(10, 9, 0, 2));
    assert_eq!(s.lease_of(mac(1), NOW + 60_000), None);
}

#[test]
fn decline_quarantines_address() {
    let mut s = DhcpServer::new(config());
    let offer = parse_reply(&s.handle(&discover(mac(1)), NOW).unwrap());
    assert_eq!(offer.yiaddr, Ipv4Addr::new(10, 213, 1, 2));
    let decline = client_frame(
        mac(1),
        DHCP_DECLINE,
        &[(OPT_REQUESTED_IP, &offer.yiaddr.octets())],
        Ipv4Addr::unspecified(),
        false,
    );
    assert!(s.handle(&decline, NOW).is_none());
    // The declined address is skipped from now on.
    let next = parse_reply(&s.handle(&discover(mac(2)), NOW).unwrap());
    assert_eq!(next.yiaddr, Ipv4Addr::new(10, 213, 1, 3));
}

#[test]
fn same_mac_rediscover_keeps_its_address() {
    let mut s = DhcpServer::new(config());
    let first = parse_reply(&s.handle(&discover(mac(1)), NOW).unwrap());
    s.handle(&request(mac(1), first.yiaddr), NOW).unwrap();
    let again = parse_reply(&s.handle(&discover(mac(1)), NOW).unwrap());
    assert_eq!(again.yiaddr, first.yiaddr);
}

#[test]
fn option_121_encoding_hand_verified() {
    let routes = vec![
        (net("10.0.0.0/8"), Ipv4Addr::new(10, 213, 1, 254)),
        (net("192.168.50.0/24"), Ipv4Addr::new(10, 213, 1, 253)),
        (net("0.0.0.0/0"), Ipv4Addr::new(10, 213, 1, 1)),
    ];
    // RFC 3442: prefix len, ceil(len/8) destination octets, router.
    let expected: Vec<u8> = vec![
        8, 10, 10, 213, 1, 254, // 10/8 via .254
        24, 192, 168, 50, 10, 213, 1, 253, // 192.168.50/24 via .253
        0, 10, 213, 1, 1, // default via .1
    ];
    assert_eq!(encode_classless_routes(&routes), expected);

    // And it rides option 121 in an OFFER.
    let mut cfg = config();
    cfg.routes = routes;
    let mut s = DhcpServer::new(cfg);
    let r = parse_reply(&s.handle(&discover(mac(1)), NOW).unwrap());
    assert_eq!(r.opts[&OPT_CLASSLESS_ROUTES], expected);
}

#[test]
fn non_dhcp_frames_ignored() {
    let mut s = DhcpServer::new(config());
    // ARP frame.
    let arp = arp_request_build(mac(1), Ipv4Addr::unspecified(), GW);
    assert!(s.handle(&arp, NOW).is_none());
    // UDP to a different port.
    let udp = udp_build(Ipv4Addr::unspecified(), Ipv4Addr::broadcast(), 68, 123, b"ntp?").unwrap();
    let ip = ipv4_build(
        Ipv4Addr::unspecified(),
        Ipv4Addr::broadcast(),
        IPPROTO_UDP,
        64,
        &udp,
        1,
    )
    .unwrap();
    let f = eth_build(MacAddr::broadcast(), mac(1), ETHERTYPE_IPV4, &ip);
    assert!(s.handle(&f, NOW).is_none());
    // Truncated BOOTP payload.
    let udp = udp_build(
        Ipv4Addr::unspecified(),
        Ipv4Addr::broadcast(),
        68,
        67,
        &[1, 1, 6, 0],
    )
    .unwrap();
    let ip = ipv4_build(
        Ipv4Addr::unspecified(),
        Ipv4Addr::broadcast(),
        IPPROTO_UDP,
        64,
        &udp,
        1,
    )
    .unwrap();
    let f = eth_build(MacAddr::broadcast(), mac(1), ETHERTYPE_IPV4, &ip);
    assert!(s.handle(&f, NOW).is_none());
    // A BOOTP *reply* must not be answered (eth 14 + ip 20 + udp 8 = 42).
    let mut frame = discover(mac(1));
    frame[42] = BOOTREPLY;
    assert!(s.handle(&frame, NOW).is_none());
    // Truncation sweep never panics.
    let f = discover(mac(2));
    for n in 0..f.len() {
        let _ = s.handle(&f[..n], NOW);
    }
}

/// Hostile option TLVs must never panic the parser: lengths running past
/// the buffer, zero-length options, a missing END, and every possible
/// single-byte corruption of a valid DISCOVER.
#[test]
fn hostile_options_never_panic() {
    let mut s = DhcpServer::new(config());

    // An option whose declared length runs past the end of the message.
    let mut b = vec![0u8; 240];
    b[0] = BOOTREQUEST;
    b[1] = 1;
    b[2] = 6;
    b[4..8].copy_from_slice(&XID.to_be_bytes());
    b[28..34].copy_from_slice(&mac(3).0);
    b[236..240].copy_from_slice(&MAGIC_COOKIE);
    b.extend_from_slice(&[OPT_MSG_TYPE, 200, DHCP_DISCOVER]); // len 200, 1 byte present
    let udp = udp_build(Ipv4Addr::unspecified(), Ipv4Addr::broadcast(), 68, 67, &b).unwrap();
    let ip = ipv4_build(
        Ipv4Addr::unspecified(),
        Ipv4Addr::broadcast(),
        IPPROTO_UDP,
        64,
        &udp,
        1,
    )
    .unwrap();
    let f = eth_build(MacAddr::broadcast(), mac(3), ETHERTYPE_IPV4, &ip);
    let _ = s.handle(&f, NOW);

    // Zero-length options and no END terminator.
    let mut b2 = b[..240].to_vec();
    b2.extend_from_slice(&[OPT_MSG_TYPE, 0, 42, 0, 42, 0]);
    let udp = udp_build(Ipv4Addr::unspecified(), Ipv4Addr::broadcast(), 68, 67, &b2).unwrap();
    let ip = ipv4_build(
        Ipv4Addr::unspecified(),
        Ipv4Addr::broadcast(),
        IPPROTO_UDP,
        64,
        &udp,
        1,
    )
    .unwrap();
    let f = eth_build(MacAddr::broadcast(), mac(3), ETHERTYPE_IPV4, &ip);
    let _ = s.handle(&f, NOW);

    // Single-byte corruption sweep over a valid DISCOVER: any reply that
    // does come back must still be a parseable frame.
    let good = discover(mac(4));
    for i in 0..good.len() {
        let mut f = good.clone();
        f[i] ^= 0xFF;
        if let Some(reply) = s.handle(&f, NOW) {
            assert!(EthView::parse(&reply).is_some());
        }
    }
}
