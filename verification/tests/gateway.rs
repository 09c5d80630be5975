//! The segment gateway: its identity, its services and its uplink.

use std::collections::HashMap;

use vmlab::net::addr::{Ipv4Addr, MacAddr};
use vmlab::net::cidr::Ipv4Net;
use vmlab::net::dhcp::DhcpConfig;
use vmlab::net::dns::{encode_qname, DnsZone};
use vmlab::net::frame::{
    arp_request_build, eth_build, icmp_build, ipv4_build, tcp_build, udp_build, ArpOp, ArpView,
    EthView, IcmpView, Ipv4View, TcpFields, UdpView, ETHERTYPE_IPV4, ICMP_ECHO_REPLY,
    ICMP_ECHO_REQUEST, IPPROTO_ICMP, IPPROTO_UDP,
};
use vmlab::net::gateway::{gateway_mac, Gateway, GatewayAction, GatewayConfig, GatewayHandle};
use vmlab::net::switch::{Delivery, HookAction, PortClass, PortId, Switch};

const GUEST_MAC: MacAddr = MacAddr([0x02, 0, 0, 0, 0, 0x0A]);
const GUEST_IP: Ipv4Addr = Ipv4Addr { bits: 0x0AD5_0132 };
const NOW: u64 = 1_000;

fn subnet() -> Ipv4Net {
    Ipv4Net::parse("10.213.1.0/24").unwrap()
}

fn gw_ip() -> Ipv4Addr {
    Ipv4Addr::new(10, 213, 1, 1)
}

fn config() -> GatewayConfig {
    let gw_mac = gateway_mac("lab", "seg");
    GatewayConfig {
        subnet: subnet(),
        gw_ip: gw_ip(),
        gw_mac,
        dhcp: Some(DhcpConfig::new(subnet(), gw_ip(), gw_mac)),
        dns: Some(DnsZone::new("vmlab.internal")),
        upstream_dns: None,
    }
}

/// A segment with a gateway and one guest.
struct Segment {
    sw: Switch,
    gw: GatewayHandle,
    guest: PortId,
}

impl Segment {
    fn new(cfg: GatewayConfig) -> Segment {
        let mut sw = Switch::new();
        let port = sw.add_port(PortClass::Service);
        let gw = Gateway::spawn(port, cfg);
        let guest = sw.add_port(PortClass::Guest { isolated: false });
        Segment { sw, gw, guest }
    }

    /// Where a frame goes.
    fn reaches(&mut self, from: PortId, frame: Vec<u8>, to: PortId) -> bool {
        match self.sw.ingress(from, frame, HookAction::Pass).delivery {
            Delivery::Nothing => false,
            Delivery::Unicast { to: t, .. } => t == to,
            Delivery::Flood { ports, .. } => ports.contains(&to),
        }
    }

    /// What the gateway does about a frame of the guest.
    fn from_guest(&mut self, frame: Vec<u8>) -> GatewayAction {
        let port = self.gw.port_id();
        let guest = self.guest;
        assert!(self.reaches(guest, frame.clone(), port));
        self.gw.handle_frame(&frame, NOW)
    }

    /// What the gateway answers the guest.
    fn answered(&mut self, frame: Vec<u8>) -> Vec<u8> {
        match self.from_guest(frame) {
            GatewayAction::Send(reply) => {
                let port = self.gw.port_id();
                let guest = self.guest;
                assert!(self.reaches(port, reply.clone(), guest));
                reply
            }
            other => panic!("expected an answer, got {other:?}"),
        }
    }
}

/// A minimal DHCP DISCOVER broadcast frame from `mac`.
fn discover_frame(mac: MacAddr) -> Vec<u8> {
    let mut b = vec![0u8; 240];
    b[0] = 1; // BOOTREQUEST
    b[1] = 1;
    b[2] = 6;
    b[4..8].copy_from_slice(&0xDEAD_BEEFu32.to_be_bytes());
    b[28..34].copy_from_slice(&mac.0);
    b[236..240].copy_from_slice(&[99, 130, 83, 99]);
    b.extend_from_slice(&[53, 1, 1]); // DISCOVER
    b.push(255);
    let none = Ipv4Addr::unspecified();
    let all = Ipv4Addr::broadcast();
    let udp = udp_build(none, all, 68, 67, &b).unwrap();
    let ip = ipv4_build(none, all, IPPROTO_UDP, 64, &udp, 1).unwrap();
    eth_build(MacAddr::broadcast(), mac, ETHERTYPE_IPV4, &ip)
}

#[test]
fn gateway_mac_is_deterministic_local_and_unicast() {
    let a = gateway_mac("lab", "seg");
    assert_eq!(a, gateway_mac("lab", "seg"));
    assert_ne!(a, gateway_mac("lab", "other"));
    assert_ne!(a, gateway_mac("other", "seg"));
    // Prefix-shift collisions ("ab"/"c" vs "a"/"bc") are separated too.
    assert_ne!(gateway_mac("ab", "c"), gateway_mac("a", "bc"));
    assert_eq!(a.0[0], 0x52);
    assert_eq!(a.0[1], 0x56);
    assert_eq!(a.0[0] & 0x01, 0, "multicast bit must be clear");
    assert_ne!(a.0[0] & 0x02, 0, "local bit must be set");
}

#[test]
fn dhcp_discover_gets_offer_through_switch() {
    let mut s = Segment::new(config());
    let reply = s.answered(discover_frame(GUEST_MAC));
    let eth = EthView::parse(&reply).unwrap();
    assert_eq!(eth.src_mac(), s.gw.gw_mac());
    assert_eq!(eth.dst_mac(), GUEST_MAC);
    let ip = Ipv4View::parse(eth.payload()).unwrap();
    assert_eq!(ip.src(), s.gw.gw_ip());
    let udp = UdpView::parse(ip.payload()).unwrap();
    assert_eq!((udp.src_port(), udp.dst_port()), (67, 68));
    let p = udp.payload();
    assert_eq!(p[0], 2, "BOOTREPLY");
    let yiaddr = Ipv4Addr::new(p[16], p[17], p[18], p[19]);
    assert!(subnet().contains(yiaddr));
    assert_ne!(yiaddr, s.gw.gw_ip());
    // Options carry msg-type OFFER and the router.
    let mut opts = HashMap::new();
    let mut i = 240;
    while i < p.len() && p[i] != 255 {
        if p[i] == 0 {
            i += 1;
            continue;
        }
        let len = usize::from(p[i + 1]);
        opts.insert(p[i], p[i + 2..i + 2 + len].to_vec());
        i += 2 + len;
    }
    assert_eq!(opts[&53], vec![2u8]); // OFFER
    assert_eq!(opts[&3], s.gw.gw_ip().octets().to_vec()); // router
    // The lease shows up in status.
    assert_eq!(s.gw.dhcp_leases(NOW), vec![(GUEST_MAC, yiaddr)]);
}

#[test]
fn arp_request_for_gateway_ip_is_answered() {
    let mut s = Segment::new(config());
    let reply = s.answered(arp_request_build(GUEST_MAC, GUEST_IP, gw_ip()));
    let eth = EthView::parse(&reply).unwrap();
    assert_eq!(eth.dst_mac(), GUEST_MAC);
    let arp = ArpView::parse(eth.payload()).unwrap();
    assert_eq!(arp.op(), ArpOp::Reply);
    assert_eq!(arp.sha(), s.gw.gw_mac());
    assert_eq!(arp.spa(), s.gw.gw_ip());
    assert_eq!(arp.tha(), GUEST_MAC);
    assert_eq!(arp.tpa(), GUEST_IP);
}

#[test]
fn ping_gateway_gets_echo_reply() {
    let mut s = Segment::new(config());
    let echo = icmp_build(ICMP_ECHO_REQUEST, 0, [0xAB, 0xCD, 0, 1], b"ping!");
    let ipp = ipv4_build(GUEST_IP, gw_ip(), IPPROTO_ICMP, 64, &echo, 7).unwrap();
    let frame = eth_build(s.gw.gw_mac(), GUEST_MAC, ETHERTYPE_IPV4, &ipp);
    let reply = s.answered(frame);
    let eth = EthView::parse(&reply).unwrap();
    assert_eq!(eth.dst_mac(), GUEST_MAC);
    assert_eq!(eth.src_mac(), s.gw.gw_mac());
    let ip = Ipv4View::parse(eth.payload()).unwrap();
    assert_eq!(ip.src(), s.gw.gw_ip());
    assert_eq!(ip.dst(), GUEST_IP);
    let icmp = IcmpView::parse(ip.payload()).unwrap();
    assert_eq!(icmp.icmp_type(), ICMP_ECHO_REPLY);
    assert_eq!(icmp.rest(), [0xAB, 0xCD, 0, 1]);
    assert_eq!(icmp.payload(), b"ping!");
}

#[test]
fn dns_query_answered_for_runtime_registered_name() {
    let mut s = Segment::new(config());
    let web = Ipv4Addr::new(10, 213, 1, 77);
    let mut zone = s.gw.take_dns_zone().expect("dns enabled");
    zone.register("web", web);
    s.gw.put_dns_zone(zone);

    let mut q = vec![0x77, 0x01, 0x01, 0x00, 0, 1, 0, 0, 0, 0, 0, 0];
    q.extend_from_slice(&encode_qname("web.vmlab.internal"));
    q.extend_from_slice(&[0, 1, 0, 1]); // A IN
    let udp = udp_build(GUEST_IP, gw_ip(), 33000, 53, &q).unwrap();
    let ipp = ipv4_build(GUEST_IP, gw_ip(), IPPROTO_UDP, 64, &udp, 9).unwrap();
    let frame = eth_build(s.gw.gw_mac(), GUEST_MAC, ETHERTYPE_IPV4, &ipp);

    let reply = s.answered(frame);
    let eth = EthView::parse(&reply).unwrap();
    assert_eq!(eth.dst_mac(), GUEST_MAC);
    let ip = Ipv4View::parse(eth.payload()).unwrap();
    let udp = UdpView::parse(ip.payload()).unwrap();
    assert_eq!((udp.src_port(), udp.dst_port()), (53, 33000));
    let m = udp.payload();
    assert_eq!(&m[..2], &[0x77, 0x01]);
    assert_ne!(m[2] & 0x80, 0); // QR
    assert_eq!(m[3] & 0x0F, 0); // NOERROR
    assert_eq!(u16::from_be_bytes([m[6], m[7]]), 1); // one answer
    assert_eq!(&m[m.len() - 4..], &web.octets()); // rdata
}

#[test]
fn off_segment_frame_via_gw_mac_reaches_uplink() {
    let mut s = Segment::new(config());
    let far = Ipv4Addr::new(8, 8, 8, 8);
    let udp = udp_build(GUEST_IP, far, 5555, 443, b"hello").unwrap();
    let ipp = ipv4_build(GUEST_IP, far, IPPROTO_UDP, 64, &udp, 21).unwrap();
    let frame = eth_build(s.gw.gw_mac(), GUEST_MAC, ETHERTYPE_IPV4, &ipp);
    assert!(matches!(s.from_guest(frame), GatewayAction::Uplink));
}

/// TCP addressed to the gateway IP itself must reach the uplink. Only ICMP
/// echo is terminated by the gateway.
#[test]
fn gw_ip_tcp_reaches_uplink() {
    let mut s = Segment::new(config());
    let tcp = tcp_build(
        GUEST_IP,
        gw_ip(),
        TcpFields {
            src_port: 5555,
            dst_port: 445,
            seq: 1,
            ack: 0,
            flags: 0x02, // SYN
            window: 65535,
            options: &[],
        },
        &[],
    )
    .unwrap();
    let ipp = ipv4_build(GUEST_IP, gw_ip(), 6, 64, &tcp, 22).unwrap();
    let frame = eth_build(s.gw.gw_mac(), GUEST_MAC, ETHERTYPE_IPV4, &ipp);
    assert!(matches!(s.from_guest(frame), GatewayAction::Uplink));
}

#[test]
fn inject_sends_frame_out_the_gateway_port() {
    let mut s = Segment::new(config());
    // Teach the switch the guest's MAC.
    let hello = eth_build(MacAddr::broadcast(), GUEST_MAC, ETHERTYPE_IPV4, b"hello");
    let (guest, port) = (s.guest, s.gw.port_id());
    assert!(s.reaches(guest, hello, port));

    // NAT return path: a frame addressed to the guest goes to it alone.
    let frame = eth_build(GUEST_MAC, s.gw.gw_mac(), ETHERTYPE_IPV4, b"return traffic");
    match s.sw.ingress(port, frame.clone(), HookAction::Pass).delivery {
        Delivery::Unicast { to, frame: f } => {
            assert_eq!(to, guest);
            assert_eq!(f, frame);
        }
        other => panic!("expected unicast, got {other:?}"),
    }
}

#[test]
fn disabled_services_stay_silent_but_arp_works() {
    let mut cfg = config();
    cfg.dhcp = None;
    cfg.dns = None;
    let mut s = Segment::new(cfg);
    assert!(s.gw.take_dns_zone().is_none());
    assert!(s.gw.dhcp_leases(NOW).is_empty());

    // DHCP DISCOVER goes unanswered...
    assert!(!matches!(
        s.from_guest(discover_frame(GUEST_MAC)),
        GatewayAction::Send(_)
    ));
    // ...but ARP still works.
    let reply = s.answered(arp_request_build(GUEST_MAC, GUEST_IP, gw_ip()));
    let arp = ArpView::parse(EthView::parse(&reply).unwrap().payload()).unwrap();
    assert_eq!(arp.op(), ArpOp::Reply);
    assert_eq!(arp.sha(), s.gw.gw_mac());
}
