//! Names: zones, and the wire format of queries and replies.

use vmlab::config::model::SinkholeMode;
use vmlab::net::addr::{Ipv4Addr, MacAddr, SocketAddr};
use vmlab::net::dns::{
    accept_upstream_reply, build_response, encode_qname, parse_qname, DnsAction, DnsAnswer, DnsRespondCtx, DnsServer, DnsZone, ANSWER_TTL, DNS_PORT, QCLASS_IN, QTYPE_A, QTYPE_AAAA, QTYPE_ANY, RCODE_NOERROR, RCODE_NOTIMP, RCODE_NXDOMAIN,
};
use vmlab::net::frame::{
    eth_build, ipv4_build, udp_build, EthView, Ipv4View, UdpView, ETHERTYPE_IPV4, IPPROTO_UDP,
};

const CLIENT_MAC: MacAddr = MacAddr([0x02, 0, 0, 0, 0, 9]);
const SERVER_MAC: MacAddr = MacAddr([0x52, 0x56, 0, 0, 0, 1]);
const CLIENT_IP: Ipv4Addr = Ipv4Addr { bits: 0x0AD5_0132 };
const SERVER_IP: Ipv4Addr = Ipv4Addr { bits: 0x0AD5_0101 };
const CLIENT_PORT: u16 = 40000;

fn ip(n: u8) -> Ipv4Addr {
    Ipv4Addr::new(10, 213, 1, n)
}

fn upstream() -> SocketAddr {
    SocketAddr::V4 {
        ip: Ipv4Addr::new(192, 0, 2, 1),
        port: 53,
    }
}

fn build_query(id: u16, name: &str, qtype: u16) -> Vec<u8> {
    let mut q = Vec::new();
    q.extend_from_slice(&id.to_be_bytes());
    q.extend_from_slice(&[0x01, 0x00]); // RD set
    q.extend_from_slice(&1u16.to_be_bytes()); // qd
    q.extend_from_slice(&0u16.to_be_bytes()); // an
    q.extend_from_slice(&0u16.to_be_bytes()); // ns
    q.extend_from_slice(&0u16.to_be_bytes()); // ar
    q.extend_from_slice(&encode_qname(name));
    q.extend_from_slice(&qtype.to_be_bytes());
    q.extend_from_slice(&QCLASS_IN.to_be_bytes());
    q
}

fn query_frame(id: u16, name: &str, qtype: u16) -> Vec<u8> {
    let q = build_query(id, name, qtype);
    let udp = udp_build(CLIENT_IP, SERVER_IP, CLIENT_PORT, DNS_PORT, &q).unwrap();
    let ipp = ipv4_build(CLIENT_IP, SERVER_IP, IPPROTO_UDP, 64, &udp, 3).unwrap();
    eth_build(SERVER_MAC, CLIENT_MAC, ETHERTYPE_IPV4, &ipp)
}

/// (id, rcode, ancount, answer = (rtype, ttl, addr)).
fn parse_reply(frame: &[u8]) -> (u16, u8, u16, Option<(u16, u32, Ipv4Addr)>) {
    let eth = EthView::parse(frame).unwrap();
    assert_eq!(eth.ethertype(), ETHERTYPE_IPV4);
    assert_eq!(eth.dst_mac(), CLIENT_MAC);
    assert_eq!(eth.src_mac(), SERVER_MAC);
    let ipp = Ipv4View::parse(eth.payload()).unwrap();
    assert!(ipp.checksum_valid());
    assert_eq!(ipp.src(), SERVER_IP);
    assert_eq!(ipp.dst(), CLIENT_IP);
    let udp = UdpView::parse(ipp.payload()).unwrap();
    assert!(udp.checksum_valid(ipp.src(), ipp.dst()));
    assert_eq!(udp.src_port(), DNS_PORT);
    assert_eq!(udp.dst_port(), CLIENT_PORT);
    let m = udp.payload();
    let id = u16::from_be_bytes([m[0], m[1]]);
    assert_ne!(m[2] & 0x80, 0, "QR must be set on responses");
    let rcode = m[3] & 0x0F;
    let ancount = u16::from_be_bytes([m[6], m[7]]);
    // Skip the echoed question.
    let mut off = 12;
    while m[off] != 0 {
        off += 1 + usize::from(m[off]);
    }
    off += 1 + 4;
    let answer = if ancount == 1 {
        assert_eq!(&m[off..off + 2], &[0xC0, 0x0C], "compression pointer");
        let rtype = u16::from_be_bytes([m[off + 2], m[off + 3]]);
        assert_eq!(u16::from_be_bytes([m[off + 4], m[off + 5]]), QCLASS_IN);
        let ttl = u32::from_be_bytes([m[off + 6], m[off + 7], m[off + 8], m[off + 9]]);
        assert_eq!(u16::from_be_bytes([m[off + 10], m[off + 11]]), 4);
        Some((
            rtype,
            ttl,
            Ipv4Addr::new(m[off + 12], m[off + 13], m[off + 14], m[off + 15]),
        ))
    } else {
        None
    };
    (id, rcode, ancount, answer)
}

// -- zone -----------------------------------------------------------------

#[test]
fn register_appends_suffix_and_unregister_removes() {
    let mut z = DnsZone::new("vmlab.internal");
    z.register("dc01.ad-lab", ip(10));
    assert_eq!(z.lookup("dc01.ad-lab.vmlab.internal"), DnsAnswer::A(ip(10)));
    // Already-qualified names are not double-suffixed.
    z.register("web.ad-lab.vmlab.internal", ip(11));
    assert_eq!(z.lookup("web.ad-lab.vmlab.internal"), DnsAnswer::A(ip(11)));
    assert!(z.unregister("dc01.ad-lab"));
    assert!(!z.unregister("dc01.ad-lab"));
    assert_eq!(z.lookup("dc01.ad-lab.vmlab.internal"), DnsAnswer::Nxdomain);
}

#[test]
fn lookup_precedence_matrix() {
    let mut z = DnsZone::new("vmlab.internal");
    z.upstream = Some(upstream());

    // Nothing matches: forward (upstream set).
    assert_eq!(z.lookup("unknown.example.com"), DnsAnswer::Forward);

    // Wildcard.
    z.set_static("*.example.com", ip(1));
    assert_eq!(z.lookup("a.example.com"), DnsAnswer::A(ip(1)));
    // The wildcard does not match its own apex.
    assert_eq!(z.lookup("example.com"), DnsAnswer::Forward);
    // ...but matches deeper names.
    assert_eq!(z.lookup("x.y.example.com"), DnsAnswer::A(ip(1)));

    // Exact beats wildcard.
    let exact_id = z.set_static("a.example.com", ip(2));
    assert_eq!(z.lookup("a.example.com"), DnsAnswer::A(ip(2)));
    assert_eq!(z.lookup("b.example.com"), DnsAnswer::A(ip(1)));

    // Sinkhole beats exact.
    let sink_id = z.add_sinkhole("a.example.com", SinkholeMode::Nxdomain);
    assert_eq!(z.lookup("a.example.com"), DnsAnswer::Nxdomain);

    // Removing rules by id restores the lower-precedence answers.
    assert!(z.remove_rule(sink_id));
    assert_eq!(z.lookup("a.example.com"), DnsAnswer::A(ip(2)));
    assert!(z.remove_rule(exact_id));
    assert_eq!(z.lookup("a.example.com"), DnsAnswer::A(ip(1)));
    assert!(!z.remove_rule(9999));
}

#[test]
fn no_upstream_means_nxdomain() {
    let z = DnsZone::new("vmlab.internal");
    assert_eq!(z.lookup("whatever.example.com"), DnsAnswer::Nxdomain);
}

#[test]
fn sinkhole_most_specific_wins_then_declaration_order() {
    let mut z = DnsZone::new("vmlab.internal");
    z.add_sinkhole("*.example.com", SinkholeMode::Zero);
    z.add_sinkhole("*.telemetry.example.com", SinkholeMode::Nxdomain);
    assert_eq!(z.lookup("x.telemetry.example.com"), DnsAnswer::Nxdomain);
    assert_eq!(z.lookup("x.example.com"), DnsAnswer::Zero);
    // Exact sinkhole beats a same-label-count wildcard.
    z.add_sinkhole("x.example.com", SinkholeMode::Nxdomain);
    assert_eq!(z.lookup("x.example.com"), DnsAnswer::Nxdomain);

    // Equal specificity: first declared wins.
    let mut z2 = DnsZone::new("vmlab.internal");
    z2.add_sinkhole("*.tied.com", SinkholeMode::Zero);
    z2.add_sinkhole("*.tied.com", SinkholeMode::Nxdomain);
    assert_eq!(z2.lookup("a.tied.com"), DnsAnswer::Zero);
}

#[test]
fn case_insensitive_everywhere() {
    let mut z = DnsZone::new("VMLab.Internal");
    z.register("DC01.Ad-Lab", ip(10));
    z.add_sinkhole("*.Telemetry.Example.COM", SinkholeMode::Zero);
    assert_eq!(z.lookup("dc01.ad-lab.vmlab.internal"), DnsAnswer::A(ip(10)));
    assert_eq!(
        z.lookup("DC01.AD-LAB.VMLAB.INTERNAL."),
        DnsAnswer::A(ip(10))
    );
    assert_eq!(z.lookup("ping.TELEMETRY.example.com"), DnsAnswer::Zero);
}

// -- server / wire format ----------------------------------------------------

#[test]
fn hand_built_a_query_round_trip() {
    let server = DnsServer::new({
        let mut z = DnsZone::new("vmlab.internal");
        z.register("dc01.ad-lab", ip(10));
        z
    });
    // Hand-built query for "dc01.ad-lab.vmlab.internal" A IN, id 0x1234.
    let mut q = vec![0x12, 0x34, 0x01, 0x00, 0, 1, 0, 0, 0, 0, 0, 0];
    q.push(4);
    q.extend_from_slice(b"dc01");
    q.push(6);
    q.extend_from_slice(b"ad-lab");
    q.push(5);
    q.extend_from_slice(b"vmlab");
    q.push(8);
    q.extend_from_slice(b"internal");
    q.push(0);
    q.extend_from_slice(&[0, 1, 0, 1]); // A IN
    let udp = udp_build(CLIENT_IP, SERVER_IP, CLIENT_PORT, DNS_PORT, &q).unwrap();
    let ipp = ipv4_build(CLIENT_IP, SERVER_IP, IPPROTO_UDP, 64, &udp, 3).unwrap();
    let frame = eth_build(SERVER_MAC, CLIENT_MAC, ETHERTYPE_IPV4, &ipp);

    let DnsAction::Reply(reply) = server.handle(&frame) else {
        panic!("expected a reply");
    };
    let (id, rcode, ancount, answer) = parse_reply(&reply);
    assert_eq!(id, 0x1234);
    assert_eq!(rcode, RCODE_NOERROR);
    assert_eq!(ancount, 1);
    assert_eq!(answer, Some((QTYPE_A, ANSWER_TTL, ip(10))));
}

#[test]
fn nxdomain_reply_has_flags_and_no_answers() {
    let server = DnsServer::new(DnsZone::new("vmlab.internal"));
    let DnsAction::Reply(reply) =
        server.handle(&query_frame(7, "nope.vmlab.internal", QTYPE_A))
    else {
        panic!("expected a reply");
    };
    let (id, rcode, ancount, answer) = parse_reply(&reply);
    assert_eq!(id, 7);
    assert_eq!(rcode, RCODE_NXDOMAIN);
    assert_eq!(ancount, 0);
    assert!(answer.is_none());
}

#[test]
fn zero_sinkhole_answers_0000_nxdomain_sinkhole_refuses() {
    let mut z = DnsZone::new("vmlab.internal");
    z.add_sinkhole("*.ads.example.com", SinkholeMode::Zero);
    z.add_sinkhole("*.telemetry.example.com", SinkholeMode::Nxdomain);
    let server = DnsServer::new(z);

    let DnsAction::Reply(reply) = server.handle(&query_frame(1, "x.ads.example.com", QTYPE_A))
    else {
        panic!("expected a reply");
    };
    let (_, rcode, _, answer) = parse_reply(&reply);
    assert_eq!(rcode, RCODE_NOERROR);
    assert_eq!(answer, Some((QTYPE_A, ANSWER_TTL, Ipv4Addr::unspecified())));

    let DnsAction::Reply(reply) =
        server.handle(&query_frame(2, "x.telemetry.example.com", QTYPE_A))
    else {
        panic!("expected a reply");
    };
    let (_, rcode, ancount, _) = parse_reply(&reply);
    assert_eq!(rcode, RCODE_NXDOMAIN);
    assert_eq!(ancount, 0);
}

#[test]
fn aaaa_for_known_name_is_empty_noerror() {
    let mut z = DnsZone::new("vmlab.internal");
    z.register("web", ip(20));
    let server = DnsServer::new(z);
    let DnsAction::Reply(reply) =
        server.handle(&query_frame(3, "web.vmlab.internal", QTYPE_AAAA))
    else {
        panic!("expected a reply");
    };
    let (_, rcode, ancount, _) = parse_reply(&reply);
    assert_eq!(rcode, RCODE_NOERROR);
    assert_eq!(ancount, 0);
    // Unknown AAAA without upstream takes the A path: NXDOMAIN.
    let DnsAction::Reply(reply) =
        server.handle(&query_frame(4, "gone.vmlab.internal", QTYPE_AAAA))
    else {
        panic!("expected a reply");
    };
    let (_, rcode, _, _) = parse_reply(&reply);
    assert_eq!(rcode, RCODE_NXDOMAIN);
}

#[test]
fn any_query_answers_like_a() {
    let mut z = DnsZone::new("vmlab.internal");
    z.register("web", ip(20));
    let server = DnsServer::new(z);
    let DnsAction::Reply(reply) =
        server.handle(&query_frame(5, "web.vmlab.internal", QTYPE_ANY))
    else {
        panic!("expected a reply");
    };
    let (_, rcode, _, answer) = parse_reply(&reply);
    assert_eq!(rcode, RCODE_NOERROR);
    assert_eq!(answer, Some((QTYPE_A, ANSWER_TTL, ip(20))));
}

#[test]
fn other_qtypes_notimp_without_upstream_forward_with() {
    const QTYPE_MX: u16 = 15;
    let server = DnsServer::new(DnsZone::new("vmlab.internal"));
    let DnsAction::Reply(reply) = server.handle(&query_frame(6, "example.com", QTYPE_MX))
    else {
        panic!("expected a reply");
    };
    let (_, rcode, ancount, _) = parse_reply(&reply);
    assert_eq!(rcode, RCODE_NOTIMP);
    assert_eq!(ancount, 0);

    let mut z = DnsZone::new("vmlab.internal");
    z.upstream = Some(upstream());
    let server = DnsServer::new(z);
    let frame = query_frame(0xBEEF, "example.com", QTYPE_MX);
    match server.handle(&frame) {
        DnsAction::ForwardUpstream {
            upstream: u,
            query_id,
            raw_query,
            respond,
        } => {
            assert_eq!(u, upstream());
            assert_eq!(query_id, 0xBEEF);
            assert_eq!(raw_query, build_query(0xBEEF, "example.com", QTYPE_MX));
            assert_eq!(respond.client_mac, CLIENT_MAC);
            assert_eq!(respond.server_mac, SERVER_MAC);
            assert_eq!(respond.client_ip, CLIENT_IP);
            assert_eq!(respond.server_ip, SERVER_IP);
            assert_eq!(respond.client_port, CLIENT_PORT);
        }
        other => panic!("expected ForwardUpstream, got {other:?}"),
    }
    // Unknown A queries also forward when upstream is set.
    assert!(matches!(
        server.handle(&query_frame(8, "unknown.example.com", QTYPE_A)),
        DnsAction::ForwardUpstream { .. }
    ));
}

#[test]
fn respond_ctx_builds_client_frame() {
    let ctx = DnsRespondCtx {
        client_mac: CLIENT_MAC,
        server_mac: SERVER_MAC,
        client_ip: CLIENT_IP,
        server_ip: SERVER_IP,
        client_port: CLIENT_PORT,
    };
    let payload = build_response(
        &build_query(9, "x.example.com", QTYPE_A),
        12 + 15 + 4,
        0,
        None,
    );
    let frame = ctx.build_frame(&payload).unwrap();
    let (id, rcode, ancount, _) = parse_reply(&frame);
    assert_eq!(id, 9);
    assert_eq!(rcode, RCODE_NOERROR);
    assert_eq!(ancount, 0);
}

#[test]
fn ignores_non_dns_and_malformed() {
    let server = DnsServer::new(DnsZone::new("vmlab.internal"));
    // Wrong UDP port.
    let udp = udp_build(CLIENT_IP, SERVER_IP, 1000, 123, b"x").unwrap();
    let ipp = ipv4_build(CLIENT_IP, SERVER_IP, IPPROTO_UDP, 64, &udp, 1).unwrap();
    let f = eth_build(SERVER_MAC, CLIENT_MAC, ETHERTYPE_IPV4, &ipp);
    assert!(matches!(server.handle(&f), DnsAction::Ignore));
    // A DNS *response* (QR set) is ignored.
    let mut q = build_query(1, "a.b", QTYPE_A);
    q[2] |= 0x80;
    let udp = udp_build(CLIENT_IP, SERVER_IP, CLIENT_PORT, DNS_PORT, &q).unwrap();
    let ipp = ipv4_build(CLIENT_IP, SERVER_IP, IPPROTO_UDP, 64, &udp, 1).unwrap();
    let f = eth_build(SERVER_MAC, CLIENT_MAC, ETHERTYPE_IPV4, &ipp);
    assert!(matches!(server.handle(&f), DnsAction::Ignore));
    // Truncation sweep never panics.
    let f = query_frame(2, "sweep.example.com", QTYPE_A);
    for n in 0..f.len() {
        let _ = server.handle(&f[..n]);
    }
}

#[test]
fn encoded_name_is_read_back_in_lower_case() {
    let mut msg = vec![7u8, 7];
    msg.extend_from_slice(&encode_qname("Web.Lab.Internal"));
    msg.push(9);
    assert_eq!(parse_qname(&msg, 2), Some(("web.lab.internal".to_string(), 2 + 16 + 2)));
    assert_eq!(parse_qname(&msg, msg.len()), None);
    assert_eq!(parse_qname(&msg, msg.len() + 1), None);
}

/// Hostile qnames must never panic: label lengths running past the
/// packet, compression pointers, a maximal-size name (whose echoed
/// response would overflow the reply builders), and every single-byte
/// corruption of a valid query.
#[test]
fn hostile_qnames_never_panic() {
    let server = DnsServer::new(DnsZone::new("vmlab.internal"));

    let raw_frame = |msg: &[u8]| {
        let udp = udp_build(CLIENT_IP, SERVER_IP, CLIENT_PORT, DNS_PORT, msg).unwrap();
        let ipp = ipv4_build(CLIENT_IP, SERVER_IP, IPPROTO_UDP, 64, &udp, 5).unwrap();
        eth_build(SERVER_MAC, CLIENT_MAC, ETHERTYPE_IPV4, &ipp)
    };
    let header = |qd: u16| {
        let mut m = Vec::new();
        m.extend_from_slice(&7u16.to_be_bytes());
        m.extend_from_slice(&[0x01, 0x00]);
        m.extend_from_slice(&qd.to_be_bytes());
        m.extend_from_slice(&[0, 0, 0, 0, 0, 0]);
        m
    };

    // Label length claims 63 bytes but only 2 are present.
    let mut m = header(1);
    m.extend_from_slice(&[63, b'a', b'b']);
    assert!(matches!(server.handle(&raw_frame(&m)), DnsAction::Ignore));

    // Compression pointer in the question (unsupported → ignored).
    let mut m = header(1);
    m.extend_from_slice(&[0xC0, 0x0C, 0, QTYPE_A as u8, 0, QCLASS_IN as u8]);
    assert!(matches!(server.handle(&raw_frame(&m)), DnsAction::Ignore));

    // A maximal name: enough 63-byte labels to approach the UDP payload
    // limit. The echoed response would not fit an IPv4 packet; the server
    // must drop it (or answer with a frame that parses), never panic.
    let mut m = header(1);
    let big = 64_000 / 64;
    for _ in 0..big {
        m.push(63);
        m.extend_from_slice(&[b'x'; 63]);
    }
    m.push(0);
    m.extend_from_slice(&QTYPE_A.to_be_bytes());
    m.extend_from_slice(&QCLASS_IN.to_be_bytes());
    match server.handle(&raw_frame(&m)) {
        DnsAction::Reply(f) => {
            assert!(EthView::parse(&f).is_some());
        }
        DnsAction::ForwardUpstream { .. } | DnsAction::Ignore => {}
    }

    // Single-byte corruption sweep over a valid query.
    let good = query_frame(9, "corrupt.example.com", QTYPE_A);
    for i in 0..good.len() {
        let mut f = good.clone();
        f[i] ^= 0xFF;
        if let DnsAction::Reply(reply) = server.handle(&f) {
            assert!(EthView::parse(&reply).is_some());
        }
    }
}

#[test]
fn upstream_answers_are_told_by_their_id() {
    let query = [0xBE, 0xEF, 1, 0];
    assert!(accept_upstream_reply(&query, &[0xBE, 0xEF, 0x81, 0x80]));
    assert!(!accept_upstream_reply(&query, &[0xBE, 0xEE, 0x81, 0x80]));
    assert!(!accept_upstream_reply(&query, &[0xBE]));
    assert!(!accept_upstream_reply(&[], &[]));
}
