//! The NAT engine. A fake guest crafts frames into it and parses what comes
//! back; the tests play the host side.

use vmlab::net::addr::{Ipv4Addr, MacAddr};
use vmlab::net::engine::icmp::{SubprocessPinger, CACHE_TTL_MS};
use vmlab::net::engine::vtcp::{
    parse_mss, seq_le, Emit, Flow, FlowKey, Handshake, Segment, MAX_RETRIES, RTO_MS,
};
use vmlab::net::engine::{GuestUdpKey, NatAction, NatConfig, NatEngine, UDP_IDLE_MS};
use vmlab::net::frame::{
    eth_build, icmp_build, ipv4_build, tcp_build, udp_build, EthView, IcmpView, Ipv4View,
    TcpFields, TcpView, UdpView, ETHERTYPE_IPV4, ICMP_DEST_UNREACHABLE, ICMP_ECHO_REPLY,
    ICMP_ECHO_REQUEST, IPPROTO_ICMP, IPPROTO_TCP, IPPROTO_UDP, TCP_ACK, TCP_FIN, TCP_PSH, TCP_RST,
    TCP_SYN,
};

const GW_IP: Ipv4Addr = Ipv4Addr { bits: 0x0AD5_0001 };
const GW_MAC: MacAddr = MacAddr([0x02, 0xAA, 0, 0, 0, 0x01]);
const GUEST_IP: Ipv4Addr = Ipv4Addr { bits: 0x0AD5_000A };
const GUEST_MAC: MacAddr = MacAddr([0x02, 0xBB, 0, 0, 0, 0x10]);
const NOW: u64 = 5_000;

fn engine() -> NatEngine {
    NatEngine::new(NatConfig::new(GW_IP, GW_MAC))
}

/// A parsed engine→guest TCP frame.
struct GTcp {
    src: (Ipv4Addr, u16),
    dst: (Ipv4Addr, u16),
    seq: u32,
    ack: u32,
    flags: u8,
    options: Vec<u8>,
    payload: Vec<u8>,
}

/// A parsed engine→guest UDP frame.
struct GUdp {
    src: (Ipv4Addr, u16),
    dst: (Ipv4Addr, u16),
    payload: Vec<u8>,
}

fn tcp_of(f: &[u8]) -> GTcp {
    let eth = EthView::parse(f).expect("eth parses");
    assert_eq!(eth.src_mac(), GW_MAC, "frames are sourced from the gw mac");
    assert_eq!(eth.ethertype(), ETHERTYPE_IPV4);
    let ip = Ipv4View::parse(eth.payload()).expect("ipv4 parses");
    assert!(ip.checksum_valid(), "ip checksum");
    assert_eq!(ip.proto(), IPPROTO_TCP);
    let t = TcpView::parse(ip.payload()).expect("tcp parses");
    assert!(t.checksum_valid(ip.src(), ip.dst()), "tcp checksum");
    GTcp {
        src: (ip.src(), t.src_port()),
        dst: (ip.dst(), t.dst_port()),
        seq: t.seq(),
        ack: t.ack(),
        flags: t.flags(),
        options: t.options().to_vec(),
        payload: t.payload().to_vec(),
    }
}

fn udp_of(f: &[u8]) -> GUdp {
    let eth = EthView::parse(f).expect("eth parses");
    let ip = Ipv4View::parse(eth.payload()).expect("ipv4 parses");
    assert_eq!(ip.proto(), IPPROTO_UDP);
    let u = UdpView::parse(ip.payload()).expect("udp parses");
    assert!(u.checksum_valid(ip.src(), ip.dst()), "udp checksum");
    GUdp {
        src: (ip.src(), u.src_port()),
        dst: (ip.dst(), u.dst_port()),
        payload: u.payload().to_vec(),
    }
}

/// The frame by which a flow's segment reaches the guest.
fn emitted(engine: &mut NatEngine, flow: &Flow, e: &Emit) -> GTcp {
    let id = engine.next_ip_id();
    let packet = flow.packet(e, id).expect("segment fits");
    let mac = engine.guest_mac(flow.key.guest_ip);
    tcp_of(&engine.frame_to(mac, &packet))
}

/// Send one guest TCP segment into the engine.
#[allow(clippy::too_many_arguments)]
fn guest_tcp(
    engine: &mut NatEngine,
    sport: u16,
    dst: (Ipv4Addr, u16),
    seq: u32,
    ack: u32,
    flags: u8,
    payload: &[u8],
    options: &[u8],
) -> NatAction {
    let fields = TcpFields {
        src_port: sport,
        dst_port: dst.1,
        seq,
        ack,
        flags,
        window: 65535,
        options,
    };
    let seg = tcp_build(GUEST_IP, dst.0, fields, payload).unwrap();
    let pkt = ipv4_build(GUEST_IP, dst.0, IPPROTO_TCP, 64, &seg, 7).unwrap();
    let f = eth_build(GW_MAC, GUEST_MAC, ETHERTYPE_IPV4, &pkt);
    engine.handle_frame(&f, NOW)
}

/// Send a segment that has to reach its flow.
fn fed(action: NatAction, flow: &Flow) -> Segment {
    match action {
        NatAction::FeedTcp { key, seg } => {
            assert_eq!(key, flow.key);
            seg
        }
        other => panic!("expected the segment to reach its flow, got {other:?}"),
    }
}

fn guest_udp(
    engine: &mut NatEngine,
    sport: u16,
    dst: (Ipv4Addr, u16),
    payload: &[u8],
    now: u64,
) -> NatAction {
    let seg = udp_build(GUEST_IP, dst.0, sport, dst.1, payload).unwrap();
    let pkt = ipv4_build(GUEST_IP, dst.0, IPPROTO_UDP, 64, &seg, 8).unwrap();
    let f = eth_build(GW_MAC, GUEST_MAC, ETHERTYPE_IPV4, &pkt);
    engine.handle_frame(&f, now)
}

fn guest_icmp_echo(
    engine: &mut NatEngine,
    dst: Ipv4Addr,
    id: u16,
    body: &[u8],
    now: u64,
) -> NatAction {
    let m = icmp_build(
        ICMP_ECHO_REQUEST,
        0,
        [(id >> 8) as u8, id as u8, 0, 1],
        body,
    );
    let pkt = ipv4_build(GUEST_IP, dst, IPPROTO_ICMP, 64, &m, 9).unwrap();
    let f = eth_build(GW_MAC, GUEST_MAC, ETHERTYPE_IPV4, &pkt);
    engine.handle_frame(&f, now)
}

// -- vTCP passive (guest → world) ---------------------------------------------

#[test]
fn vtcp_passive_echo_roundtrip() {
    let dst = (Ipv4Addr::new(127, 0, 0, 1), 7007);
    let mut engine = engine();
    let sport = 40000;
    let isn = 1000u32;

    // SYN →
    let opened = guest_tcp(&mut engine, sport, dst, isn, 0, TCP_SYN, b"", &[2, 4, 0x05, 0xB4]);
    let NatAction::OpenTcp {
        key,
        guest_mac,
        seg,
    } = opened
    else {
        panic!("expected an open, got {opened:?}");
    };
    assert_eq!(guest_mac, GUEST_MAC);
    let mut flow = Flow::new(key, guest_mac, 1500, &seg, NOW);
    // ← SYN-ACK
    let e = flow.start_passive(NOW);
    let synack = emitted(&mut engine, &flow, &e);
    assert_eq!(synack.flags & (TCP_SYN | TCP_ACK), TCP_SYN | TCP_ACK);
    assert_eq!(synack.src, dst, "src is the original destination");
    assert_eq!(synack.dst, (GUEST_IP, sport));
    assert_eq!(synack.ack, isn.wrapping_add(1));
    // MSS clamp advertised: mtu(1500) - 40 = 1460.
    assert_eq!(&synack.options[..4], &[2, 4, 0x05, 0xB4]);
    let s_isn = synack.seq;

    // ACK → (established)
    let mut seq = isn + 1;
    let mut g_ack = s_isn.wrapping_add(1);
    let seg = fed(
        guest_tcp(&mut engine, sport, dst, seq, g_ack, TCP_ACK, b"", &[]),
        &flow,
    );
    assert!(matches!(
        flow.on_syn_received(&seg),
        Handshake::Established { emit: None }
    ));

    // data → ; ← ACK + ← echoed data
    let msg = b"hello vtcp";
    let seg = fed(
        guest_tcp(&mut engine, sport, dst, seq, g_ack, TCP_ACK | TCP_PSH, msg, &[]),
        &flow,
    );
    assert_eq!(flow.fresh(&seg), msg);
    let out = flow.on_segment(&seg, true, NOW);
    assert!(out.alive && !out.shutdown);
    seq += msg.len() as u32;
    let ack = emitted(&mut engine, &flow, &out.emit.expect("data is acked"));
    assert!(ack.payload.is_empty());
    assert_eq!(ack.ack, seq, "cumulative ack covers the data");
    assert!(flow.can_read());
    let (e, more) = flow.on_read(msg, NOW);
    assert!(more.is_none());
    let echoed = emitted(&mut engine, &flow, &e);
    assert_eq!(echoed.payload, msg, "echo payload");
    assert_eq!(echoed.seq, g_ack, "first data byte follows the syn-ack");
    g_ack = echoed.seq.wrapping_add(echoed.payload.len() as u32);
    let seg = fed(
        guest_tcp(&mut engine, sport, dst, seq, g_ack, TCP_ACK, b"", &[]),
        &flow,
    );
    assert!(flow.on_segment(&seg, true, NOW).alive);
    assert_eq!(flow.in_flight(), 0);

    // FIN → ; ← ACK of FIN; server closes → ← FIN; ACK → .
    let seg = fed(
        guest_tcp(&mut engine, sport, dst, seq, g_ack, TCP_ACK | TCP_FIN, b"", &[]),
        &flow,
    );
    let out = flow.on_segment(&seg, true, NOW);
    assert!(out.alive && out.shutdown);
    seq += 1;
    let ack = emitted(&mut engine, &flow, &out.emit.expect("fin is acked"));
    assert_eq!(ack.ack, seq);
    let e = flow.on_read_end(NOW);
    let fin = emitted(&mut engine, &flow, &e);
    assert_ne!(fin.flags & TCP_FIN, 0);
    assert_eq!(fin.seq, g_ack, "engine fin in sequence");
    g_ack = fin.seq.wrapping_add(1);
    let seg = fed(
        guest_tcp(&mut engine, sport, dst, seq, g_ack, TCP_ACK, b"", &[]),
        &flow,
    );
    let _ = flow.on_segment(&seg, true, NOW);
    assert!(flow.closed_both_ways());
}

#[test]
fn vtcp_rst_on_connect_refused() {
    let dst = (Ipv4Addr::new(127, 0, 0, 1), 9);
    let mut engine = engine();
    let opened = guest_tcp(&mut engine, 40001, dst, 5555, 0, TCP_SYN, b"", &[]);
    let NatAction::OpenTcp {
        key,
        guest_mac,
        seg,
    } = opened
    else {
        panic!("expected an open, got {opened:?}");
    };
    // The connection is refused: the flow is answered by a reset.
    let flow = Flow::new(key, guest_mac, 1500, &seg, NOW);
    let e = flow.reset();
    let t = emitted(&mut engine, &flow, &e);
    assert_ne!(t.flags & TCP_RST, 0, "refused connect resets the guest");
    assert_eq!(t.ack, 5556, "rst acks the syn");
    assert_eq!(t.src, dst);
    engine.remove_tcp_flow(key);
}

#[test]
fn vtcp_unknown_flow_gets_rst() {
    let mut engine = engine();
    let dst = (Ipv4Addr::new(192, 0, 2, 7), 80);
    // A naked ACK for a flow the engine has never seen.
    match guest_tcp(&mut engine, 40002, dst, 123, 9876, TCP_ACK, b"", &[]) {
        NatAction::Send(f) => {
            let t = tcp_of(&f);
            assert_ne!(t.flags & TCP_RST, 0);
            assert_eq!(t.seq, 9876, "rst seq taken from the segment's ack");
        }
        other => panic!("expected a reset, got {other:?}"),
    }
}

// -- UDP NAT ------------------------------------------------------------------

#[test]
fn udp_roundtrip_via_loopback_echo() {
    let dst = (Ipv4Addr::new(127, 0, 0, 1), 5007);
    let mut engine = engine();
    let first = guest_udp(&mut engine, 50000, dst, b"dns-ish query", NOW);
    let NatAction::ForwardUdp {
        key,
        guest_mac,
        payload,
        open,
    } = first
    else {
        panic!("expected a forward, got {first:?}");
    };
    assert!(open, "the first datagram opens a socket");
    engine.udp_used(key, NOW);
    // What the host echoes goes back from the original destination.
    let f = engine
        .send_udp_to_guest(guest_mac, dst, (GUEST_IP, 50000), &payload)
        .unwrap();
    let u = udp_of(&f);
    assert_eq!(u.src, dst, "reply translated back from the original dst");
    assert_eq!(u.dst, (GUEST_IP, 50000));
    assert_eq!(u.payload, b"dns-ish query");

    // Same flow again — the socket is reused.
    match guest_udp(&mut engine, 50000, dst, b"second", NOW) {
        NatAction::ForwardUdp { open, payload, .. } => {
            assert!(!open);
            assert_eq!(payload, b"second");
        }
        other => panic!("expected a forward, got {other:?}"),
    }
}

// -- active open (engine → guest) ---------------------------------------------

/// Complete the guest side of an engine-originated handshake; returns the
/// gateway endpoint and the guest's seq and ack, ready for data exchange.
fn guest_accept_active(
    engine: &mut NatEngine,
    flow: &mut Flow,
    guest_port: u16,
    guest_isn: u32,
) -> ((Ipv4Addr, u16), u32, u32) {
    let e = flow.start_active(NOW);
    let syn = emitted(engine, flow, &e);
    assert_eq!(syn.flags & (TCP_SYN | TCP_ACK), TCP_SYN);
    assert_eq!(
        syn.src.0, GW_IP,
        "active open originates from the gateway ip"
    );
    assert_eq!(syn.dst, (GUEST_IP, guest_port));
    let gw = syn.src;
    // SYN-ACK →
    let seg = fed(
        guest_tcp(
            engine,
            guest_port,
            gw,
            guest_isn,
            syn.seq.wrapping_add(1),
            TCP_SYN | TCP_ACK,
            b"",
            &[2, 4, 0x05, 0xB4],
        ),
        flow,
    );
    // ← ACK
    let Handshake::Established { emit: Some(e) } = flow.on_syn_sent(&seg) else {
        panic!("the handshake completes");
    };
    let ack = emitted(engine, flow, &e);
    assert_eq!(ack.flags & (TCP_SYN | TCP_ACK), TCP_ACK);
    assert_eq!(ack.ack, guest_isn.wrapping_add(1));
    (gw, guest_isn.wrapping_add(1), syn.seq.wrapping_add(1))
}

fn active_flow(engine: &mut NatEngine, port: u16) -> Flow {
    engine.learn_mac(GUEST_IP, GUEST_MAC);
    let key = engine
        .alloc_active_tcp_flow(GUEST_IP, port)
        .expect("a port is free");
    Flow::new_active(key, GUEST_MAC, 1500, NOW)
}

#[test]
fn active_open_handshake_and_data() {
    let mut engine = engine();
    let mut flow = active_flow(&mut engine, 8080);
    let (gw, mut g_seq, mut g_ack) = guest_accept_active(&mut engine, &mut flow, 8080, 70000);

    // Engine-side write surfaces as a data segment to the guest.
    let (e, _) = flow.on_read(b"ping", NOW);
    let data = emitted(&mut engine, &flow, &e);
    assert_eq!(data.payload, b"ping");
    assert_eq!(data.seq, g_ack);
    g_ack = g_ack.wrapping_add(4);
    let seg = fed(
        guest_tcp(&mut engine, 8080, gw, g_seq, g_ack, TCP_ACK, b"", &[]),
        &flow,
    );
    let _ = flow.on_segment(&seg, true, NOW);

    // Guest data surfaces on the host side.
    let seg = fed(
        guest_tcp(&mut engine, 8080, gw, g_seq, g_ack, TCP_ACK | TCP_PSH, b"pong", &[]),
        &flow,
    );
    assert_eq!(flow.fresh(&seg), b"pong");
    let out = flow.on_segment(&seg, true, NOW);
    g_seq = g_seq.wrapping_add(4);
    // And gets acked.
    let ack = emitted(&mut engine, &flow, &out.emit.unwrap());
    assert_eq!(ack.ack, g_seq);
}

#[test]
fn misplaced_data_is_acked_again() {
    let mut engine = engine();
    let mut flow = active_flow(&mut engine, 8083);
    let (gw, g_seq, g_ack) = guest_accept_active(&mut engine, &mut flow, 8083, 500);

    // Ahead of the stream: nothing is delivered, the expected number is told.
    let ahead = fed(
        guest_tcp(&mut engine, 8083, gw, g_seq + 4, g_ack, TCP_ACK, b"late", &[]),
        &flow,
    );
    assert!(flow.fresh(&ahead).is_empty());
    let out = flow.on_segment(&ahead, true, NOW);
    assert!(out.alive);
    assert_eq!(emitted(&mut engine, &flow, &out.emit.unwrap()).ack, g_seq);

    // In order, and then once more.
    let first = fed(
        guest_tcp(&mut engine, 8083, gw, g_seq, g_ack, TCP_ACK, b"data", &[]),
        &flow,
    );
    for expected in [b"data".as_slice(), b"".as_slice()] {
        assert_eq!(flow.fresh(&first), expected);
        let out = flow.on_segment(&first, true, NOW);
        assert_eq!(emitted(&mut engine, &flow, &out.emit.unwrap()).ack, g_seq + 4);
    }
}

#[test]
fn guests_are_learned_from_their_frames() {
    let mut engine = engine();
    assert_eq!(engine.guest_mac(GUEST_IP), MacAddr::broadcast());
    let _ = guest_udp(&mut engine, 50000, (Ipv4Addr::new(192, 0, 2, 1), 53), b"q", NOW);
    assert_eq!(engine.guest_mac(GUEST_IP), GUEST_MAC);
}

#[test]
fn active_open_rst_means_refused() {
    let mut engine = engine();
    let mut flow = active_flow(&mut engine, 81);
    let e = flow.start_active(NOW);
    let syn = emitted(&mut engine, &flow, &e);
    let seg = fed(
        guest_tcp(
            &mut engine,
            81,
            syn.src,
            0,
            syn.seq.wrapping_add(1),
            TCP_RST | TCP_ACK,
            b"",
            &[],
        ),
        &flow,
    );
    assert!(
        matches!(flow.on_syn_sent(&seg), Handshake::Dead { emit: None }),
        "guest RST fails the open"
    );
}

#[test]
fn retransmits_unacked_data_within_budget() {
    let mut engine = engine();
    let mut flow = active_flow(&mut engine, 8081);
    let (gw, g_seq, _) = guest_accept_active(&mut engine, &mut flow, 8081, 90000);

    let (e, _) = flow.on_read(b"lost?", NOW);
    let first = emitted(&mut engine, &flow, &e);
    assert_eq!(first.payload, b"lost?");

    // Don't ACK: the 1 s RTO must retransmit the same segment.
    let due = flow.rto_at.expect("a retransmission is due");
    assert_eq!(due, NOW + RTO_MS);
    let (alive, again) = flow.on_rto(due);
    assert!(alive);
    let retx = emitted(&mut engine, &flow, &again.unwrap());
    assert_eq!(retx.seq, first.seq, "same sequence number");
    assert_eq!(retx.payload, b"lost?", "same payload");

    // ACK it so the flow quiesces.
    let end = first.seq.wrapping_add(first.payload.len() as u32);
    let seg = fed(
        guest_tcp(&mut engine, 8081, gw, g_seq, end, TCP_ACK, b"", &[]),
        &flow,
    );
    let _ = flow.on_segment(&seg, true, due);
    assert_eq!(flow.in_flight(), 0);
}

#[test]
fn a_flow_gives_up_after_its_retries() {
    let mut engine = engine();
    let mut flow = active_flow(&mut engine, 8082);
    let _ = guest_accept_active(&mut engine, &mut flow, 8082, 1);
    let _ = flow.on_read(b"never acked", NOW);
    for _ in 0..MAX_RETRIES {
        assert!(flow.on_rto(NOW).0);
    }
    let (alive, last) = flow.on_rto(NOW);
    assert!(!alive);
    let e = last.unwrap();
    assert_ne!(emitted(&mut engine, &flow, &e).flags & TCP_RST, 0);
}

// -- port forwarding ----------------------------------------------------------

#[test]
fn tcp_port_forward_end_to_end() {
    let mut engine = engine();
    let mut flow = active_flow(&mut engine, 80);
    let (gw, mut g_seq, mut g_ack) = guest_accept_active(&mut engine, &mut flow, 80, 31337);
    // The client's request reaches the guest.
    let (e, _) = flow.on_read(b"GET /", NOW);
    let req = emitted(&mut engine, &flow, &e);
    assert_eq!(req.payload, b"GET /");
    g_ack = g_ack.wrapping_add(req.payload.len() as u32);
    let seg = fed(
        guest_tcp(&mut engine, 80, gw, g_seq, g_ack, TCP_ACK, b"", &[]),
        &flow,
    );
    let _ = flow.on_segment(&seg, true, NOW);
    // The guest's answer reaches the client.
    let seg = fed(
        guest_tcp(&mut engine, 80, gw, g_seq, g_ack, TCP_ACK | TCP_PSH, b"200 OK", &[]),
        &flow,
    );
    assert_eq!(flow.fresh(&seg), b"200 OK");
    let out = flow.on_segment(&seg, true, NOW);
    g_seq = g_seq.wrapping_add(6);
    assert_eq!(emitted(&mut engine, &flow, &out.emit.unwrap()).ack, g_seq);
}

#[test]
fn udp_port_forward_end_to_end() {
    let mut engine = engine();
    engine.learn_mac(GUEST_IP, GUEST_MAC);
    assert!(engine.udp_port_left(GUEST_IP, 53));
    let gw_port = engine.udp_bind_guest_flow(GUEST_IP, 53);

    // Guest sees the datagram from gw_ip:eph and answers it.
    let mac = engine.guest_mac(GUEST_IP);
    let f = engine
        .send_udp_to_guest(mac, (GW_IP, gw_port), (GUEST_IP, 53), b"query")
        .unwrap();
    let u = udp_of(&f);
    assert_eq!(u.src.0, GW_IP);
    assert_eq!(u.dst, (GUEST_IP, 53));
    assert_eq!(u.payload, b"query");
    match guest_udp(&mut engine, 53, u.src, b"answer", NOW) {
        NatAction::DeliverUdp { guest, payload } => {
            assert_eq!(
                guest,
                GuestUdpKey {
                    guest_ip: GUEST_IP,
                    guest_port: 53,
                    gw_port
                }
            );
            assert_eq!(payload, b"answer");
        }
        other => panic!("expected a delivery, got {other:?}"),
    }
}

// -- engine-originated UDP ----------------------------------------------------

#[test]
fn udp_bind_guest_flow_roundtrip() {
    let mut engine = engine();
    engine.learn_mac(GUEST_IP, GUEST_MAC);
    let gw_port = engine.udp_bind_guest_flow(GUEST_IP, 9999);
    let mac = engine.guest_mac(GUEST_IP);
    let f = engine
        .send_udp_to_guest(mac, (GW_IP, gw_port), (GUEST_IP, 9999), b"hi guest")
        .unwrap();
    let u = udp_of(&f);
    assert_eq!(u.src.0, GW_IP);
    assert_eq!(u.dst, (GUEST_IP, 9999));
    assert_eq!(u.payload, b"hi guest");

    // The guest replies to gw_ip:eph; it lands on the flow.
    match guest_udp(&mut engine, 9999, u.src, b"hi engine", NOW) {
        NatAction::DeliverUdp { payload, .. } => assert_eq!(payload, b"hi engine"),
        other => panic!("expected a delivery, got {other:?}"),
    }
    // Once it is torn down, nothing is delivered any more.
    engine.remove_guest_flow(GuestUdpKey {
        guest_ip: GUEST_IP,
        guest_port: 9999,
        gw_port,
    });
    assert!(!matches!(
        guest_udp(&mut engine, 9999, u.src, b"late", NOW),
        NatAction::DeliverUdp { .. }
    ));
}

#[test]
fn udp_to_guest_one_shot() {
    let mut engine = engine();
    engine.learn_mac(GUEST_IP, GUEST_MAC);
    let f = engine.udp_to_guest(GUEST_IP, 7000, b"beep").unwrap();
    let u = udp_of(&f);
    assert_eq!(u.src.0, GW_IP);
    assert_eq!(u.dst, (GUEST_IP, 7000));
    assert_eq!(u.payload, b"beep");
}

// -- ICMP ---------------------------------------------------------------------

#[test]
fn icmp_echo_reply_synthesized_and_cached() {
    let mut engine = engine();
    let dst = Ipv4Addr::new(192, 0, 2, 50);

    let asked = guest_icmp_echo(&mut engine, dst, 0xBEEF, b"payload-1", NOW);
    let NatAction::Probe {
        dst: probed,
        guest_mac,
        pkt,
    } = asked
    else {
        panic!("expected a probe, got {asked:?}");
    };
    assert_eq!(probed, dst);
    // While it is in flight, a further request is dropped.
    assert!(matches!(
        guest_icmp_echo(&mut engine, dst, 0xBEEF, b"payload-1", NOW),
        NatAction::Nothing
    ));
    let f = engine.probe_done(dst, true, guest_mac, &pkt, NOW).unwrap();
    let eth = EthView::parse(&f).unwrap();
    assert_eq!(eth.dst_mac(), GUEST_MAC);
    let ip = Ipv4View::parse(eth.payload()).unwrap();
    assert_eq!(ip.src(), dst, "reply appears to come from the pinged host");
    assert_eq!(ip.dst(), GUEST_IP);
    let icmp = IcmpView::parse(ip.payload()).unwrap();
    assert_eq!(icmp.icmp_type(), ICMP_ECHO_REPLY);
    assert!(icmp.checksum_valid());
    assert_eq!(icmp.rest(), [0xBE, 0xEF, 0, 1], "id/seq mirrored");
    assert_eq!(icmp.payload(), b"payload-1");

    // Second echo hits the 10 s cache: the reply comes without a probe.
    match guest_icmp_echo(&mut engine, dst, 0xBEEF, b"payload-2", NOW + CACHE_TTL_MS - 1) {
        NatAction::Send(f) => {
            let ip = Ipv4View::parse(EthView::parse(&f).unwrap().payload()).unwrap();
            let icmp = IcmpView::parse(ip.payload()).unwrap();
            assert_eq!(icmp.payload(), b"payload-2");
        }
        other => panic!("expected a cached reply, got {other:?}"),
    }
    // After that it is probed again.
    assert!(matches!(
        guest_icmp_echo(&mut engine, dst, 0xBEEF, b"payload-3", NOW + CACHE_TTL_MS),
        NatAction::Probe { .. }
    ));
}

#[test]
fn icmp_unreachable_when_probe_fails() {
    let mut engine = engine();
    let dst = Ipv4Addr::new(192, 0, 2, 51);
    let asked = guest_icmp_echo(&mut engine, dst, 7, b"x", NOW);
    let NatAction::Probe { guest_mac, pkt, .. } = asked else {
        panic!("expected a probe, got {asked:?}");
    };
    let f = engine.probe_done(dst, false, guest_mac, &pkt, NOW).unwrap();
    let ip = Ipv4View::parse(EthView::parse(&f).unwrap().payload()).unwrap();
    assert_eq!(ip.src(), GW_IP, "unreachable originates from the gateway");
    assert_eq!(ip.dst(), GUEST_IP);
    let icmp = IcmpView::parse(ip.payload()).unwrap();
    assert_eq!(icmp.icmp_type(), ICMP_DEST_UNREACHABLE);
    assert_eq!(icmp.code(), 1, "host unreachable");
    assert!(icmp.checksum_valid());
}

#[test]
fn icmp_echo_to_gateway_is_ignored() {
    // The gateway answers pings to itself elsewhere; the NAT engine must not
    // double-reply.
    let mut engine = engine();
    assert!(matches!(
        guest_icmp_echo(&mut engine, GW_IP, 1, b"x", NOW),
        NatAction::Nothing
    ));
}

#[test]
fn a_probe_is_one_ping_of_the_destination() {
    let args = SubprocessPinger::default().ping_args(Ipv4Addr::new(192, 0, 2, 50));
    assert_eq!(args, ["-c", "1", "-W", "1", "-n", "192.0.2.50"]);
}

// -- flow-table hygiene under churn -------------------------------------------

/// Many distinct guest flows fill the UDP table once each (repeat traffic
/// reuses the entry), and idle expiry drains it back to empty.
#[test]
fn udp_flow_table_reuses_entries_and_expires_idle_ones() {
    let mut engine = engine();
    let dst = (Ipv4Addr::new(127, 0, 0, 1), 5008);
    const FLOWS: u16 = 32;
    let mut keys: Vec<FlowKey> = Vec::new();
    for i in 0..FLOWS {
        match guest_udp(&mut engine, 20_000 + i, dst, b"hello", NOW) {
            NatAction::ForwardUdp { key, open, .. } => {
                assert!(open);
                assert!(!keys.contains(&key));
                engine.udp_used(key, NOW);
                keys.push(key);
            }
            other => panic!("expected a forward, got {other:?}"),
        }
    }
    // Repeat traffic on existing flows must reuse, not duplicate.
    for i in 0..FLOWS {
        match guest_udp(&mut engine, 20_000 + i, dst, b"again", NOW) {
            NatAction::ForwardUdp { key, open, .. } => {
                assert!(!open);
                assert!(keys.contains(&key));
            }
            other => panic!("expected a forward, got {other:?}"),
        }
    }
    // Within the idle window a flow stays, past it it goes.
    for key in &keys {
        assert!(!engine.udp_expire(*key, NOW + UDP_IDLE_MS - 1));
        assert!(engine.udp_expire(*key, NOW + UDP_IDLE_MS));
    }
    for i in 0..FLOWS {
        assert!(matches!(
            guest_udp(&mut engine, 20_000 + i, dst, b"later", NOW + UDP_IDLE_MS),
            NatAction::ForwardUdp { open: true, .. }
        ));
    }
}

// -- segments -----------------------------------------------------------------

#[test]
fn mss_option_parsing() {
    assert_eq!(parse_mss(&[2, 4, 0x05, 0xB4]), Some(1460));
    assert_eq!(parse_mss(&[1, 1, 2, 4, 0x21, 0x00]), Some(0x2100));
    assert_eq!(parse_mss(&[]), None);
    assert_eq!(parse_mss(&[0, 2, 4, 1, 1]), None, "EOL stops the scan");
    // Unknown option skipped (kind 3 = window scale, len 3).
    assert_eq!(parse_mss(&[3, 3, 7, 2, 4, 0x01, 0x00]), Some(256));
    // Malformed length never panics.
    assert_eq!(parse_mss(&[5, 0]), None);
    assert_eq!(parse_mss(&[2, 4]), None);
}

#[test]
fn seq_compare_wraps() {
    assert!(seq_le(1, 2));
    assert!(seq_le(2, 2));
    assert!(!seq_le(3, 2));
    assert!(seq_le(u32::MAX, 5), "wraparound");
    assert!(!seq_le(5, u32::MAX));
}
