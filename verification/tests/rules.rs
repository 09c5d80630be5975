//! Network rules: precedence, rewriting, and what a blocked packet is answered.

use vmlab::config::model::{BlockRule, HostPort, L4Proto, RedirectRule};
use vmlab::net::addr::Ipv4Addr;
use vmlab::net::cidr::Ipv4Net;
use vmlab::net::frame::{
    icmp_build, ipv4_build, tcp_build, udp_build, IcmpView, Ipv4View, TcpFields, TcpView, UdpView, ICMP_DEST_UNREACHABLE, ICMP_ECHO_REPLY, ICMP_ECHO_REQUEST, IPPROTO_ICMP, IPPROTO_TCP, IPPROTO_UDP, TCP_ACK, TCP_RST, TCP_SYN,
};
use vmlab::net::rules::{RuleKind, RuleSet, Verdict, CONN_IDLE_MS};

/// The clock does not move in these tests.
const NOW: u64 = 1_000;

const GUEST: Ipv4Addr = Ipv4Addr { bits: 0x0AD5_000A };
const DST_A: Ipv4Addr = Ipv4Addr { bits: 0xC000_0201 };
const DST_B: Ipv4Addr = Ipv4Addr { bits: 0xC000_0202 };
const TARGET: Ipv4Addr = Ipv4Addr { bits: 0x0AD5_0063 };

fn net(s: &str) -> Ipv4Net {
    Ipv4Net::parse(s).unwrap()
}

fn block(cidr: &str, proto: Option<L4Proto>, port: Option<u16>) -> BlockRule {
    BlockRule {
        cidr: net(cidr),
        proto,
        port,
        span: (0, 0),
    }
}

fn redirect(
    from: Ipv4Addr,
    from_port: Option<u16>,
    to: Ipv4Addr,
    to_port: Option<u16>,
    proto: Option<L4Proto>,
) -> RedirectRule {
    RedirectRule {
        from: HostPort {
            ip: from,
            port: from_port,
        },
        to: HostPort {
            ip: to,
            port: to_port,
        },
        proto,
        span: (0, 0),
    }
}

fn tcp_pkt(src: Ipv4Addr, dst: Ipv4Addr, sport: u16, dport: u16, flags: u8) -> Vec<u8> {
    let seg = tcp_build(
        src,
        dst,
        TcpFields {
            src_port: sport,
            dst_port: dport,
            seq: 1000,
            ack: 0,
            flags,
            window: 65535,
            options: &[],
        },
        b"",
    )
    .unwrap();
    ipv4_build(src, dst, IPPROTO_TCP, 64, &seg, 42).unwrap()
}

fn udp_pkt(src: Ipv4Addr, dst: Ipv4Addr, sport: u16, dport: u16, body: &[u8]) -> Vec<u8> {
    let seg = udp_build(src, dst, sport, dport, body).unwrap();
    ipv4_build(src, dst, IPPROTO_UDP, 64, &seg, 43).unwrap()
}

fn icmp_echo_pkt(src: Ipv4Addr, dst: Ipv4Addr, id: u16, reply: bool) -> Vec<u8> {
    let t = if reply {
        ICMP_ECHO_REPLY
    } else {
        ICMP_ECHO_REQUEST
    };
    let m = icmp_build(t, 0, [(id >> 8) as u8, id as u8, 0, 1], b"pingpayload");
    ipv4_build(src, dst, IPPROTO_ICMP, 64, &m, 44).unwrap()
}

fn assert_checksums_ok(pkt: &[u8]) {
    let ip = Ipv4View::parse(pkt).expect("rewritten packet parses");
    assert!(ip.checksum_valid(), "ip checksum");
    match ip.proto() {
        IPPROTO_TCP => {
            let t = TcpView::parse(ip.payload()).unwrap();
            assert!(t.checksum_valid(ip.src(), ip.dst()), "tcp checksum");
        }
        IPPROTO_UDP => {
            let u = UdpView::parse(ip.payload()).unwrap();
            assert!(u.checksum_valid(ip.src(), ip.dst()), "udp checksum");
        }
        IPPROTO_ICMP => {
            let i = IcmpView::parse(ip.payload()).unwrap();
            assert!(i.checksum_valid(), "icmp checksum");
        }
        _ => {}
    }
}

// --- pass-through & basics ---

#[test]
fn empty_ruleset_passes() {
    let mut rs = RuleSet::new();
    let p = tcp_pkt(GUEST, DST_A, 5000, 80, TCP_SYN);
    assert_eq!(rs.eval(&p, NOW), Verdict::Pass);
    assert_eq!(rs.eval_return(&p, NOW), Verdict::Pass);
    assert_eq!(rs.eval(b"garbage", NOW), Verdict::Pass);
}

#[test]
fn remove_restores_pass() {
    let mut rs = RuleSet::new();
    let id = rs.add_block(block("192.0.2.0/24", None, None));
    let p = tcp_pkt(GUEST, DST_A, 5000, 80, TCP_SYN);
    assert!(matches!(rs.eval(&p, NOW), Verdict::Drop { .. }));
    assert!(rs.remove(id));
    assert_eq!(rs.eval(&p, NOW), Verdict::Pass);
    assert!(!rs.remove(id), "double remove is false");

    let rid = rs.add_redirect(redirect(DST_A, None, TARGET, None, None));
    assert!(matches!(rs.eval(&p, NOW), Verdict::Rewrite(_)));
    assert!(rs.remove(rid));
    assert_eq!(rs.eval(&p, NOW), Verdict::Pass);
}

#[test]
fn list_describes_rules() {
    let mut rs = RuleSet::new();
    let b = rs.add_block(block("10.0.0.0/8", Some(L4Proto::Tcp), Some(445)));
    let r = rs.add_redirect(redirect(
        DST_A,
        Some(80),
        TARGET,
        Some(8080),
        Some(L4Proto::Tcp),
    ));
    let entries = rs.list();
    assert_eq!(entries.len(), 2);
    // Redirects listed first (evaluation order).
    assert_eq!(entries[0].id, r);
    assert_eq!(entries[0].kind, RuleKind::Redirect);
    assert_eq!(entries[0].from.as_deref(), Some("192.0.2.1:80"));
    assert_eq!(entries[0].to.as_deref(), Some("10.213.0.99:8080"));
    assert_eq!(
        entries[0].description,
        "redirect 192.0.2.1:80 -> 10.213.0.99:8080 tcp"
    );
    assert_eq!(entries[1].id, b);
    assert_eq!(entries[1].kind, RuleKind::Block);
    assert_eq!(entries[1].cidr.as_deref(), Some("10.0.0.0/8"));
    assert_eq!(entries[1].port, Some(445));
    assert_eq!(entries[1].description, "block 10.0.0.0/8 tcp port 445");
}

// --- precedence matrix ---

#[test]
fn redirect_beats_block() {
    let mut rs = RuleSet::new();
    rs.add_block(block("192.0.2.1/32", None, None));
    rs.add_redirect(redirect(DST_A, None, TARGET, None, None));
    let p = tcp_pkt(GUEST, DST_A, 5000, 80, TCP_SYN);
    match rs.eval(&p, NOW) {
        Verdict::Rewrite(out) => {
            assert_eq!(Ipv4View::parse(&out).unwrap().dst(), TARGET);
        }
        v => panic!("expected rewrite, got {v:?}"),
    }
}

#[test]
fn redirect_ip_port_beats_ip_only_regardless_of_order() {
    for flip in [false, true] {
        let mut rs = RuleSet::new();
        let general = redirect(DST_A, None, TARGET, None, None);
        let specific = redirect(DST_A, Some(80), DST_B, Some(8080), None);
        if flip {
            rs.add_redirect(general.clone());
            rs.add_redirect(specific.clone());
        } else {
            rs.add_redirect(specific);
            rs.add_redirect(general);
        }
        let p = tcp_pkt(GUEST, DST_A, 5000, 80, TCP_SYN);
        match rs.eval(&p, NOW) {
            Verdict::Rewrite(out) => {
                let ip = Ipv4View::parse(&out).unwrap();
                assert_eq!(ip.dst(), DST_B, "flip={flip}");
                let t = TcpView::parse(ip.payload()).unwrap();
                assert_eq!(t.dst_port(), 8080);
            }
            v => panic!("expected rewrite, got {v:?}"),
        }
        // Port 443 only matches the ip-only rule.
        let p = tcp_pkt(GUEST, DST_A, 5000, 443, TCP_SYN);
        match rs.eval(&p, NOW) {
            Verdict::Rewrite(out) => {
                let ip = Ipv4View::parse(&out).unwrap();
                assert_eq!(ip.dst(), TARGET);
                // Port preserved when `to` has no port.
                assert_eq!(TcpView::parse(ip.payload()).unwrap().dst_port(), 443);
            }
            v => panic!("expected rewrite, got {v:?}"),
        }
    }
}

#[test]
fn redirect_tie_broken_by_insertion_order() {
    let mut rs = RuleSet::new();
    rs.add_redirect(redirect(DST_A, Some(80), TARGET, Some(1111), None));
    rs.add_redirect(redirect(DST_A, Some(80), TARGET, Some(2222), None));
    let p = tcp_pkt(GUEST, DST_A, 5000, 80, TCP_SYN);
    match rs.eval(&p, NOW) {
        Verdict::Rewrite(out) => {
            let ip = Ipv4View::parse(&out).unwrap();
            assert_eq!(TcpView::parse(ip.payload()).unwrap().dst_port(), 1111);
        }
        v => panic!("expected rewrite, got {v:?}"),
    }
}

#[test]
fn block_longest_prefix_wins() {
    let mut rs = RuleSet::new();
    rs.add_block(block("192.0.2.0/24", Some(L4Proto::Udp), None));
    rs.add_block(block("192.0.2.1/32", Some(L4Proto::Tcp), None));
    // TCP to .1 → matches only the /32 (the /24 is udp-only).
    let p = tcp_pkt(GUEST, DST_A, 5000, 80, TCP_SYN);
    assert!(matches!(rs.eval(&p, NOW), Verdict::Drop { .. }));
    // TCP to .2 → no rule matches (the /24 is udp-only).
    let p = tcp_pkt(GUEST, DST_B, 5000, 80, TCP_SYN);
    assert_eq!(rs.eval(&p, NOW), Verdict::Pass);
}

#[test]
fn block_specificity_port_beats_proto_beats_bare() {
    // All three match; longest prefix is equal so with-port wins.
    let mut rs = RuleSet::new();
    rs.add_block(block("192.0.2.0/24", None, None));
    rs.add_block(block("192.0.2.0/24", Some(L4Proto::Tcp), None));
    rs.add_block(block("192.0.2.0/24", None, Some(80)));
    let p = tcp_pkt(GUEST, DST_A, 5000, 80, TCP_SYN);
    assert!(matches!(rs.eval(&p, NOW), Verdict::Drop { .. }));

    let mut rs = RuleSet::new();
    rs.add_block(block("192.0.2.0/24", Some(L4Proto::Tcp), Some(80)));
    rs.add_block(block("192.0.2.1/32", None, None));
    // UDP to .1: only the /32 bare rule can match — longest prefix path.
    let p = udp_pkt(GUEST, DST_A, 5000, 53, b"q");
    assert!(matches!(rs.eval(&p, NOW), Verdict::Drop { .. }));
}

#[test]
fn block_port_and_proto_filters() {
    let mut rs = RuleSet::new();
    rs.add_block(block("192.0.2.0/24", Some(L4Proto::Tcp), Some(445)));
    // Wrong port passes.
    let p = tcp_pkt(GUEST, DST_A, 5000, 80, TCP_SYN);
    assert_eq!(rs.eval(&p, NOW), Verdict::Pass);
    // Wrong proto passes.
    let p = udp_pkt(GUEST, DST_A, 5000, 445, b"x");
    assert_eq!(rs.eval(&p, NOW), Verdict::Pass);
    // Exact match drops.
    let p = tcp_pkt(GUEST, DST_A, 5000, 445, TCP_SYN);
    assert!(matches!(rs.eval(&p, NOW), Verdict::Drop { .. }));
    // A port-bearing rule can never match a portless protocol.
    let p = icmp_echo_pkt(GUEST, DST_A, 7, false);
    assert_eq!(rs.eval(&p, NOW), Verdict::Pass);
}

// --- DNAT rewrite correctness ---

#[test]
fn dnat_tcp_rewrite_checksums_valid() {
    let mut rs = RuleSet::new();
    rs.add_redirect(redirect(
        DST_A,
        Some(80),
        TARGET,
        Some(8080),
        Some(L4Proto::Tcp),
    ));
    let p = tcp_pkt(GUEST, DST_A, 5000, 80, TCP_SYN);
    let Verdict::Rewrite(out) = rs.eval(&p, NOW) else {
        panic!("expected rewrite");
    };
    let ip = Ipv4View::parse(&out).unwrap();
    assert_eq!(ip.src(), GUEST);
    assert_eq!(ip.dst(), TARGET);
    let t = TcpView::parse(ip.payload()).unwrap();
    assert_eq!(t.src_port(), 5000);
    assert_eq!(t.dst_port(), 8080);
    assert_eq!(t.seq(), 1000);
    assert_checksums_ok(&out);
}

#[test]
fn dnat_udp_rewrite_checksums_valid() {
    let mut rs = RuleSet::new();
    rs.add_redirect(redirect(DST_A, None, TARGET, Some(5353), None));
    let p = udp_pkt(GUEST, DST_A, 4000, 53, b"dns query");
    let Verdict::Rewrite(out) = rs.eval(&p, NOW) else {
        panic!("expected rewrite");
    };
    let ip = Ipv4View::parse(&out).unwrap();
    assert_eq!(ip.dst(), TARGET);
    let u = UdpView::parse(ip.payload()).unwrap();
    assert_eq!(u.dst_port(), 5353);
    assert_eq!(u.payload(), b"dns query");
    assert_checksums_ok(&out);
}

#[test]
fn dnat_udp_zero_checksum_stays_zero() {
    let mut rs = RuleSet::new();
    rs.add_redirect(redirect(DST_A, None, TARGET, None, None));
    let mut p = udp_pkt(GUEST, DST_A, 4000, 53, b"q");
    let hl = Ipv4View::parse(&p).unwrap().header_len();
    p[hl + 6..hl + 8].copy_from_slice(&[0, 0]); // opt out of udp checksum
    let Verdict::Rewrite(out) = rs.eval(&p, NOW) else {
        panic!("expected rewrite");
    };
    let ip = Ipv4View::parse(&out).unwrap();
    assert!(ip.checksum_valid());
    assert_eq!(UdpView::parse(ip.payload()).unwrap().checksum(), 0);
}

#[test]
fn dnat_sheds_ethernet_padding() {
    let mut rs = RuleSet::new();
    rs.add_redirect(redirect(DST_A, None, TARGET, None, None));
    let mut p = udp_pkt(GUEST, DST_A, 4000, 53, b"q");
    let total = p.len();
    p.extend_from_slice(&[0u8; 14]); // simulated eth min-frame padding
    let Verdict::Rewrite(out) = rs.eval(&p, NOW) else {
        panic!("expected rewrite");
    };
    assert_eq!(out.len(), total);
    assert_checksums_ok(&out);
}

#[test]
fn dnat_icmp_echo() {
    let mut rs = RuleSet::new();
    rs.add_redirect(redirect(DST_A, None, TARGET, None, None));
    let p = icmp_echo_pkt(GUEST, DST_A, 0x1234, false);
    let Verdict::Rewrite(out) = rs.eval(&p, NOW) else {
        panic!("expected rewrite");
    };
    let ip = Ipv4View::parse(&out).unwrap();
    assert_eq!(ip.dst(), TARGET);
    assert_checksums_ok(&out);
}

// --- return traffic ---

#[test]
fn return_traffic_rewritten_tcp() {
    let mut rs = RuleSet::new();
    rs.add_redirect(redirect(DST_A, Some(80), TARGET, Some(8080), None));
    let p = tcp_pkt(GUEST, DST_A, 5000, 80, TCP_SYN);
    assert!(matches!(rs.eval(&p, NOW), Verdict::Rewrite(_)));
    assert_eq!(rs.conn_count(), 1);

    // Reply from the redirect target.
    let reply = tcp_pkt(TARGET, GUEST, 8080, 5000, TCP_SYN | TCP_ACK);
    let Verdict::Rewrite(out) = rs.eval_return(&reply, NOW) else {
        panic!("expected return rewrite");
    };
    let ip = Ipv4View::parse(&out).unwrap();
    assert_eq!(ip.src(), DST_A, "source restored to original dst");
    assert_eq!(ip.dst(), GUEST);
    let t = TcpView::parse(ip.payload()).unwrap();
    assert_eq!(t.src_port(), 80, "source port restored");
    assert_eq!(t.dst_port(), 5000);
    assert_checksums_ok(&out);

    // Unrelated traffic from the target passes untouched.
    let other = tcp_pkt(TARGET, GUEST, 9999, 5000, TCP_ACK);
    assert_eq!(rs.eval_return(&other, NOW), Verdict::Pass);
}

#[test]
fn return_traffic_outlives_the_redirect() {
    let mut rs = RuleSet::new();
    let id = rs.add_redirect(redirect(DST_A, Some(80), TARGET, Some(8080), None));
    let p = tcp_pkt(GUEST, DST_A, 5000, 80, TCP_SYN);
    assert!(matches!(rs.eval(&p, NOW), Verdict::Rewrite(_)));
    let reply = tcp_pkt(TARGET, GUEST, 8080, 5000, TCP_SYN | TCP_ACK);
    let before = rs.eval_return(&reply, NOW);
    assert!(rs.remove(id));
    assert_eq!(rs.eval(&p, NOW), Verdict::Pass, "no new rewrites");
    assert_eq!(rs.eval_return(&reply, NOW), before);
}

#[test]
fn return_traffic_of_an_idle_entry_passes() {
    let mut rs = RuleSet::new();
    rs.add_redirect(redirect(DST_A, Some(80), TARGET, Some(8080), None));
    let p = tcp_pkt(GUEST, DST_A, 5000, 80, TCP_SYN);
    assert!(matches!(rs.eval(&p, NOW), Verdict::Rewrite(_)));
    let reply = tcp_pkt(TARGET, GUEST, 8080, 5000, TCP_ACK);
    // Each reply keeps the entry, until none has come for the whole idle time.
    let last = NOW + CONN_IDLE_MS - 1;
    assert!(matches!(rs.eval_return(&reply, last), Verdict::Rewrite(_)));
    assert_eq!(rs.eval_return(&reply, last + CONN_IDLE_MS), Verdict::Pass);
    assert_eq!(rs.eval_return(&reply, last + CONN_IDLE_MS + 1), Verdict::Pass);
}

#[test]
fn return_traffic_rewritten_udp_and_icmp() {
    let mut rs = RuleSet::new();
    rs.add_redirect(redirect(DST_A, None, TARGET, None, None));

    let p = udp_pkt(GUEST, DST_A, 4000, 53, b"q");
    assert!(matches!(rs.eval(&p, NOW), Verdict::Rewrite(_)));
    let reply = udp_pkt(TARGET, GUEST, 53, 4000, b"a");
    let Verdict::Rewrite(out) = rs.eval_return(&reply, NOW) else {
        panic!("expected udp return rewrite");
    };
    assert_eq!(Ipv4View::parse(&out).unwrap().src(), DST_A);
    assert_checksums_ok(&out);

    let p = icmp_echo_pkt(GUEST, DST_A, 0x42, false);
    assert!(matches!(rs.eval(&p, NOW), Verdict::Rewrite(_)));
    let reply = icmp_echo_pkt(TARGET, GUEST, 0x42, true);
    let Verdict::Rewrite(out) = rs.eval_return(&reply, NOW) else {
        panic!("expected icmp return rewrite");
    };
    assert_eq!(Ipv4View::parse(&out).unwrap().src(), DST_A);
    assert_checksums_ok(&out);
    // Wrong echo id passes.
    let reply = icmp_echo_pkt(TARGET, GUEST, 0x43, true);
    assert_eq!(rs.eval_return(&reply, NOW), Verdict::Pass);
}

// --- block reply shape ---

#[test]
fn block_tcp_syn_gets_rst_ack() {
    let mut rs = RuleSet::new();
    rs.add_block(block("192.0.2.0/24", None, None));
    let p = tcp_pkt(GUEST, DST_A, 5000, 80, TCP_SYN);
    let Verdict::Drop { reply: Some(r) } = rs.eval(&p, NOW) else {
        panic!("expected drop with reply");
    };
    let ip = Ipv4View::parse(&r).unwrap();
    assert_eq!(ip.src(), DST_A);
    assert_eq!(ip.dst(), GUEST);
    let t = TcpView::parse(ip.payload()).unwrap();
    assert!(t.is_rst() && t.is_ack());
    assert_eq!(t.src_port(), 80);
    assert_eq!(t.dst_port(), 5000);
    // SYN with seq 1000 and no payload → ack = 1001.
    assert_eq!(t.ack(), 1001);
    assert_eq!(t.seq(), 0);
    assert_checksums_ok(&r);
}

#[test]
fn block_tcp_ack_gets_rst_at_ack() {
    let mut rs = RuleSet::new();
    rs.add_block(block("192.0.2.0/24", None, None));
    let seg = tcp_build(
        GUEST,
        DST_A,
        TcpFields {
            src_port: 5000,
            dst_port: 80,
            seq: 1000,
            ack: 7777,
            flags: TCP_ACK,
            window: 65535,
            options: &[],
        },
        b"data",
    )
    .unwrap();
    let p = ipv4_build(GUEST, DST_A, IPPROTO_TCP, 64, &seg, 1).unwrap();
    let Verdict::Drop { reply: Some(r) } = rs.eval(&p, NOW) else {
        panic!("expected drop with reply");
    };
    let t = TcpView::parse(Ipv4View::parse(&r).unwrap().payload()).unwrap();
    assert!(t.is_rst() && !t.is_ack());
    assert_eq!(t.seq(), 7777, "rst seq taken from incoming ack");
}

#[test]
fn block_does_not_answer_rst() {
    let mut rs = RuleSet::new();
    rs.add_block(block("192.0.2.0/24", None, None));
    let p = tcp_pkt(GUEST, DST_A, 5000, 80, TCP_RST);
    assert_eq!(rs.eval(&p, NOW), Verdict::Drop { reply: None });
}

#[test]
fn block_udp_gets_port_unreachable() {
    let mut rs = RuleSet::new();
    rs.add_block(block("192.0.2.0/24", None, None));
    let p = udp_pkt(GUEST, DST_A, 5000, 53, b"query");
    let Verdict::Drop { reply: Some(r) } = rs.eval(&p, NOW) else {
        panic!("expected drop with reply");
    };
    let ip = Ipv4View::parse(&r).unwrap();
    assert_eq!(ip.src(), DST_A);
    assert_eq!(ip.dst(), GUEST);
    assert_eq!(ip.proto(), IPPROTO_ICMP);
    let i = IcmpView::parse(ip.payload()).unwrap();
    assert_eq!(i.icmp_type(), ICMP_DEST_UNREACHABLE);
    assert_eq!(i.code(), 3, "port unreachable");
    // Quotes the original IP header + 8 bytes.
    assert_eq!(&i.payload()[..20], &p[..20]);
    assert_checksums_ok(&r);
}

#[test]
fn block_icmp_gets_host_unreachable() {
    let mut rs = RuleSet::new();
    rs.add_block(block("192.0.2.0/24", Some(L4Proto::Icmp), None));
    let p = icmp_echo_pkt(GUEST, DST_A, 9, false);
    let Verdict::Drop { reply: Some(r) } = rs.eval(&p, NOW) else {
        panic!("expected drop with reply");
    };
    let ip = Ipv4View::parse(&r).unwrap();
    let i = IcmpView::parse(ip.payload()).unwrap();
    assert_eq!(i.icmp_type(), ICMP_DEST_UNREACHABLE);
    assert_eq!(i.code(), 1, "host unreachable");
    assert_checksums_ok(&r);
}
