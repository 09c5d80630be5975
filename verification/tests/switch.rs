//! The segment switch: learning, flooding, isolation and hooks.

use std::collections::VecDeque;

use vmlab::net::addr::MacAddr;
use vmlab::net::frame::{eth_build, ETHERTYPE_IPV4};
use vmlab::net::framing::{read_frame, write_frame, ReadStep};
use vmlab::net::switch::{delivery_allowed, Delivery, HookAction, PortClass, PortId, Switch, SwitchStats};

fn mac(n: u8) -> MacAddr {
    MacAddr([0x02, 0x00, 0x00, 0x00, 0x00, n])
}

fn frame(dst: MacAddr, src: MacAddr, tag: &[u8]) -> Vec<u8> {
    eth_build(dst, src, ETHERTYPE_IPV4, tag)
}

const GUEST: PortClass = PortClass::Guest { isolated: false };
const GUEST_ISOLATED: PortClass = PortClass::Guest { isolated: true };

/// How many frames wait for a port before more are dropped.
const QUEUE: usize = 512;

/// A switch whose ports are queues.
struct Net {
    sw: Switch,
    queues: Vec<(PortId, VecDeque<Vec<u8>>)>,
}

impl Net {
    fn new() -> Net {
        Net {
            sw: Switch::new(),
            queues: Vec::new(),
        }
    }

    fn add(&mut self, class: PortClass) -> PortId {
        let id = self.sw.add_port(class);
        self.queues.push((id, VecDeque::new()));
        id
    }

    fn remove(&mut self, id: PortId) {
        self.sw.remove_port(id);
        self.queues.retain(|q| q.0 != id);
    }

    fn put(&mut self, to: PortId, f: &[u8]) -> bool {
        match self.queues.iter_mut().find(|q| q.0 == to) {
            Some(q) if q.1.len() < QUEUE => {
                q.1.push_back(f.to_vec());
                true
            }
            _ => false,
        }
    }

    fn send_with(&mut self, from: PortId, f: Vec<u8>, action: HookAction) {
        let plan = self.sw.ingress(from, f, action);
        let mut failed = 0;
        for r in &plan.replies {
            if !self.put(from, r) {
                failed += 1;
            }
        }
        self.sw.settle_replies(failed);
        match plan.delivery {
            Delivery::Nothing => {}
            Delivery::Unicast { to, frame } => {
                let ok = self.put(to, &frame);
                self.sw.settle_unicast(ok);
            }
            Delivery::Flood { ports, frame } => {
                let mut delivered = 0;
                let mut failed = 0;
                for p in ports {
                    if self.put(p, &frame) {
                        delivered += 1;
                    } else {
                        failed += 1;
                    }
                }
                self.sw.settle_flood(delivered, failed);
            }
        }
    }

    fn send(&mut self, from: PortId, f: Vec<u8>) {
        self.send_with(from, f, HookAction::Pass);
    }

    fn recv(&mut self, port: PortId) -> Option<Vec<u8>> {
        self.queues
            .iter_mut()
            .find(|q| q.0 == port)
            .and_then(|q| q.1.pop_front())
    }

    fn stats(&self) -> SwitchStats {
        self.sw.stats()
    }
}

#[test]
fn flood_then_unicast_after_learning() {
    let mut n = Net::new();
    let a = n.add(GUEST);
    let b = n.add(GUEST);
    let c = n.add(GUEST);

    // A -> B before B's MAC is known: flooded to B and C.
    let f1 = frame(mac(2), mac(1), b"a2b");
    n.send(a, f1.clone());
    assert_eq!(n.recv(b), Some(f1.clone()));
    assert_eq!(n.recv(c), Some(f1));
    let s = n.stats();
    assert_eq!(s.frames_flooded, 1);
    assert_eq!(s.frames_forwarded, 0);

    // B -> A: A's MAC was learned from the first frame, so unicast.
    let f2 = frame(mac(1), mac(2), b"b2a");
    n.send(b, f2.clone());
    assert_eq!(n.recv(a), Some(f2));
    assert_eq!(n.recv(c), None);
    let s = n.stats();
    assert_eq!(s.frames_forwarded, 1);
    assert_eq!(s.frames_flooded, 1);

    // A -> B is now unicast too.
    let f3 = frame(mac(2), mac(1), b"a2b again");
    n.send(a, f3.clone());
    assert_eq!(n.recv(b), Some(f3));
    assert_eq!(n.recv(c), None);
    assert_eq!(n.stats().frames_forwarded, 2);
}

#[test]
fn broadcast_floods_all_three_ports() {
    let mut n = Net::new();
    let a = n.add(GUEST);
    let b = n.add(GUEST);
    let c = n.add(GUEST);
    let d = n.add(GUEST);

    let f = frame(MacAddr::broadcast(), mac(1), b"bcast");
    n.send(a, f.clone());
    assert_eq!(n.recv(b), Some(f.clone()));
    assert_eq!(n.recv(c), Some(f.clone()));
    assert_eq!(n.recv(d), Some(f));
    assert_eq!(n.recv(a), None); // never echo to ingress
    assert_eq!(n.stats().frames_flooded, 1);
}

#[test]
fn never_echoes_to_ingress_even_for_own_mac() {
    let mut n = Net::new();
    let a = n.add(GUEST);
    let b = n.add(GUEST);

    // Teach the switch A's MAC, then have A address itself.
    n.send(a, frame(MacAddr::broadcast(), mac(1), b"hello"));
    assert!(n.recv(b).is_some());
    n.send(a, frame(mac(1), mac(1), b"to self"));
    assert_eq!(n.recv(a), None);
    assert_eq!(n.recv(b), None);
    assert_eq!(n.stats().frames_dropped, 1);
}

#[test]
fn isolation_is_mutual() {
    let all = [GUEST, GUEST_ISOLATED, PortClass::Service];
    for a in all {
        for b in all {
            assert_eq!(delivery_allowed(&a, &b), delivery_allowed(&b, &a));
        }
        assert!(delivery_allowed(&a, &PortClass::Service));
        assert_eq!(delivery_allowed(&GUEST_ISOLATED, &a), a == PortClass::Service);
    }
    assert!(delivery_allowed(&GUEST, &GUEST));
}

#[test]
fn isolation_matrix() {
    let mut n = Net::new();
    let gi = n.add(GUEST_ISOLATED);
    let g = n.add(GUEST);
    let s = n.add(PortClass::Service);
    let (m_gi, m_g, m_s) = (mac(1), mac(2), mac(3));

    // Isolated guest broadcasts: only the service port hears it.
    let f = frame(MacAddr::broadcast(), m_gi, b"from gi");
    n.send(gi, f.clone());
    assert_eq!(n.recv(s), Some(f));
    assert_eq!(n.recv(g), None);

    // Plain guest broadcasts: service hears it, isolated guest does not.
    let f = frame(MacAddr::broadcast(), m_g, b"from g");
    n.send(g, f.clone());
    assert_eq!(n.recv(s), Some(f));
    assert_eq!(n.recv(gi), None);

    // Service broadcasts: everyone hears it.
    let f = frame(MacAddr::broadcast(), m_s, b"from s");
    n.send(s, f.clone());
    assert_eq!(n.recv(gi), Some(f.clone()));
    assert_eq!(n.recv(g), Some(f));

    // All MACs are now learned. Unicast checks both directions:
    let dropped_before = n.stats().frames_dropped;
    // isolated guest -> guest: blocked.
    n.send(gi, frame(m_g, m_gi, b"gi2g"));
    assert_eq!(n.recv(g), None);
    // guest -> isolated guest: blocked.
    n.send(g, frame(m_gi, m_g, b"g2gi"));
    assert_eq!(n.recv(gi), None);
    assert_eq!(n.stats().frames_dropped, dropped_before + 2);
    // isolated guest -> service: unicast passes.
    let f = frame(m_s, m_gi, b"gi2s");
    n.send(gi, f.clone());
    assert_eq!(n.recv(s), Some(f));
    // service -> isolated guest: unicast passes.
    let f = frame(m_gi, m_s, b"s2gi");
    n.send(s, f.clone());
    assert_eq!(n.recv(gi), Some(f));
    // guest -> guest unaffected requires a second plain guest.
    let g2 = n.add(GUEST);
    let f = frame(MacAddr::broadcast(), mac(4), b"from g2");
    n.send(g2, f.clone());
    assert_eq!(n.recv(g), Some(f));
    let f = frame(mac(4), m_g, b"g2g2");
    n.send(g, f.clone());
    assert_eq!(n.recv(g2), Some(f));
}

#[test]
fn hook_drop_blocks_forwarding() {
    let mut n = Net::new();
    let a = n.add(GUEST);
    let b = n.add(GUEST);
    n.send_with(a, frame(MacAddr::broadcast(), mac(1), b"doomed"), HookAction::Drop);
    assert_eq!(n.recv(b), None);
    assert_eq!(n.stats().frames_dropped, 1);
    assert_eq!(n.stats().frames_flooded, 0);
}

#[test]
fn hook_replace_forwards_modified_frame() {
    let mut n = Net::new();
    let a = n.add(GUEST);
    let b = n.add(GUEST);
    let replacement = frame(MacAddr::broadcast(), mac(9), b"rewritten");
    n.send_with(
        a,
        frame(MacAddr::broadcast(), mac(1), b"original"),
        HookAction::Replace(replacement.clone()),
    );
    assert_eq!(n.recv(b), Some(replacement));
}

#[test]
fn hook_inject_replies_out_ingress_without_forwarding() {
    let mut n = Net::new();
    let a = n.add(GUEST);
    let b = n.add(GUEST);
    let reply = frame(mac(1), mac(9), b"synthesised reply");
    n.send_with(
        a,
        frame(MacAddr::broadcast(), mac(1), b"probe"),
        HookAction::Inject {
            forward: None,
            reply: vec![reply.clone()],
        },
    );
    // Reply comes back out the ingress port; nothing reaches B.
    assert_eq!(n.recv(a), Some(reply));
    assert_eq!(n.recv(b), None);
}

#[test]
fn hook_inject_can_also_forward() {
    let mut n = Net::new();
    let a = n.add(GUEST);
    let b = n.add(GUEST);
    let reply = frame(mac(1), mac(9), b"reply");
    let forwarded = frame(MacAddr::broadcast(), mac(1), b"mutated");
    n.send_with(
        a,
        frame(MacAddr::broadcast(), mac(1), b"probe"),
        HookAction::Inject {
            forward: Some(forwarded.clone()),
            reply: vec![reply.clone()],
        },
    );
    assert_eq!(n.recv(a), Some(reply));
    assert_eq!(n.recv(b), Some(forwarded));
}

#[test]
fn hook_sees_port_and_class() {
    // A hook is handed the port's class, which the switch knows.
    let mut n = Net::new();
    let a = n.add(GUEST_ISOLATED);
    assert_eq!(n.sw.class_of(a), Some(GUEST_ISOLATED));
    n.remove(a);
    assert_eq!(n.sw.class_of(a), None);
}

#[test]
fn stream_port_carries_frames_and_is_removed_on_close() {
    let mut n = Net::new();
    let port = n.add(GUEST);
    let svc = n.add(PortClass::Service);
    assert_eq!(n.stats().ports, 2);

    // A framed stream comes in: deframed and flooded to the service port.
    let f_in = frame(MacAddr::broadcast(), mac(1), b"hello from guest");
    let stream = write_frame(&f_in).unwrap();
    let ReadStep::Frame { frame: got, used } = read_frame(&stream, false) else {
        panic!("expected a frame");
    };
    assert_eq!(used, stream.len());
    n.send(port, got);
    assert_eq!(n.recv(svc), Some(f_in));

    // Service replies unicast to the learned guest MAC.
    let f_out = frame(mac(1), mac(9), b"hello from service");
    n.send(svc, f_out.clone());
    assert_eq!(n.recv(port), Some(f_out));

    // Closing the stream removes the port and its learned MACs.
    n.remove(port);
    assert_eq!(n.stats().ports, 1);

    // The guest MAC was purged: unicast to it floods to nobody, so it drops.
    let dropped_before = n.stats().frames_dropped;
    n.send(svc, frame(mac(1), mac(9), b"ghost"));
    assert!(n.stats().frames_dropped > dropped_before);
}

#[test]
fn channel_port_removed_when_sender_dropped() {
    let mut n = Net::new();
    let a = n.add(GUEST);
    let _b = n.add(GUEST);
    assert_eq!(n.stats().ports, 2);
    n.remove(a);
    assert_eq!(n.stats().ports, 1);
}

#[test]
fn full_egress_queue_drops_frames() {
    let mut n = Net::new();
    let a = n.add(GUEST);
    let _b = n.add(GUEST);
    // Nobody reads from b: its queue fills, then drops.
    for _ in 0..QUEUE + 50 {
        n.send(a, frame(MacAddr::broadcast(), mac(1), b"flood"));
    }
    assert!(n.stats().frames_dropped >= 50);
}

#[test]
fn runt_frames_are_dropped() {
    let mut n = Net::new();
    let a = n.add(GUEST);
    let b = n.add(GUEST);
    n.send(a, b"tooshort".to_vec());
    assert_eq!(n.recv(b), None);
    assert_eq!(n.stats().frames_dropped, 1);
}

#[test]
fn relearning_moves_a_mac() {
    let mut n = Net::new();
    let a = n.add(GUEST);
    let b = n.add(GUEST);
    let c = n.add(GUEST);

    // mac(7) first appears on port B...
    n.send(b, frame(MacAddr::broadcast(), mac(7), b"on b"));
    assert!(n.recv(a).is_some());
    assert!(n.recv(c).is_some());
    // ...then moves to port C.
    n.send(c, frame(MacAddr::broadcast(), mac(7), b"moved to c"));
    assert!(n.recv(a).is_some());
    assert!(n.recv(b).is_some());

    // Unicast to mac(7) now goes to C only.
    let f = frame(mac(7), mac(1), b"find me");
    n.send(a, f.clone());
    assert_eq!(n.recv(c), Some(f));
    assert_eq!(n.recv(b), None);
}
