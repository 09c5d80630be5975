//! The per-segment userspace L2 switch.
//!
//! Every VM NIC attaches as a port; daemon services (DHCP/DNS/NAT, trunks)
//! attach as service ports. The switch does MAC-learning forwarding between
//! ports and honours private-VLAN-style port isolation.
//!
//! Sans-I/O: [`Switch::ingress`] takes a frame together with the verdict of
//! the ingress hook on it and returns the deliveries to make; the caller owns
//! the egress queues, and reports with the `settle_*` functions what became
//! of the deliveries.

use vstd::prelude::*;

use crate::net::addr::MacAddr;
use crate::net::frame::ETH_HEADER_LEN;
use crate::net::wire::{mac_at, mac_of};
use crate::table::{as_map, has_key, kept, keys_distinct, lemma_entry, Keep, Key, Table};

verus! {

/// Per-port egress queue depth. It's ethernet: a full queue drops the frame.
pub const PORT_QUEUE_CAPACITY: usize = 512;

/// Opaque switch-port identifier, unique per switch for its lifetime.
#[derive(Debug, Clone, Copy, PartialEq, Eq, Structural, Hash, PartialOrd, Ord)]
pub struct PortId(pub u64);

impl Key for PortId {
    fn same(&self, other: &Self) -> (r: bool) {
        *self == *other
    }
}

/// What kind of participant a port is; drives isolation.
#[derive(Debug, Clone, Copy, PartialEq, Eq, Structural)]
pub enum PortClass {
    /// A VM NIC. `isolated` ports exchange frames only with service ports
    /// (gateway/NAT/trunk), never with other guests: the private-VLAN model.
    Guest { isolated: bool },
    /// A daemon-side participant: DHCP/DNS/NAT, port-forward proxy, trunk.
    Service,
}

/// Verdict of an ingress hook for one ingress frame.
#[derive(Debug)]
pub enum HookAction {
    /// Forward the frame unmodified.
    Pass,
    /// Drop the frame.
    Drop,
    /// Forward this frame instead of the original.
    Replace(Vec<u8>),
    /// Optionally forward a frame, and queue `reply` frames back out the
    /// ingress port (e.g. a synthesised TCP RST or ICMP unreachable).
    Inject { forward: Option<Vec<u8>>, reply: Vec<Vec<u8>> },
}

/// Point-in-time counters.
#[derive(Debug, Clone, Copy, PartialEq, Eq, Structural)]
pub struct SwitchStats {
    pub ports: usize,
    /// Frames delivered to a single learned unicast destination.
    pub frames_forwarded: u64,
    /// Ingress frames flooded (unknown unicast, broadcast, multicast) that
    /// reached at least one port.
    pub frames_flooded: u64,
    /// Frames that died: hook drops, isolation drops, runts, full or closed
    /// egress queues, and floods that reached nobody.
    pub frames_dropped: u64,
}

/// Where a frame goes.
#[derive(Debug)]
pub enum Delivery {
    /// Nowhere.
    Nothing,
    /// Out of one port.
    Unicast { to: PortId, frame: Vec<u8> },
    /// Out of each of these ports.
    Flood { ports: Vec<PortId>, frame: Vec<u8> },
}

/// What is to be done about an ingress frame.
#[derive(Debug)]
pub struct Plan {
    /// Frames to queue back out the ingress port.
    pub replies: Vec<Vec<u8>>,
    pub delivery: Delivery,
}

/// A virtual L2 switch for one segment.
pub struct Switch {
    ports: Table<PortId, PortClass>,
    macs: Table<MacAddr, PortId>,
    next_port: u64,
    forwarded: u64,
    flooded: u64,
    dropped: u64,
}

/// What a [`Switch`] knows.
pub ghost struct SwitchView {
    pub ports: Map<PortId, PortClass>,
    pub macs: Map<MacAddr, PortId>,
    pub next_port: u64,
    pub forwarded: u64,
    pub flooded: u64,
    pub dropped: u64,
}

impl View for Switch {
    type V = SwitchView;

    closed spec fn view(&self) -> SwitchView {
        SwitchView {
            ports: self.ports@,
            macs: self.macs@,
            next_port: self.next_port,
            forwarded: self.forwarded,
            flooded: self.flooded,
            dropped: self.dropped,
        }
    }
}

/// Whether a frame that came in on a port of class `ingress` may leave by a
/// port of class `egress`: between guests only if neither is isolated.
pub open spec fn may_pass(ingress: PortClass, egress: PortClass) -> bool {
    match (ingress, egress) {
        (PortClass::Guest { isolated: a }, PortClass::Guest { isolated: b }) => !a && !b,
        _ => true,
    }
}

/// May a frame ingressing on a port of class `ingress` egress a port of
/// class `egress`? Isolated guest ports exchange frames only with service
/// ports.
pub fn delivery_allowed(ingress: &PortClass, egress: &PortClass) -> (r: bool)
    ensures
        r == may_pass(*ingress, *egress),
{
    match (*ingress, *egress) {
        (PortClass::Guest { isolated: a }, PortClass::Guest { isolated: b }) => !a && !b,
        _ => true,
    }
}

/// Whether an address is a group address (broadcast included).
pub open spec fn multicast(mac: MacAddr) -> bool {
    mac.0@[0] % 2 == 1
}

fn is_multicast(mac: &MacAddr) -> (r: bool)
    ensures
        r == multicast(*mac),
{
    mac.0[0] % 2 == 1
}

/// The counter after `n` more.
pub open spec fn counted(c: u64, n: u64) -> u64 {
    ((c + n) % 0x1_0000_0000_0000_0000) as u64
}

/// The frame that a hook lets through.
pub open spec fn hooked(action: HookAction, frame: Seq<u8>) -> Option<Seq<u8>> {
    match action {
        HookAction::Pass => Some(frame),
        HookAction::Drop => None,
        HookAction::Replace(f) => Some(f@),
        HookAction::Inject { forward, .. } => match forward {
            Some(f) => Some(f@),
            None => None,
        },
    }
}

/// The frames that a hook sends back.
pub open spec fn hook_replies(action: HookAction) -> Seq<Seq<u8>> {
    match action {
        HookAction::Inject { reply, .. } => frames(reply@),
        _ => Seq::empty(),
    }
}

/// The contents of a list of frames.
pub open spec fn frames(v: Seq<Vec<u8>>) -> Seq<Seq<u8>> {
    v.map_values(|f: Vec<u8>| f@)
}

/// The switch after it saw a frame from `src` on `port`.
pub open spec fn learned(sw: SwitchView, src: MacAddr, port: PortId) -> SwitchView {
    if multicast(src) {
        sw
    } else {
        SwitchView { macs: sw.macs.insert(src, port), ..sw }
    }
}

/// Where a frame to `dst` goes, by what the switch has learned.
pub ghost enum Route {
    /// Nowhere: it is for the port it came from, or must not pass.
    Discard,
    To(PortId),
    Everywhere,
}

/// The route of a frame to `dst` that came in on `port`.
pub open spec fn route(sw: SwitchView, port: PortId, dst: MacAddr) -> Route {
    if multicast(dst) || !sw.macs.dom().contains(dst) {
        Route::Everywhere
    } else {
        let target = sw.macs[dst];
        if target != port && sw.ports.dom().contains(target) && may_pass(
            sw.ports[port],
            sw.ports[target],
        ) {
            Route::To(target)
        } else {
            Route::Discard
        }
    }
}

/// Whether a flood from `port` reaches `to`.
pub open spec fn floods_to(sw: SwitchView, port: PortId, to: PortId) -> bool {
    to != port && sw.ports.dom().contains(to) && may_pass(sw.ports[port], sw.ports[to])
}

/// Whether a list names exactly the ports that a flood from `port` reaches,
/// each once.
pub open spec fn is_flood(sw: SwitchView, port: PortId, to: Seq<PortId>) -> bool {
    &&& to.no_duplicates()
    &&& forall|p: PortId| #[trigger] to.contains(p) <==> floods_to(sw, port, p)
}

/// The switch after an ingress frame.
pub open spec fn ingress_state(
    sw: SwitchView,
    port: PortId,
    frame: Seq<u8>,
    action: HookAction,
) -> SwitchView {
    if !sw.ports.dom().contains(port) {
        sw
    } else {
        match hooked(action, frame) {
            None => if action is Drop {
                SwitchView { dropped: counted(sw.dropped, 1), ..sw }
            } else {
                sw
            },
            Some(f) => if f.len() < ETH_HEADER_LEN {
                SwitchView { dropped: counted(sw.dropped, 1), ..sw }
            } else {
                let after = learned(sw, mac_of(f, 6), port);
                if route(after, port, mac_of(f, 0)) is Discard {
                    SwitchView { dropped: counted(sw.dropped, 1), ..after }
                } else {
                    after
                }
            },
        }
    }
}

/// Whether a delivery is the one that an ingress frame calls for.
pub open spec fn delivers(
    sw: SwitchView,
    port: PortId,
    frame: Seq<u8>,
    action: HookAction,
    d: Delivery,
) -> bool {
    if !sw.ports.dom().contains(port) {
        d is Nothing
    } else {
        match hooked(action, frame) {
            None => d is Nothing,
            Some(f) => if f.len() < ETH_HEADER_LEN {
                d is Nothing
            } else {
                let after = learned(sw, mac_of(f, 6), port);
                match route(after, port, mac_of(f, 0)) {
                    Route::Discard => d is Nothing,
                    Route::To(target) => d matches Delivery::Unicast { to, frame } && to == target
                        && frame@ == f,
                    Route::Everywhere => d matches Delivery::Flood { ports, frame } && is_flood(
                        after,
                        port,
                        ports@,
                    ) && frame@ == f,
                }
            },
        }
    }
}

/// Whether a plan is the one that an ingress frame calls for.
pub open spec fn plans(
    sw: SwitchView,
    port: PortId,
    frame: Seq<u8>,
    action: HookAction,
    p: Plan,
) -> bool {
    &&& frames(p.replies@) == (if sw.ports.dom().contains(port) {
        hook_replies(action)
    } else {
        Seq::empty()
    })
    &&& delivers(sw, port, frame, action, p.delivery)
}

struct NotOn {
    port: PortId,
}

impl Keep<PortId> for NotOn {
    closed spec fn wants(&self, p: PortId) -> bool {
        p != self.port
    }

    fn test(&self, p: &PortId) -> (r: bool) {
        *p != self.port
    }
}

impl Switch {
    /// Every learned address is one of an attached port, and every port was
    /// numbered before `next_port`.
    #[verifier::type_invariant]
    spec fn valid(self) -> bool {
        ports_sound(self.ports@, self.macs@, self.next_port)
    }

    /// A switch with no ports.
    pub fn new() -> (r: Switch)
        ensures
            r@ == (SwitchView {
                ports: Map::empty(),
                macs: Map::empty(),
                next_port: 0,
                forwarded: 0,
                flooded: 0,
                dropped: 0,
            }),
    {
        Switch {
            ports: Table::new(),
            macs: Table::new(),
            next_port: 0,
            forwarded: 0,
            flooded: 0,
            dropped: 0,
        }
    }

    /// Diagnostics counters.
    pub fn stats(&self) -> (r: SwitchStats)
        ensures
            self@.ports.dom().finite(),
            r == (SwitchStats {
                ports: self@.ports.dom().len() as usize,
                frames_forwarded: self@.forwarded,
                frames_flooded: self@.flooded,
                frames_dropped: self@.dropped,
            }),
            r.ports == self@.ports.dom().len(),
    {
        SwitchStats {
            ports: self.ports.len(),
            frames_forwarded: self.forwarded,
            frames_flooded: self.flooded,
            frames_dropped: self.dropped,
        }
    }

    /// The class of a port, while it is attached.
    pub fn class_of(&self, port: PortId) -> (r: Option<PortClass>)
        ensures
            r == (if self@.ports.dom().contains(port) {
                Some(self@.ports[port])
            } else {
                None::<PortClass>
            }),
    {
        self.ports.get(port)
    }

    /// Attach a port, under an identifier that was never used before.
    pub fn add_port(&mut self, class: PortClass) -> (id: PortId)
        requires
            old(self)@.next_port < u64::MAX,
        ensures
            id.0 == old(self)@.next_port,
            !old(self)@.ports.dom().contains(id),
            final(self)@ == (SwitchView {
                ports: old(self)@.ports.insert(id, class),
                next_port: (id.0 + 1) as u64,
                ..old(self)@
            }),
    {
        proof {
            use_type_invariant(&*self);
        }
        let id = PortId(self.next_port);
        let mut macs: Table<MacAddr, PortId> = Table::new();
        std::mem::swap(&mut macs, &mut self.macs);
        let mut ports: Table<PortId, PortClass> = Table::new();
        std::mem::swap(&mut ports, &mut self.ports);
        self.next_port = self.next_port + 1;
        ports.insert(id, class);
        self.ports = ports;
        self.macs = macs;
        id
    }

    /// Detach a port and purge every MAC learned on it. Idempotent.
    pub fn remove_port(&mut self, id: PortId)
        ensures
            final(self)@ == port_removed(old(self)@, id),
    {
        proof {
            use_type_invariant(&*self);
        }
        if self.ports.contains(id) {
            let mut macs: Table<MacAddr, PortId> = Table::new();
            std::mem::swap(&mut macs, &mut self.macs);
            macs.retain(&NotOn { port: id });
            assert(kept(old(self)@.macs, |p: PortId| (NotOn { port: id }).wants(p))
                =~= macs_without(old(self)@.macs, id));
            let mut ports: Table<PortId, PortClass> = Table::new();
            std::mem::swap(&mut ports, &mut self.ports);
            let _ = ports.remove(id);
            self.ports = ports;
            self.macs = macs;
        }
    }

    /// The ports that a flood from `port` reaches.
    fn flood_targets(&self, port: PortId, class: &PortClass) -> (r: Vec<PortId>)
        requires
            self@.ports.dom().contains(port),
            self@.ports[port] == *class,
        ensures
            is_flood(self@, port, r@),
    {
        let all = self.ports.entries();
        let mut r: Vec<PortId> = Vec::new();
        let mut i: usize = 0;
        while i < all.len()
            invariant
                i <= all@.len(),
                keys_distinct(all@),
                as_map(all@) == self@.ports,
                self@.ports.dom().contains(port),
                self@.ports[port] == *class,
                r@.no_duplicates(),
                forall|p: PortId| #[trigger]
                    r@.contains(p) <==> floods_to(self@, port, p) && exists|j: int|
                        0 <= j < i && (#[trigger] all@[j]).0 == p,
            decreases all@.len() - i,
        {
            let (id, to) = all[i];
            let ghost r0 = r@;
            proof {
                lemma_entry(all@, i as int);
                assert(!r0.contains(id)) by {
                    if r0.contains(id) {
                        let j = choose|j: int| 0 <= j < i && (#[trigger] all@[j]).0 == id;
                        assert(all@[j].0 != all@[i as int].0);
                    }
                }
            }
            let hit = id != port && delivery_allowed(class, &to);
            if hit {
                r.push(id);
            }
            proof {
                assert(hit == floods_to(self@, port, id));
                assert forall|p: PortId| #[trigger]
                    r@.contains(p) <==> floods_to(self@, port, p) && exists|j: int|
                        0 <= j < i + 1 && (#[trigger] all@[j]).0 == p by {
                    if hit {
                        assert(r@[r0.len() as int] == id);
                        assert(r0.contains(p) ==> r@.contains(p)) by {
                            if r0.contains(p) {
                                let k = r0.index_of(p);
                                assert(r@[k] == p);
                            }
                        }
                        if r@.contains(p) && p != id {
                            let k = r@.index_of(p);
                            assert(r0[k] == p);
                        }
                    }
                    if exists|j: int| 0 <= j < i + 1 && (#[trigger] all@[j]).0 == p {
                        let j = choose|j: int| 0 <= j < i + 1 && (#[trigger] all@[j]).0 == p;
                        if j < i {
                            assert(all@[j].0 == p);
                        }
                    }
                    if r0.contains(p) {
                        let j = choose|j: int| 0 <= j < i && (#[trigger] all@[j]).0 == p;
                        assert(all@[j].0 == p);
                    }
                    if p == id {
                        assert(all@[i as int].0 == p);
                    }
                }
            }
            i = i + 1;
        }
        proof {
            assert forall|p: PortId| #[trigger] r@.contains(p) <==> floods_to(self@, port, p) by {
                if floods_to(self@, port, p) {
                    assert(has_key(all@, p));
                }
            }
        }
        r
    }

    /// Learns the source of a frame and decides where it goes.
    fn forward(&mut self, port: PortId, class: &PortClass, frame: Vec<u8>) -> (d: Delivery)
        requires
            old(self)@.ports.dom().contains(port),
            old(self)@.ports[port] == *class,
        ensures
            final(self)@ == ingress_state(old(self)@, port, frame@, HookAction::Pass),
            delivers(old(self)@, port, frame@, HookAction::Pass, d),
    {
        proof {
            use_type_invariant(&*self);
        }
        if frame.len() < ETH_HEADER_LEN {
            self.dropped = self.dropped.wrapping_add(1);
            return Delivery::Nothing;
        }
        let dst = mac_at(frame.as_slice(), 0);
        let src = mac_at(frame.as_slice(), 6);
        // Learn the source MAC; relearning moves it (VM migrated ports).
        if !is_multicast(&src) {
            let mut macs: Table<MacAddr, PortId> = Table::new();
            std::mem::swap(&mut macs, &mut self.macs);
            macs.insert(src, port);
            self.macs = macs;
        }
        let ghost after = learned(old(self)@, src, port);
        assert(self@ == after);
        let target = if is_multicast(&dst) {
            None
        } else {
            self.macs.get(dst)
        };
        match target {
            Some(target) => {
                let open = target != port && (match self.ports.get(target) {
                    Some(to) => delivery_allowed(class, &to),
                    None => false,
                });
                if open {
                    Delivery::Unicast { to: target, frame }
                } else {
                    self.dropped = self.dropped.wrapping_add(1);
                    Delivery::Nothing
                }
            },
            None => Delivery::Flood { ports: self.flood_targets(port, class), frame },
        }
    }

    /// Process one frame received on `port`, given what the ingress hook made
    /// of it: learn, and plan the deliveries.
    pub fn ingress(&mut self, port: PortId, frame: Vec<u8>, action: HookAction) -> (p: Plan)
        ensures
            final(self)@ == ingress_state(old(self)@, port, frame@, action),
            plans(old(self)@, port, frame@, action, p),
    {
        proof {
            use_type_invariant(&*self);
        }
        let mut replies: Vec<Vec<u8>> = Vec::new();
        assert(frames(replies@) =~= Seq::<Seq<u8>>::empty());
        let class = match self.ports.get(port) {
            Some(class) => class,
            None => return Plan { replies, delivery: Delivery::Nothing },
        };
        let forward = match action {
            HookAction::Pass => Some(frame),
            HookAction::Drop => {
                self.dropped = self.dropped.wrapping_add(1);
                None
            },
            HookAction::Replace(f) => Some(f),
            HookAction::Inject { forward, reply } => {
                replies = reply;
                forward
            },
        };
        let delivery = match forward {
            Some(f) => self.forward(port, &class, f),
            None => Delivery::Nothing,
        };
        Plan { replies, delivery }
    }

    /// Reports what became of a unicast delivery.
    pub fn settle_unicast(&mut self, delivered: bool)
        ensures
            final(self)@ == (if delivered {
                SwitchView { forwarded: counted(old(self)@.forwarded, 1), ..old(self)@ }
            } else {
                SwitchView { dropped: counted(old(self)@.dropped, 1), ..old(self)@ }
            }),
    {
        proof {
            use_type_invariant(&*self);
        }
        if delivered {
            self.forwarded = self.forwarded.wrapping_add(1);
        } else {
            self.dropped = self.dropped.wrapping_add(1);
        }
    }

    /// Reports what became of a flood: how many ports took the frame, and how
    /// many had no room for it.
    pub fn settle_flood(&mut self, delivered: u64, failed: u64)
        ensures
            final(self)@ == ({
                let dropped = counted(old(self)@.dropped, failed);
                if delivered > 0 {
                    SwitchView { flooded: counted(old(self)@.flooded, 1), dropped, ..old(self)@ }
                } else {
                    SwitchView { dropped: counted(dropped, 1), ..old(self)@ }
                }
            }),
    {
        proof {
            use_type_invariant(&*self);
        }
        self.dropped = self.dropped.wrapping_add(failed);
        if delivered > 0 {
            self.flooded = self.flooded.wrapping_add(1);
        } else {
            self.dropped = self.dropped.wrapping_add(1);
        }
    }

    /// Reports how many replies found no room in the ingress port's queue.
    pub fn settle_replies(&mut self, failed: u64)
        ensures
            final(self)@ == (SwitchView {
                dropped: counted(old(self)@.dropped, failed),
                ..old(self)@
            }),
    {
        proof {
            use_type_invariant(&*self);
        }
        self.dropped = self.dropped.wrapping_add(failed);
    }
}

/// What was learned, but not on `id`.
pub open spec fn macs_without(m: Map<MacAddr, PortId>, id: PortId) -> Map<MacAddr, PortId> {
    kept(m, |p: PortId| p != id)
}

/// The switch without a port and without what was learned on it.
pub open spec fn port_removed(sw: SwitchView, id: PortId) -> SwitchView {
    if sw.ports.dom().contains(id) {
        SwitchView {
            ports: sw.ports.remove(id),
            macs: macs_without(sw.macs, id),
            ..sw
        }
    } else {
        sw
    }
}

/// The soundness of a switch: what it has learned leads to attached ports, and
/// new port identifiers are unused.
pub open spec fn ports_sound(
    ports: Map<PortId, PortClass>,
    macs: Map<MacAddr, PortId>,
    next_port: u64,
) -> bool {
    &&& forall|m: MacAddr| #[trigger] macs.dom().contains(m) ==> ports.dom().contains(macs[m])
    &&& forall|p: PortId| #[trigger] ports.dom().contains(p) ==> p.0 < next_port
}

/// The soundness of a switch.
pub open spec fn switch_sound(sw: SwitchView) -> bool {
    ports_sound(sw.ports, sw.macs, sw.next_port)
}

// ---------------------------------------------------------------------------
// Laws
// ---------------------------------------------------------------------------

/// The ports that a delivery names.
pub open spec fn reaches(d: Delivery, p: PortId) -> bool {
    match d {
        Delivery::Nothing => false,
        Delivery::Unicast { to, .. } => to == p,
        Delivery::Flood { ports, .. } => ports@.contains(p),
    }
}

/// A frame never leaves by the port it came in on, and only by attached ports
/// that isolation allows.
pub proof fn delivery_is_allowed(
    sw: SwitchView,
    port: PortId,
    frame: Seq<u8>,
    action: HookAction,
    d: Delivery,
    to: PortId,
)
    requires
        delivers(sw, port, frame, action, d),
        reaches(d, to),
    ensures
        to != port,
        sw.ports.dom().contains(port),
        sw.ports.dom().contains(to),
        may_pass(sw.ports[port], sw.ports[to]),
{
}

/// Frames are kept apart between two guests of which one is isolated, and between
/// no other ports. Which of the two sends makes no difference.
pub proof fn isolation_is_mutual(a: PortClass, b: PortClass)
    ensures
        !may_pass(a, b) <==> {
            &&& a is Guest
            &&& b is Guest
            &&& a->isolated || b->isolated
        },
        may_pass(a, b) == may_pass(b, a),
        a == PortClass::Service || b == PortClass::Service ==> may_pass(a, b),
{
}

/// An isolated guest exchanges frames with service ports only.
pub proof fn isolated_guests_meet_services_only(a: PortClass, b: PortClass)
    requires
        a == (PortClass::Guest { isolated: true }),
    ensures
        may_pass(a, b) <==> b == PortClass::Service,
        may_pass(b, a) <==> b == PortClass::Service,
{
}

/// Once a port has sent from an address, a frame to that address from another
/// port that may reach it goes to that port alone.
pub proof fn learned_address_is_unicast(
    sw: SwitchView,
    port: PortId,
    frame: Seq<u8>,
    from: PortId,
    dst: MacAddr,
)
    requires
        sw.ports.dom().contains(port),
        sw.ports.dom().contains(from),
        frame.len() >= ETH_HEADER_LEN,
        dst == mac_of(frame, 6),
        !multicast(dst),
        from != port,
        may_pass(sw.ports[from], sw.ports[port]),
    ensures
        route(ingress_state(sw, port, frame, HookAction::Pass), from, dst) == Route::To(port),
{
}

/// No address leads to a port that was removed.
pub proof fn removed_port_is_forgotten(sw: SwitchView, id: PortId)
    requires
        switch_sound(sw),
    ensures
        switch_sound(port_removed(sw, id)),
        !port_removed(sw, id).ports.dom().contains(id),
        forall|m: MacAddr| #[trigger]
            port_removed(sw, id).macs.dom().contains(m) ==> port_removed(sw, id).macs[m] != id,
{
    assert forall|m: MacAddr| #[trigger] port_removed(sw, id).macs.dom().contains(m) implies {
        &&& port_removed(sw, id).macs[m] != id
        &&& port_removed(sw, id).ports.dom().contains(port_removed(sw, id).macs[m])
    } by {
        assert(sw.macs.dom().contains(m));
    }
}

/// Broadcast and multicast frames, and frames to addresses never seen, reach
/// every other port that isolation allows.
pub proof fn unknown_destination_floods(
    sw: SwitchView,
    port: PortId,
    frame: Seq<u8>,
    d: Delivery,
    to: PortId,
)
    requires
        delivers(sw, port, frame, HookAction::Pass, d),
        sw.ports.dom().contains(port),
        frame.len() >= ETH_HEADER_LEN,
        multicast(mac_of(frame, 0)) || (!sw.macs.dom().contains(mac_of(frame, 0)) && mac_of(
            frame,
            0,
        ) != mac_of(frame, 6)),
    ensures
        reaches(d, to) <==> floods_to(sw, port, to),
{
}

/// Whether isolation keeps two ports apart: both are guests, and one of them is
/// isolated.
pub open spec fn kept_apart(a: PortClass, b: PortClass) -> bool {
    a is Guest && b is Guest && (a->isolated || b->isolated)
}

/// A frame to an address that was seen on another port goes out there, as it
/// came in, and nowhere else; it is dropped where that port is the one it came
/// from, is gone, or is kept apart from it.
pub proof fn known_destination_gets_the_frame_alone(
    sw: SwitchView,
    port: PortId,
    frame: Seq<u8>,
    d: Delivery,
)
    requires
        delivers(sw, port, frame, HookAction::Pass, d),
        sw.ports.dom().contains(port),
        frame.len() >= 14,
        frame[0] % 2 == 0,
        sw.macs.dom().contains(mac_of(frame, 0)),
        mac_of(frame, 0) != mac_of(frame, 6),
    ensures
        ({
            let there = sw.macs[mac_of(frame, 0)];
            if there != port && sw.ports.dom().contains(there) && !kept_apart(
                sw.ports[port],
                sw.ports[there],
            ) {
                d matches Delivery::Unicast { to, frame: f } && to == there && f@ == frame
            } else {
                d is Nothing
            }
        }),
{
}

/// A frame to a group address, or to an address that was never seen, goes out
/// as it came in on every other port that is not kept apart from the one it
/// came from, once each.
pub proof fn other_frames_go_everywhere(
    sw: SwitchView,
    port: PortId,
    frame: Seq<u8>,
    d: Delivery,
    to: PortId,
)
    requires
        delivers(sw, port, frame, HookAction::Pass, d),
        sw.ports.dom().contains(port),
        frame.len() >= 14,
        frame[0] % 2 == 1 || (!sw.macs.dom().contains(mac_of(frame, 0)) && mac_of(frame, 0)
            != mac_of(frame, 6)),
    ensures
        d matches Delivery::Flood { ports, frame: f } && f@ == frame && ports@.no_duplicates() && (
        ports@.contains(to) <==> to != port && sw.ports.dom().contains(to) && !kept_apart(
            sw.ports[port],
            sw.ports[to],
        )),
{
}

/// A frame that a station sends to itself, a frame too short for a header, and
/// a frame from a port that is not attached go nowhere.
pub proof fn useless_frames_go_nowhere(
    sw: SwitchView,
    port: PortId,
    frame: Seq<u8>,
    d: Delivery,
)
    requires
        delivers(sw, port, frame, HookAction::Pass, d),
        !sw.ports.dom().contains(port) || frame.len() < 14 || (frame[0] % 2 == 0 && mac_of(
            frame,
            0,
        ) == mac_of(frame, 6)),
    ensures
        d is Nothing,
        !sw.ports.dom().contains(port) ==> ingress_state(sw, port, frame, HookAction::Pass) == sw,
        sw.ports.dom().contains(port) ==> ingress_state(sw, port, frame, HookAction::Pass).dropped
            == (sw.dropped + 1) % 0x1_0000_0000_0000_0000,
{
    if frame.len() >= 14 {
        assert(mac_of(frame, 0).0@[0] == frame[0]);
    }
}

/// The hook has its say first: what it drops goes nowhere and counts as
/// dropped, what it puts in the frame's place is treated as if it had come in,
/// and only what it injects goes back out the port.
pub proof fn hook_has_its_say(
    sw: SwitchView,
    port: PortId,
    frame: Seq<u8>,
    f: Vec<u8>,
    reply: Vec<Vec<u8>>,
    p: Plan,
)
    requires
        sw.ports.dom().contains(port),
    ensures
        plans(sw, port, frame, HookAction::Drop, p) ==> p.delivery is Nothing && p.replies@.len()
            == 0,
        ingress_state(sw, port, frame, HookAction::Drop) == (SwitchView {
            dropped: ((sw.dropped + 1) % 0x1_0000_0000_0000_0000) as u64,
            ..sw
        }),
        plans(sw, port, frame, HookAction::Pass, p) ==> p.replies@.len() == 0,
        plans(sw, port, frame, HookAction::Replace(f), p) <==> plans(
            sw,
            port,
            f@,
            HookAction::Pass,
            p,
        ),
        ingress_state(sw, port, frame, HookAction::Replace(f)) == ingress_state(
            sw,
            port,
            f@,
            HookAction::Pass,
        ),
        plans(sw, port, frame, HookAction::Inject { forward: None, reply }, p) ==> p.delivery is Nothing
            && p.replies@.len() == reply@.len() && forall|i: int|
            0 <= i < reply@.len() ==> (#[trigger] p.replies@[i])@ == reply@[i]@,
        ingress_state(sw, port, frame, HookAction::Inject { forward: None, reply }) == sw,
        plans(sw, port, frame, HookAction::Inject { forward: Some(f), reply }, p) ==> delivers(
            sw,
            port,
            f@,
            HookAction::Pass,
            p.delivery,
        ) && p.replies@.len() == reply@.len() && forall|i: int|
            0 <= i < reply@.len() ==> (#[trigger] p.replies@[i])@ == reply@[i]@,
        ingress_state(sw, port, frame, HookAction::Inject { forward: Some(f), reply })
            == ingress_state(sw, port, f@, HookAction::Pass),
{
    assert(frames(p.replies@).len() == p.replies@.len());
    assert(frames(reply@).len() == reply@.len());
    assert forall|i: int|
        0 <= i < reply@.len() && frames(p.replies@) == frames(reply@) implies (
    #[trigger] p.replies@[i])@ == reply@[i]@ by {
        assert(frames(p.replies@)[i] == p.replies@[i]@);
        assert(frames(reply@)[i] == reply@[i]@);
    }
}

/// The switch learns where a frame came from, unless that is a group address,
/// and forgets nothing by it: a station that turns up on another port is found
/// there from then on.
pub proof fn source_is_learned(
    sw: SwitchView,
    port: PortId,
    frame: Seq<u8>,
    m: MacAddr,
)
    requires
        sw.ports.dom().contains(port),
        frame.len() >= 14,
    ensures
        ({
            let after = ingress_state(sw, port, frame, HookAction::Pass);
            &&& after.ports == sw.ports
            &&& after.next_port == sw.next_port
            &&& after.forwarded == sw.forwarded
            &&& after.flooded == sw.flooded
            &&& m == mac_of(frame, 6) && frame[6] % 2 == 0 ==> after.macs.dom().contains(m)
                && after.macs[m] == port
            &&& m != mac_of(frame, 6) || frame[6] % 2 == 1 ==> (after.macs.dom().contains(m)
                <==> sw.macs.dom().contains(m)) && after.macs[m] == sw.macs[m]
        }),
{
    assert(mac_of(frame, 6).0@[0] == frame[6]);
}

/// A frame that comes in, with no hook to change it, leaves as it came: by the one
/// port where its destination was seen, or by every other port if it was not seen
/// or is a group; never by the port it came from, and never to a port that is kept
/// apart from it.
pub proof fn frame_leaves_as_it_came(
    switch: &mut Switch,
    port: PortId,
    frame: Vec<u8>,
    p: Plan,
    to: PortId,
)
    requires
        call_ensures(Switch::ingress, (switch, port, frame, HookAction::Pass), p),
        old(switch)@.ports.dom().contains(port),
        frame@.len() >= 14,
    ensures
        ({
            let sw = old(switch)@;
            let dst = mac_of(frame@, 0);
            let group = frame@[0] % 2 == 1;
            let open = to != port && sw.ports.dom().contains(to) && !kept_apart(
                sw.ports[port],
                sw.ports[to],
            );
            let itself = dst == mac_of(frame@, 6);
            &&& !group && sw.macs.dom().contains(dst) && !itself && sw.macs[dst] == to ==> if open {
                p.delivery matches Delivery::Unicast { to: there, frame: f } && there == to && f@
                    == frame@
            } else {
                p.delivery is Nothing
            }
            &&& group || (!sw.macs.dom().contains(dst) && !itself) ==> (
            p.delivery matches Delivery::Flood { ports, frame: f } && f@ == frame@
                && ports@.no_duplicates() && (ports@.contains(to) <==> open))
            &&& !group && itself ==> p.delivery is Nothing
        }),
{
    let sw = old(switch)@;
    let dst = mac_of(frame@, 0);
    let itself = dst == mac_of(frame@, 6);
    if frame@[0] % 2 == 1 || (!sw.macs.dom().contains(dst) && !itself) {
        other_frames_go_everywhere(sw, port, frame@, p.delivery, to);
    } else if itself {
        useless_frames_go_nowhere(sw, port, frame@, p.delivery);
    } else {
        known_destination_gets_the_frame_alone(sw, port, frame@, p.delivery);
    }
}

} // verus!
