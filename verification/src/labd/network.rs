//! Per-lab network assembly: one switch per segment, subnet allocation from
//! the host pool.

use vstd::arithmetic::power2::lemma2_to64;
use vstd::prelude::*;

use crate::config::model::{Lab, LabView, Nic, VmView};
use crate::config::validate::{gateway_ip, gateway_of, overlap};
use crate::names::NameMap;
use crate::net::addr::Ipv4Addr;
use crate::net::cidr::{block_size, lemma_net_at, net_at, subnets24, Ipv4Net};
use crate::text::cat3;

verus! {

/// Name of the built-in per-lab NAT segment (`nic { nat = true }`).
pub const NAT_SEGMENT: &'static str = "nat";

/// 10.213.0.0, the base of the auto-allocation pool; /24s are carved out of
/// its 16-bit block.
pub const POOL_BASE: u32 = 0x0AD5_0000;

/// What a segment's MTU is unless it says otherwise.
pub const STANDARD_MTU: u16 = 1500;

/// What the MTU of a segment with NAT, or of a global one, is unless it says
/// otherwise.
pub const JUMBO_MTU: u16 = 9000;

/// A segment of a running lab.
#[derive(Debug)]
pub struct SegmentNet {
    pub name: String,
    /// What its switch is called: `<lab>/<segment>`.
    pub switch: String,
    pub subnet: Ipv4Net,
    pub gateway_ip: Ipv4Addr,
    /// Which of the lab's segments it is (none for the built-in NAT segment).
    pub config: Option<usize>,
    /// NAT egress on (declared `nat = true`, or the built-in segment).
    pub nat: bool,
    pub dhcp: bool,
    pub global: bool,
    pub mtu: Option<u16>,
}

/// The contents of a [`SegmentNet`].
pub ghost struct SegmentNetView {
    pub name: Seq<char>,
    pub switch: Seq<char>,
    pub subnet: Ipv4Net,
    pub gateway_ip: Ipv4Addr,
    pub config: Option<int>,
    pub nat: bool,
    pub dhcp: bool,
    pub global: bool,
    pub mtu: Option<u16>,
}

impl SegmentNetView {
    /// The MTU of the segment's cards: what it says, or jumbo frames on NAT and
    /// global segments.
    pub open spec fn effective_mtu(self) -> u16 {
        match self.mtu {
            Some(m) => m,
            None => if self.nat || self.global {
                JUMBO_MTU
            } else {
                STANDARD_MTU
            },
        }
    }
}

impl DeepView for SegmentNet {
    type V = SegmentNetView;

    open spec fn deep_view(&self) -> SegmentNetView {
        SegmentNetView {
            name: self.name@,
            switch: self.switch@,
            subnet: self.subnet,
            gateway_ip: self.gateway_ip,
            config: match self.config {
                Some(i) => Some(i as int),
                None => None,
            },
            nat: self.nat,
            dhcp: self.dhcp,
            global: self.global,
            mtu: self.mtu,
        }
    }
}

impl SegmentNet {
    /// The MTU of the segment's cards: what it says, or jumbo frames on NAT and
    /// global segments.
    pub fn effective_mtu(&self) -> (r: u16)
        ensures
            r == self.deep_view().effective_mtu(),
    {
        match self.mtu {
            Some(m) => m,
            None => if self.nat || self.global {
                JUMBO_MTU
            } else {
                STANDARD_MTU
            },
        }
    }
}

/// The segments of a running lab, by name.
pub struct LabNetwork {
    pub segments: NameMap<SegmentNet>,
}

// -- allocation ---------------------------------------------------------------------

/// The `k`-th /24 of the pool.
pub open spec fn pool_net(k: int) -> Ipv4Net {
    net_at((POOL_BASE + 256 * k) as u32, 24)
}

/// Whether no segment has declared addresses in the `k`-th /24 of the pool.
pub open spec fn is_free(lab: LabView, k: int) -> bool {
    forall|i: int|
        0 <= i < lab.segments.len() && (#[trigger] lab.segments[i]).subnet is Some ==> !overlap(
            lab.segments[i].subnet->0,
            pool_net(k),
        )
}

/// The first free /24 of the pool from the `k`-th on.
pub open spec fn free_from(lab: LabView, k: int) -> Option<int>
    decreases 256 - k,
{
    if k < 0 || k >= 256 {
        None
    } else if is_free(lab, k) {
        Some(k)
    } else {
        free_from(lab, k + 1)
    }
}

/// From where on the pool is unused, when the first `i` segments have their
/// subnets; nothing if it was exhausted.
pub open spec fn pool_after(lab: LabView, i: int) -> Option<int>
    decreases i,
{
    if i <= 0 {
        Some(0)
    } else {
        match pool_after(lab, i - 1) {
            None => None,
            Some(c) => if lab.segments[i - 1].subnet is Some {
                Some(c)
            } else {
                match free_from(lab, c) {
                    Some(k) => Some(k + 1),
                    None => None,
                }
            },
        }
    }
}

/// The subnet of the `i`-th segment: the one it declares, or the next free /24
/// of the pool.
pub open spec fn subnet_of(lab: LabView, i: int) -> Ipv4Net {
    match lab.segments[i].subnet {
        Some(n) => n,
        None => pool_net(free_from(lab, pool_after(lab, i)->0)->0),
    }
}

/// What becomes of the `i`-th segment.
pub open spec fn declared_net(lab: LabView, i: int) -> SegmentNetView {
    let s = lab.segments[i];
    SegmentNetView {
        name: s.name,
        switch: lab.name + "/"@ + s.name,
        subnet: subnet_of(lab, i),
        gateway_ip: gateway_of(subnet_of(lab, i)),
        config: Some(i),
        nat: s.nat,
        dhcp: s.dhcp,
        global: s.global,
        mtu: s.mtu,
    }
}

/// The segments that the first `i` declarations make.
pub open spec fn declared_nets(lab: LabView, i: int) -> Map<Seq<char>, SegmentNetView>
    decreases i,
{
    if i <= 0 {
        Map::empty()
    } else {
        declared_nets(lab, i - 1).insert(lab.segments[i - 1].name, declared_net(lab, i - 1))
    }
}

/// Whether a guest has a card on the built-in NAT segment.
pub open spec fn vm_needs_egress(v: VmView) -> bool {
    exists|k: int| 0 <= k < v.nics.len() && (#[trigger] v.nics[k]).nat
}

/// Whether some card is on the built-in NAT segment.
pub open spec fn needs_egress(lab: LabView) -> bool {
    exists|i: int| 0 <= i < lab.vms.len() && vm_needs_egress(#[trigger] lab.vms[i])
}

/// The built-in NAT segment on the `k`-th /24 of the pool.
pub open spec fn egress_net(lab: LabView, k: int) -> SegmentNetView {
    SegmentNetView {
        name: NAT_SEGMENT@,
        switch: lab.name + "/"@ + NAT_SEGMENT@,
        subnet: pool_net(k),
        gateway_ip: gateway_of(pool_net(k)),
        config: None,
        nat: true,
        dhcp: true,
        global: false,
        mtu: None,
    }
}

/// What is said of a pool without a free subnet.
pub open spec fn exhausted() -> Seq<char> {
    "auto-subnet pool exhausted"@
}

/// What is said of a segment with the reserved name.
pub open spec fn reserved_name() -> Seq<char> {
    "a declared segment is named \"nat\" while `nic { nat = true }` is also used — rename the segment (the name is reserved for the built-in NAT segment)"@
}

/// The network of a lab, or why it has none.
pub open spec fn network_of(lab: LabView) -> Result<Map<Seq<char>, SegmentNetView>, Seq<char>> {
    let n = lab.segments.len() as int;
    match pool_after(lab, n) {
        None => Err(exhausted()),
        Some(c) => {
            let nets = declared_nets(lab, n);
            if !needs_egress(lab) {
                Ok(nets)
            } else if nets.dom().contains(NAT_SEGMENT@) {
                Err(reserved_name())
            } else {
                match free_from(lab, c) {
                    Some(k) => Ok(nets.insert(NAT_SEGMENT@, egress_net(lab, k))),
                    None => Err(exhausted()),
                }
            }
        },
    }
}

/// The contents of a table of segments.
pub open spec fn nets_of(m: Map<Seq<char>, SegmentNet>) -> Map<Seq<char>, SegmentNetView> {
    m.map_values(|s: SegmentNet| s.deep_view())
}

proof fn lemma_nets_insert(m: Map<Seq<char>, SegmentNet>, n: Seq<char>, s: SegmentNet)
    ensures
        nets_of(m.insert(n, s)) == nets_of(m).insert(n, s.deep_view()),
{
    assert(nets_of(m.insert(n, s)) =~= nets_of(m).insert(n, s.deep_view()));
}

fn clashes(lab: &Lab, net: &Ipv4Net) -> (r: bool)
    ensures
        r == exists|i: int|
            0 <= i < lab.deep_view().segments.len() && (#[trigger] lab.deep_view().segments[i]).subnet
                is Some && overlap(lab.deep_view().segments[i].subnet->0, *net),
{
    let ghost all = lab.deep_view().segments;
    let mut i: usize = 0;
    while i < lab.segments.len()
        invariant
            i <= lab.segments@.len(),
            all == lab.deep_view().segments,
            all.len() == lab.segments@.len(),
            forall|j: int|
                0 <= j < i && (#[trigger] all[j]).subnet is Some ==> !overlap(
                    all[j].subnet->0,
                    *net,
                ),
        decreases lab.segments@.len() - i,
    {
        assert(all[i as int] == lab.segments@[i as int].deep_view());
        if let Some(d) = &lab.segments[i].subnet {
            if d.contains(net.network()) || net.contains(d.network()) {
                assert(overlap(all[i as int].subnet->0, *net));
                return true;
            }
        }
        i = i + 1;
    }
    false
}

/// The first free /24 of the pool from the `from`-th on, and its place.
fn next_free(lab: &Lab, pool: &Vec<Ipv4Net>, from: usize) -> (r: Option<(Ipv4Net, usize)>)
    requires
        pool@.len() == 256,
        from <= 256,
        forall|k: int| 0 <= k < 256 ==> #[trigger] pool@[k] == pool_net(k),
    ensures
        r is Some <==> free_from(lab.deep_view(), from as int) is Some,
        r matches Some(x) ==> x.1 < 256 && free_from(lab.deep_view(), from as int) == Some(
            x.1 as int,
        ) && x.0 == pool_net(x.1 as int),
{
    let mut k: usize = from;
    while k < 256
        invariant
            from <= k <= 256,
            pool@.len() == 256,
            forall|k: int| 0 <= k < 256 ==> #[trigger] pool@[k] == pool_net(k),
            free_from(lab.deep_view(), from as int) == free_from(lab.deep_view(), k as int),
        decreases 256 - k,
    {
        assert(pool@[k as int] == pool_net(k as int));
        if !clashes(lab, &pool[k]) {
            assert(is_free(lab.deep_view(), k as int));
            return Some((pool[k], k));
        }
        assert(!is_free(lab.deep_view(), k as int));
        k = k + 1;
    }
    None
}

fn any_egress(lab: &Lab) -> (r: bool)
    ensures
        r == needs_egress(lab.deep_view()),
{
    let ghost l = lab.deep_view();
    let mut i: usize = 0;
    while i < lab.vms.len()
        invariant
            i <= lab.vms@.len(),
            l == lab.deep_view(),
            l.vms.len() == lab.vms@.len(),
            forall|j: int| 0 <= j < i ==> !vm_needs_egress(#[trigger] l.vms[j]),
        decreases lab.vms@.len() - i,
    {
        let vm = &lab.vms[i];
        assert(l.vms[i as int] == vm.deep_view());
        let mut k: usize = 0;
        while k < vm.nics.len()
            invariant
                k <= vm.nics@.len(),
                l == lab.deep_view(),
                i < l.vms.len(),
                l.vms[i as int] == vm.deep_view(),
                forall|j: int| 0 <= j < k ==> !(#[trigger] vm.deep_view().nics[j]).nat,
            decreases vm.nics@.len() - k,
        {
            assert(vm.deep_view().nics[k as int] == vm.nics@[k as int].deep_view());
            if vm.nics[k].nat {
                assert(vm_needs_egress(l.vms[i as int]));
                return true;
            }
            k = k + 1;
        }
        i = i + 1;
    }
    false
}

fn assemble(lab: &Lab, i: usize, subnet: Ipv4Net) -> (r: SegmentNet)
    requires
        i < lab.segments@.len(),
        subnet == subnet_of(lab.deep_view(), i as int),
    ensures
        r.deep_view() == declared_net(lab.deep_view(), i as int),
{
    let s = &lab.segments[i];
    assert(lab.deep_view().segments[i as int] == s.deep_view());
    SegmentNet {
        name: s.name.clone(),
        switch: cat3(lab.name.as_str(), "/", s.name.as_str()),
        subnet,
        gateway_ip: gateway_ip(&subnet),
        config: Some(i),
        nat: s.nat,
        dhcp: s.dhcp,
        global: s.global,
        mtu: s.mtu,
    }
}

impl LabNetwork {
    /// Name the switches and allocate subnets for every declared segment, plus
    /// the built-in NAT segment when any card uses `nat = true`.
    pub fn build(lab: &Lab) -> (r: Result<LabNetwork, String>)
        ensures
            match r {
                Ok(net) => network_of(lab.deep_view()) == Ok::<
                    Map<Seq<char>, SegmentNetView>,
                    Seq<char>,
                >(nets_of(net.segments@)),
                Err(e) => network_of(lab.deep_view()) == Err::<
                    Map<Seq<char>, SegmentNetView>,
                    Seq<char>,
                >(e@),
            },
    {
        let ghost l = lab.deep_view();
        let pool = subnets24(POOL_BASE);
        let mut next: usize = 0;
        let mut segments: NameMap<SegmentNet> = NameMap::new();
        assert(nets_of(segments@) =~= declared_nets(l, 0));
        let mut i: usize = 0;
        while i < lab.segments.len()
            invariant
                i <= lab.segments@.len(),
                l == lab.deep_view(),
                l.segments.len() == lab.segments@.len(),
                pool@.len() == 256,
                forall|k: int| 0 <= k < 256 ==> #[trigger] pool@[k] == pool_net(k),
                next <= 256,
                pool_after(l, i as int) == Some(next as int),
                nets_of(segments@) == declared_nets(l, i as int),
            decreases lab.segments@.len() - i,
        {
            assert(l.segments[i as int] == lab.segments@[i as int].deep_view());
            let subnet = match &lab.segments[i].subnet {
                Some(s) => *s,
                None => match next_free(lab, &pool, next) {
                    Some((s, at)) => {
                        next = at + 1;
                        s
                    },
                    None => {
                        proof {
                            lemma_stays_exhausted(l, i + 1, l.segments.len() as int);
                        }
                        return Err("auto-subnet pool exhausted".to_owned());
                    },
                },
            };
            let net = assemble(lab, i, subnet);
            proof {
                lemma_nets_insert(segments@, l.segments[i as int].name, net);
            }
            segments.insert(lab.segments[i].name.as_str(), net);
            i = i + 1;
        }
        if any_egress(lab) {
            if segments.contains(NAT_SEGMENT) {
                return Err(
                    "a declared segment is named \"nat\" while `nic { nat = true }` is also used — rename the segment (the name is reserved for the built-in NAT segment)".to_owned(),
                );
            }
            let (subnet, _) = match next_free(lab, &pool, next) {
                Some(x) => x,
                None => return Err("auto-subnet pool exhausted".to_owned()),
            };
            let net = SegmentNet {
                name: NAT_SEGMENT.to_owned(),
                switch: cat3(lab.name.as_str(), "/", NAT_SEGMENT),
                subnet,
                gateway_ip: gateway_ip(&subnet),
                config: None,
                nat: true,
                dhcp: true,
                global: false,
                mtu: None,
            };
            proof {
                lemma_nets_insert(segments@, NAT_SEGMENT@, net);
            }
            segments.insert(NAT_SEGMENT, net);
        }
        Ok(LabNetwork { segments })
    }

    /// The segment of this name.
    pub fn segment(&self, name: &str) -> (r: Option<&SegmentNet>)
        ensures
            r is Some <==> self.segments@.dom().contains(name@),
            r matches Some(s) ==> self.segments@[name@] == *s,
    {
        self.segments.get(name)
    }
}

proof fn lemma_stays_exhausted(lab: LabView, i: int, n: int)
    requires
        0 <= i <= n,
        pool_after(lab, i) is None,
    ensures
        pool_after(lab, n) is None,
    decreases n - i,
{
    if i < n {
        lemma_stays_exhausted(lab, i + 1, n);
    }
}

/// Segment a NIC attaches to: its declared segment, or the built-in NAT
/// segment for `nat = true`.
pub fn nic_segment_name(nic: &Nic) -> (r: &str)
    requires
        nic.nat || nic.segment is Some,
    ensures
        nic.nat ==> r@ == NAT_SEGMENT@,
        !nic.nat ==> r@ == (nic.segment->0)@,
{
    if nic.nat {
        NAT_SEGMENT
    } else {
        match &nic.segment {
            Some(s) => s.as_str(),
            None => "",
        }
    }
}

// -- laws --------------------------------------------------------------------------------

proof fn lemma_pool_net(k: int)
    requires
        0 <= k < 256,
    ensures
        pool_net(k).first() == POOL_BASE + 256 * k,
        pool_net(k).last() == POOL_BASE + 256 * k + 255,
        pool_net(k).prefix() == 24,
{
    let bits = (POOL_BASE + 256 * k) as u32;
    lemma_net_at(bits, 24, pool_net(k));
    lemma2_to64();
    assert(block_size(24) == 256);
    assert(bits as int % 256 == 0);
}

proof fn lemma_free_from(lab: LabView, k: int)
    requires
        0 <= k,
        free_from(lab, k) is Some,
    ensures
        k <= free_from(lab, k)->0 < 256,
        is_free(lab, free_from(lab, k)->0),
    decreases 256 - k,
{
    if !is_free(lab, k) {
        lemma_free_from(lab, k + 1);
    }
}

proof fn lemma_pool_grows(lab: LabView, i: int, j: int)
    requires
        0 <= i <= j,
        pool_after(lab, j) is Some,
    ensures
        pool_after(lab, i) is Some,
        0 <= pool_after(lab, i)->0 <= pool_after(lab, j)->0 <= 256,
    decreases j,
{
    if j > 0 {
        if i < j {
            lemma_pool_grows(lab, i, j - 1);
        } else {
            lemma_pool_grows(lab, j - 1, j - 1);
        }
        let c = pool_after(lab, j - 1)->0;
        if lab.segments[j - 1].subnet is None {
            lemma_free_from(lab, c);
        }
    }
}

proof fn lemma_auto_place(lab: LabView, i: int, n: int)
    requires
        0 <= i < n,
        pool_after(lab, n) is Some,
        lab.segments[i].subnet is None,
    ensures
        ({
            let k = free_from(lab, pool_after(lab, i)->0);
            &&& k is Some
            &&& 0 <= pool_after(lab, i)->0 <= k->0 < 256
            &&& k->0 < pool_after(lab, i + 1)->0
            &&& is_free(lab, k->0)
            &&& subnet_of(lab, i) == pool_net(k->0)
        }),
{
    lemma_pool_grows(lab, i + 1, n);
    lemma_pool_grows(lab, i, n);
    lemma_free_from(lab, pool_after(lab, i)->0);
}

/// A subnet that the lab allocates has no address in common with any other
/// segment's, declared or allocated.
pub proof fn allocated_subnets_are_disjoint(lab: LabView, i: int, j: int)
    requires
        pool_after(lab, lab.segments.len() as int) is Some,
        0 <= i < lab.segments.len(),
        0 <= j < lab.segments.len(),
        i != j,
        lab.segments[i].subnet is None,
    ensures
        !overlap(subnet_of(lab, i), subnet_of(lab, j)),
{
    let n = lab.segments.len() as int;
    lemma_auto_place(lab, i, n);
    let a = free_from(lab, pool_after(lab, i)->0)->0;
    lemma_pool_net(a);
    if lab.segments[j].subnet is Some {
        assert(!overlap(lab.segments[j].subnet->0, pool_net(a)));
    } else {
        lemma_auto_place(lab, j, n);
        let b = free_from(lab, pool_after(lab, j)->0)->0;
        lemma_pool_net(b);
        if i < j {
            lemma_pool_grows(lab, i + 1, j);
        } else {
            lemma_pool_grows(lab, j + 1, i);
        }
        assert(a != b);
    }
}

/// The built-in NAT segment has no address in common with any declared
/// segment.
pub proof fn egress_subnet_is_disjoint(lab: LabView, j: int)
    requires
        pool_after(lab, lab.segments.len() as int) is Some,
        free_from(lab, pool_after(lab, lab.segments.len() as int)->0) is Some,
        0 <= j < lab.segments.len(),
    ensures
        !overlap(
            subnet_of(lab, j),
            pool_net(free_from(lab, pool_after(lab, lab.segments.len() as int)->0)->0),
        ),
{
    let n = lab.segments.len() as int;
    let c = pool_after(lab, n)->0;
    lemma_pool_grows(lab, n, n);
    lemma_free_from(lab, c);
    let a = free_from(lab, c)->0;
    lemma_pool_net(a);
    if lab.segments[j].subnet is None {
        lemma_auto_place(lab, j, n);
        let b = free_from(lab, pool_after(lab, j)->0)->0;
        lemma_pool_net(b);
        lemma_pool_grows(lab, j + 1, n);
        assert(a != b);
    }
}

/// An allocated segment's gateway is the first host of its subnet.
pub proof fn allocated_gateway_is_inside(k: int)
    requires
        0 <= k < 256,
    ensures
        pool_net(k).holds(gateway_of(pool_net(k))),
        gateway_of(pool_net(k)).bits == pool_net(k).first() + 1,
        gateway_of(pool_net(k)).bits < pool_net(k).last(),
{
    lemma_pool_net(k);
}

/// Every declared segment is in the network, under its name, when no two have
/// the same.
pub proof fn every_segment_is_built(lab: LabView, i: int, n: int)
    requires
        0 <= i < n <= lab.segments.len(),
        forall|a: int, b: int|
            0 <= a < b < lab.segments.len() ==> #[trigger] lab.segments[a].name
                != #[trigger] lab.segments[b].name,
    ensures
        declared_nets(lab, n).dom().contains(lab.segments[i].name),
        declared_nets(lab, n)[lab.segments[i].name] == declared_net(lab, i),
    decreases n,
{
    if i < n - 1 {
        every_segment_is_built(lab, i, n - 1);
        assert(lab.segments[i].name != lab.segments[n - 1].name);
    }
}

/// What a lab's network makes of each declared segment: a segment under its own
/// name, with a switch named by the lab and itself, the declared subnet where
/// there is one, the first host of the subnet as its gateway, and everything
/// else as declared.
pub proof fn segments_are_built_as_declared(lab: &Lab, r: Result<LabNetwork, String>, i: int)
    requires
        call_ensures(LabNetwork::build, (lab,), r),
        r is Ok,
        0 <= i < lab.segments@.len(),
        lab.segments@[i].subnet matches Some(n) ==> n.prefix() <= 32,
        lab.segments@[i].name@ != NAT_SEGMENT@ || !needs_egress(lab.deep_view()),
        forall|a: int, b: int|
            0 <= a < b < lab.segments@.len() ==> (#[trigger] lab.segments@[a]).name@ != (
            #[trigger] lab.segments@[b]).name@,
    ensures
        ({
            let s = lab.segments@[i];
            let nets = (r->Ok_0).segments@;
            let n = nets[s.name@];
            &&& nets.dom().contains(s.name@)
            &&& n.name@ == s.name@
            &&& n.switch@ == lab.name@ + "/"@ + s.name@
            &&& s.subnet is Some ==> n.subnet == s.subnet->0
            &&& n.gateway_ip.bits == (n.subnet.first() + 1) % 0x1_0000_0000
            &&& n.config == Some(i as usize)
            &&& n.nat == s.nat && n.dhcp == s.dhcp && n.global == s.global && n.mtu == s.mtu
        }),
{
    let l = lab.deep_view();
    let k = l.segments.len() as int;
    let s = lab.segments@[i];
    assert(l.segments[i] == s.deep_view());
    assert forall|a: int, b: int| 0 <= a < b < l.segments.len() implies #[trigger] l.segments[a].name
        != #[trigger] l.segments[b].name by {
        assert(l.segments[a] == lab.segments@[a].deep_view());
        assert(l.segments[b] == lab.segments@[b].deep_view());
    }
    every_segment_is_built(l, i, k);
    let nets = (r->Ok_0).segments@;
    let views = nets_of(nets);
    assert(views.dom().contains(s.name@));
    assert(views[s.name@] == declared_net(l, i));
    assert(views[s.name@] == nets[s.name@].deep_view());
    let net = subnet_of(l, i);
    if s.subnet is None {
        lemma_auto_place(l, i, k);
        lemma_pool_net(free_from(l, pool_after(l, i)->0)->0);
    } else {
        crate::net::cidr::lemma_block(net.base().bits, net.prefix());
    }
}

/// The subnet of a segment that declares none is a whole /24 of the pool,
/// clear of every other segment's subnet.
pub proof fn undeclared_subnets_come_from_the_pool(lab: LabView, i: int, j: int)
    requires
        network_of(lab) is Ok,
        0 <= i < lab.segments.len(),
        0 <= j < lab.segments.len(),
        i != j,
        lab.segments[i].subnet is None,
    ensures
        ({
            let a = subnet_of(lab, i);
            let b = subnet_of(lab, j);
            &&& a.prefix() == 24
            &&& 0x0AD5_0000 <= a.first()
            &&& a.last() <= 0x0AD5_FFFF
            &&& a.first() % 256 == 0
            &&& a.last() == a.first() + 255
            &&& !(b.first() <= a.first() <= b.last())
            &&& !(a.first() <= b.first() <= a.last())
        }),
{
    let n = lab.segments.len() as int;
    lemma_auto_place(lab, i, n);
    lemma_pool_net(free_from(lab, pool_after(lab, i)->0)->0);
    allocated_subnets_are_disjoint(lab, i, j);
    let a = subnet_of(lab, i);
    let b = subnet_of(lab, j);
    if b.first() <= a.first() <= b.last() {
        assert(a.holds(Ipv4Addr { bits: a.first() as u32 }));
    }
}

/// The built-in NAT segment is there exactly when some card asks for it and no
/// declared segment has its name: with NAT and DHCP, on a free /24 of the pool.
/// A lab that asks for it and declares a segment of that name has no network.
pub proof fn egress_is_built_on_demand(lab: LabView)
    ensures
        ({
            let wanted = exists|i: int, k: int|
                0 <= i < lab.vms.len() && 0 <= k < lab.vms[i].nics.len() && (
                #[trigger] lab.vms[i].nics[k]).nat;
            let declared = exists|i: int|
                0 <= i < lab.segments.len() && (#[trigger] lab.segments[i]).name == NAT_SEGMENT@;
            &&& wanted && declared ==> network_of(lab) is Err
            &&& !wanted && !declared && network_of(lab) is Ok
                ==> !(network_of(lab)->Ok_0).dom().contains(NAT_SEGMENT@)
            &&& wanted && network_of(lab) is Ok ==> {
                let nets = network_of(lab)->Ok_0;
                let n = nets[NAT_SEGMENT@];
                &&& nets.dom().contains(NAT_SEGMENT@)
                &&& n.name == NAT_SEGMENT@
                &&& n.config is None
                &&& n.nat && n.dhcp && !n.global && n.mtu is None
                &&& n.subnet.prefix() == 24
                &&& 0x0AD5_0000 <= n.subnet.first() <= 0x0AD5_FF00
                &&& n.gateway_ip.bits == n.subnet.first() + 1
            }
        }),
{
    let n = lab.segments.len() as int;
    let wanted = exists|i: int, k: int|
        0 <= i < lab.vms.len() && 0 <= k < lab.vms[i].nics.len() && (
        #[trigger] lab.vms[i].nics[k]).nat;
    assert(wanted == needs_egress(lab)) by {
        if wanted {
            let (i, k) = choose|i: int, k: int|
                0 <= i < lab.vms.len() && 0 <= k < lab.vms[i].nics.len() && (
                #[trigger] lab.vms[i].nics[k]).nat;
            assert(vm_needs_egress(lab.vms[i]));
        }
        if needs_egress(lab) {
            let i = choose|i: int| 0 <= i < lab.vms.len() && vm_needs_egress(#[trigger] lab.vms[i]);
            let k = choose|k: int| 0 <= k < lab.vms[i].nics.len() && (#[trigger] lab.vms[i].nics[k]).nat;
            assert(lab.vms[i].nics[k].nat);
        }
    }
    lemma_declared_names(lab, n, NAT_SEGMENT@);
    if pool_after(lab, n) is Some {
        lemma_pool_grows(lab, n, n);
        let c = pool_after(lab, n)->0;
        if free_from(lab, c) is Some {
            lemma_free_from(lab, c);
            lemma_pool_net(free_from(lab, c)->0);
        }
    }
}

proof fn lemma_declared_names(lab: LabView, n: int, name: Seq<char>)
    requires
        0 <= n <= lab.segments.len(),
    ensures
        declared_nets(lab, n).dom().contains(name) <==> exists|i: int|
            0 <= i < n && (#[trigger] lab.segments[i]).name == name,
    decreases n,
{
    if n > 0 {
        lemma_declared_names(lab, n - 1, name);
        assert(lab.segments[n - 1].name == lab.segments[n - 1].name);
    }
}

/// A lab whose segments all declare their subnets and that asks for no NAT
/// always has a network.
pub proof fn declared_lab_has_a_network(lab: LabView)
    requires
        forall|i: int| 0 <= i < lab.segments.len() ==> (#[trigger] lab.segments[i]).subnet is Some,
        !needs_egress(lab),
    ensures
        network_of(lab) is Ok,
{
    lemma_nothing_taken(lab, lab.segments.len() as int);
}

proof fn lemma_nothing_taken(lab: LabView, n: int)
    requires
        0 <= n <= lab.segments.len(),
        forall|i: int| 0 <= i < lab.segments.len() ==> (#[trigger] lab.segments[i]).subnet is Some,
    ensures
        pool_after(lab, n) == Some(0int),
    decreases n,
{
    if n > 0 {
        lemma_nothing_taken(lab, n - 1);
        assert(lab.segments[n - 1].subnet is Some);
    }
}

/// What a segment carries: the MTU it declares, else 9000 bytes where it goes
/// through the userspace network alone, else 1500.
pub proof fn mtu_is_declared_or_standard(s: SegmentNetView)
    ensures
        s.mtu matches Some(m) ==> s.effective_mtu() == m,
        s.mtu is None && (s.nat || s.global) ==> s.effective_mtu() == 9000,
        s.mtu is None && !s.nat && !s.global ==> s.effective_mtu() == 1500,
{
}

} // verus!
