//! What a lab tells of itself.

use vstd::prelude::*;

use crate::config::model::{
    mac_text, template_ref_value, Nic, NicView, TemplateRef, TemplateRefView, Vm, VmView,
};
use crate::labd::lab::LabRuntime;
use crate::labd::network::SegmentNetView;

use crate::labd::vm::PowerState;
use crate::net::addr::MacAddr;
use crate::net::cidr::{ip_text, net_text};
use crate::text::{cat3, cat5, copy_option, find_char, lemma_found};

verus! {

/// How a guest does at the moment.
#[derive(Debug)]
pub struct VmLive {
    pub state: PowerState,
    pub ready: bool,
    pub ip: Option<String>,
}

/// A network card, as told.
#[derive(Debug)]
pub struct NicStatus {
    pub segment: Option<String>,
    pub mac: Option<String>,
    pub static_ip: Option<String>,
}

/// The contents of a [`NicStatus`].
pub ghost struct NicStatusView {
    pub segment: Option<Seq<char>>,
    pub mac: Option<Seq<char>>,
    pub static_ip: Option<Seq<char>>,
}

impl DeepView for NicStatus {
    type V = NicStatusView;

    open spec fn deep_view(&self) -> NicStatusView {
        NicStatusView {
            segment: self.segment.deep_view(),
            mac: self.mac.deep_view(),
            static_ip: self.static_ip.deep_view(),
        }
    }
}

/// A guest, as told.
#[derive(Debug)]
pub struct VmStatus {
    pub name: String,
    pub state: PowerState,
    pub ready: bool,
    pub ip: Option<String>,
    pub template: String,
    pub arch: Option<String>,
    pub cpus: Option<u32>,
    pub memory: Option<u64>,
    pub nics: Vec<NicStatus>,
}

/// The contents of a [`VmStatus`].
pub ghost struct VmStatusView {
    pub name: Seq<char>,
    pub state: PowerState,
    pub ready: bool,
    pub ip: Option<Seq<char>>,
    pub template: Seq<char>,
    pub arch: Option<Seq<char>>,
    pub cpus: Option<u32>,
    pub memory: Option<u64>,
    pub nics: Seq<NicStatusView>,
}

impl DeepView for VmStatus {
    type V = VmStatusView;

    open spec fn deep_view(&self) -> VmStatusView {
        VmStatusView {
            name: self.name@,
            state: self.state,
            ready: self.ready,
            ip: self.ip.deep_view(),
            template: self.template@,
            arch: self.arch.deep_view(),
            cpus: self.cpus,
            memory: self.memory,
            nics: self.nics.deep_view(),
        }
    }
}

/// A segment, as told.
#[derive(Debug)]
pub struct SegmentStatus {
    pub name: String,
    pub subnet: String,
    pub gateway: String,
    pub nat: bool,
    pub dhcp: bool,
}

/// The contents of a [`SegmentStatus`].
pub ghost struct SegmentStatusView {
    pub name: Seq<char>,
    pub subnet: Seq<char>,
    pub gateway: Seq<char>,
    pub nat: bool,
    pub dhcp: bool,
}

impl DeepView for SegmentStatus {
    type V = SegmentStatusView;

    open spec fn deep_view(&self) -> SegmentStatusView {
        SegmentStatusView {
            name: self.name@,
            subnet: self.subnet@,
            gateway: self.gateway@,
            nat: self.nat,
            dhcp: self.dhcp,
        }
    }
}

/// A lab, as told.
#[derive(Debug)]
pub struct LabStatus {
    pub lab: String,
    pub vms: Vec<VmStatus>,
    pub segments: Vec<SegmentStatus>,
}

/// A reference to a template, as text.
pub open spec fn template_text(t: TemplateRefView) -> Seq<char> {
    match t {
        TemplateRefView::Scratch => "scratch"@,
        TemplateRefView::Store { arch, name, version } => match version {
            Some(v) => arch + "/"@ + name + "@"@ + v,
            None => arch + "/"@ + name,
        },
        TemplateRefView::Registry { reference } => reference,
    }
}

impl TemplateRef {
    /// The reference as text.
    pub fn to_text(&self) -> (s: String)
        ensures
            s@ == template_text(self.deep_view()),
    {
        match self {
            TemplateRef::Scratch => "scratch".to_owned(),
            TemplateRef::Store { arch, name, version } => match version {
                Some(v) => cat5(arch.as_str(), "/", name.as_str(), "@", v.as_str()),
                None => cat3(arch.as_str(), "/", name.as_str()),
            },
            TemplateRef::Registry { reference } => reference.clone(),
        }
    }
}

/// What is told of a network card.
pub open spec fn nic_status(n: NicView, macs: Seq<MacAddr>, i: int) -> NicStatusView {
    NicStatusView {
        segment: n.segment,
        mac: if i < macs.len() {
            Some(mac_text(macs[i]))
        } else {
            None
        },
        static_ip: match n.ip {
            Some(a) => Some(ip_text(a)),
            None => None,
        },
    }
}

/// What is told of a guest: its address only once it is ready.
pub open spec fn vm_status(name: Seq<char>, v: VmView, macs: Seq<MacAddr>, live: VmLive) -> VmStatusView {
    VmStatusView {
        name,
        state: live.state,
        ready: live.ready,
        ip: if live.ready {
            live.ip.deep_view()
        } else {
            None
        },
        template: template_text(v.template),
        arch: v.arch,
        cpus: v.cpus,
        memory: v.memory,
        nics: Seq::new(v.nics.len(), |i: int| nic_status(v.nics[i], macs, i)),
    }
}

/// What is told of a segment.
pub open spec fn segment_status(s: SegmentNetView) -> SegmentStatusView {
    SegmentStatusView {
        name: s.name,
        subnet: net_text(s.subnet),
        gateway: ip_text(s.gateway_ip),
        nat: s.nat,
        dhcp: s.dhcp,
    }
}

fn nic_told(n: &Nic, macs: &Vec<MacAddr>, i: usize) -> (r: NicStatus)
    ensures
        r.deep_view() == nic_status(n.deep_view(), macs@, i as int),
{
    NicStatus {
        segment: copy_option(&n.segment),
        mac: if i < macs.len() {
            Some(macs[i].to_text())
        } else {
            None
        },
        static_ip: match n.ip {
            Some(a) => Some(a.to_text()),
            None => None,
        },
    }
}

fn nics_told(nics: &Vec<Nic>, macs: &Vec<MacAddr>) -> (r: Vec<NicStatus>)
    ensures
        r.deep_view() == Seq::new(
            nics.deep_view().len(),
            |i: int| nic_status(nics.deep_view()[i], macs@, i),
        ),
{
    let ghost cards = nics.deep_view();
    let mut out: Vec<NicStatus> = Vec::new();
    let mut i: usize = 0;
    while i < nics.len()
        invariant
            i <= nics@.len(),
            cards == nics.deep_view(),
            out@.len() == i,
            forall|j: int|
                0 <= j < i ==> (#[trigger] out@[j]).deep_view() == nic_status(cards[j], macs@, j),
        decreases nics@.len() - i,
    {
        assert(cards[i as int] == nics@[i as int].deep_view());
        out.push(nic_told(&nics[i], macs, i));
        i = i + 1;
    }
    assert(out.deep_view() =~= Seq::new(cards.len(), |i: int| nic_status(cards[i], macs@, i)));
    out
}

fn vm_told(name: &str, vm: &Vm, macs: &Vec<MacAddr>, live: &VmLive) -> (r: VmStatus)
    ensures
        r.deep_view() == vm_status(name@, vm.deep_view(), macs@, *live),
{
    VmStatus {
        name: name.to_owned(),
        state: live.state,
        ready: live.ready,
        ip: if live.ready {
            copy_option(&live.ip)
        } else {
            None
        },
        template: vm.template.to_text(),
        arch: copy_option(&vm.arch),
        cpus: vm.cpus,
        memory: vm.memory,
        nics: nics_told(&vm.nics, macs),
    }
}

/// A snapshot, as told.
#[derive(Debug)]
pub struct SnapshotStatus {
    pub name: String,
    pub online: bool,
    pub taken_at: String,
}

impl LabRuntime {
    /// What the lab tells of itself: the guests and the segments, each by name.
    /// `live` says how the guests do, in that order.
    pub fn status(&self, live: &Vec<VmLive>) -> (r: LabStatus)
        requires
            self.planned(),
            live@.len() == self.vms.names().len(),
        ensures
            r.lab@ == self.lab.name@,
            r.vms@.len() == self.vms.names().len(),
            forall|i: int|
                0 <= i < r.vms@.len() ==> {
                    let name = self.vms.names()[i];
                    let plan = self.vms@[name];
                    (#[trigger] r.vms@[i]).deep_view() == vm_status(
                        name,
                        self.lab.vms@[plan.index as int].deep_view(),
                        plan.macs@,
                        live@[i],
                    )
                },
            r.segments@.len() == self.network.segments.names().len(),
            forall|i: int|
                0 <= i < r.segments@.len() ==> (#[trigger] r.segments@[i]).deep_view()
                    == segment_status(
                    self.network.segments@[self.network.segments.names()[i]].deep_view(),
                ),
    {
        let mut vms: Vec<VmStatus> = Vec::new();
        let mut i: usize = 0;
        while i < self.vms.len()
            invariant
                i <= self.vms.names().len(),
                self.planned(),
                live@.len() == self.vms.names().len(),
                vms@.len() == i,
                forall|j: int|
                    0 <= j < i ==> {
                        let name = self.vms.names()[j];
                        let plan = self.vms@[name];
                        (#[trigger] vms@[j]).deep_view() == vm_status(
                            name,
                            self.lab.vms@[plan.index as int].deep_view(),
                            plan.macs@,
                            live@[j],
                        )
                    },
            decreases self.vms.names().len() - i,
        {
            let (name, plan) = self.vms.at(i);
            vms.push(vm_told(name.as_str(), &self.lab.vms[plan.index], &plan.macs, &live[i]));
            i = i + 1;
        }
        let mut segments: Vec<SegmentStatus> = Vec::new();
        let mut k: usize = 0;
        while k < self.network.segments.len()
            invariant
                k <= self.network.segments.names().len(),
                segments@.len() == k,
                forall|j: int|
                    0 <= j < k ==> (#[trigger] segments@[j]).deep_view() == segment_status(
                        self.network.segments@[self.network.segments.names()[j]].deep_view(),
                    ),
            decreases self.network.segments.names().len() - k,
        {
            let (_, s) = self.network.segments.at(k);
            segments.push(
                SegmentStatus {
                    name: s.name.clone(),
                    subnet: s.subnet.to_text(),
                    gateway: s.gateway_ip.to_text(),
                    nat: s.nat,
                    dhcp: s.dhcp,
                },
            );
            k = k + 1;
        }
        LabStatus { lab: self.lab.name.clone(), vms, segments }
    }

    /// The snapshots of a guest, by name.
    pub fn snapshots(&self, vm: &str) -> (r: Vec<SnapshotStatus>)
        ensures
            self.state.vms@.dom().contains(vm@) ==> ({
                let kept = self.state.vms@[vm@].snapshots;
                &&& r@.len() == kept.names().len()
                &&& forall|i: int|
                    0 <= i < r@.len() ==> {
                        &&& (#[trigger] r@[i]).name@ == kept.names()[i]
                        &&& r@[i].online == kept@[kept.names()[i]].online
                        &&& r@[i].taken_at@ == kept@[kept.names()[i]].taken_at@
                    }
            }),
            !self.state.vms@.dom().contains(vm@) ==> r@.len() == 0,
    {
        let mut out: Vec<SnapshotStatus> = Vec::new();
        if let Some(v) = self.state.vms.get(vm) {
            let kept = &v.snapshots;
            let mut i: usize = 0;
            while i < kept.len()
                invariant
                    i <= kept.names().len(),
                    out@.len() == i,
                    forall|j: int|
                        0 <= j < i ==> {
                            &&& (#[trigger] out@[j]).name@ == kept.names()[j]
                            &&& out@[j].online == kept@[kept.names()[j]].online
                            &&& out@[j].taken_at@ == kept@[kept.names()[j]].taken_at@
                        },
                decreases kept.names().len() - i,
            {
                let (name, s) = kept.at(i);
                out.push(
                    SnapshotStatus {
                        name: name.clone(),
                        online: s.online,
                        taken_at: s.taken_at.clone(),
                    },
                );
                i = i + 1;
            }
        }
        out
    }
}

// -- laws -----------------------------------------------------------------------------------

/// A template is told as the lab file refers to it.
pub proof fn template_is_told_as_written(s: Seq<char>, arches: Seq<Seq<char>>)
    requires
        template_ref_value(s, arches) is Some,
    ensures
        template_text(template_ref_value(s, arches)->0) == s,
{
    if s != "scratch"@ {
        reveal_strlit("/");
        reveal_strlit("@");
        lemma_found(s, '/');
        let i = find_char(s, '/')->0;
        if arches.contains(s.take(i)) {
            let rest = s.skip(i + 1);
            lemma_found(rest, '@');
            assert(template_text(template_ref_value(s, arches)->0) =~= s);
        }
    }
}

/// What is told of a guest is its own: what its block says, how it does now,
/// its hardware addresses card by card, and its address only while it is ready.
pub proof fn guest_is_told_as_it_is(
    rt: &LabRuntime,
    live: &Vec<VmLive>,
    r: LabStatus,
    i: int,
    k: int,
)
    requires
        rt.planned(),
        live@.len() == rt.vms.names().len(),
        call_ensures(LabRuntime::status, (rt, live), r),
        0 <= i < r.vms@.len(),
        rt.vms@.dom().contains(rt.vms.names()[i]),
    ensures
        ({
            let name = rt.vms.names()[i];
            let plan = rt.vms@[name];
            let vm = rt.lab.vms@[plan.index as int];
            let told = r.vms@[i];
            &&& r.vms@.len() == live@.len()
            &&& told.name@ == name
            &&& vm.name@ == name
            &&& told.state == live@[i].state
            &&& told.ready == live@[i].ready
            &&& told.ip is Some <==> live@[i].ready && live@[i].ip is Some
            &&& told.ip is Some ==> told.ip->0@ == live@[i].ip->0@
            &&& told.cpus == vm.cpus
            &&& told.memory == vm.memory
            &&& told.nics@.len() == vm.nics@.len()
            &&& 0 <= k < vm.nics@.len() && k < plan.macs@.len() ==> told.nics@[k].mac is Some
                && told.nics@[k].mac->0@ == mac_text(plan.macs@[k])
            &&& 0 <= k < vm.nics@.len() ==> (told.nics@[k].static_ip is Some
                <==> vm.nics@[k].ip is Some) && (told.nics@[k].segment is Some
                <==> vm.nics@[k].segment is Some)
        }),
{
    let name = rt.vms.names()[i];
    let plan = rt.vms@[name];
    let vm = rt.lab.vms@[plan.index as int];
    let told = r.vms@[i];
    let view = vm_status(name, vm.deep_view(), plan.macs@, live@[i]);
    assert(told.deep_view() == view);
    assert(told.deep_view().nics.len() == told.nics@.len());
    assert(vm.deep_view().nics.len() == vm.nics@.len());
    if 0 <= k < vm.nics@.len() {
        assert(told.deep_view().nics[k] == told.nics@[k].deep_view());
        assert(view.nics[k] == nic_status(vm.deep_view().nics[k], plan.macs@, k));
        assert(vm.deep_view().nics[k] == vm.nics@[k].deep_view());
    }
}

} // verus!
