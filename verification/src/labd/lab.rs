//! Lab runtime: owns the plans of the guests, the network and the persisted
//! state of a lab, and decides what the lifecycle verbs do. The caller does the
//! work.

use vstd::prelude::*;

use crate::config::model::{
    Lab, LabFile, LabView, Media, MediaKind, MediaView, Nic, NicView, TemplateRef, TemplateRefView,
    Vm, VmView,
};
use crate::labd::network::{
    network_of, nets_of, nic_segment_name, LabNetwork, SegmentNetView, NAT_SEGMENT, STANDARD_MTU,
};
use crate::labd::state::{
    mac_for, macs_kept, snapshots_kept, stable_macs, LabState, SnapshotRecord,
};
use crate::labd::up::no_such_vm;
use crate::labd::vm::StopReason;
use crate::names::NameMap;
use crate::net::addr::{Ipv4Addr, MacAddr};
use crate::net::cidr::ip_value;
use crate::text::{
    any_string, cat3, cat5, copy_option, copy_strings, join, join_path, join_strings, joined,
    path_join,
};

verus! {

// -- what a guest is made from ---------------------------------------------------------

/// Where a guest's disk comes from.
#[derive(Debug)]
pub enum Backing {
    /// An empty disk of this size.
    Scratch { disk: Option<u64> },
    /// A clone of a template in the store.
    Store { arch: String, name: String, version: Option<String> },
    /// A clone of a template that is pulled first if the store lacks it.
    Pull { reference: String, arch: String },
}

/// The contents of a [`Backing`].
pub ghost enum BackingView {
    Scratch { disk: Option<u64> },
    Store { arch: Seq<char>, name: Seq<char>, version: Option<Seq<char>> },
    Pull { reference: Seq<char>, arch: Seq<char> },
}

impl DeepView for Backing {
    type V = BackingView;

    open spec fn deep_view(&self) -> BackingView {
        match *self {
            Backing::Scratch { disk } => BackingView::Scratch { disk },
            Backing::Store { arch, name, version } => BackingView::Store {
                arch: arch@,
                name: name@,
                version: version.deep_view(),
            },
            Backing::Pull { reference, arch } => BackingView::Pull {
                reference: reference@,
                arch: arch@,
            },
        }
    }
}

/// Where a guest's disk comes from, or why that is not clear.
pub open spec fn backing_of(v: VmView) -> Result<BackingView, Seq<char>> {
    match v.template {
        TemplateRefView::Scratch => Ok(BackingView::Scratch { disk: v.disk }),
        TemplateRefView::Store { arch, name, version } => Ok(
            BackingView::Store { arch, name, version },
        ),
        TemplateRefView::Registry { reference } => match v.arch {
            Some(arch) => Ok(BackingView::Pull { reference, arch }),
            None => Err(
                "vm \""@ + v.name + "\": registry template needs an explicit arch"@,
            ),
        },
    }
}

/// Where a guest's disk comes from.
pub fn plan_backing(vm: &Vm) -> (r: Result<Backing, String>)
    ensures
        match r {
            Ok(b) => backing_of(vm.deep_view()) == Ok::<BackingView, Seq<char>>(b.deep_view()),
            Err(e) => backing_of(vm.deep_view()) == Err::<BackingView, Seq<char>>(e@),
        },
{
    match &vm.template {
        TemplateRef::Scratch => Ok(Backing::Scratch { disk: vm.disk }),
        TemplateRef::Store { arch, name, version } => Ok(
            Backing::Store {
                arch: arch.clone(),
                name: name.clone(),
                version: copy_option(version),
            },
        ),
        TemplateRef::Registry { reference } => match &vm.arch {
            Some(arch) => Ok(Backing::Pull { reference: reference.clone(), arch: arch.clone() }),
            None => Err(
                cat3(
                    "vm \"",
                    vm.name.as_str(),
                    "\": registry template needs an explicit arch",
                ),
            ),
        },
    }
}

/// The images that a guest's drives hold.
#[derive(Debug)]
pub struct Drives {
    pub cdroms: Vec<String>,
    pub floppy: Option<String>,
}

/// The CD images of a guest, when its first `n` media were built: the one it
/// attaches, then the built ones.
pub open spec fn cdroms_of(
    root: Seq<char>,
    cdrom: Option<Seq<char>>,
    media: Seq<MediaView>,
    built: Seq<Seq<char>>,
    n: int,
) -> Seq<Seq<char>>
    decreases n,
{
    if n <= 0 {
        match cdrom {
            Some(c) => seq![path_join(root, c)],
            None => Seq::empty(),
        }
    } else {
        let front = cdroms_of(root, cdrom, media, built, n - 1);
        if media[n - 1].kind == MediaKind::Iso {
            front.push(built[n - 1])
        } else {
            front
        }
    }
}

/// The floppy images of a guest, when its first `n` media were built.
pub open spec fn floppies_of(
    root: Seq<char>,
    floppy: Option<Seq<char>>,
    media: Seq<MediaView>,
    built: Seq<Seq<char>>,
    n: int,
) -> Seq<Seq<char>>
    decreases n,
{
    if n <= 0 {
        match floppy {
            Some(f) => seq![path_join(root, f)],
            None => Seq::empty(),
        }
    } else {
        let front = floppies_of(root, floppy, media, built, n - 1);
        if media[n - 1].kind == MediaKind::Floppy {
            front.push(built[n - 1])
        } else {
            front
        }
    }
}

proof fn lemma_floppies_grow(
    root: Seq<char>,
    floppy: Option<Seq<char>>,
    media: Seq<MediaView>,
    built: Seq<Seq<char>>,
    i: int,
    n: int,
)
    requires
        0 <= i <= n,
    ensures
        floppies_of(root, floppy, media, built, i).len() <= floppies_of(
            root,
            floppy,
            media,
            built,
            n,
        ).len(),
    decreases n,
{
    if i < n {
        lemma_floppies_grow(root, floppy, media, built, i, n - 1);
    }
}

/// What is said of a guest with two floppies.
pub open spec fn two_floppies(vm: Seq<char>) -> Seq<char> {
    "vm \""@ + vm
        + "\": both a floppy attachment and floppy media declared — a VM has one floppy drive"@
}

/// What a guest's drives hold, when `built` are the images of its media: a
/// guest has one floppy drive.
pub fn plan_drives(root: &str, vm: &Vm, built: &Vec<String>) -> (r: Result<Drives, String>)
    requires
        built@.len() == vm.media@.len(),
    ensures
        ({
            let v = vm.deep_view();
            let n = v.media.len() as int;
            let floppies = floppies_of(root@, v.floppy, v.media, built.deep_view(), n);
            &&& r is Ok <==> floppies.len() <= 1
            &&& r matches Ok(d) ==> d.cdroms.deep_view() == cdroms_of(
                root@,
                v.cdrom,
                v.media,
                built.deep_view(),
                n,
            ) && d.floppy.deep_view() == (if floppies.len() == 1 {
                Some(floppies[0])
            } else {
                None
            })
            &&& r matches Err(e) ==> e@ == two_floppies(v.name)
        }),
{
    let ghost v = vm.deep_view();
    let ghost b = built.deep_view();
    let mut cdroms: Vec<String> = Vec::new();
    if let Some(c) = &vm.cdrom {
        cdroms.push(join_path(root, c.as_str()));
    }
    assert(cdroms.deep_view() =~= cdroms_of(root@, v.cdrom, v.media, b, 0));
    let mut floppy: Option<String> = match &vm.floppy {
        Some(f) => Some(join_path(root, f.as_str())),
        None => None,
    };
    let mut i: usize = 0;
    while i < vm.media.len()
        invariant
            i <= vm.media@.len(),
            built@.len() == vm.media@.len(),
            v == vm.deep_view(),
            b == built.deep_view(),
            v.media.len() == vm.media@.len(),
            cdroms.deep_view() == cdroms_of(root@, v.cdrom, v.media, b, i as int),
            floppy is Some <==> floppies_of(root@, v.floppy, v.media, b, i as int).len() == 1,
            floppy is None <==> floppies_of(root@, v.floppy, v.media, b, i as int).len() == 0,
            floppy matches Some(f) ==> f@ == floppies_of(
                root@,
                v.floppy,
                v.media,
                b,
                i as int,
            )[0],
        decreases vm.media@.len() - i,
    {
        assert(v.media[i as int] == vm.media@[i as int].deep_view());
        assert(b[i as int] == built@[i as int]@);
        match vm.media[i].kind {
            MediaKind::Iso => {
                let ghost was = cdroms.deep_view();
                cdroms.push(built[i].clone());
                assert(cdroms.deep_view() =~= was.push(b[i as int]));
            },
            MediaKind::Floppy => {
                if floppy.is_some() {
                    proof {
                        lemma_floppies_grow(
                            root@,
                            v.floppy,
                            v.media,
                            b,
                            i + 1,
                            v.media.len() as int,
                        );
                    }
                    return Err(
                        cat3(
                            "vm \"",
                            vm.name.as_str(),
                            "\": both a floppy attachment and floppy media declared — a VM has one floppy drive",
                        ),
                    );
                }
                floppy = Some(built[i].clone());
            },
        }
        i = i + 1;
    }
    Ok(Drives { cdroms, floppy })
}

/// The binaries that starting guests needs, when `emulators` are theirs and
/// some want a TPM: each once, the disk tool first.
pub fn needed_binaries(guests: &Vec<(String, bool)>) -> (r: Vec<String>)
    ensures
        r.deep_view() == binaries_for(guests.deep_view()),
{
    let mut needed: Vec<String> = Vec::new();
    needed.push("qemu-img".to_owned());
    let mut i: usize = 0;
    assert(guests.deep_view().take(0) =~= Seq::empty());
    assert(needed.deep_view() =~= binaries_for(guests.deep_view().take(0)));
    while i < guests.len()
        invariant
            i <= guests@.len(),
            needed.deep_view() == binaries_for(guests.deep_view().take(i as int)),
        decreases guests@.len() - i,
    {
        proof {
            let t = guests.deep_view().take(i as int + 1);
            assert(t.drop_last() =~= guests.deep_view().take(i as int));
            assert(t.last() == guests@[i as int].deep_view());
        }
        let emulator = guests[i].0.as_str();
        let ghost before = needed.deep_view();
        if !any_string(&needed, emulator) {
            needed.push(emulator.to_owned());
            assert(needed.deep_view() =~= before.push(emulator@));
        }
        let ghost mid = needed.deep_view();
        if guests[i].1 && !any_string(&needed, "swtpm") {
            needed.push("swtpm".to_owned());
            assert(needed.deep_view() =~= mid.push("swtpm"@));
        }
        i = i + 1;
    }
    assert(guests.deep_view().take(i as int) =~= guests.deep_view());
    needed
}

/// `s` with `x` at its end, unless it holds it already.
pub open spec fn with_name(s: Seq<Seq<char>>, x: Seq<char>) -> Seq<Seq<char>> {
    if s.contains(x) {
        s
    } else {
        s.push(x)
    }
}

/// The binaries that starting guests needs: each once, the disk tool first.
pub open spec fn binaries_for(guests: Seq<(Seq<char>, bool)>) -> Seq<Seq<char>>
    decreases guests.len(),
{
    if guests.len() == 0 {
        seq!["qemu-img"@]
    } else {
        let front = with_name(binaries_for(guests.drop_last()), guests.last().0);
        if guests.last().1 {
            with_name(front, "swtpm"@)
        } else {
            front
        }
    }
}

/// What is said when binaries are missing.
pub fn missing_binaries(missing: &Vec<String>) -> (r: Result<(), String>)
    ensures
        r is Ok <==> missing@.len() == 0,
        r matches Err(e) ==> e@ == "missing required binaries on PATH: "@ + join(
            missing.deep_view(),
            ", "@,
        ) + " — install the QEMU/swtpm packages"@,
{
    if missing.len() == 0 {
        Ok(())
    } else {
        Err(
            cat3(
                "missing required binaries on PATH: ",
                join_strings(missing, ", ").as_str(),
                " — install the QEMU/swtpm packages",
            ),
        )
    }
}

// -- the runtime ---------------------------------------------------------------------------

/// One guest, ready to be made.
#[derive(Debug)]
pub struct VmPlan {
    /// Which of the lab's guests.
    pub index: usize,
    pub backing: Backing,
    pub macs: Vec<MacAddr>,
    /// What the segment of each card carries.
    pub nic_mtus: Vec<u16>,
    pub drives: Drives,
}

/// The contents of a [`VmPlan`].
pub ghost struct VmPlanView {
    pub index: int,
    pub backing: BackingView,
    pub macs: Seq<MacAddr>,
    pub nic_mtus: Seq<u16>,
    pub cdroms: Seq<Seq<char>>,
    pub floppy: Option<Seq<char>>,
}

impl DeepView for VmPlan {
    type V = VmPlanView;

    open spec fn deep_view(&self) -> VmPlanView {
        VmPlanView {
            index: self.index as int,
            backing: self.backing.deep_view(),
            macs: self.macs@,
            nic_mtus: self.nic_mtus@,
            cdroms: self.drives.cdroms.deep_view(),
            floppy: self.drives.floppy.deep_view(),
        }
    }
}

/// A lab that can run.
pub struct LabRuntime {
    pub root: String,
    pub lab: Lab,
    pub vms: NameMap<VmPlan>,
    pub network: LabNetwork,
    pub state: LabState,
}

impl LabRuntime {
    /// Whether the plans are those of the lab's guests.
    pub open spec fn planned(self) -> bool {
        forall|n: Seq<char>| #[trigger]
            self.vms@.dom().contains(n) ==> {
                &&& self.vms@[n].index < self.lab.vms@.len()
                &&& self.lab.vms@[self.vms@[n].index as int].name@ == n
            }
    }
}

/// Whether every network card of a lab says where it goes.
pub open spec fn cards_placed(lab: LabView) -> bool {
    forall|i: int, k: int|
        0 <= i < lab.vms.len() && 0 <= k < lab.vms[i].nics.len() ==> {
            (#[trigger] lab.vms[i].nics[k]).nat || lab.vms[i].nics[k].segment is Some
        }
}

/// The segment of a network card.
pub open spec fn nic_net(n: NicView) -> Seq<char> {
    if n.nat {
        NAT_SEGMENT@
    } else {
        n.segment->0
    }
}

/// What the segment of a network card carries.
pub open spec fn nic_mtu(nets: Map<Seq<char>, SegmentNetView>, n: NicView) -> u16 {
    if nets.dom().contains(nic_net(n)) {
        nets[nic_net(n)].effective_mtu()
    } else {
        STANDARD_MTU
    }
}

/// The hardware addresses of a guest.
pub open spec fn macs_for(
    lab: Seq<char>,
    vm: Seq<char>,
    nics: Seq<NicView>,
    kept: Seq<MacAddr>,
) -> Seq<MacAddr> {
    Seq::new(nics.len(), |i: int| mac_for(lab, vm, nics, kept, i))
}

/// The hardware addresses kept of each guest.
pub open spec fn kept_of(s: LabState) -> Map<Seq<char>, Seq<MacAddr>> {
    Map::new(|n: Seq<char>| true, |n: Seq<char>| macs_kept(s, n))
}

/// The hardware addresses kept once the first `i` guests were planned.
pub open spec fn kept_after(
    lab: LabView,
    kept: Map<Seq<char>, Seq<MacAddr>>,
    i: int,
) -> Map<Seq<char>, Seq<MacAddr>>
    decreases i,
{
    if i <= 0 {
        kept
    } else {
        let before = kept_after(lab, kept, i - 1);
        let v = lab.vms[i - 1];
        before.insert(v.name, macs_for(lab.name, v.name, v.nics, before[v.name]))
    }
}

/// The names under which something is kept once the first `i` guests were
/// planned.
pub open spec fn named_after(lab: LabView, names: Set<Seq<char>>, i: int) -> Set<Seq<char>>
    decreases i,
{
    if i <= 0 {
        names
    } else {
        named_after(lab, names, i - 1).insert(lab.vms[i - 1].name)
    }
}

/// Whether `s` is what is kept of a lab once all its guests were planned, when
/// `persisted` was kept before: something of each guest, with its hardware
/// addresses, and nothing lost.
pub open spec fn planned_state(lab: LabView, persisted: LabState, s: LabState) -> bool {
    &&& s.vms@.dom() == named_after(lab, persisted.vms@.dom(), lab.vms.len() as int)
    &&& kept_of(s) == kept_after(lab, kept_of(persisted), lab.vms.len() as int)
    &&& forall|n: Seq<char>| #[trigger] snapshots_kept(s, n) == snapshots_kept(persisted, n)
}

/// The plan of a guest, or why it cannot be made.
pub open spec fn plan_of(
    lab: LabView,
    root: Seq<char>,
    nets: Map<Seq<char>, SegmentNetView>,
    kept: Map<Seq<char>, Seq<MacAddr>>,
    built: Seq<Seq<char>>,
    i: int,
) -> Result<VmPlanView, Seq<char>> {
    let v = lab.vms[i];
    let n = v.media.len() as int;
    let floppies = floppies_of(root, v.floppy, v.media, built, n);
    match backing_of(v) {
        Err(e) => Err(e),
        Ok(backing) => if floppies.len() > 1 {
            Err(two_floppies(v.name))
        } else {
            Ok(
                VmPlanView {
                    index: i,
                    backing,
                    macs: macs_for(lab.name, v.name, v.nics, kept_after(lab, kept, i)[v.name]),
                    nic_mtus: Seq::new(v.nics.len(), |k: int| nic_mtu(nets, v.nics[k])),
                    cdroms: cdroms_of(root, v.cdrom, v.media, built, n),
                    floppy: if floppies.len() == 1 {
                        Some(floppies[0])
                    } else {
                        None
                    },
                },
            )
        },
    }
}

/// The plans of the first `i` guests, or why one of them cannot be made.
pub open spec fn plans_of(
    lab: LabView,
    root: Seq<char>,
    nets: Map<Seq<char>, SegmentNetView>,
    kept: Map<Seq<char>, Seq<MacAddr>>,
    built: Seq<Seq<Seq<char>>>,
    i: int,
) -> Result<Map<Seq<char>, VmPlanView>, Seq<char>>
    decreases i,
{
    if i <= 0 {
        Ok(Map::empty())
    } else {
        match plans_of(lab, root, nets, kept, built, i - 1) {
            Err(e) => Err(e),
            Ok(m) => match plan_of(lab, root, nets, kept, built[i - 1], i - 1) {
                Err(e) => Err(e),
                Ok(p) => Ok(m.insert(lab.vms[i - 1].name, p)),
            },
        }
    }
}

/// The first segment that a card names and the lab does not have, from a card
/// on.
pub open spec fn unknown_card(
    nics: Seq<NicView>,
    nets: Map<Seq<char>, SegmentNetView>,
    k: int,
) -> Option<Seq<char>>
    decreases nics.len() - k,
{
    if k >= nics.len() {
        None
    } else if !nets.dom().contains(nic_net(nics[k])) {
        Some(nic_net(nics[k]))
    } else {
        unknown_card(nics, nets, k + 1)
    }
}

/// The first segment that a card names and the lab does not have, from a guest
/// on.
pub open spec fn unknown_segment(
    lab: LabView,
    nets: Map<Seq<char>, SegmentNetView>,
    i: int,
) -> Option<Seq<char>>
    decreases lab.vms.len() - i,
{
    if i >= lab.vms.len() {
        None
    } else {
        match unknown_card(lab.vms[i].nics, nets, 0) {
            Some(s) => Some(s),
            None => unknown_segment(lab, nets, i + 1),
        }
    }
}

/// Whether every guest of a lab can be planned.
pub open spec fn all_planned(
    lab: LabView,
    root: Seq<char>,
    kept: Map<Seq<char>, Seq<MacAddr>>,
    built: Seq<Seq<Seq<char>>>,
) -> bool {
    network_of(lab) matches Ok(nets) && plans_of(
        lab,
        root,
        nets,
        kept,
        built,
        lab.vms.len() as int,
    ) is Ok
}

/// The plans of a lab's guests, or why it cannot run.
pub open spec fn runtime_of(
    lab: LabView,
    root: Seq<char>,
    kept: Map<Seq<char>, Seq<MacAddr>>,
    built: Seq<Seq<Seq<char>>>,
) -> Result<Map<Seq<char>, VmPlanView>, Seq<char>> {
    match network_of(lab) {
        Err(e) => Err(e),
        Ok(nets) => match plans_of(lab, root, nets, kept, built, lab.vms.len() as int) {
            Err(e) => Err(e),
            Ok(m) => match unknown_segment(lab, nets, 0) {
                Some(s) => Err("nic references unknown segment "@ + s),
                None => Ok(m),
            },
        },
    }
}

/// The contents of a table of plans.
pub open spec fn plans_in(m: Map<Seq<char>, VmPlan>) -> Map<Seq<char>, VmPlanView> {
    m.map_values(|p: VmPlan| p.deep_view())
}

proof fn lemma_plans_insert(m: Map<Seq<char>, VmPlan>, n: Seq<char>, p: VmPlan)
    ensures
        plans_in(m.insert(n, p)) == plans_in(m).insert(n, p.deep_view()),
{
    assert(plans_in(m.insert(n, p)) =~= plans_in(m).insert(n, p.deep_view()));
}

proof fn lemma_plans_fail(
    lab: LabView,
    root: Seq<char>,
    nets: Map<Seq<char>, SegmentNetView>,
    kept: Map<Seq<char>, Seq<MacAddr>>,
    built: Seq<Seq<Seq<char>>>,
    i: int,
    n: int,
)
    requires
        0 <= i <= n,
        plans_of(lab, root, nets, kept, built, i) is Err,
    ensures
        plans_of(lab, root, nets, kept, built, n) == plans_of(lab, root, nets, kept, built, i),
    decreases n - i,
{
    if i < n {
        lemma_plans_fail(lab, root, nets, kept, built, i + 1, n);
    }
}

proof fn lemma_plans_index(
    lab: LabView,
    root: Seq<char>,
    nets: Map<Seq<char>, SegmentNetView>,
    kept: Map<Seq<char>, Seq<MacAddr>>,
    built: Seq<Seq<Seq<char>>>,
    i: int,
    n: Seq<char>,
)
    requires
        0 <= i <= lab.vms.len(),
        plans_of(lab, root, nets, kept, built, i) is Ok,
    ensures
        ({
            let m = plans_of(lab, root, nets, kept, built, i)->Ok_0;
            m.dom().contains(n) ==> 0 <= m[n].index < i && lab.vms[m[n].index].name == n
        }),
    decreases i,
{
    if i > 0 {
        lemma_plans_index(lab, root, nets, kept, built, i - 1, n);
    }
}

fn card_mtus(network: &LabNetwork, nics: &Vec<Nic>) -> (r: Vec<u16>)
    requires
        forall|k: int| 0 <= k < nics@.len() ==> (#[trigger] nics@[k]).nat || nics@[k].segment is Some,
    ensures
        r@ == Seq::new(
            nics.deep_view().len(),
            |k: int| nic_mtu(nets_of(network.segments@), nics.deep_view()[k]),
        ),
{
    let ghost nets = nets_of(network.segments@);
    let ghost cards = nics.deep_view();
    let mut out: Vec<u16> = Vec::new();
    let mut k: usize = 0;
    while k < nics.len()
        invariant
            k <= nics@.len(),
            nets == nets_of(network.segments@),
            cards == nics.deep_view(),
            forall|j: int|
                0 <= j < nics@.len() ==> (#[trigger] nics@[j]).nat || nics@[j].segment is Some,
            out@.len() == k,
            forall|j: int| 0 <= j < k ==> #[trigger] out@[j] == nic_mtu(nets, cards[j]),
        decreases nics@.len() - k,
    {
        assert(cards[k as int] == nics@[k as int].deep_view());
        let mtu: u16 = match network.segment(nic_segment_name(&nics[k])) {
            Some(s) => s.effective_mtu(),
            None => STANDARD_MTU,
        };
        out.push(mtu);
        k = k + 1;
    }
    assert(out@ =~= Seq::new(cards.len(), |k: int| nic_mtu(nets, cards[k])));
    out
}

fn find_unknown_card(network: &LabNetwork, nics: &Vec<Nic>) -> (r: Option<String>)
    requires
        forall|k: int| 0 <= k < nics@.len() ==> (#[trigger] nics@[k]).nat || nics@[k].segment is Some,
    ensures
        r.deep_view() == unknown_card(nics.deep_view(), nets_of(network.segments@), 0),
{
    let ghost nets = nets_of(network.segments@);
    let ghost cards = nics.deep_view();
    let mut k: usize = 0;
    while k < nics.len()
        invariant
            k <= nics@.len(),
            nets == nets_of(network.segments@),
            cards == nics.deep_view(),
            cards.len() == nics@.len(),
            forall|j: int|
                0 <= j < nics@.len() ==> (#[trigger] nics@[j]).nat || nics@[j].segment is Some,
            unknown_card(cards, nets, 0) == unknown_card(cards, nets, k as int),
        decreases nics@.len() - k,
    {
        assert(cards[k as int] == nics@[k as int].deep_view());
        let name = nic_segment_name(&nics[k]);
        if network.segment(name).is_none() {
            return Some(name.to_owned());
        }
        k = k + 1;
    }
    None
}

fn plan_all(
    lab: &Lab,
    root: &str,
    network: &LabNetwork,
    state: &mut LabState,
    built: &Vec<Vec<String>>,
) -> (r: Result<NameMap<VmPlan>, String>)
    requires
        cards_placed(lab.deep_view()),
        built@.len() == lab.vms@.len(),
        forall|i: int|
            0 <= i < built@.len() ==> (#[trigger] built@[i])@.len() == lab.vms@[i].media@.len(),
    ensures
        ({
            let plans = plans_of(
                lab.deep_view(),
                root@,
                nets_of(network.segments@),
                kept_of(*old(state)),
                built.deep_view(),
                lab.vms@.len() as int,
            );
            &&& r is Ok <==> plans is Ok
            &&& r matches Ok(m) ==> {
                &&& plans_in(m@) == plans->Ok_0
                &&& planned_state(lab.deep_view(), *old(state), *final(state))
            }
            &&& r matches Err(e) ==> e@ == plans->Err_0
        }),
{
    let ghost view = lab.deep_view();
    let ghost kept = kept_of(*state);
    let ghost images = built.deep_view();
    let ghost nets = nets_of(network.segments@);
    let mut vms: NameMap<VmPlan> = NameMap::new();
    let mut i: usize = 0;
    assert(plans_in(vms@) =~= Map::empty());
    while i < lab.vms.len()
        invariant
            i <= lab.vms@.len(),
            view == lab.deep_view(),
            view.vms.len() == lab.vms@.len(),
                            images == built.deep_view(),
            nets == nets_of(network.segments@),
                            cards_placed(view),
            built@.len() == lab.vms@.len(),
            forall|j: int|
                0 <= j < built@.len() ==> (#[trigger] built@[j])@.len()
                    == lab.vms@[j].media@.len(),
            kept == kept_of(*old(state)),
            kept_of(*state) == kept_after(view, kept, i as int),
            state.vms@.dom() == named_after(view, old(state).vms@.dom(), i as int),
            forall|n: Seq<char>| #[trigger]
                snapshots_kept(*state, n) == snapshots_kept(*old(state), n),
            plans_of(view, root@, nets, kept, images, i as int) == Ok::<
                Map<Seq<char>, VmPlanView>,
                Seq<char>,
            >(plans_in(vms@)),
        decreases lab.vms@.len() - i,
    {
        let vm = &lab.vms[i];
        let ghost v = view.vms[i as int];
        assert(v == vm.deep_view());
        assert(images[i as int] == built@[i as int].deep_view());
        assert(built@[i as int].deep_view().len() == built@[i as int]@.len());
        proof {
            if plans_of(view, root@, nets, kept, images, i + 1) is Err {
                lemma_plans_fail(view, root@, nets, kept, images, i + 1, view.vms.len() as int);
            }
        }
        let backing = match plan_backing(vm) {
            Ok(b) => b,
            Err(e) => return Err(e),
        };
        let macs = stable_macs(
            lab.name.as_str(),
            vm.name.as_str(),
            &vm.nics,
            &state.macs_of(vm.name.as_str()),
        );
        let ghost before = *state;
        proof {
            assert(kept_of(before)[v.name] == macs_kept(before, v.name));
            assert(macs@ =~= macs_for(view.name, v.name, v.nics, kept_of(before)[v.name]));
        }
        let mut copy: Vec<MacAddr> = Vec::new();
        let mut k: usize = 0;
        while k < macs.len()
            invariant
                k <= macs@.len(),
                copy@ == macs@.take(k as int),
            decreases macs@.len() - k,
        {
            copy.push(macs[k]);
            assert(macs@.take(k as int).push(macs@[k as int]) =~= macs@.take(k + 1));
            k = k + 1;
        }
        assert(copy@ =~= macs@);
        state.set_macs(vm.name.as_str(), copy);
        proof {
            assert forall|n: Seq<char>| n != v.name implies macs_kept(*state, n) == macs_kept(
                before,
                n,
            ) && snapshots_kept(*state, n) == snapshots_kept(before, n) by {
                let a = state.vms@.remove(v.name);
                assert(a == before.vms@.remove(v.name));
                assert(a.dom().contains(n) <==> state.vms@.dom().contains(n));
                assert(a.dom().contains(n) <==> before.vms@.dom().contains(n));
                if a.dom().contains(n) {
                    assert(a[n] == state.vms@[n]);
                    assert(a[n] == before.vms@[n]);
                }
            }
            assert(kept_of(*state) =~= kept_of(before).insert(v.name, macs@));
            assert forall|n: Seq<char>| #[trigger]
                snapshots_kept(*state, n) == snapshots_kept(*old(state), n) by {
                assert(snapshots_kept(before, n) == snapshots_kept(*old(state), n));
            }
            assert forall|k: int| 0 <= k < vm.nics@.len() implies (#[trigger] vm.nics@[k]).nat
                || vm.nics@[k].segment is Some by {
                assert(v.nics[k] == vm.nics@[k].deep_view());
                assert(view.vms[i as int].nics[k].nat || view.vms[i as int].nics[k].segment is Some);
            }
        }
        let drives = match plan_drives(root, vm, &built[i]) {
            Ok(d) => d,
            Err(e) => return Err(e),
        };
        let nic_mtus = card_mtus(network, &vm.nics);
        let plan = VmPlan { index: i, backing, macs, nic_mtus, drives };
        proof {
            lemma_plans_insert(vms@, v.name, plan);
            let p = plan_of(view, root@, nets, kept, images[i as int], i as int)->Ok_0;
            assert(plan.deep_view().nic_mtus =~= p.nic_mtus);
            assert(plan.deep_view() == p);
        }
        vms.insert(vm.name.as_str(), plan);
        i = i + 1;
    }
    Ok(vms)
}

fn find_unknown_segment(lab: &Lab, network: &LabNetwork) -> (r: Option<String>)
    requires
        cards_placed(lab.deep_view()),
    ensures
        r.deep_view() == unknown_segment(lab.deep_view(), nets_of(network.segments@), 0),
{
    let ghost view = lab.deep_view();
    let ghost nets = nets_of(network.segments@);
    let mut j: usize = 0;
    while j < lab.vms.len()
        invariant
            j <= lab.vms@.len(),
            view == lab.deep_view(),
            view.vms.len() == lab.vms@.len(),
            nets == nets_of(network.segments@),
            cards_placed(view),
            unknown_segment(view, nets, 0) == unknown_segment(view, nets, j as int),
        decreases lab.vms@.len() - j,
    {
        let vm = &lab.vms[j];
        proof {
            let v = view.vms[j as int];
            assert(v == vm.deep_view());
            assert forall|k: int| 0 <= k < vm.nics@.len() implies (#[trigger] vm.nics@[k]).nat
                || vm.nics@[k].segment is Some by {
                assert(v.nics[k] == vm.nics@[k].deep_view());
                assert(view.vms[j as int].nics[k].nat || view.vms[j as int].nics[k].segment is Some);
            }
        }
        if let Some(s) = find_unknown_card(network, &vm.nics) {
            return Some(s);
        }
        j = j + 1;
    }
    None
}

/// Why a lab cannot run, and what is to be kept of it all the same.
pub struct BuildError {
    pub message: String,
    pub state: Option<LabState>,
}

impl LabRuntime {
    /// Plans a lab's guests. `built` are the images of each guest's media. A lab
    /// whose guests are planned but name a segment that it does not have is
    /// refused, and what is to be kept of it comes with the refusal.
    pub fn build(file: LabFile, persisted: LabState, built: &Vec<Vec<String>>) -> (r: Result<
        LabRuntime,
        BuildError,
    >)
        requires
            cards_placed(file.lab.deep_view()),
            built@.len() == file.lab.vms@.len(),
            forall|i: int|
                0 <= i < built@.len() ==> (#[trigger] built@[i])@.len()
                    == file.lab.vms@[i].media@.len(),
        ensures
            ({
                let plans = runtime_of(
                    file.lab.deep_view(),
                    file.root@,
                    kept_of(persisted),
                    built.deep_view(),
                );
                &&& r is Ok <==> plans is Ok
                &&& r matches Ok(rt) ==> {
                    &&& plans_in(rt.vms@) == plans->Ok_0
                    &&& nets_of(rt.network.segments@) == network_of(file.lab.deep_view())->Ok_0
                    &&& rt.planned()
                    &&& rt.root == file.root
                    &&& rt.lab == file.lab
                    &&& planned_state(file.lab.deep_view(), persisted, rt.state)
                }
                &&& r matches Err(e) ==> {
                    &&& e.message@ == plans->Err_0
                    &&& e.state is Some <==> all_planned(
                        file.lab.deep_view(),
                        file.root@,
                        kept_of(persisted),
                        built.deep_view(),
                    )
                    &&& e.state matches Some(s) ==> planned_state(
                        file.lab.deep_view(),
                        persisted,
                        s,
                    )
                }
            }),
    {
        let network = match LabNetwork::build(&file.lab) {
            Ok(n) => n,
            Err(message) => return Err(BuildError { message, state: None }),
        };
        let mut state = persisted;
        let vms = match plan_all(&file.lab, file.root.as_str(), &network, &mut state, built) {
            Ok(m) => m,
            Err(message) => return Err(BuildError { message, state: None }),
        };
        if let Some(s) = find_unknown_segment(&file.lab, &network) {
            let message = joined("nic references unknown segment ", s.as_str());
            return Err(BuildError { message, state: Some(state) });
        }
        proof {
            let lab = file.lab.deep_view();
            assert forall|n: Seq<char>| #[trigger] vms@.dom().contains(n) implies {
                &&& vms@[n].index < file.lab.vms@.len()
                &&& file.lab.vms@[vms@[n].index as int].name@ == n
            } by {
                lemma_plans_index(
                    lab,
                    file.root@,
                    nets_of(network.segments@),
                    kept_of(persisted),
                    built.deep_view(),
                    lab.vms.len() as int,
                    n,
                );
                assert(plans_in(vms@).dom().contains(n));
                assert(plans_in(vms@)[n] == vms@[n].deep_view());
                let i = vms@[n].index as int;
                assert(lab.vms[i] == file.lab.vms@[i].deep_view());
            }
        }
        Ok(LabRuntime { root: file.root, lab: file.lab, vms, network, state })
    }

    /// The plan of a guest.
    pub fn vm(&self, name: &str) -> (r: Result<&VmPlan, String>)
        ensures
            r is Ok <==> self.vms@.dom().contains(name@),
            r matches Ok(p) ==> self.vms@[name@] == *p,
            r matches Err(e) ==> e@ == no_such_vm(self.lab.name@, name@),
    {
        match self.vms.get(name) {
            Some(p) => Ok(p),
            None => Err(cat5("no vm \"", name, "\" in lab \"", self.lab.name.as_str(), "\"")),
        }
    }

    /// The guests that `down` stops: all of them, or those asked for.
    pub fn down_targets(&self, subset: &Vec<String>) -> (r: Vec<String>)
        ensures
            r.deep_view() == (if subset@.len() == 0 {
                self.vms.names()
            } else {
                subset.deep_view()
            }),
    {
        if subset.len() > 0 {
            return copy_strings(subset);
        }
        let mut out: Vec<String> = Vec::new();
        let mut i: usize = 0;
        while i < self.vms.len()
            invariant
                i <= self.vms.names().len(),
                out@.len() == i,
                forall|j: int| 0 <= j < i ==> #[trigger] out@[j]@ == self.vms.names()[j],
            decreases self.vms.names().len() - i,
        {
            out.push(self.vms.at(i).0.clone());
            i = i + 1;
        }
        assert(out.deep_view() =~= self.vms.names());
        out
    }

    // -- snapshots -------------------------------------------------------------------

    /// A snapshot was taken.
    pub fn snapshot(&mut self, vm: &str, snap: &str, online: bool, taken_at: String) -> (r: Result<
        (),
        String,
    >)
        ensures
            r is Ok <==> old(self).vms@.dom().contains(vm@),
            r matches Err(e) ==> e@ == no_such_vm(old(self).lab.name@, vm@) && *final(self) == *old(
                self,
            ),
            r is Ok ==> only_snapshots_changed(
                *old(self),
                *final(self),
                vm@,
                snapshots_kept(old(self).state, vm@).insert(
                    snap@,
                    SnapshotRecord { online, taken_at },
                ),
            ),
    {
        if let Err(e) = self.vm(vm) {
            return Err(e);
        }
        self.state.record_snapshot(vm, snap, SnapshotRecord { online, taken_at });
        Ok(())
    }

    /// Whether a snapshot that is to be restored was taken online. From then on
    /// something is kept of the guest, whether or not it has the snapshot.
    pub fn restore(&mut self, vm: &str, snap: &str) -> (r: Result<bool, String>)
        ensures
            ({
                let kept = snapshots_kept(old(self).state, vm@);
                &&& r is Ok <==> restorable(*old(self), vm@, snap@) is Some
                &&& r matches Ok(online) ==> restorable(*old(self), vm@, snap@) == Some(online)
                &&& r matches Err(e) ==> e@ == (if kept.dom().contains(snap@) {
                    no_such_vm(old(self).lab.name@, vm@)
                } else {
                    no_such_snapshot(vm@, snap@)
                })
                &&& only_snapshots_changed(*old(self), *final(self), vm@, kept)
            }),
    {
        self.state.open_vm(vm);
        match self.state.snapshot(vm, snap) {
            Some(record) => match self.vm(vm) {
                Ok(_) => Ok(record.online),
                Err(e) => Err(e),
            },
            None => Err(cat5("vm \"", vm, "\" has no snapshot \"", snap, "\"")),
        }
    }

    /// A snapshot was deleted.
    pub fn delete_snapshot(&mut self, vm: &str, snap: &str) -> (r: Result<(), String>)
        ensures
            r is Ok <==> old(self).vms@.dom().contains(vm@),
            r matches Err(e) ==> e@ == no_such_vm(old(self).lab.name@, vm@) && *final(self) == *old(
                self,
            ),
            r is Ok ==> only_snapshots_changed(
                *old(self),
                *final(self),
                vm@,
                snapshots_kept(old(self).state, vm@).remove(snap@),
            ),
    {
        if let Err(e) = self.vm(vm) {
            return Err(e);
        }
        self.state.forget_snapshot(vm, snap);
        Ok(())
    }
}

/// Whether a snapshot can be restored, and whether it was taken online.
pub open spec fn restorable(rt: LabRuntime, vm: Seq<char>, snap: Seq<char>) -> Option<bool> {
    let kept = snapshots_kept(rt.state, vm);
    if kept.dom().contains(snap) && rt.vms@.dom().contains(vm) {
        Some(kept[snap].online)
    } else {
        None
    }
}

/// Whether a guest's snapshots became these, and nothing else changed but that
/// something is now kept of it.
pub open spec fn only_snapshots_changed(
    before: LabRuntime,
    after: LabRuntime,
    vm: Seq<char>,
    snapshots: Map<Seq<char>, SnapshotRecord>,
) -> bool {
    &&& snapshots_kept(after.state, vm) == snapshots
    &&& after.state.vms@.remove(vm) == before.state.vms@.remove(vm)
    &&& after.state.vms@.dom() == before.state.vms@.dom().insert(vm)
    &&& macs_kept(after.state, vm) == macs_kept(before.state, vm)
    &&& after == (LabRuntime { state: after.state, ..before })
}

/// What is said of a snapshot that a guest does not have.
pub open spec fn no_such_snapshot(vm: Seq<char>, snap: Seq<char>) -> Seq<char> {
    "vm \""@ + vm + "\" has no snapshot \""@ + snap + "\""@
}

/// The events that a guest's exit is told by.
pub fn exit_events(reason: StopReason) -> (r: Vec<String>)
    ensures
        r.deep_view() == (if reason == StopReason::Crashed {
            seq!["vm.crashed"@, "vm.stopped"@]
        } else {
            seq!["vm.stopped"@]
        }),
{
    let mut out: Vec<String> = Vec::new();
    if reason == StopReason::Crashed {
        out.push("vm.crashed".to_owned());
        out.push("vm.stopped".to_owned());
        assert(out.deep_view() =~= seq!["vm.crashed"@, "vm.stopped"@]);
    } else {
        out.push("vm.stopped".to_owned());
        assert(out.deep_view() =~= seq!["vm.stopped"@]);
    }
    out
}

/// What becomes of a declared forward.
#[derive(Debug, Clone, Copy, PartialEq, Eq, Structural)]
pub enum ForwardStep {
    Ignore,
    /// The guest has no address yet.
    Skipped,
    Install(Ipv4Addr),
}

/// What becomes of a declared forward, when the guest is known and has this
/// address.
pub fn forward_step(known: bool, ip: Option<&str>) -> (r: ForwardStep)
    ensures
        r == (if !known {
            ForwardStep::Ignore
        } else {
            match ip {
                None => ForwardStep::Skipped,
                Some(t) => match ip_value(t@) {
                    Some(a) => ForwardStep::Install(a),
                    None => ForwardStep::Ignore,
                },
            }
        }),
{
    if !known {
        return ForwardStep::Ignore;
    }
    match ip {
        None => ForwardStep::Skipped,
        Some(t) => match Ipv4Addr::parse(t) {
            Some(a) => ForwardStep::Install(a),
            None => ForwardStep::Ignore,
        },
    }
}

// -- laws ---------------------------------------------------------------------------------

/// A lab that can run has a plan for each of its guests, and for no other.
pub proof fn every_guest_is_planned(
    lab: LabView,
    root: Seq<char>,
    nets: Map<Seq<char>, SegmentNetView>,
    kept: Map<Seq<char>, Seq<MacAddr>>,
    built: Seq<Seq<Seq<char>>>,
    i: int,
    n: Seq<char>,
)
    requires
        0 <= i <= lab.vms.len(),
        plans_of(lab, root, nets, kept, built, i) is Ok,
    ensures
        plans_of(lab, root, nets, kept, built, i)->Ok_0.dom().contains(n) <==> exists|j: int|
            0 <= j < i && (#[trigger] lab.vms[j]).name == n,
    decreases i,
{
    if i > 0 {
        every_guest_is_planned(lab, root, nets, kept, built, i - 1, n);
        assert(lab.vms[i - 1].name == lab.vms[i - 1].name);
    }
}

/// A guest keeps its hardware addresses from one run to the next: what is kept
/// once a lab is planned is planned again.
pub proof fn macs_survive_a_restart(
    lab: LabView,
    kept: Map<Seq<char>, Seq<MacAddr>>,
    i: int,
)
    requires
        0 <= i < lab.vms.len(),
        forall|j: int, k: int|
            0 <= j < k < lab.vms.len() ==> (#[trigger] lab.vms[j]).name != (#[trigger] lab.vms[k]).name,
    ensures
        ({
            let n = lab.vms.len() as int;
            let v = lab.vms[i];
            let first = kept_after(lab, kept, n);
            macs_for(lab.name, v.name, v.nics, kept_after(lab, first, i)[v.name]) == macs_for(
                lab.name,
                v.name,
                v.nics,
                kept_after(lab, kept, i)[v.name],
            )
        }),
{
    let n = lab.vms.len() as int;
    let v = lab.vms[i];
    let first = kept_after(lab, kept, n);
    lemma_untouched(lab, first, 0, i, v.name);
    lemma_untouched(lab, kept, i + 1, n, v.name);
    let a = macs_for(lab.name, v.name, v.nics, kept_after(lab, kept, i)[v.name]);
    assert(first[v.name] == a);
    assert(macs_for(lab.name, v.name, v.nics, a) =~= a);
}

proof fn lemma_untouched(
    lab: LabView,
    kept: Map<Seq<char>, Seq<MacAddr>>,
    i: int,
    n: int,
    name: Seq<char>,
)
    requires
        0 <= i <= n <= lab.vms.len(),
        forall|j: int| i <= j < n ==> (#[trigger] lab.vms[j]).name != name,
    ensures
        kept_after(lab, kept, n)[name] == kept_after(lab, kept, i)[name],
    decreases n - i,
{
    if i < n {
        lemma_untouched(lab, kept, i, n - 1, name);
    }
}

/// A snapshot is restored the way it was taken, online or offline, and the
/// guest's other snapshots stay restorable as they were.
pub proof fn snapshot_is_restored_as_taken(
    before: LabRuntime,
    after: LabRuntime,
    vm: Seq<char>,
    snap: Seq<char>,
    record: SnapshotRecord,
    other: Seq<char>,
)
    requires
        before.vms@.dom().contains(vm),
        only_snapshots_changed(
            before,
            after,
            vm,
            snapshots_kept(before.state, vm).insert(snap, record),
        ),
        other != snap,
    ensures
        restorable(after, vm, snap) == Some(record.online),
        restorable(after, vm, other) == restorable(before, vm, other),
{
}

/// A deleted snapshot can no longer be restored; the guest's others can.
pub proof fn deleted_snapshot_is_gone(
    before: LabRuntime,
    after: LabRuntime,
    vm: Seq<char>,
    snap: Seq<char>,
    other: Seq<char>,
)
    requires
        only_snapshots_changed(before, after, vm, snapshots_kept(before.state, vm).remove(snap)),
        other != snap,
    ensures
        restorable(after, vm, snap) is None,
        restorable(after, vm, other) == restorable(before, vm, other),
{
}

/// A guest without a template starts from an empty disk of its own size, one of
/// a template from just that template, and one from a registry for just the
/// architecture that it names; only the latter can lack one, and then there is
/// no plan.
pub proof fn backing_follows_the_template(vm: &Vm, r: Result<Backing, String>)
    requires
        call_ensures(plan_backing, (vm,), r),
    ensures
        r is Err <==> vm.template is Registry && vm.arch is None,
        match vm.template {
            TemplateRef::Scratch => r matches Ok(Backing::Scratch { disk }) && disk == vm.disk,
            TemplateRef::Store { arch, name, version } => r matches Ok(
                Backing::Store { arch: a, name: n, version: v },
            ) && a@ == arch@ && n@ == name@ && (v is Some <==> version is Some) && (v matches Some(
                x,
            ) ==> x@ == version->0@),
            TemplateRef::Registry { reference } => vm.arch is Some ==> (r matches Ok(
                Backing::Pull { reference: f, arch: a },
            ) && f@ == reference@ && a@ == vm.arch->0@),
        },
{
}

proof fn lemma_cdroms(
    root: Seq<char>,
    cdrom: Option<Seq<char>>,
    media: Seq<MediaView>,
    built: Seq<Seq<char>>,
    n: int,
    k: int,
)
    requires
        0 <= k < n <= media.len(),
    ensures
        media[k].kind == MediaKind::Iso ==> cdroms_of(root, cdrom, media, built, n).contains(
            built[k],
        ),
        media[k].kind == MediaKind::Floppy ==> floppies_of(root, None, media, built, n).contains(
            built[k],
        ),
    decreases n,
{
    let c = cdroms_of(root, cdrom, media, built, n - 1);
    let f = floppies_of(root, None, media, built, n - 1);
    if k < n - 1 {
        lemma_cdroms(root, cdrom, media, built, n - 1, k);
        if c.contains(built[k]) {
            let i = choose|i: int| 0 <= i < c.len() && c[i] == built[k];
            assert(c.push(built[n - 1])[i] == built[k]);
        }
        if f.contains(built[k]) {
            let i = choose|i: int| 0 <= i < f.len() && f[i] == built[k];
            assert(f.push(built[n - 1])[i] == built[k]);
        }
    } else {
        assert(c.push(built[k])[c.len() as int] == built[k]);
        assert(f.push(built[k])[f.len() as int] == built[k]);
    }
}

proof fn lemma_cdroms_only(
    root: Seq<char>,
    cdrom: Option<Seq<char>>,
    media: Seq<MediaView>,
    built: Seq<Seq<char>>,
    n: int,
    x: Seq<char>,
)
    requires
        0 <= n <= media.len(),
        cdroms_of(root, cdrom, media, built, n).contains(x),
    ensures
        (cdrom is Some && x == path_join(root, cdrom->0)) || exists|k: int|
            0 <= k < n && (#[trigger] media[k]).kind == MediaKind::Iso && built[k] == x,
    decreases n,
{
    let s = cdroms_of(root, cdrom, media, built, n);
    let i = choose|i: int| 0 <= i < s.len() && s[i] == x;
    if n > 0 {
        let front = cdroms_of(root, cdrom, media, built, n - 1);
        if i < front.len() {
            assert(front[i] == x);
            lemma_cdroms_only(root, cdrom, media, built, n - 1, x);
        } else {
            assert(media[n - 1].kind == MediaKind::Iso && built[n - 1] == x);
        }
    }
}

proof fn lemma_cdrom_first(
    root: Seq<char>,
    cdrom: Option<Seq<char>>,
    media: Seq<MediaView>,
    built: Seq<Seq<char>>,
    n: int,
)
    requires
        0 <= n <= media.len(),
        cdrom is Some,
    ensures
        cdroms_of(root, cdrom, media, built, n).len() > 0,
        cdroms_of(root, cdrom, media, built, n)[0] == path_join(root, cdrom->0),
    decreases n,
{
    if n > 0 {
        lemma_cdrom_first(root, cdrom, media, built, n - 1);
    }
}

/// A guest's CD drives hold the image that it attaches, first, and every CD
/// image that is built for it, and nothing else.
pub proof fn cd_drives_hold_every_image(
    root: &str,
    vm: &Vm,
    built: &Vec<String>,
    r: Result<Drives, String>,
    k: int,
    x: Seq<char>,
)
    requires
        built@.len() == vm.media@.len(),
        call_ensures(plan_drives, (root, vm, built), r),
        r is Ok,
    ensures
        ({
            let cds = (r->Ok_0).cdroms.deep_view();
            &&& vm.cdrom is Some ==> cds.len() > 0 && cds[0] == path_join(root@, vm.cdrom->0@)
            &&& 0 <= k < vm.media@.len() && vm.media@[k].kind == MediaKind::Iso ==> cds.contains(
                built@[k]@,
            )
            &&& cds.contains(x) ==> (vm.cdrom is Some && x == path_join(root@, vm.cdrom->0@))
                || exists|j: int|
                0 <= j < vm.media@.len() && (#[trigger] vm.media@[j]).kind == MediaKind::Iso
                    && built@[j]@ == x
        }),
{
    let v = vm.deep_view();
    let n = v.media.len() as int;
    let b = built.deep_view();
    let cds = (r->Ok_0).cdroms.deep_view();
    assert forall|j: int| 0 <= j < n implies v.media[j].kind == (#[trigger] vm.media@[j]).kind
        && b[j] == built@[j]@ by {
        assert(v.media[j] == vm.media@[j].deep_view());
    }
    if 0 <= k < n {
        lemma_cdroms(root@, v.cdrom, v.media, b, n, k);
    }
    if cds.contains(x) {
        lemma_cdroms_only(root@, v.cdrom, v.media, b, n, x);
        if !(vm.cdrom is Some && x == path_join(root@, vm.cdrom->0@)) {
            let j = choose|j: int|
                0 <= j < n && (#[trigger] v.media[j]).kind == MediaKind::Iso && b[j] == x;
            assert(vm.media@[j].kind == MediaKind::Iso);
        }
    }
    if vm.cdrom is Some {
        lemma_cdrom_first(root@, v.cdrom, v.media, b, n);
    }
}

/// How many of the first `n` media are floppies.
pub open spec fn floppy_count(media: Seq<Media>, n: int) -> int
    decreases n,
{
    if n <= 0 {
        0
    } else {
        floppy_count(media, n - 1) + if media[n - 1].kind == MediaKind::Floppy {
            1int
        } else {
            0
        }
    }
}

proof fn lemma_floppy_count(
    root: Seq<char>,
    floppy: Option<Seq<char>>,
    media: Seq<Media>,
    views: Seq<MediaView>,
    built: Seq<Seq<char>>,
    n: int,
)
    requires
        0 <= n <= media.len(),
        views.len() == media.len(),
        forall|j: int| 0 <= j < media.len() ==> (#[trigger] views[j]).kind == media[j].kind,
    ensures
        floppies_of(root, floppy, views, built, n).len() == floppy_count(media, n) + (
        if floppy is Some {
            1int
        } else {
            0
        }),
        floppy_count(media, n) >= 0,
        floppy is Some ==> floppies_of(root, floppy, views, built, n)[0] == path_join(
            root,
            floppy->0,
        ),
    decreases n,
{
    if n > 0 {
        lemma_floppy_count(root, floppy, media, views, built, n - 1);
        assert(views[n - 1].kind == media[n - 1].kind);
    }
}

/// A guest has one floppy drive: it is refused exactly when it attaches a floppy
/// and builds one, or builds two. The drive holds the one there is.
pub proof fn one_floppy_at_most(
    root: &str,
    vm: &Vm,
    built: &Vec<String>,
    r: Result<Drives, String>,
    k: int,
)
    requires
        built@.len() == vm.media@.len(),
        call_ensures(plan_drives, (root, vm, built), r),
    ensures
        ({
            let count = floppy_count(vm.media@, vm.media@.len() as int) + if vm.floppy is Some {
                1int
            } else {
                0
            };
            &&& r is Ok <==> count <= 1
            &&& r is Ok && vm.floppy is Some ==> (r->Ok_0).floppy is Some && (
            r->Ok_0).floppy->0@ == path_join(root@, vm.floppy->0@)
            &&& r is Ok && 0 <= k < vm.media@.len() && vm.media@[k].kind == MediaKind::Floppy ==> (
            r->Ok_0).floppy is Some && (r->Ok_0).floppy->0@ == built@[k]@
            &&& r is Ok && count == 0 ==> (r->Ok_0).floppy is None
        }),
{
    let v = vm.deep_view();
    let n = v.media.len() as int;
    let b = built.deep_view();
    assert forall|j: int| 0 <= j < n implies (#[trigger] v.media[j]).kind == vm.media@[j].kind
        && b[j] == built@[j]@ by {
        assert(v.media[j] == vm.media@[j].deep_view());
    }
    lemma_floppy_count(root@, v.floppy, vm.media@, v.media, b, n);
    let f = floppies_of(root@, v.floppy, v.media, b, n);
    if r is Ok && 0 <= k < n && vm.media@[k].kind == MediaKind::Floppy {
        lemma_floppy_counted(vm.media@, n, k);
        assert(v.floppy is None);
        lemma_cdroms(root@, v.cdrom, v.media, b, n, k);
        let i = choose|i: int| 0 <= i < f.len() && f[i] == b[k];
        assert(f[0] == b[k]);
    }
}

proof fn lemma_floppy_counted(media: Seq<Media>, n: int, k: int)
    requires
        0 <= k < n <= media.len(),
        media[k].kind == MediaKind::Floppy,
    ensures
        floppy_count(media, n) >= 1,
    decreases n,
{
    if k < n - 1 {
        lemma_floppy_counted(media, n - 1, k);
    } else {
        lemma_count_nonneg(media, n - 1);
    }
}

proof fn lemma_count_nonneg(media: Seq<Media>, n: int)
    ensures
        floppy_count(media, n) >= 0,
    decreases n,
{
    if n > 0 {
        lemma_count_nonneg(media, n - 1);
    }
}

/// What has to be on the host: the disk tool, the emulator of every guest, and
/// the TPM emulator exactly when a guest wants one; each once.
pub proof fn needed_binaries_are_complete(guests: Seq<(Seq<char>, bool)>, x: Seq<char>)
    ensures
        ({
            let b = binaries_for(guests);
            &&& b.no_duplicates()
            &&& b.contains(x) <==> x == "qemu-img"@ || (exists|i: int|
                0 <= i < guests.len() && (#[trigger] guests[i]).0 == x) || (x == "swtpm"@ && exists|
                i: int,
            |
                0 <= i < guests.len() && (#[trigger] guests[i]).1)
        }),
    decreases guests.len(),
{
    let b = binaries_for(guests);
    if guests.len() == 0 {
        assert(b[0] == "qemu-img"@);
    } else {
        let rest = guests.drop_last();
        needed_binaries_are_complete(rest, x);
        let a = binaries_for(rest);
        let front = with_name(a, guests.last().0);
        lemma_with_name(a, guests.last().0, x);
        lemma_with_name(front, "swtpm"@, x);
        assert(guests[guests.len() - 1] == guests.last());
        if exists|i: int| 0 <= i < rest.len() && (#[trigger] rest[i]).0 == x {
            let i = choose|i: int| 0 <= i < rest.len() && (#[trigger] rest[i]).0 == x;
            assert(guests[i].0 == x);
        }
        if exists|i: int| 0 <= i < guests.len() && (#[trigger] guests[i]).0 == x {
            let i = choose|i: int| 0 <= i < guests.len() && (#[trigger] guests[i]).0 == x;
            if i < rest.len() {
                assert(rest[i].0 == x);
            }
        }
        if exists|i: int| 0 <= i < rest.len() && (#[trigger] rest[i]).1 {
            let i = choose|i: int| 0 <= i < rest.len() && (#[trigger] rest[i]).1;
            assert(guests[i].1);
        }
        if exists|i: int| 0 <= i < guests.len() && (#[trigger] guests[i]).1 {
            let i = choose|i: int| 0 <= i < guests.len() && (#[trigger] guests[i]).1;
            if i < rest.len() {
                assert(rest[i].1);
            }
        }
    }
}

proof fn lemma_with_name(s: Seq<Seq<char>>, x: Seq<char>, y: Seq<char>)
    ensures
        with_name(s, x).contains(y) <==> s.contains(y) || y == x,
        s.no_duplicates() ==> with_name(s, x).no_duplicates(),
{
    if !s.contains(x) {
        let t = s.push(x);
        assert(t[s.len() as int] == x);
        if s.contains(y) {
            let i = choose|i: int| 0 <= i < s.len() && s[i] == y;
            assert(t[i] == y);
        }
        if t.contains(y) && y != x {
            let i = choose|i: int| 0 <= i < t.len() && t[i] == y;
            assert(s[i] == y);
        }
    }
}

/// A lab runs only on segments that it has: where it does, every card of every
/// guest is on a segment of its network, and a card on any other is the reason
/// why it does not.
pub proof fn every_card_has_a_segment(
    lab: LabView,
    root: Seq<char>,
    kept: Map<Seq<char>, Seq<MacAddr>>,
    built: Seq<Seq<Seq<char>>>,
    i: int,
    k: int,
)
    requires
        0 <= i < lab.vms.len(),
        0 <= k < lab.vms[i].nics.len(),
        network_of(lab) is Ok,
    ensures
        ({
            let card = lab.vms[i].nics[k];
            let on = if card.nat {
                NAT_SEGMENT@
            } else {
                card.segment->0
            };
            let known = (network_of(lab)->Ok_0).dom().contains(on);
            &&& runtime_of(lab, root, kept, built) is Ok ==> known
            &&& !known ==> runtime_of(lab, root, kept, built) is Err
        }),
{
    let nets = network_of(lab)->Ok_0;
    if unknown_segment(lab, nets, 0) is None {
        lemma_known_guest(lab, nets, 0, i);
        lemma_known_card(lab.vms[i].nics, nets, 0, k);
    }
}

proof fn lemma_known_guest(lab: LabView, nets: Map<Seq<char>, SegmentNetView>, from: int, i: int)
    requires
        0 <= from <= i < lab.vms.len(),
        unknown_segment(lab, nets, from) is None,
    ensures
        unknown_card(lab.vms[i].nics, nets, 0) is None,
    decreases i - from,
{
    if from < i {
        lemma_known_guest(lab, nets, from + 1, i);
    }
}

proof fn lemma_known_card(nics: Seq<NicView>, nets: Map<Seq<char>, SegmentNetView>, from: int, k: int)
    requires
        0 <= from <= k < nics.len(),
        unknown_card(nics, nets, from) is None,
    ensures
        nets.dom().contains(nic_net(nics[k])),
    decreases k - from,
{
    if from < k {
        lemma_known_card(nics, nets, from + 1, k);
    }
}

/// What a guest is planned with: the backing of its own template, an address
/// and an MTU for each of its cards, the MTU being that of the card's segment.
pub proof fn plan_is_the_guests_own(
    lab: LabView,
    root: Seq<char>,
    nets: Map<Seq<char>, SegmentNetView>,
    kept: Map<Seq<char>, Seq<MacAddr>>,
    built: Seq<Seq<Seq<char>>>,
    i: int,
)
    requires
        0 <= i < lab.vms.len(),
        plans_of(lab, root, nets, kept, built, lab.vms.len() as int) is Ok,
        forall|j: int, k: int|
            0 <= j < k < lab.vms.len() ==> (#[trigger] lab.vms[j]).name != (
            #[trigger] lab.vms[k]).name,
    ensures
        ({
            let v = lab.vms[i];
            let plans = plans_of(lab, root, nets, kept, built, lab.vms.len() as int)->Ok_0;
            let p = plans[v.name];
            &&& plans.dom().contains(v.name)
            &&& p.index == i
            &&& backing_of(v) == Ok::<BackingView, Seq<char>>(p.backing)
            &&& p.macs.len() == v.nics.len()
            &&& p.nic_mtus.len() == v.nics.len()
            &&& forall|k: int|
                0 <= k < v.nics.len() && nets.dom().contains(
                    if v.nics[k].nat {
                        NAT_SEGMENT@
                    } else {
                        v.nics[k].segment->0
                    },
                ) ==> #[trigger] p.nic_mtus[k] == nets[if v.nics[k].nat {
                    NAT_SEGMENT@
                } else {
                    v.nics[k].segment->0
                }].effective_mtu()
            &&& forall|k: int|
                0 <= k < v.nics.len() && (#[trigger] v.nics[k]).mac is Some ==> p.macs[k]
                    == v.nics[k].mac->0
        }),
{
    lemma_plan_kept(lab, root, nets, kept, built, i, lab.vms.len() as int);
}

proof fn lemma_plan_kept(
    lab: LabView,
    root: Seq<char>,
    nets: Map<Seq<char>, SegmentNetView>,
    kept: Map<Seq<char>, Seq<MacAddr>>,
    built: Seq<Seq<Seq<char>>>,
    i: int,
    n: int,
)
    requires
        0 <= i < n <= lab.vms.len(),
        plans_of(lab, root, nets, kept, built, n) is Ok,
        forall|j: int, k: int|
            0 <= j < k < lab.vms.len() ==> (#[trigger] lab.vms[j]).name != (
            #[trigger] lab.vms[k]).name,
    ensures
        ({
            let m = plans_of(lab, root, nets, kept, built, n)->Ok_0;
            &&& m.dom().contains(lab.vms[i].name)
            &&& plan_of(lab, root, nets, kept, built[i], i) == Ok::<VmPlanView, Seq<char>>(
                m[lab.vms[i].name],
            )
        }),
    decreases n,
{
    if i < n - 1 {
        lemma_plan_kept(lab, root, nets, kept, built, i, n - 1);
        assert(lab.vms[i].name != lab.vms[n - 1].name);
    }
}

} // verus!
