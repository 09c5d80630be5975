//! Persisted lab state: generated hardware addresses, created clones, snapshot
//! power-state records (every snapshot records the guest's power state at
//! capture time).

use vstd::prelude::*;
use vstd::string::*;
use vstd::utf8::encode_utf8;

use crate::config::model::{Nic, NicView};
use crate::encode::{sha256, sha256_of};
use crate::names::NameMap;
use crate::net::addr::MacAddr;
use crate::text::{cat5, decimal, decimal_string};

verus! {

/// What is known of a snapshot.
#[derive(Debug)]
pub struct SnapshotRecord {
    /// Captured while running (disk+RAM+device) vs powered off (disk only).
    pub online: bool,
    /// When it was taken, as text.
    pub taken_at: String,
}

/// What is kept of a guest.
pub struct VmState {
    /// MAC per NIC index: generated deterministically, persisted so DHCP
    /// reservations stay stable.
    pub macs: Vec<MacAddr>,
    /// Snapshot name to record.
    pub snapshots: NameMap<SnapshotRecord>,
}

/// What is kept of a lab.
pub struct LabState {
    pub vms: NameMap<VmState>,
}

impl LabState {
    pub fn new() -> (r: LabState)
        ensures
            r.vms@ == Map::<Seq<char>, VmState>::empty(),
    {
        LabState { vms: NameMap::new() }
    }

    /// Take what is kept of a guest out, or what a new one starts with.
    fn take_vm(&mut self, name: &str) -> (r: VmState)
        ensures
            old(self).vms@.dom().contains(name@) ==> r == old(self).vms@[name@],
            !old(self).vms@.dom().contains(name@) ==> r.macs@ == Seq::<MacAddr>::empty()
                && r.snapshots@ == Map::<Seq<char>, SnapshotRecord>::empty(),
            final(self).vms@ == old(self).vms@.remove(name@),
    {
        match self.vms.remove(name) {
            Some(v) => v,
            None => VmState { macs: Vec::new(), snapshots: NameMap::new() },
        }
    }

    /// The hardware addresses kept of a guest.
    pub fn macs_of(&self, name: &str) -> (r: Vec<MacAddr>)
        ensures
            r@ == macs_kept(*self, name@),
    {
        let mut out: Vec<MacAddr> = Vec::new();
        if let Some(v) = self.vms.get(name) {
            let mut i: usize = 0;
            while i < v.macs.len()
                invariant
                    i <= v.macs@.len(),
                    out@ == v.macs@.take(i as int),
                decreases v.macs@.len() - i,
            {
                out.push(v.macs[i]);
                assert(v.macs@.take(i as int).push(v.macs@[i as int]) =~= v.macs@.take(i + 1));
                i = i + 1;
            }
            assert(v.macs@.take(i as int) =~= v.macs@);
        }
        out
    }

    /// Make sure that something is kept of a guest, if only that it is known.
    pub fn open_vm(&mut self, name: &str)
        ensures
            macs_kept(*final(self), name@) == macs_kept(*old(self), name@),
            snapshots_kept(*final(self), name@) == snapshots_kept(*old(self), name@),
            final(self).vms@.remove(name@) == old(self).vms@.remove(name@),
            final(self).vms@.dom() == old(self).vms@.dom().insert(name@),
    {
        let v = self.take_vm(name);
        self.vms.insert(name, v);
        assert(self.vms@.remove(name@) =~= old(self).vms@.remove(name@));
        assert(self.vms@.dom() =~= old(self).vms@.dom().insert(name@));
    }

    /// Keep a guest's hardware addresses.
    pub fn set_macs(&mut self, name: &str, macs: Vec<MacAddr>)
        ensures
            macs_kept(*final(self), name@) == macs@,
            snapshots_kept(*final(self), name@) == snapshots_kept(*old(self), name@),
            final(self).vms@.remove(name@) == old(self).vms@.remove(name@),
            final(self).vms@.dom() == old(self).vms@.dom().insert(name@),
    {
        let mut v = self.take_vm(name);
        v.macs = macs;
        self.vms.insert(name, v);
        assert(self.vms@.remove(name@) =~= old(self).vms@.remove(name@));
        assert(self.vms@.dom() =~= old(self).vms@.dom().insert(name@));
    }

    /// The record of a snapshot.
    pub fn snapshot(&self, vm: &str, name: &str) -> (r: Option<&SnapshotRecord>)
        ensures
            r is Some <==> snapshots_kept(*self, vm@).dom().contains(name@),
            r matches Some(s) ==> snapshots_kept(*self, vm@)[name@] == *s,
    {
        match self.vms.get(vm) {
            Some(v) => v.snapshots.get(name),
            None => None,
        }
    }

    /// Record a snapshot.
    pub fn record_snapshot(&mut self, vm: &str, name: &str, record: SnapshotRecord)
        ensures
            snapshots_kept(*final(self), vm@) == snapshots_kept(*old(self), vm@).insert(
                name@,
                record,
            ),
            macs_kept(*final(self), vm@) == macs_kept(*old(self), vm@),
            final(self).vms@.remove(vm@) == old(self).vms@.remove(vm@),
            final(self).vms@.dom() == old(self).vms@.dom().insert(vm@),
    {
        let mut v = self.take_vm(vm);
        v.snapshots.insert(name, record);
        self.vms.insert(vm, v);
        assert(self.vms@.remove(vm@) =~= old(self).vms@.remove(vm@));
        assert(self.vms@.dom() =~= old(self).vms@.dom().insert(vm@));
    }

    /// Forget a snapshot.
    pub fn forget_snapshot(&mut self, vm: &str, name: &str)
        ensures
            snapshots_kept(*final(self), vm@) == snapshots_kept(*old(self), vm@).remove(name@),
            macs_kept(*final(self), vm@) == macs_kept(*old(self), vm@),
            final(self).vms@.remove(vm@) == old(self).vms@.remove(vm@),
            final(self).vms@.dom() == old(self).vms@.dom().insert(vm@),
    {
        let mut v = self.take_vm(vm);
        let _ = v.snapshots.remove(name);
        self.vms.insert(vm, v);
        assert(self.vms@.remove(vm@) =~= old(self).vms@.remove(vm@));
        assert(self.vms@.dom() =~= old(self).vms@.dom().insert(vm@));
    }
}

/// The hardware addresses kept of a guest.
pub open spec fn macs_kept(s: LabState, vm: Seq<char>) -> Seq<MacAddr> {
    if s.vms@.dom().contains(vm) {
        s.vms@[vm].macs@
    } else {
        Seq::empty()
    }
}

/// The snapshots recorded of a guest.
pub open spec fn snapshots_kept(s: LabState, vm: Seq<char>) -> Map<Seq<char>, SnapshotRecord> {
    if s.vms@.dom().contains(vm) {
        s.vms@[vm].snapshots@
    } else {
        Map::empty()
    }
}

// -- hardware addresses ---------------------------------------------------------------

/// What a guest's card is hashed by.
pub open spec fn mac_seed(lab: Seq<char>, vm: Seq<char>, nic: int) -> Seq<u8> {
    encode_utf8(lab + ":"@ + vm + ":"@ + decimal(nic as nat))
}

/// The hardware address that a digest gives: QEMU's prefix and the first three
/// bytes of the digest.
pub open spec fn mac_of_digest(d: Seq<u8>) -> MacAddr {
    MacAddr([0x52, 0x54, 0x00, d[0], d[1], d[2]])
}

/// The hardware address that a digest gives.
pub fn mac_from_digest(d: &[u8]) -> (r: MacAddr)
    requires
        d@.len() >= 3,
    ensures
        r == mac_of_digest(d@),
{
    MacAddr([0x52, 0x54, 0x00, d[0], d[1], d[2]])
}

/// Deterministic MAC for (lab, vm, nic index): 52:54:00 OUI prefix (QEMU's)
/// plus three bytes of SHA-256("lab:vm:i").
pub fn generate_mac(lab: &str, vm: &str, nic_index: usize) -> (r: MacAddr)
    ensures
        r == mac_of_digest(sha256(mac_seed(lab@, vm@, nic_index as int))),
{
    let number = decimal_string(nic_index as u64);
    let text = cat5(lab, ":", vm, ":", number.as_str());
    let bytes = text.as_str().as_bytes_vec();
    let d = sha256_of(bytes.as_slice());
    mac_from_digest(d.as_slice())
}

/// The hardware address of a guest's card: explicit, else persisted, else
/// generated.
pub open spec fn mac_for(
    lab: Seq<char>,
    vm: Seq<char>,
    nics: Seq<NicView>,
    kept: Seq<MacAddr>,
    i: int,
) -> MacAddr {
    match nics[i].mac {
        Some(m) => m,
        None => if i < kept.len() {
            kept[i]
        } else {
            mac_of_digest(sha256(mac_seed(lab, vm, i)))
        },
    }
}

/// Stable MACs of a guest: explicit, else persisted, else generated.
pub fn stable_macs(lab: &str, vm: &str, nics: &Vec<Nic>, kept: &Vec<MacAddr>) -> (r: Vec<MacAddr>)
    ensures
        r@.len() == nics@.len(),
        forall|i: int|
            0 <= i < nics@.len() ==> #[trigger] r@[i] == mac_for(
                lab@,
                vm@,
                nics.deep_view(),
                kept@,
                i,
            ),
{
    let mut out: Vec<MacAddr> = Vec::new();
    let mut i: usize = 0;
    while i < nics.len()
        invariant
            i <= nics@.len(),
            out@.len() == i,
            forall|j: int|
                0 <= j < i ==> #[trigger] out@[j] == mac_for(
                    lab@,
                    vm@,
                    nics.deep_view(),
                    kept@,
                    j,
                ),
        decreases nics@.len() - i,
    {
        assert(nics.deep_view()[i as int] == nics@[i as int].deep_view());
        let mac = match nics[i].mac {
            Some(m) => m,
            None => if i < kept.len() {
                kept[i]
            } else {
                generate_mac(lab, vm, i)
            },
        };
        out.push(mac);
        i = i + 1;
    }
    out
}

// -- laws -----------------------------------------------------------------------------------

/// A generated address is that of one card, and locally administered.
pub proof fn generated_mac_is_local_unicast(lab: Seq<char>, vm: Seq<char>, nic: int)
    ensures
        mac_of_digest(sha256(mac_seed(lab, vm, nic))).0[0] % 2 == 0,
        (mac_of_digest(sha256(mac_seed(lab, vm, nic))).0[0] / 2) % 2 == 1,
{
}

/// A guest keeps its hardware addresses: once they were chosen and kept, they
/// are chosen again, whatever the lab is called by then.
pub proof fn kept_macs_are_stable(
    lab: Seq<char>,
    later: Seq<char>,
    vm: Seq<char>,
    nics: Seq<NicView>,
    kept: Seq<MacAddr>,
    chosen: Seq<MacAddr>,
    i: int,
)
    requires
        chosen.len() == nics.len(),
        forall|j: int|
            0 <= j < nics.len() ==> #[trigger] chosen[j] == mac_for(lab, vm, nics, kept, j),
        0 <= i < nics.len(),
    ensures
        mac_for(later, vm, nics, chosen, i) == chosen[i],
{
}

/// Where a card's hardware address comes from: what the card declares; else what
/// was kept for its place; else QEMU's prefix and a hash of the lab, the guest
/// and the place.
pub proof fn declared_mac_wins(
    lab: &str,
    vm: &str,
    nics: &Vec<Nic>,
    kept: &Vec<MacAddr>,
    r: Vec<MacAddr>,
    i: int,
)
    requires
        call_ensures(stable_macs, (lab, vm, nics, kept), r),
        0 <= i < nics@.len(),
    ensures
        r@.len() == nics@.len(),
        nics@[i].mac matches Some(m) ==> r@[i] == m,
        nics@[i].mac is None && i < kept@.len() ==> r@[i] == kept@[i],
        nics@[i].mac is None && i >= kept@.len() ==> ({
            let d = sha256(encode_utf8(lab@ + ":"@ + vm@ + ":"@ + decimal(i as nat)));
            &&& r@[i].0@[0] == 0x52 && r@[i].0@[1] == 0x54 && r@[i].0@[2] == 0x00
            &&& r@[i].0@[3] == d[0] && r@[i].0@[4] == d[1] && r@[i].0@[5] == d[2]
        }),
{
    assert(nics.deep_view()[i] == nics@[i].deep_view());
}

} // verus!
