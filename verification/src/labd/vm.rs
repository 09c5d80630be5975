//! Per-guest runtime: disk preparation, the start sequence, the stop ladder,
//! readiness, and snapshots. The caller owns the processes and the channels to
//! them; what is decided here is what comes next.

use vstd::prelude::*;

use crate::config::model::{mac_text, DiskBlock, DiskBlockView};
use crate::net::addr::MacAddr;
use crate::text::{
    cat3, chars_of, copy_option, copy_strings, decimal, decimal_string, has_prefix, has_text, join_path, joined, occurs,
    path_join, starts_with, str_eq,
};

verus! {

#[derive(Debug, Clone, Copy, PartialEq, Eq, Structural)]
pub enum PowerState {
    Stopped,
    Starting,
    Running,
    Stopping,
}

/// Why a VM left the Running state.
#[derive(Debug, Clone, Copy, PartialEq, Eq, Structural)]
pub enum StopReason {
    Requested,
    GuestInitiated,
    Crashed,
}

/// What a power state is called in a status.
pub open spec fn state_name(s: PowerState) -> Seq<char> {
    match s {
        PowerState::Stopped => "stopped"@,
        PowerState::Starting => "starting"@,
        PowerState::Running => "running"@,
        PowerState::Stopping => "stopping"@,
    }
}

/// What a power state is called in a message.
pub open spec fn state_word(s: PowerState) -> Seq<char> {
    match s {
        PowerState::Stopped => "Stopped"@,
        PowerState::Starting => "Starting"@,
        PowerState::Running => "Running"@,
        PowerState::Stopping => "Stopping"@,
    }
}

/// What a stop reason is called in an event.
pub open spec fn reason_name(r: StopReason) -> Seq<char> {
    match r {
        StopReason::Requested => "requested"@,
        StopReason::GuestInitiated => "guest_initiated"@,
        StopReason::Crashed => "crashed"@,
    }
}

impl PowerState {
    /// What the state is called in a status.
    pub fn name(&self) -> (r: &'static str)
        ensures
            r@ == state_name(*self),
    {
        match self {
            PowerState::Stopped => "stopped",
            PowerState::Starting => "starting",
            PowerState::Running => "running",
            PowerState::Stopping => "stopping",
        }
    }

    fn word(&self) -> (r: &'static str)
        ensures
            r@ == state_word(*self),
    {
        match self {
            PowerState::Stopped => "Stopped",
            PowerState::Starting => "Starting",
            PowerState::Running => "Running",
            PowerState::Stopping => "Stopping",
        }
    }
}

impl StopReason {
    /// What the reason is called in an event.
    pub fn name(&self) -> (r: &'static str)
        ensures
            r@ == reason_name(*self),
    {
        match self {
            StopReason::Requested => "requested",
            StopReason::GuestInitiated => "guest_initiated",
            StopReason::Crashed => "crashed",
        }
    }
}

// -- files ---------------------------------------------------------------------------

/// Where a guest's files are.
#[derive(Debug)]
pub struct VmDirs {
    /// `.vmlab/vms/<vm>`: disks, OVMF VARS, TPM state.
    pub local: String,
    /// `<runtime>/vms/<vm>`: sockets.
    pub run: String,
    /// `<state>/labs/<lab>/vms/<vm>`: logs.
    pub logs: String,
}

/// The folder of a guest below another.
pub open spec fn vm_dir(base: Seq<char>, vm: Seq<char>) -> Seq<char> {
    path_join(path_join(base, "vms"@), vm)
}

impl VmDirs {
    /// The folders of a guest, when the lab's own folder, its runtime folder
    /// and the state folder are these.
    pub fn new(lab: &str, vm: &str, lab_local: &str, lab_runtime: &str, state_dir: &str) -> (r:
        VmDirs)
        ensures
            r.local@ == vm_dir(lab_local@, vm@),
            r.run@ == vm_dir(lab_runtime@, vm@),
            r.logs@ == vm_dir(path_join(path_join(state_dir@, "labs"@), lab@), vm@),
    {
        let l = join_path(lab_local, "vms");
        let r = join_path(lab_runtime, "vms");
        let s = join_path(state_dir, "labs");
        let s = join_path(s.as_str(), lab);
        let s = join_path(s.as_str(), "vms");
        VmDirs {
            local: join_path(l.as_str(), vm),
            run: join_path(r.as_str(), vm),
            logs: join_path(s.as_str(), vm),
        }
    }

    pub fn qmp_sock(&self) -> (r: String)
        ensures
            r@ == path_join(self.run@, "qmp.sock"@),
    {
        join_path(self.run.as_str(), "qmp.sock")
    }

    pub fn qga_sock(&self) -> (r: String)
        ensures
            r@ == path_join(self.run@, "qga.sock"@),
    {
        join_path(self.run.as_str(), "qga.sock")
    }

    pub fn vnc_sock(&self) -> (r: String)
        ensures
            r@ == path_join(self.run@, "vnc.sock"@),
    {
        join_path(self.run.as_str(), "vnc.sock")
    }

    pub fn tpm_sock(&self) -> (r: String)
        ensures
            r@ == path_join(self.run@, "tpm.sock"@),
    {
        join_path(self.run.as_str(), "tpm.sock")
    }

    pub fn nic_sock(&self, i: usize) -> (r: String)
        ensures
            r@ == nic_sock_path(self.run@, i as int),
    {
        let name = cat3("nic", decimal_string(i as u64).as_str(), ".sock");
        join_path(self.run.as_str(), name.as_str())
    }

    pub fn primary_disk(&self) -> (r: String)
        ensures
            r@ == primary_disk_path(self.local@),
    {
        join_path(self.local.as_str(), "disk0.qcow2")
    }

    pub fn extra_disk(&self, name: &str) -> (r: String)
        ensures
            r@ == extra_disk_path(self.local@, name@),
    {
        let file = cat3("disk-", name, ".qcow2");
        join_path(self.local.as_str(), file.as_str())
    }

    pub fn ovmf_vars(&self) -> (r: String)
        ensures
            r@ == path_join(self.local@, "OVMF_VARS.fd"@),
    {
        join_path(self.local.as_str(), "OVMF_VARS.fd")
    }

    pub fn tpm_state(&self) -> (r: String)
        ensures
            r@ == path_join(self.local@, "tpm-state"@),
    {
        join_path(self.local.as_str(), "tpm-state")
    }
}

/// The socket of a network card.
pub open spec fn nic_sock_path(run: Seq<char>, i: int) -> Seq<char> {
    path_join(run, "nic"@ + decimal(i as nat) + ".sock"@)
}

/// The primary disk.
pub open spec fn primary_disk_path(local: Seq<char>) -> Seq<char> {
    path_join(local, "disk0.qcow2"@)
}

/// An additional disk.
pub open spec fn extra_disk_path(local: Seq<char>, name: Seq<char>) -> Seq<char> {
    path_join(local, "disk-"@ + name + ".qcow2"@)
}

/// The files of a guest's additional disks, each with its name.
pub open spec fn extra_disk_paths(local: Seq<char>, disks: Seq<DiskBlockView>) -> Seq<
    (Seq<char>, Seq<char>),
> {
    Seq::new(disks.len(), |i: int| (disks[i].name, extra_disk_path(local, disks[i].name)))
}

/// The files of a guest's disks: the primary one first.
pub open spec fn disk_paths(local: Seq<char>, disks: Seq<DiskBlockView>) -> Seq<Seq<char>> {
    seq![primary_disk_path(local)] + Seq::new(
        disks.len(),
        |i: int| extra_disk_path(local, disks[i].name),
    )
}

/// The files of a guest's disks: the primary one first.
pub fn all_disk_paths(dirs: &VmDirs, disks: &Vec<DiskBlock>) -> (r: Vec<String>)
    ensures
        r.deep_view() == disk_paths(dirs.local@, disks.deep_view()),
{
    let mut out: Vec<String> = Vec::new();
    out.push(dirs.primary_disk());
    let mut i: usize = 0;
    while i < disks.len()
        invariant
            i <= disks@.len(),
            out@.len() == i + 1,
            out@[0]@ == primary_disk_path(dirs.local@),
            forall|j: int|
                0 <= j < i ==> #[trigger] out@[j + 1]@ == extra_disk_path(
                    dirs.local@,
                    disks.deep_view()[j].name,
                ),
        decreases disks@.len() - i,
    {
        assert(disks.deep_view()[i as int] == disks@[i as int].deep_view());
        let p = dirs.extra_disk(disks[i].name.as_str());
        let ghost was = out@;
        out.push(p);
        assert(out@[i + 1] == p);
        assert forall|j: int| 0 <= j < i + 1 implies #[trigger] out@[j + 1]@ == extra_disk_path(
            dirs.local@,
            disks.deep_view()[j].name,
        ) by {
            if j < i {
                assert(out@[j + 1] == was[j + 1]);
            }
        }
        i = i + 1;
    }
    proof {
        let want = disk_paths(dirs.local@, disks.deep_view());
        assert(out.deep_view().len() == want.len());
        assert forall|k: int| 0 <= k < want.len() implies out.deep_view()[k] == want[k] by {
            if k > 0 {
                assert(out@[(k - 1) + 1]@ == extra_disk_path(
                    dirs.local@,
                    disks.deep_view()[k - 1].name,
                ));
            }
        }
        assert(out.deep_view() =~= want);
    }
    out
}

/// What QEMU is started with.
#[derive(Debug)]
pub struct VmPaths {
    pub qmp_sock: String,
    pub qga_sock: String,
    pub vnc_sock: String,
    pub primary_disk: String,
    pub extra_disks: Vec<(String, String)>,
    pub cdroms: Vec<String>,
    pub floppy: Option<String>,
    pub nics: Vec<(MacAddr, String)>,
    pub ovmf_vars: Option<String>,
    pub tpm_sock: Option<String>,
    pub serial_log: String,
}

/// What QEMU is started with, for a guest with or without UEFI firmware and a
/// TPM.
pub fn build_paths(
    dirs: &VmDirs,
    disks: &Vec<DiskBlock>,
    cdroms: &Vec<String>,
    floppy: &Option<String>,
    macs: &Vec<MacAddr>,
    uefi: bool,
    tpm: bool,
) -> (r: VmPaths)
    ensures
        r.qmp_sock@ == path_join(dirs.run@, "qmp.sock"@),
        r.qga_sock@ == path_join(dirs.run@, "qga.sock"@),
        r.vnc_sock@ == path_join(dirs.run@, "vnc.sock"@),
        r.primary_disk@ == primary_disk_path(dirs.local@),
        r.extra_disks.deep_view() == extra_disk_paths(dirs.local@, disks.deep_view()),
        r.cdroms.deep_view() == cdroms.deep_view(),
        r.floppy.deep_view() == floppy.deep_view(),
        r.nics@.len() == macs@.len(),
        forall|i: int|
            0 <= i < macs@.len() ==> (#[trigger] r.nics@[i]).0 == macs@[i] && r.nics@[i].1@
                == nic_sock_path(dirs.run@, i),
        r.ovmf_vars.deep_view() == (if uefi {
            Some(path_join(dirs.local@, "OVMF_VARS.fd"@))
        } else {
            None
        }),
        r.tpm_sock.deep_view() == (if tpm {
            Some(path_join(dirs.run@, "tpm.sock"@))
        } else {
            None
        }),
        r.serial_log@ == path_join(dirs.logs@, "serial.log"@),
{
    let mut extra: Vec<(String, String)> = Vec::new();
    let mut i: usize = 0;
    while i < disks.len()
        invariant
            i <= disks@.len(),
            extra@.len() == i,
            forall|j: int|
                0 <= j < i ==> (#[trigger] extra@[j]).0@ == disks.deep_view()[j].name
                    && extra@[j].1@ == extra_disk_path(
                    dirs.local@,
                    disks.deep_view()[j].name,
                ),
        decreases disks@.len() - i,
    {
        assert(disks.deep_view()[i as int] == disks@[i as int].deep_view());
        extra.push((disks[i].name.clone(), dirs.extra_disk(disks[i].name.as_str())));
        i = i + 1;
    }
    assert(extra.deep_view() =~= extra_disk_paths(dirs.local@, disks.deep_view()));
    let mut nics: Vec<(MacAddr, String)> = Vec::new();
    let mut k: usize = 0;
    while k < macs.len()
        invariant
            k <= macs@.len(),
            nics@.len() == k,
            forall|j: int|
                0 <= j < k ==> (#[trigger] nics@[j]).0 == macs@[j] && nics@[j].1@
                    == nic_sock_path(dirs.run@, j),
        decreases macs@.len() - k,
    {
        nics.push((macs[k], dirs.nic_sock(k)));
        k = k + 1;
    }
    VmPaths {
        qmp_sock: dirs.qmp_sock(),
        qga_sock: dirs.qga_sock(),
        vnc_sock: dirs.vnc_sock(),
        primary_disk: dirs.primary_disk(),
        extra_disks: extra,
        cdroms: copy_strings(cdroms),
        floppy: copy_option(floppy),
        nics,
        ovmf_vars: if uefi {
            Some(dirs.ovmf_vars())
        } else {
            None
        },
        tpm_sock: if tpm {
            Some(dirs.tpm_sock())
        } else {
            None
        },
        serial_log: join_path(dirs.logs.as_str(), "serial.log"),
    }
}

/// How a missing disk is made.
#[derive(Debug, Clone, Copy, PartialEq, Eq, Structural)]
pub enum DiskMaking {
    /// It is there already.
    Keep,
    /// A linked clone of the template's disk.
    Clone,
    /// An empty disk of this size.
    Blank(u64),
    /// A disk filled from a folder, of this size or of what fits.
    Folder(Option<u64>),
}

/// How a guest's primary disk comes about.
pub fn primary_disk_making(vm: &str, exists: bool, backing: bool, size: Option<u64>) -> (r: Result<
    DiskMaking,
    String,
>)
    ensures
        exists ==> r == Ok::<DiskMaking, String>(DiskMaking::Keep),
        !exists && backing ==> r == Ok::<DiskMaking, String>(DiskMaking::Clone),
        !exists && !backing && size is Some ==> r == Ok::<DiskMaking, String>(
            DiskMaking::Blank(size->0),
        ),
        !exists && !backing && size is None ==> r is Err && (r->Err_0)@ == vm@
            + ": no backing template and no disk size"@,
{
    if exists {
        return Ok(DiskMaking::Keep);
    }
    if backing {
        return Ok(DiskMaking::Clone);
    }
    match size {
        Some(n) => Ok(DiskMaking::Blank(n)),
        None => Err(joined(vm, ": no backing template and no disk size")),
    }
}

/// How an additional disk comes about.
pub fn extra_disk_making(d: &DiskBlock, exists: bool) -> (r: Result<DiskMaking, String>)
    ensures
        exists ==> r == Ok::<DiskMaking, String>(DiskMaking::Keep),
        !exists && d.from is Some ==> r == Ok::<DiskMaking, String>(DiskMaking::Folder(d.size)),
        !exists && d.from is None && d.size is Some ==> r == Ok::<DiskMaking, String>(
            DiskMaking::Blank(d.size->0),
        ),
        !exists && d.from is None && d.size is None ==> r is Err && (r->Err_0)@ == "disk \""@
            + d.name@ + "\": no size and no source folder"@,
{
    if exists {
        return Ok(DiskMaking::Keep);
    }
    if d.from.is_some() {
        return Ok(DiskMaking::Folder(d.size));
    }
    match d.size {
        Some(n) => Ok(DiskMaking::Blank(n)),
        None => Err(cat3("disk \"", d.name.as_str(), "\": no size and no source folder")),
    }
}

/// How large a disk filled from a folder is, in bytes and in blocks of 1024
/// bytes: twice its contents, and at least what a FAT32 file system needs.
pub fn folder_disk_size(size: Option<u64>, content: u64) -> (r: (u64, u64))
    requires
        content * 2 <= u64::MAX,
    ensures
        ({
            let asked: u64 = match size {
                Some(n) => n,
                None => 0,
            };
            &&& r.0 >= asked && r.0 >= content * 2 && r.0 >= 67_108_864
            &&& r.0 == asked || r.0 == content * 2 || r.0 == 67_108_864
        }),
        r.1 as int == (r.0 + 1023) / 1024,
{
    let mut bytes: u64 = match size {
        Some(n) => n,
        None => 0,
    };
    if bytes < content * 2 {
        bytes = content * 2;
    }
    if bytes < 67_108_864 {
        bytes = 67_108_864;
    }
    let kb: u64 = if bytes % 1024 == 0 {
        bytes / 1024
    } else {
        bytes / 1024 + 1
    };
    (bytes, kb)
}

/// The arguments of the tools that fill a disk from a folder.
#[derive(Debug)]
pub struct FolderDisk {
    /// For `mkfs.vfat`.
    pub format: Vec<String>,
    /// For `mcopy`, unless the folder is empty.
    pub copy: Option<Vec<String>>,
}

/// The arguments of the tools that make an image of `kb` blocks at `tmp` and
/// copy the entries of a folder into it.
pub fn folder_disk_tools(tmp: &str, kb: u64, entries: &Vec<String>) -> (r: FolderDisk)
    ensures
        r.format.deep_view() == seq!["-C"@, tmp@, decimal(kb as nat)],
        r.copy.deep_view() == (if entries@.len() > 0 {
            Some(seq!["-i"@, tmp@, "-s"@] + entries.deep_view() + seq!["::/"@])
        } else {
            None
        }),
{
    let mut format: Vec<String> = Vec::new();
    format.push("-C".to_owned());
    format.push(tmp.to_owned());
    format.push(decimal_string(kb));
    assert(format.deep_view() =~= seq!["-C"@, tmp@, decimal(kb as nat)]);
    if entries.len() == 0 {
        return FolderDisk { format, copy: None };
    }
    let mut copy: Vec<String> = Vec::new();
    copy.push("-i".to_owned());
    copy.push(tmp.to_owned());
    copy.push("-s".to_owned());
    let mut i: usize = 0;
    while i < entries.len()
        invariant
            i <= entries@.len(),
            copy.deep_view() == seq!["-i"@, tmp@, "-s"@] + entries.deep_view().take(i as int),
        decreases entries@.len() - i,
    {
        let ghost before = copy.deep_view();
        copy.push(entries[i].clone());
        assert(copy.deep_view() =~= before.push(entries.deep_view()[i as int]));
        assert(entries.deep_view().take(i + 1) =~= entries.deep_view().take(i as int).push(
            entries.deep_view()[i as int],
        ));
        i = i + 1;
    }
    assert(entries.deep_view().take(i as int) =~= entries.deep_view());
    let ghost before = copy.deep_view();
    copy.push("::/".to_owned());
    assert(copy.deep_view() =~= before + seq!["::/"@]);
    FolderDisk { format, copy: Some(copy) }
}

// -- starting ------------------------------------------------------------------------------

/// Which firmware a guest's variable store is copied from.
#[derive(Debug, Clone, Copy, PartialEq, Eq, Structural)]
pub enum FirmwareSource {
    OvmfX86 { secure_boot: bool },
    UefiAarch64,
}

/// Which firmware a guest's variable store is copied from.
pub fn firmware_source(arch: &str, secure_boot: bool) -> (r: Result<FirmwareSource, String>)
    ensures
        arch@ == "x86_64"@ ==> r == Ok::<FirmwareSource, String>(
            FirmwareSource::OvmfX86 { secure_boot },
        ),
        arch@ != "x86_64"@ && arch@ == "aarch64"@ ==> r == Ok::<FirmwareSource, String>(
            FirmwareSource::UefiAarch64,
        ),
        arch@ != "x86_64"@ && arch@ != "aarch64"@ ==> r is Err && (r->Err_0)@
            == "no UEFI firmware for arch "@ + arch@,
{
    if str_eq(arch, "x86_64") {
        Ok(FirmwareSource::OvmfX86 { secure_boot })
    } else if str_eq(arch, "aarch64") {
        Ok(FirmwareSource::UefiAarch64)
    } else {
        Err(joined("no UEFI firmware for arch ", arch))
    }
}

/// A step of the start sequence.
#[derive(Debug, Clone, Copy, PartialEq, Eq, Structural)]
pub enum StartStep {
    MakeDirs,
    EnsureDisks,
    /// Give the guest its own copy of the firmware's variable store.
    CopyVars,
    SpawnTpm,
    /// Spawn QEMU with its CPUs paused.
    SpawnQemu,
    ConnectQmp,
    /// Release the CPUs.
    Release,
    ConnectAgent,
}

/// The start sequence of a guest.
pub open spec fn start_sequence(copy_vars: bool, tpm: bool) -> Seq<StartStep> {
    seq![StartStep::MakeDirs, StartStep::EnsureDisks] + (if copy_vars {
        seq![StartStep::CopyVars]
    } else {
        Seq::empty()
    }) + (if tpm {
        seq![StartStep::SpawnTpm]
    } else {
        Seq::empty()
    }) + seq![
        StartStep::SpawnQemu,
        StartStep::ConnectQmp,
        StartStep::Release,
        StartStep::ConnectAgent,
    ]
}

/// How often the socket of a TPM emulator is looked for.
pub const TPM_TRIES: u32 = 50;

/// How long to wait before it is looked for again, in milliseconds.
pub const TPM_PAUSE_MS: u64 = 20;

/// A started TPM emulator is given a moment to bind its socket, which was looked
/// for `tried` times before and is now `bound` or not: how long to wait until it
/// is looked for again, or nothing when the start goes on.
pub fn await_tpm(tried: u32, bound: bool) -> (r: Option<u64>)
    ensures
        r == (if tried < TPM_TRIES && !bound {
            Some(TPM_PAUSE_MS)
        } else {
            None
        }),
{
    if tried < TPM_TRIES && !bound {
        Some(TPM_PAUSE_MS)
    } else {
        None
    }
}

/// How often the QMP socket of a new process is tried, a tenth of a second
/// apart.
pub const QMP_TRIES: u32 = 100;

/// Whether to dial the QMP socket of a process, after `tried` attempts that
/// failed; or why there is no more point in it.
pub fn dial_qmp(sock: &str, tried: u32, running: bool, status: Option<&str>) -> (r: Result<
    (),
    String,
>)
    ensures
        r is Ok <==> tried < QMP_TRIES && running,
        r matches Err(e) ==> e@ == (if tried >= QMP_TRIES {
            "QMP socket "@ + sock@ + " never came up"@
        } else {
            "QEMU exited during startup: "@ + match status {
                Some(s) => s@,
                None => ""@,
            }
        }),
{
    if tried >= QMP_TRIES {
        return Err(cat3("QMP socket ", sock, " never came up"));
    }
    if !running {
        return Err(
            joined(
                "QEMU exited during startup: ",
                match status {
                    Some(s) => s,
                    None => "",
                },
            ),
        );
    }
    Ok(())
}

/// A guest's power state, and what decides why it ends.
#[derive(Debug, Clone, Copy, PartialEq, Eq, Structural)]
pub struct VmInstance {
    pub state: PowerState,
    pub ready: bool,
    pub stop_requested: bool,
    /// The guest has asked to be shut down.
    pub guest_shutdown: bool,
}

/// Whether a process ended without an error.
pub open spec fn clean_exit(status: Seq<char>) -> bool {
    occurs(status, "exit status: 0"@)
}

/// Why a guest's process ended.
pub open spec fn exit_reason(requested: bool, guest: bool, status: Seq<char>) -> StopReason {
    if requested {
        StopReason::Requested
    } else if guest && clean_exit(status) {
        StopReason::GuestInitiated
    } else if clean_exit(status) {
        StopReason::Requested
    } else {
        StopReason::Crashed
    }
}

/// Whether a QMP event says that the guest asked to be shut down.
pub open spec fn is_guest_shutdown(event: Seq<char>, reason: Option<Seq<char>>) -> bool {
    event == "SHUTDOWN"@ && (reason == Some("guest-shutdown"@) || reason == Some("guest-reset"@))
}

/// What the readiness poller does next.
#[derive(Debug, Clone, Copy, PartialEq, Eq, Structural)]
pub enum ReadyPoll {
    /// The guest no longer runs.
    Stop,
    /// The agent answered.
    Ready,
    /// Ask again in a second.
    Again,
}

/// What waiting for a guest to be ready comes to.
#[derive(Debug)]
pub enum ReadyWait {
    Ready,
    Failed(String),
    /// Look again in a quarter of a second.
    Again,
}

/// What waiting for a power state comes to.
#[derive(Debug)]
pub enum StateWait {
    Reached,
    Failed(String),
    /// Look again in a twentieth of a second.
    Again,
}

/// A rung of the stop ladder.
#[derive(Debug, Clone, Copy, PartialEq, Eq, Structural)]
pub enum StopRung {
    /// Nothing runs.
    Nothing,
    /// Ask the guest agent to power down, and give it 30 seconds.
    Agent,
    /// ACPI powerdown, and 30 seconds.
    Powerdown,
    /// Kill the process.
    Kill,
    /// Wait for the exit monitor to settle the state.
    Settle,
}

impl VmInstance {
    pub fn new() -> (r: VmInstance)
        ensures
            r == (VmInstance {
                state: PowerState::Stopped,
                ready: false,
                stop_requested: false,
                guest_shutdown: false,
            }),
    {
        VmInstance {
            state: PowerState::Stopped,
            ready: false,
            stop_requested: false,
            guest_shutdown: false,
        }
    }

    /// Begin to start a stopped guest: what to do, in order. Whatever fails,
    /// [`VmInstance::start_failed`] follows.
    pub fn start(&mut self, name: &str, uefi: bool, has_vars: bool, tpm: bool) -> (r: Result<
        Vec<StartStep>,
        String,
    >)
        ensures
            r is Ok <==> old(self).state == PowerState::Stopped,
            r matches Ok(steps) ==> steps@ == start_sequence(uefi && !has_vars, tpm)
                && *final(self) == (VmInstance {
                state: PowerState::Starting,
                stop_requested: false,
                guest_shutdown: false,
                ..*old(self)
            }),
            r matches Err(e) ==> e@ == name@ + " is "@ + state_word(old(self).state)
                && *final(self) == *old(self),
    {
        if self.state != PowerState::Stopped {
            return Err(cat3(name, " is ", self.state.word()));
        }
        self.state = PowerState::Starting;
        self.stop_requested = false;
        self.guest_shutdown = false;
        let mut steps: Vec<StartStep> = Vec::new();
        steps.push(StartStep::MakeDirs);
        steps.push(StartStep::EnsureDisks);
        if uefi && !has_vars {
            steps.push(StartStep::CopyVars);
        }
        if tpm {
            steps.push(StartStep::SpawnTpm);
        }
        steps.push(StartStep::SpawnQemu);
        steps.push(StartStep::ConnectQmp);
        steps.push(StartStep::Release);
        steps.push(StartStep::ConnectAgent);
        assert(steps@ =~= start_sequence(uefi && !has_vars, tpm));
        Ok(steps)
    }

    /// Every step of the start sequence was done.
    pub fn started(&mut self)
        ensures
            *final(self) == (VmInstance { state: PowerState::Running, ..*old(self) }),
    {
        self.state = PowerState::Running;
    }

    /// A step of the start sequence failed: the guest is off again.
    pub fn start_failed(&mut self)
        ensures
            *final(self) == (VmInstance { state: PowerState::Stopped, ..*old(self) }),
    {
        self.state = PowerState::Stopped;
    }

    /// A QMP event came in.
    pub fn on_event(&mut self, event: &str, reason: Option<&str>)
        ensures
            *final(self) == (VmInstance {
                guest_shutdown: old(self).guest_shutdown || is_guest_shutdown(
                    event@,
                    match reason {
                        Some(r) => Some(r@),
                        None => None,
                    },
                ),
                ..*old(self)
            }),
    {
        if str_eq(event, "SHUTDOWN") {
            if let Some(r) = reason {
                if str_eq(r, "guest-shutdown") || str_eq(r, "guest-reset") {
                    self.guest_shutdown = true;
                }
            }
        }
    }

    /// The process ended: the guest is off, and this is why.
    pub fn on_exit(&mut self, status: &str) -> (r: StopReason)
        ensures
            r == exit_reason(old(self).stop_requested, old(self).guest_shutdown, status@),
            *final(self) == (VmInstance {
                state: PowerState::Stopped,
                ready: false,
                ..*old(self)
            }),
    {
        let clean = has_text(status, "exit status: 0");
        let reason = if self.stop_requested {
            StopReason::Requested
        } else if self.guest_shutdown && clean {
            StopReason::GuestInitiated
        } else if clean {
            StopReason::Requested
        } else {
            StopReason::Crashed
        };
        self.state = PowerState::Stopped;
        self.ready = false;
        reason
    }

    /// The readiness poller asked the agent, and it answered or did not.
    pub fn poll_ready(&mut self, answered: bool) -> (r: ReadyPoll)
        ensures
            r == (if old(self).state != PowerState::Running {
                ReadyPoll::Stop
            } else if answered {
                ReadyPoll::Ready
            } else {
                ReadyPoll::Again
            }),
            *final(self) == (VmInstance {
                ready: old(self).ready || r == ReadyPoll::Ready,
                ..*old(self)
            }),
    {
        if self.state != PowerState::Running {
            ReadyPoll::Stop
        } else if answered {
            self.ready = true;
            ReadyPoll::Ready
        } else {
            ReadyPoll::Again
        }
    }

    /// Wait for a power state, for `timeout` seconds that are over or not.
    pub fn wait_state(&self, name: &str, want: PowerState, timeout: u64, over: bool) -> (r:
        StateWait)
        ensures
            match r {
                StateWait::Reached => self.state == want,
                StateWait::Failed(e) => self.state != want && over && e@ == name@ + ": still "@
                    + state_word(self.state) + " after "@ + decimal(timeout as nat) + "s"@,
                StateWait::Again => self.state != want && !over,
            },
    {
        if self.state == want {
            StateWait::Reached
        } else if over {
            let still = cat3(name, ": still ", self.state.word());
            let m = cat3(still.as_str(), " after ", decimal_string(timeout).as_str());
            StateWait::Failed(joined(m.as_str(), "s"))
        } else {
            StateWait::Again
        }
    }

    /// Wait until the agent responds, for `timeout` seconds that are over or
    /// not.
    pub fn wait_ready(&self, name: &str, timeout: u64, over: bool) -> (r: ReadyWait)
        ensures
            match r {
                ReadyWait::Ready => self.ready,
                ReadyWait::Failed(e) => !self.ready && (if self.state == PowerState::Stopped {
                    e@ == name@ + " stopped while waiting for ready"@
                } else {
                    over && e@ == name@ + ": not ready after "@ + decimal(timeout as nat) + "s"@
                }),
                ReadyWait::Again => !self.ready && self.state != PowerState::Stopped && !over,
            },
    {
        if self.ready {
            ReadyWait::Ready
        } else if self.state == PowerState::Stopped {
            ReadyWait::Failed(joined(name, " stopped while waiting for ready"))
        } else if over {
            let m = cat3(name, ": not ready after ", decimal_string(timeout).as_str());
            ReadyWait::Failed(joined(m.as_str(), "s"))
        } else {
            ReadyWait::Again
        }
    }

    /// Begin to stop a guest: the first rung of the ladder. `agent` and `qmp`
    /// say whether there is a channel to each.
    pub fn stop(&mut self, process: bool, force: bool, agent: bool, qmp: bool) -> (r: StopRung)
        ensures
            r == (if !process {
                StopRung::Nothing
            } else if force {
                StopRung::Kill
            } else if old(self).ready && agent {
                StopRung::Agent
            } else if qmp {
                StopRung::Powerdown
            } else {
                StopRung::Kill
            }),
            *final(self) == (if process {
                VmInstance {
                    state: PowerState::Stopping,
                    stop_requested: true,
                    ..*old(self)
                }
            } else {
                *old(self)
            }),
    {
        if !process {
            return StopRung::Nothing;
        }
        self.stop_requested = true;
        self.state = PowerState::Stopping;
        if force {
            StopRung::Kill
        } else if self.ready && agent {
            StopRung::Agent
        } else if qmp {
            StopRung::Powerdown
        } else {
            StopRung::Kill
        }
    }
}

/// The rung below one whose time is over, or after which the process ended.
pub open spec fn below(rung: StopRung, exited: bool, qmp: bool) -> StopRung {
    match rung {
        StopRung::Agent => if exited {
            StopRung::Settle
        } else if qmp {
            StopRung::Powerdown
        } else {
            StopRung::Kill
        },
        StopRung::Powerdown => if exited {
            StopRung::Settle
        } else {
            StopRung::Kill
        },
        StopRung::Kill => StopRung::Settle,
        StopRung::Settle => StopRung::Nothing,
        StopRung::Nothing => StopRung::Nothing,
    }
}

/// The rung below one whose time is over, or after which the process ended.
pub fn next_rung(rung: StopRung, exited: bool, qmp: bool) -> (r: StopRung)
    ensures
        r == below(rung, exited, qmp),
{
    match rung {
        StopRung::Agent => if exited {
            StopRung::Settle
        } else if qmp {
            StopRung::Powerdown
        } else {
            StopRung::Kill
        },
        StopRung::Powerdown => if exited {
            StopRung::Settle
        } else {
            StopRung::Kill
        },
        StopRung::Kill => StopRung::Settle,
        StopRung::Settle => StopRung::Nothing,
        StopRung::Nothing => StopRung::Nothing,
    }
}

// -- snapshots -------------------------------------------------------------------------------

/// Whether a snapshot can have this name.
pub open spec fn snapshot_name_ok(name: Seq<char>) -> bool {
    &&& name.len() > 0
    &&& forall|i: int| 0 <= i < name.len() ==> name_char(#[trigger] name[i])
}

/// Whether a snapshot's name can hold this character.
pub open spec fn name_char(c: char) -> bool {
    '0' <= c <= '9' || 'a' <= c <= 'z' || 'A' <= c <= 'Z' || c == '-' || c == '_' || c == '.'
}

pub fn validate_snapshot_name(name: &str) -> (r: Result<(), String>)
    ensures
        r is Ok <==> snapshot_name_ok(name@),
        r matches Err(e) ==> e@ == "invalid snapshot name `"@ + name@
            + "` (alphanumeric, '-', '_', '.')"@,
{
    let c = chars_of(name);
    let mut ok = c.len() > 0;
    let mut i: usize = 0;
    while i < c.len() && ok
        invariant
            i <= c@.len(),
            c@ == name@,
            ok ==> c@.len() > 0 && forall|j: int| 0 <= j < i ==> name_char(#[trigger] name@[j]),
            !ok ==> !snapshot_name_ok(name@),
        decreases c@.len() - i,
    {
        let x: char = c[i];
        if !(('0' <= x && x <= '9') || ('a' <= x && x <= 'z') || ('A' <= x && x <= 'Z') || x == '-'
            || x == '_' || x == '.') {
            assert(!name_char(name@[i as int]));
            ok = false;
        }
        i = i + 1;
    }
    if ok {
        Ok(())
    } else {
        Err(cat3("invalid snapshot name `", name, "` (alphanumeric, '-', '_', '.')"))
    }
}

/// What a guest's disks are called in QEMU.
pub open spec fn node_names(n: nat) -> Seq<Seq<char>> {
    Seq::new(n, |i: int| "disk"@ + decimal(i as nat))
}

pub fn disk_nodes(n: usize) -> (r: Vec<String>)
    ensures
        r.deep_view() == node_names(n as nat),
{
    let mut out: Vec<String> = Vec::new();
    let mut i: usize = 0;
    while i < n
        invariant
            i <= n,
            out@.len() == i,
            forall|j: int| 0 <= j < i ==> #[trigger] out@[j]@ == "disk"@ + decimal(j as nat),
        decreases n - i,
    {
        out.push(joined("disk", decimal_string(i as u64).as_str()));
        i = i + 1;
    }
    assert(out.deep_view() =~= node_names(n as nat));
    out
}

/// How a snapshot is worked on.
#[derive(Debug)]
pub enum SnapshotWork {
    /// Through QMP, on these nodes.
    Online(Vec<String>),
    /// On these disk files.
    Offline(Vec<String>),
}

/// Whether a piece of work is on the nodes or on the files of these disks.
pub open spec fn work_is(
    w: SnapshotWork,
    online: bool,
    local: Seq<char>,
    disks: Seq<DiskBlockView>,
) -> bool {
    match w {
        SnapshotWork::Online(nodes) => online && nodes.deep_view() == node_names(
            disks.len() + 1,
        ),
        SnapshotWork::Offline(files) => !online && files.deep_view() == disk_paths(local, disks),
    }
}

fn online_work(disks: &Vec<DiskBlock>) -> (r: SnapshotWork)
    ensures
        forall|local: Seq<char>| #[trigger] work_is(r, true, local, disks.deep_view()),
{
    let mut nodes = disk_nodes(disks.len());
    let last = joined("disk", decimal_string(disks.len() as u64).as_str());
    let ghost was = nodes.deep_view();
    nodes.push(last);
    assert(nodes.deep_view() =~= was.push(last@));
    assert(disks.deep_view().len() == disks@.len());
    assert(nodes.deep_view() =~= node_names(disks.deep_view().len() + 1));
    SnapshotWork::Online(nodes)
}

impl VmInstance {
    /// How a snapshot is taken: online iff the guest runs.
    pub fn snapshot(&self, vm: &str, dirs: &VmDirs, disks: &Vec<DiskBlock>, name: &str) -> (r:
        Result<SnapshotWork, String>)
        ensures
            r is Ok <==> snapshot_name_ok(name@) && (self.state == PowerState::Running || self.state
                == PowerState::Stopped),
            r matches Ok(w) ==> work_is(
                w,
                self.state == PowerState::Running,
                dirs.local@,
                disks.deep_view(),
            ),
            r matches Err(e) ==> (if !snapshot_name_ok(name@) {
                e@ == "invalid snapshot name `"@ + name@ + "` (alphanumeric, '-', '_', '.')"@
            } else {
                e@ == vm@ + " is "@ + state_word(self.state) + " — wait for it to settle"@
            }),
    {
        if let Err(e) = validate_snapshot_name(name) {
            return Err(e);
        }
        match self.state {
            PowerState::Running => Ok(online_work(disks)),
            PowerState::Stopped => Ok(SnapshotWork::Offline(all_disk_paths(dirs, disks))),
            _ => {
                let m = cat3(vm, " is ", self.state.word());
                Err(joined(m.as_str(), " — wait for it to settle"))
            },
        }
    }

    /// How a snapshot is restored. Online snapshots resume running exactly
    /// where they were: a stopped guest is started first. Offline snapshots
    /// leave the guest off: a running one is stopped first. The flag says
    /// whether the power state changes first.
    pub fn restore(&self, dirs: &VmDirs, disks: &Vec<DiskBlock>, was_online: bool) -> (r: (
        bool,
        SnapshotWork,
    ))
        ensures
            r.0 == (was_online == (self.state == PowerState::Stopped)),
            work_is(r.1, was_online, dirs.local@, disks.deep_view()),
    {
        if was_online {
            (self.state == PowerState::Stopped, online_work(disks))
        } else {
            (
                self.state != PowerState::Stopped,
                SnapshotWork::Offline(all_disk_paths(dirs, disks)),
            )
        }
    }

    /// How a snapshot is deleted.
    pub fn delete_snapshot(&self, dirs: &VmDirs, disks: &Vec<DiskBlock>) -> (r: SnapshotWork)
        ensures
            work_is(r, self.state == PowerState::Running, dirs.local@, disks.deep_view()),
    {
        match self.state {
            PowerState::Running => online_work(disks),
            _ => SnapshotWork::Offline(all_disk_paths(dirs, disks)),
        }
    }
}

// -- addresses -----------------------------------------------------------------------------------

/// A network interface as the guest agent reports it.
#[derive(Debug)]
pub struct GuestIface {
    pub hardware_address: Option<String>,
    /// Addresses, each with its kind.
    pub ips: Vec<(String, String)>,
}

/// Whether an address is the kind that is asked for: IPv4, not loopback.
pub open spec fn is_usable(addr: Seq<char>, kind: Seq<char>) -> bool {
    kind == "ipv4"@ && !starts_with(addr, "127."@)
}

/// Whether an interface is the one that is asked for.
pub open spec fn is_wanted(iface: GuestIface, want: Option<Seq<char>>) -> bool {
    match want {
        Some(mac) => iface.hardware_address.deep_view() == Some(mac),
        None => true,
    }
}

/// The first usable address among these.
pub open spec fn first_usable(ips: Seq<(String, String)>) -> Option<Seq<char>>
    decreases ips.len(),
{
    if ips.len() == 0 {
        None
    } else if is_usable(ips[0].0@, ips[0].1@) {
        Some(ips[0].0@)
    } else {
        first_usable(ips.skip(1))
    }
}

/// The first usable address on the wanted interfaces.
pub open spec fn first_address(ifaces: Seq<GuestIface>, want: Option<Seq<char>>) -> Option<
    Seq<char>,
>
    decreases ifaces.len(),
{
    if ifaces.len() == 0 {
        None
    } else if is_wanted(ifaces[0], want) && first_usable(ifaces[0].ips@) is Some {
        first_usable(ifaces[0].ips@)
    } else {
        first_address(ifaces.skip(1), want)
    }
}

/// The hardware address of the card that is asked for.
pub open spec fn wanted_mac(macs: Seq<MacAddr>, nic: Option<u64>) -> Option<Seq<char>> {
    match nic {
        Some(i) => if i < macs.len() {
            Some(mac_text(macs[i as int]))
        } else {
            None
        },
        None => None,
    }
}

fn usable_in(ips: &Vec<(String, String)>) -> (r: Option<String>)
    ensures
        r.deep_view() == first_usable(ips@),
{
    let loopback = chars_of("127.");
    let mut i: usize = 0;
    assert(ips@.skip(0) =~= ips@);
    while i < ips.len()
        invariant
            i <= ips@.len(),
            loopback@ == "127."@,
            first_usable(ips@.skip(i as int)) == first_usable(ips@),
        decreases ips@.len() - i,
    {
        assert(ips@.skip(i as int).skip(1) =~= ips@.skip(i + 1));
        assert(ips@.skip(i as int)[0] == ips@[i as int]);
        let addr = ips[i].0.as_str();
        if str_eq(ips[i].1.as_str(), "ipv4") {
            let c = chars_of(addr);
            if !has_prefix(c.as_slice(), loopback.as_slice()) {
                return Some(addr.to_owned());
            }
        }
        i = i + 1;
    }
    None
}

/// First IPv4 address reported by the guest agent (excluding loopback), or
/// per-NIC when `nic` is given.
pub fn guest_ip(vm: &str, macs: &Vec<MacAddr>, ifaces: &Vec<GuestIface>, nic: Option<u64>) -> (r:
    Result<String, String>)
    ensures
        r is Ok <==> first_address(ifaces@, wanted_mac(macs@, nic)) is Some,
        r matches Ok(ip) ==> first_address(ifaces@, wanted_mac(macs@, nic)) == Some(ip@),
        r matches Err(e) ==> e@ == vm@ + ": no IPv4 address reported by agent"@,
{
    let want: Option<String> = match nic {
        Some(i) => if i < macs.len() as u64 {
            Some(macs[i as usize].to_text())
        } else {
            None
        },
        None => None,
    };
    let ghost w = wanted_mac(macs@, nic);
    assert(want.deep_view() == w);
    let mut i: usize = 0;
    assert(ifaces@.skip(0) =~= ifaces@);
    while i < ifaces.len()
        invariant
            i <= ifaces@.len(),
            want.deep_view() == w,
            w == wanted_mac(macs@, nic),
            first_address(ifaces@.skip(i as int), w) == first_address(ifaces@, w),
        decreases ifaces@.len() - i,
    {
        assert(ifaces@.skip(i as int).skip(1) =~= ifaces@.skip(i + 1));
        assert(ifaces@.skip(i as int)[0] == ifaces@[i as int]);
        let wanted = match (&want, &ifaces[i].hardware_address) {
            (None, _) => true,
            (Some(a), Some(b)) => str_eq(a.as_str(), b.as_str()),
            (Some(_), None) => false,
        };
        assert(wanted == is_wanted(ifaces@[i as int], w));
        if wanted {
            if let Some(ip) = usable_in(&ifaces[i].ips) {
                return Ok(ip);
            }
        }
        i = i + 1;
    }
    Err(joined(vm, ": no IPv4 address reported by agent"))
}

// -- laws -------------------------------------------------------------------------------------------

/// The ladder comes to an end: whatever happens on the way down, at the fourth
/// step nothing is left to do.
pub proof fn ladder_ends(rung: StopRung, e1: bool, e2: bool, e3: bool, e4: bool, qmp: bool)
    ensures
        below(below(below(below(rung, e1, qmp), e2, qmp), e3, qmp), e4, qmp) == StopRung::Nothing,
{
}

/// A guest that survives the rungs above is killed: nothing is given up
/// without that.
pub proof fn survivors_are_killed(rung: StopRung, qmp: bool)
    requires
        rung == StopRung::Agent || rung == StopRung::Powerdown,
    ensures
        below(rung, false, qmp) == StopRung::Kill || below(below(rung, false, qmp), false, qmp)
            == StopRung::Kill,
{
}

/// A stop that was asked for is never reported as a crash.
pub proof fn requested_stop_is_no_crash(guest: bool, status: Seq<char>)
    ensures
        exit_reason(true, guest, status) == StopReason::Requested,
{
}

/// A guest is reported as crashed exactly when nobody asked it to stop and its
/// process ended with an error.
pub proof fn crash_iff_unasked_error(requested: bool, guest: bool, status: Seq<char>)
    ensures
        exit_reason(requested, guest, status) == StopReason::Crashed <==> !requested
            && !clean_exit(status),
{
}

/// The start sequence: folders and disks first; the firmware's variables are
/// copied exactly where they are missing and the TPM is spawned exactly where
/// there is one, in this order and before QEMU; QEMU is released only once its
/// control channel stands, and the agent comes last. Nothing else happens.
pub proof fn start_goes_in_order(copy_vars: bool, tpm: bool)
    ensures
        ({
            let s = start_sequence(copy_vars, tpm);
            let n = s.len() as int;
            &&& n == 6 + (if copy_vars {
                1int
            } else {
                0
            }) + (if tpm {
                1int
            } else {
                0
            })
            &&& s[0] == StartStep::MakeDirs
            &&& s[1] == StartStep::EnsureDisks
            &&& copy_vars ==> s[2] == StartStep::CopyVars
            &&& tpm ==> s[n - 5] == StartStep::SpawnTpm
            &&& s[n - 4] == StartStep::SpawnQemu
            &&& s[n - 3] == StartStep::ConnectQmp
            &&& s[n - 2] == StartStep::Release
            &&& s[n - 1] == StartStep::ConnectAgent
        }),
{
}

/// Why a guest ended: because it was asked to, whatever its exit; else because
/// the guest shut itself down, if it said so and ended cleanly; else it was a
/// request from outside if it ended cleanly, and a crash if not. An exit is
/// clean when its status names the code 0.
pub proof fn exit_reasons_are_told_apart(requested: bool, guest: bool, status: Seq<char>, at: int)
    ensures
        exit_reason(requested, guest, status) == StopReason::GuestInitiated <==> !requested && guest
            && clean_exit(status),
        exit_reason(requested, guest, status) == StopReason::Requested <==> requested || (!guest
            && clean_exit(status)),
        0 <= at && at + 14 <= status.len() && status.subrange(at, at + 14) == "exit status: 0"@
            ==> clean_exit(status),
        status.len() < 14 ==> !clean_exit(status),
{
    reveal_strlit("exit status: 0");
    let t = "exit status: 0"@;
    assert(t.len() == 14);
}

/// How the ladder goes down: a guest whose process ended is never treated more
/// roughly, and one whose process did not is given a power button first exactly
/// where there is a channel for it, and then killed.
pub proof fn ladder_goes_down(rung: StopRung, exited: bool, qmp: bool, r: StopRung)
    requires
        call_ensures(next_rung, (rung, exited, qmp), r),
    ensures
        rung == StopRung::Agent && !exited && qmp ==> r == StopRung::Powerdown,
        rung == StopRung::Agent && !exited && !qmp ==> r == StopRung::Kill,
        rung == StopRung::Powerdown && !exited ==> r == StopRung::Kill,
        exited && (rung == StopRung::Agent || rung == StopRung::Powerdown || rung
            == StopRung::Kill) ==> r == StopRung::Settle,
        rung == StopRung::Kill ==> r == StopRung::Settle,
        rung == StopRung::Settle || rung == StopRung::Nothing ==> r == StopRung::Nothing,
{
}

/// A snapshot is taken of a guest that runs or is off, online exactly when it
/// runs, of its primary disk and every other one; a name is refused exactly
/// when it is empty or holds anything but letters, digits, dashes, underscores
/// and dots.
pub proof fn snapshot_covers_all_disks(
    vm: &VmInstance,
    label: &str,
    dirs: &VmDirs,
    disks: &Vec<DiskBlock>,
    name: &str,
    r: Result<SnapshotWork, String>,
)
    requires
        call_ensures(VmInstance::snapshot, (vm, label, dirs, disks, name), r),
    ensures
        ({
            let fine = name@.len() > 0 && forall|i: int|
                0 <= i < name@.len() ==> {
                    let c = #[trigger] name@[i];
                    ('0' <= c <= '9') || ('a' <= c <= 'z') || ('A' <= c <= 'Z') || c == '-' || c
                        == '_' || c == '.'
                };
            let online = vm.state == PowerState::Running;
            &&& r is Ok <==> fine && (online || vm.state == PowerState::Stopped)
            &&& r is Ok && online ==> (r->Ok_0 matches SnapshotWork::Online(nodes) && nodes@.len()
                == disks@.len() + 1)
            &&& r is Ok && !online ==> (r->Ok_0 matches SnapshotWork::Offline(files)
                && files@.len() == disks@.len() + 1)
        }),
{
    let fine = name@.len() > 0 && forall|i: int|
        0 <= i < name@.len() ==> {
            let c = #[trigger] name@[i];
            ('0' <= c <= '9') || ('a' <= c <= 'z') || ('A' <= c <= 'Z') || c == '-' || c == '_' || c
                == '.'
        };
    assert(snapshot_name_ok(name@) == fine);
    assert(disks.deep_view().len() == disks@.len());
    if let Ok(w) = r {
        match w {
            SnapshotWork::Online(nodes) => {
                assert(nodes.deep_view().len() == nodes@.len());
            },
            SnapshotWork::Offline(files) => {
                assert(files.deep_view().len() == files@.len());
            },
        }
    }
}

/// Restoring brings the guest to how the snapshot found it: a guest that was
/// on is started first exactly when it is off, one that was off is stopped
/// first exactly when it is not.
pub proof fn restore_changes_power_first(
    vm: &VmInstance,
    dirs: &VmDirs,
    disks: &Vec<DiskBlock>,
    was_online: bool,
    r: (bool, SnapshotWork),
)
    requires
        call_ensures(VmInstance::restore, (vm, dirs, disks, was_online), r),
    ensures
        was_online ==> (r.0 <==> vm.state == PowerState::Stopped) && r.1 is Online,
        !was_online ==> (r.0 <==> vm.state != PowerState::Stopped) && r.1 is Offline,
{
}

/// The address that is given for a guest is one that an interface of its
/// reports, of the card that was asked for if there is such a card: an IPv4
/// address and no loopback one. None is given only when there is no such
/// address.
pub proof fn guest_address_is_usable(
    vm: &str,
    macs: &Vec<MacAddr>,
    ifaces: &Vec<GuestIface>,
    nic: Option<u64>,
    r: Result<String, String>,
    i: int,
    k: int,
)
    requires
        call_ensures(guest_ip, (vm, macs, ifaces, nic), r),
        0 <= i < ifaces@.len(),
        0 <= k < ifaces@[i].ips@.len(),
    ensures
        ({
            let asked = nic is Some && nic->0 < macs@.len();
            let fits = |i: int, k: int|
                {
                    let c = ifaces@[i];
                    &&& asked ==> c.hardware_address is Some && c.hardware_address->0@ == mac_text(
                        macs@[nic->0 as int],
                    )
                    &&& c.ips@[k].1@ == "ipv4"@
                    &&& !(c.ips@[k].0@.len() >= 4 && c.ips@[k].0@.take(4) == "127."@)
                };
            &&& r is Err ==> !fits(i, k)
            &&& r matches Ok(ip) ==> exists|a: int, b: int|
                0 <= a < ifaces@.len() && 0 <= b < ifaces@[a].ips@.len() && (
                #[trigger] ifaces@[a].ips@[b]).0@ == ip@ && fits(a, b)
        }),
{
    reveal_strlit("127.");
    assert("127."@.len() == 4);
    let want = wanted_mac(macs@, nic);
    lemma_first_address(ifaces@, want, i, k);
    if let Ok(ip) = r {
        let (a, b) = lemma_address_found(ifaces@, want);
        assert(ifaces@[a].ips@[b].0@ == ip@);
    }
}

proof fn lemma_first_usable(ips: Seq<(String, String)>, k: int)
    requires
        0 <= k < ips.len(),
        is_usable(ips[k].0@, ips[k].1@),
    ensures
        first_usable(ips) is Some,
    decreases ips.len(),
{
    if !is_usable(ips[0].0@, ips[0].1@) {
        assert(ips.skip(1)[k - 1] == ips[k]);
        lemma_first_usable(ips.skip(1), k - 1);
    }
}

proof fn lemma_usable_found(ips: Seq<(String, String)>) -> (b: int)
    requires
        first_usable(ips) is Some,
    ensures
        0 <= b < ips.len(),
        is_usable(ips[b].0@, ips[b].1@),
        first_usable(ips) == Some(ips[b].0@),
    decreases ips.len(),
{
    if is_usable(ips[0].0@, ips[0].1@) {
        0
    } else {
        let b = lemma_usable_found(ips.skip(1));
        assert(ips.skip(1)[b] == ips[b + 1]);
        b + 1
    }
}

proof fn lemma_first_address(ifaces: Seq<GuestIface>, want: Option<Seq<char>>, i: int, k: int)
    requires
        0 <= i < ifaces.len(),
        0 <= k < ifaces[i].ips@.len(),
    ensures
        is_wanted(ifaces[i], want) && is_usable(ifaces[i].ips@[k].0@, ifaces[i].ips@[k].1@)
            ==> first_address(ifaces, want) is Some,
    decreases ifaces.len(),
{
    if is_wanted(ifaces[i], want) && is_usable(ifaces[i].ips@[k].0@, ifaces[i].ips@[k].1@) {
        if i == 0 {
            lemma_first_usable(ifaces[0].ips@, k);
        } else {
            assert(ifaces.skip(1)[i - 1] == ifaces[i]);
            lemma_first_address(ifaces.skip(1), want, i - 1, k);
        }
    }
}

proof fn lemma_address_found(ifaces: Seq<GuestIface>, want: Option<Seq<char>>) -> (r: (int, int))
    requires
        first_address(ifaces, want) is Some,
    ensures
        0 <= r.0 < ifaces.len(),
        0 <= r.1 < ifaces[r.0].ips@.len(),
        is_wanted(ifaces[r.0], want),
        is_usable(ifaces[r.0].ips@[r.1].0@, ifaces[r.0].ips@[r.1].1@),
        first_address(ifaces, want) == Some(ifaces[r.0].ips@[r.1].0@),
    decreases ifaces.len(),
{
    if is_wanted(ifaces[0], want) && first_usable(ifaces[0].ips@) is Some {
        (0, lemma_usable_found(ifaces[0].ips@))
    } else {
        let (a, b) = lemma_address_found(ifaces.skip(1), want);
        assert(ifaces.skip(1)[a] == ifaces[a + 1]);
        (a + 1, b)
    }
}

} // verus!
