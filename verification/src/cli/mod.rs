//! CLI surface: what each verb asks of the lab daemon, and what it prints. The
//! caller reads the command line, talks to the daemons and prints.

use vstd::prelude::*;

use crate::labd::{Request, RequestView};
use crate::text::{cat3, chars_of, copy_strings, find_char, index_of_char, string_of};

use vstd::slice::slice_subrange;

pub mod console;
pub mod copy;
pub mod daemon;
pub mod lab;
pub mod media;
pub mod net;
pub mod table;
pub mod validate;

verus! {

/// A command line.
#[derive(Debug)]
pub struct Cli {
    pub command: Command,
}

/// A verb with its arguments.
#[allow(inconsistent_fields)]
#[derive(Debug)]
pub enum Command {
    /// Create/start the lab (or a subset of VMs), run provision scripts
    Up { vms: Vec<String> },
    /// Graceful stop; clones retained
    Down { vms: Vec<String>, force: bool },
    /// Stop the lab and delete clones, lab-local state, dynamic net config
    Destroy,
    /// Lab/VM/segment state, IPs, ready flags
    Status,
    /// Validate the lab file with no side effects
    Validate,
    /// Per-VM power control
    Vm { cmd: VmCmd },
    /// Manage running labs host-wide
    Lab { cmd: lab::LabCmd },
    /// Take, restore, list, and delete VM/lab snapshots
    Snapshot { cmd: SnapshotCmd },
    /// Attach a console viewer to a VM
    Console { vm: String, tcp: bool },
    /// Run an ad-hoc script against the current lab
    Script { script: String },
    /// Run a command in the guest via the agent
    Exec { vm: String, timeout: u64, cmd: Vec<String> },
    /// Copy a host file or directory tree into a guest via the agent
    Cp { src: String, dest: String },
    /// Print guest OS information as JSON
    Osinfo { vm: String },
    /// Tail or dump logs for the lab or one VM
    Logs { target: Option<String>, follow: bool, lines: usize },
    /// Supervisor control (normally automatic)
    Daemon { cmd: daemon::DaemonCmd },
}

/// Per-VM power control.
#[allow(inconsistent_fields)]
#[derive(Debug)]
pub enum VmCmd {
    /// Start one VM
    Start { vm: String },
    /// Stop one VM (graceful ladder; forced to kill)
    Stop { vm: String, force: bool },
    /// Restart one VM
    Restart { vm: String },
}

/// Snapshot management.
#[allow(inconsistent_fields)]
#[derive(Debug)]
pub enum SnapshotCmd {
    /// Take a snapshot of one VM, or lab-wide
    Create { name: String, vm: Option<String> },
    /// Restore a snapshot (resumes running iff it was taken online)
    Restore { name: String, vm: Option<String> },
    /// List a VM's snapshots
    List { vm: String },
    /// Delete a VM snapshot
    Delete { vm: String, name: String },
}

/// What a `[lab/]vm` reference means: with a slash the lab is explicit.
pub open spec fn vm_ref_of(s: Seq<char>) -> Result<(Option<Seq<char>>, Seq<char>), Seq<char>> {
    match find_char(s, '/') {
        Some(i) => if i > 0 && i + 1 < s.len() {
            Ok((Some(s.take(i)), s.skip(i + 1)))
        } else {
            Err("malformed reference `"@ + s + "` (expected [lab/]vm)"@)
        },
        None => Ok((None, s)),
    }
}

/// Resolve a `[lab/]vm` reference: with a slash the lab is explicit.
pub fn split_vm_ref(vm_ref: &str) -> (r: Result<(Option<String>, String), String>)
    ensures
        match r {
            Ok((lab, vm)) => vm_ref_of(vm_ref@) == Ok::<
                (Option<Seq<char>>, Seq<char>),
                Seq<char>,
            >((lab.deep_view(), vm@)),
            Err(e) => vm_ref_of(vm_ref@) == Err::<(Option<Seq<char>>, Seq<char>), Seq<char>>(e@),
        },
{
    let c = chars_of(vm_ref);
    match index_of_char(c.as_slice(), '/') {
        Some(i) => {
            assert(c.len() == c@.len());
            if i > 0 && i + 1 < c.len() {
                let head = slice_subrange(c.as_slice(), 0, i);
                let tail = slice_subrange(c.as_slice(), i + 1, c.len());
                assert(head@ =~= c@.take(i as int));
                assert(tail@ =~= c@.skip(i + 1));
                Ok((Some(string_of(head)), string_of(tail)))
            } else {
                Err(cat3("malformed reference `", vm_ref, "` (expected [lab/]vm)"))
            }
        },
        None => Ok((None, vm_ref.to_owned())),
    }
}

/// What a verb does.
#[derive(Debug)]
pub enum Plan {
    /// Ask a lab's daemon: that of `lab`, which has to run, or of the current
    /// lab, which is started if `start` says so.
    Ask { lab: Option<String>, start: bool, request: Request },
    /// Nothing can be done.
    Refused(String),
    /// Something that no lab daemon is asked for.
    Local,
}

/// The contents of a [`Plan`].
pub ghost enum PlanView {
    Ask { lab: Option<Seq<char>>, start: bool, request: RequestView },
    Refused(Seq<char>),
    Local,
}

impl DeepView for Plan {
    type V = PlanView;

    open spec fn deep_view(&self) -> PlanView {
        match *self {
            Plan::Ask { lab, start, request } => PlanView::Ask {
                lab: lab.deep_view(),
                start,
                request: request.deep_view(),
            },
            Plan::Refused(e) => PlanView::Refused(e@),
            Plan::Local => PlanView::Local,
        }
    }
}

/// Ask the daemon of the lab that a reference means.
pub open spec fn ask_vm(vm_ref: Seq<char>, f: spec_fn(Seq<char>) -> RequestView) -> PlanView {
    match vm_ref_of(vm_ref) {
        Ok((lab, vm)) => PlanView::Ask { lab, start: lab is None, request: f(vm) },
        Err(e) => PlanView::Refused(e),
    }
}

/// Ask about one guest, or about all of the current lab.
pub open spec fn ask_some(
    vm_ref: Option<Seq<char>>,
    f: spec_fn(Option<Seq<char>>) -> RequestView,
) -> PlanView {
    match vm_ref {
        Some(r) => ask_vm(r, |vm: Seq<char>| f(Some(vm))),
        None => PlanView::Ask { lab: None, start: true, request: f(None) },
    }
}

/// What power control asks.
pub open spec fn vm_plan(cmd: VmCmd) -> PlanView {
    match cmd {
        VmCmd::Start { vm } => ask_vm(vm@, |v: Seq<char>| RequestView::VmStart { vm: v }),
        VmCmd::Stop { vm, force } => ask_vm(
            vm@,
            |v: Seq<char>| RequestView::VmStop { vm: v, force },
        ),
        VmCmd::Restart { vm } => ask_vm(vm@, |v: Seq<char>| RequestView::VmRestart { vm: v }),
    }
}

/// What snapshot management asks.
pub open spec fn snapshot_plan(cmd: SnapshotCmd) -> PlanView {
    match cmd {
        SnapshotCmd::Create { name, vm } => ask_some(
            vm.deep_view(),
            |v: Option<Seq<char>>| RequestView::SnapshotTake { vm: v, name: name@ },
        ),
        SnapshotCmd::Restore { name, vm } => ask_some(
            vm.deep_view(),
            |v: Option<Seq<char>>| RequestView::SnapshotRestore { vm: v, name: name@ },
        ),
        SnapshotCmd::List { vm } => ask_vm(vm@, |v: Seq<char>| RequestView::SnapshotList { vm: v }),
        SnapshotCmd::Delete { vm, name } => ask_vm(
            vm@,
            |v: Seq<char>| RequestView::SnapshotDelete { vm: v, name: name@ },
        ),
    }
}

/// What running a command in a guest asks.
pub open spec fn exec_plan(vm: Seq<char>, timeout: u64, cmd: Seq<Seq<char>>) -> PlanView {
    if cmd.len() == 0 {
        PlanView::Refused("nothing to execute — usage: vmlab exec <vm> -- <cmd> [args...]"@)
    } else {
        ask_vm(
            vm,
            |v: Seq<char>|
                RequestView::VmExec { vm: v, cmd: cmd[0], args: cmd.skip(1), timeout },
        )
    }
}

/// What a verb does.
pub open spec fn plan_for(c: Command) -> PlanView {
    match c {
        Command::Up { vms } => PlanView::Ask {
            lab: None,
            start: true,
            request: RequestView::Up { vms: vms.deep_view() },
        },
        Command::Down { vms, force } => PlanView::Ask {
            lab: None,
            start: false,
            request: RequestView::Down { vms: vms.deep_view(), force },
        },
        Command::Destroy => PlanView::Ask { lab: None, start: false, request: RequestView::Destroy },
        Command::Status => PlanView::Ask { lab: None, start: false, request: RequestView::Status },
        Command::Vm { cmd } => vm_plan(cmd),
        Command::Snapshot { cmd } => snapshot_plan(cmd),
        Command::Script { script } => PlanView::Ask {
            lab: None,
            start: true,
            request: RequestView::Run { script: script@ },
        },
        Command::Exec { vm, timeout, cmd } => exec_plan(vm@, timeout, cmd.deep_view()),
        Command::Osinfo { vm } => ask_vm(
            vm@,
            |v: Seq<char>| RequestView::VmOsinfo { vm: v, timeout: 30 },
        ),
        _ => PlanView::Local,
    }
}

fn plan_vm(cmd: &VmCmd) -> (r: Plan)
    ensures
        r.deep_view() == vm_plan(*cmd),
{
    let vm_ref = match cmd {
        VmCmd::Start { vm } => vm,
        VmCmd::Stop { vm, .. } => vm,
        VmCmd::Restart { vm } => vm,
    };
    match split_vm_ref(vm_ref.as_str()) {
        Err(e) => Plan::Refused(e),
        Ok((lab, v)) => {
            let start = lab.is_none();
            let request = match cmd {
                VmCmd::Start { .. } => Request::VmStart { vm: v },
                VmCmd::Stop { force, .. } => Request::VmStop { vm: v, force: *force },
                VmCmd::Restart { .. } => Request::VmRestart { vm: v },
            };
            Plan::Ask { lab, start, request }
        },
    }
}

fn plan_snapshot(cmd: &SnapshotCmd) -> (r: Plan)
    ensures
        r.deep_view() == snapshot_plan(*cmd),
{
    match cmd {
        SnapshotCmd::Create { name, vm } => match vm {
            None => Plan::Ask {
                lab: None,
                start: true,
                request: Request::SnapshotTake { vm: None, name: name.clone() },
            },
            Some(vm_ref) => match split_vm_ref(vm_ref.as_str()) {
                Err(e) => Plan::Refused(e),
                Ok((lab, v)) => {
                    let start = lab.is_none();
                    Plan::Ask {
                        lab,
                        start,
                        request: Request::SnapshotTake { vm: Some(v), name: name.clone() },
                    }
                },
            },
        },
        SnapshotCmd::Restore { name, vm } => match vm {
            None => Plan::Ask {
                lab: None,
                start: true,
                request: Request::SnapshotRestore { vm: None, name: name.clone() },
            },
            Some(vm_ref) => match split_vm_ref(vm_ref.as_str()) {
                Err(e) => Plan::Refused(e),
                Ok((lab, v)) => {
                    let start = lab.is_none();
                    Plan::Ask {
                        lab,
                        start,
                        request: Request::SnapshotRestore { vm: Some(v), name: name.clone() },
                    }
                },
            },
        },
        SnapshotCmd::List { vm } => match split_vm_ref(vm.as_str()) {
            Err(e) => Plan::Refused(e),
            Ok((lab, v)) => {
                let start = lab.is_none();
                Plan::Ask { lab, start, request: Request::SnapshotList { vm: v } }
            },
        },
        SnapshotCmd::Delete { vm, name } => match split_vm_ref(vm.as_str()) {
            Err(e) => Plan::Refused(e),
            Ok((lab, v)) => {
                let start = lab.is_none();
                Plan::Ask {
                    lab,
                    start,
                    request: Request::SnapshotDelete { vm: v, name: name.clone() },
                }
            },
        },
    }
}

fn plan_exec(vm: &str, timeout: u64, cmd: &Vec<String>) -> (r: Plan)
    ensures
        r.deep_view() == exec_plan(vm@, timeout, cmd.deep_view()),
{
    if cmd.len() == 0 {
        return Plan::Refused(
            "nothing to execute — usage: vmlab exec <vm> -- <cmd> [args...]".to_owned(),
        );
    }
    match split_vm_ref(vm) {
        Err(e) => Plan::Refused(e),
        Ok((lab, v)) => {
            let start = lab.is_none();
            let ghost words = cmd.deep_view();
            let mut args: Vec<String> = Vec::new();
            let mut i: usize = 1;
            while i < cmd.len()
                invariant
                    1 <= i <= cmd@.len(),
                    words == cmd.deep_view(),
                    args@.len() == i - 1,
                    forall|j: int| 0 <= j < i - 1 ==> #[trigger] args@[j]@ == words[j + 1],
                decreases cmd@.len() - i,
            {
                args.push(cmd[i].clone());
                i = i + 1;
            }
            assert(args.deep_view() =~= words.skip(1));
            Plan::Ask {
                lab,
                start,
                request: Request::VmExec { vm: v, cmd: cmd[0].clone(), args, timeout },
            }
        },
    }
}

/// What a verb does.
pub fn run(c: &Command) -> (r: Plan)
    ensures
        r.deep_view() == plan_for(*c),
{
    match c {
        Command::Up { vms } => Plan::Ask {
            lab: None,
            start: true,
            request: Request::Up { vms: copy_strings(vms) },
        },
        Command::Down { vms, force } => Plan::Ask {
            lab: None,
            start: false,
            request: Request::Down { vms: copy_strings(vms), force: *force },
        },
        Command::Destroy => Plan::Ask { lab: None, start: false, request: Request::Destroy },
        Command::Status => Plan::Ask { lab: None, start: false, request: Request::Status },
        Command::Vm { cmd } => plan_vm(cmd),
        Command::Snapshot { cmd } => plan_snapshot(cmd),
        Command::Script { script } => Plan::Ask {
            lab: None,
            start: true,
            request: Request::Run { script: script.clone() },
        },
        Command::Exec { vm, timeout, cmd } => plan_exec(vm.as_str(), *timeout, cmd),
        Command::Osinfo { vm } => match split_vm_ref(vm.as_str()) {
            Err(e) => Plan::Refused(e),
            Ok((lab, v)) => {
                let start = lab.is_none();
                Plan::Ask { lab, start, request: Request::VmOsinfo { vm: v, timeout: 30 } }
            },
        },
        _ => Plan::Local,
    }
}

/// What is said once a verb is done.
pub open spec fn done_text(c: Command, lab: Seq<char>) -> Option<Seq<char>> {
    match c {
        Command::Up { .. } => Some("lab \""@ + lab + "\" is up"@),
        Command::Down { .. } => Some("lab \""@ + lab + "\" is down (clones retained)"@),
        Command::Destroy => Some("lab \""@ + lab + "\" destroyed"@),
        Command::Snapshot { cmd } => match cmd {
            SnapshotCmd::Create { name, .. } => Some("snapshot \""@ + name@ + "\" created"@),
            SnapshotCmd::Restore { name, .. } => Some("snapshot \""@ + name@ + "\" restored"@),
            SnapshotCmd::Delete { name, .. } => Some("snapshot \""@ + name@ + "\" deleted"@),
            SnapshotCmd::List { .. } => None,
        },
        _ => None,
    }
}

/// What is said once a verb is done.
pub fn done_message(c: &Command, lab: &str) -> (r: Option<String>)
    ensures
        r.deep_view() == done_text(*c, lab@),
{
    match c {
        Command::Up { .. } => Some(cat3("lab \"", lab, "\" is up")),
        Command::Down { .. } => Some(cat3("lab \"", lab, "\" is down (clones retained)")),
        Command::Destroy => Some(cat3("lab \"", lab, "\" destroyed")),
        Command::Snapshot { cmd } => match cmd {
            SnapshotCmd::Create { name, .. } => Some(
                cat3("snapshot \"", name.as_str(), "\" created"),
            ),
            SnapshotCmd::Restore { name, .. } => Some(
                cat3("snapshot \"", name.as_str(), "\" restored"),
            ),
            SnapshotCmd::Delete { name, .. } => Some(
                cat3("snapshot \"", name.as_str(), "\" deleted"),
            ),
            SnapshotCmd::List { .. } => None,
        },
        _ => None,
    }
}

/// What is said when the lab's daemon does not run and is not started.
pub fn absent_message(c: &Command, lab: &str) -> (r: String)
    ensures
        r@ == (if c is Status {
            "lab \""@ + lab@ + "\": not running"@
        } else {
            "lab \""@ + lab@ + "\" is not running"@
        }),
{
    match c {
        Command::Status => cat3("lab \"", lab, "\": not running"),
        _ => cat3("lab \"", lab, "\" is not running"),
    }
}

// -- laws -----------------------------------------------------------------------------------

/// A reference that names a lab and a guest is read as these, whatever slashes
/// the guest's name holds.
pub proof fn full_reference_is_split(lab: Seq<char>, vm: Seq<char>)
    requires
        lab.len() > 0,
        vm.len() > 0,
        !lab.contains('/'),
    ensures
        vm_ref_of(lab + "/"@ + vm) == Ok::<(Option<Seq<char>>, Seq<char>), Seq<char>>(
            (Some(lab), vm),
        ),
{
    reveal_strlit("/");
    let s = lab + "/"@ + vm;
    let n = lab.len() as int;
    assert(s[n] == '/');
    assert forall|j: int| 0 <= j < n implies s[j] != '/' by {
        assert(s[j] == lab[j]);
        assert(lab.contains(lab[j]));
    }
    crate::text::lemma_find_char(s, '/', n);
    assert(s.take(n) =~= lab);
    assert(s.skip(n + 1) =~= vm);
}

/// A guest reference names the lab in front of its first slash; without a slash it
/// names none; with nothing on one side it is none.
pub proof fn reference_is_split_at_the_first_slash(lab: Seq<char>, vm: Seq<char>)
    requires
        !lab.contains('/'),
    ensures
        lab.len() > 0 && vm.len() > 0 ==> vm_ref_of(lab.push('/') + vm) == Ok::<
            (Option<Seq<char>>, Seq<char>),
            Seq<char>,
        >((Some(lab), vm)),
        lab.len() == 0 || vm.len() == 0 ==> vm_ref_of(lab.push('/') + vm) is Err,
        vm_ref_of(lab) == Ok::<(Option<Seq<char>>, Seq<char>), Seq<char>>((None, lab)),
{
    let s = lab.push('/') + vm;
    assert forall|j: int| 0 <= j < lab.len() implies s[j] != '/' by {
        assert(s[j] == lab[j]);
        assert(lab.contains(lab[j]));
    }
    crate::text::lemma_find_char(s, '/', lab.len() as int);
    assert(s.take(lab.len() as int) =~= lab);
    assert(s.skip(lab.len() as int + 1) =~= vm);
    crate::text::lemma_found(lab, '/');
    if let Some(i) = find_char(lab, '/') {
        assert(lab.contains(lab[i]));
    }
}

/// What a verb about one guest asks of its lab.
pub open spec fn guest_verb(c: Command, reference: Seq<char>, vm: Seq<char>, asks: RequestView) -> bool {
    match c {
        Command::Vm { cmd: VmCmd::Start { vm: r } } => r@ == reference && asks
            == RequestView::VmStart { vm },
        Command::Vm { cmd: VmCmd::Stop { vm: r, force } } => r@ == reference && asks == (
        RequestView::VmStop { vm, force }),
        Command::Vm { cmd: VmCmd::Restart { vm: r } } => r@ == reference && asks
            == RequestView::VmRestart { vm },
        Command::Snapshot { cmd: SnapshotCmd::Create { name, vm: Some(r) } } => r@ == reference
            && asks == (RequestView::SnapshotTake { vm: Some(vm), name: name@ }),
        Command::Snapshot { cmd: SnapshotCmd::Restore { name, vm: Some(r) } } => r@ == reference
            && asks == (RequestView::SnapshotRestore { vm: Some(vm), name: name@ }),
        Command::Snapshot { cmd: SnapshotCmd::List { vm: r } } => r@ == reference && asks
            == RequestView::SnapshotList { vm },
        Command::Snapshot { cmd: SnapshotCmd::Delete { vm: r, name } } => r@ == reference && asks
            == (RequestView::SnapshotDelete { vm, name: name@ }),
        Command::Osinfo { vm: r } => r@ == reference && asks == (RequestView::VmOsinfo {
            vm,
            timeout: 30,
        }),
        Command::Exec { vm: r, timeout: t, cmd: words } => r@ == reference && words@.len() > 0 && (
        asks matches RequestView::VmExec { vm: v, cmd, args, timeout } && v == vm && timeout == t
            && cmd == words@[0]@ && args.len() == words@.len() - 1 && forall|i: int|
            0 <= i < args.len() ==> #[trigger] args[i] == words@[i + 1]@),
        _ => false,
    }
}

/// A verb about a guest is asked of the lab that its reference names, which has to
/// run; where it names none, of the lab at hand, which is started. A reference
/// with nothing on one side of its slash is refused.
pub proof fn guest_verbs_go_to_their_lab(
    c: Command,
    lab: Seq<char>,
    vm: Seq<char>,
    asks: RequestView,
)
    requires
        !lab.contains('/'),
    ensures
        lab.len() > 0 && vm.len() > 0 && guest_verb(c, lab.push('/') + vm, vm, asks) ==> plan_for(c)
            == (PlanView::Ask { lab: Some(lab), start: false, request: asks }),
        lab.len() == 0 || vm.len() == 0 ==> guest_verb(c, lab.push('/') + vm, vm, asks) ==> plan_for(
            c,
        ) is Refused,
        guest_verb(c, lab, lab, asks) ==> plan_for(c) == (PlanView::Ask {
            lab: None,
            start: true,
            request: asks,
        }),
{
    reference_is_split_at_the_first_slash(lab, vm);
    if let Command::Exec { vm: r, timeout, cmd } = c {
        if cmd@.len() > 0 {
            let words = cmd.deep_view();
            assert(words.len() == cmd@.len());
            if let RequestView::VmExec { args, .. } = asks {
                if guest_verb(c, lab.push('/') + vm, vm, asks) || guest_verb(c, lab, lab, asks) {
                    assert(args =~= words.skip(1));
                }
            }
        }
    }
}

/// Bringing a lab up and running a script start its daemon; taking it down,
/// destroying it and asking how it is do not. All take their arguments along.
pub proof fn lab_verbs_go_to_the_lab_at_hand(c: Command)
    ensures
        c matches Command::Up { vms } ==> (plan_for(c) matches PlanView::Ask { lab, start, request }
            && lab is None && start && request == (RequestView::Up { vms: vms.deep_view() })),
        c matches Command::Script { script } ==> (plan_for(c) matches PlanView::Ask {
            lab,
            start,
            request,
        } && lab is None && start && request == (RequestView::Run { script: script@ })),
        c matches Command::Down { vms, force } ==> (plan_for(c) matches PlanView::Ask {
            lab,
            start,
            request,
        } && lab is None && !start && request == (RequestView::Down {
            vms: vms.deep_view(),
            force,
        })),
        c is Destroy ==> plan_for(c) == (PlanView::Ask {
            lab: None,
            start: false,
            request: RequestView::Destroy,
        }),
        c is Status ==> plan_for(c) == (PlanView::Ask {
            lab: None,
            start: false,
            request: RequestView::Status,
        }),
        c matches Command::Snapshot { cmd: SnapshotCmd::Create { name, vm: None } } ==> plan_for(c)
            == (PlanView::Ask {
            lab: None,
            start: true,
            request: RequestView::SnapshotTake { vm: None, name: name@ },
        }),
        c matches Command::Snapshot { cmd: SnapshotCmd::Restore { name, vm: None } } ==> plan_for(c)
            == (PlanView::Ask {
            lab: None,
            start: true,
            request: RequestView::SnapshotRestore { vm: None, name: name@ },
        }),
        c matches Command::Exec { cmd, .. } ==> cmd@.len() == 0 ==> plan_for(c) is Refused,
        c is Validate || c is Lab || c is Console || c is Cp || c is Logs || c is Daemon
            ==> plan_for(c) is Local,
{
}

} // verus!
