//! The per-lab daemon: its commands, the network that a lab builds, and the
//! lifecycle of its guests.

use vstd::prelude::*;

use crate::config::model::Handler;
use crate::encode::{base64_bytes, base64_decode};
use crate::json::{flag_at, number_at, text_at, texts_at, Json};
use crate::text::{cat3, cat5, joined, str_eq};

pub mod client;
pub mod firstboot;
pub mod lab;
pub mod network;
pub mod shares;
pub mod state;
pub mod status;
pub mod up;
pub mod vm;

verus! {

/// What a client asks of the lab daemon.
#[allow(inconsistent_fields)]
#[derive(Debug)]
pub enum Request {
    Ping,
    Status,
    Up { vms: Vec<String> },
    Run { script: String },
    Down { vms: Vec<String>, force: bool },
    Destroy,
    VmStart { vm: String },
    VmStop { vm: String, force: bool },
    VmRestart { vm: String },
    /// Run a command through the guest agent, within `timeout` seconds.
    VmExec { vm: String, cmd: String, args: Vec<String>, timeout: u64 },
    VmOsinfo { vm: String, timeout: u64 },
    /// Write (or append to) a guest file.
    VmCopyIn { vm: String, dest: String, bytes: Vec<u8>, append: bool, timeout: u64 },
    VmIp { vm: String, nic: Option<u64> },
    /// `None`: every guest.
    SnapshotTake { vm: Option<String>, name: String },
    SnapshotRestore { vm: Option<String>, name: String },
    SnapshotDelete { vm: String, name: String },
    SnapshotList { vm: String },
    Shutdown,
}

/// The contents of a [`Request`].
#[allow(inconsistent_fields)]
pub ghost enum RequestView {
    Ping,
    Status,
    Up { vms: Seq<Seq<char>> },
    Run { script: Seq<char> },
    Down { vms: Seq<Seq<char>>, force: bool },
    Destroy,
    VmStart { vm: Seq<char> },
    VmStop { vm: Seq<char>, force: bool },
    VmRestart { vm: Seq<char> },
    VmExec { vm: Seq<char>, cmd: Seq<char>, args: Seq<Seq<char>>, timeout: u64 },
    VmOsinfo { vm: Seq<char>, timeout: u64 },
    VmCopyIn { vm: Seq<char>, dest: Seq<char>, bytes: Seq<u8>, append: bool, timeout: u64 },
    VmIp { vm: Seq<char>, nic: Option<u64> },
    SnapshotTake { vm: Option<Seq<char>>, name: Seq<char> },
    SnapshotRestore { vm: Option<Seq<char>>, name: Seq<char> },
    SnapshotDelete { vm: Seq<char>, name: Seq<char> },
    SnapshotList { vm: Seq<char> },
    Shutdown,
}

impl DeepView for Request {
    type V = RequestView;

    open spec fn deep_view(&self) -> RequestView {
        match *self {
            Request::Ping => RequestView::Ping,
            Request::Status => RequestView::Status,
            Request::Up { vms } => RequestView::Up { vms: vms.deep_view() },
            Request::Run { script } => RequestView::Run { script: script@ },
            Request::Down { vms, force } => RequestView::Down { vms: vms.deep_view(), force },
            Request::Destroy => RequestView::Destroy,
            Request::VmStart { vm } => RequestView::VmStart { vm: vm@ },
            Request::VmStop { vm, force } => RequestView::VmStop { vm: vm@, force },
            Request::VmRestart { vm } => RequestView::VmRestart { vm: vm@ },
            Request::VmExec { vm, cmd, args, timeout } => RequestView::VmExec {
                vm: vm@,
                cmd: cmd@,
                args: args.deep_view(),
                timeout,
            },
            Request::VmOsinfo { vm, timeout } => RequestView::VmOsinfo { vm: vm@, timeout },
            Request::VmCopyIn { vm, dest, bytes, append, timeout } => RequestView::VmCopyIn {
                vm: vm@,
                dest: dest@,
                bytes: bytes@,
                append,
                timeout,
            },
            Request::VmIp { vm, nic } => RequestView::VmIp { vm: vm@, nic },
            Request::SnapshotTake { vm, name } => RequestView::SnapshotTake {
                vm: vm.deep_view(),
                name: name@,
            },
            Request::SnapshotRestore { vm, name } => RequestView::SnapshotRestore {
                vm: vm.deep_view(),
                name: name@,
            },
            Request::SnapshotDelete { vm, name } => RequestView::SnapshotDelete {
                vm: vm@,
                name: name@,
            },
            Request::SnapshotList { vm } => RequestView::SnapshotList { vm: vm@ },
            Request::Shutdown => RequestView::Shutdown,
        }
    }
}

/// The number under a key, or `default` where there is none.
pub open spec fn number_or(args: Json, key: Seq<char>, default: u64) -> u64 {
    match number_at(args, key) {
        Some(n) => n,
        None => default,
    }
}

/// A request to a guest: its name comes first.
pub open spec fn with_vm(
    args: Json,
    f: spec_fn(Seq<char>) -> Result<RequestView, Seq<char>>,
) -> Result<RequestView, Seq<char>> {
    match text_at(args, "vm"@) {
        Some(vm) => f(vm),
        None => Err("missing vm"@),
    }
}

/// The request to run a command in a guest.
pub open spec fn exec_request(args: Json, vm: Seq<char>) -> Result<RequestView, Seq<char>> {
    match text_at(args, "cmd"@) {
        Some(cmd) => Ok(
            RequestView::VmExec {
                vm,
                cmd,
                args: texts_at(args, "args"@),
                timeout: number_or(args, "timeout"@, 120),
            },
        ),
        None => Err("missing cmd"@),
    }
}

/// The request to write a guest file, when `decoded` is what its data decodes
/// to.
pub open spec fn copy_request(
    args: Json,
    vm: Seq<char>,
    dest: Seq<char>,
    decoded: Result<Seq<u8>, Seq<char>>,
) -> Result<RequestView, Seq<char>> {
    match decoded {
        Ok(bytes) => Ok(
            RequestView::VmCopyIn {
                vm,
                dest,
                bytes,
                append: flag_at(args, "append"@),
                timeout: number_or(args, "timeout"@, 120),
            },
        ),
        Err(e) => Err("invalid base64 data: "@ + e),
    }
}

/// The request to write a guest file.
pub open spec fn copy_in_request(args: Json, vm: Seq<char>) -> Result<RequestView, Seq<char>> {
    match (text_at(args, "dest"@), text_at(args, "data"@)) {
        (None, _) => Err("missing dest"@),
        (_, None) => Err("missing data"@),
        (Some(dest), Some(data)) => copy_request(args, vm, dest, base64_bytes(data)),
    }
}

/// The request that a command with these arguments makes, or what is wrong
/// with it.
pub open spec fn request_of(cmd: Seq<char>, args: Json) -> Result<RequestView, Seq<char>> {
    let force = flag_at(args, "force"@);
    let name = text_at(args, "name"@);
    let vm = text_at(args, "vm"@);
    if cmd == "ping"@ {
        Ok(RequestView::Ping)
    } else if cmd == "status"@ {
        Ok(RequestView::Status)
    } else if cmd == "up"@ {
        Ok(RequestView::Up { vms: texts_at(args, "vms"@) })
    } else if cmd == "run"@ {
        match text_at(args, "script"@) {
            Some(script) => Ok(RequestView::Run { script }),
            None => Err("missing script"@),
        }
    } else if cmd == "down"@ {
        Ok(RequestView::Down { vms: texts_at(args, "vms"@), force })
    } else if cmd == "destroy"@ {
        Ok(RequestView::Destroy)
    } else if cmd == "vm.start"@ {
        with_vm(args, |v: Seq<char>| Ok(RequestView::VmStart { vm: v }))
    } else if cmd == "vm.stop"@ {
        with_vm(args, |v: Seq<char>| Ok(RequestView::VmStop { vm: v, force }))
    } else if cmd == "vm.restart"@ {
        with_vm(args, |v: Seq<char>| Ok(RequestView::VmRestart { vm: v }))
    } else if cmd == "vm.exec"@ {
        with_vm(args, |v: Seq<char>| exec_request(args, v))
    } else if cmd == "vm.osinfo"@ {
        with_vm(
            args,
            |v: Seq<char>|
                Ok(RequestView::VmOsinfo { vm: v, timeout: number_or(args, "timeout"@, 30) }),
        )
    } else if cmd == "vm.copy_in"@ {
        with_vm(args, |v: Seq<char>| copy_in_request(args, v))
    } else if cmd == "vm.ip"@ {
        with_vm(
            args,
            |v: Seq<char>| Ok(RequestView::VmIp { vm: v, nic: number_at(args, "nic"@) }),
        )
    } else if cmd == "snapshot.take"@ {
        match name {
            Some(name) => Ok(RequestView::SnapshotTake { vm, name }),
            None => Err("missing name"@),
        }
    } else if cmd == "snapshot.restore"@ {
        match name {
            Some(name) => Ok(RequestView::SnapshotRestore { vm, name }),
            None => Err("missing name"@),
        }
    } else if cmd == "snapshot.delete"@ {
        match name {
            Some(name) => with_vm(
                args,
                |v: Seq<char>| Ok(RequestView::SnapshotDelete { vm: v, name }),
            ),
            None => Err("missing name"@),
        }
    } else if cmd == "snapshot.list"@ {
        with_vm(args, |v: Seq<char>| Ok(RequestView::SnapshotList { vm: v }))
    } else if cmd == "shutdown"@ {
        Ok(RequestView::Shutdown)
    } else {
        Err("unknown command `"@ + cmd + "`"@)
    }
}

/// Whether an executable result is this one.
pub open spec fn is_request(
    r: Result<Request, String>,
    want: Result<RequestView, Seq<char>>,
) -> bool {
    match r {
        Ok(q) => want == Ok::<RequestView, Seq<char>>(q.deep_view()),
        Err(e) => want == Err::<RequestView, Seq<char>>(e@),
    }
}

fn vm_arg(args: &Json) -> (r: Result<String, String>)
    ensures
        match r {
            Ok(vm) => text_at(*args, "vm"@) == Some(vm@),
            Err(e) => text_at(*args, "vm"@) is None && e@ == "missing vm"@,
        },
{
    match args.text("vm") {
        Some(vm) => Ok(vm),
        None => Err("missing vm".to_owned()),
    }
}

fn timeout_arg(args: &Json, default: u64) -> (r: u64)
    ensures
        r == number_or(*args, "timeout"@, default),
{
    match args.number("timeout") {
        Some(n) => n,
        None => default,
    }
}

/// The request to write a guest file, when `decoded` is what its data decodes
/// to.
pub fn decoded_copy(
    args: &Json,
    vm: String,
    dest: String,
    decoded: Result<Vec<u8>, String>,
) -> (r: Result<Request, String>)
    ensures
        is_request(
            r,
            copy_request(
                *args,
                vm@,
                dest@,
                match decoded {
                    Ok(v) => Ok(v@),
                    Err(e) => Err(e@),
                },
            ),
        ),
{
    match decoded {
        Ok(bytes) => Ok(
            Request::VmCopyIn {
                vm,
                dest,
                bytes,
                append: args.flag("append"),
                timeout: timeout_arg(args, 120),
            },
        ),
        Err(e) => Err(joined("invalid base64 data: ", e.as_str())),
    }
}

fn decode_copy(args: &Json, vm: String) -> (r: Result<Request, String>)
    ensures
        is_request(r, copy_in_request(*args, vm@)),
{
    let dest = match args.text("dest") {
        Some(s) => s,
        None => return Err("missing dest".to_owned()),
    };
    let data = match args.text("data") {
        Some(s) => s,
        None => return Err("missing data".to_owned()),
    };
    let decoded = base64_decode(data.as_str());
    decoded_copy(args, vm, dest, decoded)
}

fn decode_exec(args: &Json, vm: String) -> (r: Result<Request, String>)
    ensures
        is_request(r, exec_request(*args, vm@)),
{
    match args.text("cmd") {
        Some(cmd) => Ok(
            Request::VmExec { vm, cmd, args: args.texts("args"), timeout: timeout_arg(args, 120) },
        ),
        None => Err("missing cmd".to_owned()),
    }
}

fn decode_snapshot(cmd: &str, args: &Json) -> (r: Result<Request, String>)
    requires
        cmd@ == "snapshot.take"@ || cmd@ == "snapshot.restore"@ || cmd@ == "snapshot.delete"@,
    ensures
        is_request(
            r,
            match text_at(*args, "name"@) {
                None => Err("missing name"@),
                Some(name) => if cmd@ == "snapshot.take"@ {
                    Ok(RequestView::SnapshotTake { vm: text_at(*args, "vm"@), name })
                } else if cmd@ == "snapshot.restore"@ {
                    Ok(RequestView::SnapshotRestore { vm: text_at(*args, "vm"@), name })
                } else {
                    match text_at(*args, "vm"@) {
                        Some(vm) => Ok(RequestView::SnapshotDelete { vm, name }),
                        None => Err("missing vm"@),
                    }
                },
            },
        ),
{
    let name = match args.text("name") {
        Some(s) => s,
        None => return Err("missing name".to_owned()),
    };
    if str_eq(cmd, "snapshot.take") {
        Ok(Request::SnapshotTake { vm: args.text("vm"), name })
    } else if str_eq(cmd, "snapshot.restore") {
        Ok(Request::SnapshotRestore { vm: args.text("vm"), name })
    } else {
        match vm_arg(args) {
            Ok(vm) => Ok(Request::SnapshotDelete { vm, name }),
            Err(e) => Err(e),
        }
    }
}

/// What a guest command asks of a guest.
spec fn vm_request(cmd: Seq<char>, args: Json, vm: Seq<char>) -> Result<RequestView, Seq<char>> {
    if cmd == "vm.start"@ {
        Ok(RequestView::VmStart { vm })
    } else if cmd == "vm.stop"@ {
        Ok(RequestView::VmStop { vm, force: flag_at(args, "force"@) })
    } else if cmd == "vm.restart"@ {
        Ok(RequestView::VmRestart { vm })
    } else if cmd == "vm.exec"@ {
        exec_request(args, vm)
    } else if cmd == "vm.osinfo"@ {
        Ok(RequestView::VmOsinfo { vm, timeout: number_or(args, "timeout"@, 30) })
    } else if cmd == "vm.copy_in"@ {
        copy_in_request(args, vm)
    } else if cmd == "vm.ip"@ {
        Ok(RequestView::VmIp { vm, nic: number_at(args, "nic"@) })
    } else {
        Ok(RequestView::SnapshotList { vm })
    }
}

fn decode_vm(cmd: &str, args: &Json) -> (r: Result<Request, String>)
    ensures
        is_request(
            r,
            match text_at(*args, "vm"@) {
                Some(vm) => vm_request(cmd@, *args, vm),
                None => Err("missing vm"@),
            },
        ),
{
    let vm = match vm_arg(args) {
        Ok(vm) => vm,
        Err(e) => return Err(e),
    };
    if str_eq(cmd, "vm.start") {
        Ok(Request::VmStart { vm })
    } else if str_eq(cmd, "vm.stop") {
        Ok(Request::VmStop { vm, force: args.flag("force") })
    } else if str_eq(cmd, "vm.restart") {
        Ok(Request::VmRestart { vm })
    } else if str_eq(cmd, "vm.exec") {
        decode_exec(args, vm)
    } else if str_eq(cmd, "vm.osinfo") {
        Ok(Request::VmOsinfo { vm, timeout: timeout_arg(args, 30) })
    } else if str_eq(cmd, "vm.copy_in") {
        decode_copy(args, vm)
    } else if str_eq(cmd, "vm.ip") {
        Ok(Request::VmIp { vm, nic: args.number("nic") })
    } else {
        Ok(Request::SnapshotList { vm })
    }
}

/// Decode a command of the lab daemon.
#[verifier::rlimit(60)]
pub fn decode_request(cmd: &str, args: &Json) -> (r: Result<Request, String>)
    ensures
        is_request(r, request_of(cmd@, *args)),
{
    if str_eq(cmd, "ping") {
        Ok(Request::Ping)
    } else if str_eq(cmd, "status") {
        Ok(Request::Status)
    } else if str_eq(cmd, "up") {
        Ok(Request::Up { vms: args.texts("vms") })
    } else if str_eq(cmd, "run") {
        match args.text("script") {
            Some(script) => Ok(Request::Run { script }),
            None => Err("missing script".to_owned()),
        }
    } else if str_eq(cmd, "down") {
        Ok(Request::Down { vms: args.texts("vms"), force: args.flag("force") })
    } else if str_eq(cmd, "destroy") {
        Ok(Request::Destroy)
    } else if str_eq(cmd, "vm.start") || str_eq(cmd, "vm.stop") || str_eq(cmd, "vm.restart")
        || str_eq(cmd, "vm.exec") || str_eq(cmd, "vm.osinfo") || str_eq(cmd, "vm.copy_in")
        || str_eq(cmd, "vm.ip") {
        decode_vm(cmd, args)
    } else if str_eq(cmd, "snapshot.take") || str_eq(cmd, "snapshot.restore") || str_eq(
        cmd,
        "snapshot.delete",
    ) {
        decode_snapshot(cmd, args)
    } else if str_eq(cmd, "snapshot.list") {
        match vm_arg(args) {
            Ok(vm) => Ok(Request::SnapshotList { vm }),
            Err(e) => Err(e),
        }
    } else if str_eq(cmd, "shutdown") {
        Ok(Request::Shutdown)
    } else {
        Err(cat3("unknown command `", cmd, "`"))
    }
}

/// What is said of a lab file that defines another lab.
pub fn check_lab_name(root: &str, defined: &str, wanted: &str) -> (r: Result<(), String>)
    ensures
        r is Ok <==> defined@ == wanted@,
        r matches Err(e) ==> e@ == "lab file at "@ + root@ + " defines \""@ + defined@
            + "\", not \""@ + wanted@ + "\""@,
{
    if str_eq(defined, wanted) {
        Ok(())
    } else {
        let m = cat5("lab file at ", root, " defines \"", defined, "\", not \"");
        Err(cat3(m.as_str(), wanted, "\""))
    }
}

/// The scripts that an event starts, in declaration order.
pub open spec fn scripts_for(handlers: Seq<Handler>, event: Seq<char>) -> Seq<Seq<char>>
    decreases handlers.len(),
{
    if handlers.len() == 0 {
        Seq::empty()
    } else {
        let front = scripts_for(handlers.drop_last(), event);
        if handlers.last().event@ == event {
            front.push(handlers.last().run@)
        } else {
            front
        }
    }
}

/// The scripts that an event starts, in declaration order.
pub fn handler_scripts(handlers: &Vec<Handler>, event: &str) -> (r: Vec<String>)
    ensures
        r.deep_view() == scripts_for(handlers@, event@),
{
    let mut out: Vec<String> = Vec::new();
    assert(out.deep_view() =~= Seq::empty());
    let mut i: usize = 0;
    assert(handlers@.take(0) =~= Seq::empty());
    while i < handlers.len()
        invariant
            i <= handlers@.len(),
            out.deep_view() == scripts_for(handlers@.take(i as int), event@),
        decreases handlers@.len() - i,
    {
        proof {
            let t = handlers@.take(i as int + 1);
            assert(t.drop_last() =~= handlers@.take(i as int));
            assert(t.last() == handlers@[i as int]);
        }
        if str_eq(handlers[i].event.as_str(), event) {
            let ghost was = out.deep_view();
            out.push(handlers[i].run.clone());
            assert(out.deep_view() =~= was.push(handlers@[i as int].run@));
        }
        i = i + 1;
    }
    assert(handlers@.take(i as int) =~= handlers@);
    out
}

// -- laws ------------------------------------------------------------------------------------

/// A command to a guest is refused without the guest's name, and is otherwise a
/// request to just that guest; running a command also takes the command, and
/// writing a file a place and data that decode.
pub proof fn guest_requests_name_the_guest(args: Json)
    ensures
        ({
            let vm = text_at(args, "vm"@);
            &&& vm is None ==> forall|cmd: Seq<char>|
                cmd == "vm.start"@ || cmd == "vm.stop"@ || cmd == "vm.restart"@ || cmd
                    == "vm.exec"@ || cmd == "vm.osinfo"@ || cmd == "vm.copy_in"@ || cmd == "vm.ip"@
                    || cmd == "snapshot.list"@ ==> #[trigger] request_of(cmd, args) == Err::<
                    RequestView,
                    Seq<char>,
                >("missing vm"@)
            &&& vm matches Some(vm) ==> {
                &&& request_of("vm.start"@, args) matches Ok(RequestView::VmStart { vm: v }) && v
                    == vm
                &&& request_of("vm.stop"@, args) matches Ok(RequestView::VmStop { vm: v, force })
                    && v == vm && force == flag_at(args, "force"@)
                &&& request_of("vm.restart"@, args) matches Ok(RequestView::VmRestart { vm: v })
                    && v == vm
                &&& request_of("vm.osinfo"@, args) matches Ok(
                    RequestView::VmOsinfo { vm: v, timeout },
                ) && v == vm && (number_at(args, "timeout"@) is None ==> timeout == 30) && (
                number_at(args, "timeout"@) matches Some(n) ==> timeout == n)
                &&& request_of("vm.ip"@, args) matches Ok(RequestView::VmIp { vm: v, nic }) && v
                    == vm && nic == number_at(args, "nic"@)
                &&& request_of("snapshot.list"@, args) matches Ok(
                    RequestView::SnapshotList { vm: v },
                ) && v == vm
                &&& request_of("vm.exec"@, args) is Ok <==> text_at(args, "cmd"@) is Some
                &&& request_of("vm.exec"@, args) matches Ok(q) ==> (q matches RequestView::VmExec {
                    vm: v,
                    cmd,
                    args: a,
                    timeout,
                } && v == vm && text_at(args, "cmd"@) == Some(cmd) && a == texts_at(
                    args,
                    "args"@,
                ) && (number_at(args, "timeout"@) is None ==> timeout == 120) && (number_at(
                    args,
                    "timeout"@,
                ) matches Some(n) ==> timeout == n))
                &&& request_of("vm.copy_in"@, args) is Ok <==> text_at(args, "dest"@) is Some
                    && text_at(args, "data"@) is Some && base64_bytes(
                    text_at(args, "data"@)->0,
                ) is Ok
                &&& request_of("vm.copy_in"@, args) matches Ok(q) ==> (
                q matches RequestView::VmCopyIn { vm: v, dest, bytes, append, timeout } && v == vm
                    && text_at(args, "dest"@) == Some(dest) && base64_bytes(
                    text_at(args, "data"@)->0,
                ) == Ok::<Seq<u8>, Seq<char>>(bytes) && append == flag_at(args, "append"@) && (
                number_at(args, "timeout"@) is None ==> timeout == 120))
            }
        }),
{
    client::lemma_commands();
}

/// A command to the lab carries what it was given: the guests and the force of
/// `up` and `down`, the script to run, the name of a snapshot and the guest, if
/// any, that it is of. A snapshot has to have a name, and a deleted one a guest.
pub proof fn lab_requests_carry_their_arguments(args: Json)
    ensures
        request_of("ping"@, args) matches Ok(RequestView::Ping),
        request_of("status"@, args) matches Ok(RequestView::Status),
        request_of("destroy"@, args) matches Ok(RequestView::Destroy),
        request_of("shutdown"@, args) matches Ok(RequestView::Shutdown),
        request_of("up"@, args) matches Ok(RequestView::Up { vms }) && vms == texts_at(
            args,
            "vms"@,
        ),
        request_of("down"@, args) matches Ok(RequestView::Down { vms, force }) && vms == texts_at(
            args,
            "vms"@,
        ) && force == flag_at(args, "force"@),
        request_of("run"@, args) is Ok <==> text_at(args, "script"@) is Some,
        text_at(args, "script"@) matches Some(s) ==> (request_of("run"@, args) matches Ok(
            RequestView::Run { script },
        ) && script == s),
        text_at(args, "name"@) is None ==> request_of("snapshot.take"@, args) is Err && request_of(
            "snapshot.restore"@,
            args,
        ) is Err && request_of("snapshot.delete"@, args) is Err,
        text_at(args, "name"@) matches Some(n) ==> (request_of("snapshot.take"@, args) matches Ok(
            RequestView::SnapshotTake { vm, name },
        ) && name == n && vm == text_at(args, "vm"@)) && (request_of(
            "snapshot.restore"@,
            args,
        ) matches Ok(RequestView::SnapshotRestore { vm, name }) && name == n && vm == text_at(
            args,
            "vm"@,
        )) && (request_of("snapshot.delete"@, args) is Ok <==> text_at(args, "vm"@) is Some),
        text_at(args, "name"@) is Some && text_at(args, "vm"@) is Some ==> (request_of(
            "snapshot.delete"@,
            args,
        ) matches Ok(RequestView::SnapshotDelete { vm, name }) && Some(vm) == text_at(args, "vm"@)
            && Some(name) == text_at(args, "name"@)),
{
    client::lemma_commands();
}

/// An event starts exactly the scripts whose handlers are for it, as often and
/// in the order in which they are declared.
pub proof fn events_start_their_handlers(handlers: Seq<Handler>, event: Seq<char>, more: Handler)
    ensures
        scripts_for(Seq::<Handler>::empty(), event).len() == 0,
        more.event@ == event ==> scripts_for(handlers.push(more), event) == scripts_for(
            handlers,
            event,
        ).push(more.run@),
        more.event@ != event ==> scripts_for(handlers.push(more), event) == scripts_for(
            handlers,
            event,
        ),
{
    assert(handlers.push(more).drop_last() =~= handlers);
}

} // verus!
