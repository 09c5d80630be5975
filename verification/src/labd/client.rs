//! Commands of the lab daemon, as a client sends them.

use vstd::prelude::*;

use crate::encode::{base64_encode, base64_len};
use crate::json::{find_key, flag_at, member, number_at, text_at, texts_at, texts_of, Json};
use crate::labd::{request_of, Request, RequestView};

verus! {

/// A command with its arguments.
#[derive(Debug)]
pub struct Call {
    pub cmd: String,
    pub args: Json,
}

/// Whether a command is understood as this request.
pub open spec fn asks(c: Call, q: RequestView) -> bool {
    request_of(c.cmd@, c.args) == Ok::<RequestView, Seq<char>>(q)
}

pub(crate) proof fn lemma_commands()
    ensures
        "ping"@.len() == 4 && "ping"@[0] == 'p',
        "status"@.len() == 6,
        "up"@.len() == 2,
        "run"@.len() == 3,
        "down"@.len() == 4 && "down"@[0] == 'd',
        "destroy"@.len() == 7 && "destroy"@[0] == 'd',
        "vm.start"@.len() == 8 && "vm.start"@[0] == 'v',
        "vm.stop"@.len() == 7 && "vm.stop"@[0] == 'v' && "vm.stop"@[3] == 's',
        "vm.restart"@.len() == 10 && "vm.restart"@[3] == 'r',
        "vm.exec"@.len() == 7 && "vm.exec"@[0] == 'v' && "vm.exec"@[3] == 'e',
        "vm.osinfo"@.len() == 9,
        "vm.copy_in"@.len() == 10 && "vm.copy_in"@[3] == 'c',
        "vm.ip"@.len() == 5,
        "snapshot.take"@.len() == 13 && "snapshot.take"@[9] == 't',
        "snapshot.restore"@.len() == 16,
        "snapshot.delete"@.len() == 15,
        "snapshot.list"@.len() == 13 && "snapshot.list"@[9] == 'l',
        "shutdown"@.len() == 8 && "shutdown"@[0] == 's',
{
    reveal_strlit("ping");
    reveal_strlit("status");
    reveal_strlit("up");
    reveal_strlit("run");
    reveal_strlit("down");
    reveal_strlit("destroy");
    reveal_strlit("vm.start");
    reveal_strlit("vm.stop");
    reveal_strlit("vm.restart");
    reveal_strlit("vm.exec");
    reveal_strlit("vm.osinfo");
    reveal_strlit("vm.copy_in");
    reveal_strlit("vm.ip");
    reveal_strlit("snapshot.take");
    reveal_strlit("snapshot.restore");
    reveal_strlit("snapshot.delete");
    reveal_strlit("snapshot.list");
    reveal_strlit("shutdown");
}

proof fn lemma_keys()
    ensures
        "vm"@.len() == 2,
        "vms"@.len() == 3 && "vms"@[0] == 'v',
        "nic"@.len() == 3 && "nic"@[0] == 'n',
        "cmd"@.len() == 3 && "cmd"@[0] == 'c',
        "args"@.len() == 4 && "args"@[0] == 'a',
        "dest"@.len() == 4 && "dest"@[1] == 'e',
        "data"@.len() == 4 && "data"@[0] == 'd' && "data"@[1] == 'a',
        "name"@.len() == 4 && "name"@[0] == 'n',
        "force"@.len() == 5,
        "script"@.len() == 6 && "script"@[0] == 's',
        "append"@.len() == 6 && "append"@[0] == 'a',
        "timeout"@.len() == 7,
{
    reveal_strlit("vm");
    reveal_strlit("vms");
    reveal_strlit("nic");
    reveal_strlit("cmd");
    reveal_strlit("args");
    reveal_strlit("dest");
    reveal_strlit("data");
    reveal_strlit("name");
    reveal_strlit("force");
    reveal_strlit("script");
    reveal_strlit("append");
    reveal_strlit("timeout");
}

fn text_pair(key: &str, value: &str) -> (r: (String, Json))
    ensures
        r.0@ == key@,
        r.1 matches Json::Text(s) && s@ == value@,
{
    (key.to_owned(), Json::Text(value.to_owned()))
}

fn list_pair(key: &str, values: &Vec<String>) -> (r: (String, Json))
    ensures
        r.0@ == key@,
        r.1 matches Json::List(items) && texts_of(items@) == values.deep_view(),
{
    let ghost all = values.deep_view();
    let mut items: Vec<Json> = Vec::new();
    let mut i: usize = 0;
    assert(all.take(0) =~= Seq::empty());
    while i < values.len()
        invariant
            i <= values@.len(),
            all == values.deep_view(),
            all.len() == values@.len(),
            texts_of(items@) == all.take(i as int),
        decreases values@.len() - i,
    {
        let ghost had = items@;
        items.push(Json::Text(values[i].clone()));
        assert(items@.drop_last() =~= had);
        assert(all.take(i as int).push(all[i as int]) =~= all.take(i + 1));
        i = i + 1;
    }
    assert(all.take(i as int) =~= all);
    (key.to_owned(), Json::List(items))
}

/// A command without arguments.
fn bare(cmd: &str) -> (r: Call)
    ensures
        r.cmd@ == cmd@,
        r.args is Null,
{
    Call { cmd: cmd.to_owned(), args: Json::Null }
}

/// A command with one argument.
fn with1(cmd: &str, a: (String, Json)) -> (r: Call)
    ensures
        r.cmd@ == cmd@,
        r.args matches Json::Object(p) && p@ == seq![a],
{
    let mut pairs: Vec<(String, Json)> = Vec::new();
    pairs.push(a);
    Call { cmd: cmd.to_owned(), args: Json::Object(pairs) }
}

/// A command with two arguments.
fn with2(cmd: &str, a: (String, Json), b: (String, Json)) -> (r: Call)
    ensures
        r.cmd@ == cmd@,
        r.args matches Json::Object(p) && p@ == seq![a, b],
{
    let mut pairs: Vec<(String, Json)> = Vec::new();
    pairs.push(a);
    pairs.push(b);
    Call { cmd: cmd.to_owned(), args: Json::Object(pairs) }
}

proof fn lemma_find1(a: (String, Json), key: Seq<char>)
    ensures
        find_key(seq![a], key) == (if a.0@ == key {
            Some(a.1)
        } else {
            None
        }),
{
    let s = seq![a];
    assert(s.skip(1) =~= Seq::empty());
    reveal_with_fuel(find_key, 2);
}

proof fn lemma_find2(a: (String, Json), b: (String, Json), key: Seq<char>)
    ensures
        find_key(seq![a, b], key) == (if a.0@ == key {
            Some(a.1)
        } else {
            find_key(seq![b], key)
        }),
        find_key(seq![b], key) == (if b.0@ == key {
            Some(b.1)
        } else {
            None
        }),
{
    let s = seq![a, b];
    assert(s.skip(1) =~= seq![b]);
    lemma_find1(b, key);
}

fn encode_vm(cmd: &str, vm: &str, more: Option<(String, Json)>) -> (r: Call)
    ensures
        r.cmd@ == cmd@,
        r.args is Object,
        forall|key: Seq<char>| #[trigger]
            member(r.args, key) == (if key == "vm"@ {
                member(r.args, "vm"@)
            } else {
                match more {
                    Some(m) => if m.0@ == key {
                        Some(m.1)
                    } else {
                        None
                    },
                    None => None,
                }
            }),
        text_at(r.args, "vm"@) == Some(vm@),
{
    let a = text_pair("vm", vm);
    match more {
        None => {
            let r = with1(cmd, a);
            proof {
                let p = r.args->Object_0@;
                assert forall|key: Seq<char>| true implies #[trigger] find_key(p, key) == (if a.0@
                    == key {
                    Some(a.1)
                } else {
                    None
                }) by {
                    lemma_find1(a, key);
                }
            }
            r
        },
        Some(m) => {
            let r = with2(cmd, a, m);
            proof {
                let p = r.args->Object_0@;
                assert forall|key: Seq<char>| true implies #[trigger] find_key(p, key) == (if a.0@
                    == key {
                    Some(a.1)
                } else if m.0@ == key {
                    Some(m.1)
                } else {
                    None
                }) by {
                    lemma_find2(a, m, key);
                }
            }
            r
        },
    }
}

fn encode_named(cmd: &str, vm: &Option<String>, name: &str) -> (r: Call)
    ensures
        r.cmd@ == cmd@,
        text_at(r.args, "vm"@) == vm.deep_view(),
        text_at(r.args, "name"@) == Some(name@),
{
    let a = text_pair("name", name);
    proof {
        lemma_keys();
        lemma_find1(a, "vm"@);
        lemma_find1(a, "name"@);
    }
    match vm {
        None => with1(cmd, a),
        Some(v) => {
            let b = text_pair("vm", v.as_str());
            proof {
                lemma_find2(a, b, "vm"@);
                lemma_find2(a, b, "name"@);
            }
            with2(cmd, a, b)
        },
    }
}

fn encode_vms(cmd: &str, vms: &Vec<String>, force: bool) -> (r: Call)
    ensures
        r.cmd@ == cmd@,
        texts_at(r.args, "vms"@) == vms.deep_view(),
        flag_at(r.args, "force"@) == force,
{
    let a = list_pair("vms", vms);
    let b = ("force".to_owned(), Json::Bool(force));
    proof {
        lemma_keys();
        lemma_find2(a, b, "vms"@);
        lemma_find2(a, b, "force"@);
    }
    with2(cmd, a, b)
}

fn encode_exec(vm: &str, cmd: &str, args: &Vec<String>, timeout: u64) -> (r: Call)
    ensures
        asks(
            r,
            RequestView::VmExec { vm: vm@, cmd: cmd@, args: args.deep_view(), timeout },
        ),
{
    let mut pairs: Vec<(String, Json)> = Vec::new();
    pairs.push(text_pair("vm", vm));
    pairs.push(text_pair("cmd", cmd));
    pairs.push(list_pair("args", args));
    pairs.push(("timeout".to_owned(), Json::Unsigned(timeout)));
    let r = Call { cmd: "vm.exec".to_owned(), args: Json::Object(pairs) };
    proof {
        lemma_commands();
        lemma_keys();
        let p = pairs@;
        assert(p.skip(1)[0] == p[1]);
        assert(p.skip(1).skip(1)[0] == p[2]);
        assert(p.skip(1).skip(1).skip(1)[0] == p[3]);
        reveal_with_fuel(find_key, 5);
        assert(text_at(r.args, "vm"@) == Some(vm@));
        assert(text_at(r.args, "cmd"@) == Some(cmd@));
        assert(texts_at(r.args, "args"@) == args.deep_view());
        assert(number_at(r.args, "timeout"@) == Some(timeout));
    }
    r
}

fn encode_copy(vm: &str, dest: &str, bytes: &Vec<u8>, append: bool, timeout: u64) -> (r: Call)
    requires
        base64_len(bytes@.len() as int) <= isize::MAX,
    ensures
        asks(
            r,
            RequestView::VmCopyIn { vm: vm@, dest: dest@, bytes: bytes@, append, timeout },
        ),
{
    let data = base64_encode(bytes.as_slice());
    let mut pairs: Vec<(String, Json)> = Vec::new();
    pairs.push(text_pair("vm", vm));
    pairs.push(text_pair("dest", dest));
    pairs.push(text_pair("data", data.as_str()));
    pairs.push(("append".to_owned(), Json::Bool(append)));
    pairs.push(("timeout".to_owned(), Json::Unsigned(timeout)));
    let r = Call { cmd: "vm.copy_in".to_owned(), args: Json::Object(pairs) };
    proof {
        lemma_commands();
        lemma_keys();
        let p = pairs@;
        assert(p.skip(1)[0] == p[1]);
        assert(p.skip(1).skip(1)[0] == p[2]);
        assert(p.skip(1).skip(1).skip(1)[0] == p[3]);
        assert(p.skip(1).skip(1).skip(1).skip(1)[0] == p[4]);
        reveal_with_fuel(find_key, 6);
        assert(text_at(r.args, "vm"@) == Some(vm@));
        assert(text_at(r.args, "dest"@) == Some(dest@));
        assert(text_at(r.args, "data"@) == Some(data@));
        assert(flag_at(r.args, "append"@) == append);
        assert(number_at(r.args, "timeout"@) == Some(timeout));
    }
    r
}

/// Encode a request: the daemon makes the same request of it again.
#[verifier::rlimit(60)]
pub fn encode_request(q: &Request) -> (r: Call)
    requires
        q matches Request::VmCopyIn { bytes, .. } ==> base64_len(bytes@.len() as int) <= isize::MAX,
    ensures
        asks(r, q.deep_view()),
{
    proof {
        lemma_commands();
        lemma_keys();
    }
    match q {
        Request::Ping => bare("ping"),
        Request::Status => bare("status"),
        Request::Up { vms } => encode_vms("up", vms, false),
        Request::Run { script } => {
            let a = text_pair("script", script.as_str());
            proof {
                lemma_find1(a, "script"@);
            }
            with1("run", a)
        },
        Request::Down { vms, force } => encode_vms("down", vms, *force),
        Request::Destroy => bare("destroy"),
        Request::VmStart { vm } => encode_vm("vm.start", vm.as_str(), None),
        Request::VmStop { vm, force } => {
            let r = encode_vm(
                "vm.stop",
                vm.as_str(),
                Some(("force".to_owned(), Json::Bool(*force))),
            );
            assert(flag_at(r.args, "force"@) == *force);
            r
        },
        Request::VmRestart { vm } => encode_vm("vm.restart", vm.as_str(), None),
        Request::VmExec { vm, cmd, args, timeout } => encode_exec(
            vm.as_str(),
            cmd.as_str(),
            args,
            *timeout,
        ),
        Request::VmOsinfo { vm, timeout } => {
            let r = encode_vm(
                "vm.osinfo",
                vm.as_str(),
                Some(("timeout".to_owned(), Json::Unsigned(*timeout))),
            );
            assert(number_at(r.args, "timeout"@) == Some(*timeout));
            r
        },
        Request::VmCopyIn { vm, dest, bytes, append, timeout } => encode_copy(
            vm.as_str(),
            dest.as_str(),
            bytes,
            *append,
            *timeout,
        ),
        Request::VmIp { vm, nic } => {
            let more: Option<(String, Json)> = match nic {
                Some(n) => Some(("nic".to_owned(), Json::Unsigned(*n))),
                None => None,
            };
            let r = encode_vm("vm.ip", vm.as_str(), more);
            assert(number_at(r.args, "nic"@) == *nic);
            r
        },
        Request::SnapshotTake { vm, name } => encode_named("snapshot.take", vm, name.as_str()),
        Request::SnapshotRestore { vm, name } => encode_named(
            "snapshot.restore",
            vm,
            name.as_str(),
        ),
        Request::SnapshotDelete { vm, name } => {
            let v: Option<String> = Some(vm.clone());
            encode_named("snapshot.delete", &v, name.as_str())
        },
        Request::SnapshotList { vm } => encode_vm("snapshot.list", vm.as_str(), None),
        Request::Shutdown => bare("shutdown"),
    }
}

} // verus!
