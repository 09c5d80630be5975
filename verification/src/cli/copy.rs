//! Copying host files into a guest, through the agent.

use vstd::prelude::*;
use vstd::slice::slice_subrange;

use crate::labd::{Request, RequestView};
use crate::text::{
    cat3, cat7, chars_of, find_char, index_of_char, push_char, signed_decimal, signed_string,
    string_of, trim, trimmed_end, trimmed_start,
};

verus! {

/// Per-message payload of a copy. Modest chunks keep each message small and
/// each agent call inside its timeout.
pub const CP_CHUNK: usize = 0x10_0000;

/// Where a copy goes: the guest's reference and the path in it.
pub open spec fn cp_dest_of(dest: Seq<char>) -> Option<(Seq<char>, Seq<char>)> {
    match find_char(dest, ':') {
        Some(i) => if i > 0 && i + 1 < dest.len() {
            Some((dest.take(i), dest.skip(i + 1)))
        } else {
            None
        },
        None => None,
    }
}

/// Where a copy goes: split on the first colon, since guest paths may hold
/// more.
pub fn cp_dest(dest: &str) -> (r: Result<(String, String), String>)
    ensures
        r is Ok <==> cp_dest_of(dest@) is Some,
        r matches Ok((vm, path)) ==> cp_dest_of(dest@) == Some((vm@, path@)),
        r matches Err(e) ==> e@ == "malformed destination `"@ + dest@
            + "` — usage: vmlab cp <src> <vm>:<path>"@,
{
    let c = chars_of(dest);
    if let Some(i) = index_of_char(c.as_slice(), ':') {
        assert(c.len() == c@.len());
        if i > 0 && i + 1 < c.len() {
            let head = slice_subrange(c.as_slice(), 0, i);
            let tail = slice_subrange(c.as_slice(), i + 1, c.len());
            assert(head@ =~= c@.take(i as int));
            assert(tail@ =~= c@.skip(i + 1));
            return Ok((string_of(head), string_of(tail)));
        }
    }
    Err(cat3("malformed destination `", dest, "` — usage: vmlab cp <src> <vm>:<path>"))
}

/// Whether a character separates the parts of a guest path.
pub open spec fn is_separator(c: char) -> bool {
    c == '/' || c == '\\'
}

/// Where the last part of a guest path begins.
pub open spec fn last_separator(s: Seq<char>) -> Option<int>
    decreases s.len(),
{
    if s.len() == 0 {
        None
    } else if is_separator(s.last()) {
        Some(s.len() - 1)
    } else {
        last_separator(s.drop_last())
    }
}

/// The folder to create before a file is written: none at a root.
pub open spec fn guest_parent_of(path: Seq<char>) -> Option<Seq<char>> {
    match last_separator(path) {
        Some(i) => if i > 0 && path[i - 1] != ':' {
            Some(path.take(i))
        } else {
            None
        },
        None => None,
    }
}

/// The folder to create before a file is written: none at a root.
pub fn guest_parent(path: &str) -> (r: Option<String>)
    ensures
        r.deep_view() == guest_parent_of(path@),
{
    let c = chars_of(path);
    assert(c.len() == c@.len());
    let mut n: usize = c.len();
    assert(c@.take(n as int) =~= c@);
    while n > 0 && c[n - 1] != '/' && c[n - 1] != '\\'
        invariant
            n <= c@.len(),
            c.len() == c@.len(),
            last_separator(c@) == last_separator(c@.take(n as int)),
        decreases n,
    {
        assert(c@.take(n as int).drop_last() =~= c@.take(n - 1));
        n = n - 1;
    }
    if n == 0 {
        return None;
    }
    assert(c@.take(n as int).last() == c@[n - 1]);
    let i: usize = n - 1;
    if i > 0 && c[i - 1] != ':' {
        let head = slice_subrange(c.as_slice(), 0, i);
        assert(head@ =~= c@.take(i as int));
        Some(string_of(head))
    } else {
        None
    }
}

/// A guest path with backslashes only.
pub open spec fn backslashed(s: Seq<char>) -> Seq<char> {
    Seq::new(
        s.len(),
        |i: int|
            if s[i] == '/' {
                '\\'
            } else {
                s[i]
            },
    )
}

fn with_backslashes(s: &str) -> (r: String)
    ensures
        r@ == backslashed(s@),
{
    let c = chars_of(s);
    let mut out = String::new();
    let mut i: usize = 0;
    while i < c.len()
        invariant
            i <= c@.len(),
            c@ == s@,
            out@ == backslashed(s@).take(i as int),
        decreases c@.len() - i,
    {
        let x = if c[i] == '/' {
            '\\'
        } else {
            c[i]
        };
        push_char(&mut out, x);
        assert(backslashed(s@).take(i as int).push(x) =~= backslashed(s@).take(i + 1));
        i = i + 1;
    }
    assert(backslashed(s@).take(i as int) =~= backslashed(s@));
    out
}

/// The request that creates a folder (and parents) inside a guest.
pub open spec fn mkdir_of(vm: Seq<char>, dir: Seq<char>, windows: bool) -> RequestView {
    if windows {
        let d = backslashed(dir);
        RequestView::VmExec {
            vm,
            cmd: "cmd.exe"@,
            args: seq!["/C"@, "if"@, "not"@, "exist"@, d + "\\"@, "mkdir"@, d],
            timeout: 120,
        }
    } else {
        RequestView::VmExec { vm, cmd: "mkdir"@, args: seq!["-p"@, dir], timeout: 120 }
    }
}

/// The request that creates a folder (and parents) inside a guest. A Windows
/// guest's `mkdir` fails when the folder exists, and takes backslashes only.
pub fn guest_mkdir(vm: &str, dir: &str, windows: bool) -> (r: Request)
    ensures
        r.deep_view() == mkdir_of(vm@, dir@, windows),
{
    let mut args: Vec<String> = Vec::new();
    if windows {
        let d = with_backslashes(dir);
        args.push("/C".to_owned());
        args.push("if".to_owned());
        args.push("not".to_owned());
        args.push("exist".to_owned());
        args.push(crate::text::joined(d.as_str(), "\\"));
        args.push("mkdir".to_owned());
        let ghost t = d@;
        args.push(d);
        assert(args.deep_view() =~= seq![
            "/C"@,
            "if"@,
            "not"@,
            "exist"@,
            t + "\\"@,
            "mkdir"@,
            t,
        ]);
        Request::VmExec { vm: vm.to_owned(), cmd: "cmd.exe".to_owned(), args, timeout: 120 }
    } else {
        args.push("-p".to_owned());
        args.push(dir.to_owned());
        assert(args.deep_view() =~= seq!["-p"@, dir@]);
        Request::VmExec { vm: vm.to_owned(), cmd: "mkdir".to_owned(), args, timeout: 120 }
    }
}

/// What is said when a folder could not be created.
pub fn mkdir_failure(dir: &str, vm: &str, code: i64, stderr: &str) -> (r: Result<(), String>)
    ensures
        r is Ok <==> code == 0,
        r matches Err(e) ==> e@ == "cannot create "@ + dir@ + " in "@ + vm@ + " (exit "@
            + signed_decimal(code as int) + "): "@ + trimmed_start(trimmed_end(stderr@)),
{
    if code == 0 {
        return Ok(());
    }
    let n = signed_string(code);
    let text = trim(stderr);
    let mut s = cat7("cannot create ", dir, " in ", vm, " (exit ", n.as_str(), "): ");
    s.append(text.as_str());
    Err(s)
}

/// The path of something below a guest folder.
pub fn guest_path(dir: &str, name: &str, windows: bool) -> (r: String)
    ensures
        r@ == dir@ + (if windows {
            "\\"@
        } else {
            "/"@
        }) + name@,
{
    if windows {
        cat3(dir, "\\", name)
    } else {
        cat3(dir, "/", name)
    }
}

/// How many messages a file of this length takes: an empty one still needs one
/// to be created.
pub open spec fn chunk_count(len: nat) -> nat {
    if len == 0 {
        1
    } else {
        ((len + CP_CHUNK - 1) / CP_CHUNK as int) as nat
    }
}

/// The bytes of a message.
pub open spec fn chunk(data: Seq<u8>, i: int) -> Seq<u8> {
    let from = i * CP_CHUNK;
    let to = if from + CP_CHUNK <= data.len() {
        from + CP_CHUNK
    } else {
        data.len() as int
    };
    data.subrange(from, to)
}

/// The message at a place: the first writes, the others append.
pub open spec fn copy_message(vm: Seq<char>, dest: Seq<char>, data: Seq<u8>, i: int) -> RequestView {
    RequestView::VmCopyIn { vm, dest, bytes: chunk(data, i), append: i > 0, timeout: 120 }
}

/// The messages that copy one host file into a guest.
pub fn copy_file(vm: &str, dest: &str, data: &Vec<u8>) -> (r: Vec<Request>)
    ensures
        r@.len() == chunk_count(data@.len()),
        forall|i: int|
            0 <= i < r@.len() ==> (#[trigger] r@[i]).deep_view() == copy_message(
                vm@,
                dest@,
                data@,
                i,
            ),
        forall|i: int|
            0 <= i < r@.len() ==> ((#[trigger] r@[i]) matches Request::VmCopyIn { bytes, .. }
                && bytes@.len() <= CP_CHUNK),
{
    let mut out: Vec<Request> = Vec::new();
    let mut from: usize = 0;
    let mut more = true;
    while more
        invariant
            from == out@.len() * CP_CHUNK || !more,
            more ==> from <= data@.len(),
            more ==> (from < data@.len() || out@.len() == 0),
            !more ==> out@.len() == chunk_count(data@.len()),
            forall|i: int|
                0 <= i < out@.len() ==> (#[trigger] out@[i]).deep_view() == copy_message(
                    vm@,
                    dest@,
                    data@,
                    i,
                ),
            forall|i: int|
                0 <= i < out@.len() ==> ((#[trigger] out@[i]) matches Request::VmCopyIn {
                    bytes,
                    ..
                } && bytes@.len() <= CP_CHUNK),
        decreases
            data@.len() - from,
            if more {
                1int
            } else {
                0int
            },
    {
        let left: usize = data.len() - from;
        let to: usize = if left >= CP_CHUNK {
            from + CP_CHUNK
        } else {
            data.len()
        };
        let part = slice_subrange(data.as_slice(), from, to);
        let mut bytes: Vec<u8> = Vec::new();
        let mut k: usize = 0;
        while k < part.len()
            invariant
                k <= part@.len(),
                bytes@ == part@.take(k as int),
            decreases part@.len() - k,
        {
            bytes.push(part[k]);
            assert(part@.take(k as int).push(part@[k as int]) =~= part@.take(k + 1));
            k = k + 1;
        }
        assert(bytes@ =~= part@);
        let append = out.len() > 0;
        assert(bytes@ =~= chunk(data@, out@.len() as int));
        let ghost n = out@.len();
        out.push(
            Request::VmCopyIn {
                vm: vm.to_owned(),
                dest: dest.to_owned(),
                bytes,
                append,
                timeout: 120,
            },
        );
        more = to < data.len();
        proof {
            assert((n + 1) * CP_CHUNK == n * CP_CHUNK + CP_CHUNK) by (nonlinear_arith);
            if to == data@.len() {
                lemma_chunk_count(data@.len(), n);
            }
        }
        from = to;
    }
    out
}

proof fn lemma_chunk_count(len: nat, n: nat)
    requires
        n * CP_CHUNK <= len <= n * CP_CHUNK + CP_CHUNK,
        n * CP_CHUNK < len || n == 0,
    ensures
        chunk_count(len) == n + 1,
{
    if len > 0 {
        assert((len + CP_CHUNK - 1) / CP_CHUNK as int == n + 1) by (nonlinear_arith)
            requires
                n * 0x10_0000 < len <= n * 0x10_0000 + 0x10_0000,
                CP_CHUNK == 0x10_0000,
        ;
    }
}

// -- laws -----------------------------------------------------------------------------------

/// What a file holds after the first `n` messages.
pub open spec fn written(messages: Seq<RequestView>, n: int) -> Seq<u8>
    decreases n,
{
    if n <= 0 {
        Seq::empty()
    } else {
        match messages[n - 1] {
            RequestView::VmCopyIn { bytes, append, .. } => if append {
                written(messages, n - 1) + bytes
            } else {
                bytes
            },
            _ => written(messages, n - 1),
        }
    }
}

proof fn lemma_written(messages: Seq<RequestView>, data: Seq<u8>, vm: Seq<char>, dest: Seq<char>, n: int)
    requires
        0 <= n <= messages.len(),
        messages.len() == chunk_count(data.len()),
        forall|i: int|
            0 <= i < messages.len() ==> #[trigger] messages[i] == copy_message(vm, dest, data, i),
    ensures
        written(messages, n) == data.take(
            if n * CP_CHUNK <= data.len() {
                n * CP_CHUNK
            } else {
                data.len() as int
            },
        ),
    decreases n,
{
    if n <= 0 {
        assert(data.take(0) =~= Seq::empty());
    } else {
        lemma_written(messages, data, vm, dest, n - 1);
        let m = messages[n - 1];
        assert(m == copy_message(vm, dest, data, n - 1));
        assert((n - 1) * CP_CHUNK <= data.len()) by {
            if data.len() > 0 {
                assert((n - 1) * 0x10_0000 <= data.len()) by (nonlinear_arith)
                    requires
                        n <= (data.len() + 0x10_0000 - 1) / 0x10_0000,
                ;
            }
        }
        assert(n * CP_CHUNK == (n - 1) * CP_CHUNK + CP_CHUNK) by (nonlinear_arith);
        let from = (n - 1) * CP_CHUNK;
        assert(written(messages, n) =~= data.take(
            if n * CP_CHUNK <= data.len() {
                n * CP_CHUNK
            } else {
                data.len() as int
            },
        ));
    }
}

/// A copied file arrives whole: writing the messages one after the other gives
/// the file back.
pub proof fn copied_file_is_whole(
    messages: Seq<RequestView>,
    data: Seq<u8>,
    vm: Seq<char>,
    dest: Seq<char>,
)
    requires
        messages.len() == chunk_count(data.len()),
        forall|i: int|
            0 <= i < messages.len() ==> #[trigger] messages[i] == copy_message(vm, dest, data, i),
    ensures
        written(messages, messages.len() as int) == data,
{
    let n = messages.len() as int;
    lemma_written(messages, data, vm, dest, n);
    if data.len() > 0 {
        assert(n * 0x10_0000 >= data.len()) by (nonlinear_arith)
            requires
                n == (data.len() + 0x10_0000 - 1) / 0x10_0000,
        ;
    }
    assert(data.take(data.len() as int) =~= data);
}

/// A copy goes to the guest in front of the first colon and to the path behind it;
/// a destination without a colon, a guest or a path is none.
pub proof fn destination_is_split_at_the_first_colon(vm: Seq<char>, path: Seq<char>)
    requires
        !vm.contains(':'),
    ensures
        cp_dest_of(vm.push(':') + path) == if vm.len() > 0 && path.len() > 0 {
            Some((vm, path))
        } else {
            None
        },
        cp_dest_of(vm) is None,
{
    let s = vm.push(':') + path;
    assert forall|j: int| 0 <= j < vm.len() implies s[j] != ':' by {
        assert(s[j] == vm[j]);
        assert(vm.contains(vm[j]));
    }
    crate::text::lemma_find_char(s, ':', vm.len() as int);
    assert(s.take(vm.len() as int) =~= vm);
    assert(s.skip(vm.len() as int + 1) =~= path);
    crate::text::lemma_found(vm, ':');
    if let Some(i) = find_char(vm, ':') {
        assert(vm.contains(vm[i]));
    }
}

proof fn lemma_last_separator(s: Seq<char>, i: int)
    requires
        forall|j: int| i < j < s.len() ==> !is_separator(#[trigger] s[j]),
        -1 <= i < s.len(),
        i >= 0 ==> is_separator(s[i]),
    ensures
        last_separator(s) == if i >= 0 {
            Some(i)
        } else {
            None
        },
    decreases s.len(),
{
    if i < s.len() - 1 {
        let front = s.drop_last();
        assert(!is_separator(s[s.len() - 1]));
        assert forall|j: int| i < j < front.len() implies !is_separator(#[trigger] front[j]) by {
            assert(front[j] == s[j]);
        }
        lemma_last_separator(front, i);
    }
}

/// The folder of a guest file is what stands in front of its name, whichever way
/// the slashes lean; at a root, or at a drive's root, there is none to create.
pub proof fn parent_is_in_front_of_the_name(dir: Seq<char>, c: char, name: Seq<char>)
    requires
        c == '/' || c == '\\',
        !name.contains('/') && !name.contains('\\'),
    ensures
        guest_parent_of(dir.push(c) + name) == if dir.len() > 0 && dir[dir.len() - 1] != ':' {
            Some(dir)
        } else {
            None
        },
        guest_parent_of(name) is None,
{
    assert forall|j: int| 0 <= j < name.len() implies !is_separator(#[trigger] name[j]) by {
        assert(name.contains(name[j]));
    }
    let s = dir.push(c) + name;
    assert forall|j: int| dir.len() < j < s.len() implies !is_separator(#[trigger] s[j]) by {
        assert(s[j] == name[j - dir.len() - 1]);
    }
    lemma_last_separator(s, dir.len() as int);
    lemma_last_separator(name, -1);
    assert(s.take(dir.len() as int) =~= dir);
}

/// A folder is made with its parents, and one that exists is left alone; a Windows
/// guest gets the path with backslashes.
pub proof fn folder_is_made_with_its_parents(vm: Seq<char>, dir: Seq<char>)
    ensures
        mkdir_of(vm, dir, false) == (RequestView::VmExec {
            vm,
            cmd: "mkdir"@,
            args: seq!["-p"@, dir],
            timeout: 120,
        }),
        mkdir_of(vm, dir, true) matches RequestView::VmExec { vm: to, cmd, args, timeout } && to
            == vm && cmd == "cmd.exe"@ && timeout == 120 && args.len() == 7 && args.take(4) == seq![
            "/C"@,
            "if"@,
            "not"@,
            "exist"@,
        ] && args[4] == args[6] + "\\"@ && args[5] == "mkdir"@ && args[6].len() == dir.len()
            && forall|i: int|
            0 <= i < dir.len() ==> (#[trigger] args[6][i]) == if dir[i] == '/' {
                '\\'
            } else {
                dir[i]
            },
{
    let d = backslashed(dir);
    let args = seq!["/C"@, "if"@, "not"@, "exist"@, d + "\\"@, "mkdir"@, d];
    assert(args.take(4) =~= seq!["/C"@, "if"@, "not"@, "exist"@]);
    assert(mkdir_of(vm, dir, true) == (RequestView::VmExec {
        vm,
        cmd: "cmd.exe"@,
        args,
        timeout: 120,
    }));
}

/// The messages of a copy all go to the same file of the same guest, the first
/// makes it anew, and none is larger than a mebibyte.
pub proof fn messages_go_to_one_file(vm: Seq<char>, dest: Seq<char>, data: Seq<u8>, i: int)
    requires
        0 <= i < chunk_count(data.len()),
    ensures
        copy_message(vm, dest, data, i) matches RequestView::VmCopyIn {
            vm: to,
            dest: path,
            bytes,
            append,
            timeout,
        } && to == vm && path == dest && bytes.len() <= 1024 * 1024 && (append <==> i != 0)
            && timeout == 120,
        chunk_count(data.len()) >= 1,
{
    if data.len() > 0 {
        assert((data.len() + 0x10_0000 - 1) / 0x10_0000 >= 1) by (nonlinear_arith)
            requires
                data.len() >= 1,
        ;
        assert(i * 0x10_0000 <= data.len()) by (nonlinear_arith)
            requires
                i < (data.len() + 0x10_0000 - 1) / 0x10_0000,
        ;
    }
    assert(i * CP_CHUNK == i * 0x10_0000);
}

} // verus!
