//! Lab-scoped verbs: which lab is meant, where its logs are, and which viewers
//! open.

use vstd::prelude::*;

use crate::cli::table::text_or;
use crate::cli::vm_ref_of;
use crate::cli::split_vm_ref;
use crate::config::cycles::{is_vm, vm_index};
use crate::config::model::{Lab, LabView};
use crate::json::{text_at, Json};
use crate::text::{any_string, cat3, cat5, join_path, path_join, str_eq};

verus! {

/// Manage running labs host-wide, by name (not the cwd's lab).
#[allow(inconsistent_fields)]
#[derive(Debug)]
pub enum LabCmd {
    /// List every lab: name, state, and directory
    List { json: bool },
    /// Show detailed status (VMs and segments) of a running lab
    Info { lab: String },
    /// Gracefully stop a running lab; clones retained
    Stop { lab: String, force: bool },
    /// Stop a lab and delete its clones and local state
    Destroy { lab: String },
}

/// The place of the entry of this name.
pub open spec fn entry_at(labs: Seq<Json>, name: Seq<char>, i: int) -> bool {
    &&& 0 <= i < labs.len()
    &&& text_at(labs[i], "name"@) == Some(name)
    &&& forall|j: int| 0 <= j < i ==> text_at(#[trigger] labs[j], "name"@) != Some(name)
}

/// A registry entry by lab name.
pub fn entry_for(labs: &Vec<Json>, name: &str) -> (r: Option<usize>)
    ensures
        r is Some <==> exists|i: int| #[trigger] entry_at(labs@, name@, i),
        r matches Some(i) ==> entry_at(labs@, name@, i as int),
{
    let mut i: usize = 0;
    while i < labs.len()
        invariant
            i <= labs@.len(),
            forall|j: int| 0 <= j < i ==> text_at(#[trigger] labs@[j], "name"@) != Some(name@),
        decreases labs@.len() - i,
    {
        if let Some(n) = labs[i].text("name") {
            if str_eq(n.as_str(), name) {
                assert(entry_at(labs@, name@, i as int));
                return Some(i);
            }
        }
        i = i + 1;
    }
    None
}

/// The root directory of a lab: that of the first entry of its name.
pub open spec fn root_of(labs: Seq<Json>, name: Seq<char>) -> Option<Seq<char>>
    decreases labs.len(),
{
    if labs.len() == 0 {
        None
    } else if text_at(labs[0], "name"@) == Some(name) {
        text_at(labs[0], "root"@)
    } else {
        root_of(labs.skip(1), name)
    }
}

/// Find a registry entry's root directory by lab name.
pub fn root_for(labs: &Vec<Json>, name: &str) -> (r: Option<String>)
    ensures
        r.deep_view() == root_of(labs@, name@),
{
    let mut i: usize = 0;
    assert(labs@.skip(0) =~= labs@);
    while i < labs.len()
        invariant
            i <= labs@.len(),
            root_of(labs@, name@) == root_of(labs@.skip(i as int), name@),
        decreases labs@.len() - i,
    {
        assert(labs@.skip(i as int)[0] == labs@[i as int]);
        assert(labs@.skip(i as int).skip(1) =~= labs@.skip(i + 1));
        if let Some(n) = labs[i].text("name") {
            if str_eq(n.as_str(), name) {
                return labs[i].text("root");
            }
        }
        i = i + 1;
    }
    None
}

/// What is printed of a lab that is registered and cannot be reached.
pub fn unreachable_lab(name: &str, entry: &Json) -> (r: String)
    ensures
        r@ == "lab \""@ + name@ + "\" ["@ + text_or(*entry, "state"@, "?"@)
            + "] (not reachable) directory "@ + text_or(*entry, "root"@, "?"@),
{
    let state = match entry.text("state") {
        Some(s) => s,
        None => "?".to_owned(),
    };
    let root = match entry.text("root") {
        Some(s) => s,
        None => "?".to_owned(),
    };
    let mut s = cat5("lab \"", name, "\" [", state.as_str(), "] (not reachable) directory ");
    s.append(root.as_str());
    s
}

// -- viewers ---------------------------------------------------------------------------------

/// Whether a viewer opens for a guest: where the guest, or else the lab, says
/// so, and it was asked for.
pub open spec fn opens_viewer(lab: LabView, asked: Seq<Seq<char>>, i: int) -> bool {
    let v = lab.vms[i];
    let gui = match v.gui {
        Some(g) => g,
        None => lab.gui == Some(true),
    };
    gui && (asked.len() == 0 || asked.contains(v.name))
}

/// The guests, of the first `n`, for which a viewer opens.
pub open spec fn viewers_of(lab: LabView, asked: Seq<Seq<char>>, n: int) -> Seq<Seq<char>>
    decreases n,
{
    if n <= 0 {
        Seq::empty()
    } else {
        let front = viewers_of(lab, asked, n - 1);
        if opens_viewer(lab, asked, n - 1) {
            front.push(lab.vms[n - 1].name)
        } else {
            front
        }
    }
}

/// The guests for which a viewer opens once the lab is up.
pub fn viewers(lab: &Lab, asked: &Vec<String>) -> (r: Vec<String>)
    ensures
        r.deep_view() == viewers_of(lab.deep_view(), asked.deep_view(), lab.vms@.len() as int),
{
    let ghost view = lab.deep_view();
    let lab_gui = match lab.gui {
        Some(g) => g,
        None => false,
    };
    let mut out: Vec<String> = Vec::new();
    let mut i: usize = 0;
    assert(out.deep_view() =~= Seq::empty());
    while i < lab.vms.len()
        invariant
            i <= lab.vms@.len(),
            view == lab.deep_view(),
            view.vms.len() == lab.vms@.len(),
            lab_gui == (view.gui == Some(true)),
            out.deep_view() == viewers_of(view, asked.deep_view(), i as int),
        decreases lab.vms@.len() - i,
    {
        let vm = &lab.vms[i];
        assert(view.vms[i as int] == vm.deep_view());
        let gui = match vm.gui {
            Some(g) => g,
            None => lab_gui,
        };
        let ghost had = out.deep_view();
        assert(asked.deep_view().len() == asked@.len());
        if gui && (asked.len() == 0 || any_string(asked, vm.name.as_str())) {
            out.push(vm.name.clone());
            assert(out.deep_view() =~= had.push(vm.name@));
        }
        i = i + 1;
    }
    out
}

// -- logs ------------------------------------------------------------------------------------

/// The lab, and the guest of it, that a log reference means: a bare name is a
/// guest of the current lab if that defines it, otherwise a lab.
pub open spec fn log_target_of(target: Seq<char>, cwd: Option<LabView>) -> Result<
    (Seq<char>, Option<Seq<char>>),
    Seq<char>,
> {
    match vm_ref_of(target) {
        Err(e) => Err(e),
        Ok((Some(lab), vm)) => Ok((lab, Some(vm))),
        Ok((None, name)) => match cwd {
            Some(lab) => if is_vm(lab, name) {
                Ok((lab.name, Some(name)))
            } else {
                Ok((name, None))
            },
            None => Ok((name, None)),
        },
    }
}

/// The lab, and the guest of it, that a log reference means: a bare name is a
/// guest of the current lab if that defines it, otherwise a lab.
pub fn log_target(target: &str, cwd: Option<&Lab>) -> (r: Result<
    (String, Option<String>),
    String,
>)
    ensures
        ({
            let want = log_target_of(
                target@,
                match cwd {
                    Some(l) => Some(l.deep_view()),
                    None => None,
                },
            );
            match r {
                Ok((lab, vm)) => want == Ok::<(Seq<char>, Option<Seq<char>>), Seq<char>>(
                    (lab@, vm.deep_view()),
                ),
                Err(e) => want == Err::<(Seq<char>, Option<Seq<char>>), Seq<char>>(e@),
            }
        }),
{
    match split_vm_ref(target) {
        Err(e) => Err(e),
        Ok((lab, name)) => match lab {
            Some(l) => Ok((l, Some(name))),
            None => match cwd {
                Some(l) => match vm_index(l, name.as_str()) {
                    Some(_) => Ok((l.name.clone(), Some(name))),
                    None => Ok((name, None)),
                },
                None => Ok((name, None)),
            },
        },
    }
}

/// The log files of a lab, or of one of its guests.
pub open spec fn log_paths_of(state: Seq<char>, lab: Seq<char>, vm: Option<Seq<char>>) -> Seq<
    Seq<char>,
> {
    let base = path_join(path_join(state, "labs"@), lab);
    match vm {
        Some(v) => {
            let d = path_join(path_join(base, "vms"@), v);
            seq![path_join(d, "qemu.log"@), path_join(d, "serial.log"@)]
        },
        None => seq![path_join(base, "events.jsonl"@)],
    }
}

/// The log files of a lab, or of one of its guests.
pub fn log_paths(state: &str, lab: &str, vm: &Option<String>) -> (r: Vec<String>)
    ensures
        r.deep_view() == log_paths_of(state@, lab@, vm.deep_view()),
{
    let labs = join_path(state, "labs");
    let base = join_path(labs.as_str(), lab);
    let mut out: Vec<String> = Vec::new();
    match vm {
        Some(v) => {
            let vms = join_path(base.as_str(), "vms");
            let d = join_path(vms.as_str(), v.as_str());
            out.push(join_path(d.as_str(), "qemu.log"));
            out.push(join_path(d.as_str(), "serial.log"));
        },
        None => {
            out.push(join_path(base.as_str(), "events.jsonl"));
        },
    }
    assert(out.deep_view() =~= log_paths_of(state@, lab@, vm.deep_view()));
    out
}

/// What is said when none of the log files exists.
pub fn no_logs(lab: &str, vm: &Option<String>) -> (r: String)
    ensures
        r@ == "no logs found for "@ + lab@ + (match *vm {
            Some(v) => "/"@ + v@,
            None => ""@,
        }),
{
    let mut s = crate::text::joined("no logs found for ", lab);
    match vm {
        Some(v) => {
            let t = crate::text::joined("/", v.as_str());
            s.append(t.as_str());
        },
        None => {
            s.append("");
        },
    }
    s
}

/// The heading above a file's lines, where more than one file is shown.
pub fn log_heading(path: &str, files: usize) -> (r: Option<String>)
    ensures
        r is Some <==> files > 1,
        r matches Some(h) ==> h@ == "==> "@ + path@ + " <=="@,
{
    if files > 1 {
        Some(cat3("==> ", path, " <=="))
    } else {
        None
    }
}

// -- laws ------------------------------------------------------------------------------------

/// A lab's root is that of the first entry of its name.
pub proof fn root_is_that_of_the_first_entry(labs: Seq<Json>, name: Seq<char>, i: int)
    ensures
        entry_at(labs, name, i) ==> root_of(labs, name) == text_at(labs[i], "root"@),
        (forall|j: int| 0 <= j < labs.len() ==> text_at(#[trigger] labs[j], "name"@) != Some(name))
            ==> root_of(labs, name) is None,
    decreases labs.len(),
{
    if labs.len() > 0 {
        let t = labs.skip(1);
        root_is_that_of_the_first_entry(t, name, i - 1);
        assert forall|j: int| 0 <= j < t.len() implies #[trigger] t[j] == labs[j + 1] by {}
        if entry_at(labs, name, i) && i > 0 {
            assert(text_at(labs[0], "name"@) != Some(name));
            assert(entry_at(t, name, i - 1)) by {
                assert(t[i - 1] == labs[i]);
            }
        }
        if forall|j: int|
            0 <= j < labs.len() ==> text_at(#[trigger] labs[j], "name"@) != Some(name) {
            assert(text_at(labs[0], "name"@) != Some(name));
        }
    }
}

/// A viewer opens for exactly the guests that show one, by their own word or else
/// by the lab's, and, where some were named, are among these; in the order of the
/// lab.
pub proof fn viewers_open_where_wanted(lab: LabView, asked: Seq<Seq<char>>, n: int)
    requires
        0 <= n <= lab.vms.len(),
    ensures
        forall|x: Seq<char>| #[trigger]
            viewers_of(lab, asked, n).contains(x) <==> exists|i: int|
                0 <= i < n && (#[trigger] lab.vms[i]).name == x && (lab.vms[i].gui == Some(true) || (
                lab.vms[i].gui is None && lab.gui == Some(true))) && (asked.len() == 0
                    || asked.contains(x)),
        viewers_of(lab, asked, n).len() <= n,
        forall|m: int|
            0 <= m <= n ==> (#[trigger] viewers_of(lab, asked, m)).is_prefix_of(
                viewers_of(lab, asked, n),
            ),
    decreases n,
{
    if n > 0 {
        viewers_open_where_wanted(lab, asked, n - 1);
        let front = viewers_of(lab, asked, n - 1);
        let all = viewers_of(lab, asked, n);
        let v = lab.vms[n - 1];
        assert(front.is_prefix_of(all));
        assert forall|x: Seq<char>| #[trigger] all.contains(x) <==> front.contains(x) || (
        opens_viewer(lab, asked, n - 1) && x == v.name) by {
            if opens_viewer(lab, asked, n - 1) {
                assert(all[front.len() as int] == v.name);
                if front.contains(x) {
                    let i = choose|i: int| 0 <= i < front.len() && front[i] == x;
                    assert(all[i] == x);
                }
                if all.contains(x) && x != v.name {
                    let i = choose|i: int| 0 <= i < all.len() && all[i] == x;
                    assert(front[i] == x);
                }
            }
        }
        assert forall|x: Seq<char>| #[trigger] all.contains(x) <==> exists|i: int|
            0 <= i < n && (#[trigger] lab.vms[i]).name == x && (lab.vms[i].gui == Some(true) || (
            lab.vms[i].gui is None && lab.gui == Some(true))) && (asked.len() == 0
                || asked.contains(x)) by {
            if opens_viewer(lab, asked, n - 1) && x == v.name {
                assert(lab.vms[n - 1].name == x);
            }
        }
        assert forall|m: int| 0 <= m <= n implies (#[trigger] viewers_of(
            lab,
            asked,
            m,
        )).is_prefix_of(all) by {
            if m < n {
                assert(viewers_of(lab, asked, m).is_prefix_of(front));
            }
        }
    }
}

/// A log reference with a slash names a lab and a guest; a bare name is a guest of
/// the lab at hand if that declares it, and a lab otherwise.
pub proof fn log_reference_is_resolved(
    lab: Seq<char>,
    vm: Seq<char>,
    at_hand: LabView,
    cwd: Option<LabView>,
)
    requires
        !lab.contains('/'),
    ensures
        lab.len() > 0 && vm.len() > 0 ==> log_target_of(lab.push('/') + vm, cwd) == Ok::<
            (Seq<char>, Option<Seq<char>>),
            Seq<char>,
        >((lab, Some(vm))),
        lab.len() == 0 || vm.len() == 0 ==> log_target_of(lab.push('/') + vm, cwd) is Err,
        log_target_of(lab, None) == Ok::<(Seq<char>, Option<Seq<char>>), Seq<char>>((lab, None)),
        log_target_of(lab, Some(at_hand)) == Ok::<(Seq<char>, Option<Seq<char>>), Seq<char>>(
            if exists|i: int|
                0 <= i < at_hand.vms.len() && (#[trigger] at_hand.vms[i]).name == lab {
                (at_hand.name, Some(lab))
            } else {
                (lab, None)
            },
        ),
{
    crate::cli::reference_is_split_at_the_first_slash(lab, vm);
}

/// The logs of a guest are in its folder of the lab's state, and the log of a lab
/// is its list of events.
pub proof fn logs_are_in_the_labs_folder(state: Seq<char>, lab: Seq<char>, vm: Seq<char>)
    requires
        state.len() > 0 && state[state.len() - 1] != '/',
        lab.len() > 0 && lab[0] != '/' && lab[lab.len() - 1] != '/',
        vm.len() > 0 && vm[0] != '/' && vm[vm.len() - 1] != '/',
    ensures
        log_paths_of(state, lab, None) == seq![state + "/labs/"@ + lab + "/events.jsonl"@],
        log_paths_of(state, lab, Some(vm)) == seq![
            state + "/labs/"@ + lab + "/vms/"@ + vm + "/qemu.log"@,
            state + "/labs/"@ + lab + "/vms/"@ + vm + "/serial.log"@,
        ],
{
    reveal_strlit("/");
    reveal_strlit("labs");
    reveal_strlit("vms");
    reveal_strlit("/labs/");
    reveal_strlit("/vms/");
    reveal_strlit("qemu.log");
    reveal_strlit("serial.log");
    reveal_strlit("events.jsonl");
    reveal_strlit("/qemu.log");
    reveal_strlit("/serial.log");
    reveal_strlit("/events.jsonl");
    let a = state + "/"@ + "labs"@;
    assert(path_join(state, "labs"@) == a);
    assert(a.last() == 's');
    let base = a + "/"@ + lab;
    assert(path_join(a, lab) == base);
    assert(base.last() == lab.last());
    assert(base =~= state + "/labs/"@ + lab);
    assert(base + "/"@ + "events.jsonl"@ =~= base + "/events.jsonl"@);
    let b = base + "/"@ + "vms"@;
    assert(path_join(base, "vms"@) == b);
    assert(b.last() == 's');
    let d = b + "/"@ + vm;
    assert(path_join(b, vm) == d);
    assert(d.last() == vm.last());
    assert(d =~= state + "/labs/"@ + lab + "/vms/"@ + vm);
    assert(d + "/"@ + "qemu.log"@ =~= d + "/qemu.log"@);
    assert(d + "/"@ + "serial.log"@ =~= d + "/serial.log"@);
}

} // verus!
