//! Dependency cycles between guests: a depth-first search in declaration
//! order, and what it finds.

use vstd::prelude::*;

use crate::config::issue::{
    lemma_cat_nothing, no_issues, note, one_issue, IssueList, IssueView,
};
use crate::config::model::{Lab, LabView, VmView};
use crate::text::{any_string, join, join_strings, joined, str_eq};

verus! {

/// The first guest of this name.
pub open spec fn find_vm(vms: Seq<VmView>, name: Seq<char>) -> Option<VmView>
    decreases vms.len(),
{
    if vms.len() == 0 {
        None
    } else if vms[0].name == name {
        Some(vms[0])
    } else {
        find_vm(vms.skip(1), name)
    }
}

/// Whether the lab has a guest of this name.
pub open spec fn is_vm(lab: LabView, name: Seq<char>) -> bool {
    exists|i: int| 0 <= i < lab.vms.len() && #[trigger] lab.vms[i].name == name
}

proof fn lemma_find_vm(vms: Seq<VmView>, name: Seq<char>)
    ensures
        find_vm(vms, name) is Some <==> exists|i: int|
            0 <= i < vms.len() && #[trigger] vms[i].name == name,
        find_vm(vms, name) matches Some(v) ==> v.name == name,
    decreases vms.len(),
{
    if vms.len() > 0 && vms[0].name != name {
        let t = vms.skip(1);
        lemma_find_vm(t, name);
        if exists|i: int| 0 <= i < vms.len() && #[trigger] vms[i].name == name {
            let i = choose|i: int| 0 <= i < vms.len() && #[trigger] vms[i].name == name;
            assert(t[i - 1].name == name);
        }
        if exists|i: int| 0 <= i < t.len() && #[trigger] t[i].name == name {
            let i = choose|i: int| 0 <= i < t.len() && #[trigger] t[i].name == name;
            assert(vms[i + 1].name == name);
        }
    } else if vms.len() > 0 {
        assert(vms[0].name == name);
    }
}

/// The index of the first guest of this name.
pub fn vm_index(lab: &Lab, name: &str) -> (r: Option<usize>)
    ensures
        r is Some <==> is_vm(lab.deep_view(), name@),
        r matches Some(i) ==> i < lab.vms@.len() && find_vm(lab.deep_view().vms, name@) == Some(
            lab.vms@[i as int].deep_view(),
        ) && lab.vms@[i as int].name@ == name@,
        r is None ==> find_vm(lab.deep_view().vms, name@) is None,
{
    let ghost all = lab.deep_view().vms;
    let mut i: usize = 0;
    assert(all.skip(0) =~= all);
    while i < lab.vms.len()
        invariant
            i <= lab.vms@.len(),
            all == lab.deep_view().vms,
            all.len() == lab.vms@.len(),
            find_vm(all.skip(i as int), name@) == find_vm(all, name@),
            forall|j: int| 0 <= j < i ==> #[trigger] all[j].name != name@,
        decreases lab.vms@.len() - i,
    {
        assert(all.skip(i as int).skip(1) =~= all.skip(i + 1));
        assert(all.skip(i as int)[0] == all[i as int]);
        assert(all[i as int] == lab.vms@[i as int].deep_view());
        if str_eq(lab.vms[i].name.as_str(), name) {
            return Some(i);
        }
        i = i + 1;
    }
    None
}

/// The names that a guest depends on.
pub open spec fn deps_of(lab: LabView, name: Seq<char>) -> Seq<Seq<char>> {
    match find_vm(lab.vms, name) {
        Some(v) => v.depends_on,
        None => Seq::empty(),
    }
}

/// How many guests are not on the path.
pub open spec fn unvisited(vms: Seq<VmView>, path: Seq<Seq<char>>) -> nat
    decreases vms.len(),
{
    if vms.len() == 0 {
        0
    } else {
        unvisited(vms.drop_last(), path) + if path.contains(vms.last().name) {
            0nat
        } else {
            1nat
        }
    }
}

/// A guest that comes onto the path leaves one less to visit.
pub proof fn lemma_unvisited(vms: Seq<VmView>, path: Seq<Seq<char>>, name: Seq<char>)
    ensures
        unvisited(vms, path.push(name)) <= unvisited(vms, path),
        (exists|i: int| 0 <= i < vms.len() && #[trigger] vms[i].name == name) && !path.contains(
            name,
        ) ==> unvisited(vms, path.push(name)) < unvisited(vms, path),
    decreases vms.len(),
{
    let more = path.push(name);
    assert forall|n: Seq<char>| path.contains(n) || n == name implies more.contains(n) by {
        if path.contains(n) {
            let k = choose|k: int| 0 <= k < path.len() && path[k] == n;
            assert(more[k] == n);
        } else {
            assert(more[path.len() as int] == n);
        }
    }
    if vms.len() > 0 {
        lemma_unvisited(vms.drop_last(), path, name);
        if exists|i: int| 0 <= i < vms.len() && #[trigger] vms[i].name == name {
            let i = choose|i: int| 0 <= i < vms.len() && #[trigger] vms[i].name == name;
            if i < vms.len() - 1 {
                assert(vms.drop_last()[i].name == name);
            }
        }
    }
}

/// Where a name first stands on a path.
pub open spec fn place(path: Seq<Seq<char>>, name: Seq<char>) -> int
    decreases path.len(),
{
    if path.len() == 0 || path[0] == name {
        0
    } else {
        1 + place(path.skip(1), name)
    }
}

/// The first cycle that the depth-first search comes to, when it has followed
/// `path` and takes the dependencies of its last guest from the `k`-th on: the
/// part of the path from the guest that is met again, and that guest.
pub open spec fn cycle_from(lab: LabView, path: Seq<Seq<char>>, k: nat) -> Option<Seq<Seq<char>>>
    decreases unvisited(lab.vms, path), deps_of(lab, path.last()).len() - k,
{
    let deps = deps_of(lab, path.last());
    if k >= deps.len() {
        None
    } else if !is_vm(lab, deps[k as int]) {
        cycle_from(lab, path, k + 1)
    } else if path.contains(deps[k as int]) {
        Some(path.skip(place(path, deps[k as int])).push(deps[k as int]))
    } else {
        proof {
            lemma_unvisited(lab.vms, path, deps[k as int]);
        }
        match cycle_from(lab, path.push(deps[k as int]), 0) {
            Some(c) => Some(c),
            None => cycle_from(lab, path, k + 1),
        }
    }
}

/// The first cycle that a guest leads to.
pub open spec fn cycle_of(lab: LabView, name: Seq<char>) -> Option<Seq<Seq<char>>> {
    cycle_from(lab, seq![name], 0)
}

/// The report on the first guest, from the `i`-th on, that leads to a cycle.
pub open spec fn cycle_issues_from(lab: LabView, i: int) -> Seq<IssueView>
    decreases lab.vms.len() - i,
{
    if i < 0 || i >= lab.vms.len() {
        no_issues()
    } else {
        match cycle_of(lab, lab.vms[i].name) {
            Some(c) => one_issue(lab.vms[i].span, "dependency cycle: "@ + join(c, " -> "@)),
            None => cycle_issues_from(lab, i + 1),
        }
    }
}

/// What is wrong with the dependencies of a lab: one cycle report is enough to
/// act on.
pub open spec fn cycle_issues(lab: LabView) -> Seq<IssueView> {
    cycle_issues_from(lab, 0)
}

// -- the search -----------------------------------------------------------------------

/// Guests in the order in which the search was done with them: each one's
/// dependencies come before it.
spec fn ranked(lab: LabView, done: Seq<Seq<char>>) -> bool {
    &&& forall|i: int, j: int| 0 <= i < j < done.len() ==> #[trigger] done[i] != #[trigger] done[j]
    &&& forall|i: int, k: int|
        0 <= i < done.len() && 0 <= k < deps_of(lab, done[i]).len() && is_vm(
            lab,
            #[trigger] deps_of(lab, done[i])[k],
        ) ==> done.take(i).contains(deps_of(lab, done[i])[k])
}

spec fn disjoint(path: Seq<Seq<char>>, done: Seq<Seq<char>>) -> bool {
    forall|n: Seq<char>| #[trigger] path.contains(n) ==> !done.contains(n)
}

/// No cycle is found behind a guest that the search is done with.
proof fn lemma_done(lab: LabView, done: Seq<Seq<char>>, i: int, path: Seq<Seq<char>>, k: nat)
    requires
        ranked(lab, done),
        0 <= i < done.len(),
        disjoint(path, done.take(i + 1)),
    ensures
        cycle_from(lab, path.push(done[i]), k) is None,
    decreases i, deps_of(lab, done[i]).len() - k,
{
    let here = path.push(done[i]);
    let deps = deps_of(lab, done[i]);
    assert(here.last() == done[i]);
    if k < deps.len() {
        let d = deps[k as int];
        if is_vm(lab, d) {
            assert(done.take(i).contains(d));
            let j = choose|j: int| 0 <= j < done.take(i).len() && done.take(i)[j] == d;
            assert(done[j] == d);
            assert(done.take(i + 1)[j] == d);
            assert(done.take(i + 1).contains(d));
            assert(!here.contains(d)) by {
                if here.contains(d) {
                    let m = choose|m: int| 0 <= m < here.len() && here[m] == d;
                    if m < path.len() {
                        assert(path[m] == d);
                        assert(path.contains(d));
                    }
                }
            }
            assert(disjoint(here, done.take(j + 1))) by {
                assert forall|n: Seq<char>| #[trigger] here.contains(n) implies !done.take(
                    j + 1,
                ).contains(n) by {
                    if done.take(j + 1).contains(n) {
                        let part = done.take(j + 1);
                        let m = choose|m: int| 0 <= m < part.len() && part[m] == n;
                        assert(done[m] == n);
                        assert(done.take(i + 1)[m] == n);
                        let x = choose|x: int| 0 <= x < here.len() && here[x] == n;
                        if x < path.len() {
                            assert(path[x] == n);
                            assert(path.contains(n));
                        }
                    }
                }
            }
            lemma_done(lab, done, j, here, 0);
        }
        lemma_done(lab, done, i, path, k + 1);
    }
}

proof fn lemma_done_name(lab: LabView, done: Seq<Seq<char>>, path: Seq<Seq<char>>, name: Seq<char>)
    requires
        ranked(lab, done),
        done.contains(name),
        disjoint(path, done),
    ensures
        cycle_from(lab, path.push(name), 0) is None,
        !path.contains(name),
{
    let i = choose|i: int| 0 <= i < done.len() && done[i] == name;
    assert forall|n: Seq<char>| #[trigger] path.contains(n) implies !done.take(i + 1).contains(
        n,
    ) by {
        if done.take(i + 1).contains(n) {
            let part = done.take(i + 1);
            let m = choose|m: int| 0 <= m < part.len() && part[m] == n;
            assert(done[m] == n);
            assert(done.contains(n));
        }
    }
    lemma_done(lab, done, i, path, 0);
}

proof fn lemma_rank_push(lab: LabView, done: Seq<Seq<char>>, name: Seq<char>)
    requires
        ranked(lab, done),
        !done.contains(name),
        forall|k: int|
            0 <= k < deps_of(lab, name).len() && is_vm(lab, #[trigger] deps_of(lab, name)[k])
                ==> done.contains(deps_of(lab, name)[k]),
    ensures
        ranked(lab, done.push(name)),
{
    let more = done.push(name);
    assert forall|i: int, j: int| 0 <= i < j < more.len() implies #[trigger] more[i]
        != #[trigger] more[j] by {
        if j == done.len() {
            if more[i] == name {
                assert(done.contains(name));
            }
        } else {
            assert(done[i] != done[j]);
        }
    }
    assert forall|i: int, k: int|
        0 <= i < more.len() && 0 <= k < deps_of(lab, more[i]).len() && is_vm(
            lab,
            #[trigger] deps_of(lab, more[i])[k],
        ) implies more.take(i).contains(deps_of(lab, more[i])[k]) by {
        if i < done.len() {
            assert(more.take(i) =~= done.take(i));
            assert(more[i] == done[i]);
        } else {
            assert(more.take(i) =~= done);
        }
    }
}

fn place_of(path: &Vec<String>, name: &str) -> (r: usize)
    requires
        path.deep_view().contains(name@),
    ensures
        r == place(path.deep_view(), name@),
        r < path@.len(),
{
    let ghost p = path.deep_view();
    let mut i: usize = 0;
    assert(p.skip(0) =~= p);
    while i < path.len()
        invariant
            i <= path@.len(),
            p == path.deep_view(),
            p.len() == path@.len(),
            place(p, name@) == i + place(p.skip(i as int), name@),
            forall|j: int| 0 <= j < i ==> p[j] != name@,
        decreases path@.len() - i,
    {
        assert(p.skip(i as int).skip(1) =~= p.skip(i + 1));
        assert(p.skip(i as int)[0] == p[i as int]);
        if str_eq(path[i].as_str(), name) {
            return i;
        }
        i = i + 1;
    }
    assert(false);
    0
}

fn tail_with(path: &Vec<String>, from: usize, name: &str) -> (r: Vec<String>)
    requires
        from <= path@.len(),
    ensures
        r.deep_view() == path.deep_view().skip(from as int).push(name@),
{
    let mut out: Vec<String> = Vec::new();
    let mut i: usize = from;
    while i < path.len()
        invariant
            from <= i <= path@.len(),
            out@.len() == i - from,
            forall|j: int| 0 <= j < i - from ==> #[trigger] out@[j]@ == path@[from + j]@,
        decreases path@.len() - i,
    {
        out.push(path[i].clone());
        i = i + 1;
    }
    out.push(name.to_owned());
    assert(out.deep_view() =~= path.deep_view().skip(from as int).push(name@));
    out
}

spec fn simple(path: Seq<Seq<char>>) -> bool {
    forall|i: int, j: int| 0 <= i < j < path.len() ==> #[trigger] path[i] != #[trigger] path[j]
}

spec fn grown(more: Seq<Seq<char>>, done: Seq<Seq<char>>) -> bool {
    forall|n: Seq<char>| #[trigger] done.contains(n) ==> more.contains(n)
}

#[verifier::rlimit(60)]
fn visit(lab: &Lab, path: &mut Vec<String>, done: &mut Vec<String>) -> (r: Option<Vec<String>>)
    requires
        old(path)@.len() > 0,
        is_vm(lab.deep_view(), old(path).deep_view().last()),
        ranked(lab.deep_view(), old(done).deep_view()),
        disjoint(old(path).deep_view(), old(done).deep_view()),
        simple(old(path).deep_view()),
    ensures
        r.deep_view() == cycle_from(lab.deep_view(), old(path).deep_view(), 0),
        r is None ==> {
            &&& final(path).deep_view() == old(path).deep_view()
            &&& ranked(lab.deep_view(), final(done).deep_view())
            &&& final(done).deep_view().contains(old(path).deep_view().last())
            &&& grown(final(done).deep_view(), old(done).deep_view())
            &&& disjoint(old(path).deep_view().drop_last(), final(done).deep_view())
        },
    decreases unvisited(lab.deep_view().vms, old(path).deep_view()),
{
    let ghost l = lab.deep_view();
    let ghost p = path.deep_view();
    let name = path[path.len() - 1].clone();
    assert(name@ == p.last());
    let at = vm_index(lab, name.as_str());
    let at: usize = match at {
        Some(i) => i,
        None => {
            assert(false);
            return None;
        },
    };
    let vm = &lab.vms[at];
    let ghost deps = deps_of(l, p.last());
    assert(deps == vm.depends_on.deep_view());
    let mut k: usize = 0;
    while k < vm.depends_on.len()
        invariant
            k <= vm.depends_on@.len(),
            l == lab.deep_view(),
            p == old(path).deep_view(),
            p.len() > 0,
            deps == deps_of(l, p.last()),
            deps == vm.depends_on.deep_view(),
            deps.len() == vm.depends_on@.len(),
            path.deep_view() == p,
            path@.len() == p.len(),
            ranked(l, done.deep_view()),
            disjoint(p, done.deep_view()),
            simple(p),
            grown(done.deep_view(), old(done).deep_view()),
            cycle_from(l, p, 0) == cycle_from(l, p, k as nat),
            forall|j: int|
                0 <= j < k && is_vm(l, #[trigger] deps[j]) ==> done.deep_view().contains(deps[j]),
        decreases vm.depends_on@.len() - k,
    {
        let dep = vm.depends_on[k].as_str();
        assert(deps[k as int] == dep@);
        let ghost was = done.deep_view();
        match vm_index(lab, dep) {
            None => {},
            Some(_) => {
                if any_string(done, dep) {
                    proof {
                        lemma_done_name(l, was, p, dep@);
                    }
                } else if any_string(path, dep) {
                    let from: usize = place_of(path, dep);
                    return Some(tail_with(path, from, dep));
                } else {
                    proof {
                        lemma_unvisited(l.vms, p, dep@);
                    }
                    path.push(dep.to_owned());
                    assert(path.deep_view() =~= p.push(dep@));
                    assert(disjoint(path.deep_view(), was)) by {
                        assert forall|n: Seq<char>| #[trigger]
                            path.deep_view().contains(n) implies !was.contains(n) by {
                            let m = choose|m: int|
                                0 <= m < path.deep_view().len() && path.deep_view()[m] == n;
                            if m < p.len() {
                                assert(p[m] == n);
                                assert(p.contains(n));
                            }
                        }
                    }
                    assert(simple(path.deep_view())) by {
                        assert forall|i: int, j: int|
                            0 <= i < j < path.deep_view().len() implies #[trigger] path.deep_view()[i]
                            != #[trigger] path.deep_view()[j] by {
                            if j == p.len() {
                                if p[i] == dep@ {
                                    assert(p.contains(dep@));
                                }
                            } else {
                                assert(p[i] != p[j]);
                            }
                        }
                    }
                    match visit(lab, path, done) {
                        Some(c) => return Some(c),
                        None => {},
                    }
                    let ghost full = *path;
                    let _ = path.pop();
                    assert(path.deep_view() =~= full.deep_view().drop_last());
                    assert(path.deep_view() =~= p);
                    assert(p.push(dep@).drop_last() =~= p);
                }
            },
        }
        k = k + 1;
    }
    proof {
        assert(p[p.len() - 1] == name@);
        assert(p.contains(name@));
        lemma_rank_push(l, done.deep_view(), name@);
    }
    let ghost was = done.deep_view();
    done.push(name);
    assert(done.deep_view() =~= was.push(name@));
    proof {
        assert(done.deep_view()[was.len() as int] == name@);
        assert forall|n: Seq<char>| #[trigger] was.contains(n) implies done.deep_view().contains(
            n,
        ) by {
            let m = choose|m: int| 0 <= m < was.len() && was[m] == n;
            assert(done.deep_view()[m] == n);
        }
        assert forall|n: Seq<char>| #[trigger] p.drop_last().contains(
            n,
        ) implies !done.deep_view().contains(n) by {
            let m = choose|m: int| 0 <= m < p.drop_last().len() && p.drop_last()[m] == n;
            assert(p[m] == n && p[m] != p.last());
            assert(p.contains(n));
            if done.deep_view().contains(n) {
                let x = choose|x: int|
                    0 <= x < done.deep_view().len() && done.deep_view()[x] == n;
                assert(was[x] == n);
                assert(was.contains(n));
            }
        }
    }
    None
}

/// Reports the first dependency cycle, if there is one.
pub fn check_dependency_cycles(lab: &Lab, issues: &mut IssueList)
    ensures
        final(issues).deep_view() == old(issues).deep_view() + cycle_issues(lab.deep_view()),
{
    broadcast use lemma_cat_nothing;

    let ghost l = lab.deep_view();
    let mut done: Vec<String> = Vec::new();
    assert(done.deep_view() =~= Seq::empty());
    let mut i: usize = 0;
    while i < lab.vms.len()
        invariant
            i <= lab.vms@.len(),
            l == lab.deep_view(),
            l.vms.len() == lab.vms@.len(),
            ranked(l, done.deep_view()),
            issues.deep_view() == old(issues).deep_view(),
            cycle_issues(l) == cycle_issues_from(l, i as int),
        decreases lab.vms@.len() - i,
    {
        let vm = &lab.vms[i];
        assert(l.vms[i as int] == vm.deep_view());
        assert(is_vm(l, vm.name@));
        let ghost one = seq![vm.name@];
        if any_string(&done, vm.name.as_str()) {
            proof {
                let none = Seq::<Seq<char>>::empty();
                lemma_done_name(l, done.deep_view(), none, vm.name@);
                assert(none.push(vm.name@) =~= one);
            }
        } else {
            let mut path: Vec<String> = Vec::new();
            path.push(vm.name.clone());
            assert(path.deep_view() =~= one);
            match visit(lab, &mut path, &mut done) {
                Some(cycle) => {
                    let shown = join_strings(&cycle, " -> ");
                    note(issues, vm.span, joined("dependency cycle: ", shown.as_str()));
                    return;
                },
                None => {},
            }
        }
        i = i + 1;
    }
}

// -- laws -------------------------------------------------------------------------------------

/// A walk along dependencies that comes back to where it began.
pub open spec fn closed_walk(lab: LabView, c: Seq<Seq<char>>) -> bool {
    &&& c.len() >= 2
    &&& c[0] == c.last()
    &&& walk(lab, c)
}

/// A walk along dependencies, from guest to guest.
pub open spec fn walk(lab: LabView, c: Seq<Seq<char>>) -> bool {
    &&& forall|i: int| 0 <= i < c.len() ==> is_vm(lab, #[trigger] c[i])
    &&& forall|i: int| 0 < i < c.len() ==> deps_of(lab, c[i - 1]).contains(#[trigger] c[i])
}

proof fn lemma_place(path: Seq<Seq<char>>, name: Seq<char>)
    requires
        path.contains(name),
    ensures
        0 <= place(path, name) < path.len(),
        path[place(path, name)] == name,
    decreases path.len(),
{
    if path[0] != name {
        let t = path.skip(1);
        let i = choose|i: int| 0 <= i < path.len() && path[i] == name;
        assert(t[i - 1] == name);
        lemma_place(t, name);
    }
}

proof fn lemma_found(lab: LabView, path: Seq<Seq<char>>, k: nat)
    requires
        path.len() > 0,
        walk(lab, path),
        cycle_from(lab, path, k) is Some,
    ensures
        closed_walk(lab, cycle_from(lab, path, k)->0),
    decreases unvisited(lab.vms, path), deps_of(lab, path.last()).len() - k,
{
    let deps = deps_of(lab, path.last());
    let d = deps[k as int];
    if !is_vm(lab, d) {
        lemma_found(lab, path, k + 1);
    } else {
        assert(deps.contains(d));
        if path.contains(d) {
            lemma_place(path, d);
            let at = place(path, d);
            let c = path.skip(at).push(d);
            assert forall|i: int| 0 <= i < c.len() implies is_vm(lab, #[trigger] c[i]) by {
                if i < path.len() - at {
                    assert(c[i] == path[at + i]);
                }
            }
            assert forall|i: int| 0 < i < c.len() implies deps_of(lab, c[i - 1]).contains(
                #[trigger] c[i],
            ) by {
                if i < path.len() - at {
                    assert(c[i] == path[at + i]);
                    assert(c[i - 1] == path[at + i - 1]);
                } else {
                    assert(c[i - 1] == path.last());
                }
            }
        } else {
            lemma_unvisited(lab.vms, path, d);
            let more = path.push(d);
            assert(walk(lab, more)) by {
                assert forall|i: int| 0 <= i < more.len() implies is_vm(lab, #[trigger] more[i]) by {
                    if i < path.len() {
                        assert(more[i] == path[i]);
                    }
                }
                assert forall|i: int| 0 < i < more.len() implies deps_of(
                    lab,
                    more[i - 1],
                ).contains(#[trigger] more[i]) by {
                    if i < path.len() {
                        assert(more[i] == path[i]);
                        assert(more[i - 1] == path[i - 1]);
                    }
                }
            }
            if cycle_from(lab, more, 0) is Some {
                lemma_found(lab, more, 0);
            } else {
                lemma_found(lab, path, k + 1);
            }
        }
    }
}

proof fn lemma_nothing_behind(lab: LabView, path: Seq<Seq<char>>, k: nat, j: int)
    requires
        cycle_from(lab, path, k) is None,
        k <= j < deps_of(lab, path.last()).len(),
        is_vm(lab, deps_of(lab, path.last())[j]),
    ensures
        !path.contains(deps_of(lab, path.last())[j]),
        cycle_from(lab, path.push(deps_of(lab, path.last())[j]), 0) is None,
    decreases j - k,
{
    if k < j {
        lemma_nothing_behind(lab, path, k + 1, j);
    }
}

proof fn lemma_no_closed_walk(lab: LabView, c: Seq<Seq<char>>, n: int)
    requires
        walk(lab, c),
        0 < n <= c.len(),
        cycle_of(lab, c[0]) is None,
    ensures
        cycle_from(lab, c.take(n), 0) is None,
        forall|i: int| 0 < i < n ==> #[trigger] c[i] != c[0],
    decreases n,
{
    if n == 1 {
        assert(c.take(1) =~= seq![c[0]]);
    } else {
        lemma_no_closed_walk(lab, c, n - 1);
        let path = c.take(n - 1);
        assert(path.last() == c[n - 2]);
        let deps = deps_of(lab, c[n - 2]);
        assert(deps.contains(c[n - 1]));
        let j = choose|j: int| 0 <= j < deps.len() && deps[j] == c[n - 1];
        lemma_nothing_behind(lab, path, 0, j);
        assert(path.push(c[n - 1]) =~= c.take(n));
        assert(path[0] == c[0]);
        assert(path.contains(c[0]));
    }
}

proof fn lemma_reported(lab: LabView, i: int, j: int)
    requires
        0 <= i <= j < lab.vms.len(),
        cycle_of(lab, lab.vms[j].name) is Some,
    ensures
        cycle_issues_from(lab, i).len() == 1,
    decreases j - i,
{
    if cycle_of(lab, lab.vms[i].name) is None {
        lemma_reported(lab, i + 1, j);
    }
}

proof fn lemma_report_is_real(lab: LabView, i: int)
    requires
        0 <= i <= lab.vms.len(),
        cycle_issues_from(lab, i) != no_issues(),
    ensures
        exists|j: int, c: Seq<Seq<char>>|
            i <= j < lab.vms.len() && cycle_of(lab, #[trigger] lab.vms[j].name) == Some(c)
                && #[trigger] closed_walk(lab, c) && cycle_issues_from(lab, i) == one_issue(
                lab.vms[j].span,
                "dependency cycle: "@ + join(c, " -> "@),
            ),
    decreases lab.vms.len() - i,
{
    if i < lab.vms.len() {
        let name = lab.vms[i].name;
        match cycle_of(lab, name) {
            Some(c) => {
                assert(is_vm(lab, name));
                lemma_found(lab, seq![name], 0);
                assert(closed_walk(lab, c));
            },
            None => {
                lemma_report_is_real(lab, i + 1);
            },
        }
    }
}

/// A cycle is reported exactly when there is one: some guest depends, through
/// others or directly, on itself.
pub proof fn cycle_reported_iff_cyclic(lab: LabView)
    ensures
        cycle_issues(lab) == no_issues() <==> !exists|c: Seq<Seq<char>>| closed_walk(lab, c),
{
    if exists|c: Seq<Seq<char>>| closed_walk(lab, c) {
        let c = choose|c: Seq<Seq<char>>| closed_walk(lab, c);
        if cycle_of(lab, c[0]) is None {
            lemma_no_closed_walk(lab, c, c.len() as int);
            assert(c[c.len() - 1] == c[0]);
        }
        assert(is_vm(lab, c[0]));
        let j = choose|j: int| 0 <= j < lab.vms.len() && #[trigger] lab.vms[j].name == c[0];
        lemma_reported(lab, 0, j);
    }
    if cycle_issues(lab) != no_issues() {
        lemma_report_is_real(lab, 0);
    }
}

/// The cycle that is reported is one: a walk along dependencies back to where
/// it began.
pub proof fn reported_cycle_is_real(lab: LabView)
    requires
        cycle_issues(lab) != no_issues(),
    ensures
        exists|j: int, c: Seq<Seq<char>>|
            0 <= j < lab.vms.len() && cycle_of(lab, #[trigger] lab.vms[j].name) == Some(c)
                && #[trigger] closed_walk(lab, c) && cycle_issues(lab) == one_issue(
                lab.vms[j].span,
                "dependency cycle: "@ + join(c, " -> "@),
            ),
{
    lemma_report_is_real(lab, 0);
}

} // verus!
