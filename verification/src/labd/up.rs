//! The order in which a lab comes up: guests in waves along their
//! dependencies, provisions in between.

use vstd::prelude::*;

use crate::config::cycles::{
    closed_walk, cycle_reported_iff_cyclic, deps_of, find_vm, is_vm, lemma_unvisited, unvisited, vm_index, walk,
};
use crate::config::issue::no_issues;
use crate::config::model::{Lab, LabFileView, LabView, ProvisionView};
use crate::config::sound::clean_lab_has_sound_references;
use crate::config::validate::{validation, CatalogueView, FactsView};
use crate::text::{any_string, cat5, copy_strings, join, join_strings, joined, str_eq};

verus! {

/// What is said of a guest that the lab does not have.
pub open spec fn no_such_vm(lab: Seq<char>, vm: Seq<char>) -> Seq<char> {
    "no vm \""@ + vm + "\" in lab \""@ + lab + "\""@
}

/// The index of a guest.
pub fn find(lab: &Lab, name: &str) -> (r: Result<usize, String>)
    ensures
        r is Ok <==> is_vm(lab.deep_view(), name@),
        r matches Ok(i) ==> i < lab.vms@.len() && find_vm(lab.deep_view().vms, name@) == Some(
            lab.vms@[i as int].deep_view(),
        ),
        r matches Err(e) ==> e@ == no_such_vm(lab.name@, name@),
{
    match vm_index(lab, name) {
        Some(i) => Ok(i),
        None => Err(cat5("no vm \"", name, "\" in lab \"", lab.name.as_str(), "\"")),
    }
}

// -- targets ------------------------------------------------------------------------------

/// Whether a walk along dependencies leads from one of `from` to a name.
pub open spec fn leads_to(lab: LabView, from: Seq<Seq<char>>, w: Seq<Seq<char>>, name: Seq<char>) -> bool {
    &&& w.len() > 0
    &&& from.contains(w[0])
    &&& w.last() == name
    &&& forall|i: int| 0 < i < w.len() ==> deps_of(lab, w[i - 1]).contains(#[trigger] w[i])
}

/// Whether a name is one of `from`, or one of them depends on it, directly or
/// through others.
pub open spec fn is_needed(lab: LabView, from: Seq<Seq<char>>, name: Seq<char>) -> bool {
    exists|w: Seq<Seq<char>>| leads_to(lab, from, w, name)
}

/// The names of the guests that are needed, in declaration order.
pub open spec fn needed_names(lab: LabView, from: Seq<Seq<char>>, n: int) -> Seq<Seq<char>>
    decreases n,
{
    if n <= 0 {
        Seq::empty()
    } else {
        let front = needed_names(lab, from, n - 1);
        if is_needed(lab, from, lab.vms[n - 1].name) {
            front.push(lab.vms[n - 1].name)
        } else {
            front
        }
    }
}

/// The names of the lab's guests.
pub open spec fn vm_names(lab: LabView) -> Seq<Seq<char>> {
    Seq::new(lab.vms.len(), |i: int| lab.vms[i].name)
}

/// What `up` starts: every guest, or those asked for with all that they depend
/// on.
pub open spec fn targets_of(lab: LabView, subset: Seq<Seq<char>>) -> Seq<Seq<char>> {
    if subset.len() == 0 {
        vm_names(lab)
    } else {
        needed_names(lab, subset, lab.vms.len() as int)
    }
}

/// The first name of `subset` that the lab does not have.
pub open spec fn first_unknown(lab: LabView, subset: Seq<Seq<char>>) -> Option<Seq<char>>
    decreases subset.len(),
{
    if subset.len() == 0 {
        None
    } else if !is_vm(lab, subset[0]) {
        Some(subset[0])
    } else {
        first_unknown(lab, subset.skip(1))
    }
}

spec fn covers(wanted: Seq<Seq<char>>, stack: Seq<Seq<char>>, name: Seq<char>) -> bool {
    wanted.contains(name) || stack.contains(name)
}

proof fn lemma_extend(lab: LabView, from: Seq<Seq<char>>, name: Seq<char>, dep: Seq<char>)
    requires
        is_needed(lab, from, name),
        deps_of(lab, name).contains(dep),
    ensures
        is_needed(lab, from, dep),
{
    let w = choose|w: Seq<Seq<char>>| leads_to(lab, from, w, name);
    let v = w.push(dep);
    assert(leads_to(lab, from, v, dep)) by {
        assert forall|i: int| 0 < i < v.len() implies deps_of(lab, v[i - 1]).contains(
            #[trigger] v[i],
        ) by {
            if i < w.len() {
                assert(v[i] == w[i] && v[i - 1] == w[i - 1]);
            } else {
                assert(v[i - 1] == w.last());
            }
        }
    }
}

proof fn lemma_closed_under(
    lab: LabView,
    from: Seq<Seq<char>>,
    wanted: Seq<Seq<char>>,
    w: Seq<Seq<char>>,
    n: int,
)
    requires
        forall|x: Seq<char>| #[trigger] from.contains(x) ==> wanted.contains(x),
        forall|x: Seq<char>, d: Seq<char>| #[trigger]
            wanted.contains(x) && #[trigger] deps_of(lab, x).contains(d) ==> wanted.contains(d),
        leads_to(lab, from, w, w.last()),
        0 < n <= w.len(),
    ensures
        wanted.contains(w[n - 1]),
    decreases n,
{
    if n > 1 {
        lemma_closed_under(lab, from, wanted, w, n - 1);
        assert(deps_of(lab, w[n - 2]).contains(w[n - 1]));
    }
}

proof fn lemma_push_contains(s: Seq<Seq<char>>, x: Seq<char>)
    ensures
        forall|y: Seq<char>| #[trigger] s.push(x).contains(y) <==> s.contains(y) || y == x,
{
    let t = s.push(x);
    assert forall|y: Seq<char>| #[trigger] t.contains(y) <==> s.contains(y) || y == x by {
        if t.contains(y) {
            let i = choose|i: int| 0 <= i < t.len() && t[i] == y;
            if i < s.len() {
                assert(s[i] == y);
            }
        }
        if s.contains(y) {
            let i = choose|i: int| 0 <= i < s.len() && s[i] == y;
            assert(t[i] == y);
        }
        if y == x {
            assert(t[s.len() as int] == y);
        }
    }
}

proof fn lemma_drop_last_contains(s: Seq<Seq<char>>)
    requires
        s.len() > 0,
    ensures
        forall|y: Seq<char>| #[trigger] s.contains(y) ==> s.drop_last().contains(y) || y
            == s.last(),
        forall|y: Seq<char>| #[trigger] s.drop_last().contains(y) ==> s.contains(y),
{
    assert forall|y: Seq<char>| #[trigger] s.contains(y) implies s.drop_last().contains(y) || y
        == s.last() by {
        let i = choose|i: int| 0 <= i < s.len() && s[i] == y;
        if i < s.len() - 1 {
            assert(s.drop_last()[i] == y);
        }
    }
    assert forall|y: Seq<char>| #[trigger] s.drop_last().contains(y) implies s.contains(y) by {
        let i = choose|i: int| 0 <= i < s.drop_last().len() && s.drop_last()[i] == y;
        assert(s[i] == y);
    }
}

fn push_all(stack: &mut Vec<String>, deps: &Vec<String>)
    ensures
        final(stack).deep_view() == old(stack).deep_view() + deps.deep_view(),
{
    let mut i: usize = 0;
    assert(deps.deep_view().take(0) =~= Seq::empty());
    assert(stack.deep_view() + deps.deep_view().take(0) =~= stack.deep_view());
    while i < deps.len()
        invariant
            i <= deps@.len(),
            stack.deep_view() == old(stack).deep_view() + deps.deep_view().take(i as int),
        decreases deps@.len() - i,
    {
        let ghost was = stack.deep_view();
        stack.push(deps[i].clone());
        assert(stack.deep_view() =~= was.push(deps@[i as int]@));
        assert(was.push(deps@[i as int]@) =~= old(stack).deep_view() + deps.deep_view().take(
            i + 1,
        ));
        i = i + 1;
    }
    assert(deps.deep_view().take(i as int) =~= deps.deep_view());
}

proof fn lemma_add_contains(s: Seq<Seq<char>>, t: Seq<Seq<char>>)
    ensures
        forall|y: Seq<char>| #[trigger] (s + t).contains(y) <==> s.contains(y) || t.contains(y),
{
    let u = s + t;
    assert forall|y: Seq<char>| #[trigger] u.contains(y) <==> s.contains(y) || t.contains(y) by {
        if u.contains(y) {
            let i = choose|i: int| 0 <= i < u.len() && u[i] == y;
            if i < s.len() {
                assert(s[i] == y);
            } else {
                assert(t[i - s.len()] == y);
            }
        }
        if s.contains(y) {
            let i = choose|i: int| 0 <= i < s.len() && s[i] == y;
            assert(u[i] == y);
        }
        if t.contains(y) {
            let i = choose|i: int| 0 <= i < t.len() && t[i] == y;
            assert(u[s.len() + i] == y);
        }
    }
}

/// All names that the guests of `subset` need.
#[verifier::rlimit(60)]
fn closure(lab: &Lab, subset: &Vec<String>) -> (r: Vec<String>)
    ensures
        forall|n: Seq<char>| #[trigger]
            r.deep_view().contains(n) <==> is_needed(lab.deep_view(), subset.deep_view(), n),
{
    let ghost l = lab.deep_view();
    let ghost from = subset.deep_view();
    let mut wanted: Vec<String> = Vec::new();
    let mut stack: Vec<String> = copy_strings(subset);
    assert(wanted.deep_view() =~= Seq::empty());
    proof {
        assert forall|n: Seq<char>| from.contains(n) implies #[trigger] is_needed(l, from, n) by {
            assert(leads_to(l, from, seq![n], n));
        }
    }
    while stack.len() > 0
        invariant
            l == lab.deep_view(),
            from == subset.deep_view(),
            forall|n: Seq<char>| #[trigger]
                wanted.deep_view().contains(n) ==> is_needed(l, from, n),
            forall|n: Seq<char>| #[trigger]
                stack.deep_view().contains(n) ==> is_needed(l, from, n),
            forall|n: Seq<char>| #[trigger]
                from.contains(n) ==> covers(wanted.deep_view(), stack.deep_view(), n),
            forall|n: Seq<char>, d: Seq<char>| #[trigger]
                wanted.deep_view().contains(n) && #[trigger] deps_of(l, n).contains(d) ==> covers(
                    wanted.deep_view(),
                    stack.deep_view(),
                    d,
                ),
        ensures
            stack@.len() == 0,
        decreases unvisited(l.vms, wanted.deep_view()), stack@.len(),
    {
        let ghost was = stack.deep_view();
        let ghost had = wanted.deep_view();
        let n = match stack.pop() {
            Some(n) => n,
            None => break,
        };
        proof {
            assert(stack.deep_view() =~= was.drop_last());
            assert(was.last() == n@);
            lemma_drop_last_contains(was);
            assert(was[was.len() - 1] == n@);
            assert(was.contains(n@));
        }
        if !any_string(&wanted, n.as_str()) {
            proof {
                lemma_unvisited(l.vms, had, n@);
                lemma_push_contains(had, n@);
            }
            let ghost text = n@;
            match vm_index(lab, n.as_str()) {
                Some(i) => {
                    let ghost left = stack.deep_view();
                    push_all(&mut stack, &lab.vms[i].depends_on);
                    proof {
                        assert(deps_of(l, text) == lab.vms@[i as int].depends_on.deep_view());
                        lemma_add_contains(left, deps_of(l, text));
                        assert forall|d: Seq<char>| deps_of(l, text).contains(d) implies #[trigger]
                            is_needed(l, from, d) by {
                            lemma_extend(l, from, text, d);
                        }
                    }
                },
                None => {
                    assert(deps_of(l, text) =~= Seq::empty());
                },
            }
            wanted.push(n);
            assert(wanted.deep_view() =~= had.push(text));
        }
    }
    proof {
        let done = wanted.deep_view();
        assert(stack.deep_view().len() == 0);
        assert forall|n: Seq<char>| is_needed(l, from, n) implies #[trigger] done.contains(n) by {
            let w = choose|w: Seq<Seq<char>>| leads_to(l, from, w, n);
            assert forall|x: Seq<char>| #[trigger] from.contains(x) implies done.contains(x) by {
                assert(covers(done, stack.deep_view(), x));
            }
            assert forall|x: Seq<char>, d: Seq<char>| #[trigger]
                done.contains(x) && #[trigger] deps_of(l, x).contains(d) implies done.contains(
                d,
            ) by {
                assert(covers(done, stack.deep_view(), d));
            }
            lemma_closed_under(l, from, done, w, w.len() as int);
        }
    }
    wanted
}

/// What `up` starts: every guest, or those asked for with all that they depend
/// on.
pub fn targets(lab: &Lab, subset: &Vec<String>) -> (r: Result<Vec<String>, String>)
    ensures
        r is Ok <==> first_unknown(lab.deep_view(), subset.deep_view()) is None,
        r matches Ok(t) ==> t.deep_view() == targets_of(lab.deep_view(), subset.deep_view()),
        r matches Err(e) ==> e@ == no_such_vm(
            lab.name@,
            first_unknown(lab.deep_view(), subset.deep_view())->0,
        ),
{
    let ghost l = lab.deep_view();
    let ghost from = subset.deep_view();
    let mut i: usize = 0;
    assert(from.skip(0) =~= from);
    while i < subset.len()
        invariant
            i <= subset@.len(),
            l == lab.deep_view(),
            from == subset.deep_view(),
            from.len() == subset@.len(),
            first_unknown(l, from.skip(i as int)) == first_unknown(l, from),
        decreases subset@.len() - i,
    {
        assert(from.skip(i as int).skip(1) =~= from.skip(i + 1));
        assert(from.skip(i as int)[0] == subset@[i as int]@);
        if let Err(e) = find(lab, subset[i].as_str()) {
            return Err(e);
        }
        i = i + 1;
    }
    let all = subset.len() == 0;
    let wanted = closure(lab, subset);
    let mut out: Vec<String> = Vec::new();
    assert(out.deep_view() =~= Seq::empty());
    let mut k: usize = 0;
    while k < lab.vms.len()
        invariant
            k <= lab.vms@.len(),
            l == lab.deep_view(),
            l.vms.len() == lab.vms@.len(),
            from == subset.deep_view(),
            all == (from.len() == 0),
            forall|n: Seq<char>| #[trigger]
                wanted.deep_view().contains(n) <==> is_needed(l, from, n),
            all ==> out.deep_view() == vm_names(l).take(k as int),
            !all ==> out.deep_view() == needed_names(l, from, k as int),
        decreases lab.vms@.len() - k,
    {
        let name = lab.vms[k].name.as_str();
        assert(l.vms[k as int] == lab.vms@[k as int].deep_view());
        let ghost was = out.deep_view();
        if all || any_string(&wanted, name) {
            out.push(name.to_owned());
            assert(out.deep_view() =~= was.push(name@));
            assert(vm_names(l).take(k as int).push(name@) =~= vm_names(l).take(k + 1));
        }
        k = k + 1;
    }
    assert(vm_names(l).take(k as int) =~= vm_names(l));
    Ok(out)
}

/// Whether a guest can start: all that it depends on, of what is to start, has
/// started.
pub open spec fn can_start(
    lab: LabView,
    targets: Seq<Seq<char>>,
    done: Seq<Seq<char>>,
    name: Seq<char>,
) -> bool {
    forall|k: int|
        0 <= k < deps_of(lab, name).len() ==> done.contains(#[trigger] deps_of(lab, name)[k])
            || !targets.contains(deps_of(lab, name)[k])
}

/// The guests that can start now.
pub open spec fn wave_of(
    lab: LabView,
    targets: Seq<Seq<char>>,
    done: Seq<Seq<char>>,
    remaining: Seq<Seq<char>>,
) -> Seq<Seq<char>>
    decreases remaining.len(),
{
    if remaining.len() == 0 {
        Seq::empty()
    } else {
        let front = wave_of(lab, targets, done, remaining.drop_last());
        if can_start(lab, targets, done, remaining.last()) {
            front.push(remaining.last())
        } else {
            front
        }
    }
}

/// `s` without `x`.
pub open spec fn without(s: Seq<Seq<char>>, x: Seq<char>) -> Seq<Seq<char>>
    decreases s.len(),
{
    if s.len() == 0 {
        Seq::empty()
    } else {
        let front = without(s.drop_last(), x);
        if s.last() == x {
            front
        } else {
            front.push(s.last())
        }
    }
}

/// Whether something later depends on a guest.
pub open spec fn has_dependents(lab: LabView, name: Seq<char>) -> bool {
    exists|i: int| 0 <= i < lab.vms.len() && (#[trigger] lab.vms[i]).depends_on.contains(name)
}

/// Whether a provision can run.
pub open spec fn can_run(p: ProvisionView, started: Seq<Seq<char>>, final_pass: bool) -> bool {
    if p.vms.len() == 0 {
        final_pass
    } else {
        forall|k: int| 0 <= k < p.vms.len() ==> started.contains(#[trigger] p.vms[k])
    }
}

/// How far `up` has come.
#[derive(Debug)]
pub struct UpProgress {
    pub targets: Vec<String>,
    pub remaining: Vec<String>,
    pub done: Vec<String>,
    pub next_provision: usize,
}

/// Whether something later depends on a guest (its readiness is then waited
/// for).
pub fn is_depended_on(lab: &Lab, name: &str) -> (r: bool)
    ensures
        r == has_dependents(lab.deep_view(), name@),
{
    let ghost l = lab.deep_view();
    let mut i: usize = 0;
    while i < lab.vms.len()
        invariant
            i <= lab.vms@.len(),
            l == lab.deep_view(),
            l.vms.len() == lab.vms@.len(),
            forall|j: int| 0 <= j < i ==> !(#[trigger] l.vms[j]).depends_on.contains(name@),
        decreases lab.vms@.len() - i,
    {
        assert(l.vms[i as int] == lab.vms@[i as int].deep_view());
        if any_string(&lab.vms[i].depends_on, name) {
            assert(l.vms[i as int].depends_on.contains(name@));
            return true;
        }
        i = i + 1;
    }
    false
}

impl UpProgress {
    /// Nothing has started yet.
    pub fn begin(targets: Vec<String>) -> (r: UpProgress)
        ensures
            r.targets.deep_view() == targets.deep_view(),
            r.remaining.deep_view() == targets.deep_view(),
            r.done.deep_view() == Seq::<Seq<char>>::empty(),
            r.next_provision == 0,
    {
        let remaining = copy_strings(&targets);
        let done: Vec<String> = Vec::new();
        assert(done.deep_view() =~= Seq::<Seq<char>>::empty());
        UpProgress { targets, remaining, done, next_provision: 0 }
    }

    fn ready(&self, lab: &Lab, name: &str) -> (r: bool)
        ensures
            r == can_start(
                lab.deep_view(),
                self.targets.deep_view(),
                self.done.deep_view(),
                name@,
            ),
    {
        let i: usize = match vm_index(lab, name) {
            Some(i) => i,
            None => return true,
        };
        let ghost deps = deps_of(lab.deep_view(), name@);
        let d = &lab.vms[i].depends_on;
        assert(deps == d.deep_view());
        let mut k: usize = 0;
        while k < d.len()
            invariant
                k <= d@.len(),
                deps == deps_of(lab.deep_view(), name@),
                deps == d.deep_view(),
                deps.len() == d@.len(),
                forall|j: int|
                    0 <= j < k ==> self.done.deep_view().contains(#[trigger] deps[j])
                        || !self.targets.deep_view().contains(deps[j]),
            decreases d@.len() - k,
        {
            assert(deps[k as int] == d@[k as int]@);
            if !any_string(&self.done, d[k].as_str()) && any_string(
                &self.targets,
                d[k].as_str(),
            ) {
                return false;
            }
            k = k + 1;
        }
        true
    }

    /// The guests that can start now; an error when some remain and none can.
    pub fn next_wave(&self, lab: &Lab) -> (r: Result<Vec<String>, String>)
        ensures
            ({
                let w = wave_of(
                    lab.deep_view(),
                    self.targets.deep_view(),
                    self.done.deep_view(),
                    self.remaining.deep_view(),
                );
                &&& r is Ok <==> self.remaining@.len() == 0 || w.len() > 0
                &&& r matches Ok(names) ==> names.deep_view() == w
                &&& r matches Err(e) ==> e@ == "dependency deadlock among: "@ + join(
                    self.remaining.deep_view(),
                    ", "@,
                )
            }),
    {
        let mut out: Vec<String> = Vec::new();
        assert(out.deep_view() =~= Seq::empty());
        let ghost all = self.remaining.deep_view();
        let mut i: usize = 0;
        assert(all.take(0) =~= Seq::empty());
        while i < self.remaining.len()
            invariant
                i <= self.remaining@.len(),
                all == self.remaining.deep_view(),
                all.len() == self.remaining@.len(),
                out.deep_view() == wave_of(
                    lab.deep_view(),
                    self.targets.deep_view(),
                    self.done.deep_view(),
                    all.take(i as int),
                ),
            decreases self.remaining@.len() - i,
        {
            proof {
                let t = all.take(i as int + 1);
                assert(t.drop_last() =~= all.take(i as int));
                assert(t.last() == self.remaining@[i as int]@);
            }
            let name = self.remaining[i].as_str();
            if self.ready(lab, name) {
                let ghost was = out.deep_view();
                out.push(name.to_owned());
                assert(out.deep_view() =~= was.push(name@));
            }
            i = i + 1;
        }
        assert(all.take(i as int) =~= all);
        assert(out.deep_view().len() == out@.len());
        if self.remaining.len() > 0 && out.len() == 0 {
            let names = join_strings(&self.remaining, ", ");
            return Err(joined("dependency deadlock among: ", names.as_str()));
        }
        Ok(out)
    }

    /// A guest of the wave has started.
    pub fn started(&mut self, name: &str)
        ensures
            final(self).targets == old(self).targets,
            final(self).done.deep_view() == old(self).done.deep_view().push(name@),
            final(self).remaining.deep_view() == without(
                old(self).remaining.deep_view(),
                name@,
            ),
            final(self).next_provision == old(self).next_provision,
    {
        let ghost was = self.done.deep_view();
        self.done.push(name.to_owned());
        assert(self.done.deep_view() =~= was.push(name@));
        let mut out: Vec<String> = Vec::new();
        assert(out.deep_view() =~= Seq::empty());
        let ghost all = self.remaining.deep_view();
        let mut i: usize = 0;
        assert(all.take(0) =~= Seq::empty());
        while i < self.remaining.len()
            invariant
                i <= self.remaining@.len(),
                all == self.remaining.deep_view(),
                all.len() == self.remaining@.len(),
                out.deep_view() == without(all.take(i as int), name@),
            decreases self.remaining@.len() - i,
        {
            proof {
                let t = all.take(i as int + 1);
                assert(t.drop_last() =~= all.take(i as int));
                assert(t.last() == self.remaining@[i as int]@);
            }
            if !str_eq(self.remaining[i].as_str(), name) {
                let ghost had = out.deep_view();
                out.push(self.remaining[i].clone());
                assert(out.deep_view() =~= had.push(self.remaining@[i as int]@));
            }
            i = i + 1;
        }
        assert(all.take(i as int) =~= all);
        self.remaining = out;
    }

    /// The provision that runs next, in strict declaration order: a scoped one
    /// once all its guests are started, an unscoped one only in the final
    /// pass. `None` when the next one has to wait or there is none.
    pub fn next_script(&self, lab: &Lab, final_pass: bool) -> (r: Option<usize>)
        ensures
            r == (if self.next_provision < lab.provisions@.len() && can_run(
                lab.deep_view().provisions[self.next_provision as int],
                self.done.deep_view(),
                final_pass,
            ) {
                Some(self.next_provision)
            } else {
                None
            }),
    {
        if self.next_provision >= lab.provisions.len() {
            return None;
        }
        let p = &lab.provisions[self.next_provision];
        let ghost view = lab.deep_view().provisions[self.next_provision as int];
        assert(view == p.deep_view());
        if p.vms.len() == 0 {
            return if final_pass {
                Some(self.next_provision)
            } else {
                None
            };
        }
        let mut k: usize = 0;
        while k < p.vms.len()
            invariant
                k <= p.vms@.len(),
                view == p.deep_view(),
                view.vms.len() == p.vms@.len(),
                view.vms.len() > 0,
                self.next_provision < lab.provisions@.len(),
                view == lab.deep_view().provisions[self.next_provision as int],
                forall|j: int|
                    0 <= j < k ==> self.done.deep_view().contains(#[trigger] view.vms[j]),
            decreases p.vms@.len() - k,
        {
            assert(view.vms[k as int] == p.vms@[k as int]@);
            if !any_string(&self.done, p.vms[k].as_str()) {
                return None;
            }
            k = k + 1;
        }
        Some(self.next_provision)
    }

    /// The provision has run.
    pub fn script_done(&mut self)
        requires
            old(self).next_provision < usize::MAX,
        ensures
            *final(self) == (UpProgress {
                next_provision: (old(self).next_provision + 1) as usize,
                ..*old(self)
            }),
    {
        self.next_provision = self.next_provision + 1;
    }
}

// -- laws ---------------------------------------------------------------------------------------

proof fn lemma_wave(
    lab: LabView,
    targets: Seq<Seq<char>>,
    done: Seq<Seq<char>>,
    remaining: Seq<Seq<char>>,
    name: Seq<char>,
)
    ensures
        wave_of(lab, targets, done, remaining).contains(name) <==> remaining.contains(name)
            && can_start(lab, targets, done, name),
    decreases remaining.len(),
{
    if remaining.len() > 0 {
        lemma_wave(lab, targets, done, remaining.drop_last(), name);
        let front = wave_of(lab, targets, done, remaining.drop_last());
        lemma_push_contains(front, remaining.last());
        lemma_drop_last_contains(remaining);
        assert(remaining[remaining.len() - 1] == remaining.last());
    }
}

/// A guest starts only when all that it depends on has started, of what is to
/// start.
pub proof fn dependencies_start_first(
    lab: LabView,
    targets: Seq<Seq<char>>,
    done: Seq<Seq<char>>,
    remaining: Seq<Seq<char>>,
    name: Seq<char>,
    dep: Seq<char>,
)
    requires
        wave_of(lab, targets, done, remaining).contains(name),
        deps_of(lab, name).contains(dep),
        targets.contains(dep),
    ensures
        done.contains(dep),
{
    lemma_wave(lab, targets, done, remaining, name);
    let k = choose|k: int| 0 <= k < deps_of(lab, name).len() && deps_of(lab, name)[k] == dep;
    assert(done.contains(deps_of(lab, name)[k]) || !targets.contains(deps_of(lab, name)[k]));
}

proof fn lemma_stuck(
    lab: LabView,
    targets: Seq<Seq<char>>,
    done: Seq<Seq<char>>,
    remaining: Seq<Seq<char>>,
    path: Seq<Seq<char>>,
)
    requires
        path.len() > 0,
        walk(lab, path),
        remaining.contains(path.last()),
        forall|n: Seq<char>| #[trigger] targets.contains(n) ==> is_vm(lab, n) && (done.contains(n)
            || remaining.contains(n)),
        forall|n: Seq<char>| #[trigger]
            remaining.contains(n) ==> !can_start(lab, targets, done, n),
    ensures
        exists|c: Seq<Seq<char>>| closed_walk(lab, c),
    decreases unvisited(lab.vms, path),
{
    let here = path.last();
    let deps = deps_of(lab, here);
    let k = choose|k: int|
        0 <= k < deps.len() && !(done.contains(#[trigger] deps[k]) || !targets.contains(deps[k]));
    let d = deps[k];
    assert(deps.contains(d));
    if path.contains(d) {
        let at = choose|at: int| 0 <= at < path.len() && path[at] == d;
        let c = path.skip(at).push(d);
        assert(closed_walk(lab, c)) by {
            assert(c[0] == d);
            assert forall|i: int| 0 <= i < c.len() implies is_vm(lab, #[trigger] c[i]) by {
                if i < path.len() - at {
                    assert(c[i] == path[at + i]);
                }
            }
            assert forall|i: int| 0 < i < c.len() implies deps_of(lab, c[i - 1]).contains(
                #[trigger] c[i],
            ) by {
                if i < path.len() - at {
                    assert(c[i] == path[at + i]);
                    assert(c[i - 1] == path[at + i - 1]);
                } else {
                    assert(c[i - 1] == here);
                }
            }
        }
    } else {
        let more = path.push(d);
        assert(is_vm(lab, d));
        lemma_unvisited(lab.vms, path, d);
        assert(walk(lab, more)) by {
            assert forall|i: int| 0 <= i < more.len() implies is_vm(lab, #[trigger] more[i]) by {
                if i < path.len() {
                    assert(more[i] == path[i]);
                }
            }
            assert forall|i: int| 0 < i < more.len() implies deps_of(lab, more[i - 1]).contains(
                #[trigger] more[i],
            ) by {
                if i < path.len() {
                    assert(more[i] == path[i]);
                    assert(more[i - 1] == path[i - 1]);
                }
            }
        }
        lemma_stuck(lab, targets, done, remaining, more);
    }
}

/// In a lab whose dependencies have no cycle, `up` never deadlocks: as long as
/// guests remain, one of them can start.
pub proof fn acyclic_lab_never_deadlocks(
    lab: LabView,
    targets: Seq<Seq<char>>,
    done: Seq<Seq<char>>,
    remaining: Seq<Seq<char>>,
)
    requires
        forall|c: Seq<Seq<char>>| !closed_walk(lab, c),
        remaining.len() > 0,
        forall|n: Seq<char>| #[trigger] targets.contains(n) ==> is_vm(lab, n) && (done.contains(n)
            || remaining.contains(n)),
        forall|n: Seq<char>| #[trigger] remaining.contains(n) ==> is_vm(lab, n),
    ensures
        wave_of(lab, targets, done, remaining).len() > 0,
{
    if wave_of(lab, targets, done, remaining).len() == 0 {
        assert forall|n: Seq<char>| #[trigger] remaining.contains(n) implies !can_start(
            lab,
            targets,
            done,
            n,
        ) by {
            lemma_wave(lab, targets, done, remaining, n);
        }
        assert(remaining.contains(remaining[0]));
        lemma_stuck(lab, targets, done, remaining, seq![remaining[0]]);
    }
}

/// A lab that validates never deadlocks when it comes up.
pub proof fn clean_lab_never_deadlocks(
    f: LabFileView,
    facts: FactsView,
    cat: CatalogueView,
    targets: Seq<Seq<char>>,
    done: Seq<Seq<char>>,
    remaining: Seq<Seq<char>>,
)
    requires
        validation(f, facts, cat) == no_issues(),
        remaining.len() > 0,
        forall|n: Seq<char>| #[trigger] targets.contains(n) ==> is_vm(f.lab, n) && (
        done.contains(n) || remaining.contains(n)),
        forall|n: Seq<char>| #[trigger] remaining.contains(n) ==> is_vm(f.lab, n),
    ensures
        wave_of(f.lab, targets, done, remaining).len() > 0,
{
    clean_lab_has_sound_references(f, facts, cat);
    cycle_reported_iff_cyclic(f.lab);
    acyclic_lab_never_deadlocks(f.lab, targets, done, remaining);
}

/// A guest that has started is no longer among those that remain, and all
/// others still are: nothing is started twice, and nothing is forgotten.
pub proof fn progress_is_kept(
    targets: Seq<Seq<char>>,
    done: Seq<Seq<char>>,
    remaining: Seq<Seq<char>>,
    name: Seq<char>,
)
    requires
        forall|n: Seq<char>| #[trigger]
            targets.contains(n) ==> done.contains(n) || remaining.contains(n),
    ensures
        !without(remaining, name).contains(name),
        forall|n: Seq<char>| #[trigger]
            without(remaining, name).contains(n) ==> remaining.contains(n),
        forall|n: Seq<char>| #[trigger]
            targets.contains(n) ==> done.push(name).contains(n) || without(
                remaining,
                name,
            ).contains(n),
{
    lemma_push_contains(done, name);
    assert forall|n: Seq<char>| #[trigger] without(remaining, name).contains(n) <==> (
    remaining.contains(n) && n != name) by {
        lemma_without(remaining, name, n);
    }
}

proof fn lemma_without(s: Seq<Seq<char>>, x: Seq<char>, y: Seq<char>)
    ensures
        without(s, x).contains(y) <==> s.contains(y) && y != x,
    decreases s.len(),
{
    if s.len() > 0 {
        lemma_without(s.drop_last(), x, y);
        lemma_drop_last_contains(s);
        lemma_push_contains(without(s.drop_last(), x), s.last());
        assert(s[s.len() - 1] == s.last());
    }
}

/// What is asked for is started, and with a guest all that it depends on.
pub proof fn targets_are_closed(lab: LabView, subset: Seq<Seq<char>>, name: Seq<char>, dep: Seq<char>)
    requires
        is_needed(lab, subset, name),
        deps_of(lab, name).contains(dep),
    ensures
        is_needed(lab, subset, dep),
{
    lemma_extend(lab, subset, name, dep);
}

/// The next provision waits for its whole scope and for nothing else: one with
/// guests runs exactly when each of them has started, one without exactly in
/// the final pass, and it is always the first that has not run yet.
pub proof fn script_waits_for_its_scope(
    p: &UpProgress,
    lab: &Lab,
    final_pass: bool,
    r: Option<usize>,
)
    requires
        call_ensures(UpProgress::next_script, (p, lab, final_pass), r),
    ensures
        p.next_provision >= lab.provisions@.len() ==> r is None,
        r matches Some(i) ==> i == p.next_provision && i < lab.provisions@.len(),
        p.next_provision < lab.provisions@.len() ==> {
            let scope = lab.provisions@[p.next_provision as int].vms@;
            &&& scope.len() == 0 ==> (r is Some <==> final_pass)
            &&& scope.len() > 0 && r is Some ==> forall|k: int|
                0 <= k < scope.len() ==> p.done.deep_view().contains((#[trigger] scope[k])@)
            &&& scope.len() > 0 && (forall|k: int|
                0 <= k < scope.len() ==> p.done.deep_view().contains((#[trigger] scope[k])@))
                ==> r is Some
        },
{
    if p.next_provision < lab.provisions@.len() {
        let q = lab.provisions@[p.next_provision as int];
        let view = lab.deep_view().provisions[p.next_provision as int];
        assert(view == q.deep_view());
        assert forall|k: int| 0 <= k < q.vms@.len() implies view.vms[k] == (
        #[trigger] q.vms@[k])@ by {}
        if r is None && q.vms@.len() > 0 {
            let k = choose|k: int|
                0 <= k < view.vms.len() && !p.done.deep_view().contains(#[trigger] view.vms[k]);
            assert(view.vms[k] == q.vms@[k]@);
        }
    }
}

/// What a guest of a name depends on stands in the first entry of that name.
proof fn lemma_deps_of_first(vms: Seq<crate::config::model::VmView>, name: Seq<char>, i: int)
    requires
        0 <= i < vms.len(),
        vms[i].name == name,
        forall|j: int| 0 <= j < i ==> (#[trigger] vms[j]).name != name,
    ensures
        find_vm(vms, name) == Some(vms[i]),
    decreases vms.len(),
{
    if i > 0 {
        assert(vms[0].name != name);
        let t = vms.skip(1);
        assert(t[i - 1] == vms[i]);
        assert forall|j: int| 0 <= j < i - 1 implies (#[trigger] t[j]).name != name by {
            assert(t[j] == vms[j + 1]);
        }
        lemma_deps_of_first(t, name, i - 1);
    }
}

/// A wave holds exactly the guests that remain and whose dependencies, of what
/// is to start, have all started; there is none to give only when nothing is
/// left, and then nothing is given, or when no guest can go on, which is the
/// error.
pub proof fn wave_is_what_can_start(
    p: &UpProgress,
    lab: &Lab,
    r: Result<Vec<String>, String>,
    i: int,
)
    requires
        call_ensures(UpProgress::next_wave, (p, lab), r),
        0 <= i < lab.vms@.len(),
        forall|j: int| 0 <= j < i ==> (#[trigger] lab.vms@[j]).name@ != lab.vms@[i].name@,
    ensures
        ({
            let vm = lab.vms@[i];
            let waits = exists|d: Seq<char>| #[trigger]
                vm.depends_on.deep_view().contains(d) && p.targets.deep_view().contains(d)
                    && !p.done.deep_view().contains(d);
            &&& r matches Ok(w) ==> (w.deep_view().contains(vm.name@)
                <==> p.remaining.deep_view().contains(vm.name@) && !waits)
            &&& r matches Ok(w) ==> (w@.len() == 0 <==> p.remaining@.len() == 0)
            &&& r is Err ==> p.remaining@.len() > 0 && (p.remaining.deep_view().contains(vm.name@)
                ==> waits)
        }),
{
    let l = lab.deep_view();
    let vm = lab.vms@[i];
    let name = vm.name@;
    assert(l.vms[i] == vm.deep_view());
    assert forall|j: int| 0 <= j < i implies (#[trigger] l.vms[j]).name != name by {
        assert(l.vms[j] == lab.vms@[j].deep_view());
    }
    lemma_deps_of_first(l.vms, name, i);
    let (t, d, rest) = (p.targets.deep_view(), p.done.deep_view(), p.remaining.deep_view());
    let deps = deps_of(l, name);
    assert(deps == vm.depends_on.deep_view());
    lemma_wave(l, t, d, rest, name);
    let w = wave_of(l, t, d, rest);
    if !can_start(l, t, d, name) {
        let k = choose|k: int|
            0 <= k < deps.len() && !(d.contains(#[trigger] deps[k]) || !t.contains(deps[k]));
        assert(deps.contains(deps[k]));
    }
    if exists|x: Seq<char>| #[trigger] deps.contains(x) && t.contains(x) && !d.contains(x) {
        let x = choose|x: Seq<char>| #[trigger] deps.contains(x) && t.contains(x) && !d.contains(x);
        let k = choose|k: int| 0 <= k < deps.len() && deps[k] == x;
        assert(!(d.contains(deps[k]) || !t.contains(deps[k])));
    }
    match r {
        Ok(names) => {
            assert(names.deep_view().len() == names@.len());
            if rest.len() == 0 {
                assert(w.len() == 0);
            }
        },
        Err(_) => {
            assert(!w.contains(name));
        },
    }
}

/// Without names every guest is started, in declaration order. With names, the
/// targets hold those names and, with each guest, all that it depends on; and
/// no guest that could be left out: whatever set has these two properties
/// holds every target.
pub proof fn targets_are_the_least_closed_set(
    lab: LabView,
    subset: Seq<Seq<char>>,
    set: Set<Seq<char>>,
    i: int,
)
    requires
        0 <= i < lab.vms.len(),
    ensures
        ({
            let t = targets_of(lab, subset);
            let name = lab.vms[i].name;
            &&& subset.len() == 0 ==> t.len() == lab.vms.len() && t[i] == name
            &&& subset.len() > 0 && subset.contains(name) ==> t.contains(name)
            &&& subset.len() > 0 && t.contains(name) ==> forall|d: Seq<char>|
                deps_of(lab, name).contains(d) && #[trigger] is_vm(lab, d) ==> t.contains(d)
            &&& subset.len() > 0 && (forall|n: Seq<char>| #[trigger]
                subset.contains(n) ==> set.contains(n)) && (forall|n: Seq<char>, d: Seq<char>|
                set.contains(n) && #[trigger] deps_of(lab, n).contains(d) ==> set.contains(d)) && t.contains(
                name,
            ) ==> set.contains(name)
        }),
{
    let t = targets_of(lab, subset);
    let name = lab.vms[i].name;
    if subset.len() > 0 {
        lemma_needed_names(lab, subset, lab.vms.len() as int, name);
        if subset.contains(name) {
            assert(leads_to(lab, subset, seq![name], name));
        }
        assert forall|d: Seq<char>|
            t.contains(name) && deps_of(lab, name).contains(d) && #[trigger] is_vm(lab, d) implies
            t.contains(d) by {
            lemma_extend(lab, subset, name, d);
            lemma_needed_names(lab, subset, lab.vms.len() as int, d);
        }
        if t.contains(name) && (forall|n: Seq<char>| #[trigger]
            subset.contains(n) ==> set.contains(n)) && (forall|n: Seq<char>, d: Seq<char>|
            set.contains(n) && #[trigger] deps_of(lab, n).contains(d) ==> set.contains(d)) {
            let w = choose|w: Seq<Seq<char>>| leads_to(lab, subset, w, name);
            lemma_walk_stays(lab, subset, set, w, w.len() as int);
        }
    }
}

proof fn lemma_needed_names(lab: LabView, from: Seq<Seq<char>>, n: int, name: Seq<char>)
    requires
        0 <= n <= lab.vms.len(),
    ensures
        needed_names(lab, from, n).contains(name) <==> is_needed(lab, from, name) && exists|i: int|
            0 <= i < n && (#[trigger] lab.vms[i]).name == name,
    decreases n,
{
    if n > 0 {
        lemma_needed_names(lab, from, n - 1, name);
        lemma_push_contains(needed_names(lab, from, n - 1), lab.vms[n - 1].name);
        assert(lab.vms[n - 1].name == lab.vms[n - 1].name);
    }
}

proof fn lemma_walk_stays(
    lab: LabView,
    from: Seq<Seq<char>>,
    set: Set<Seq<char>>,
    w: Seq<Seq<char>>,
    n: int,
)
    requires
        forall|x: Seq<char>| #[trigger] from.contains(x) ==> set.contains(x),
        forall|x: Seq<char>, d: Seq<char>|
            set.contains(x) && #[trigger] deps_of(lab, x).contains(d) ==> set.contains(d),
        leads_to(lab, from, w, w.last()),
        0 < n <= w.len(),
    ensures
        set.contains(w[n - 1]),
    decreases n,
{
    if n > 1 {
        lemma_walk_stays(lab, from, set, w, n - 1);
        assert(deps_of(lab, w[n - 2]).contains(w[n - 1]));
    }
}

/// The readiness of a guest is waited for exactly when a guest of the lab
/// depends on it.
pub proof fn dependents_are_waited_for(lab: &Lab, name: &str, r: bool, i: int)
    requires
        call_ensures(is_depended_on, (lab, name), r),
        0 <= i < lab.vms@.len(),
    ensures
        lab.vms@[i].depends_on.deep_view().contains(name@) ==> r,
        r ==> exists|j: int|
            0 <= j < lab.vms@.len() && (#[trigger] lab.vms@[j]).depends_on.deep_view().contains(
                name@,
            ),
{
    let l = lab.deep_view();
    assert(l.vms[i] == lab.vms@[i].deep_view());
    if r {
        let j = choose|j: int|
            0 <= j < l.vms.len() && (#[trigger] l.vms[j]).depends_on.contains(name@);
        assert(l.vms[j] == lab.vms@[j].deep_view());
    }
}

} // verus!
