//! Semantic validation: everything that can be caught without starting a
//! guest. Runs after schema checking and extraction. Every problem is found
//! (it never stops at the first): the goal is one complete report.

use vstd::prelude::*;

use crate::config::cycles::{check_dependency_cycles, cycle_issues, is_vm, vm_index};
use crate::config::extract::{arch_error, is_alnum};
use crate::config::issue::{
    issue_if, lemma_cat, lemma_cat_nothing, no_issues, note, one_issue, IssueList, IssueView,
};
use crate::config::model::{
    mac_text, ArtefactSource, ArtefactSourceView, DiskBlock, DiskBlockView, ForwardView, Gpu,
    GpuMode, GpuView, Lab, LabFile, LabFileView, LabView, Media, MediaView, Nic, NicView, Segment,
    SegmentView, ShareView, Span, TemplateDef, TemplateDefView, TemplateRef, TemplateRefView,
    TemplateSource, TemplateSourceView, Vm, VmView,
};
use crate::net::addr::{Ipv4Addr, MacAddr};
use crate::net::cidr::{ip_text, net_text, Ipv4Net};
use crate::table::Key;
use crate::text::{
    any_string, cat3, cat5, cat7, chars_of, decimal, decimal_string, join, join_strings, joined,
    str_eq, str_le, text_le,
};

verus! {

// -- what the host knows ------------------------------------------------------------

/// What the host answered to the questions that a lab file raises. Paths are
/// as the file writes them; relative ones are taken from its root.
#[derive(Debug)]
pub struct Facts {
    /// The templates (architecture, name, version) that the store has.
    pub templates: Vec<(String, String, Option<String>)>,
    /// The profiles that there are.
    pub profiles: Vec<String>,
    /// The paths that are folders.
    pub dirs: Vec<String>,
    /// The paths that are files.
    pub files: Vec<String>,
    /// The scripts that do not compile, each with why.
    pub script_errors: Vec<(String, String)>,
}

/// The contents of [`Facts`].
pub ghost struct FactsView {
    pub templates: Seq<(Seq<char>, Seq<char>, Option<Seq<char>>)>,
    pub profiles: Seq<Seq<char>>,
    pub dirs: Seq<Seq<char>>,
    pub files: Seq<Seq<char>>,
    pub script_errors: Seq<(Seq<char>, Seq<char>)>,
}

impl DeepView for Facts {
    type V = FactsView;

    open spec fn deep_view(&self) -> FactsView {
        FactsView {
            templates: self.templates.deep_view(),
            profiles: self.profiles.deep_view(),
            dirs: self.dirs.deep_view(),
            files: self.files.deep_view(),
            script_errors: self.script_errors.deep_view(),
        }
    }
}

/// The names that a lab file can use.
#[derive(Debug)]
pub struct Catalogue {
    /// The guest architectures.
    pub arches: Vec<String>,
    /// The events that a handler can wait for.
    pub events: Vec<String>,
}

/// The contents of a [`Catalogue`].
pub ghost struct CatalogueView {
    pub arches: Seq<Seq<char>>,
    pub events: Seq<Seq<char>>,
}

impl DeepView for Catalogue {
    type V = CatalogueView;

    open spec fn deep_view(&self) -> CatalogueView {
        CatalogueView { arches: self.arches.deep_view(), events: self.events.deep_view() }
    }
}

/// Why a script does not compile, if it does not.
pub open spec fn script_error(errors: Seq<(Seq<char>, Seq<char>)>, path: Seq<char>) -> Option<
    Seq<char>,
>
    decreases errors.len(),
{
    if errors.len() == 0 {
        None
    } else if errors[0].0 == path {
        Some(errors[0].1)
    } else {
        script_error(errors.skip(1), path)
    }
}

fn same_version(a: &Option<String>, b: &Option<String>) -> (r: bool)
    ensures
        r == (a.deep_view() == b.deep_view()),
{
    match (a, b) {
        (Some(x), Some(y)) => str_eq(x.as_str(), y.as_str()),
        (None, None) => true,
        _ => false,
    }
}

impl Facts {
    fn has_template(&self, arch: &str, name: &str, version: &Option<String>) -> (r: bool)
        ensures
            r == self.deep_view().templates.contains((arch@, name@, version.deep_view())),
    {
        let ghost all = self.deep_view().templates;
        let ghost t = (arch@, name@, version.deep_view());
        let mut i: usize = 0;
        while i < self.templates.len()
            invariant
                i <= self.templates@.len(),
                all == self.deep_view().templates,
                all.len() == self.templates@.len(),
                t == (arch@, name@, version.deep_view()),
                forall|j: int| 0 <= j < i ==> all[j] != t,
            decreases self.templates@.len() - i,
        {
            let x = &self.templates[i];
            assert(all[i as int] == x.deep_view());
            if str_eq(x.0.as_str(), arch) && str_eq(x.1.as_str(), name) && same_version(
                &x.2,
                version,
            ) {
                assert(all[i as int] == t);
                return true;
            }
            assert(all[i as int] != t);
            i = i + 1;
        }
        false
    }

    fn error_of(&self, path: &str) -> (r: Option<&String>)
        ensures
            r is Some <==> script_error(self.deep_view().script_errors, path@) is Some,
            r matches Some(e) ==> script_error(self.deep_view().script_errors, path@) == Some(e@),
    {
        let ghost all = self.deep_view().script_errors;
        let mut i: usize = 0;
        assert(all.skip(0) =~= all);
        while i < self.script_errors.len()
            invariant
                i <= self.script_errors@.len(),
                all == self.deep_view().script_errors,
                all.len() == self.script_errors@.len(),
                script_error(all.skip(i as int), path@) == script_error(all, path@),
            decreases self.script_errors@.len() - i,
        {
            assert(all.skip(i as int).skip(1) =~= all.skip(i + 1));
            assert(all.skip(i as int)[0] == all[i as int]);
            assert(all[i as int] == self.script_errors@[i as int].deep_view());
            if str_eq(self.script_errors[i].0.as_str(), path) {
                return Some(&self.script_errors[i].1);
            }
            i = i + 1;
        }
        None
    }
}

// -- lists of checks ------------------------------------------------------------------

/// What is wrong with the first `n` items, in order.
pub open spec fn each(n: int, f: spec_fn(int) -> Seq<IssueView>) -> Seq<IssueView>
    decreases n,
{
    if n <= 0 {
        no_issues()
    } else {
        each(n - 1, f) + f(n - 1)
    }
}

// -- names ----------------------------------------------------------------------------

/// Whether a name can be a DNS label.
pub open spec fn is_dns_label(name: Seq<char>) -> bool {
    &&& 1 <= name.len() <= 63
    &&& forall|i: int| 0 <= i < name.len() ==> is_alnum(#[trigger] name[i]) || name[i] == '-'
    &&& name[0] != '-'
    &&& name.last() != '-'
}

/// What is wrong with a name that becomes part of guest hostnames.
pub open spec fn label_check(name: Seq<char>, span: Span, what: Seq<char>) -> Seq<IssueView> {
    issue_if(
        !is_dns_label(name),
        span,
        what + " \""@ + name
            + "\" must be a DNS label (letters, digits, hyphens; max 63 chars) — it becomes part of guest hostnames"@,
    )
}

fn dns_label_ok(name: &str) -> (r: bool)
    ensures
        r == is_dns_label(name@),
{
    let c = chars_of(name);
    if c.len() < 1 || c.len() > 63 {
        return false;
    }
    let mut i: usize = 0;
    while i < c.len()
        invariant
            i <= c@.len(),
            c@ == name@,
            forall|j: int| 0 <= j < i ==> is_alnum(#[trigger] name@[j]) || name@[j] == '-',
        decreases c@.len() - i,
    {
        let x: char = c[i];
        if !(('0' <= x && x <= '9') || ('a' <= x && x <= 'z') || ('A' <= x && x <= 'Z') || x
            == '-') {
            assert(!(is_alnum(name@[i as int]) || name@[i as int] == '-'));
            return false;
        }
        i = i + 1;
    }
    c[0] != '-' && c[c.len() - 1] != '-'
}

/// RFC-1035-ish label check for names that become DNS labels
/// (`<vm>.<lab>.<suffix>`).
pub fn check_dns_label(name: &str, span: Span, what: &str, issues: &mut IssueList)
    ensures
        final(issues).deep_view() == old(issues).deep_view() + label_check(name@, span, what@),
{
    broadcast use lemma_cat_nothing;

    if !dns_label_ok(name) {
        let m = cat3(what, " \"", name);
        note(
            issues,
            span,
            joined(
                m.as_str(),
                "\" must be a DNS label (letters, digits, hyphens; max 63 chars) — it becomes part of guest hostnames",
            ),
        );
    }
}

// -- segments ---------------------------------------------------------------------------

/// Whether two networks have addresses in common.
pub open spec fn overlap(a: Ipv4Net, b: Ipv4Net) -> bool {
    a.first() <= b.first() <= a.last() || b.first() <= a.first() <= b.last()
}

/// Whether an earlier segment has the name of this one.
pub open spec fn segment_repeats(lab: LabView, i: int) -> bool {
    exists|j: int| 0 <= j < i && #[trigger] lab.segments[j].name == lab.segments[i].name
}

/// What is wrong between two segments.
pub open spec fn overlap_check(lab: LabView, i: int, j: int) -> Seq<IssueView> {
    let (s, o) = (lab.segments[i], lab.segments[j]);
    match (s.subnet, o.subnet) {
        (Some(a), Some(b)) => issue_if(
            i != j && text_le(s.name, o.name) && overlap(a, b),
            s.span,
            "segments \""@ + s.name + "\" ("@ + net_text(a) + ") and \""@ + o.name + "\" ("@
                + net_text(b) + ") have overlapping subnets"@,
        ),
        _ => no_issues(),
    }
}

pub open spec fn overlaps_with(lab: LabView, i: int) -> spec_fn(int) -> Seq<IssueView> {
    |j: int| overlap_check(lab, i, j)
}

/// Whether the lab declares a segment of this name.
pub open spec fn is_segment(lab: LabView, name: Seq<char>) -> bool {
    exists|i: int| 0 <= i < lab.segments.len() && #[trigger] lab.segments[i].name == name
}

pub open spec fn routes_from(lab: LabView, i: int) -> spec_fn(int) -> Seq<IssueView> {
    |k: int|
        issue_if(
            !is_segment(lab, lab.segments[i].routes_to[k]),
            lab.segments[i].span,
            "segment \""@ + lab.segments[i].name + "\" routes_to undeclared segment \""@
                + lab.segments[i].routes_to[k] + "\""@,
        )
}

pub open spec fn forwards_from(lab: LabView, i: int) -> spec_fn(int) -> Seq<IssueView> {
    |k: int|
        issue_if(
            !is_vm(lab, lab.segments[i].forwards[k].vm),
            lab.segments[i].forwards[k].span,
            "forward references undefined vm \""@ + lab.segments[i].forwards[k].vm + "\""@,
        )
}

pub open spec fn sinkholes_in(s: SegmentView) -> spec_fn(int) -> Seq<IssueView> {
    |k: int|
        issue_if(
            s.sinkholes[k].pattern.len() == 0,
            s.sinkholes[k].span,
            "empty sinkhole pattern"@,
        )
}

/// What is wrong with a segment.
pub open spec fn segment_check(lab: LabView, i: int) -> Seq<IssueView> {
    let s = lab.segments[i];
    issue_if(segment_repeats(lab, i), s.span, "duplicate segment \""@ + s.name + "\""@)
        + label_check(s.name, s.span, "segment name"@) + each(
        lab.segments.len() as int,
        overlaps_with(lab, i),
    ) + each(s.routes_to.len() as int, routes_from(lab, i)) + each(
        s.forwards.len() as int,
        forwards_from(lab, i),
    ) + each(s.sinkholes.len() as int, sinkholes_in(s))
}

pub open spec fn segment_checks(lab: LabView) -> spec_fn(int) -> Seq<IssueView> {
    |i: int| segment_check(lab, i)
}

/// The first segment of this name.
pub open spec fn find_segment(segs: Seq<SegmentView>, name: Seq<char>) -> Option<SegmentView>
    decreases segs.len(),
{
    if segs.len() == 0 {
        None
    } else if segs[0].name == name {
        Some(segs[0])
    } else {
        find_segment(segs.skip(1), name)
    }
}

pub fn segment_index(lab: &Lab, name: &str) -> (r: Option<usize>)
    ensures
        r is Some <==> is_segment(lab.deep_view(), name@),
        r matches Some(i) ==> i < lab.segments@.len() && find_segment(
            lab.deep_view().segments,
            name@,
        ) == Some(lab.segments@[i as int].deep_view()),
        r is None ==> find_segment(lab.deep_view().segments, name@) is None,
{
    let ghost all = lab.deep_view().segments;
    let mut i: usize = 0;
    assert(all.skip(0) =~= all);
    while i < lab.segments.len()
        invariant
            i <= lab.segments@.len(),
            all == lab.deep_view().segments,
            all.len() == lab.segments@.len(),
            find_segment(all.skip(i as int), name@) == find_segment(all, name@),
            forall|j: int| 0 <= j < i ==> #[trigger] all[j].name != name@,
        decreases lab.segments@.len() - i,
    {
        assert(all.skip(i as int).skip(1) =~= all.skip(i + 1));
        assert(all.skip(i as int)[0] == all[i as int]);
        assert(all[i as int] == lab.segments@[i as int].deep_view());
        if str_eq(lab.segments[i].name.as_str(), name) {
            return Some(i);
        }
        i = i + 1;
    }
    None
}

fn segment_seen(lab: &Lab, i: usize) -> (r: bool)
    requires
        i < lab.segments@.len(),
    ensures
        r == segment_repeats(lab.deep_view(), i as int),
{
    let ghost all = lab.deep_view().segments;
    let name = lab.segments[i].name.as_str();
    assert(all[i as int].name == name@);
    let mut j: usize = 0;
    while j < i
        invariant
            j <= i < lab.segments@.len(),
            all == lab.deep_view().segments,
            all.len() == lab.segments@.len(),
            name@ == all[i as int].name,
            forall|k: int| 0 <= k < j ==> #[trigger] all[k].name != name@,
        decreases i - j,
    {
        assert(all[j as int] == lab.segments@[j as int].deep_view());
        if str_eq(lab.segments[j].name.as_str(), name) {
            assert(all[j as int].name == all[i as int].name);
            return true;
        }
        j = j + 1;
    }
    false
}

fn check_overlap(lab: &Lab, i: usize, j: usize, issues: &mut IssueList)
    requires
        i < lab.segments@.len(),
        j < lab.segments@.len(),
    ensures
        final(issues).deep_view() == old(issues).deep_view() + overlap_check(
            lab.deep_view(),
            i as int,
            j as int,
        ),
{
    broadcast use lemma_cat_nothing;

    let s = &lab.segments[i];
    let o = &lab.segments[j];
    assert(lab.deep_view().segments[i as int] == s.deep_view());
    assert(lab.deep_view().segments[j as int] == o.deep_view());
    if let (Some(a), Some(b)) = (&s.subnet, &o.subnet) {
        if i != j && str_le(s.name.as_str(), o.name.as_str()) && (a.contains(b.network())
            || b.contains(a.network())) {
            let m = cat7(
                "segments \"",
                s.name.as_str(),
                "\" (",
                a.to_text().as_str(),
                ") and \"",
                o.name.as_str(),
                "\" (",
            );
            note(
                issues,
                s.span,
                cat3(m.as_str(), b.to_text().as_str(), ") have overlapping subnets"),
            );
        }
    }
}

fn check_overlaps(lab: &Lab, i: usize, issues: &mut IssueList)
    requires
        i < lab.segments@.len(),
    ensures
        final(issues).deep_view() == old(issues).deep_view() + each(
            lab.segments@.len() as int,
            overlaps_with(lab.deep_view(), i as int),
        ),
{
    broadcast use {lemma_cat, lemma_cat_nothing};

    let mut j: usize = 0;
    while j < lab.segments.len()
        invariant
            i < lab.segments@.len(),
            j <= lab.segments@.len(),
            issues.deep_view() == old(issues).deep_view() + each(
                j as int,
                overlaps_with(lab.deep_view(), i as int),
            ),
        decreases lab.segments@.len() - j,
    {
        broadcast use {lemma_cat, lemma_cat_nothing};

        check_overlap(lab, i, j, issues);
        j = j + 1;
    }
}

fn check_routes(lab: &Lab, i: usize, issues: &mut IssueList)
    requires
        i < lab.segments@.len(),
    ensures
        final(issues).deep_view() == old(issues).deep_view() + each(
            lab.deep_view().segments[i as int].routes_to.len() as int,
            routes_from(lab.deep_view(), i as int),
        ),
{
    broadcast use {lemma_cat, lemma_cat_nothing};

    let s = &lab.segments[i];
    assert(lab.deep_view().segments[i as int] == s.deep_view());
    let mut k: usize = 0;
    while k < s.routes_to.len()
        invariant
            k <= s.routes_to@.len(),
            i < lab.segments@.len(),
            *s == lab.segments@[i as int],
            lab.deep_view().segments[i as int] == s.deep_view(),
            issues.deep_view() == old(issues).deep_view() + each(
                k as int,
                routes_from(lab.deep_view(), i as int),
            ),
        decreases s.routes_to@.len() - k,
    {
        broadcast use {lemma_cat, lemma_cat_nothing};

        let target = s.routes_to[k].as_str();
        assert(s.deep_view().routes_to[k as int] == target@);
        if segment_index(lab, target).is_none() {
            note(
                issues,
                s.span,
                cat5(
                    "segment \"",
                    s.name.as_str(),
                    "\" routes_to undeclared segment \"",
                    target,
                    "\"",
                ),
            );
        }
        k = k + 1;
    }
}

fn check_forwards(lab: &Lab, i: usize, issues: &mut IssueList)
    requires
        i < lab.segments@.len(),
    ensures
        final(issues).deep_view() == old(issues).deep_view() + each(
            lab.deep_view().segments[i as int].forwards.len() as int,
            forwards_from(lab.deep_view(), i as int),
        ),
{
    broadcast use {lemma_cat, lemma_cat_nothing};

    let s = &lab.segments[i];
    assert(lab.deep_view().segments[i as int] == s.deep_view());
    let mut k: usize = 0;
    while k < s.forwards.len()
        invariant
            k <= s.forwards@.len(),
            i < lab.segments@.len(),
            *s == lab.segments@[i as int],
            lab.deep_view().segments[i as int] == s.deep_view(),
            issues.deep_view() == old(issues).deep_view() + each(
                k as int,
                forwards_from(lab.deep_view(), i as int),
            ),
        decreases s.forwards@.len() - k,
    {
        broadcast use {lemma_cat, lemma_cat_nothing};

        let f = &s.forwards[k];
        assert(s.deep_view().forwards[k as int] == f.deep_view());
        if vm_index(lab, f.vm.as_str()).is_none() {
            note(
                issues,
                f.span,
                cat3("forward references undefined vm \"", f.vm.as_str(), "\""),
            );
        }
        k = k + 1;
    }
}

fn is_empty_text(s: &str) -> (r: bool)
    ensures
        r == (s@.len() == 0),
{
    chars_of(s).len() == 0
}

fn check_sinkholes(s: &Segment, issues: &mut IssueList)
    ensures
        final(issues).deep_view() == old(issues).deep_view() + each(
            s.deep_view().sinkholes.len() as int,
            sinkholes_in(s.deep_view()),
        ),
{
    broadcast use {lemma_cat, lemma_cat_nothing};

    let mut k: usize = 0;
    while k < s.sinkholes.len()
        invariant
            k <= s.sinkholes@.len(),
            issues.deep_view() == old(issues).deep_view() + each(
                k as int,
                sinkholes_in(s.deep_view()),
            ),
        decreases s.sinkholes@.len() - k,
    {
        broadcast use {lemma_cat, lemma_cat_nothing};

        let x = &s.sinkholes[k];
        assert(s.deep_view().sinkholes[k as int] == x.deep_view());
        if is_empty_text(x.pattern.as_str()) {
            note(issues, x.span, "empty sinkhole pattern".to_owned());
        }
        k = k + 1;
    }
}

fn check_segment(lab: &Lab, i: usize, issues: &mut IssueList)
    requires
        i < lab.segments@.len(),
    ensures
        final(issues).deep_view() == old(issues).deep_view() + segment_check(
            lab.deep_view(),
            i as int,
        ),
{
    broadcast use {lemma_cat, lemma_cat_nothing};

    let s = &lab.segments[i];
    assert(lab.deep_view().segments[i as int] == s.deep_view());
    assert(lab.deep_view().segments.len() == lab.segments@.len());
    if segment_seen(lab, i) {
        note(issues, s.span, cat3("duplicate segment \"", s.name.as_str(), "\""));
    }
    check_dns_label(s.name.as_str(), s.span, "segment name", issues);
    check_overlaps(lab, i, issues);
    check_routes(lab, i, issues);
    check_forwards(lab, i, issues);
    check_sinkholes(s, issues);
}

// -- forward ports ----------------------------------------------------------------------

/// The host ports of forwards.
pub open spec fn ports_of(forwards: Seq<ForwardView>) -> Seq<u16> {
    Seq::new(forwards.len(), |k: int| forwards[k].host_port)
}

/// The host ports that the segments forward, in order.
pub open spec fn ports_before(segs: Seq<SegmentView>) -> Seq<u16>
    decreases segs.len(),
{
    if segs.len() == 0 {
        Seq::empty()
    } else {
        ports_before(segs.drop_last()) + ports_of(segs.last().forwards)
    }
}

pub open spec fn ports_in(lab: LabView, i: int) -> spec_fn(int) -> Seq<IssueView> {
    |k: int|
        {
            let f = lab.segments[i].forwards[k];
            issue_if(
                (ports_before(lab.segments.take(i)) + ports_of(
                    lab.segments[i].forwards,
                ).take(k)).contains(f.host_port),
                f.span,
                "duplicate forward host_port "@ + decimal(f.host_port as nat),
            )
        }
}

pub open spec fn port_checks(lab: LabView) -> spec_fn(int) -> Seq<IssueView> {
    |i: int| each(lab.segments[i].forwards.len() as int, ports_in(lab, i))
}

fn port_seen(seen: &Vec<u16>, port: u16) -> (r: bool)
    ensures
        r == seen@.contains(port),
{
    let mut i: usize = 0;
    while i < seen.len()
        invariant
            i <= seen@.len(),
            forall|j: int| 0 <= j < i ==> seen@[j] != port,
        decreases seen@.len() - i,
    {
        if seen[i] == port {
            return true;
        }
        i = i + 1;
    }
    false
}

fn check_segment_ports(lab: &Lab, i: usize, seen: &mut Vec<u16>, issues: &mut IssueList)
    requires
        i < lab.segments@.len(),
        old(seen)@ == ports_before(lab.deep_view().segments.take(i as int)),
    ensures
        final(seen)@ == ports_before(lab.deep_view().segments.take(i + 1)),
        final(issues).deep_view() == old(issues).deep_view() + each(
            lab.deep_view().segments[i as int].forwards.len() as int,
            ports_in(lab.deep_view(), i as int),
        ),
{
    broadcast use {lemma_cat, lemma_cat_nothing};

    let s = &lab.segments[i];
    let ghost l = lab.deep_view();
    assert(l.segments[i as int] == s.deep_view());
    let ghost before = ports_before(l.segments.take(i as int));
    let ghost here = ports_of(l.segments[i as int].forwards);
    let mut k: usize = 0;
    assert(before + here.take(0) =~= before);
    while k < s.forwards.len()
        invariant
            k <= s.forwards@.len(),
            i < lab.segments@.len(),
            l == lab.deep_view(),
            l.segments[i as int] == s.deep_view(),
            before == ports_before(l.segments.take(i as int)),
            here == ports_of(l.segments[i as int].forwards),
            here.len() == s.forwards@.len(),
            seen@ == before + here.take(k as int),
            issues.deep_view() == old(issues).deep_view() + each(k as int, ports_in(l, i as int)),
        decreases s.forwards@.len() - k,
    {
        broadcast use {lemma_cat, lemma_cat_nothing};

        let f = &s.forwards[k];
        assert(s.deep_view().forwards[k as int] == f.deep_view());
        if port_seen(seen, f.host_port) {
            note(
                issues,
                f.span,
                joined(
                    "duplicate forward host_port ",
                    decimal_string(f.host_port as u64).as_str(),
                ),
            );
        }
        seen.push(f.host_port);
        assert((before + here.take(k as int)).push(here[k as int]) =~= before + here.take(
            k + 1,
        ));
        k = k + 1;
    }
    assert(here.take(k as int) =~= here);
    assert(l.segments.take(i + 1).drop_last() =~= l.segments.take(i as int));
    assert(l.segments.take(i + 1).last() == l.segments[i as int]);
}

fn check_ports(lab: &Lab, issues: &mut IssueList)
    ensures
        final(issues).deep_view() == old(issues).deep_view() + each(
            lab.segments@.len() as int,
            port_checks(lab.deep_view()),
        ),
{
    broadcast use {lemma_cat, lemma_cat_nothing};

    let mut seen: Vec<u16> = Vec::new();
    let mut i: usize = 0;
    assert(lab.deep_view().segments.take(0) =~= Seq::empty());
    while i < lab.segments.len()
        invariant
            i <= lab.segments@.len(),
            seen@ == ports_before(lab.deep_view().segments.take(i as int)),
            issues.deep_view() == old(issues).deep_view() + each(
                i as int,
                port_checks(lab.deep_view()),
            ),
        decreases lab.segments@.len() - i,
    {
        broadcast use {lemma_cat, lemma_cat_nothing};

        check_segment_ports(lab, i, &mut seen, issues);
        i = i + 1;
    }
}

// -- guests -------------------------------------------------------------------------------

/// Whether an earlier guest has the name of this one.
pub open spec fn vm_repeats(lab: LabView, i: int) -> bool {
    exists|j: int| 0 <= j < i && #[trigger] lab.vms[j].name == lab.vms[i].name
}

/// A version as a reference writes it.
pub open spec fn version_suffix(version: Option<Seq<char>>) -> Seq<char> {
    match version {
        Some(v) => "@"@ + v,
        None => ""@,
    }
}

/// Whether the file itself defines a template.
pub open spec fn defines(f: LabFileView, arch: Seq<char>, name: Seq<char>) -> bool {
    exists|i: int|
        0 <= i < f.templates.len() && #[trigger] f.templates[i].arch == arch && f.templates[i].name
            == name
}

/// What is wrong with a guest that starts from an empty disk.
pub open spec fn scratch_check(v: VmView, arches: Seq<Seq<char>>) -> Seq<IssueView> {
    issue_if(
        v.arch is None,
        v.template_span,
        "scratch vm \""@ + v.name + "\" requires `arch`"@,
    ) + issue_if(
        v.profile is None,
        v.template_span,
        "scratch vm \""@ + v.name + "\" requires `profile`"@,
    ) + issue_if(
        v.disk is None,
        v.template_span,
        "scratch vm \""@ + v.name + "\" requires `disk`"@,
    ) + match v.arch {
        Some(arch) => issue_if(!arches.contains(arch), v.span, arch_error(arch, arches)),
        None => no_issues(),
    }
}

/// What is wrong with a guest that is cloned from the store.
pub open spec fn store_check(
    f: LabFileView,
    v: VmView,
    arch: Seq<char>,
    name: Seq<char>,
    version: Option<Seq<char>>,
    facts: FactsView,
) -> Seq<IssueView> {
    (match v.arch {
        Some(own) => issue_if(
            own != arch,
            v.span,
            "vm \""@ + v.name + "\" sets arch = \""@ + own + "\" but its template is "@ + arch
                + "/"@ + name,
        ),
        None => no_issues(),
    }) + issue_if(
        !facts.templates.contains((arch, name, version)),
        v.template_span,
        "template "@ + arch + "/"@ + name + version_suffix(version)
            + " not in the template store"@ + (if defines(f, arch, name) {
            " (defined in this file — run `vmlab template build` first)"@
        } else {
            ""@
        }),
    ) + issue_if(
        v.disk is Some,
        v.span,
        "vm \""@ + v.name
            + "\": `disk` sets the primary disk size for scratch VMs only — clones inherit the template's disk; use `disk \"name\" {}` blocks for additional disks"@,
    )
}

/// What is wrong with the template of a guest.
pub open spec fn vm_template_check(
    f: LabFileView,
    v: VmView,
    facts: FactsView,
    arches: Seq<Seq<char>>,
) -> Seq<IssueView> {
    match v.template {
        TemplateRefView::Scratch => scratch_check(v, arches),
        TemplateRefView::Store { arch, name, version } => store_check(
            f,
            v,
            arch,
            name,
            version,
            facts,
        ),
        TemplateRefView::Registry { reference } => issue_if(
            v.arch is None,
            v.template_span,
            "registry template `"@ + reference + "` requires an explicit `arch`"@,
        ),
    }
}

/// What is wrong with a profile that a guest or a template names.
pub open spec fn profile_check(
    profile: Option<Seq<char>>,
    span: Span,
    facts: FactsView,
) -> Seq<IssueView> {
    match profile {
        Some(p) => issue_if(
            !facts.profiles.contains(p),
            span,
            "unknown profile \""@ + p + "\""@,
        ),
        None => no_issues(),
    }
}

fn vm_seen(lab: &Lab, i: usize) -> (r: bool)
    requires
        i < lab.vms@.len(),
    ensures
        r == vm_repeats(lab.deep_view(), i as int),
{
    let ghost all = lab.deep_view().vms;
    let name = lab.vms[i].name.as_str();
    assert(all[i as int].name == name@);
    let mut j: usize = 0;
    while j < i
        invariant
            j <= i < lab.vms@.len(),
            all == lab.deep_view().vms,
            all.len() == lab.vms@.len(),
            name@ == all[i as int].name,
            forall|k: int| 0 <= k < j ==> #[trigger] all[k].name != name@,
        decreases i - j,
    {
        assert(all[j as int] == lab.vms@[j as int].deep_view());
        if str_eq(lab.vms[j].name.as_str(), name) {
            assert(all[j as int].name == all[i as int].name);
            return true;
        }
        j = j + 1;
    }
    false
}

fn version_text(version: &Option<String>) -> (r: String)
    ensures
        r@ == version_suffix(version.deep_view()),
{
    match version {
        Some(v) => joined("@", v.as_str()),
        None => "".to_owned(),
    }
}

fn defined_here(file: &LabFile, arch: &str, name: &str) -> (r: bool)
    ensures
        r == defines(file.deep_view(), arch@, name@),
{
    let ghost all = file.deep_view().templates;
    let mut i: usize = 0;
    while i < file.templates.len()
        invariant
            i <= file.templates@.len(),
            all == file.deep_view().templates,
            all.len() == file.templates@.len(),
            forall|j: int|
                0 <= j < i ==> !(#[trigger] all[j].arch == arch@ && all[j].name == name@),
        decreases file.templates@.len() - i,
    {
        let t = &file.templates[i];
        assert(all[i as int] == t.deep_view());
        if str_eq(t.arch.as_str(), arch) && str_eq(t.name.as_str(), name) {
            assert(file.deep_view().templates[i as int].arch == arch@);
            return true;
        }
        i = i + 1;
    }
    false
}

fn check_scratch(vm: &Vm, cat: &Catalogue, issues: &mut IssueList)
    ensures
        final(issues).deep_view() == old(issues).deep_view() + scratch_check(
            vm.deep_view(),
            cat.deep_view().arches,
        ),
{
    broadcast use {lemma_cat, lemma_cat_nothing};

    if vm.arch.is_none() {
        note(
            issues,
            vm.template_span,
            cat3("scratch vm \"", vm.name.as_str(), "\" requires `arch`"),
        );
    }
    if vm.profile.is_none() {
        note(
            issues,
            vm.template_span,
            cat3("scratch vm \"", vm.name.as_str(), "\" requires `profile`"),
        );
    }
    if vm.disk.is_none() {
        note(
            issues,
            vm.template_span,
            cat3("scratch vm \"", vm.name.as_str(), "\" requires `disk`"),
        );
    }
    if let Some(arch) = &vm.arch {
        if !any_string(&cat.arches, arch.as_str()) {
            let known = join_strings(&cat.arches, ", ");
            note(
                issues,
                vm.span,
                cat5("unknown arch `", arch.as_str(), "` (known: ", known.as_str(), ")"),
            );
        }
    }
}

fn check_store(
    file: &LabFile,
    vm: &Vm,
    arch: &String,
    name: &String,
    version: &Option<String>,
    facts: &Facts,
    issues: &mut IssueList,
)
    ensures
        final(issues).deep_view() == old(issues).deep_view() + store_check(
            file.deep_view(),
            vm.deep_view(),
            arch@,
            name@,
            version.deep_view(),
            facts.deep_view(),
        ),
{
    broadcast use {lemma_cat, lemma_cat_nothing};

    if let Some(own) = &vm.arch {
        if !str_eq(own.as_str(), arch.as_str()) {
            let m = cat5(
                "vm \"",
                vm.name.as_str(),
                "\" sets arch = \"",
                own.as_str(),
                "\" but its template is ",
            );
            let m = cat3(m.as_str(), arch.as_str(), "/");
            note(issues, vm.span, joined(m.as_str(), name.as_str()));
        }
    }
    if !facts.has_template(arch.as_str(), name.as_str(), version) {
        let hint = if defined_here(file, arch.as_str(), name.as_str()) {
            " (defined in this file — run `vmlab template build` first)"
        } else {
            ""
        };
        let suffix = version_text(version);
        note(
            issues,
            vm.template_span,
            cat7(
                "template ",
                arch.as_str(),
                "/",
                name.as_str(),
                suffix.as_str(),
                " not in the template store",
                hint,
            ),
        );
    }
    if vm.disk.is_some() {
        note(
            issues,
            vm.span,
            cat3(
                "vm \"",
                vm.name.as_str(),
                "\": `disk` sets the primary disk size for scratch VMs only — clones inherit the template's disk; use `disk \"name\" {}` blocks for additional disks",
            ),
        );
    }
}

pub fn check_vm_template(
    file: &LabFile,
    vm: &Vm,
    facts: &Facts,
    cat: &Catalogue,
    issues: &mut IssueList,
)
    ensures
        final(issues).deep_view() == old(issues).deep_view() + vm_template_check(
            file.deep_view(),
            vm.deep_view(),
            facts.deep_view(),
            cat.deep_view().arches,
        ),
{
    broadcast use lemma_cat_nothing;

    match &vm.template {
        TemplateRef::Scratch => check_scratch(vm, cat, issues),
        TemplateRef::Store { arch, name, version } => check_store(
            file,
            vm,
            arch,
            name,
            version,
            facts,
            issues,
        ),
        TemplateRef::Registry { reference } => {
            if vm.arch.is_none() {
                note(
                    issues,
                    vm.template_span,
                    cat3(
                        "registry template `",
                        reference.as_str(),
                        "` requires an explicit `arch`",
                    ),
                );
            }
        },
    }
}

fn check_profile(profile: &Option<String>, span: Span, facts: &Facts, issues: &mut IssueList)
    ensures
        final(issues).deep_view() == old(issues).deep_view() + profile_check(
            profile.deep_view(),
            span,
            facts.deep_view(),
        ),
{
    broadcast use lemma_cat_nothing;

    if let Some(p) = profile {
        if !any_string(&facts.profiles, p.as_str()) {
            note(issues, span, cat3("unknown profile \"", p.as_str(), "\""));
        }
    }
}

// -- network cards ------------------------------------------------------------------------

/// Which segment a network card is on, and what is wrong where that is not
/// clear: `None` for the built-in NAT segment.
pub open spec fn nic_segment(lab: LabView, n: NicView) -> Result<Option<SegmentView>, Seq<char>> {
    match (n.segment, n.nat) {
        (Some(_), true) => Err(
            "nic declares both `segment` and `nat = true` — `nat = true` is the shorthand for the built-in NAT segment; pick one"@,
        ),
        (None, false) => Err(
            "nic needs `segment = \"...\"` or `nat = true` (a vm with no nic blocks is air-gapped — an empty nic is meaningless)"@,
        ),
        (Some(name), false) => match find_segment(lab.segments, name) {
            Some(s) => Ok(Some(s)),
            None => Err("nic references undeclared segment \""@ + name + "\""@),
        },
        (None, true) => Ok(None),
    }
}

/// The first usable address of a network, which the daemon claims as gateway.
pub open spec fn gateway_of(net: Ipv4Net) -> Ipv4Addr {
    Ipv4Addr {
        bits: if net.first() == 0xFFFF_FFFF {
            0
        } else {
            (net.first() + 1) as u32
        },
    }
}

/// What is wrong with a static address on a segment.
pub open spec fn static_ip_check(
    ip: Ipv4Addr,
    seg: Option<SegmentView>,
    span: Span,
) -> Seq<IssueView> {
    match seg {
        None => one_issue(
            span,
            "static `ip` is not supported on the built-in NAT segment — declare a segment with a subnet instead"@,
        ),
        Some(s) => match s.subnet {
            None => one_issue(
                span,
                "static ip "@ + ip_text(ip) + " on segment \""@ + s.name
                    + "\" which has no declared subnet — deterministic addresses need `subnet = ...`"@,
            ),
            Some(net) => if !net.holds(ip) {
                one_issue(
                    span,
                    "static ip "@ + ip_text(ip) + " is outside segment \""@ + s.name
                        + "\" subnet "@ + net_text(net),
                )
            } else {
                issue_if(
                    ip.bits == net.first() || ip.bits == net.last() || ip == gateway_of(net),
                    span,
                    "static ip "@ + ip_text(ip) + " collides with a reserved address on "@
                        + net_text(net) + " (network/broadcast/gateway "@ + ip_text(
                        gateway_of(net),
                    ) + ")"@,
                )
            },
        },
    }
}

/// What is wrong with a network card, when `ips` and `macs` are those of the
/// cards before it.
pub open spec fn nic_check(
    lab: LabView,
    n: NicView,
    ips: Seq<Ipv4Addr>,
    macs: Seq<MacAddr>,
) -> Seq<IssueView> {
    match nic_segment(lab, n) {
        Err(e) => one_issue(n.span, e),
        Ok(seg) => (match n.ip {
            Some(ip) => static_ip_check(ip, seg, n.span) + issue_if(
                ips.contains(ip),
                n.span,
                "duplicate static ip "@ + ip_text(ip),
            ),
            None => no_issues(),
        }) + match n.mac {
            Some(mac) => issue_if(
                macs.contains(mac),
                n.span,
                "duplicate MAC "@ + mac_text(mac),
            ),
            None => no_issues(),
        },
    }
}

/// The static addresses of network cards whose segment is clear.
pub open spec fn nic_ips(lab: LabView, nics: Seq<NicView>) -> Seq<Ipv4Addr>
    decreases nics.len(),
{
    if nics.len() == 0 {
        Seq::empty()
    } else {
        let front = nic_ips(lab, nics.drop_last());
        let n = nics.last();
        match n.ip {
            Some(ip) => if nic_segment(lab, n) is Ok {
                front.push(ip)
            } else {
                front
            },
            None => front,
        }
    }
}

/// The hardware addresses of network cards whose segment is clear.
pub open spec fn nic_macs(lab: LabView, nics: Seq<NicView>) -> Seq<MacAddr>
    decreases nics.len(),
{
    if nics.len() == 0 {
        Seq::empty()
    } else {
        let front = nic_macs(lab, nics.drop_last());
        let n = nics.last();
        match n.mac {
            Some(mac) => if nic_segment(lab, n) is Ok {
                front.push(mac)
            } else {
                front
            },
            None => front,
        }
    }
}

/// The static addresses of the first `i` guests.
pub open spec fn ips_before(lab: LabView, i: int) -> Seq<Ipv4Addr>
    decreases i,
{
    if i <= 0 {
        Seq::empty()
    } else {
        ips_before(lab, i - 1) + nic_ips(lab, lab.vms[i - 1].nics)
    }
}

/// The hardware addresses of the first `i` guests.
pub open spec fn macs_before(lab: LabView, i: int) -> Seq<MacAddr>
    decreases i,
{
    if i <= 0 {
        Seq::empty()
    } else {
        macs_before(lab, i - 1) + nic_macs(lab, lab.vms[i - 1].nics)
    }
}

/// What is wrong with each card of a guest, when these addresses came before.
pub open spec fn nics_behind(
    lab: LabView,
    i: int,
    ips: Seq<Ipv4Addr>,
    macs: Seq<MacAddr>,
) -> spec_fn(int) -> Seq<IssueView> {
    |k: int|
        nic_check(
            lab,
            lab.vms[i].nics[k],
            ips + nic_ips(lab, lab.vms[i].nics.take(k)),
            macs + nic_macs(lab, lab.vms[i].nics.take(k)),
        )
}

pub open spec fn nics_in(lab: LabView, i: int) -> spec_fn(int) -> Seq<IssueView> {
    nics_behind(lab, i, ips_before(lab, i), macs_before(lab, i))
}

/// The daemon claims the first usable address of every segment as its gateway
/// (DHCP/DNS/NAT/share endpoint). Behind the last address of all it wraps
/// round.
pub fn gateway_ip(net: &Ipv4Net) -> (r: Ipv4Addr)
    ensures
        r == gateway_of(*net),
{
    let base = net.network();
    Ipv4Addr { bits: base.bits.wrapping_add(1) }
}

fn ip_seen(seen: &Vec<Ipv4Addr>, ip: Ipv4Addr) -> (r: bool)
    ensures
        r == seen@.contains(ip),
{
    let mut i: usize = 0;
    while i < seen.len()
        invariant
            i <= seen@.len(),
            forall|j: int| 0 <= j < i ==> seen@[j] != ip,
        decreases seen@.len() - i,
    {
        if seen[i] == ip {
            return true;
        }
        i = i + 1;
    }
    false
}

fn mac_seen(seen: &Vec<MacAddr>, mac: MacAddr) -> (r: bool)
    ensures
        r == seen@.contains(mac),
{
    let mut i: usize = 0;
    while i < seen.len()
        invariant
            i <= seen@.len(),
            forall|j: int| 0 <= j < i ==> seen@[j] != mac,
        decreases seen@.len() - i,
    {
        if seen[i].same(&mac) {
            return true;
        }
        i = i + 1;
    }
    false
}

fn check_static_ip(ip: Ipv4Addr, seg: Option<&Segment>, span: Span, issues: &mut IssueList)
    ensures
        final(issues).deep_view() == old(issues).deep_view() + static_ip_check(
            ip,
            match seg {
                Some(s) => Some(s.deep_view()),
                None => None,
            },
            span,
        ),
{
    broadcast use lemma_cat_nothing;

    match seg {
        None => note(
            issues,
            span,
            "static `ip` is not supported on the built-in NAT segment — declare a segment with a subnet instead".to_owned(),
        ),
        Some(s) => match &s.subnet {
            None => {
                let m = cat5(
                    "static ip ",
                    ip.to_text().as_str(),
                    " on segment \"",
                    s.name.as_str(),
                    "\" which has no declared subnet — deterministic addresses need `subnet = ...`",
                );
                note(issues, span, m);
            },
            Some(net) => {
                if !net.contains(ip) {
                    let m = cat5(
                        "static ip ",
                        ip.to_text().as_str(),
                        " is outside segment \"",
                        s.name.as_str(),
                        "\" subnet ",
                    );
                    note(issues, span, joined(m.as_str(), net.to_text().as_str()));
                } else if ip == net.network() || ip == net.broadcast() || ip == gateway_ip(net) {
                    let m = cat7(
                        "static ip ",
                        ip.to_text().as_str(),
                        " collides with a reserved address on ",
                        net.to_text().as_str(),
                        " (network/broadcast/gateway ",
                        gateway_ip(net).to_text().as_str(),
                        ")",
                    );
                    note(issues, span, m);
                }
            },
        },
    }
}

fn resolve_nic<'a>(lab: &'a Lab, nic: &Nic) -> (r: Result<Option<&'a Segment>, String>)
    ensures
        match r {
            Ok(s) => nic_segment(lab.deep_view(), nic.deep_view()) == Ok::<
                Option<SegmentView>,
                Seq<char>,
            >(
                match s {
                    Some(x) => Some(x.deep_view()),
                    None => None,
                },
            ),
            Err(e) => nic_segment(lab.deep_view(), nic.deep_view()) == Err::<
                Option<SegmentView>,
                Seq<char>,
            >(e@),
        },
{
    match (&nic.segment, nic.nat) {
        (Some(_), true) => Err(
            "nic declares both `segment` and `nat = true` — `nat = true` is the shorthand for the built-in NAT segment; pick one".to_owned(),
        ),
        (None, false) => Err(
            "nic needs `segment = \"...\"` or `nat = true` (a vm with no nic blocks is air-gapped — an empty nic is meaningless)".to_owned(),
        ),
        (Some(name), false) => match segment_index(lab, name.as_str()) {
            Some(i) => Ok(Some(&lab.segments[i])),
            None => Err(cat3("nic references undeclared segment \"", name.as_str(), "\"")),
        },
        (None, true) => Ok(None),
    }
}

fn check_nic(
    lab: &Lab,
    nic: &Nic,
    ips: &mut Vec<Ipv4Addr>,
    macs: &mut Vec<MacAddr>,
    issues: &mut IssueList,
)
    ensures
        final(issues).deep_view() == old(issues).deep_view() + nic_check(
            lab.deep_view(),
            nic.deep_view(),
            old(ips)@,
            old(macs)@,
        ),
        final(ips)@ == (match nic.ip {
            Some(ip) => if nic_segment(lab.deep_view(), nic.deep_view()) is Ok {
                old(ips)@.push(ip)
            } else {
                old(ips)@
            },
            None => old(ips)@,
        }),
        final(macs)@ == (match nic.mac {
            Some(mac) => if nic_segment(lab.deep_view(), nic.deep_view()) is Ok {
                old(macs)@.push(mac)
            } else {
                old(macs)@
            },
            None => old(macs)@,
        }),
{
    broadcast use {lemma_cat, lemma_cat_nothing};

    let seg = match resolve_nic(lab, nic) {
        Ok(s) => s,
        Err(e) => {
            note(issues, nic.span, e);
            return;
        },
    };
    if let Some(ip) = nic.ip {
        check_static_ip(ip, seg, nic.span, issues);
        if ip_seen(ips, ip) {
            note(issues, nic.span, joined("duplicate static ip ", ip.to_text().as_str()));
        }
        ips.push(ip);
    }
    if let Some(mac) = nic.mac {
        if mac_seen(macs, mac) {
            note(issues, nic.span, joined("duplicate MAC ", mac.to_text().as_str()));
        }
        macs.push(mac);
    }
}

pub fn check_nics(
    lab: &Lab,
    i: usize,
    ips: &mut Vec<Ipv4Addr>,
    macs: &mut Vec<MacAddr>,
    issues: &mut IssueList,
)
    requires
        i < lab.vms@.len(),
    ensures
        final(issues).deep_view() == old(issues).deep_view() + each(
            lab.deep_view().vms[i as int].nics.len() as int,
            nics_behind(lab.deep_view(), i as int, old(ips)@, old(macs)@),
        ),
        final(ips)@ == old(ips)@ + nic_ips(lab.deep_view(), lab.deep_view().vms[i as int].nics),
        final(macs)@ == old(macs)@ + nic_macs(lab.deep_view(), lab.deep_view().vms[i as int].nics),
{
    broadcast use {lemma_cat, lemma_cat_nothing};

    let ghost l = lab.deep_view();
    let vm = &lab.vms[i];
    assert(l.vms[i as int] == vm.deep_view());
    let ghost all = l.vms[i as int].nics;
    let mut k: usize = 0;
    assert(all.take(0) =~= Seq::empty());
    assert(ips@ + nic_ips(l, all.take(0)) =~= ips@);
    assert(macs@ + nic_macs(l, all.take(0)) =~= macs@);
    while k < vm.nics.len()
        invariant
            k <= vm.nics@.len(),
            i < lab.vms@.len(),
            l == lab.deep_view(),
            l.vms[i as int] == vm.deep_view(),
            all == l.vms[i as int].nics,
            all.len() == vm.nics@.len(),
            ips@ == old(ips)@ + nic_ips(l, all.take(k as int)),
            macs@ == old(macs)@ + nic_macs(l, all.take(k as int)),
            issues.deep_view() == old(issues).deep_view() + each(
                k as int,
                nics_behind(l, i as int, old(ips)@, old(macs)@),
            ),
        decreases vm.nics@.len() - k,
    {
        broadcast use {lemma_cat, lemma_cat_nothing};

        let nic = &vm.nics[k];
        assert(all[k as int] == nic.deep_view());
        let ghost was_ips = ips@;
        let ghost was_macs = macs@;
        check_nic(lab, nic, ips, macs, issues);
        proof {
            let t = all.take(k + 1);
            assert(t.drop_last() =~= all.take(k as int));
            assert(t.last() == all[k as int]);
            assert(ips@ =~= old(ips)@ + nic_ips(l, t));
            assert(macs@ =~= old(macs)@ + nic_macs(l, t));
        }
        k = k + 1;
    }
    assert(all.take(k as int) =~= all);
}

// -- the rest of a guest --------------------------------------------------------------------

pub open spec fn depends_in(lab: LabView, i: int) -> spec_fn(int) -> Seq<IssueView> {
    |k: int|
        issue_if(
            !is_vm(lab, lab.vms[i].depends_on[k]),
            lab.vms[i].span,
            "vm \""@ + lab.vms[i].name + "\" depends_on undefined vm \""@
                + lab.vms[i].depends_on[k] + "\""@,
        )
}

/// What is wrong with a share.
pub open spec fn share_check(s: ShareView, facts: FactsView) -> Seq<IssueView> {
    issue_if(
        !facts.dirs.contains(s.host),
        s.span,
        "share host path "@ + s.host + " is not a directory"@,
    ) + issue_if(
        s.name.len() == 0,
        s.span,
        "cannot derive a share name from guest path `"@ + s.guest + "` — set `name`"@,
    )
}

pub open spec fn shares_in(v: VmView, facts: FactsView) -> spec_fn(int) -> Seq<IssueView> {
    |k: int| share_check(v.shares[k], facts)
}

/// What is wrong with a media image.
pub open spec fn media_check(m: MediaView, facts: FactsView) -> Seq<IssueView> {
    issue_if(
        !facts.dirs.contains(m.from),
        m.span,
        "media source folder "@ + m.from + " does not exist"@,
    )
}

pub open spec fn media_in(all: Seq<MediaView>, facts: FactsView) -> spec_fn(int) -> Seq<
    IssueView,
> {
    |k: int| media_check(all[k], facts)
}

/// What is wrong with an additional disk.
pub open spec fn disk_check(d: DiskBlockView, facts: FactsView) -> Seq<IssueView> {
    match (d.size, d.from) {
        (None, None) => one_issue(
            d.span,
            "disk \""@ + d.name + "\" needs `size` and/or `from`"@,
        ),
        (_, Some(from)) => issue_if(
            !facts.dirs.contains(from),
            d.span,
            "disk \""@ + d.name + "\" source folder "@ + from + " does not exist"@,
        ),
        _ => no_issues(),
    }
}

pub open spec fn disks_in(all: Seq<DiskBlockView>, facts: FactsView) -> spec_fn(int) -> Seq<
    IssueView,
> {
    |k: int| disk_check(all[k], facts)
}

/// What is wrong with a GPU.
pub open spec fn gpu_check(gpu: Option<GpuView>) -> Seq<IssueView> {
    match gpu {
        Some(g) => issue_if(
            g.mode == GpuMode::Passthrough && g.address is None,
            g.span,
            "gpu passthrough requires `address = \"<host PCI address>\"`"@,
        ),
        None => no_issues(),
    }
}

/// What is wrong with an image that a guest attaches.
pub open spec fn attachment_check(
    v: VmView,
    path: Option<Seq<char>>,
    facts: FactsView,
) -> Seq<IssueView> {
    match path {
        Some(p) => issue_if(
            !facts.files.contains(p),
            v.span,
            "vm \""@ + v.name + "\": attachment "@ + p + " does not exist"@,
        ),
        None => no_issues(),
    }
}

/// What is wrong with a guest.
pub open spec fn vm_check(
    f: LabFileView,
    i: int,
    facts: FactsView,
    cat: CatalogueView,
) -> Seq<IssueView> {
    let v = f.lab.vms[i];
    issue_if(vm_repeats(f.lab, i), v.span, "duplicate vm \""@ + v.name + "\""@) + label_check(
        v.name,
        v.span,
        "vm name"@,
    ) + vm_template_check(f, v, facts, cat.arches) + profile_check(v.profile, v.span, facts) + each(
        v.nics.len() as int,
        nics_in(f.lab, i),
    ) + each(v.depends_on.len() as int, depends_in(f.lab, i)) + issue_if(
        v.shares.len() > 0 && v.nics.len() == 0,
        v.span,
        "vm \""@ + v.name
            + "\" declares shares but has no NICs — shares are reachable only over a segment"@,
    ) + each(v.shares.len() as int, shares_in(v, facts)) + each(
        v.media.len() as int,
        media_in(v.media, facts),
    ) + each(v.extra_disks.len() as int, disks_in(v.extra_disks, facts)) + gpu_check(v.gpu)
        + attachment_check(v, v.cdrom, facts) + attachment_check(v, v.floppy, facts)
}

pub open spec fn vm_checks(f: LabFileView, facts: FactsView, cat: CatalogueView) -> spec_fn(
    int,
) -> Seq<IssueView> {
    |i: int| vm_check(f, i, facts, cat)
}

fn check_depends(lab: &Lab, i: usize, issues: &mut IssueList)
    requires
        i < lab.vms@.len(),
    ensures
        final(issues).deep_view() == old(issues).deep_view() + each(
            lab.deep_view().vms[i as int].depends_on.len() as int,
            depends_in(lab.deep_view(), i as int),
        ),
{
    broadcast use {lemma_cat, lemma_cat_nothing};

    let vm = &lab.vms[i];
    assert(lab.deep_view().vms[i as int] == vm.deep_view());
    let mut k: usize = 0;
    while k < vm.depends_on.len()
        invariant
            k <= vm.depends_on@.len(),
            i < lab.vms@.len(),
            lab.deep_view().vms[i as int] == vm.deep_view(),
            issues.deep_view() == old(issues).deep_view() + each(
                k as int,
                depends_in(lab.deep_view(), i as int),
            ),
        decreases vm.depends_on@.len() - k,
    {
        broadcast use {lemma_cat, lemma_cat_nothing};

        let dep = vm.depends_on[k].as_str();
        assert(vm.deep_view().depends_on[k as int] == dep@);
        if vm_index(lab, dep).is_none() {
            note(
                issues,
                vm.span,
                cat5("vm \"", vm.name.as_str(), "\" depends_on undefined vm \"", dep, "\""),
            );
        }
        k = k + 1;
    }
}

fn check_shares(vm: &Vm, facts: &Facts, issues: &mut IssueList)
    ensures
        final(issues).deep_view() == old(issues).deep_view() + each(
            vm.deep_view().shares.len() as int,
            shares_in(vm.deep_view(), facts.deep_view()),
        ),
{
    broadcast use {lemma_cat, lemma_cat_nothing};

    let mut k: usize = 0;
    while k < vm.shares.len()
        invariant
            k <= vm.shares@.len(),
            issues.deep_view() == old(issues).deep_view() + each(
                k as int,
                shares_in(vm.deep_view(), facts.deep_view()),
            ),
        decreases vm.shares@.len() - k,
    {
        broadcast use {lemma_cat, lemma_cat_nothing};

        let s = &vm.shares[k];
        assert(vm.deep_view().shares[k as int] == s.deep_view());
        if !any_string(&facts.dirs, s.host.as_str()) {
            note(
                issues,
                s.span,
                cat3("share host path ", s.host.as_str(), " is not a directory"),
            );
        }
        if is_empty_text(s.name.as_str()) {
            note(
                issues,
                s.span,
                cat3(
                    "cannot derive a share name from guest path `",
                    s.guest.as_str(),
                    "` — set `name`",
                ),
            );
        }
        k = k + 1;
    }
}

pub fn check_media(all: &Vec<Media>, facts: &Facts, issues: &mut IssueList)
    ensures
        final(issues).deep_view() == old(issues).deep_view() + each(
            all@.len() as int,
            media_in(all.deep_view(), facts.deep_view()),
        ),
{
    broadcast use {lemma_cat, lemma_cat_nothing};

    let mut k: usize = 0;
    while k < all.len()
        invariant
            k <= all@.len(),
            issues.deep_view() == old(issues).deep_view() + each(
                k as int,
                media_in(all.deep_view(), facts.deep_view()),
            ),
        decreases all@.len() - k,
    {
        broadcast use {lemma_cat, lemma_cat_nothing};

        let m = &all[k];
        assert(all.deep_view()[k as int] == m.deep_view());
        if !any_string(&facts.dirs, m.from.as_str()) {
            note(
                issues,
                m.span,
                cat3("media source folder ", m.from.as_str(), " does not exist"),
            );
        }
        k = k + 1;
    }
}

fn check_disk_block(d: &DiskBlock, facts: &Facts, issues: &mut IssueList)
    ensures
        final(issues).deep_view() == old(issues).deep_view() + disk_check(
            d.deep_view(),
            facts.deep_view(),
        ),
{
    broadcast use lemma_cat_nothing;

    match (&d.size, &d.from) {
        (None, None) => note(
            issues,
            d.span,
            cat3("disk \"", d.name.as_str(), "\" needs `size` and/or `from`"),
        ),
        (_, Some(from)) => {
            if !any_string(&facts.dirs, from.as_str()) {
                note(
                    issues,
                    d.span,
                    cat5(
                        "disk \"",
                        d.name.as_str(),
                        "\" source folder ",
                        from.as_str(),
                        " does not exist",
                    ),
                );
            }
        },
        _ => {},
    }
}

fn check_disks(all: &Vec<DiskBlock>, facts: &Facts, issues: &mut IssueList)
    ensures
        final(issues).deep_view() == old(issues).deep_view() + each(
            all@.len() as int,
            disks_in(all.deep_view(), facts.deep_view()),
        ),
{
    broadcast use {lemma_cat, lemma_cat_nothing};

    let mut k: usize = 0;
    while k < all.len()
        invariant
            k <= all@.len(),
            issues.deep_view() == old(issues).deep_view() + each(
                k as int,
                disks_in(all.deep_view(), facts.deep_view()),
            ),
        decreases all@.len() - k,
    {
        broadcast use {lemma_cat, lemma_cat_nothing};

        assert(all.deep_view()[k as int] == all@[k as int].deep_view());
        check_disk_block(&all[k], facts, issues);
        k = k + 1;
    }
}

fn check_gpu(gpu: &Option<Gpu>, issues: &mut IssueList)
    ensures
        final(issues).deep_view() == old(issues).deep_view() + gpu_check(gpu.deep_view()),
{
    broadcast use lemma_cat_nothing;

    if let Some(g) = gpu {
        if g.mode == GpuMode::Passthrough && g.address.is_none() {
            note(
                issues,
                g.span,
                "gpu passthrough requires `address = \"<host PCI address>\"`".to_owned(),
            );
        }
    }
}

fn check_attachment(vm: &Vm, path: &Option<String>, facts: &Facts, issues: &mut IssueList)
    ensures
        final(issues).deep_view() == old(issues).deep_view() + attachment_check(
            vm.deep_view(),
            path.deep_view(),
            facts.deep_view(),
        ),
{
    broadcast use lemma_cat_nothing;

    if let Some(p) = path {
        if !any_string(&facts.files, p.as_str()) {
            note(
                issues,
                vm.span,
                cat5(
                    "vm \"",
                    vm.name.as_str(),
                    "\": attachment ",
                    p.as_str(),
                    " does not exist",
                ),
            );
        }
    }
}

#[verifier::rlimit(60)]
fn check_vm(
    file: &LabFile,
    i: usize,
    facts: &Facts,
    cat: &Catalogue,
    ips: &mut Vec<Ipv4Addr>,
    macs: &mut Vec<MacAddr>,
    issues: &mut IssueList,
)
    requires
        i < file.lab.vms@.len(),
        old(ips)@ == ips_before(file.lab.deep_view(), i as int),
        old(macs)@ == macs_before(file.lab.deep_view(), i as int),
    ensures
        final(issues).deep_view() == old(issues).deep_view() + vm_check(
            file.deep_view(),
            i as int,
            facts.deep_view(),
            cat.deep_view(),
        ),
        final(ips)@ == ips_before(file.lab.deep_view(), i + 1),
        final(macs)@ == macs_before(file.lab.deep_view(), i + 1),
{
    broadcast use {lemma_cat, lemma_cat_nothing};

    let lab = &file.lab;
    let vm = &lab.vms[i];
    assert(lab.deep_view().vms[i as int] == vm.deep_view());
    assert(file.deep_view().lab == lab.deep_view());
    if vm_seen(lab, i) {
        note(issues, vm.span, cat3("duplicate vm \"", vm.name.as_str(), "\""));
    }
    check_dns_label(vm.name.as_str(), vm.span, "vm name", issues);
    check_vm_template(file, vm, facts, cat, issues);
    check_profile(&vm.profile, vm.span, facts, issues);
    check_nics(lab, i, ips, macs, issues);
    check_depends(lab, i, issues);
    if vm.shares.len() > 0 && vm.nics.len() == 0 {
        note(
            issues,
            vm.span,
            cat3(
                "vm \"",
                vm.name.as_str(),
                "\" declares shares but has no NICs — shares are reachable only over a segment",
            ),
        );
    }
    check_shares(vm, facts, issues);
    check_media(&vm.media, facts, issues);
    check_disks(&vm.extra_disks, facts, issues);
    check_gpu(&vm.gpu, issues);
    check_attachment(vm, &vm.cdrom, facts, issues);
    check_attachment(vm, &vm.floppy, facts, issues);
}

// -- scripts --------------------------------------------------------------------------------

pub open spec fn scopes_in(lab: LabView, i: int) -> spec_fn(int) -> Seq<IssueView> {
    |k: int|
        issue_if(
            !is_vm(lab, lab.provisions[i].vms[k]),
            lab.provisions[i].span,
            "provision scopes undefined vm \""@ + lab.provisions[i].vms[k] + "\""@,
        )
}

pub open spec fn provision_checks(lab: LabView) -> spec_fn(int) -> Seq<IssueView> {
    |i: int| each(lab.provisions[i].vms.len() as int, scopes_in(lab, i))
}

pub open spec fn handler_checks(lab: LabView, events: Seq<Seq<char>>) -> spec_fn(int) -> Seq<
    IssueView,
> {
    |i: int|
        issue_if(
            !events.contains(lab.handlers[i].event),
            lab.handlers[i].span,
            "unknown event \""@ + lab.handlers[i].event + "\" (known: "@ + join(events, ", "@)
                + ")"@,
        )
}

/// What is wrong with a script.
pub open spec fn script_check(path: Seq<char>, span: Span, facts: FactsView) -> Seq<IssueView> {
    if !facts.files.contains(path) {
        one_issue(span, "script "@ + path + " does not exist"@)
    } else {
        match script_error(facts.script_errors, path) {
            Some(e) => one_issue(span, path + ": "@ + e),
            None => no_issues(),
        }
    }
}

pub open spec fn provision_scripts(lab: LabView, facts: FactsView) -> spec_fn(int) -> Seq<
    IssueView,
> {
    |i: int| script_check(lab.provisions[i].script, lab.provisions[i].span, facts)
}

pub open spec fn handler_scripts(lab: LabView, facts: FactsView) -> spec_fn(int) -> Seq<
    IssueView,
> {
    |i: int| script_check(lab.handlers[i].run, lab.handlers[i].span, facts)
}

pub open spec fn build_scripts(t: TemplateDefView, facts: FactsView) -> spec_fn(int) -> Seq<
    IssueView,
> {
    |i: int| script_check(t.provisions[i].script, t.provisions[i].span, facts)
}

/// What is wrong with the scripts of a template.
pub open spec fn template_script_check(t: TemplateDefView, facts: FactsView) -> Seq<IssueView> {
    each(t.provisions.len() as int, build_scripts(t, facts)) + match t.first_boot {
        Some(p) => script_check(p, t.span, facts),
        None => no_issues(),
    }
}

pub open spec fn template_scripts(f: LabFileView, facts: FactsView) -> spec_fn(int) -> Seq<
    IssueView,
> {
    |i: int| template_script_check(f.templates[i], facts)
}

fn check_provisions(lab: &Lab, issues: &mut IssueList)
    ensures
        final(issues).deep_view() == old(issues).deep_view() + each(
            lab.provisions@.len() as int,
            provision_checks(lab.deep_view()),
        ),
{
    broadcast use {lemma_cat, lemma_cat_nothing};

    let ghost l = lab.deep_view();
    let mut i: usize = 0;
    while i < lab.provisions.len()
        invariant
            i <= lab.provisions@.len(),
            l == lab.deep_view(),
            issues.deep_view() == old(issues).deep_view() + each(i as int, provision_checks(l)),
        decreases lab.provisions@.len() - i,
    {
        broadcast use {lemma_cat, lemma_cat_nothing};

        let p = &lab.provisions[i];
        assert(l.provisions[i as int] == p.deep_view());
        let ghost before = issues.deep_view();
        let mut k: usize = 0;
        while k < p.vms.len()
            invariant
                k <= p.vms@.len(),
                l == lab.deep_view(),
                l.provisions[i as int] == p.deep_view(),
                issues.deep_view() == before + each(k as int, scopes_in(l, i as int)),
            decreases p.vms@.len() - k,
        {
            broadcast use {lemma_cat, lemma_cat_nothing};

            let vm = p.vms[k].as_str();
            assert(p.deep_view().vms[k as int] == vm@);
            if vm_index(lab, vm).is_none() {
                note(issues, p.span, cat3("provision scopes undefined vm \"", vm, "\""));
            }
            k = k + 1;
        }
        i = i + 1;
    }
}

fn check_handlers(lab: &Lab, cat: &Catalogue, issues: &mut IssueList)
    ensures
        final(issues).deep_view() == old(issues).deep_view() + each(
            lab.handlers@.len() as int,
            handler_checks(lab.deep_view(), cat.deep_view().events),
        ),
{
    broadcast use {lemma_cat, lemma_cat_nothing};

    let mut i: usize = 0;
    while i < lab.handlers.len()
        invariant
            i <= lab.handlers@.len(),
            issues.deep_view() == old(issues).deep_view() + each(
                i as int,
                handler_checks(lab.deep_view(), cat.deep_view().events),
            ),
        decreases lab.handlers@.len() - i,
    {
        broadcast use {lemma_cat, lemma_cat_nothing};

        let h = &lab.handlers[i];
        assert(lab.deep_view().handlers[i as int] == h.deep_view());
        if !any_string(&cat.events, h.event.as_str()) {
            let known = join_strings(&cat.events, ", ");
            note(
                issues,
                h.span,
                cat5("unknown event \"", h.event.as_str(), "\" (known: ", known.as_str(), ")"),
            );
        }
        i = i + 1;
    }
}

fn check_script(path: &String, span: Span, facts: &Facts, issues: &mut IssueList)
    ensures
        final(issues).deep_view() == old(issues).deep_view() + script_check(
            path@,
            span,
            facts.deep_view(),
        ),
{
    broadcast use lemma_cat_nothing;

    if !any_string(&facts.files, path.as_str()) {
        note(issues, span, cat3("script ", path.as_str(), " does not exist"));
    } else if let Some(e) = facts.error_of(path.as_str()) {
        note(issues, span, cat3(path.as_str(), ": ", e.as_str()));
    }
}

fn check_lab_scripts(lab: &Lab, facts: &Facts, issues: &mut IssueList)
    ensures
        final(issues).deep_view() == old(issues).deep_view() + (each(
            lab.provisions@.len() as int,
            provision_scripts(lab.deep_view(), facts.deep_view()),
        ) + each(
            lab.handlers@.len() as int,
            handler_scripts(lab.deep_view(), facts.deep_view()),
        )),
{
    broadcast use {lemma_cat, lemma_cat_nothing};

    let ghost l = lab.deep_view();
    let mut i: usize = 0;
    while i < lab.provisions.len()
        invariant
            i <= lab.provisions@.len(),
            l == lab.deep_view(),
            issues.deep_view() == old(issues).deep_view() + each(
                i as int,
                provision_scripts(l, facts.deep_view()),
            ),
        decreases lab.provisions@.len() - i,
    {
        broadcast use {lemma_cat, lemma_cat_nothing};

        let p = &lab.provisions[i];
        assert(l.provisions[i as int] == p.deep_view());
        check_script(&p.script, p.span, facts, issues);
        i = i + 1;
    }
    let ghost before = issues.deep_view();
    let mut j: usize = 0;
    while j < lab.handlers.len()
        invariant
            j <= lab.handlers@.len(),
            l == lab.deep_view(),
            issues.deep_view() == before + each(j as int, handler_scripts(l, facts.deep_view())),
        decreases lab.handlers@.len() - j,
    {
        broadcast use {lemma_cat, lemma_cat_nothing};

        let h = &lab.handlers[j];
        assert(l.handlers[j as int] == h.deep_view());
        check_script(&h.run, h.span, facts, issues);
        j = j + 1;
    }
}

fn check_template_scripts(t: &TemplateDef, facts: &Facts, issues: &mut IssueList)
    ensures
        final(issues).deep_view() == old(issues).deep_view() + template_script_check(
            t.deep_view(),
            facts.deep_view(),
        ),
{
    broadcast use {lemma_cat, lemma_cat_nothing};

    let mut i: usize = 0;
    while i < t.provisions.len()
        invariant
            i <= t.provisions@.len(),
            issues.deep_view() == old(issues).deep_view() + each(
                i as int,
                build_scripts(t.deep_view(), facts.deep_view()),
            ),
        decreases t.provisions@.len() - i,
    {
        broadcast use {lemma_cat, lemma_cat_nothing};

        let p = &t.provisions[i];
        assert(t.deep_view().provisions[i as int] == p.deep_view());
        check_script(&p.script, p.span, facts, issues);
        i = i + 1;
    }
    if let Some(p) = &t.first_boot {
        check_script(p, t.span, facts, issues);
    }
}

// -- template definitions -------------------------------------------------------------------

/// Whether an earlier definition is of the same template.
pub open spec fn template_repeats(f: LabFileView, i: int) -> bool {
    exists|j: int|
        0 <= j < i && #[trigger] f.templates[j].arch == f.templates[i].arch && f.templates[j].name
            == f.templates[i].name && f.templates[j].version == f.templates[i].version
}

/// What is wrong with what a template is built from.
pub open spec fn source_check(t: TemplateDefView, facts: FactsView) -> Seq<IssueView> {
    match t.source {
        TemplateSourceView::Template { from, span } => match from {
            TemplateRefView::Store { arch, name, version } => issue_if(
                !facts.templates.contains((arch, name, version)),
                span,
                "layered build source "@ + arch + "/"@ + name + version_suffix(version)
                    + " not in the template store"@,
            ),
            _ => no_issues(),
        },
        TemplateSourceView::Iso(a) => artefact_check(a, facts),
        TemplateSourceView::Qcow2(a) => artefact_check(a, facts),
        TemplateSourceView::Scratch { span } => issue_if(
            t.disk is None,
            span,
            "scratch-built template \""@ + t.name + "\" requires `disk`"@,
        ),
    }
}

/// What is wrong with a file that a template is built from.
pub open spec fn artefact_check(a: ArtefactSourceView, facts: FactsView) -> Seq<IssueView> {
    match a {
        ArtefactSourceView::Path { path, span } => issue_if(
            !facts.files.contains(path),
            span,
            "source file "@ + path + " does not exist"@,
        ),
        ArtefactSourceView::Url { .. } => no_issues(),
    }
}

/// What is wrong with a template definition.
pub open spec fn template_check(f: LabFileView, i: int, facts: FactsView) -> Seq<IssueView> {
    let t = f.templates[i];
    issue_if(
        template_repeats(f, i),
        t.span,
        "duplicate template definition "@ + t.arch + "/"@ + t.name + "@"@ + t.version,
    ) + issue_if(
        t.version.len() == 0,
        t.span,
        "template version must not be empty"@,
    ) + profile_check(t.profile, t.span, facts) + source_check(t, facts) + each(
        t.media.len() as int,
        media_in(t.media, facts),
    ) + each(t.extra_disks.len() as int, disks_in(t.extra_disks, facts))
}

pub open spec fn template_checks(f: LabFileView, facts: FactsView) -> spec_fn(int) -> Seq<
    IssueView,
> {
    |i: int| template_check(f, i, facts)
}

fn template_seen(file: &LabFile, i: usize) -> (r: bool)
    requires
        i < file.templates@.len(),
    ensures
        r == template_repeats(file.deep_view(), i as int),
{
    let ghost all = file.deep_view().templates;
    let t = &file.templates[i];
    assert(all[i as int] == t.deep_view());
    let mut j: usize = 0;
    while j < i
        invariant
            j <= i < file.templates@.len(),
            all == file.deep_view().templates,
            all.len() == file.templates@.len(),
            all[i as int] == t.deep_view(),
            forall|k: int|
                0 <= k < j ==> !(#[trigger] all[k].arch == t.arch@ && all[k].name == t.name@
                    && all[k].version == t.version@),
        decreases i - j,
    {
        let o = &file.templates[j];
        assert(all[j as int] == o.deep_view());
        if str_eq(o.arch.as_str(), t.arch.as_str()) && str_eq(o.name.as_str(), t.name.as_str())
            && str_eq(o.version.as_str(), t.version.as_str()) {
            assert(all[j as int].arch == all[i as int].arch);
            return true;
        }
        j = j + 1;
    }
    false
}

fn check_artefact(a: &ArtefactSource, facts: &Facts, issues: &mut IssueList)
    ensures
        final(issues).deep_view() == old(issues).deep_view() + artefact_check(
            a.deep_view(),
            facts.deep_view(),
        ),
{
    broadcast use lemma_cat_nothing;

    if let ArtefactSource::Path { path, span } = a {
        if !any_string(&facts.files, path.as_str()) {
            note(issues, *span, cat3("source file ", path.as_str(), " does not exist"));
        }
    }
}

fn check_source(t: &TemplateDef, facts: &Facts, issues: &mut IssueList)
    ensures
        final(issues).deep_view() == old(issues).deep_view() + source_check(
            t.deep_view(),
            facts.deep_view(),
        ),
{
    broadcast use lemma_cat_nothing;

    match &t.source {
        TemplateSource::Template { from, span } => match from {
            TemplateRef::Store { arch, name, version } => {
                if !facts.has_template(arch.as_str(), name.as_str(), version) {
                    let suffix = version_text(version);
                    let m = cat5(
                        "layered build source ",
                        arch.as_str(),
                        "/",
                        name.as_str(),
                        suffix.as_str(),
                    );
                    note(issues, *span, joined(m.as_str(), " not in the template store"));
                }
            },
            _ => {},
        },
        TemplateSource::Iso(a) => check_artefact(a, facts, issues),
        TemplateSource::Qcow2(a) => check_artefact(a, facts, issues),
        TemplateSource::Scratch { span } => {
            if t.disk.is_none() {
                note(
                    issues,
                    *span,
                    cat3("scratch-built template \"", t.name.as_str(), "\" requires `disk`"),
                );
            }
        },
    }
}

fn check_template(file: &LabFile, i: usize, facts: &Facts, issues: &mut IssueList)
    requires
        i < file.templates@.len(),
    ensures
        final(issues).deep_view() == old(issues).deep_view() + template_check(
            file.deep_view(),
            i as int,
            facts.deep_view(),
        ),
{
    broadcast use {lemma_cat, lemma_cat_nothing};

    let t = &file.templates[i];
    assert(file.deep_view().templates[i as int] == t.deep_view());
    if template_seen(file, i) {
        let m = cat5(
            "duplicate template definition ",
            t.arch.as_str(),
            "/",
            t.name.as_str(),
            "@",
        );
        note(issues, t.span, joined(m.as_str(), t.version.as_str()));
    }
    if is_empty_text(t.version.as_str()) {
        note(issues, t.span, "template version must not be empty".to_owned());
    }
    check_profile(&t.profile, t.span, facts, issues);
    check_source(t, facts, issues);
    check_media(&t.media, facts, issues);
    check_disks(&t.extra_disks, facts, issues);
}

// -- the whole file ---------------------------------------------------------------------------

/// What is wrong with a lab file: every problem, in order.
pub open spec fn validation(f: LabFileView, facts: FactsView, cat: CatalogueView) -> Seq<
    IssueView,
> {
    label_check(f.lab.name, f.lab.span, "lab name"@) + each(
        f.lab.segments.len() as int,
        segment_checks(f.lab),
    ) + each(f.lab.segments.len() as int, port_checks(f.lab)) + each(
        f.lab.vms.len() as int,
        vm_checks(f, facts, cat),
    ) + cycle_issues(f.lab) + each(f.lab.provisions.len() as int, provision_checks(f.lab)) + each(
        f.lab.handlers.len() as int,
        handler_checks(f.lab, cat.events),
    ) + (each(f.lab.provisions.len() as int, provision_scripts(f.lab, facts)) + each(
        f.lab.handlers.len() as int,
        handler_scripts(f.lab, facts),
    )) + each(f.templates.len() as int, template_scripts(f, facts)) + each(
        f.templates.len() as int,
        template_checks(f, facts),
    )
}

fn check_segments(lab: &Lab, issues: &mut IssueList)
    ensures
        final(issues).deep_view() == old(issues).deep_view() + each(
            lab.segments@.len() as int,
            segment_checks(lab.deep_view()),
        ),
{
    broadcast use {lemma_cat, lemma_cat_nothing};

    let mut i: usize = 0;
    while i < lab.segments.len()
        invariant
            i <= lab.segments@.len(),
            issues.deep_view() == old(issues).deep_view() + each(
                i as int,
                segment_checks(lab.deep_view()),
            ),
        decreases lab.segments@.len() - i,
    {
        broadcast use {lemma_cat, lemma_cat_nothing};

        check_segment(lab, i, issues);
        i = i + 1;
    }
}

#[verifier::spinoff_prover]
#[verifier::rlimit(60)]
fn check_vms(file: &LabFile, facts: &Facts, cat: &Catalogue, issues: &mut IssueList)
    ensures
        final(issues).deep_view() == old(issues).deep_view() + each(
            file.lab.vms@.len() as int,
            vm_checks(file.deep_view(), facts.deep_view(), cat.deep_view()),
        ),
{
    broadcast use {lemma_cat, lemma_cat_nothing};

    let mut ips: Vec<Ipv4Addr> = Vec::new();
    let mut macs: Vec<MacAddr> = Vec::new();
    let mut i: usize = 0;
    while i < file.lab.vms.len()
        invariant
            i <= file.lab.vms@.len(),
            ips@ == ips_before(file.lab.deep_view(), i as int),
            macs@ == macs_before(file.lab.deep_view(), i as int),
            issues.deep_view() == old(issues).deep_view() + each(
                i as int,
                vm_checks(file.deep_view(), facts.deep_view(), cat.deep_view()),
            ),
        decreases file.lab.vms@.len() - i,
    {
        broadcast use {lemma_cat, lemma_cat_nothing};

        check_vm(file, i, facts, cat, &mut ips, &mut macs, issues);
        i = i + 1;
    }
}

fn check_all_template_scripts(file: &LabFile, facts: &Facts, issues: &mut IssueList)
    ensures
        final(issues).deep_view() == old(issues).deep_view() + each(
            file.templates@.len() as int,
            template_scripts(file.deep_view(), facts.deep_view()),
        ),
{
    broadcast use {lemma_cat, lemma_cat_nothing};

    let mut i: usize = 0;
    while i < file.templates.len()
        invariant
            i <= file.templates@.len(),
            issues.deep_view() == old(issues).deep_view() + each(
                i as int,
                template_scripts(file.deep_view(), facts.deep_view()),
            ),
        decreases file.templates@.len() - i,
    {
        broadcast use {lemma_cat, lemma_cat_nothing};

        assert(file.deep_view().templates[i as int] == file.templates@[i as int].deep_view());
        check_template_scripts(&file.templates[i], facts, issues);
        i = i + 1;
    }
}

fn check_templates(file: &LabFile, facts: &Facts, issues: &mut IssueList)
    ensures
        final(issues).deep_view() == old(issues).deep_view() + each(
            file.templates@.len() as int,
            template_checks(file.deep_view(), facts.deep_view()),
        ),
{
    broadcast use {lemma_cat, lemma_cat_nothing};

    let mut i: usize = 0;
    while i < file.templates.len()
        invariant
            i <= file.templates@.len(),
            issues.deep_view() == old(issues).deep_view() + each(
                i as int,
                template_checks(file.deep_view(), facts.deep_view()),
            ),
        decreases file.templates@.len() - i,
    {
        broadcast use {lemma_cat, lemma_cat_nothing};

        check_template(file, i, facts, issues);
        i = i + 1;
    }
}

/// Validate a parsed lab file, when `facts` are what the host answered.
/// Returns every problem found.
pub fn validate_with(file: &LabFile, facts: &Facts, cat: &Catalogue) -> (r: IssueList)
    ensures
        r.deep_view() == validation(file.deep_view(), facts.deep_view(), cat.deep_view()),
{
    broadcast use {lemma_cat, lemma_cat_nothing};

    let mut issues: IssueList = Vec::new();
    assert(issues.deep_view() =~= no_issues());
    let lab = &file.lab;
    check_dns_label(lab.name.as_str(), lab.span, "lab name", &mut issues);
    assert(issues.deep_view() =~= label_check(lab.name@, lab.span, "lab name"@));
    check_segments(lab, &mut issues);
    check_ports(lab, &mut issues);
    check_vms(file, facts, cat, &mut issues);
    check_dependency_cycles(lab, &mut issues);
    check_provisions(lab, &mut issues);
    check_handlers(lab, cat, &mut issues);
    check_lab_scripts(lab, facts, &mut issues);
    check_all_template_scripts(file, facts, &mut issues);
    check_templates(file, facts, &mut issues);
    issues
}

} // verus!
