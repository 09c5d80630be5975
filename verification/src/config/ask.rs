//! The questions about the host that a lab file raises, and validation with
//! what a host answers.

use vstd::prelude::*;

use crate::config::issue::{lemma_cat, IssueList};
use crate::config::model::{
    ArtefactSource, ArtefactSourceView, DiskBlock, DiskBlockView, LabFile, LabFileView, LabView,
    Media, MediaView, TemplateDef, TemplateDefView, TemplateRef, TemplateRefView, TemplateSource,
    TemplateSourceView, Vm, VmView,
};
use crate::config::validate::{validate_with, validation, Catalogue, Facts, FactsView};
use crate::text::{any_string, opt_text};

verus! {

// -- questions to the host --------------------------------------------------------------------

/// Something about the host that a lab file raises. Paths are as the file
/// writes them.
#[derive(Debug)]
pub enum Question {
    /// Does the store have this template?
    Template { arch: String, name: String, version: Option<String> },
    /// Is there such a profile?
    Profile(String),
    /// Is this path a folder?
    Dir(String),
    /// Is this path a file?
    File(String),
    /// Does the script compile? (Asked of files only.)
    Script(String),
}

/// The contents of a [`Question`].
pub ghost enum QuestionView {
    Template { arch: Seq<char>, name: Seq<char>, version: Option<Seq<char>> },
    Profile(Seq<char>),
    Dir(Seq<char>),
    File(Seq<char>),
    Script(Seq<char>),
}

impl DeepView for Question {
    type V = QuestionView;

    open spec fn deep_view(&self) -> QuestionView {
        match *self {
            Question::Template { arch, name, version } => QuestionView::Template {
                arch: arch@,
                name: name@,
                version: version.deep_view(),
            },
            Question::Profile(s) => QuestionView::Profile(s@),
            Question::Dir(s) => QuestionView::Dir(s@),
            Question::File(s) => QuestionView::File(s@),
            Question::Script(s) => QuestionView::Script(s@),
        }
    }
}

/// The questions that the first `n` items raise, in order.
pub open spec fn asked(n: int, f: spec_fn(int) -> Seq<QuestionView>) -> Seq<QuestionView>
    decreases n,
{
    if n <= 0 {
        Seq::empty()
    } else {
        asked(n - 1, f) + f(n - 1)
    }
}

pub open spec fn ask_template(t: TemplateRefView) -> Seq<QuestionView> {
    match t {
        TemplateRefView::Store { arch, name, version } => seq![
            QuestionView::Template { arch, name, version },
        ],
        _ => Seq::empty(),
    }
}

pub open spec fn ask_profile(p: Option<Seq<char>>) -> Seq<QuestionView> {
    match p {
        Some(s) => seq![QuestionView::Profile(s)],
        None => Seq::empty(),
    }
}

pub open spec fn ask_file(p: Option<Seq<char>>) -> Seq<QuestionView> {
    match p {
        Some(s) => seq![QuestionView::File(s)],
        None => Seq::empty(),
    }
}

pub open spec fn ask_dir(p: Option<Seq<char>>) -> Seq<QuestionView> {
    match p {
        Some(s) => seq![QuestionView::Dir(s)],
        None => Seq::empty(),
    }
}

pub open spec fn ask_script(p: Option<Seq<char>>) -> Seq<QuestionView> {
    match p {
        Some(s) => seq![QuestionView::File(s), QuestionView::Script(s)],
        None => Seq::empty(),
    }
}

pub open spec fn ask_shares(v: VmView) -> spec_fn(int) -> Seq<QuestionView> {
    |k: int| seq![QuestionView::Dir(v.shares[k].host)]
}

pub open spec fn ask_media(all: Seq<MediaView>) -> spec_fn(int) -> Seq<QuestionView> {
    |k: int| seq![QuestionView::Dir(all[k].from)]
}

pub open spec fn ask_disks(all: Seq<DiskBlockView>) -> spec_fn(int) -> Seq<QuestionView> {
    |k: int| ask_dir(all[k].from)
}

/// The questions that a guest raises.
pub open spec fn vm_questions(v: VmView) -> Seq<QuestionView> {
    ask_template(v.template) + ask_profile(v.profile) + asked(
        v.shares.len() as int,
        ask_shares(v),
    ) + asked(v.media.len() as int, ask_media(v.media)) + asked(
        v.extra_disks.len() as int,
        ask_disks(v.extra_disks),
    ) + ask_file(v.cdrom) + ask_file(v.floppy)
}

pub open spec fn ask_vms(lab: LabView) -> spec_fn(int) -> Seq<QuestionView> {
    |i: int| vm_questions(lab.vms[i])
}

pub open spec fn ask_provisions(lab: LabView) -> spec_fn(int) -> Seq<QuestionView> {
    |i: int| ask_script(Some(lab.provisions[i].script))
}

pub open spec fn ask_handlers(lab: LabView) -> spec_fn(int) -> Seq<QuestionView> {
    |i: int| ask_script(Some(lab.handlers[i].run))
}

pub open spec fn ask_builds(t: TemplateDefView) -> spec_fn(int) -> Seq<QuestionView> {
    |i: int| ask_script(Some(t.provisions[i].script))
}

pub open spec fn ask_source(s: TemplateSourceView) -> Seq<QuestionView> {
    match s {
        TemplateSourceView::Template { from, .. } => ask_template(from),
        TemplateSourceView::Iso(ArtefactSourceView::Path { path, .. }) => ask_file(Some(path)),
        TemplateSourceView::Qcow2(ArtefactSourceView::Path { path, .. }) => ask_file(Some(path)),
        _ => Seq::empty(),
    }
}

/// The questions that a template definition raises.
pub open spec fn template_questions(t: TemplateDefView) -> Seq<QuestionView> {
    asked(t.provisions.len() as int, ask_builds(t)) + ask_script(t.first_boot) + ask_profile(
        t.profile,
    ) + ask_source(t.source) + asked(t.media.len() as int, ask_media(t.media)) + asked(
        t.extra_disks.len() as int,
        ask_disks(t.extra_disks),
    )
}

pub open spec fn ask_templates(f: LabFileView) -> spec_fn(int) -> Seq<QuestionView> {
    |i: int| template_questions(f.templates[i])
}

/// The questions that a lab file raises.
pub open spec fn questions_of(f: LabFileView) -> Seq<QuestionView> {
    asked(f.lab.vms.len() as int, ask_vms(f.lab)) + asked(
        f.lab.provisions.len() as int,
        ask_provisions(f.lab),
    ) + asked(f.lab.handlers.len() as int, ask_handlers(f.lab)) + asked(
        f.templates.len() as int,
        ask_templates(f),
    )
}

/// Asking nothing more changes nothing.
broadcast proof fn lemma_ask_nothing(a: Seq<QuestionView>)
    ensures
        #[trigger] (a + Seq::<QuestionView>::empty()) == a,
{
    assert(a + Seq::<QuestionView>::empty() =~= a);
}

fn ask(out: &mut Vec<Question>, q: Question)
    ensures
        final(out).deep_view() == old(out).deep_view() + seq![q.deep_view()],
{
    out.push(q);
    assert(out.deep_view() =~= old(out).deep_view() + seq![q.deep_view()]);
}

fn copy_version(version: &Option<String>) -> (r: Option<String>)
    ensures
        r.deep_view() == version.deep_view(),
{
    match version {
        Some(v) => Some(v.clone()),
        None => None,
    }
}

fn put_template(out: &mut Vec<Question>, t: &TemplateRef)
    ensures
        final(out).deep_view() == old(out).deep_view() + ask_template(t.deep_view()),
{
    broadcast use lemma_ask_nothing;

    if let TemplateRef::Store { arch, name, version } = t {
        ask(
            out,
            Question::Template {
                arch: arch.clone(),
                name: name.clone(),
                version: copy_version(version),
            },
        );
    }
}

fn put_profile(out: &mut Vec<Question>, p: &Option<String>)
    ensures
        final(out).deep_view() == old(out).deep_view() + ask_profile(p.deep_view()),
{
    broadcast use lemma_ask_nothing;

    if let Some(s) = p {
        ask(out, Question::Profile(s.clone()));
    }
}

fn put_file(out: &mut Vec<Question>, p: &Option<String>)
    ensures
        final(out).deep_view() == old(out).deep_view() + ask_file(p.deep_view()),
{
    broadcast use lemma_ask_nothing;

    if let Some(s) = p {
        ask(out, Question::File(s.clone()));
    }
}

fn put_script(out: &mut Vec<Question>, s: &String)
    ensures
        final(out).deep_view() == old(out).deep_view() + ask_script(Some(s@)),
{
    ask(out, Question::File(s.clone()));
    ask(out, Question::Script(s.clone()));
    assert(out.deep_view() =~= old(out).deep_view() + ask_script(Some(s@)));
}

fn put_media(out: &mut Vec<Question>, all: &Vec<Media>)
    ensures
        final(out).deep_view() == old(out).deep_view() + asked(
            all@.len() as int,
            ask_media(all.deep_view()),
        ),
{
    broadcast use {lemma_cat, lemma_ask_nothing};

    let mut k: usize = 0;
    while k < all.len()
        invariant
            k <= all@.len(),
            out.deep_view() == old(out).deep_view() + asked(
                k as int,
                ask_media(all.deep_view()),
            ),
        decreases all@.len() - k,
    {
        broadcast use {lemma_cat, lemma_ask_nothing};

        assert(all.deep_view()[k as int] == all@[k as int].deep_view());
        ask(out, Question::Dir(all[k].from.clone()));
        k = k + 1;
    }
}

fn put_disks(out: &mut Vec<Question>, all: &Vec<DiskBlock>)
    ensures
        final(out).deep_view() == old(out).deep_view() + asked(
            all@.len() as int,
            ask_disks(all.deep_view()),
        ),
{
    broadcast use {lemma_cat, lemma_ask_nothing};

    let mut k: usize = 0;
    while k < all.len()
        invariant
            k <= all@.len(),
            out.deep_view() == old(out).deep_view() + asked(
                k as int,
                ask_disks(all.deep_view()),
            ),
        decreases all@.len() - k,
    {
        broadcast use {lemma_cat, lemma_ask_nothing};

        assert(all.deep_view()[k as int] == all@[k as int].deep_view());
        if let Some(from) = &all[k].from {
            ask(out, Question::Dir(from.clone()));
        }
        k = k + 1;
    }
}

fn put_vm(out: &mut Vec<Question>, vm: &Vm)
    ensures
        final(out).deep_view() == old(out).deep_view() + vm_questions(vm.deep_view()),
{
    broadcast use {lemma_cat, lemma_ask_nothing};

    put_template(out, &vm.template);
    put_profile(out, &vm.profile);
    let ghost before = out.deep_view();
    let mut k: usize = 0;
    while k < vm.shares.len()
        invariant
            k <= vm.shares@.len(),
            out.deep_view() == before + asked(k as int, ask_shares(vm.deep_view())),
        decreases vm.shares@.len() - k,
    {
        broadcast use {lemma_cat, lemma_ask_nothing};

        assert(vm.deep_view().shares[k as int] == vm.shares@[k as int].deep_view());
        ask(out, Question::Dir(vm.shares[k].host.clone()));
        k = k + 1;
    }
    put_media(out, &vm.media);
    put_disks(out, &vm.extra_disks);
    put_file(out, &vm.cdrom);
    put_file(out, &vm.floppy);
}

fn put_source(out: &mut Vec<Question>, s: &TemplateSource)
    ensures
        final(out).deep_view() == old(out).deep_view() + ask_source(s.deep_view()),
{
    broadcast use lemma_ask_nothing;

    match s {
        TemplateSource::Template { from, .. } => put_template(out, from),
        TemplateSource::Iso(ArtefactSource::Path { path, .. }) => ask(
            out,
            Question::File(path.clone()),
        ),
        TemplateSource::Qcow2(ArtefactSource::Path { path, .. }) => ask(
            out,
            Question::File(path.clone()),
        ),
        _ => {},
    }
}

fn put_template_def(out: &mut Vec<Question>, t: &TemplateDef)
    ensures
        final(out).deep_view() == old(out).deep_view() + template_questions(t.deep_view()),
{
    broadcast use {lemma_cat, lemma_ask_nothing};

    let mut k: usize = 0;
    while k < t.provisions.len()
        invariant
            k <= t.provisions@.len(),
            out.deep_view() == old(out).deep_view() + asked(k as int, ask_builds(t.deep_view())),
        decreases t.provisions@.len() - k,
    {
        broadcast use {lemma_cat, lemma_ask_nothing};

        assert(t.deep_view().provisions[k as int] == t.provisions@[k as int].deep_view());
        put_script(out, &t.provisions[k].script);
        k = k + 1;
    }
    if let Some(p) = &t.first_boot {
        put_script(out, p);
    }
    put_profile(out, &t.profile);
    put_source(out, &t.source);
    put_media(out, &t.media);
    put_disks(out, &t.extra_disks);
}

/// The questions that a lab file raises.
pub fn questions(file: &LabFile) -> (r: Vec<Question>)
    ensures
        r.deep_view() == questions_of(file.deep_view()),
{
    broadcast use {lemma_cat, lemma_ask_nothing};

    let lab = &file.lab;
    let ghost l = lab.deep_view();
    let mut out: Vec<Question> = Vec::new();
    assert(out.deep_view() =~= Seq::empty());
    let mut i: usize = 0;
    while i < lab.vms.len()
        invariant
            i <= lab.vms@.len(),
            l == lab.deep_view(),
            out.deep_view() == asked(i as int, ask_vms(l)),
        decreases lab.vms@.len() - i,
    {
        assert(l.vms[i as int] == lab.vms@[i as int].deep_view());
        put_vm(&mut out, &lab.vms[i]);
        i = i + 1;
    }
    let ghost b1 = out.deep_view();
    let mut j: usize = 0;
    while j < lab.provisions.len()
        invariant
            j <= lab.provisions@.len(),
            l == lab.deep_view(),
            out.deep_view() == b1 + asked(j as int, ask_provisions(l)),
        decreases lab.provisions@.len() - j,
    {
        broadcast use {lemma_cat, lemma_ask_nothing};

        assert(l.provisions[j as int] == lab.provisions@[j as int].deep_view());
        put_script(&mut out, &lab.provisions[j].script);
        j = j + 1;
    }
    let ghost b2 = out.deep_view();
    let mut k: usize = 0;
    while k < lab.handlers.len()
        invariant
            k <= lab.handlers@.len(),
            l == lab.deep_view(),
            out.deep_view() == b2 + asked(k as int, ask_handlers(l)),
        decreases lab.handlers@.len() - k,
    {
        broadcast use {lemma_cat, lemma_ask_nothing};

        assert(l.handlers[k as int] == lab.handlers@[k as int].deep_view());
        put_script(&mut out, &lab.handlers[k].run);
        k = k + 1;
    }
    let ghost b3 = out.deep_view();
    let mut m: usize = 0;
    while m < file.templates.len()
        invariant
            m <= file.templates@.len(),
            out.deep_view() == b3 + asked(m as int, ask_templates(file.deep_view())),
        decreases file.templates@.len() - m,
    {
        broadcast use {lemma_cat, lemma_ask_nothing};

        assert(file.deep_view().templates[m as int] == file.templates@[m as int].deep_view());
        put_template_def(&mut out, &file.templates[m]);
        m = m + 1;
    }
    out
}

/// Host facilities the validator consults. Paths are as the lab file writes
/// them.
pub trait ValidationContext {
    fn template_exists(&self, arch: &str, name: &str, version: Option<&str>) -> bool;

    fn profile_exists(&self, name: &str) -> bool;

    /// Compile-check a script.
    fn check_script(&self, path: &str) -> Result<(), String>;

    fn is_dir(&self, path: &str) -> bool;

    fn is_file(&self, path: &str) -> bool;
}

/// Whether the facts answer only questions that were asked.
pub open spec fn answers(facts: FactsView, qs: Seq<QuestionView>) -> bool {
    &&& forall|i: int|
        0 <= i < facts.templates.len() ==> qs.contains(
            QuestionView::Template {
                arch: (#[trigger] facts.templates[i]).0,
                name: facts.templates[i].1,
                version: facts.templates[i].2,
            },
        )
    &&& forall|i: int|
        0 <= i < facts.profiles.len() ==> qs.contains(
            QuestionView::Profile(#[trigger] facts.profiles[i]),
        )
    &&& forall|i: int|
        0 <= i < facts.dirs.len() ==> qs.contains(QuestionView::Dir(#[trigger] facts.dirs[i]))
    &&& forall|i: int|
        0 <= i < facts.files.len() ==> qs.contains(QuestionView::File(#[trigger] facts.files[i]))
    &&& forall|i: int|
        0 <= i < facts.script_errors.len() ==> qs.contains(
            QuestionView::Script((#[trigger] facts.script_errors[i]).0),
        ) && facts.files.contains(facts.script_errors[i].0)
}

/// Whether the host can say this of a template.
pub open spec fn said_template<C: ValidationContext>(
    ctx: C,
    arch: Seq<char>,
    name: Seq<char>,
    version: Option<Seq<char>>,
    answer: bool,
) -> bool {
    exists|a: &str, n: &str, v: Option<&str>|
        a@ == arch && n@ == name && opt_text(v) == version && #[trigger] call_ensures(
            C::template_exists,
            (&ctx, a, n, v),
            answer,
        )
}

/// Whether the host can say this of a profile.
pub open spec fn said_profile<C: ValidationContext>(ctx: C, name: Seq<char>, answer: bool) -> bool {
    exists|n: &str|
        n@ == name && #[trigger] call_ensures(C::profile_exists, (&ctx, n), answer)
}

/// Whether the host can say this of a path, asked whether it is a folder.
pub open spec fn said_dir<C: ValidationContext>(ctx: C, path: Seq<char>, answer: bool) -> bool {
    exists|p: &str| p@ == path && #[trigger] call_ensures(C::is_dir, (&ctx, p), answer)
}

/// Whether the host can say this of a path, asked whether it is a file.
pub open spec fn said_file<C: ValidationContext>(ctx: C, path: Seq<char>, answer: bool) -> bool {
    exists|p: &str| p@ == path && #[trigger] call_ensures(C::is_file, (&ctx, p), answer)
}

/// Whether the host can say this of a script: that it compiles, or why not.
pub open spec fn said_script<C: ValidationContext>(
    ctx: C,
    path: Seq<char>,
    answer: Result<(), String>,
) -> bool {
    exists|p: &str| p@ == path && #[trigger] call_ensures(C::check_script, (&ctx, p), answer)
}

/// Whether the facts become `now` by asking the host one question: what it
/// affirms is added. Only what is known to be a file is compiled, and what does
/// not compile is added with the reason.
pub open spec fn learned<C: ValidationContext>(
    ctx: C,
    was: FactsView,
    q: QuestionView,
    now: FactsView,
) -> bool {
    match q {
        QuestionView::Template { arch, name, version } => exists|b: bool|
            {
                &&& #[trigger] said_template(ctx, arch, name, version, b)
                &&& now == if b {
                    FactsView { templates: was.templates.push((arch, name, version)), ..was }
                } else {
                    was
                }
            },
        QuestionView::Profile(p) => exists|b: bool|
            {
                &&& #[trigger] said_profile(ctx, p, b)
                &&& now == if b {
                    FactsView { profiles: was.profiles.push(p), ..was }
                } else {
                    was
                }
            },
        QuestionView::Dir(p) => exists|b: bool|
            {
                &&& #[trigger] said_dir(ctx, p, b)
                &&& now == if b {
                    FactsView { dirs: was.dirs.push(p), ..was }
                } else {
                    was
                }
            },
        QuestionView::File(p) => exists|b: bool|
            {
                &&& #[trigger] said_file(ctx, p, b)
                &&& now == if b {
                    FactsView { files: was.files.push(p), ..was }
                } else {
                    was
                }
            },
        QuestionView::Script(p) => if was.files.contains(p) {
            exists|answer: Result<(), String>|
                {
                    &&& #[trigger] said_script(ctx, p, answer)
                    &&& now == match answer {
                        Ok(_) => was,
                        Err(e) => FactsView {
                            script_errors: was.script_errors.push((p, e@)),
                            ..was
                        },
                    }
                }
        } else {
            now == was
        },
    }
}

/// Nothing is known of the host.
pub open spec fn no_facts() -> FactsView {
    FactsView {
        templates: Seq::empty(),
        profiles: Seq::empty(),
        dirs: Seq::empty(),
        files: Seq::empty(),
        script_errors: Seq::empty(),
    }
}

/// Whether the facts are what the host told, asked these questions in order.
pub open spec fn told<C: ValidationContext>(
    ctx: C,
    qs: Seq<QuestionView>,
    facts: FactsView,
) -> bool
    decreases qs.len(),
{
    if qs.len() == 0 {
        facts == no_facts()
    } else {
        exists|before: FactsView|
            told(ctx, qs.drop_last(), before) && #[trigger] learned(ctx, before, qs.last(), facts)
    }
}

fn learn<C: ValidationContext>(
    facts: &mut Facts,
    ctx: &C,
    q: &Question,
    Ghost(qs): Ghost<Seq<QuestionView>>,
)
    requires
        answers(old(facts).deep_view(), qs),
        qs.contains(q.deep_view()),
    ensures
        learned(*ctx, old(facts).deep_view(), q.deep_view(), final(facts).deep_view()),
        answers(final(facts).deep_view(), qs),
{
    let ghost was = facts.deep_view();
    match q {
        Question::Template { arch, name, version } => {
            let v = match version {
                Some(v) => Some(v.as_str()),
                None => None,
            };
            let found = ctx.template_exists(arch.as_str(), name.as_str(), v);
            assert(said_template(*ctx, arch@, name@, version.deep_view(), found));
            if found {
                let t = (arch.clone(), name.clone(), copy_version(version));
                facts.templates.push(t);
                assert(facts.deep_view().templates =~= was.templates.push(
                    (arch@, name@, version.deep_view()),
                ));
                assert(facts.deep_view() == FactsView {
                    templates: was.templates.push((arch@, name@, version.deep_view())),
                    ..was
                });
            }
        },
        Question::Profile(p) => {
            let found = ctx.profile_exists(p.as_str());
            assert(said_profile(*ctx, p@, found));
            if found {
                facts.profiles.push(p.clone());
                assert(facts.deep_view().profiles =~= was.profiles.push(p@));
                assert(facts.deep_view() == FactsView { profiles: was.profiles.push(p@), ..was });
            }
        },
        Question::Dir(p) => {
            let found = ctx.is_dir(p.as_str());
            assert(said_dir(*ctx, p@, found));
            if found {
                facts.dirs.push(p.clone());
                assert(facts.deep_view().dirs =~= was.dirs.push(p@));
                assert(facts.deep_view() == FactsView { dirs: was.dirs.push(p@), ..was });
            }
        },
        Question::File(p) => {
            let found = ctx.is_file(p.as_str());
            assert(said_file(*ctx, p@, found));
            if found {
                facts.files.push(p.clone());
                assert(facts.deep_view().files =~= was.files.push(p@));
                assert(facts.deep_view() == FactsView { files: was.files.push(p@), ..was });
                proof {
                    lemma_more_files(was, qs, p@);
                }
            }
        },
        Question::Script(p) => {
            if any_string(&facts.files, p.as_str()) {
                let answer = ctx.check_script(p.as_str());
                assert(said_script(*ctx, p@, answer));
                if let Err(e) = answer {
                    facts.script_errors.push((p.clone(), e));
                    assert(facts.deep_view().script_errors =~= was.script_errors.push((p@, e@)));
                    assert(facts.deep_view() == FactsView {
                        script_errors: was.script_errors.push((p@, e@)),
                        ..was
                    });
                }
            }
        },
    }
}

proof fn lemma_more_files(was: FactsView, qs: Seq<QuestionView>, p: Seq<char>)
    requires
        answers(was, qs),
        qs.contains(QuestionView::File(p)),
    ensures
        answers(FactsView { files: was.files.push(p), ..was }, qs),
{
    let now = FactsView { files: was.files.push(p), ..was };
    assert forall|i: int| 0 <= i < now.script_errors.len() implies qs.contains(
        QuestionView::Script((#[trigger] now.script_errors[i]).0),
    ) && now.files.contains(now.script_errors[i].0) by {
        let n = was.script_errors[i].0;
        let m = choose|m: int| 0 <= m < was.files.len() && was.files[m] == n;
        assert(now.files[m] == n);
    }
}

/// Validate a parsed lab file. Returns every problem found: asks the host what
/// the file raises, and validates with the answers.
pub fn validate<C: ValidationContext>(file: &LabFile, ctx: &C, cat: &Catalogue) -> (r: IssueList)
    ensures
        exists|facts: FactsView| #[trigger]
            answers(facts, questions_of(file.deep_view())) && told(
                *ctx,
                questions_of(file.deep_view()),
                facts,
            ) && r.deep_view() == validation(file.deep_view(), facts, cat.deep_view()),
{
    let qs = questions(file);
    let ghost all = questions_of(file.deep_view());
    let mut facts = Facts {
        templates: Vec::new(),
        profiles: Vec::new(),
        dirs: Vec::new(),
        files: Vec::new(),
        script_errors: Vec::new(),
    };
    assert(facts.deep_view().templates =~= Seq::empty());
    assert(facts.deep_view().profiles =~= Seq::empty());
    assert(facts.deep_view().dirs =~= Seq::empty());
    assert(facts.deep_view().files =~= Seq::empty());
    assert(facts.deep_view().script_errors =~= Seq::empty());
    assert(all.take(0) =~= Seq::empty());
    let mut i: usize = 0;
    while i < qs.len()
        invariant
            i <= qs@.len(),
            qs.deep_view() == all,
            all.len() == qs@.len(),
            answers(facts.deep_view(), all),
            told(*ctx, all.take(i as int), facts.deep_view()),
        decreases qs@.len() - i,
    {
        assert(all[i as int] == qs@[i as int].deep_view());
        let ghost was = facts.deep_view();
        learn(&mut facts, ctx, &qs[i], Ghost(all));
        assert(all.take(i + 1).drop_last() =~= all.take(i as int));
        assert(all.take(i + 1).last() == all[i as int]);
        assert(learned(*ctx, was, all.take(i + 1).last(), facts.deep_view()));
        i = i + 1;
    }
    assert(all.take(i as int) =~= all);
    validate_with(file, &facts, cat)
}

// -- laws -------------------------------------------------------------------------------------

proof fn lemma_asked(n: int, f: spec_fn(int) -> Seq<QuestionView>, k: int, q: QuestionView)
    requires
        0 <= k < n,
        f(k).contains(q),
    ensures
        asked(n, f).contains(q),
    decreases n,
{
    let front = asked(n - 1, f);
    let last = f(n - 1);
    if k < n - 1 {
        lemma_asked(n - 1, f, k, q);
        let i = choose|i: int| 0 <= i < front.len() && front[i] == q;
        assert((front + last)[i] == q);
    } else {
        let i = choose|i: int| 0 <= i < last.len() && last[i] == q;
        assert((front + last)[front.len() + i] == q);
    }
}

broadcast proof fn lemma_among(a: Seq<QuestionView>, b: Seq<QuestionView>, q: QuestionView)
    ensures
        #[trigger] (a + b).contains(q) <==> a.contains(q) || b.contains(q),
{
    let c = a + b;
    if c.contains(q) {
        let i = choose|i: int| 0 <= i < c.len() && c[i] == q;
        if i < a.len() {
            assert(a[i] == q);
        } else {
            assert(b[i - a.len()] == q);
        }
    }
    if a.contains(q) {
        let i = choose|i: int| 0 <= i < a.len() && a[i] == q;
        assert(c[i] == q);
    }
    if b.contains(q) {
        let i = choose|i: int| 0 <= i < b.len() && b[i] == q;
        assert(c[a.len() + i] == q);
    }
}

/// Whether a host is asked whether a script is there and compiles.
pub open spec fn asks_script(qs: Seq<QuestionView>, path: Seq<char>) -> bool {
    qs.contains(QuestionView::File(path)) && qs.contains(QuestionView::Script(path))
}

/// Whether everything that a guest is made from is asked for.
pub open spec fn asks_guest(qs: Seq<QuestionView>, v: VmView) -> bool {
    &&& v.template matches TemplateRefView::Store { arch, name, version } ==> qs.contains(
        QuestionView::Template { arch, name, version },
    )
    &&& v.profile matches Some(p) ==> qs.contains(QuestionView::Profile(p))
    &&& v.cdrom matches Some(p) ==> qs.contains(QuestionView::File(p))
    &&& v.floppy matches Some(p) ==> qs.contains(QuestionView::File(p))
    &&& forall|k: int|
        0 <= k < v.shares.len() ==> qs.contains(QuestionView::Dir((#[trigger] v.shares[k]).host))
    &&& forall|k: int|
        0 <= k < v.media.len() ==> qs.contains(QuestionView::Dir((#[trigger] v.media[k]).from))
    &&& forall|k: int|
        0 <= k < v.extra_disks.len() ==> ((#[trigger] v.extra_disks[k]).from matches Some(p)
            ==> qs.contains(QuestionView::Dir(p)))
}

/// Whether everything that a template is built from is asked for.
pub open spec fn asks_build(qs: Seq<QuestionView>, t: TemplateDefView) -> bool {
    &&& t.profile matches Some(p) ==> qs.contains(QuestionView::Profile(p))
    &&& t.first_boot matches Some(p) ==> asks_script(qs, p)
    &&& forall|k: int|
        0 <= k < t.provisions.len() ==> asks_script(qs, (#[trigger] t.provisions[k]).script)
    &&& forall|k: int|
        0 <= k < t.media.len() ==> qs.contains(QuestionView::Dir((#[trigger] t.media[k]).from))
    &&& forall|k: int|
        0 <= k < t.extra_disks.len() ==> ((#[trigger] t.extra_disks[k]).from matches Some(p)
            ==> qs.contains(QuestionView::Dir(p)))
    &&& match t.source {
        TemplateSourceView::Template {
            from: TemplateRefView::Store { arch, name, version },
            ..
        } => qs.contains(QuestionView::Template { arch, name, version }),
        TemplateSourceView::Iso(ArtefactSourceView::Path { path, .. }) => qs.contains(
            QuestionView::File(path),
        ),
        TemplateSourceView::Qcow2(ArtefactSourceView::Path { path, .. }) => qs.contains(
            QuestionView::File(path),
        ),
        _ => true,
    }
}

proof fn lemma_asks_dirs(v: VmView, t: TemplateDefView)
    ensures
        forall|k: int|
            0 <= k < v.shares.len() ==> asked(v.shares.len() as int, ask_shares(v)).contains(
                QuestionView::Dir((#[trigger] v.shares[k]).host),
            ),
        forall|k: int|
            0 <= k < v.media.len() ==> asked(v.media.len() as int, ask_media(v.media)).contains(
                QuestionView::Dir((#[trigger] v.media[k]).from),
            ),
        forall|k: int|
            0 <= k < v.extra_disks.len() ==> ((#[trigger] v.extra_disks[k]).from matches Some(p)
                ==> asked(v.extra_disks.len() as int, ask_disks(v.extra_disks)).contains(
                QuestionView::Dir(p),
            )),
        forall|k: int|
            0 <= k < t.media.len() ==> asked(t.media.len() as int, ask_media(t.media)).contains(
                QuestionView::Dir((#[trigger] t.media[k]).from),
            ),
        forall|k: int|
            0 <= k < t.extra_disks.len() ==> ((#[trigger] t.extra_disks[k]).from matches Some(p)
                ==> asked(t.extra_disks.len() as int, ask_disks(t.extra_disks)).contains(
                QuestionView::Dir(p),
            )),
        forall|k: int|
            0 <= k < t.provisions.len() ==> asks_script(
                asked(t.provisions.len() as int, ask_builds(t)),
                (#[trigger] t.provisions[k]).script,
            ),
{
    assert forall|k: int| 0 <= k < v.shares.len() implies asked(
        v.shares.len() as int,
        ask_shares(v),
    ).contains(QuestionView::Dir((#[trigger] v.shares[k]).host)) by {
        let q = QuestionView::Dir(v.shares[k].host);
        assert(ask_shares(v)(k)[0] == q);
        lemma_asked(v.shares.len() as int, ask_shares(v), k, q);
    }
    lemma_asks_media(v.media);
    lemma_asks_media(t.media);
    lemma_asks_disks(v.extra_disks);
    lemma_asks_disks(t.extra_disks);
    assert forall|k: int| 0 <= k < t.provisions.len() implies asks_script(
        asked(t.provisions.len() as int, ask_builds(t)),
        (#[trigger] t.provisions[k]).script,
    ) by {
        let p = t.provisions[k].script;
        assert(ask_builds(t)(k)[0] == QuestionView::File(p));
        assert(ask_builds(t)(k)[1] == QuestionView::Script(p));
        lemma_asked(t.provisions.len() as int, ask_builds(t), k, QuestionView::File(p));
        lemma_asked(t.provisions.len() as int, ask_builds(t), k, QuestionView::Script(p));
    }
}

proof fn lemma_asks_media(all: Seq<MediaView>)
    ensures
        forall|k: int|
            0 <= k < all.len() ==> asked(all.len() as int, ask_media(all)).contains(
                QuestionView::Dir((#[trigger] all[k]).from),
            ),
{
    assert forall|k: int| 0 <= k < all.len() implies asked(
        all.len() as int,
        ask_media(all),
    ).contains(QuestionView::Dir((#[trigger] all[k]).from)) by {
        let q = QuestionView::Dir(all[k].from);
        assert(ask_media(all)(k)[0] == q);
        lemma_asked(all.len() as int, ask_media(all), k, q);
    }
}

proof fn lemma_asks_disks(all: Seq<DiskBlockView>)
    ensures
        forall|k: int|
            0 <= k < all.len() ==> ((#[trigger] all[k]).from matches Some(p) ==> asked(
                all.len() as int,
                ask_disks(all),
            ).contains(QuestionView::Dir(p))),
{
    assert forall|k: int| 0 <= k < all.len() && (#[trigger] all[k]).from is Some implies asked(
        all.len() as int,
        ask_disks(all),
    ).contains(QuestionView::Dir(all[k].from->0)) by {
        let q = QuestionView::Dir(all[k].from->0);
        assert(ask_disks(all)(k)[0] == q);
        lemma_asked(all.len() as int, ask_disks(all), k, q);
    }
}

proof fn lemma_asks_guest(v: VmView, t: TemplateDefView)
    ensures
        asks_guest(vm_questions(v), v),
        asks_build(template_questions(t), t),
{
    broadcast use lemma_among;

    lemma_asks_dirs(v, t);
    if let TemplateRefView::Store { arch, name, version } = v.template {
        assert(ask_template(v.template)[0] == QuestionView::Template { arch, name, version });
    }
    if let Some(p) = v.profile {
        assert(ask_profile(v.profile)[0] == QuestionView::Profile(p));
    }
    if let Some(p) = v.cdrom {
        assert(ask_file(v.cdrom)[0] == QuestionView::File(p));
    }
    if let Some(p) = v.floppy {
        assert(ask_file(v.floppy)[0] == QuestionView::File(p));
    }
    if let Some(p) = t.profile {
        assert(ask_profile(t.profile)[0] == QuestionView::Profile(p));
    }
    if let Some(p) = t.first_boot {
        assert(ask_script(t.first_boot)[0] == QuestionView::File(p));
        assert(ask_script(t.first_boot)[1] == QuestionView::Script(p));
    }
    if ask_source(t.source).len() > 0 {
        assert(ask_source(t.source).contains(ask_source(t.source)[0]));
    }
}

/// Whatever a lab file rests on is asked of the host: the templates, profiles,
/// folders, files and scripts that its guests, provisions, handlers and templates
/// name.
#[verifier::spinoff_prover]
#[verifier::rlimit(40)]
pub proof fn everything_named_is_asked_for(f: LabFileView)
    ensures
        forall|i: int|
            0 <= i < f.lab.vms.len() ==> asks_guest(questions_of(f), #[trigger] f.lab.vms[i]),
        forall|i: int|
            0 <= i < f.lab.provisions.len() ==> asks_script(
                questions_of(f),
                (#[trigger] f.lab.provisions[i]).script,
            ),
        forall|i: int|
            0 <= i < f.lab.handlers.len() ==> asks_script(
                questions_of(f),
                (#[trigger] f.lab.handlers[i]).run,
            ),
        forall|i: int|
            0 <= i < f.templates.len() ==> asks_build(questions_of(f), #[trigger] f.templates[i]),
{
    let qs = questions_of(f);
    assert forall|i: int| 0 <= i < f.lab.vms.len() implies asks_guest(
        qs,
        #[trigger] f.lab.vms[i],
    ) by {
        let v = f.lab.vms[i];
        let n = f.lab.vms.len() as int;
        lemma_asks_guest(v, arbitrary());
        assert forall|q: QuestionView| #[trigger] vm_questions(v).contains(q) implies qs.contains(
            q,
        ) by {
            assert(ask_vms(f.lab)(i) == vm_questions(v));
            lemma_asked(n, ask_vms(f.lab), i, q);
            lemma_within(f, q);
        }
    }
    assert forall|i: int| 0 <= i < f.templates.len() implies asks_build(
        qs,
        #[trigger] f.templates[i],
    ) by {
        let t = f.templates[i];
        lemma_asks_guest(arbitrary(), t);
        assert forall|q: QuestionView| #[trigger]
            template_questions(t).contains(q) implies qs.contains(q) by {
            assert(ask_templates(f)(i) == template_questions(t));
            lemma_asked(f.templates.len() as int, ask_templates(f), i, q);
            lemma_within(f, q);
        }
    }
    assert forall|i: int| 0 <= i < f.lab.provisions.len() implies asks_script(
        qs,
        (#[trigger] f.lab.provisions[i]).script,
    ) by {
        let p = f.lab.provisions[i].script;
        let g = ask_provisions(f.lab);
        assert(g(i)[0] == QuestionView::File(p));
        assert(g(i)[1] == QuestionView::Script(p));
        lemma_asked(f.lab.provisions.len() as int, g, i, QuestionView::File(p));
        lemma_asked(f.lab.provisions.len() as int, g, i, QuestionView::Script(p));
        lemma_within(f, QuestionView::File(p));
        lemma_within(f, QuestionView::Script(p));
    }
    assert forall|i: int| 0 <= i < f.lab.handlers.len() implies asks_script(
        qs,
        (#[trigger] f.lab.handlers[i]).run,
    ) by {
        let p = f.lab.handlers[i].run;
        let g = ask_handlers(f.lab);
        assert(g(i)[0] == QuestionView::File(p));
        assert(g(i)[1] == QuestionView::Script(p));
        lemma_asked(f.lab.handlers.len() as int, g, i, QuestionView::File(p));
        lemma_asked(f.lab.handlers.len() as int, g, i, QuestionView::Script(p));
        lemma_within(f, QuestionView::File(p));
        lemma_within(f, QuestionView::Script(p));
    }
}

proof fn lemma_within(f: LabFileView, q: QuestionView)
    ensures
        asked(f.lab.vms.len() as int, ask_vms(f.lab)).contains(q) || asked(
            f.lab.provisions.len() as int,
            ask_provisions(f.lab),
        ).contains(q) || asked(f.lab.handlers.len() as int, ask_handlers(f.lab)).contains(q)
            || asked(f.templates.len() as int, ask_templates(f)).contains(q) ==> questions_of(
            f,
        ).contains(q),
{
    broadcast use lemma_among;

}

/// What the host affirms is known, and nothing else: a folder that it always calls
/// one is known if it was asked for, and what is known it has affirmed; so with
/// files, profiles and templates.
#[verifier::spinoff_prover]
#[verifier::rlimit(40)]
pub proof fn host_is_believed<C: ValidationContext>(
    ctx: C,
    qs: Seq<QuestionView>,
    facts: FactsView,
    x: Seq<char>,
    y: Seq<char>,
    z: Option<Seq<char>>,
)
    requires
        told(ctx, qs, facts),
    ensures
        facts.dirs.contains(x) ==> said_dir(ctx, x, true),
        qs.contains(QuestionView::Dir(x)) && !said_dir(ctx, x, false) ==> facts.dirs.contains(x),
        facts.files.contains(x) ==> said_file(ctx, x, true),
        qs.contains(QuestionView::File(x)) && !said_file(ctx, x, false) ==> facts.files.contains(x),
        facts.profiles.contains(x) ==> said_profile(ctx, x, true),
        qs.contains(QuestionView::Profile(x)) && !said_profile(ctx, x, false)
            ==> facts.profiles.contains(x),
        facts.templates.contains((x, y, z)) ==> said_template(ctx, x, y, z, true),
        qs.contains(QuestionView::Template { arch: x, name: y, version: z }) && !said_template(
            ctx,
            x,
            y,
            z,
            false,
        ) ==> facts.templates.contains((x, y, z)),
    decreases qs.len(),
{
    if qs.len() > 0 {
        let front = qs.drop_last();
        let was = choose|before: FactsView|
            told(ctx, front, before) && #[trigger] learned(ctx, before, qs.last(), facts);
        host_is_believed(ctx, front, was, x, y, z);
        assert forall|q: QuestionView| #[trigger] qs.contains(q) implies front.contains(q) || q
            == qs.last() by {
            let i = choose|i: int| 0 <= i < qs.len() && qs[i] == q;
            if i < front.len() {
                assert(front[i] == q);
            }
        }
        match qs.last() {
            QuestionView::Dir(p) => {
                lemma_added(was.dirs, p, x);
            },
            QuestionView::File(p) => {
                lemma_added(was.files, p, x);
            },
            QuestionView::Profile(p) => {
                lemma_added(was.profiles, p, x);
            },
            QuestionView::Template { arch, name, version } => {
                lemma_added(was.templates, (arch, name, version), (x, y, z));
            },
            QuestionView::Script(p) => {},
        }
    }
}

proof fn lemma_added<T>(s: Seq<T>, a: T, b: T)
    ensures
        s.push(a).contains(b) <==> s.contains(b) || a == b,
{
    let t = s.push(a);
    assert(t[s.len() as int] == a);
    if s.contains(b) {
        let i = choose|i: int| 0 <= i < s.len() && s[i] == b;
        assert(t[i] == b);
    }
    if t.contains(b) && a != b {
        let i = choose|i: int| 0 <= i < t.len() && t[i] == b;
        assert(s[i] == b);
    }
}

/// A script is reported only for what the host says does not compile, and only
/// where it is a file.
pub proof fn only_broken_scripts_are_reported<C: ValidationContext>(
    ctx: C,
    qs: Seq<QuestionView>,
    facts: FactsView,
    i: int,
)
    requires
        told(ctx, qs, facts),
        0 <= i < facts.script_errors.len(),
    ensures
        facts.files.contains(facts.script_errors[i].0),
        exists|e: String|
            e@ == facts.script_errors[i].1 && #[trigger] said_script(
                ctx,
                facts.script_errors[i].0,
                Err(e),
            ),
    decreases qs.len(),
{
    if qs.len() > 0 {
        let front = qs.drop_last();
        let was = choose|before: FactsView|
            told(ctx, front, before) && #[trigger] learned(ctx, before, qs.last(), facts);
        if i < was.script_errors.len() {
            only_broken_scripts_are_reported(ctx, front, was, i);
            assert(facts.script_errors[i] == was.script_errors[i]);
            if let QuestionView::File(p) = qs.last() {
                lemma_added(was.files, p, facts.script_errors[i].0);
            }
        } else {
            let p = qs.last()->Script_0;
            let answer = choose|answer: Result<(), String>|
                {
                    &&& #[trigger] said_script(ctx, p, answer)
                    &&& facts == match answer {
                        Ok(_) => was,
                        Err(e) => FactsView {
                            script_errors: was.script_errors.push((p, e@)),
                            ..was
                        },
                    }
                };
            assert(said_script(ctx, p, Err(answer->Err_0)));
        }
    }
}

} // verus!
