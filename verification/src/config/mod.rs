//! The lab file: its model, and the rules that a sound lab obeys.

use vstd::prelude::*;

use crate::config::document::{forest_faults, inner_faults, note_inner_faults, Node};
use crate::config::extract::{
    extract_lab_file, extract_template_file, gather, gather_issues, lab_file_issues, lab_file_of,
    kind_of, template_file_block_reader, template_issues, template_of, template_reader, Kind,
};
use crate::config::issue::{issue_anywhere, note_anywhere, Issue, IssueList, IssueView};
use crate::config::model::{LabFile, LabFileView, TemplateFile, TemplateFileView};
use crate::config::reading::picked;
use crate::text::{cat3, decimal, decimal_string, has_text, joined, occurs};

pub mod ask;
pub mod clean;
pub mod cycles;
pub mod document;
pub mod extract;
pub mod faults;
pub mod host;
pub mod issue;
pub mod model;
pub mod reading;
pub mod schema;
pub mod sound;
pub mod validate;

verus! {

/// All problems found in one file, with the source that they point into.
#[derive(Debug)]
pub struct ConfigErrors {
    pub name: String,
    pub src: String,
    pub issues: Vec<Issue>,
}

/// The contents of a [`ConfigErrors`].
pub ghost struct ConfigErrorsView {
    pub name: Seq<char>,
    pub src: Seq<char>,
    pub issues: Seq<IssueView>,
}

impl DeepView for ConfigErrors {
    type V = ConfigErrorsView;

    open spec fn deep_view(&self) -> ConfigErrorsView {
        ConfigErrorsView { name: self.name@, src: self.src@, issues: self.issues.deep_view() }
    }
}

impl ConfigErrors {
    /// How many problems there are, in one line.
    pub fn to_text(&self) -> (r: String)
        ensures
            r@ == decimal(self.issues@.len()) + " error(s) in "@ + self.name@,
    {
        cat3(
            decimal_string(self.issues.len() as u64).as_str(),
            " error(s) in ",
            self.name.as_str(),
        )
    }
}

/// What a source text evaluates to: its blocks, and what the schema finds
/// wrong with the file and its top-level blocks; or why it does not parse.
#[derive(Debug)]
pub enum ParseOutcome {
    Failed(String),
    Parsed { blocks: Vec<Node>, schema: IssueList },
}

/// Whether a source text imports the lab schema.
pub fn has_schema_import(source: &str) -> (r: bool)
    ensures
        r == occurs(source@, "import <vmlab.wcl>"@),
{
    has_text(source, "import <vmlab.wcl>")
}

/// What is said of a file without the schema import.
pub open spec fn missing_import() -> Seq<char> {
    "missing schema import — add `import <vmlab.wcl>` at the top of the file"@
}

/// What is wrong with a source before its blocks are looked at.
pub open spec fn open_issues(source: Seq<char>, outcome: ParseOutcome) -> Option<Seq<IssueView>> {
    if !occurs(source, "import <vmlab.wcl>"@) {
        Some(seq![issue_anywhere(missing_import())])
    } else {
        match outcome {
            ParseOutcome::Failed(e) => Some(seq![issue_anywhere("parse error: "@ + e@)]),
            ParseOutcome::Parsed { .. } => None,
        }
    }
}

/// The lab file in a source, or what is wrong with it.
pub open spec fn loaded_lab(
    source: Seq<char>,
    name: Seq<char>,
    root: Seq<char>,
    outcome: ParseOutcome,
    arches: Seq<Seq<char>>,
) -> Result<LabFileView, ConfigErrorsView> {
    match open_issues(source, outcome) {
        Some(issues) => Err(ConfigErrorsView { name, src: source, issues }),
        None => {
            let issues = outcome->schema.deep_view() + inner_faults(outcome->blocks@)
                + lab_file_issues(outcome->blocks@, arches);
            match lab_file_of(outcome->blocks@, root, arches) {
                Some(lab) => if issues.len() == 0 {
                    Ok(lab)
                } else {
                    Err(ConfigErrorsView { name, src: source, issues })
                },
                None => Err(ConfigErrorsView { name, src: source, issues }),
            }
        },
    }
}

/// The template file in a source, or what is wrong with it.
pub open spec fn loaded_templates(
    source: Seq<char>,
    name: Seq<char>,
    root: Seq<char>,
    outcome: ParseOutcome,
    arches: Seq<Seq<char>>,
) -> Result<TemplateFileView, ConfigErrorsView> {
    match open_issues(source, outcome) {
        Some(issues) => Err(ConfigErrorsView { name, src: source, issues }),
        None => {
            let issues = outcome->schema.deep_view() + inner_faults(outcome->blocks@)
                + gather_issues(outcome->blocks@, template_file_block_reader(arches));
            if issues.len() == 0 {
                Ok(
                    TemplateFileView {
                        root,
                        templates: gather(
                            outcome->blocks@,
                            Kind::Template,
                            template_reader(arches),
                        ),
                    },
                )
            } else {
                Err(ConfigErrorsView { name, src: source, issues })
            }
        },
    }
}

fn failed(source: &str, name: &str, message: String) -> (r: ConfigErrors)
    ensures
        r.deep_view() == (ConfigErrorsView {
            name: name@,
            src: source@,
            issues: seq![issue_anywhere(message@)],
        }),
{
    let mut issues: IssueList = Vec::new();
    note_anywhere(&mut issues, message);
    assert(issues.deep_view() =~= seq![issue_anywhere(message@)]);
    ConfigErrors { name: name.to_owned(), src: source.to_owned(), issues }
}

fn open(source: &str, name: &str, outcome: ParseOutcome) -> (r: Result<
    (Vec<Node>, IssueList),
    ConfigErrors,
>)
    ensures
        match r {
            Ok((blocks, schema)) => open_issues(source@, outcome) is None && outcome == (
            ParseOutcome::Parsed { blocks, schema }),
            Err(e) => open_issues(source@, outcome) is Some && e.deep_view() == (ConfigErrorsView {
                name: name@,
                src: source@,
                issues: open_issues(source@, outcome)->0,
            }),
        },
{
    if !has_schema_import(source) {
        return Err(
            failed(
                source,
                name,
                "missing schema import — add `import <vmlab.wcl>` at the top of the file".to_owned(),
            ),
        );
    }
    match outcome {
        ParseOutcome::Failed(e) => Err(failed(source, name, joined("parse error: ", e.as_str()))),
        ParseOutcome::Parsed { blocks, schema } => Ok((blocks, schema)),
    }
}

/// The result of loading a lab file.
pub open spec fn lab_result(r: Result<LabFile, ConfigErrors>) -> Result<
    LabFileView,
    ConfigErrorsView,
> {
    match r {
        Ok(f) => Ok(f.deep_view()),
        Err(e) => Err(e.deep_view()),
    }
}

/// The result of loading a template file.
pub open spec fn templates_result(r: Result<TemplateFile, ConfigErrors>) -> Result<
    TemplateFileView,
    ConfigErrorsView,
> {
    match r {
        Ok(f) => Ok(f.deep_view()),
        Err(e) => Err(e.deep_view()),
    }
}

/// Schema check + extraction of a lab file, when `outcome` is what its source
/// evaluates to. Semantic validation is a separate pass.
pub fn load_lab_source(
    source: &str,
    name: &str,
    root: &str,
    outcome: ParseOutcome,
    arches: &Vec<String>,
) -> (r: Result<LabFile, ConfigErrors>)
    ensures
        lab_result(r) == loaded_lab(source@, name@, root@, outcome, arches.deep_view()),
{
    let (blocks, mut issues) = match open(source, name, outcome) {
        Ok(x) => x,
        Err(e) => return Err(e),
    };
    note_inner_faults(&mut issues, &blocks);
    let lab = extract_lab_file(&blocks, root, arches, &mut issues);
    assert(issues.deep_view().len() == issues@.len());
    match lab {
        Some(lab) => if issues.len() == 0 {
            Ok(lab)
        } else {
            Err(ConfigErrors { name: name.to_owned(), src: source.to_owned(), issues })
        },
        None => Err(ConfigErrors { name: name.to_owned(), src: source.to_owned(), issues }),
    }
}

/// Schema check + extraction of a dedicated template file (templates only, no
/// lab required), when `outcome` is what its source evaluates to.
pub fn load_template_source(
    source: &str,
    name: &str,
    root: &str,
    outcome: ParseOutcome,
    arches: &Vec<String>,
) -> (r: Result<TemplateFile, ConfigErrors>)
    ensures
        templates_result(r) == loaded_templates(source@, name@, root@, outcome, arches.deep_view()),
{
    let (blocks, mut issues) = match open(source, name, outcome) {
        Ok(x) => x,
        Err(e) => return Err(e),
    };
    note_inner_faults(&mut issues, &blocks);
    let file = extract_template_file(&blocks, root, arches, &mut issues);
    assert(issues.deep_view().len() == issues@.len());
    if issues.len() == 0 {
        Ok(file)
    } else {
        Err(ConfigErrors { name: name.to_owned(), src: source.to_owned(), issues })
    }
}

/// The error of a lab file that cannot be read.
pub fn unreadable_lab(path: &str, reason: &str) -> (r: ConfigErrors)
    ensures
        r.deep_view() == (ConfigErrorsView {
            name: path@,
            src: ""@,
            issues: seq![issue_anywhere("cannot read "@ + path@ + ": "@ + reason@)],
        }),
{
    let m = cat3("cannot read ", path, ": ");
    failed("", path, joined(m.as_str(), reason))
}

/// A lab file is loaded exactly when it imports the schema, parses, keeps to the
/// schema down to its innermost block, and is found without fault; it is then what
/// its blocks declare. Otherwise everything that is wrong is told, and of which
/// file.
pub proof fn lab_is_loaded_iff_sound(
    source: Seq<char>,
    name: Seq<char>,
    root: Seq<char>,
    blocks: Vec<Node>,
    schema: IssueList,
    why: String,
    arches: Seq<Seq<char>>,
)
    ensures
        ({
            let o = ParseOutcome::Parsed { blocks, schema };
            let r = loaded_lab(source, name, root, o, arches);
            let imported = occurs(source, "import <vmlab.wcl>"@);
            &&& r is Ok <==> imported && schema@.len() == 0 && (forall|i: int|
                0 <= i < blocks@.len() ==> forest_faults((#[trigger] blocks@[i]).blocks@).len()
                    == 0) && lab_file_issues(blocks@, arches).len() == 0
            &&& r matches Ok(f) ==> lab_file_of(blocks@, root, arches) == Some(f)
            &&& r matches Err(e) ==> e.name == name && e.src == source && e.issues.len() > 0
            &&& !imported ==> (r matches Err(e) && e.issues.len() == 1)
            &&& imported ==> (r matches Err(e) ==> e.issues.len() >= schema@.len()
                + lab_file_issues(blocks@, arches).len())
        }),
        loaded_lab(source, name, root, ParseOutcome::Failed(why), arches) matches Err(e)
            && e.issues.len() == 1 && e.name == name && e.src == source,
{
    crate::config::document::faults_inside_are_found(blocks@);
    assert(schema.deep_view().len() == schema@.len());
    let labs = crate::config::extract::labs_of(blocks@, arches);
    assert(lab_file_of(blocks@, root, arches) is Some <==> labs.len() == 1);
    assert(labs.len() != 1 ==> lab_file_issues(blocks@, arches).len() > 0);
}

/// A template file is loaded exactly when it imports the schema, parses, keeps to
/// the schema, and none of its templates is found wrong; it is then what its
/// `template` blocks define.
pub proof fn templates_are_loaded_iff_sound(
    source: Seq<char>,
    name: Seq<char>,
    root: Seq<char>,
    blocks: Vec<Node>,
    schema: IssueList,
    why: String,
    arches: Seq<Seq<char>>,
)
    ensures
        ({
            let o = ParseOutcome::Parsed { blocks, schema };
            let r = loaded_templates(source, name, root, o, arches);
            &&& r is Ok <==> occurs(source, "import <vmlab.wcl>"@) && schema@.len() == 0 && (
            forall|i: int|
                0 <= i < blocks@.len() ==> forest_faults((#[trigger] blocks@[i]).blocks@).len()
                    == 0) && (forall|i: int|
                0 <= i < blocks@.len() && (#[trigger] blocks@[i]).kind@ == "template"@
                    ==> template_issues(blocks@[i], arches).len() == 0)
            &&& r matches Ok(f) ==> f.root == root && picked(
                f.templates,
                blocks@,
                "template"@,
                |c: Node| template_of(c, arches),
            )
            &&& r matches Err(e) ==> e.name == name && e.src == source && e.issues.len() > 0
        }),
        loaded_templates(source, name, root, ParseOutcome::Failed(why), arches) is Err,
{
    crate::config::document::faults_inside_are_found(blocks@);
    crate::config::reading::lemma_kinds();
    assert(schema.deep_view().len() == schema@.len());
    let g = template_file_block_reader(arches);
    crate::config::faults::lemma_inside(blocks@, g);
    assert forall|c: Node| (#[trigger] g(c)).len() == 0 <==> (c.kind@ == "template"@
        ==> template_issues(c, arches).len() == 0) by {
        assert((kind_of(c.kind@) == Kind::Template) == (c.kind@ == "template"@));
    }
    crate::config::reading::lemma_gathered(
        blocks@,
        Kind::Template,
        "template"@,
        template_reader(arches),
        |c: Node| template_of(c, arches),
    );
}

} // verus!
