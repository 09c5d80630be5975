//! Problems found in a lab file.

use vstd::prelude::*;

use crate::config::model::Span;

verus! {

/// A byte range: where it begins, and how long it is.
#[derive(Clone, Copy, Debug, PartialEq, Eq, Structural)]
pub struct SourceSpan {
    pub offset: usize,
    pub len: usize,
}

/// A single configuration problem with an optional source position.
#[derive(Debug)]
pub struct Issue {
    pub message: String,
    pub span: Option<SourceSpan>,
}

/// All problems of a file.
pub type IssueList = Vec<Issue>;

/// The contents of an [`Issue`].
pub ghost struct IssueView {
    pub message: Seq<char>,
    pub span: Option<SourceSpan>,
}

impl DeepView for Issue {
    type V = IssueView;

    open spec fn deep_view(&self) -> IssueView {
        IssueView { message: self.message@, span: self.span }
    }
}

/// A problem with a position.
pub open spec fn issue_at(span: Span, message: Seq<char>) -> IssueView {
    IssueView {
        message,
        span: Some(
            SourceSpan {
                offset: span.0,
                len: if span.1 >= span.0 {
                    (span.1 - span.0) as usize
                } else {
                    0
                },
            },
        ),
    }
}

/// A problem without a position.
pub open spec fn issue_anywhere(message: Seq<char>) -> IssueView {
    IssueView { message, span: None }
}

/// No problem.
pub open spec fn no_issues() -> Seq<IssueView> {
    Seq::empty()
}

/// One problem, with a position.
pub open spec fn one_issue(span: Span, message: Seq<char>) -> Seq<IssueView> {
    seq![issue_at(span, message)]
}

/// One problem if `cond` holds.
pub open spec fn issue_if(cond: bool, span: Span, message: Seq<char>) -> Seq<IssueView> {
    if cond {
        one_issue(span, message)
    } else {
        no_issues()
    }
}

impl Issue {
    /// A problem without a position.
    pub fn new(message: String) -> (r: Issue)
        ensures
            r.deep_view() == issue_anywhere(message@),
    {
        Issue { message, span: None }
    }

    /// A problem at `span`.
    pub fn at(span: Span, message: String) -> (r: Issue)
        ensures
            r.deep_view() == issue_at(span, message@),
    {
        Issue {
            message,
            span: Some(SourceSpan { offset: span.0, len: span.1.saturating_sub(span.0) }),
        }
    }
}

/// Appends the problem at `span`.
pub fn note(issues: &mut IssueList, span: Span, message: String)
    ensures
        final(issues).deep_view() == old(issues).deep_view() + one_issue(span, message@),
{
    issues.push(Issue::at(span, message));
    assert(issues.deep_view() =~= old(issues).deep_view() + one_issue(span, message@));
}

/// Appends a problem without a position.
pub fn note_anywhere(issues: &mut IssueList, message: String)
    ensures
        final(issues).deep_view() == old(issues).deep_view() + seq![issue_anywhere(message@)],
{
    issues.push(Issue::new(message));
    assert(issues.deep_view() =~= old(issues).deep_view() + seq![issue_anywhere(message@)]);
}

/// Appending in two steps or in one is the same.
pub broadcast proof fn lemma_cat<T>(a: Seq<T>, b: Seq<T>, c: Seq<T>)
    ensures
        #[trigger] (a + (b + c)) == (a + b) + c,
{
    assert((a + (b + c)) =~= (a + b) + c);
}

/// Appending nothing changes nothing.
pub broadcast proof fn lemma_cat_nothing(a: Seq<IssueView>)
    ensures
        #[trigger] (a + no_issues()) == a,
{
    assert(a + no_issues() =~= a);
}

} // verus!
