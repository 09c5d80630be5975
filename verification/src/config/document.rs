//! The tree that a configuration file evaluates to, and the typed reading of
//! its fields. Structural legality (unknown fields, wrong types) is the
//! schema's job; what a schema cannot express is reported here, with its
//! position.

use vstd::prelude::*;

use crate::config::issue::{
    issue_if, lemma_cat, lemma_cat_nothing, no_issues, note, one_issue, Issue, IssueList, IssueView,
};
use crate::config::model::{
    host_port_error, host_port_value, mac_error, mac_value, parse_host_port, parse_mac, parse_size,
    size_error, size_value, Firmware, GpuMode, HostPort, L4Proto, MediaKind, Proto, SinkholeMode,
    Span,
};
use crate::net::addr::{Ipv4Addr, MacAddr};
use crate::net::cidr::{ip_value, net_value, Ipv4Net};
use crate::text::{cat3, cat7, joined, str_eq};

verus! {

/// What a field or a label evaluates to.
#[derive(Debug)]
pub enum Datum {
    /// Nothing.
    Absent,
    /// A string.
    Text(String),
    /// An identifier, or a string of a narrower type.
    Word(String),
    Bool(bool),
    /// A 64-bit signed integer.
    Signed(i64),
    /// An integer of a narrower type.
    Narrow(i64),
    /// A 64-bit unsigned integer.
    Unsigned(u64),
    List(Vec<Item>),
    /// Any other kind of value.
    Other,
}

/// A value, and how it is shown in a message.
#[derive(Debug)]
pub struct Item {
    pub value: Datum,
    pub shown: String,
}

/// A field of a block: its value, or why it has none.
#[derive(Debug)]
pub struct Attr {
    pub name: String,
    pub span: Span,
    pub value: Result<Item, String>,
}

/// A block of a file.
#[derive(Debug)]
pub struct Node {
    pub kind: String,
    pub span: Span,
    pub labels: Result<Vec<Item>, String>,
    pub fields: Vec<Attr>,
    pub blocks: Vec<Node>,
    /// What the schema finds wrong with the block itself.
    pub faults: IssueList,
}

/// What the schema finds wrong with these blocks and, behind each, with those
/// inside it.
pub open spec fn forest_faults(all: Seq<Node>) -> Seq<IssueView>
    decreases all,
{
    if all.len() == 0 {
        no_issues()
    } else {
        forest_faults(all.drop_last()) + all.last().faults.deep_view() + forest_faults(
            all.last().blocks@,
        )
    }
}

/// What the schema finds wrong inside these blocks, one behind the other.
pub open spec fn inner_faults(all: Seq<Node>) -> Seq<IssueView>
    decreases all.len(),
{
    if all.len() == 0 {
        no_issues()
    } else {
        inner_faults(all.drop_last()) + forest_faults(all.last().blocks@)
    }
}

fn note_all(issues: &mut IssueList, more: &IssueList)
    ensures
        final(issues).deep_view() == old(issues).deep_view() + more.deep_view(),
{
    let ghost was = issues.deep_view();
    let ghost all = more.deep_view();
    let mut i: usize = 0;
    assert(was + all.take(0) =~= was);
    while i < more.len()
        invariant
            i <= more@.len(),
            all == more.deep_view(),
            issues.deep_view() == was + all.take(i as int),
        decreases more@.len() - i,
    {
        let ghost before = issues.deep_view();
        issues.push(Issue { message: more[i].message.clone(), span: more[i].span });
        assert(issues.deep_view() =~= before.push(all[i as int]));
        assert(was + all.take(i + 1) =~= before.push(all[i as int]));
        i = i + 1;
    }
    assert(all.take(i as int) =~= all);
}

fn note_forest(issues: &mut IssueList, all: &Vec<Node>)
    ensures
        final(issues).deep_view() == old(issues).deep_view() + forest_faults(all@),
    decreases all@,
{
    let ghost was = issues.deep_view();
    let mut i: usize = 0;
    assert(all@.take(0) =~= Seq::empty());
    assert(was + forest_faults(all@.take(0)) =~= was);
    while i < all.len()
        invariant
            i <= all@.len(),
            issues.deep_view() == was + forest_faults(all@.take(i as int)),
        decreases all@.len() - i,
    {
        let ghost front = forest_faults(all@.take(i as int));
        note_all(issues, &all[i].faults);
        note_forest(issues, &all[i].blocks);
        proof {
            let next = all@.take(i + 1);
            assert(next.drop_last() =~= all@.take(i as int));
            assert(next.last() == all@[i as int]);
            assert(issues.deep_view() =~= was + (front + next.last().faults.deep_view()
                + forest_faults(next.last().blocks@)));
        }
        i = i + 1;
    }
    assert(all@.take(i as int) =~= all@);
}

/// Appends what the schema finds wrong inside these blocks.
pub fn note_inner_faults(issues: &mut IssueList, all: &Vec<Node>)
    ensures
        final(issues).deep_view() == old(issues).deep_view() + inner_faults(all@),
{
    let ghost was = issues.deep_view();
    let mut i: usize = 0;
    assert(was + inner_faults(all@.take(0)) =~= was);
    while i < all.len()
        invariant
            i <= all@.len(),
            issues.deep_view() == was + inner_faults(all@.take(i as int)),
        decreases all@.len() - i,
    {
        note_forest(issues, &all[i].blocks);
        proof {
            let next = all@.take(i + 1);
            assert(next.drop_last() =~= all@.take(i as int));
            assert(next.last() == all@[i as int]);
            assert(issues.deep_view() =~= was + inner_faults(next));
        }
        i = i + 1;
    }
    assert(all@.take(i as int) =~= all@);
}

/// Everything that the schema finds wrong with a file: with the file and its
/// top-level blocks, and behind that with what is inside them.
pub fn all_faults(schema: &IssueList, blocks: &Vec<Node>) -> (r: IssueList)
    ensures
        r.deep_view() == schema.deep_view() + inner_faults(blocks@),
{
    let mut r: IssueList = Vec::new();
    note_all(&mut r, schema);
    assert(r.deep_view() =~= schema.deep_view());
    note_inner_faults(&mut r, blocks);
    r
}

/// The text of a value, if it is one.
pub open spec fn as_text(v: Datum) -> Option<Seq<char>> {
    match v {
        Datum::Text(s) => Some(s@),
        Datum::Word(s) => Some(s@),
        _ => None,
    }
}

fn text_in(v: &Datum) -> (r: Option<&String>)
    ensures
        r is Some <==> as_text(*v) is Some,
        r matches Some(s) ==> as_text(*v) == Some(s@),
{
    match v {
        Datum::Text(s) => Some(s),
        Datum::Word(s) => Some(s),
        _ => None,
    }
}

// -- names and fields -----------------------------------------------------------

/// The first field with this name.
pub open spec fn find_field(fields: Seq<Attr>, name: Seq<char>) -> Option<Attr>
    decreases fields.len(),
{
    if fields.len() == 0 {
        None
    } else if fields[0].name@ == name {
        Some(fields[0])
    } else {
        find_field(fields.skip(1), name)
    }
}

impl Node {
    /// The field of this name.
    pub open spec fn named(self, name: Seq<char>) -> Option<Attr> {
        find_field(self.fields@, name)
    }

    /// The field of this name.
    pub fn field(&self, name: &str) -> (r: Option<&Attr>)
        ensures
            r is Some <==> self.named(name@) is Some,
            r matches Some(f) ==> self.named(name@) == Some(*f),
    {
        let mut i: usize = 0;
        assert(self.fields@.skip(0) =~= self.fields@);
        while i < self.fields.len()
            invariant
                i <= self.fields@.len(),
                find_field(self.fields@.skip(i as int), name@) == self.named(name@),
            decreases self.fields@.len() - i,
        {
            assert(self.fields@.skip(i as int).skip(1) =~= self.fields@.skip(i + 1));
            assert(self.fields@.skip(i as int)[0] == self.fields@[i as int]);
            if str_eq(self.fields[i].name.as_str(), name) {
                return Some(&self.fields[i]);
            }
            i = i + 1;
        }
        None
    }
}

/// The name in a block's first label.
pub open spec fn label_of(b: Node) -> Option<Seq<char>> {
    match b.labels {
        Ok(labels) => if labels@.len() > 0 {
            as_text(labels@[0].value)
        } else {
            None
        },
        Err(_) => None,
    }
}

/// What is wrong with a block's first label.
pub open spec fn label_issues(b: Node, what: Seq<char>) -> Seq<IssueView> {
    match b.labels {
        Ok(_) => issue_if(label_of(b) is None, b.span, what + " requires a name label"@),
        Err(e) => one_issue(b.span, "cannot evaluate "@ + what + " label: "@ + e@),
    }
}

/// The name in a block's first label.
pub fn label_name(b: &Node, what: &str, issues: &mut IssueList) -> (r: Option<String>)
    ensures
        r.deep_view() == label_of(*b),
        final(issues).deep_view() == old(issues).deep_view() + label_issues(*b, what@),
{
    broadcast use lemma_cat_nothing;

    match &b.labels {
        Ok(labels) => {
            if labels.len() > 0 {
                if let Some(s) = text_in(&labels[0].value) {
                    return Some(s.clone());
                }
            }
            note(issues, b.span, joined(what, " requires a name label"));
            None
        },
        Err(e) => {
            let mut m = cat3("cannot evaluate ", what, " label: ");
            m = joined(m.as_str(), e.as_str());
            note(issues, b.span, m);
            None
        },
    }
}

/// What a field holds, and where.
pub open spec fn raw_of(b: Node, name: Seq<char>) -> Option<(Item, Span)> {
    match b.named(name) {
        Some(f) => match f.value {
            Ok(item) => if item.value is Absent {
                None
            } else {
                Some((item, f.span))
            },
            Err(_) => None,
        },
        None => None,
    }
}

/// What is wrong with a field that cannot be evaluated.
pub open spec fn raw_issues(b: Node, name: Seq<char>) -> Seq<IssueView> {
    match b.named(name) {
        Some(f) => match f.value {
            Ok(_) => no_issues(),
            Err(e) => one_issue(f.span, "cannot evaluate `"@ + name + "`: "@ + e@),
        },
        None => no_issues(),
    }
}

fn raw_value<'a>(b: &'a Node, name: &str, issues: &mut IssueList) -> (r: Option<(&'a Item, Span)>)
    ensures
        r is Some <==> raw_of(*b, name@) is Some,
        r matches Some(v) ==> raw_of(*b, name@) == Some((*v.0, v.1)),
        final(issues).deep_view() == old(issues).deep_view() + raw_issues(*b, name@),
{
    broadcast use lemma_cat_nothing;

    match b.field(name) {
        Some(f) => match &f.value {
            Ok(item) => match &item.value {
                Datum::Absent => None,
                _ => Some((item, f.span)),
            },
            Err(e) => {
                let mut m = cat3("cannot evaluate `", name, "`: ");
                m = joined(m.as_str(), e.as_str());
                note(issues, f.span, m);
                None
            },
        },
        None => None,
    }
}

// -- strings, flags, numbers, lists ---------------------------------------------

/// The string in a field, and where.
pub open spec fn text_at(b: Node, name: Seq<char>) -> Option<(Seq<char>, Span)> {
    match raw_of(b, name) {
        Some((item, span)) => match as_text(item.value) {
            Some(s) => Some((s, span)),
            None => None,
        },
        None => None,
    }
}

/// The string in a field.
pub open spec fn text_of(b: Node, name: Seq<char>) -> Option<Seq<char>> {
    match text_at(b, name) {
        Some((s, _)) => Some(s),
        None => None,
    }
}

/// What is wrong with a field that should be a string.
pub open spec fn text_issues(b: Node, name: Seq<char>) -> Seq<IssueView> {
    raw_issues(b, name) + match raw_of(b, name) {
        Some((item, span)) => issue_if(
            as_text(item.value) is None,
            span,
            "`"@ + name + "` must be a string, got "@ + item.shown@,
        ),
        None => no_issues(),
    }
}

pub fn get_str(b: &Node, name: &str, issues: &mut IssueList) -> (r: Option<(String, Span)>)
    ensures
        r.deep_view() == text_at(*b, name@),
        final(issues).deep_view() == old(issues).deep_view() + text_issues(*b, name@),
{
    broadcast use {lemma_cat, lemma_cat_nothing};

    match raw_value(b, name, issues) {
        Some((item, span)) => match text_in(&item.value) {
            Some(s) => Some((s.clone(), span)),
            None => {
                let mut m = cat3("`", name, "` must be a string, got ");
                m = joined(m.as_str(), item.shown.as_str());
                note(issues, span, m);
                None
            },
        },
        None => None,
    }
}

/// The string in a field, where its position does not matter.
pub fn get_text(b: &Node, name: &str, issues: &mut IssueList) -> (r: Option<String>)
    ensures
        r.deep_view() == text_of(*b, name@),
        final(issues).deep_view() == old(issues).deep_view() + text_issues(*b, name@),
{
    match get_str(b, name, issues) {
        Some((s, _)) => Some(s),
        None => None,
    }
}

/// The flag in a field.
pub open spec fn flag_of(b: Node, name: Seq<char>) -> Option<bool> {
    match raw_of(b, name) {
        Some((item, _)) => match item.value {
            Datum::Bool(x) => Some(x),
            _ => None,
        },
        None => None,
    }
}

/// The flag in a field, or `default` where there is none.
pub open spec fn flag_or(b: Node, name: Seq<char>, default: bool) -> bool {
    match flag_of(b, name) {
        Some(x) => x,
        None => default,
    }
}

/// What is wrong with a field that should be a flag.
pub open spec fn flag_issues(b: Node, name: Seq<char>) -> Seq<IssueView> {
    raw_issues(b, name) + match raw_of(b, name) {
        Some((item, span)) => issue_if(
            !(item.value is Bool),
            span,
            "`"@ + name + "` must be a bool, got "@ + item.shown@,
        ),
        None => no_issues(),
    }
}

pub fn get_bool(b: &Node, name: &str, issues: &mut IssueList) -> (r: Option<bool>)
    ensures
        r == flag_of(*b, name@),
        final(issues).deep_view() == old(issues).deep_view() + flag_issues(*b, name@),
{
    broadcast use {lemma_cat, lemma_cat_nothing};

    match raw_value(b, name, issues) {
        Some((item, span)) => match &item.value {
            Datum::Bool(x) => Some(*x),
            _ => {
                let mut m = cat3("`", name, "` must be a bool, got ");
                m = joined(m.as_str(), item.shown.as_str());
                note(issues, span, m);
                None
            },
        },
        None => None,
    }
}

/// The flag in a field, or `default` where there is none.
pub fn get_flag(b: &Node, name: &str, default: bool, issues: &mut IssueList) -> (r: bool)
    ensures
        r == flag_or(*b, name@, default),
        final(issues).deep_view() == old(issues).deep_view() + flag_issues(*b, name@),
{
    match get_bool(b, name, issues) {
        Some(x) => x,
        None => default,
    }
}

/// A value as a signed number, if it is one.
pub open spec fn as_number(v: Datum) -> Option<i64> {
    match v {
        Datum::Signed(n) => Some(n),
        Datum::Narrow(n) => Some(n),
        Datum::Unsigned(n) => if n <= i64::MAX {
            Some(n as i64)
        } else {
            None
        },
        _ => None,
    }
}

/// The number in a field, and where.
pub open spec fn number_at(b: Node, name: Seq<char>) -> Option<(i64, Span)> {
    match raw_of(b, name) {
        Some((item, span)) => match as_number(item.value) {
            Some(n) => Some((n, span)),
            None => None,
        },
        None => None,
    }
}

/// What is wrong with a field that should be a number.
pub open spec fn number_issues(b: Node, name: Seq<char>) -> Seq<IssueView> {
    raw_issues(b, name) + match raw_of(b, name) {
        Some((item, span)) => issue_if(
            as_number(item.value) is None,
            span,
            "`"@ + name + "` must be an integer"@,
        ),
        None => no_issues(),
    }
}

pub fn get_int(b: &Node, name: &str, issues: &mut IssueList) -> (r: Option<(i64, Span)>)
    ensures
        r == number_at(*b, name@),
        final(issues).deep_view() == old(issues).deep_view() + number_issues(*b, name@),
{
    broadcast use {lemma_cat, lemma_cat_nothing};

    match raw_value(b, name, issues) {
        Some((item, span)) => {
            let n: Option<i64> = match &item.value {
                Datum::Signed(n) => Some(*n),
                Datum::Narrow(n) => Some(*n),
                Datum::Unsigned(n) => if *n <= 0x7FFF_FFFF_FFFF_FFFF {
                    Some(*n as i64)
                } else {
                    None
                },
                _ => None,
            };
            match n {
                Some(n) => Some((n, span)),
                None => {
                    note(issues, span, cat3("`", name, "` must be an integer"));
                    None
                },
            }
        },
        None => None,
    }
}

/// The strings among the items.
pub open spec fn texts_in(items: Seq<Item>) -> Seq<Seq<char>>
    decreases items.len(),
{
    if items.len() == 0 {
        Seq::empty()
    } else {
        let front = texts_in(items.drop_last());
        match as_text(items.last().value) {
            Some(s) => front.push(s),
            None => front,
        }
    }
}

/// What is wrong with the items that are not strings.
pub open spec fn item_issues(items: Seq<Item>, name: Seq<char>, span: Span) -> Seq<IssueView>
    decreases items.len(),
{
    if items.len() == 0 {
        no_issues()
    } else {
        item_issues(items.drop_last(), name, span) + issue_if(
            as_text(items.last().value) is None,
            span,
            "`"@ + name + "` must be a list of strings, found "@ + items.last().shown@,
        )
    }
}

/// The strings in a list field.
pub open spec fn texts_of(b: Node, name: Seq<char>) -> Seq<Seq<char>> {
    match raw_of(b, name) {
        Some((item, _)) => match item.value {
            Datum::List(items) => texts_in(items@),
            _ => Seq::empty(),
        },
        None => Seq::empty(),
    }
}

/// What is wrong with a field that should be a list of strings.
pub open spec fn texts_issues(b: Node, name: Seq<char>) -> Seq<IssueView> {
    raw_issues(b, name) + match raw_of(b, name) {
        Some((item, span)) => match item.value {
            Datum::List(items) => item_issues(items@, name, span),
            _ => one_issue(span, "`"@ + name + "` must be a list, got "@ + item.shown@),
        },
        None => no_issues(),
    }
}

pub fn get_str_list(b: &Node, name: &str, issues: &mut IssueList) -> (r: Vec<String>)
    ensures
        r.deep_view() == texts_of(*b, name@),
        final(issues).deep_view() == old(issues).deep_view() + texts_issues(*b, name@),
{
    broadcast use {lemma_cat, lemma_cat_nothing};

    let mut out: Vec<String> = Vec::new();
    assert(out.deep_view() =~= Seq::empty());
    match raw_value(b, name, issues) {
        Some((item, span)) => match &item.value {
            Datum::List(items) => {
                let ghost before = issues.deep_view();
                let mut i: usize = 0;
                assert(items@.take(0) =~= Seq::empty());
                while i < items.len()
                    invariant
                        i <= items@.len(),
                        out.deep_view() == texts_in(items@.take(i as int)),
                        issues.deep_view() == before + item_issues(
                            items@.take(i as int),
                            name@,
                            span,
                        ),
                    decreases items@.len() - i,
                {
                    proof {
                        let t = items@.take(i as int + 1);
                        assert(t.drop_last() =~= items@.take(i as int));
                        assert(t.last() == items@[i as int]);
                    }
                    match text_in(&items[i].value) {
                        Some(s) => {
                            let ghost was = out.deep_view();
                            out.push(s.clone());
                            assert(out.deep_view() =~= was.push(s@));
                        },
                        None => {
                            let mut m = cat3("`", name, "` must be a list of strings, found ");
                            m = joined(m.as_str(), items[i].shown.as_str());
                            note(issues, span, m);
                        },
                    }
                    i = i + 1;
                }
                assert(items@.take(i as int) =~= items@);
            },
            _ => {
                let mut m = cat3("`", name, "` must be a list, got ");
                m = joined(m.as_str(), item.shown.as_str());
                note(issues, span, m);
            },
        },
        None => {},
    }
    out
}

// -- values written as text -------------------------------------------------------

/// A kind of value that a field writes as text.
pub trait TextParser {
    type Out;

    /// The value that a text writes.
    spec fn value(&self, s: Seq<char>) -> Option<Self::Out>;

    /// What is said of a text that writes none.
    spec fn complaint(&self, s: Seq<char>) -> Seq<char>;

    fn parse(&self, s: &str) -> (r: Result<Self::Out, String>)
        ensures
            r is Ok <==> self.value(s@) is Some,
            r matches Ok(v) ==> self.value(s@) == Some(v),
            r matches Err(e) ==> e@ == self.complaint(s@),
    ;
}

/// A size in bytes.
pub struct SizeText;

/// A segment's subnet.
pub struct SubnetText;

/// A network.
pub struct CidrText;

/// An address.
pub struct IpText;

/// An address with an optional port.
pub struct HostPortText;

/// A hardware address.
pub struct MacText;

impl TextParser for SizeText {
    type Out = u64;

    open spec fn value(&self, s: Seq<char>) -> Option<u64> {
        size_value(s)
    }

    open spec fn complaint(&self, s: Seq<char>) -> Seq<char> {
        size_error(s)
    }

    fn parse(&self, s: &str) -> (r: Result<u64, String>) {
        parse_size(s)
    }
}

impl TextParser for SubnetText {
    type Out = Ipv4Net;

    open spec fn value(&self, s: Seq<char>) -> Option<Ipv4Net> {
        net_value(s)
    }

    open spec fn complaint(&self, s: Seq<char>) -> Seq<char> {
        "malformed subnet `"@ + s + "` (expected CIDR like 10.50.0.0/24)"@
    }

    fn parse(&self, s: &str) -> (r: Result<Ipv4Net, String>) {
        match Ipv4Net::parse(s) {
            Some(n) => Ok(n),
            None => Err(cat3("malformed subnet `", s, "` (expected CIDR like 10.50.0.0/24)")),
        }
    }
}

impl TextParser for CidrText {
    type Out = Ipv4Net;

    open spec fn value(&self, s: Seq<char>) -> Option<Ipv4Net> {
        net_value(s)
    }

    open spec fn complaint(&self, s: Seq<char>) -> Seq<char> {
        "malformed CIDR `"@ + s + "`"@
    }

    fn parse(&self, s: &str) -> (r: Result<Ipv4Net, String>) {
        match Ipv4Net::parse(s) {
            Some(n) => Ok(n),
            None => Err(cat3("malformed CIDR `", s, "`")),
        }
    }
}

impl TextParser for IpText {
    type Out = Ipv4Addr;

    open spec fn value(&self, s: Seq<char>) -> Option<Ipv4Addr> {
        ip_value(s)
    }

    open spec fn complaint(&self, s: Seq<char>) -> Seq<char> {
        "malformed IP `"@ + s + "`"@
    }

    fn parse(&self, s: &str) -> (r: Result<Ipv4Addr, String>) {
        match Ipv4Addr::parse(s) {
            Some(ip) => Ok(ip),
            None => Err(cat3("malformed IP `", s, "`")),
        }
    }
}

impl TextParser for HostPortText {
    type Out = HostPort;

    open spec fn value(&self, s: Seq<char>) -> Option<HostPort> {
        host_port_value(s)
    }

    open spec fn complaint(&self, s: Seq<char>) -> Seq<char> {
        host_port_error(s)
    }

    fn parse(&self, s: &str) -> (r: Result<HostPort, String>) {
        parse_host_port(s)
    }
}

impl TextParser for MacText {
    type Out = MacAddr;

    open spec fn value(&self, s: Seq<char>) -> Option<MacAddr> {
        mac_value(s)
    }

    open spec fn complaint(&self, s: Seq<char>) -> Seq<char> {
        mac_error(s)
    }

    fn parse(&self, s: &str) -> (r: Result<MacAddr, String>) {
        parse_mac(s)
    }
}

/// The value that a field writes.
pub open spec fn parsed_of<P: TextParser>(p: P, b: Node, name: Seq<char>) -> Option<P::Out> {
    match text_of(b, name) {
        Some(s) => p.value(s),
        None => None,
    }
}

/// What is wrong with a field that should write a value.
pub open spec fn parsed_issues<P: TextParser>(p: P, b: Node, name: Seq<char>) -> Seq<IssueView> {
    text_issues(b, name) + match text_at(b, name) {
        Some((s, span)) => issue_if(p.value(s) is None, span, p.complaint(s)),
        None => no_issues(),
    }
}

/// Reads a string field through a parser, reporting failures as issues.
pub fn get_parsed<P: TextParser>(p: P, b: &Node, name: &str, issues: &mut IssueList) -> (r: Option<
    P::Out,
>)
    ensures
        r == parsed_of(p, *b, name@),
        final(issues).deep_view() == old(issues).deep_view() + parsed_issues(p, *b, name@),
{
    broadcast use {lemma_cat, lemma_cat_nothing};

    match get_str(b, name, issues) {
        Some((s, span)) => match p.parse(s.as_str()) {
            Ok(v) => Some(v),
            Err(e) => {
                note(issues, span, e);
                None
            },
        },
        None => None,
    }
}

// -- choices ------------------------------------------------------------------------

/// A kind of value that a field picks from a list of names.
pub trait Choice: Sized {
    /// The value of a name.
    spec fn chosen(s: Seq<char>) -> Option<Self>;

    /// The names that there are.
    spec fn allowed() -> Seq<char>;

    fn from_name(s: &str) -> (r: Option<Self>)
        ensures
            r == Self::chosen(s@),
    ;

    fn names() -> (r: &'static str)
        ensures
            r@ == Self::allowed(),
    ;
}

/// The transports that a redirect can be limited to.
#[derive(Clone, Copy, Debug, PartialEq, Eq, Structural)]
pub enum RedirectProto {
    Tcp,
    Udp,
}

impl Choice for L4Proto {
    open spec fn chosen(s: Seq<char>) -> Option<Self> {
        if s == "tcp"@ {
            Some(L4Proto::Tcp)
        } else if s == "udp"@ {
            Some(L4Proto::Udp)
        } else if s == "icmp"@ {
            Some(L4Proto::Icmp)
        } else {
            None
        }
    }

    open spec fn allowed() -> Seq<char> {
        "tcp, udp, icmp"@
    }

    fn from_name(s: &str) -> (r: Option<Self>) {
        if str_eq(s, "tcp") {
            Some(L4Proto::Tcp)
        } else if str_eq(s, "udp") {
            Some(L4Proto::Udp)
        } else if str_eq(s, "icmp") {
            Some(L4Proto::Icmp)
        } else {
            None
        }
    }

    fn names() -> (r: &'static str) {
        "tcp, udp, icmp"
    }
}

impl Choice for RedirectProto {
    open spec fn chosen(s: Seq<char>) -> Option<Self> {
        if s == "tcp"@ {
            Some(RedirectProto::Tcp)
        } else if s == "udp"@ {
            Some(RedirectProto::Udp)
        } else {
            None
        }
    }

    open spec fn allowed() -> Seq<char> {
        "tcp, udp"@
    }

    fn from_name(s: &str) -> (r: Option<Self>) {
        if str_eq(s, "tcp") {
            Some(RedirectProto::Tcp)
        } else if str_eq(s, "udp") {
            Some(RedirectProto::Udp)
        } else {
            None
        }
    }

    fn names() -> (r: &'static str) {
        "tcp, udp"
    }
}

impl Choice for Proto {
    open spec fn chosen(s: Seq<char>) -> Option<Self> {
        if s == "tcp"@ {
            Some(Proto::Tcp)
        } else if s == "udp"@ {
            Some(Proto::Udp)
        } else if s == "both"@ {
            Some(Proto::Both)
        } else {
            None
        }
    }

    open spec fn allowed() -> Seq<char> {
        "tcp, udp, both"@
    }

    fn from_name(s: &str) -> (r: Option<Self>) {
        if str_eq(s, "tcp") {
            Some(Proto::Tcp)
        } else if str_eq(s, "udp") {
            Some(Proto::Udp)
        } else if str_eq(s, "both") {
            Some(Proto::Both)
        } else {
            None
        }
    }

    fn names() -> (r: &'static str) {
        "tcp, udp, both"
    }
}

impl Choice for SinkholeMode {
    open spec fn chosen(s: Seq<char>) -> Option<Self> {
        if s == "nxdomain"@ {
            Some(SinkholeMode::Nxdomain)
        } else if s == "zero"@ {
            Some(SinkholeMode::Zero)
        } else {
            None
        }
    }

    open spec fn allowed() -> Seq<char> {
        "nxdomain, zero"@
    }

    fn from_name(s: &str) -> (r: Option<Self>) {
        if str_eq(s, "nxdomain") {
            Some(SinkholeMode::Nxdomain)
        } else if str_eq(s, "zero") {
            Some(SinkholeMode::Zero)
        } else {
            None
        }
    }

    fn names() -> (r: &'static str) {
        "nxdomain, zero"
    }
}

impl Choice for MediaKind {
    open spec fn chosen(s: Seq<char>) -> Option<Self> {
        if s == "iso"@ {
            Some(MediaKind::Iso)
        } else if s == "floppy"@ {
            Some(MediaKind::Floppy)
        } else {
            None
        }
    }

    open spec fn allowed() -> Seq<char> {
        "iso, floppy"@
    }

    fn from_name(s: &str) -> (r: Option<Self>) {
        if str_eq(s, "iso") {
            Some(MediaKind::Iso)
        } else if str_eq(s, "floppy") {
            Some(MediaKind::Floppy)
        } else {
            None
        }
    }

    fn names() -> (r: &'static str) {
        "iso, floppy"
    }
}

impl Choice for GpuMode {
    open spec fn chosen(s: Seq<char>) -> Option<Self> {
        if s == "passthrough"@ {
            Some(GpuMode::Passthrough)
        } else if s == "virgl"@ {
            Some(GpuMode::Virgl)
        } else if s == "vulkan"@ {
            Some(GpuMode::Vulkan)
        } else {
            None
        }
    }

    open spec fn allowed() -> Seq<char> {
        "passthrough, virgl, vulkan"@
    }

    fn from_name(s: &str) -> (r: Option<Self>) {
        if str_eq(s, "passthrough") {
            Some(GpuMode::Passthrough)
        } else if str_eq(s, "virgl") {
            Some(GpuMode::Virgl)
        } else if str_eq(s, "vulkan") {
            Some(GpuMode::Vulkan)
        } else {
            None
        }
    }

    fn names() -> (r: &'static str) {
        "passthrough, virgl, vulkan"
    }
}

impl Choice for Firmware {
    open spec fn chosen(s: Seq<char>) -> Option<Self> {
        if s == "ovmf"@ {
            Some(Firmware::Ovmf)
        } else if s == "seabios"@ {
            Some(Firmware::Seabios)
        } else {
            None
        }
    }

    open spec fn allowed() -> Seq<char> {
        "ovmf, seabios"@
    }

    fn from_name(s: &str) -> (r: Option<Self>) {
        if str_eq(s, "ovmf") {
            Some(Firmware::Ovmf)
        } else if str_eq(s, "seabios") {
            Some(Firmware::Seabios)
        } else {
            None
        }
    }

    fn names() -> (r: &'static str) {
        "ovmf, seabios"
    }
}

/// The value that a field picks.
pub open spec fn choice_of<T: Choice>(b: Node, name: Seq<char>) -> Option<T> {
    match text_of(b, name) {
        Some(s) => T::chosen(s),
        None => None,
    }
}

/// What is wrong with a field that should pick a value.
pub open spec fn choice_issues<T: Choice>(b: Node, name: Seq<char>) -> Seq<IssueView> {
    text_issues(b, name) + match text_at(b, name) {
        Some((s, span)) => issue_if(
            T::chosen(s) is None,
            span,
            "`"@ + name + "` must be one of "@ + T::allowed() + ", got `"@ + s + "`"@,
        ),
        None => no_issues(),
    }
}

pub fn get_enum<T: Choice>(b: &Node, name: &str, issues: &mut IssueList) -> (r: Option<T>)
    ensures
        r == choice_of::<T>(*b, name@),
        final(issues).deep_view() == old(issues).deep_view() + choice_issues::<T>(*b, name@),
{
    broadcast use {lemma_cat, lemma_cat_nothing};

    match get_str(b, name, issues) {
        Some((s, span)) => match T::from_name(s.as_str()) {
            Some(v) => Some(v),
            None => {
                let m = cat7("`", name, "` must be one of ", T::names(), ", got `", s.as_str(), "`");
                note(issues, span, m);
                None
            },
        },
        None => None,
    }
}

// -- laws -----------------------------------------------------------------------------

/// The schema finds nothing wrong with blocks exactly when it finds nothing wrong
/// with any of them, nor with what is inside any of them.
pub proof fn faults_inside_are_found(all: Seq<Node>)
    ensures
        forest_faults(all).len() == 0 <==> forall|i: int|
            0 <= i < all.len() ==> (#[trigger] all[i]).faults@.len() == 0 && forest_faults(
                all[i].blocks@,
            ).len() == 0,
        inner_faults(all).len() == 0 <==> forall|i: int|
            0 <= i < all.len() ==> forest_faults((#[trigger] all[i]).blocks@).len() == 0,
    decreases all.len(),
{
    if all.len() > 0 {
        let front = all.drop_last();
        let n = all.len() - 1;
        faults_inside_are_found(front);
        assert(all.last() == all[n]);
        assert(all[n].faults.deep_view().len() == all[n].faults@.len());
        assert forall|i: int| 0 <= i < n implies #[trigger] front[i] == all[i] by {}
        if forest_faults(all).len() == 0 {
            assert forall|i: int| 0 <= i < all.len() implies (#[trigger] all[i]).faults@.len() == 0
                && forest_faults(all[i].blocks@).len() == 0 by {
                if i < n {
                    assert(front[i] == all[i]);
                }
            }
        }
        if inner_faults(all).len() == 0 {
            assert forall|i: int| 0 <= i < all.len() implies forest_faults(
                (#[trigger] all[i]).blocks@,
            ).len() == 0 by {
                if i < n {
                    assert(front[i] == all[i]);
                }
            }
        }
    }
}

} // verus!
