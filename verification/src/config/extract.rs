//! Walks the tree of a configuration file into the typed model, reporting
//! what the schema cannot express as positioned issues.

use vstd::prelude::*;
use vstd::slice::slice_subrange;

use crate::config::document::{
    choice_issues, choice_of, flag_issues, flag_of, flag_or, get_bool, get_enum, get_flag, get_int,
    get_parsed, get_str, get_str_list, get_text, label_issues, label_name, label_of, number_at,
    number_issues, parsed_issues, parsed_of, text_at, text_issues, text_of, texts_issues, texts_of,
    CidrText, HostPortText, IpText, MacText, Node, RedirectProto, SizeText, SubnetText,
};
use crate::config::issue::{
    issue_anywhere, issue_if, lemma_cat, lemma_cat_nothing, no_issues, note, note_anywhere,
    one_issue, IssueList, IssueView,
};
use crate::config::model::{
    parse_template_ref, template_ref_error, template_ref_value, ArtefactSource, ArtefactSourceView,
    BlockRule, Connect, ConnectView, DiskBlock, DiskBlockView, DnsRecord, DnsRecordView, Firmware,
    Forward, ForwardView, Gpu, GpuMode, GpuView, Handler, HandlerView, L4Proto, Lab, LabFile,
    LabFileView, LabView, Media, MediaKind, MediaView, Nic, NicView, Proto, Provision,
    ProvisionView, RedirectRule, Route, Segment, SegmentDns, SegmentView, Share, ShareView,
    SinkholeMode, SinkholeRule, SinkholeRuleView, Span, TemplateDef, TemplateDefView, TemplateFile,
    TemplateFileView, TemplateRef, TemplateRefView, TemplateSource, TemplateSourceView, Vm, VmView,
};
use crate::text::{
    any_string, cat3, cat5, chars_of, find_char, index_of_char, join, join_strings, joined,
    lower_char, parse_u16, port_value, signed_decimal, signed_string, str_eq, string_of, to_lower,
};

verus! {

// -- children ---------------------------------------------------------------------

/// What a block declares.
#[derive(Clone, Copy, Debug, PartialEq, Eq, Structural)]
pub enum Kind {
    Lab,
    Template,
    Segment,
    Vm,
    Provision,
    On,
    Record,
    Sinkhole,
    Dns,
    Connect,
    Route,
    Forward,
    Block,
    Redirect,
    Nic,
    Gpu,
    Disk,
    Share,
    Media,
    Source,
    Unknown,
}

/// What a block of this kind declares.
pub open spec fn kind_of(s: Seq<char>) -> Kind {
    if s == "lab"@ {
        Kind::Lab
    } else if s == "template"@ {
        Kind::Template
    } else if s == "segment"@ {
        Kind::Segment
    } else if s == "vm"@ {
        Kind::Vm
    } else if s == "provision"@ {
        Kind::Provision
    } else if s == "on"@ {
        Kind::On
    } else if s == "record"@ {
        Kind::Record
    } else if s == "sinkhole"@ {
        Kind::Sinkhole
    } else if s == "dns"@ {
        Kind::Dns
    } else if s == "connect"@ {
        Kind::Connect
    } else if s == "route"@ {
        Kind::Route
    } else if s == "forward"@ {
        Kind::Forward
    } else if s == "block"@ {
        Kind::Block
    } else if s == "redirect"@ {
        Kind::Redirect
    } else if s == "nic"@ {
        Kind::Nic
    } else if s == "gpu"@ {
        Kind::Gpu
    } else if s == "disk"@ {
        Kind::Disk
    } else if s == "share"@ {
        Kind::Share
    } else if s == "media"@ {
        Kind::Media
    } else if s == "source"@ {
        Kind::Source
    } else {
        Kind::Unknown
    }
}

fn block_kind(s: &str) -> (r: Kind)
    ensures
        r == kind_of(s@),
{
    if str_eq(s, "lab") {
        Kind::Lab
    } else if str_eq(s, "template") {
        Kind::Template
    } else if str_eq(s, "segment") {
        Kind::Segment
    } else if str_eq(s, "vm") {
        Kind::Vm
    } else if str_eq(s, "provision") {
        Kind::Provision
    } else if str_eq(s, "on") {
        Kind::On
    } else if str_eq(s, "record") {
        Kind::Record
    } else if str_eq(s, "sinkhole") {
        Kind::Sinkhole
    } else if str_eq(s, "dns") {
        Kind::Dns
    } else if str_eq(s, "connect") {
        Kind::Connect
    } else if str_eq(s, "route") {
        Kind::Route
    } else if str_eq(s, "forward") {
        Kind::Forward
    } else if str_eq(s, "block") {
        Kind::Block
    } else if str_eq(s, "redirect") {
        Kind::Redirect
    } else if str_eq(s, "nic") {
        Kind::Nic
    } else if str_eq(s, "gpu") {
        Kind::Gpu
    } else if str_eq(s, "disk") {
        Kind::Disk
    } else if str_eq(s, "share") {
        Kind::Share
    } else if str_eq(s, "media") {
        Kind::Media
    } else if str_eq(s, "source") {
        Kind::Source
    } else {
        Kind::Unknown
    }
}

/// What the blocks of one kind declare, in order, without those that declare
/// nothing sound.
pub open spec fn gather<T>(
    blocks: Seq<Node>,
    kind: Kind,
    f: spec_fn(Node) -> Option<T>,
) -> Seq<T>
    decreases blocks.len(),
{
    if blocks.len() == 0 {
        Seq::empty()
    } else {
        let front = gather(blocks.drop_last(), kind, f);
        if kind_of(blocks.last().kind@) == kind {
            match f(blocks.last()) {
                Some(x) => front.push(x),
                None => front,
            }
        } else {
            front
        }
    }
}

/// What the last block of one kind declares.
pub open spec fn last_of<T>(
    blocks: Seq<Node>,
    kind: Kind,
    f: spec_fn(Node) -> Option<T>,
) -> Option<T>
    decreases blocks.len(),
{
    if blocks.len() == 0 {
        None
    } else if kind_of(blocks.last().kind@) == kind {
        f(blocks.last())
    } else {
        last_of(blocks.drop_last(), kind, f)
    }
}

/// What is wrong with the blocks, in order.
pub open spec fn gather_issues(
    blocks: Seq<Node>,
    f: spec_fn(Node) -> Seq<IssueView>,
) -> Seq<IssueView>
    decreases blocks.len(),
{
    if blocks.len() == 0 {
        no_issues()
    } else {
        gather_issues(blocks.drop_last(), f) + f(blocks.last())
    }
}

proof fn lemma_take(blocks: Seq<Node>, i: int)
    requires
        0 <= i < blocks.len(),
    ensures
        blocks.take(i + 1).drop_last() == blocks.take(i),
        blocks.take(i + 1).last() == blocks[i],
        blocks.take(i + 1).len() == i + 1,
{
    assert(blocks.take(i + 1).drop_last() =~= blocks.take(i));
}

proof fn lemma_push<T: DeepView>(v: Vec<T>, w: Vec<T>, x: T)
    requires
        w@ == v@.push(x),
    ensures
        w.deep_view() == v.deep_view().push(x.deep_view()),
{
    assert(w.deep_view() =~= v.deep_view().push(x.deep_view()));
}

fn push<T: DeepView>(v: &mut Vec<T>, x: T)
    ensures
        final(v).deep_view() == old(v).deep_view().push(x.deep_view()),
{
    v.push(x);
    proof {
        lemma_push(*old(v), *v, x);
    }
}

fn empty<T: DeepView>() -> (v: Vec<T>)
    ensures
        v.deep_view() == Seq::<T::V>::empty(),
{
    let v: Vec<T> = Vec::new();
    assert(v.deep_view() =~= Seq::<T::V>::empty());
    v
}

// -- records, sinkholes, forwards ---------------------------------------------------

/// The name that a `record` block gives an address.
pub open spec fn record_of(b: Node) -> Option<DnsRecordView> {
    match (text_of(b, "name"@), parsed_of(IpText, b, "ip"@)) {
        (Some(name), Some(ip)) => Some(DnsRecordView { name, ip, span: b.span }),
        _ => None,
    }
}

/// What is wrong with a `record` block.
pub open spec fn record_issues(b: Node) -> Seq<IssueView> {
    text_issues(b, "name"@) + parsed_issues(IpText, b, "ip"@)
}

pub fn extract_record(b: &Node, issues: &mut IssueList) -> (r: Option<DnsRecord>)
    ensures
        r.deep_view() == record_of(*b),
        final(issues).deep_view() == old(issues).deep_view() + record_issues(*b),
{
    broadcast use {lemma_cat, lemma_cat_nothing};

    let name = get_text(b, "name", issues);
    let ip = get_parsed(IpText, b, "ip", issues);
    match (name, ip) {
        (Some(name), Some(ip)) => Some(DnsRecord { name, ip, span: b.span }),
        _ => None,
    }
}

/// The names that a `sinkhole` block covers.
pub open spec fn sinkhole_of(b: Node) -> Option<SinkholeRuleView> {
    match text_of(b, "pattern"@) {
        Some(pattern) => Some(
            SinkholeRuleView {
                pattern,
                mode: match choice_of::<SinkholeMode>(b, "mode"@) {
                    Some(m) => m,
                    None => SinkholeMode::Nxdomain,
                },
                span: b.span,
            },
        ),
        None => None,
    }
}

/// What is wrong with a `sinkhole` block.
pub open spec fn sinkhole_issues(b: Node) -> Seq<IssueView> {
    text_issues(b, "pattern"@) + match text_of(b, "pattern"@) {
        Some(_) => choice_issues::<SinkholeMode>(b, "mode"@),
        None => no_issues(),
    }
}

pub fn extract_sinkhole(b: &Node, issues: &mut IssueList) -> (r: Option<SinkholeRule>)
    ensures
        r.deep_view() == sinkhole_of(*b),
        final(issues).deep_view() == old(issues).deep_view() + sinkhole_issues(*b),
{
    broadcast use {lemma_cat, lemma_cat_nothing};

    match get_text(b, "pattern", issues) {
        Some(pattern) => {
            let mode = match get_enum::<SinkholeMode>(b, "mode", issues) {
                Some(m) => m,
                None => SinkholeMode::Nxdomain,
            };
            Some(SinkholeRule { pattern, mode, span: b.span })
        },
        None => None,
    }
}

/// The port in a field.
pub open spec fn port_of(b: Node, name: Seq<char>) -> Option<u16> {
    match number_at(b, name) {
        Some((n, _)) => if 0 <= n <= 0xFFFF {
            Some(n as u16)
        } else {
            None
        },
        None => None,
    }
}

/// What is wrong with a field that should be a port.
pub open spec fn port_issues(b: Node, name: Seq<char>) -> Seq<IssueView> {
    number_issues(b, name) + match number_at(b, name) {
        Some((n, span)) => issue_if(
            !(0 <= n <= 0xFFFF),
            span,
            name + " "@ + signed_decimal(n as int) + " out of range"@,
        ),
        None => no_issues(),
    }
}

fn get_port(b: &Node, name: &str, issues: &mut IssueList) -> (r: Option<u16>)
    ensures
        r == port_of(*b, name@),
        final(issues).deep_view() == old(issues).deep_view() + port_issues(*b, name@),
{
    broadcast use {lemma_cat, lemma_cat_nothing};

    match get_int(b, name, issues) {
        Some((n, span)) => if 0 <= n && n <= 0xFFFF {
            Some(n as u16)
        } else {
            let head = cat3(name, " ", signed_string(n).as_str());
            note(issues, span, joined(head.as_str(), " out of range"));
            None
        },
        None => None,
    }
}

/// The guest and the guest port in `vm:port`.
pub open spec fn guest_port_of(to: Seq<char>) -> Option<(Seq<char>, u16)> {
    match find_char(to, ':') {
        Some(i) => match port_value(to.skip(i + 1)) {
            Some(p) => Some((to.take(i), p as u16)),
            None => None,
        },
        None => None,
    }
}

/// The port forward that a `forward` block asks for.
pub open spec fn forward_of(b: Node) -> Option<ForwardView> {
    match (port_of(b, "host_port"@), text_of(b, "to"@)) {
        (Some(host_port), Some(to)) => match guest_port_of(to) {
            Some((vm, guest_port)) => Some(
                ForwardView {
                    host_port,
                    vm,
                    guest_port,
                    proto: match choice_of::<Proto>(b, "proto"@) {
                        Some(p) => p,
                        None => Proto::Tcp,
                    },
                    span: b.span,
                },
            ),
            None => None,
        },
        _ => None,
    }
}

/// What is wrong with the `to` of a `forward` block, or with what follows it.
pub open spec fn forward_tail_issues(b: Node, to: Seq<char>, span: Span) -> Seq<IssueView> {
    if find_char(to, ':') is None {
        one_issue(span, "`to` must be \"vm:port\", got `"@ + to + "`"@)
    } else if guest_port_of(to) is None {
        one_issue(span, "malformed guest port in `"@ + to + "`"@)
    } else {
        choice_issues::<Proto>(b, "proto"@)
    }
}

/// What is wrong with a `forward` block.
pub open spec fn forward_issues(b: Node) -> Seq<IssueView> {
    port_issues(b, "host_port"@) + match port_of(b, "host_port"@) {
        Some(_) => text_issues(b, "to"@) + match text_at(b, "to"@) {
            Some((to, span)) => forward_tail_issues(b, to, span),
            None => no_issues(),
        },
        None => no_issues(),
    }
}

pub fn extract_forward(b: &Node, issues: &mut IssueList) -> (r: Option<Forward>)
    ensures
        r.deep_view() == forward_of(*b),
        final(issues).deep_view() == old(issues).deep_view() + forward_issues(*b),
{
    broadcast use {lemma_cat, lemma_cat_nothing};

    let host_port: u16 = match get_port(b, "host_port", issues) {
        Some(p) => p,
        None => return None,
    };
    let (to, to_span) = match get_str(b, "to", issues) {
        Some(x) => x,
        None => return None,
    };
    let c = chars_of(to.as_str());
    let i: usize = match index_of_char(c.as_slice(), ':') {
        Some(i) => i,
        None => {
            note(issues, to_span, cat3("`to` must be \"vm:port\", got `", to.as_str(), "`"));
            return None;
        },
    };
    assert(c.len() == c@.len());
    let head = slice_subrange(c.as_slice(), 0, i);
    let tail = slice_subrange(c.as_slice(), i + 1, c.len());
    assert(head@ =~= to@.take(i as int));
    assert(tail@ =~= to@.skip(i + 1));
    let guest_port: u16 = match parse_u16(tail) {
        Some(p) => p,
        None => {
            note(issues, to_span, cat3("malformed guest port in `", to.as_str(), "`"));
            return None;
        },
    };
    let proto = match get_enum::<Proto>(b, "proto", issues) {
        Some(p) => p,
        None => Proto::Tcp,
    };
    Some(Forward { host_port, vm: string_of(head), guest_port, proto, span: b.span })
}

// -- segments -------------------------------------------------------------------------

/// Who answers names, by a `dns` block.
pub open spec fn dns_of(b: Node) -> SegmentDns {
    SegmentDns {
        server: parsed_of(IpText, b, "server"@),
        enabled: flag_or(b, "enabled"@, true),
        declared: true,
    }
}

/// The host that a `connect` block names.
pub open spec fn connect_of(b: Node) -> Option<ConnectView> {
    match text_of(b, "host"@) {
        Some(host) => Some(ConnectView { host, span: b.span }),
        None => None,
    }
}

/// The route of a `route` block.
pub open spec fn route_of(b: Node) -> Option<Route> {
    match (parsed_of(CidrText, b, "dest"@), parsed_of(IpText, b, "via"@)) {
        (Some(dest), Some(via)) => Some(Route { dest, via, span: b.span }),
        _ => None,
    }
}

/// The rule of a `block` block.
pub open spec fn block_rule_of(b: Node) -> Option<BlockRule> {
    match parsed_of(CidrText, b, "cidr"@) {
        Some(cidr) => Some(
            BlockRule {
                cidr,
                proto: choice_of::<L4Proto>(b, "proto"@),
                port: port_of(b, "port"@),
                span: b.span,
            },
        ),
        None => None,
    }
}

/// A redirect's transport.
pub open spec fn redirect_proto(p: Option<RedirectProto>) -> Option<L4Proto> {
    match p {
        Some(RedirectProto::Tcp) => Some(L4Proto::Tcp),
        Some(RedirectProto::Udp) => Some(L4Proto::Udp),
        None => None,
    }
}

/// The rule of a `redirect` block.
pub open spec fn redirect_rule_of(b: Node) -> Option<RedirectRule> {
    match (parsed_of(HostPortText, b, "from"@), parsed_of(HostPortText, b, "to"@)) {
        (Some(from), Some(to)) => Some(
            RedirectRule {
                from,
                to,
                proto: redirect_proto(choice_of::<RedirectProto>(b, "proto"@)),
                span: b.span,
            },
        ),
        _ => None,
    }
}

/// What is wrong with a child of a `segment` block.
pub open spec fn segment_child_issues(b: Node) -> Seq<IssueView> {
    match kind_of(b.kind@) {
        Kind::Dns => parsed_issues(IpText, b, "server"@) + flag_issues(b, "enabled"@),
        Kind::Connect => text_issues(b, "host"@),
        Kind::Route => parsed_issues(CidrText, b, "dest"@) + parsed_issues(IpText, b, "via"@),
        Kind::Record => record_issues(b),
        Kind::Forward => forward_issues(b),
        Kind::Block => parsed_issues(CidrText, b, "cidr"@) + choice_issues::<L4Proto>(b, "proto"@)
            + port_issues(b, "port"@),
        Kind::Redirect => parsed_issues(HostPortText, b, "from"@) + parsed_issues(
            HostPortText,
            b,
            "to"@,
        ) + choice_issues::<RedirectProto>(b, "proto"@),
        Kind::Sinkhole => sinkhole_issues(b),
        _ => no_issues(),
    }
}

fn extract_dns(b: &Node, issues: &mut IssueList) -> (r: SegmentDns)
    ensures
        r == dns_of(*b),
        final(issues).deep_view() == old(issues).deep_view() + (parsed_issues(
            IpText,
            *b,
            "server"@,
        ) + flag_issues(*b, "enabled"@)),
{
    broadcast use {lemma_cat, lemma_cat_nothing};

    let server = get_parsed(IpText, b, "server", issues);
    let enabled = get_flag(b, "enabled", true, issues);
    SegmentDns { server, enabled, declared: true }
}

fn extract_connect(b: &Node, issues: &mut IssueList) -> (r: Option<Connect>)
    ensures
        r.deep_view() == connect_of(*b),
        final(issues).deep_view() == old(issues).deep_view() + text_issues(*b, "host"@),
{
    match get_text(b, "host", issues) {
        Some(host) => Some(Connect { host, span: b.span }),
        None => None,
    }
}

fn extract_route(b: &Node, issues: &mut IssueList) -> (r: Option<Route>)
    ensures
        r == route_of(*b),
        final(issues).deep_view() == old(issues).deep_view() + (parsed_issues(
            CidrText,
            *b,
            "dest"@,
        ) + parsed_issues(IpText, *b, "via"@)),
{
    broadcast use {lemma_cat, lemma_cat_nothing};

    let dest = get_parsed(CidrText, b, "dest", issues);
    let via = get_parsed(IpText, b, "via", issues);
    match (dest, via) {
        (Some(dest), Some(via)) => Some(Route { dest, via, span: b.span }),
        _ => None,
    }
}

fn extract_block_rule(b: &Node, issues: &mut IssueList) -> (r: Option<BlockRule>)
    ensures
        r == block_rule_of(*b),
        final(issues).deep_view() == old(issues).deep_view() + (parsed_issues(
            CidrText,
            *b,
            "cidr"@,
        ) + choice_issues::<L4Proto>(*b, "proto"@) + port_issues(*b, "port"@)),
{
    broadcast use {lemma_cat, lemma_cat_nothing};

    let cidr = get_parsed(CidrText, b, "cidr", issues);
    let proto = get_enum::<L4Proto>(b, "proto", issues);
    let port = get_port(b, "port", issues);
    match cidr {
        Some(cidr) => Some(BlockRule { cidr, proto, port, span: b.span }),
        None => None,
    }
}

fn extract_redirect_rule(b: &Node, issues: &mut IssueList) -> (r: Option<RedirectRule>)
    ensures
        r == redirect_rule_of(*b),
        final(issues).deep_view() == old(issues).deep_view() + (parsed_issues(
            HostPortText,
            *b,
            "from"@,
        ) + parsed_issues(HostPortText, *b, "to"@) + choice_issues::<RedirectProto>(*b, "proto"@)),
{
    broadcast use {lemma_cat, lemma_cat_nothing};

    let from = get_parsed(HostPortText, b, "from", issues);
    let to = get_parsed(HostPortText, b, "to", issues);
    let proto = match get_enum::<RedirectProto>(b, "proto", issues) {
        Some(RedirectProto::Tcp) => Some(L4Proto::Tcp),
        Some(RedirectProto::Udp) => Some(L4Proto::Udp),
        None => None,
    };
    match (from, to) {
        (Some(from), Some(to)) => Some(RedirectRule { from, to, proto, span: b.span }),
        _ => None,
    }
}

/// A segment's MTU.
pub open spec fn mtu_of(b: Node) -> Option<u16> {
    match number_at(b, "mtu"@) {
        Some((n, _)) => if 576 <= n <= 0xFFFF {
            Some(n as u16)
        } else {
            None
        },
        None => None,
    }
}

/// What is wrong with a segment's MTU.
pub open spec fn mtu_issues(b: Node) -> Seq<IssueView> {
    number_issues(b, "mtu"@) + match number_at(b, "mtu"@) {
        Some((n, span)) => issue_if(
            !(576 <= n <= 0xFFFF),
            span,
            "mtu "@ + signed_decimal(n as int) + " out of range (576 to 65535)"@,
        ),
        None => no_issues(),
    }
}

fn get_mtu(b: &Node, issues: &mut IssueList) -> (r: Option<u16>)
    ensures
        r == mtu_of(*b),
        final(issues).deep_view() == old(issues).deep_view() + mtu_issues(*b),
{
    broadcast use {lemma_cat, lemma_cat_nothing};

    match get_int(b, "mtu", issues) {
        Some((n, span)) => if 576 <= n && n <= 0xFFFF {
            Some(n as u16)
        } else {
            let shown = signed_string(n);
            note(issues, span, cat3("mtu ", shown.as_str(), " out of range (576 to 65535)"));
            None
        },
        None => None,
    }
}

pub open spec fn dns_reader() -> spec_fn(Node) -> Option<SegmentDns> {
    |b: Node| Some(dns_of(b))
}

pub open spec fn connect_reader() -> spec_fn(Node) -> Option<ConnectView> {
    |b: Node| connect_of(b)
}

pub open spec fn route_reader() -> spec_fn(Node) -> Option<Route> {
    |b: Node| route_of(b)
}

pub open spec fn record_reader() -> spec_fn(Node) -> Option<DnsRecordView> {
    |b: Node| record_of(b)
}

pub open spec fn forward_reader() -> spec_fn(Node) -> Option<ForwardView> {
    |b: Node| forward_of(b)
}

pub open spec fn block_rule_reader() -> spec_fn(Node) -> Option<BlockRule> {
    |b: Node| block_rule_of(b)
}

pub open spec fn redirect_rule_reader() -> spec_fn(Node) -> Option<RedirectRule> {
    |b: Node| redirect_rule_of(b)
}

pub open spec fn sinkhole_reader() -> spec_fn(Node) -> Option<SinkholeRuleView> {
    |b: Node| sinkhole_of(b)
}

pub open spec fn segment_child_reader() -> spec_fn(Node) -> Seq<IssueView> {
    |b: Node| segment_child_issues(b)
}

/// How a segment's names are answered when it has no `dns` block.
pub open spec fn default_dns() -> SegmentDns {
    SegmentDns { server: None, enabled: true, declared: false }
}

/// The last of the connections.
pub open spec fn last_connect(all: Seq<ConnectView>) -> Option<ConnectView> {
    if all.len() == 0 {
        None
    } else {
        Some(all.last())
    }
}

/// The segment that a `segment` block declares.
pub open spec fn segment_of(b: Node) -> Option<SegmentView> {
    match label_of(b) {
        Some(name) => Some(
            SegmentView {
                name,
                span: b.span,
                subnet: parsed_of(SubnetText, b, "subnet"@),
                mtu: mtu_of(b),
                global: flag_or(b, "global"@, false),
                dhcp: flag_or(b, "dhcp"@, true),
                nat: flag_or(b, "nat"@, false),
                routes_to: texts_of(b, "routes_to"@),
                dns: match last_of(b.blocks@, Kind::Dns, dns_reader()) {
                    Some(d) => d,
                    None => default_dns(),
                },
                connect: last_connect(gather(b.blocks@, Kind::Connect, connect_reader())),
                routes: gather(b.blocks@, Kind::Route, route_reader()),
                records: gather(b.blocks@, Kind::Record, record_reader()),
                forwards: gather(b.blocks@, Kind::Forward, forward_reader()),
                block_rules: gather(b.blocks@, Kind::Block, block_rule_reader()),
                redirect_rules: gather(b.blocks@, Kind::Redirect, redirect_rule_reader()),
                sinkholes: gather(b.blocks@, Kind::Sinkhole, sinkhole_reader()),
            },
        ),
        None => None,
    }
}

/// What is wrong with a `segment` block.
pub open spec fn segment_issues(b: Node) -> Seq<IssueView> {
    label_issues(b, "segment"@) + match label_of(b) {
        Some(_) => parsed_issues(SubnetText, b, "subnet"@) + mtu_issues(b) + flag_issues(
            b,
            "global"@,
        ) + flag_issues(b, "dhcp"@) + flag_issues(b, "nat"@) + texts_issues(b, "routes_to"@)
            + gather_issues(b.blocks@, segment_child_reader()),
        None => no_issues(),
    }
}

#[verifier::rlimit(60)]
pub fn extract_segment(b: &Node, issues: &mut IssueList) -> (r: Option<Segment>)
    ensures
        r.deep_view() == segment_of(*b),
        final(issues).deep_view() == old(issues).deep_view() + segment_issues(*b),
{
    broadcast use {lemma_cat, lemma_cat_nothing};

    let name = match label_name(b, "segment", issues) {
        Some(name) => name,
        None => return None,
    };
    let subnet = get_parsed(SubnetText, b, "subnet", issues);
    let mtu: Option<u16> = get_mtu(b, issues);
    let global = get_flag(b, "global", false, issues);
    let dhcp = get_flag(b, "dhcp", true, issues);
    let egress = get_flag(b, "nat", false, issues);
    let routes_to = get_str_list(b, "routes_to", issues);
    let mut dns: Option<SegmentDns> = None;
    let mut connect: Option<Connect> = None;
    let mut routes: Vec<Route> = empty();
    let mut records: Vec<DnsRecord> = empty();
    let mut forwards: Vec<Forward> = empty();
    let mut block_rules: Vec<BlockRule> = empty();
    let mut redirect_rules: Vec<RedirectRule> = empty();
    let mut sinkholes: Vec<SinkholeRule> = empty();
    let ghost before = issues.deep_view();
    let ghost all = b.blocks@;
    let mut i: usize = 0;
    assert(all.take(0) =~= Seq::empty());
    while i < b.blocks.len()
        invariant
            i <= all.len(),
            all == b.blocks@,
            dns == last_of(all.take(i as int), Kind::Dns, dns_reader()),
            connect.deep_view() == last_connect(
                gather(all.take(i as int), Kind::Connect, connect_reader()),
            ),
            routes.deep_view() == gather(all.take(i as int), Kind::Route, route_reader()),
            records.deep_view() == gather(all.take(i as int), Kind::Record, record_reader()),
            forwards.deep_view() == gather(all.take(i as int), Kind::Forward, forward_reader()),
            block_rules.deep_view() == gather(
                all.take(i as int),
                Kind::Block,
                block_rule_reader(),
            ),
            redirect_rules.deep_view() == gather(
                all.take(i as int),
                Kind::Redirect,
                redirect_rule_reader(),
            ),
            sinkholes.deep_view() == gather(all.take(i as int), Kind::Sinkhole, sinkhole_reader()),
            issues.deep_view() == before + gather_issues(
                all.take(i as int),
                segment_child_reader(),
            ),
        decreases all.len() - i,
    {
        broadcast use {lemma_cat, lemma_cat_nothing};

        let child = &b.blocks[i];
        proof {
            lemma_take(all, i as int);
        }
        match block_kind(child.kind.as_str()) {
            Kind::Dns => {
                dns = Some(extract_dns(child, issues));
            },
            Kind::Connect => {
                if let Some(c) = extract_connect(child, issues) {
                    connect = Some(c);
                }
            },
            Kind::Route => {
                if let Some(x) = extract_route(child, issues) {
                    push(&mut routes, x);
                }
            },
            Kind::Record => {
                if let Some(x) = extract_record(child, issues) {
                    push(&mut records, x);
                }
            },
            Kind::Forward => {
                if let Some(x) = extract_forward(child, issues) {
                    push(&mut forwards, x);
                }
            },
            Kind::Block => {
                if let Some(x) = extract_block_rule(child, issues) {
                    push(&mut block_rules, x);
                }
            },
            Kind::Redirect => {
                if let Some(x) = extract_redirect_rule(child, issues) {
                    push(&mut redirect_rules, x);
                }
            },
            Kind::Sinkhole => {
                if let Some(x) = extract_sinkhole(child, issues) {
                    push(&mut sinkholes, x);
                }
            },
            _ => {},
        }
        i = i + 1;
    }
    assert(all.take(i as int) =~= all);
    let dns = match dns {
        Some(d) => d,
        None => SegmentDns { server: None, enabled: true, declared: false },
    };
    Some(
        Segment {
            name,
            span: b.span,
            subnet,
            mtu,
            global,
            dhcp,
            nat: egress,
            routes_to,
            dns,
            connect,
            routes,
            records,
            forwards,
            block_rules,
            redirect_rules,
            sinkholes,
        },
    )
}

// -- parts of a guest ---------------------------------------------------------------------

/// The network card of a `nic` block.
pub open spec fn nic_of(b: Node) -> NicView {
    NicView {
        span: b.span,
        segment: text_of(b, "segment"@),
        nat: flag_or(b, "nat"@, false),
        ip: parsed_of(IpText, b, "ip"@),
        mac: parsed_of(MacText, b, "mac"@),
        isolated: flag_or(b, "isolated"@, false),
    }
}

/// What is wrong with a `nic` block.
pub open spec fn nic_issues(b: Node) -> Seq<IssueView> {
    text_issues(b, "segment"@) + flag_issues(b, "nat"@) + parsed_issues(IpText, b, "ip"@)
        + parsed_issues(MacText, b, "mac"@) + flag_issues(b, "isolated"@)
}

pub fn extract_nic(b: &Node, issues: &mut IssueList) -> (r: Nic)
    ensures
        r.deep_view() == nic_of(*b),
        final(issues).deep_view() == old(issues).deep_view() + nic_issues(*b),
{
    broadcast use {lemma_cat, lemma_cat_nothing};

    let segment = get_text(b, "segment", issues);
    let egress = get_flag(b, "nat", false, issues);
    let ip = get_parsed(IpText, b, "ip", issues);
    let mac = get_parsed(MacText, b, "mac", issues);
    let isolated = get_flag(b, "isolated", false, issues);
    Nic { span: b.span, segment, nat: egress, ip, mac, isolated }
}

/// Whether `c` is an ASCII letter or digit.
pub open spec fn is_alnum(c: char) -> bool {
    '0' <= c <= '9' || 'a' <= c <= 'z' || 'A' <= c <= 'Z'
}

/// The letters and digits of `s` in lower case, with one underscore for each
/// run of other characters behind some of them.
pub open spec fn runs_joined(s: Seq<char>) -> Seq<char>
    decreases s.len(),
{
    if s.len() == 0 {
        Seq::empty()
    } else {
        let front = runs_joined(s.drop_last());
        if is_alnum(s.last()) {
            front.push(lower_char(s.last()))
        } else if front.len() > 0 && front.last() != '_' {
            front.push('_')
        } else {
            front
        }
    }
}

/// The share name of a guest path.
pub open spec fn share_name(guest: Seq<char>) -> Seq<char> {
    let joined = runs_joined(guest);
    if joined.len() > 0 && joined.last() == '_' {
        joined.drop_last()
    } else {
        joined
    }
}

/// Derive an SMB share name from the guest mount path: alphanumeric runs
/// joined by `_`, e.g. `/mnt/src` gives `mnt_src`, `D:\\data` gives `d_data`.
pub fn derive_share_name(guest: &str) -> (r: String)
    ensures
        r@ == share_name(guest@),
{
    let c = chars_of(guest);
    let mut out: Vec<char> = Vec::new();
    let mut i: usize = 0;
    assert(c@.take(0) =~= Seq::empty());
    while i < c.len()
        invariant
            i <= c@.len(),
            c@ == guest@,
            out@ == runs_joined(c@.take(i as int)),
        decreases c@.len() - i,
    {
        let x: char = c[i];
        proof {
            let t = c@.take(i as int + 1);
            assert(t.drop_last() =~= c@.take(i as int));
            assert(t.last() == x);
        }
        if ('0' <= x && x <= '9') || ('a' <= x && x <= 'z') || ('A' <= x && x <= 'Z') {
            out.push(to_lower(x));
        } else if out.len() > 0 && out[out.len() - 1] != '_' {
            out.push('_');
        }
        i = i + 1;
    }
    assert(c@.take(i as int) =~= guest@);
    if out.len() > 0 && out[out.len() - 1] == '_' {
        let n: usize = out.len() - 1;
        let kept = slice_subrange(out.as_slice(), 0, n);
        assert(kept@ =~= out@.drop_last());
        string_of(kept)
    } else {
        string_of(out.as_slice())
    }
}

/// The share of a `share` block.
pub open spec fn share_of(b: Node) -> Option<ShareView> {
    match (text_of(b, "host"@), text_of(b, "guest"@)) {
        (Some(host), Some(guest)) => Some(
            ShareView {
                span: b.span,
                host,
                guest,
                readonly: flag_or(b, "readonly"@, false),
                smb1: flag_or(b, "smb1"@, false),
                name: match text_of(b, "name"@) {
                    Some(n) => n,
                    None => share_name(guest),
                },
            },
        ),
        _ => None,
    }
}

/// What is wrong with a `share` block.
pub open spec fn share_issues(b: Node) -> Seq<IssueView> {
    text_issues(b, "host"@) + match text_of(b, "host"@) {
        Some(_) => text_issues(b, "guest"@) + match text_of(b, "guest"@) {
            Some(_) => text_issues(b, "name"@) + flag_issues(b, "readonly"@) + flag_issues(
                b,
                "smb1"@,
            ),
            None => no_issues(),
        },
        None => no_issues(),
    }
}

pub fn extract_share(b: &Node, issues: &mut IssueList) -> (r: Option<Share>)
    ensures
        r.deep_view() == share_of(*b),
        final(issues).deep_view() == old(issues).deep_view() + share_issues(*b),
{
    broadcast use {lemma_cat, lemma_cat_nothing};

    let host = match get_text(b, "host", issues) {
        Some(s) => s,
        None => return None,
    };
    let guest = match get_text(b, "guest", issues) {
        Some(s) => s,
        None => return None,
    };
    let name = match get_text(b, "name", issues) {
        Some(n) => n,
        None => derive_share_name(guest.as_str()),
    };
    let readonly = get_flag(b, "readonly", false, issues);
    let smb1 = get_flag(b, "smb1", false, issues);
    Some(Share { span: b.span, host, guest, readonly, smb1, name })
}

/// The image of a `media` block.
pub open spec fn media_of(b: Node) -> Option<MediaView> {
    match (choice_of::<MediaKind>(b, "kind"@), text_of(b, "from"@)) {
        (Some(kind), Some(from)) => Some(
            MediaView { span: b.span, kind, from, label: text_of(b, "label"@) },
        ),
        _ => None,
    }
}

/// What is wrong with a `media` block.
pub open spec fn media_issues(b: Node) -> Seq<IssueView> {
    choice_issues::<MediaKind>(b, "kind"@) + match choice_of::<MediaKind>(b, "kind"@) {
        Some(_) => text_issues(b, "from"@) + match text_of(b, "from"@) {
            Some(_) => text_issues(b, "label"@),
            None => no_issues(),
        },
        None => no_issues(),
    }
}

pub fn extract_media(b: &Node, issues: &mut IssueList) -> (r: Option<Media>)
    ensures
        r.deep_view() == media_of(*b),
        final(issues).deep_view() == old(issues).deep_view() + media_issues(*b),
{
    broadcast use {lemma_cat, lemma_cat_nothing};

    let kind = match get_enum::<MediaKind>(b, "kind", issues) {
        Some(k) => k,
        None => return None,
    };
    let from = match get_text(b, "from", issues) {
        Some(s) => s,
        None => return None,
    };
    let label = get_text(b, "label", issues);
    Some(Media { span: b.span, kind, from, label })
}

/// The disk of a `disk` block.
pub open spec fn disk_block_of(b: Node) -> Option<DiskBlockView> {
    match label_of(b) {
        Some(name) => Some(
            DiskBlockView {
                name,
                span: b.span,
                size: parsed_of(SizeText, b, "size"@),
                from: text_of(b, "from"@),
            },
        ),
        None => None,
    }
}

/// What is wrong with a `disk` block.
pub open spec fn disk_block_issues(b: Node) -> Seq<IssueView> {
    label_issues(b, "disk"@) + match label_of(b) {
        Some(_) => parsed_issues(SizeText, b, "size"@) + text_issues(b, "from"@),
        None => no_issues(),
    }
}

pub fn extract_disk_block(b: &Node, issues: &mut IssueList) -> (r: Option<DiskBlock>)
    ensures
        r.deep_view() == disk_block_of(*b),
        final(issues).deep_view() == old(issues).deep_view() + disk_block_issues(*b),
{
    broadcast use {lemma_cat, lemma_cat_nothing};

    let name = match label_name(b, "disk", issues) {
        Some(s) => s,
        None => return None,
    };
    let size = get_parsed(SizeText, b, "size", issues);
    let from = get_text(b, "from", issues);
    Some(DiskBlock { name, span: b.span, size, from })
}

/// The GPU of a `gpu` block.
pub open spec fn gpu_of(b: Node) -> Option<GpuView> {
    match choice_of::<GpuMode>(b, "mode"@) {
        Some(mode) => Some(GpuView { mode, address: text_of(b, "address"@), span: b.span }),
        None => None,
    }
}

/// What is wrong with a `gpu` block.
pub open spec fn gpu_issues(b: Node) -> Seq<IssueView> {
    choice_issues::<GpuMode>(b, "mode"@) + match choice_of::<GpuMode>(b, "mode"@) {
        Some(_) => text_issues(b, "address"@),
        None => no_issues(),
    }
}

pub fn extract_gpu(b: &Node, issues: &mut IssueList) -> (r: Option<Gpu>)
    ensures
        r.deep_view() == gpu_of(*b),
        final(issues).deep_view() == old(issues).deep_view() + gpu_issues(*b),
{
    broadcast use {lemma_cat, lemma_cat_nothing};

    let mode = match get_enum::<GpuMode>(b, "mode", issues) {
        Some(m) => m,
        None => return None,
    };
    let address = get_text(b, "address", issues);
    Some(Gpu { mode, address, span: b.span })
}

/// The script of a `provision` block.
pub open spec fn provision_of(b: Node) -> Option<ProvisionView> {
    match label_of(b) {
        Some(script) => Some(
            ProvisionView { script, vms: texts_of(b, "vms"@), span: b.span },
        ),
        None => None,
    }
}

/// What is wrong with a `provision` block.
pub open spec fn provision_issues(b: Node) -> Seq<IssueView> {
    label_issues(b, "provision"@) + match label_of(b) {
        Some(_) => texts_issues(b, "vms"@),
        None => no_issues(),
    }
}

pub fn extract_provision(b: &Node, issues: &mut IssueList) -> (r: Option<Provision>)
    ensures
        r.deep_view() == provision_of(*b),
        final(issues).deep_view() == old(issues).deep_view() + provision_issues(*b),
{
    broadcast use {lemma_cat, lemma_cat_nothing};

    let script = match label_name(b, "provision", issues) {
        Some(s) => s,
        None => return None,
    };
    let vms = get_str_list(b, "vms", issues);
    Some(Provision { script, vms, span: b.span })
}

/// The handler of an `on` block.
pub open spec fn handler_of(b: Node) -> Option<HandlerView> {
    match (label_of(b), text_of(b, "run"@)) {
        (Some(event), Some(run)) => Some(HandlerView { event, run, span: b.span }),
        _ => None,
    }
}

/// What is wrong with an `on` block.
pub open spec fn handler_issues(b: Node) -> Seq<IssueView> {
    label_issues(b, "on"@) + match label_of(b) {
        Some(_) => text_issues(b, "run"@),
        None => no_issues(),
    }
}

pub fn extract_handler(b: &Node, issues: &mut IssueList) -> (r: Option<Handler>)
    ensures
        r.deep_view() == handler_of(*b),
        final(issues).deep_view() == old(issues).deep_view() + handler_issues(*b),
{
    broadcast use {lemma_cat, lemma_cat_nothing};

    let event = match label_name(b, "on", issues) {
        Some(s) => s,
        None => return None,
    };
    let run = match get_text(b, "run", issues) {
        Some(s) => s,
        None => return None,
    };
    Some(Handler { event, run, span: b.span })
}

// -- guests ---------------------------------------------------------------------------------

/// A guest's processor count.
pub open spec fn cpus_of(b: Node) -> Option<u32> {
    match number_at(b, "cpus"@) {
        Some((n, _)) => if 0 < n <= 0xFFFF_FFFF {
            Some(n as u32)
        } else {
            None
        },
        None => None,
    }
}

/// What is wrong with a guest's processor count.
pub open spec fn cpus_issues(b: Node) -> Seq<IssueView> {
    number_issues(b, "cpus"@) + match number_at(b, "cpus"@) {
        Some((n, span)) => issue_if(
            !(0 < n <= 0xFFFF_FFFF),
            span,
            "cpus must be a positive integer, got "@ + signed_decimal(n as int),
        ),
        None => no_issues(),
    }
}

fn get_cpus(b: &Node, issues: &mut IssueList) -> (r: Option<u32>)
    ensures
        r == cpus_of(*b),
        final(issues).deep_view() == old(issues).deep_view() + cpus_issues(*b),
{
    broadcast use {lemma_cat, lemma_cat_nothing};

    match get_int(b, "cpus", issues) {
        Some((n, span)) => if 0 < n && n <= 0xFFFF_FFFF {
            Some(n as u32)
        } else {
            let shown = signed_string(n);
            note(issues, span, joined("cpus must be a positive integer, got ", shown.as_str()));
            None
        },
        None => None,
    }
}

pub open spec fn nic_reader() -> spec_fn(Node) -> Option<NicView> {
    |b: Node| Some(nic_of(b))
}

pub open spec fn gpu_reader() -> spec_fn(Node) -> Option<GpuView> {
    |b: Node| gpu_of(b)
}

pub open spec fn disk_block_reader() -> spec_fn(Node) -> Option<DiskBlockView> {
    |b: Node| disk_block_of(b)
}

pub open spec fn share_reader() -> spec_fn(Node) -> Option<ShareView> {
    |b: Node| share_of(b)
}

pub open spec fn media_reader() -> spec_fn(Node) -> Option<MediaView> {
    |b: Node| media_of(b)
}

pub open spec fn vm_child_reader() -> spec_fn(Node) -> Seq<IssueView> {
    |b: Node| vm_child_issues(b)
}

/// What is wrong with a child of a `vm` block.
pub open spec fn vm_child_issues(b: Node) -> Seq<IssueView> {
    match kind_of(b.kind@) {
        Kind::Nic => nic_issues(b),
        Kind::Gpu => gpu_issues(b),
        Kind::Disk => disk_block_issues(b),
        Kind::Share => share_issues(b),
        Kind::Media => media_issues(b),
        _ => no_issues(),
    }
}

/// The template that a `vm` block names.
pub open spec fn vm_template_of(b: Node, arches: Seq<Seq<char>>) -> Option<
    (TemplateRefView, Span),
> {
    match text_at(b, "template"@) {
        Some((s, span)) => match template_ref_value(s, arches) {
            Some(t) => Some((t, span)),
            None => None,
        },
        None => None,
    }
}

/// The guest that a `vm` block declares.
pub open spec fn vm_of(b: Node, arches: Seq<Seq<char>>) -> Option<VmView> {
    match (label_of(b), vm_template_of(b, arches)) {
        (Some(name), Some((template, template_span))) => Some(
            VmView {
                name,
                span: b.span,
                template,
                template_span,
                arch: text_of(b, "arch"@),
                profile: text_of(b, "profile"@),
                cpus: cpus_of(b),
                memory: parsed_of(SizeText, b, "memory"@),
                disk: parsed_of(SizeText, b, "disk"@),
                cdrom: text_of(b, "cdrom"@),
                floppy: text_of(b, "floppy"@),
                depends_on: texts_of(b, "depends_on"@),
                nested: flag_or(b, "nested"@, false),
                gui: flag_of(b, "gui"@),
                display: text_of(b, "display"@),
                firmware: choice_of::<Firmware>(b, "firmware"@),
                tpm: flag_of(b, "tpm"@),
                secure_boot: flag_of(b, "secure_boot"@),
                qemu_args: texts_of(b, "qemu_args"@),
                gpu: last_of(b.blocks@, Kind::Gpu, gpu_reader()),
                nics: gather(b.blocks@, Kind::Nic, nic_reader()),
                extra_disks: gather(b.blocks@, Kind::Disk, disk_block_reader()),
                shares: gather(b.blocks@, Kind::Share, share_reader()),
                media: gather(b.blocks@, Kind::Media, media_reader()),
            },
        ),
        _ => None,
    }
}

/// What is wrong with the fields of a `vm` block behind its template.
pub open spec fn vm_field_issues(b: Node) -> Seq<IssueView> {
    text_issues(b, "arch"@) + text_issues(b, "profile"@) + cpus_issues(b) + parsed_issues(
        SizeText,
        b,
        "memory"@,
    ) + parsed_issues(SizeText, b, "disk"@) + text_issues(b, "cdrom"@) + text_issues(b, "floppy"@)
        + texts_issues(b, "depends_on"@) + flag_issues(b, "nested"@) + flag_issues(b, "gui"@)
        + text_issues(b, "display"@) + choice_issues::<Firmware>(b, "firmware"@) + flag_issues(
        b,
        "tpm"@,
    ) + flag_issues(b, "secure_boot"@) + texts_issues(b, "qemu_args"@)
}

/// What is wrong with the template of a `vm` block.
pub open spec fn vm_template_issues(
    b: Node,
    name: Seq<char>,
    arches: Seq<Seq<char>>,
) -> Seq<IssueView> {
    text_issues(b, "template"@) + match text_at(b, "template"@) {
        Some((s, span)) => issue_if(
            template_ref_value(s, arches) is None,
            span,
            template_ref_error(s),
        ),
        None => one_issue(
            b.span,
            "vm \""@ + name + "\" is missing required `template`"@,
        ),
    }
}

/// What is wrong with a `vm` block.
pub open spec fn vm_issues(b: Node, arches: Seq<Seq<char>>) -> Seq<IssueView> {
    label_issues(b, "vm"@) + match label_of(b) {
        Some(name) => vm_template_issues(b, name, arches) + match vm_template_of(b, arches) {
            Some(_) => vm_field_issues(b) + gather_issues(b.blocks@, vm_child_reader()),
            None => no_issues(),
        },
        None => no_issues(),
    }
}

fn extract_vm_template(
    b: &Node,
    name: &str,
    arches: &Vec<String>,
    issues: &mut IssueList,
) -> (r: Option<(TemplateRef, Span)>)
    ensures
        r.deep_view() == vm_template_of(*b, arches.deep_view()),
        final(issues).deep_view() == old(issues).deep_view() + vm_template_issues(
            *b,
            name@,
            arches.deep_view(),
        ),
{
    broadcast use {lemma_cat, lemma_cat_nothing};

    match get_str(b, "template", issues) {
        Some((s, span)) => match parse_template_ref(s.as_str(), arches) {
            Ok(t) => Some((t, span)),
            Err(e) => {
                note(issues, span, e);
                None
            },
        },
        None => {
            note(issues, b.span, cat3("vm \"", name, "\" is missing required `template`"));
            None
        },
    }
}

/// A guest without its child blocks.
fn extract_vm_fields(
    b: &Node,
    name: String,
    template: TemplateRef,
    template_span: Span,
    issues: &mut IssueList,
) -> (r: Vm)
    ensures
        r.deep_view() == (VmView {
            name: name@,
            span: b.span,
            template: template.deep_view(),
            template_span,
            arch: text_of(*b, "arch"@),
            profile: text_of(*b, "profile"@),
            cpus: cpus_of(*b),
            memory: parsed_of(SizeText, *b, "memory"@),
            disk: parsed_of(SizeText, *b, "disk"@),
            cdrom: text_of(*b, "cdrom"@),
            floppy: text_of(*b, "floppy"@),
            depends_on: texts_of(*b, "depends_on"@),
            nested: flag_or(*b, "nested"@, false),
            gui: flag_of(*b, "gui"@),
            display: text_of(*b, "display"@),
            firmware: choice_of::<Firmware>(*b, "firmware"@),
            tpm: flag_of(*b, "tpm"@),
            secure_boot: flag_of(*b, "secure_boot"@),
            qemu_args: texts_of(*b, "qemu_args"@),
            gpu: None,
            nics: Seq::empty(),
            extra_disks: Seq::empty(),
            shares: Seq::empty(),
            media: Seq::empty(),
        }),
        final(issues).deep_view() == old(issues).deep_view() + vm_field_issues(*b),
{
    broadcast use {lemma_cat, lemma_cat_nothing};

    let arch = get_text(b, "arch", issues);
    let profile = get_text(b, "profile", issues);
    let cpus: Option<u32> = get_cpus(b, issues);
    let memory = get_parsed(SizeText, b, "memory", issues);
    let disk = get_parsed(SizeText, b, "disk", issues);
    let cdrom = get_text(b, "cdrom", issues);
    let floppy = get_text(b, "floppy", issues);
    let depends_on = get_str_list(b, "depends_on", issues);
    let nested = get_flag(b, "nested", false, issues);
    let gui = get_bool(b, "gui", issues);
    let display = get_text(b, "display", issues);
    let firmware = get_enum::<Firmware>(b, "firmware", issues);
    let tpm = get_bool(b, "tpm", issues);
    let secure_boot = get_bool(b, "secure_boot", issues);
    let qemu_args = get_str_list(b, "qemu_args", issues);
    Vm {
        name,
        span: b.span,
        template,
        template_span,
        arch,
        profile,
        cpus,
        memory,
        disk,
        cdrom,
        floppy,
        depends_on,
        nested,
        gui,
        display,
        firmware,
        tpm,
        secure_boot,
        qemu_args,
        gpu: None,
        nics: empty(),
        extra_disks: empty(),
        shares: empty(),
        media: empty(),
    }
}

#[verifier::rlimit(60)]
pub fn extract_vm(b: &Node, arches: &Vec<String>, issues: &mut IssueList) -> (r: Option<Vm>)
    ensures
        r.deep_view() == vm_of(*b, arches.deep_view()),
        final(issues).deep_view() == old(issues).deep_view() + vm_issues(*b, arches.deep_view()),
{
    broadcast use {lemma_cat, lemma_cat_nothing};

    let name = match label_name(b, "vm", issues) {
        Some(name) => name,
        None => return None,
    };
    let (template, template_span) = match extract_vm_template(b, name.as_str(), arches, issues) {
        Some(x) => x,
        None => return None,
    };
    let mut vm = extract_vm_fields(b, name, template, template_span, issues);
    let mut gpu: Option<Gpu> = None;
    let mut nics: Vec<Nic> = empty();
    let mut extra_disks: Vec<DiskBlock> = empty();
    let mut shares: Vec<Share> = empty();
    let mut media: Vec<Media> = empty();
    let ghost before = issues.deep_view();
    let ghost all = b.blocks@;
    let mut i: usize = 0;
    assert(all.take(0) =~= Seq::empty());
    while i < b.blocks.len()
        invariant
            i <= all.len(),
            all == b.blocks@,
            gpu.deep_view() == last_of(all.take(i as int), Kind::Gpu, gpu_reader()),
            nics.deep_view() == gather(all.take(i as int), Kind::Nic, nic_reader()),
            extra_disks.deep_view() == gather(
                all.take(i as int),
                Kind::Disk,
                disk_block_reader(),
            ),
            shares.deep_view() == gather(all.take(i as int), Kind::Share, share_reader()),
            media.deep_view() == gather(all.take(i as int), Kind::Media, media_reader()),
            issues.deep_view() == before + gather_issues(all.take(i as int), vm_child_reader()),
        decreases all.len() - i,
    {
        broadcast use {lemma_cat, lemma_cat_nothing};

        let child = &b.blocks[i];
        proof {
            lemma_take(all, i as int);
        }
        match block_kind(child.kind.as_str()) {
            Kind::Nic => {
                let x = extract_nic(child, issues);
                push(&mut nics, x);
            },
            Kind::Gpu => {
                gpu = extract_gpu(child, issues);
            },
            Kind::Disk => {
                if let Some(x) = extract_disk_block(child, issues) {
                    push(&mut extra_disks, x);
                }
            },
            Kind::Share => {
                if let Some(x) = extract_share(child, issues) {
                    push(&mut shares, x);
                }
            },
            Kind::Media => {
                if let Some(x) = extract_media(child, issues) {
                    push(&mut media, x);
                }
            },
            _ => {},
        }
        i = i + 1;
    }
    assert(all.take(i as int) =~= all);
    vm.gpu = gpu;
    vm.nics = nics;
    vm.extra_disks = extra_disks;
    vm.shares = shares;
    vm.media = media;
    Some(vm)
}

// -- templates --------------------------------------------------------------------------------

/// The file that a `source` block names.
pub open spec fn artefact_of(b: Node) -> Option<ArtefactSourceView> {
    match (text_of(b, "path"@), text_of(b, "url"@), text_of(b, "sha256"@)) {
        (Some(path), None, _) => Some(ArtefactSourceView::Path { path, span: b.span }),
        (None, Some(url), Some(sha256)) => Some(
            ArtefactSourceView::Url { url, sha256, span: b.span },
        ),
        _ => None,
    }
}

/// What is wrong with the file that a `source` block names.
pub open spec fn artefact_issues(b: Node) -> Seq<IssueView> {
    match (text_of(b, "path"@), text_of(b, "url"@)) {
        (Some(_), None) => no_issues(),
        (None, Some(_)) => issue_if(
            text_of(b, "sha256"@) is None,
            b.span,
            "URL sources require `sha256 = ...`"@,
        ),
        (Some(_), Some(_)) => one_issue(
            b.span,
            "source has both `path` and `url` — pick one"@,
        ),
        (None, None) => one_issue(b.span, "source requires `path` or `url`"@),
    }
}

/// What a `source` block says a template is built from.
pub open spec fn source_of(b: Node, arches: Seq<Seq<char>>) -> Option<TemplateSourceView> {
    match label_of(b) {
        Some(kind) => if kind == "iso"@ {
            match artefact_of(b) {
                Some(a) => Some(TemplateSourceView::Iso(a)),
                None => None,
            }
        } else if kind == "qcow2"@ {
            match artefact_of(b) {
                Some(a) => Some(TemplateSourceView::Qcow2(a)),
                None => None,
            }
        } else if kind == "template"@ {
            match text_of(b, "from"@) {
                Some(s) => match template_ref_value(s, arches) {
                    Some(t) => if t is Store {
                        Some(TemplateSourceView::Template { from: t, span: b.span })
                    } else {
                        None
                    },
                    None => None,
                },
                None => None,
            }
        } else if kind == "scratch"@ {
            Some(TemplateSourceView::Scratch { span: b.span })
        } else {
            None
        },
        None => None,
    }
}

/// What is wrong with a layered build's source.
pub open spec fn layer_issues(b: Node, arches: Seq<Seq<char>>) -> Seq<IssueView> {
    text_issues(b, "from"@) + match text_at(b, "from"@) {
        Some((s, span)) => match template_ref_value(s, arches) {
            Some(t) => issue_if(
                !(t is Store),
                span,
                "layered builds take a local store reference `<arch>/<name>[@<version>]`"@,
            ),
            None => one_issue(span, template_ref_error(s)),
        },
        None => no_issues(),
    }
}

/// What is wrong with a source of this kind.
pub open spec fn source_kind_issues(
    b: Node,
    kind: Seq<char>,
    arches: Seq<Seq<char>>,
) -> Seq<IssueView> {
    if kind == "iso"@ || kind == "qcow2"@ {
        artefact_issues(b)
    } else if kind == "template"@ {
        layer_issues(b, arches)
    } else if kind == "scratch"@ {
        no_issues()
    } else {
        one_issue(
            b.span,
            "unknown source kind `"@ + kind + "` (expected iso, qcow2, template, scratch)"@,
        )
    }
}

/// What is wrong with a `source` block.
pub open spec fn source_issues(b: Node, arches: Seq<Seq<char>>) -> Seq<IssueView> {
    label_issues(b, "source"@) + match label_of(b) {
        Some(kind) => text_issues(b, "path"@) + text_issues(b, "url"@) + text_issues(b, "sha256"@)
            + source_kind_issues(b, kind, arches),
        None => no_issues(),
    }
}

fn extract_artefact(
    b: &Node,
    path: Option<String>,
    url: Option<String>,
    sha256: Option<String>,
    issues: &mut IssueList,
) -> (r: Option<ArtefactSource>)
    requires
        path.deep_view() == text_of(*b, "path"@),
        url.deep_view() == text_of(*b, "url"@),
        sha256.deep_view() == text_of(*b, "sha256"@),
    ensures
        r.deep_view() == artefact_of(*b),
        final(issues).deep_view() == old(issues).deep_view() + artefact_issues(*b),
{
    broadcast use lemma_cat_nothing;

    match (path, url) {
        (Some(path), None) => Some(ArtefactSource::Path { path, span: b.span }),
        (None, Some(url)) => match sha256 {
            Some(sha256) => Some(ArtefactSource::Url { url, sha256, span: b.span }),
            None => {
                note(issues, b.span, "URL sources require `sha256 = ...`".to_owned());
                None
            },
        },
        (Some(_), Some(_)) => {
            note(issues, b.span, "source has both `path` and `url` — pick one".to_owned());
            None
        },
        (None, None) => {
            note(issues, b.span, "source requires `path` or `url`".to_owned());
            None
        },
    }
}

fn extract_layer(b: &Node, arches: &Vec<String>, issues: &mut IssueList) -> (r: Option<
    TemplateRef,
>)
    ensures
        r.deep_view() == (match text_of(*b, "from"@) {
            Some(s) => match template_ref_value(s, arches.deep_view()) {
                Some(t) => if t is Store {
                    Some(t)
                } else {
                    None
                },
                None => None,
            },
            None => None,
        }),
        final(issues).deep_view() == old(issues).deep_view() + layer_issues(
            *b,
            arches.deep_view(),
        ),
{
    broadcast use {lemma_cat, lemma_cat_nothing};

    match get_str(b, "from", issues) {
        Some((s, span)) => match parse_template_ref(s.as_str(), arches) {
            Ok(t) => {
                let stored = match &t {
                    TemplateRef::Store { .. } => true,
                    _ => false,
                };
                if stored {
                    Some(t)
                } else {
                    note(
                        issues,
                        span,
                        "layered builds take a local store reference `<arch>/<name>[@<version>]`".to_owned(),
                    );
                    None
                }
            },
            Err(e) => {
                note(issues, span, e);
                None
            },
        },
        None => None,
    }
}

pub fn extract_source(b: &Node, arches: &Vec<String>, issues: &mut IssueList) -> (r: Option<
    TemplateSource,
>)
    ensures
        r.deep_view() == source_of(*b, arches.deep_view()),
        final(issues).deep_view() == old(issues).deep_view() + source_issues(
            *b,
            arches.deep_view(),
        ),
{
    broadcast use {lemma_cat, lemma_cat_nothing};

    let kind = match label_name(b, "source", issues) {
        Some(k) => k,
        None => return None,
    };
    let path = get_text(b, "path", issues);
    let url = get_text(b, "url", issues);
    let sha256 = get_text(b, "sha256", issues);
    let k = kind.as_str();
    if str_eq(k, "iso") {
        match extract_artefact(b, path, url, sha256, issues) {
            Some(a) => Some(TemplateSource::Iso(a)),
            None => None,
        }
    } else if str_eq(k, "qcow2") {
        match extract_artefact(b, path, url, sha256, issues) {
            Some(a) => Some(TemplateSource::Qcow2(a)),
            None => None,
        }
    } else if str_eq(k, "template") {
        match extract_layer(b, arches, issues) {
            Some(from) => Some(TemplateSource::Template { from, span: b.span }),
            None => None,
        }
    } else if str_eq(k, "scratch") {
        Some(TemplateSource::Scratch { span: b.span })
    } else {
        note(
            issues,
            b.span,
            cat3("unknown source kind `", k, "` (expected iso, qcow2, template, scratch)"),
        );
        None
    }
}

pub open spec fn provision_reader() -> spec_fn(Node) -> Option<ProvisionView> {
    |b: Node| provision_of(b)
}

pub open spec fn source_reader(arches: Seq<Seq<char>>) -> spec_fn(Node) -> Option<
    TemplateSourceView,
> {
    |b: Node| source_of(b, arches)
}

pub open spec fn template_child_reader(arches: Seq<Seq<char>>) -> spec_fn(Node) -> Seq<
    IssueView,
> {
    |b: Node| template_child_issues(b, arches)
}

/// What is wrong with a child of a `template` block.
pub open spec fn template_child_issues(b: Node, arches: Seq<Seq<char>>) -> Seq<IssueView> {
    match kind_of(b.kind@) {
        Kind::Source => source_issues(b, arches),
        Kind::Media => media_issues(b),
        Kind::Provision => provision_issues(b),
        Kind::Nic => nic_issues(b),
        Kind::Disk => disk_block_issues(b),
        _ => no_issues(),
    }
}

/// A template's processor count.
pub open spec fn template_cpus_of(b: Node) -> Option<u32> {
    match number_at(b, "cpus"@) {
        Some((n, _)) => if 0 <= n <= 0xFFFF_FFFF {
            Some(n as u32)
        } else {
            None
        },
        None => None,
    }
}

/// What a template is built from, by the last `source` of its blocks.
pub open spec fn template_source_of(b: Node, arches: Seq<Seq<char>>) -> Option<
    TemplateSourceView,
> {
    last_of(b.blocks@, Kind::Source, source_reader(arches))
}

/// A template's name, architecture and version, if they are sound.
pub open spec fn template_head_of(b: Node, arches: Seq<Seq<char>>) -> Option<
    (Seq<char>, Seq<char>, Seq<char>),
> {
    match (label_of(b), text_of(b, "arch"@), text_of(b, "version"@)) {
        (Some(name), Some(arch), Some(version)) => if arches.contains(arch) {
            Some((name, arch, version))
        } else {
            None
        },
        _ => None,
    }
}

/// The template that a `template` block defines.
pub open spec fn template_of(b: Node, arches: Seq<Seq<char>>) -> Option<TemplateDefView> {
    match (template_head_of(b, arches), template_source_of(b, arches)) {
        (Some((name, arch, version)), Some(source)) => Some(
            TemplateDefView {
                name,
                span: b.span,
                arch,
                version,
                registry: text_of(b, "registry"@),
                profile: text_of(b, "profile"@),
                cpus: template_cpus_of(b),
                memory: parsed_of(SizeText, b, "memory"@),
                disk: parsed_of(SizeText, b, "disk"@),
                display: text_of(b, "display"@),
                firmware: choice_of::<Firmware>(b, "firmware"@),
                tpm: flag_of(b, "tpm"@),
                secure_boot: flag_of(b, "secure_boot"@),
                nested: flag_or(b, "nested"@, false),
                gui: flag_or(b, "gui"@, false),
                qemu_args: texts_of(b, "qemu_args"@),
                first_boot: text_of(b, "first_boot"@),
                source,
                media: gather(b.blocks@, Kind::Media, media_reader()),
                provisions: gather(b.blocks@, Kind::Provision, provision_reader()),
                nics: gather(b.blocks@, Kind::Nic, nic_reader()),
                extra_disks: gather(b.blocks@, Kind::Disk, disk_block_reader()),
            },
        ),
        _ => None,
    }
}

/// What is said of an unknown architecture.
pub open spec fn arch_error(arch: Seq<char>, arches: Seq<Seq<char>>) -> Seq<char> {
    "unknown arch `"@ + arch + "` (known: "@ + join(arches, ", "@) + ")"@
}

/// What is wrong with a template's architecture and version.
pub open spec fn template_head_issues(
    b: Node,
    name: Seq<char>,
    arches: Seq<Seq<char>>,
) -> Seq<IssueView> {
    text_issues(b, "arch"@) + match text_at(b, "arch"@) {
        Some((arch, span)) => if !arches.contains(arch) {
            one_issue(span, arch_error(arch, arches))
        } else {
            text_issues(b, "version"@) + issue_if(
                text_of(b, "version"@) is None,
                b.span,
                "template \""@ + name + "\" is missing required `version`"@,
            )
        },
        None => one_issue(b.span, "template \""@ + name + "\" is missing required `arch`"@),
    }
}

/// What is wrong with the other fields of a `template` block.
pub open spec fn template_field_issues(b: Node) -> Seq<IssueView> {
    text_issues(b, "registry"@) + text_issues(b, "profile"@) + number_issues(b, "cpus"@)
        + parsed_issues(SizeText, b, "memory"@) + parsed_issues(SizeText, b, "disk"@) + text_issues(
        b,
        "display"@,
    ) + choice_issues::<Firmware>(b, "firmware"@) + flag_issues(b, "tpm"@) + flag_issues(
        b,
        "secure_boot"@,
    ) + flag_issues(b, "nested"@) + flag_issues(b, "gui"@) + texts_issues(b, "qemu_args"@)
        + text_issues(b, "first_boot"@)
}

/// What is wrong with a `template` block.
pub open spec fn template_issues(b: Node, arches: Seq<Seq<char>>) -> Seq<IssueView> {
    label_issues(b, "template"@) + match label_of(b) {
        Some(name) => template_head_issues(b, name, arches) + match template_head_of(b, arches) {
            Some(_) => gather_issues(b.blocks@, template_child_reader(arches)) + match template_source_of(
                b,
                arches,
            ) {
                Some(_) => template_field_issues(b),
                None => one_issue(
                    b.span,
                    "template \""@ + name + "\" is missing a `source` block"@,
                ),
            },
            None => no_issues(),
        },
        None => no_issues(),
    }
}

fn extract_template_head(
    b: &Node,
    name: &str,
    arches: &Vec<String>,
    issues: &mut IssueList,
) -> (r: Option<(String, String)>)
    requires
        label_of(*b) == Some(name@),
    ensures
        r is Some <==> template_head_of(*b, arches.deep_view()) is Some,
        r matches Some(v) ==> template_head_of(*b, arches.deep_view()) == Some(
            (name@, v.0@, v.1@),
        ),
        final(issues).deep_view() == old(issues).deep_view() + template_head_issues(
            *b,
            name@,
            arches.deep_view(),
        ),
{
    broadcast use {lemma_cat, lemma_cat_nothing};

    match get_str(b, "arch", issues) {
        Some((arch, span)) => {
            if !any_string(arches, arch.as_str()) {
                let known = join_strings(arches, ", ");
                note(
                    issues,
                    span,
                    cat5("unknown arch `", arch.as_str(), "` (known: ", known.as_str(), ")"),
                );
                return None;
            }
            match get_text(b, "version", issues) {
                Some(version) => Some((arch, version)),
                None => {
                    note(
                        issues,
                        b.span,
                        cat3("template \"", name, "\" is missing required `version`"),
                    );
                    None
                },
            }
        },
        None => {
            note(issues, b.span, cat3("template \"", name, "\" is missing required `arch`"));
            None
        },
    }
}

/// The child blocks of a template.
struct TemplateParts {
    source: Option<TemplateSource>,
    media: Vec<Media>,
    provisions: Vec<Provision>,
    nics: Vec<Nic>,
    extra_disks: Vec<DiskBlock>,
}

#[verifier::rlimit(60)]
fn extract_template_parts(b: &Node, arches: &Vec<String>, issues: &mut IssueList) -> (r:
    TemplateParts)
    ensures
        r.source.deep_view() == template_source_of(*b, arches.deep_view()),
        r.media.deep_view() == gather(b.blocks@, Kind::Media, media_reader()),
        r.provisions.deep_view() == gather(b.blocks@, Kind::Provision, provision_reader()),
        r.nics.deep_view() == gather(b.blocks@, Kind::Nic, nic_reader()),
        r.extra_disks.deep_view() == gather(b.blocks@, Kind::Disk, disk_block_reader()),
        final(issues).deep_view() == old(issues).deep_view() + gather_issues(
            b.blocks@,
            template_child_reader(arches.deep_view()),
        ),
{
    broadcast use {lemma_cat, lemma_cat_nothing};

    let mut source: Option<TemplateSource> = None;
    let mut media: Vec<Media> = empty();
    let mut provisions: Vec<Provision> = empty();
    let mut nics: Vec<Nic> = empty();
    let mut extra_disks: Vec<DiskBlock> = empty();
    let ghost before = issues.deep_view();
    let ghost all = b.blocks@;
    let mut i: usize = 0;
    assert(all.take(0) =~= Seq::empty());
    while i < b.blocks.len()
        invariant
            i <= all.len(),
            all == b.blocks@,
            source.deep_view() == last_of(
                all.take(i as int),
                Kind::Source,
                source_reader(arches.deep_view()),
            ),
            media.deep_view() == gather(all.take(i as int), Kind::Media, media_reader()),
            provisions.deep_view() == gather(
                all.take(i as int),
                Kind::Provision,
                provision_reader(),
            ),
            nics.deep_view() == gather(all.take(i as int), Kind::Nic, nic_reader()),
            extra_disks.deep_view() == gather(
                all.take(i as int),
                Kind::Disk,
                disk_block_reader(),
            ),
            issues.deep_view() == before + gather_issues(
                all.take(i as int),
                template_child_reader(arches.deep_view()),
            ),
        decreases all.len() - i,
    {
        broadcast use {lemma_cat, lemma_cat_nothing};

        let child = &b.blocks[i];
        proof {
            lemma_take(all, i as int);
        }
        match block_kind(child.kind.as_str()) {
            Kind::Source => {
                source = extract_source(child, arches, issues);
            },
            Kind::Media => {
                if let Some(x) = extract_media(child, issues) {
                    push(&mut media, x);
                }
            },
            Kind::Provision => {
                if let Some(x) = extract_provision(child, issues) {
                    push(&mut provisions, x);
                }
            },
            Kind::Nic => {
                let x = extract_nic(child, issues);
                push(&mut nics, x);
            },
            Kind::Disk => {
                if let Some(x) = extract_disk_block(child, issues) {
                    push(&mut extra_disks, x);
                }
            },
            _ => {},
        }
        i = i + 1;
    }
    assert(all.take(i as int) =~= all);
    TemplateParts { source, media, provisions, nics, extra_disks }
}

fn get_template_cpus(b: &Node, issues: &mut IssueList) -> (r: Option<u32>)
    ensures
        r == template_cpus_of(*b),
        final(issues).deep_view() == old(issues).deep_view() + number_issues(*b, "cpus"@),
{
    match get_int(b, "cpus", issues) {
        Some((n, _)) => if 0 <= n && n <= 0xFFFF_FFFF {
            Some(n as u32)
        } else {
            None
        },
        None => None,
    }
}

#[verifier::rlimit(60)]
pub fn extract_template(b: &Node, arches: &Vec<String>, issues: &mut IssueList) -> (r: Option<
    TemplateDef,
>)
    ensures
        r.deep_view() == template_of(*b, arches.deep_view()),
        final(issues).deep_view() == old(issues).deep_view() + template_issues(
            *b,
            arches.deep_view(),
        ),
{
    broadcast use {lemma_cat, lemma_cat_nothing};

    let name = match label_name(b, "template", issues) {
        Some(name) => name,
        None => return None,
    };
    let (arch, version) = match extract_template_head(b, name.as_str(), arches, issues) {
        Some(x) => x,
        None => return None,
    };
    let parts = extract_template_parts(b, arches, issues);
    let source = match parts.source {
        Some(s) => s,
        None => {
            note(
                issues,
                b.span,
                cat3("template \"", name.as_str(), "\" is missing a `source` block"),
            );
            return None;
        },
    };
    let registry = get_text(b, "registry", issues);
    let profile = get_text(b, "profile", issues);
    let cpus: Option<u32> = get_template_cpus(b, issues);
    let memory = get_parsed(SizeText, b, "memory", issues);
    let disk = get_parsed(SizeText, b, "disk", issues);
    let display = get_text(b, "display", issues);
    let firmware = get_enum::<Firmware>(b, "firmware", issues);
    let tpm = get_bool(b, "tpm", issues);
    let secure_boot = get_bool(b, "secure_boot", issues);
    let nested = get_flag(b, "nested", false, issues);
    let gui = get_flag(b, "gui", false, issues);
    let qemu_args = get_str_list(b, "qemu_args", issues);
    let first_boot = get_text(b, "first_boot", issues);
    Some(
        TemplateDef {
            name,
            span: b.span,
            arch,
            version,
            registry,
            profile,
            cpus,
            memory,
            disk,
            display,
            firmware,
            tpm,
            secure_boot,
            nested,
            gui,
            qemu_args,
            first_boot,
            source,
            media: parts.media,
            provisions: parts.provisions,
            nics: parts.nics,
            extra_disks: parts.extra_disks,
        },
    )
}

// -- labs and files -----------------------------------------------------------------------------

pub open spec fn segment_reader() -> spec_fn(Node) -> Option<SegmentView> {
    |b: Node| segment_of(b)
}

pub open spec fn vm_reader(arches: Seq<Seq<char>>) -> spec_fn(Node) -> Option<VmView> {
    |b: Node| vm_of(b, arches)
}

pub open spec fn handler_reader() -> spec_fn(Node) -> Option<HandlerView> {
    |b: Node| handler_of(b)
}

pub open spec fn lab_child_reader(arches: Seq<Seq<char>>) -> spec_fn(Node) -> Seq<IssueView> {
    |b: Node| lab_child_issues(b, arches)
}

/// What is wrong with a child of a `lab` block.
pub open spec fn lab_child_issues(b: Node, arches: Seq<Seq<char>>) -> Seq<IssueView> {
    match kind_of(b.kind@) {
        Kind::Segment => segment_issues(b),
        Kind::Vm => vm_issues(b, arches),
        Kind::Provision => provision_issues(b),
        Kind::On => handler_issues(b),
        Kind::Record => record_issues(b),
        Kind::Sinkhole => sinkhole_issues(b),
        _ => no_issues(),
    }
}

/// The lab that a `lab` block declares.
pub open spec fn lab_of(b: Node, arches: Seq<Seq<char>>) -> Option<LabView> {
    match label_of(b) {
        Some(name) => Some(
            LabView {
                name,
                span: b.span,
                gui: flag_of(b, "gui"@),
                segments: gather(b.blocks@, Kind::Segment, segment_reader()),
                vms: gather(b.blocks@, Kind::Vm, vm_reader(arches)),
                provisions: gather(b.blocks@, Kind::Provision, provision_reader()),
                handlers: gather(b.blocks@, Kind::On, handler_reader()),
                records: gather(b.blocks@, Kind::Record, record_reader()),
                sinkholes: gather(b.blocks@, Kind::Sinkhole, sinkhole_reader()),
            },
        ),
        None => None,
    }
}

/// What is wrong with a `lab` block.
pub open spec fn lab_issues(b: Node, arches: Seq<Seq<char>>) -> Seq<IssueView> {
    label_issues(b, "lab"@) + match label_of(b) {
        Some(_) => flag_issues(b, "gui"@) + gather_issues(b.blocks@, lab_child_reader(arches)),
        None => no_issues(),
    }
}

#[verifier::rlimit(60)]
pub fn extract_lab(b: &Node, arches: &Vec<String>, issues: &mut IssueList) -> (r: Option<Lab>)
    ensures
        r.deep_view() == lab_of(*b, arches.deep_view()),
        final(issues).deep_view() == old(issues).deep_view() + lab_issues(*b, arches.deep_view()),
{
    broadcast use {lemma_cat, lemma_cat_nothing};

    let name = match label_name(b, "lab", issues) {
        Some(name) => name,
        None => return None,
    };
    let gui = get_bool(b, "gui", issues);
    let mut segments: Vec<Segment> = empty();
    let mut vms: Vec<Vm> = empty();
    let mut provisions: Vec<Provision> = empty();
    let mut handlers: Vec<Handler> = empty();
    let mut records: Vec<DnsRecord> = empty();
    let mut sinkholes: Vec<SinkholeRule> = empty();
    let ghost before = issues.deep_view();
    let ghost all = b.blocks@;
    let mut i: usize = 0;
    assert(all.take(0) =~= Seq::empty());
    while i < b.blocks.len()
        invariant
            i <= all.len(),
            all == b.blocks@,
            segments.deep_view() == gather(all.take(i as int), Kind::Segment, segment_reader()),
            vms.deep_view() == gather(
                all.take(i as int),
                Kind::Vm,
                vm_reader(arches.deep_view()),
            ),
            provisions.deep_view() == gather(
                all.take(i as int),
                Kind::Provision,
                provision_reader(),
            ),
            handlers.deep_view() == gather(all.take(i as int), Kind::On, handler_reader()),
            records.deep_view() == gather(all.take(i as int), Kind::Record, record_reader()),
            sinkholes.deep_view() == gather(all.take(i as int), Kind::Sinkhole, sinkhole_reader()),
            issues.deep_view() == before + gather_issues(
                all.take(i as int),
                lab_child_reader(arches.deep_view()),
            ),
        decreases all.len() - i,
    {
        broadcast use {lemma_cat, lemma_cat_nothing};

        let child = &b.blocks[i];
        proof {
            lemma_take(all, i as int);
        }
        match block_kind(child.kind.as_str()) {
            Kind::Segment => {
                if let Some(x) = extract_segment(child, issues) {
                    push(&mut segments, x);
                }
            },
            Kind::Vm => {
                if let Some(x) = extract_vm(child, arches, issues) {
                    push(&mut vms, x);
                }
            },
            Kind::Provision => {
                if let Some(x) = extract_provision(child, issues) {
                    push(&mut provisions, x);
                }
            },
            Kind::On => {
                if let Some(x) = extract_handler(child, issues) {
                    push(&mut handlers, x);
                }
            },
            Kind::Record => {
                if let Some(x) = extract_record(child, issues) {
                    push(&mut records, x);
                }
            },
            Kind::Sinkhole => {
                if let Some(x) = extract_sinkhole(child, issues) {
                    push(&mut sinkholes, x);
                }
            },
            _ => {},
        }
        i = i + 1;
    }
    assert(all.take(i as int) =~= all);
    Some(
        Lab {
            name,
            span: b.span,
            gui,
            segments,
            vms,
            provisions,
            handlers,
            records,
            sinkholes,
        },
    )
}

pub open spec fn lab_reader(arches: Seq<Seq<char>>) -> spec_fn(Node) -> Option<LabView> {
    |b: Node| lab_of(b, arches)
}

pub open spec fn template_reader(arches: Seq<Seq<char>>) -> spec_fn(Node) -> Option<
    TemplateDefView,
> {
    |b: Node| template_of(b, arches)
}

pub open spec fn file_block_reader(arches: Seq<Seq<char>>) -> spec_fn(Node) -> Seq<IssueView> {
    |b: Node| file_block_issues(b, arches)
}

/// What is wrong with a block of a lab file.
pub open spec fn file_block_issues(b: Node, arches: Seq<Seq<char>>) -> Seq<IssueView> {
    match kind_of(b.kind@) {
        Kind::Lab => lab_issues(b, arches),
        Kind::Template => template_issues(b, arches),
        _ => no_issues(),
    }
}

/// The labs of a file.
pub open spec fn labs_of(blocks: Seq<Node>, arches: Seq<Seq<char>>) -> Seq<LabView> {
    gather(blocks, Kind::Lab, lab_reader(arches))
}

/// The lab file: it defines exactly one lab.
pub open spec fn lab_file_of(blocks: Seq<Node>, root: Seq<char>, arches: Seq<Seq<char>>) -> Option<
    LabFileView,
> {
    let labs = labs_of(blocks, arches);
    if labs.len() == 1 {
        Some(
            LabFileView {
                root,
                lab: labs[0],
                templates: gather(blocks, Kind::Template, template_reader(arches)),
            },
        )
    } else {
        None
    }
}

/// What is wrong with a lab file.
pub open spec fn lab_file_issues(blocks: Seq<Node>, arches: Seq<Seq<char>>) -> Seq<IssueView> {
    let labs = labs_of(blocks, arches);
    gather_issues(blocks, file_block_reader(arches)) + (if labs.len() == 0 {
        seq![issue_anywhere("no `lab` block found in vmlab.wcl"@)]
    } else if labs.len() == 1 {
        no_issues()
    } else {
        one_issue(
            labs[1].span,
            "multiple `lab` blocks in one file — a lab file defines exactly one lab"@,
        )
    })
}

pub fn extract_lab_file(
    blocks: &Vec<Node>,
    root: &str,
    arches: &Vec<String>,
    issues: &mut IssueList,
) -> (r: Option<LabFile>)
    ensures
        r.deep_view() == lab_file_of(blocks@, root@, arches.deep_view()),
        final(issues).deep_view() == old(issues).deep_view() + lab_file_issues(
            blocks@,
            arches.deep_view(),
        ),
{
    broadcast use {lemma_cat, lemma_cat_nothing};

    let mut labs: Vec<Lab> = empty();
    let mut templates: Vec<TemplateDef> = empty();
    let ghost before = issues.deep_view();
    let ghost all = blocks@;
    let mut i: usize = 0;
    assert(all.take(0) =~= Seq::empty());
    while i < blocks.len()
        invariant
            i <= all.len(),
            all == blocks@,
            labs.deep_view() == labs_of(all.take(i as int), arches.deep_view()),
            templates.deep_view() == gather(
                all.take(i as int),
                Kind::Template,
                template_reader(arches.deep_view()),
            ),
            issues.deep_view() == before + gather_issues(
                all.take(i as int),
                file_block_reader(arches.deep_view()),
            ),
        decreases all.len() - i,
    {
        broadcast use {lemma_cat, lemma_cat_nothing};

        let block = &blocks[i];
        proof {
            lemma_take(all, i as int);
        }
        match block_kind(block.kind.as_str()) {
            Kind::Lab => {
                if let Some(x) = extract_lab(block, arches, issues) {
                    push(&mut labs, x);
                }
            },
            Kind::Template => {
                if let Some(x) = extract_template(block, arches, issues) {
                    push(&mut templates, x);
                }
            },
            _ => {},
        }
        i = i + 1;
    }
    assert(all.take(i as int) =~= all);
    assert(labs.deep_view().len() == labs@.len());
    if labs.len() == 0 {
        note_anywhere(issues, "no `lab` block found in vmlab.wcl".to_owned());
        None
    } else if labs.len() == 1 {
        let ghost one = labs.deep_view()[0];
        let lab = labs.swap_remove(0);
        assert(lab.deep_view() == one);
        Some(LabFile { root: root.to_owned(), lab, templates })
    } else {
        assert(labs.deep_view()[1].span == labs@[1].span);
        note(
            issues,
            labs[1].span,
            "multiple `lab` blocks in one file — a lab file defines exactly one lab".to_owned(),
        );
        None
    }
}

pub open spec fn template_file_block_reader(arches: Seq<Seq<char>>) -> spec_fn(Node) -> Seq<
    IssueView,
> {
    |b: Node| if kind_of(b.kind@) == Kind::Template {
        template_issues(b, arches)
    } else {
        no_issues()
    }
}

/// Extract only template definitions (for dedicated template files).
pub fn extract_template_file(
    blocks: &Vec<Node>,
    root: &str,
    arches: &Vec<String>,
    issues: &mut IssueList,
) -> (r: TemplateFile)
    ensures
        r.deep_view() == (TemplateFileView {
            root: root@,
            templates: gather(blocks@, Kind::Template, template_reader(arches.deep_view())),
        }),
        final(issues).deep_view() == old(issues).deep_view() + gather_issues(
            blocks@,
            template_file_block_reader(arches.deep_view()),
        ),
{
    broadcast use {lemma_cat, lemma_cat_nothing};

    let mut templates: Vec<TemplateDef> = empty();
    let ghost before = issues.deep_view();
    let ghost all = blocks@;
    let mut i: usize = 0;
    assert(all.take(0) =~= Seq::empty());
    while i < blocks.len()
        invariant
            i <= all.len(),
            all == blocks@,
            templates.deep_view() == gather(
                all.take(i as int),
                Kind::Template,
                template_reader(arches.deep_view()),
            ),
            issues.deep_view() == before + gather_issues(
                all.take(i as int),
                template_file_block_reader(arches.deep_view()),
            ),
        decreases all.len() - i,
    {
        broadcast use {lemma_cat, lemma_cat_nothing};

        let block = &blocks[i];
        proof {
            lemma_take(all, i as int);
        }
        if block_kind(block.kind.as_str()) == Kind::Template {
            if let Some(x) = extract_template(block, arches, issues) {
                push(&mut templates, x);
            }
        }
        i = i + 1;
    }
    assert(all.take(i as int) =~= all);
    TemplateFile { root: root.to_owned(), templates }
}

// -- laws -------------------------------------------------------------------------------------------

/// Whether a share name is one that the server takes: lower-case letters and
/// digits in runs with single underscores between them.
pub open spec fn is_share_name(s: Seq<char>) -> bool {
    &&& forall|i: int|
        0 <= i < s.len() ==> (is_alnum(#[trigger] s[i]) && lower_char(s[i]) == s[i]) || s[i] == '_'
    &&& s.len() > 0 ==> s[0] != '_' && s.last() != '_'
    &&& forall|i: int| 0 < i < s.len() && #[trigger] s[i] == '_' ==> s[i - 1] != '_'
}

proof fn lemma_runs(s: Seq<char>)
    ensures
        forall|i: int|
            0 <= i < runs_joined(s).len() ==> (is_alnum(#[trigger] runs_joined(s)[i])
                && lower_char(runs_joined(s)[i]) == runs_joined(s)[i]) || runs_joined(s)[i] == '_',
        runs_joined(s).len() > 0 ==> runs_joined(s)[0] != '_',
        forall|i: int|
            0 < i < runs_joined(s).len() && #[trigger] runs_joined(s)[i] == '_' ==> runs_joined(
                s,
            )[i - 1] != '_',
    decreases s.len(),
{
    if s.len() > 0 {
        lemma_runs(s.drop_last());
        let c = s.last();
        assert('A' <= c <= 'Z' ==> 'a' <= lower_char(c) <= 'z');
    }
}

/// A derived share name holds only lower-case letters and digits in runs with
/// single underscores between them.
pub proof fn derived_names_are_sound(guest: Seq<char>)
    ensures
        is_share_name(share_name(guest)),
{
    lemma_runs(guest);
}

proof fn lemma_runs_fixed(s: Seq<char>, n: int)
    requires
        is_share_name(s),
        0 <= n <= s.len(),
    ensures
        runs_joined(s.take(n)) == s.take(n),
    decreases n,
{
    if n > 0 {
        let t = s.take(n);
        assert(t.drop_last() =~= s.take(n - 1));
        lemma_runs_fixed(s, n - 1);
        assert(t =~= s.take(n - 1).push(s[n - 1]));
        if s[n - 1] == '_' {
            assert(n - 1 > 0);
            assert(s.take(n - 1).last() == s[n - 2]);
        }
    } else {
        assert(s.take(0) =~= Seq::<char>::empty());
    }
}

/// Deriving a share name from a share name gives it back.
pub proof fn derived_names_are_fixed(guest: Seq<char>)
    ensures
        share_name(share_name(guest)) == share_name(guest),
{
    derived_names_are_sound(guest);
    let s = share_name(guest);
    lemma_runs_fixed(s, s.len() as int);
    assert(s.take(s.len() as int) =~= s);
}

/// A file without problems has exactly one lab, and the extraction gives it.
pub proof fn clean_file_has_a_lab(blocks: Seq<Node>, root: Seq<char>, arches: Seq<Seq<char>>)
    requires
        lab_file_issues(blocks, arches) == no_issues(),
    ensures
        lab_file_of(blocks, root, arches) is Some,
{
    let labs = labs_of(blocks, arches);
    let front = gather_issues(blocks, file_block_reader(arches));
    assert(lab_file_issues(blocks, arches).len() >= front.len() + if labs.len() == 1 {
        0int
    } else {
        1int
    });
}

proof fn lemma_runs_end(s: Seq<char>)
    ensures
        runs_joined(s).len() > 0 ==> share_name(s).len() > 0 && share_name(s).last() != '_',
        runs_joined(s).len() == 0 || runs_joined(s).last() != '_' ==> share_name(s) == runs_joined(
            s,
        ),
        runs_joined(s).len() > 0 && runs_joined(s).last() == '_' ==> runs_joined(s) == share_name(
            s,
        ).push('_'),
    decreases s.len(),
{
    if s.len() > 0 {
        lemma_runs_end(s.drop_last());
    }
    let j = runs_joined(s);
    if j.len() > 0 && j.last() == '_' {
        assert(j =~= j.drop_last().push('_'));
    }
}

proof fn lemma_runs_behind(a: Seq<char>, b: Seq<char>)
    requires
        b.len() > 0 ==> is_alnum(b[0]),
        runs_joined(a).len() > 0 ==> runs_joined(a).last() == '_',
    ensures
        runs_joined(a + b) == runs_joined(a) + runs_joined(b),
    decreases b.len(),
{
    if b.len() == 0 {
        assert(a + b =~= a);
        assert(runs_joined(a) + runs_joined(b) =~= runs_joined(a));
    } else {
        let front = b.drop_last();
        assert((a + b).drop_last() =~= a + front);
        lemma_runs_behind(a, front);
        if front.len() > 0 {
            lemma_runs_start(front);
        }
        let x = runs_joined(a);
        let y = runs_joined(front);
        let c = lower_char(b.last());
        assert(x + y.push(c) =~= (x + y).push(c));
        assert(x + y.push('_') =~= (x + y).push('_'));
    }
}

proof fn lemma_runs_start(b: Seq<char>)
    requires
        b.len() > 0,
        is_alnum(b[0]),
    ensures
        runs_joined(b).len() > 0,
    decreases b.len(),
{
    if b.len() > 1 {
        lemma_runs_start(b.drop_last());
    }
}

/// A derived share name is the words of the guest path in lower case, with one
/// underscore between two of them, whatever and however much stands there.
pub proof fn share_name_is_the_words(a: Seq<char>, c: char, b: Seq<char>)
    requires
        !is_alnum(c),
    ensures
        share_name(Seq::<char>::empty()).len() == 0,
        share_name(a.push(c)) == share_name(a),
        b.len() > 0 && is_alnum(b[0]) && share_name(a).len() > 0 ==> share_name(a.push(c) + b)
            == share_name(a) + seq!['_'] + share_name(b),
        b.len() > 0 && is_alnum(b[0]) && share_name(a).len() == 0 ==> share_name(a.push(c) + b)
            == share_name(b),
        (forall|i: int| 0 <= i < b.len() ==> is_alnum(#[trigger] b[i])) ==> share_name(b)
            == b.map_values(|x: char| lower_char(x)),
{
    let s = a.push(c);
    assert(s.drop_last() =~= a);
    lemma_runs_end(a);
    lemma_runs_end(s);
    lemma_runs_end(b);
    if runs_joined(a).len() > 0 && runs_joined(a).last() != '_' {
        assert(runs_joined(a).push('_').drop_last() =~= runs_joined(a));
    }
    if b.len() > 0 && is_alnum(b[0]) {
        lemma_runs_behind(s, b);
        lemma_runs_start(b);
        lemma_runs_end(s + b);
        let (x, y) = (runs_joined(s), runs_joined(b));
        assert((x + y).last() == y.last());
        assert((x + y).drop_last() =~= x + y.drop_last());
        if x.len() > 0 {
            assert(x =~= share_name(a) + seq!['_']);
        } else {
            assert(x + share_name(b) =~= share_name(b));
        }
    }
    if forall|i: int| 0 <= i < b.len() ==> is_alnum(#[trigger] b[i]) {
        lemma_word_kept(b);
    }
}

proof fn lemma_word_kept(b: Seq<char>)
    requires
        forall|i: int| 0 <= i < b.len() ==> is_alnum(#[trigger] b[i]),
    ensures
        runs_joined(b) == b.map_values(|x: char| lower_char(x)),
        share_name(b) == runs_joined(b),
    decreases b.len(),
{
    let f = |x: char| lower_char(x);
    if b.len() > 0 {
        let front = b.drop_last();
        assert forall|i: int| 0 <= i < front.len() implies is_alnum(#[trigger] front[i]) by {
            assert(front[i] == b[i]);
        }
        lemma_word_kept(front);
        assert(is_alnum(b[b.len() - 1]));
        assert(front.map_values(f).push(lower_char(b.last())) =~= b.map_values(f));
    } else {
        assert(b.map_values(f) =~= Seq::<char>::empty());
    }
}

} // verus!
