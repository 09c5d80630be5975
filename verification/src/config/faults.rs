//! When the blocks of a file are found wrong: exactly when what they say is not of
//! the right kind.

use vstd::prelude::*;

use crate::config::document::{
    choice_issues, find_field, flag_issues, item_issues, label_issues, label_of, number_at,
    number_issues, parsed_issues, text_at, text_issues, text_of, texts_issues, Choice, CidrText,
    Datum, HostPortText, IpText, MacText, Node, RedirectProto, SizeText, SubnetText,
};
use crate::config::extract::{
    disk_block_issues, file_block_reader, forward_issues, gather_issues, gpu_issues, guest_port_of,
    handler_issues, kind_of, lab_child_reader, lab_file_issues, lab_file_of, lab_issues,
    media_issues, nic_issues, port_issues, provision_issues, record_issues, segment_child_issues,
    segment_child_reader, segment_issues, share_issues, sinkhole_issues, source_issues,
    template_child_reader, template_issues, vm_child_reader, vm_issues, Kind,
};
use crate::config::model::{
    host_port_value, mac_value, size_value, template_ref_value, Firmware, GpuMode, L4Proto,
    MediaKind, Proto, SinkholeMode,
};
use crate::config::reading::{given, labelled, lemma_kinds, silent, writes_number, writes_text};
use crate::net::cidr::{ip_value, net_value};
use crate::text::{find_char, port_value};

verus! {

// -- what a field may hold --------------------------------------------------------------

/// A field is a text, if it is there and holds anything.
pub open spec fn textual(b: Node, name: Seq<char>) -> bool {
    forall|i: int| #[trigger]
        given(b, name, i) ==> (b.fields@[i].value matches Ok(item) && (item.value is Absent
            || item.value is Text || item.value is Word))
}

/// A field is a flag, if it is there and holds anything.
pub open spec fn flagged(b: Node, name: Seq<char>) -> bool {
    forall|i: int| #[trigger]
        given(b, name, i) ==> (b.fields@[i].value matches Ok(item) && (item.value is Absent
            || item.value is Bool))
}

/// A field is a list of texts, if it is there and holds anything.
pub open spec fn listed(b: Node, name: Seq<char>) -> bool {
    forall|i: int| #[trigger]
        given(b, name, i) ==> (b.fields@[i].value matches Ok(item) && (item.value is Absent || (
        item.value matches Datum::List(items) && forall|k: int|
            0 <= k < items@.len() ==> (#[trigger] items@[k]).value is Text || items@[k].value is Word)))
}

/// A field is a number between `least` and `most`, if it is there and holds
/// anything.
pub open spec fn numbered(b: Node, name: Seq<char>, least: int, most: int) -> bool {
    &&& forall|i: int| #[trigger]
        given(b, name, i) ==> (b.fields@[i].value matches Ok(item) && match item.value {
            Datum::Absent => true,
            Datum::Signed(n) => true,
            Datum::Narrow(n) => true,
            Datum::Unsigned(n) => n <= i64::MAX,
            _ => false,
        })
    &&& forall|n: int| #[trigger] writes_number(b, name, n) ==> least <= n <= most
}

pub open spec fn sized(b: Node, name: Seq<char>) -> bool {
    &&& textual(b, name)
    &&& forall|t: Seq<char>| #[trigger] writes_text(b, name, t) ==> size_value(t) is Some
}

pub open spec fn addressed(b: Node, name: Seq<char>) -> bool {
    &&& textual(b, name)
    &&& forall|t: Seq<char>| #[trigger] writes_text(b, name, t) ==> ip_value(t) is Some
}

pub open spec fn ranged(b: Node, name: Seq<char>) -> bool {
    &&& textual(b, name)
    &&& forall|t: Seq<char>| #[trigger] writes_text(b, name, t) ==> net_value(t) is Some
}

pub open spec fn hardware(b: Node, name: Seq<char>) -> bool {
    &&& textual(b, name)
    &&& forall|t: Seq<char>| #[trigger] writes_text(b, name, t) ==> mac_value(t) is Some
}

pub open spec fn ported(b: Node, name: Seq<char>) -> bool {
    &&& textual(b, name)
    &&& forall|t: Seq<char>| #[trigger] writes_text(b, name, t) ==> host_port_value(t) is Some
}

/// A field is one of these words, if it is there and holds anything.
pub open spec fn one_of(b: Node, name: Seq<char>, words: Seq<Seq<char>>) -> bool {
    &&& textual(b, name)
    &&& forall|t: Seq<char>| #[trigger] writes_text(b, name, t) ==> words.contains(t)
}

pub(crate) proof fn lemma_named(b: Node, name: Seq<char>)
    ensures
        b.named(name) is None ==> silent(b, name),
        b.named(name) matches Some(f) ==> exists|i: int| #[trigger]
            given(b, name, i) && b.fields@[i] == f,
        forall|i: int| #[trigger] given(b, name, i) ==> b.named(name) == Some(b.fields@[i]),
{
    lemma_first(b.fields@, name);
    if b.named(name) is Some {
        let i = choose|i: int|
            0 <= i < b.fields@.len() && b.fields@[i].name@ == name && b.named(name) == Some(
                #[trigger] b.fields@[i],
            ) && forall|j: int| 0 <= j < i ==> (#[trigger] b.fields@[j]).name@ != name;
        assert(given(b, name, i));
        assert forall|k: int| #[trigger] given(b, name, k) implies b.named(name) == Some(
            b.fields@[k],
        ) by {
            if k < i {
                assert(b.fields@[k].name@ != name);
            }
            if i < k {
                assert(b.fields@[i].name@ != name);
            }
        }
    }
}

proof fn lemma_first(fields: Seq<crate::config::document::Attr>, name: Seq<char>)
    ensures
        find_field(fields, name) is None ==> forall|j: int|
            0 <= j < fields.len() ==> (#[trigger] fields[j]).name@ != name,
        find_field(fields, name) is Some ==> exists|i: int|
            0 <= i < fields.len() && fields[i].name@ == name && find_field(fields, name) == Some(
                #[trigger] fields[i],
            ) && forall|j: int| 0 <= j < i ==> (#[trigger] fields[j]).name@ != name,
    decreases fields.len(),
{
    if fields.len() > 0 {
        let t = fields.skip(1);
        lemma_first(t, name);
        if fields[0].name@ == name {
            assert(find_field(fields, name) == Some(fields[0]));
        } else if find_field(t, name) is None {
            assert forall|j: int| 0 <= j < fields.len() implies (#[trigger] fields[j]).name@
                != name by {
                if j > 0 {
                    assert(t[j - 1] == fields[j]);
                }
            }
        } else {
            let i = choose|i: int|
                0 <= i < t.len() && t[i].name@ == name && find_field(t, name) == Some(
                    #[trigger] t[i],
                ) && forall|j: int| 0 <= j < i ==> (#[trigger] t[j]).name@ != name;
            assert(fields[i + 1] == t[i]);
            assert forall|j: int| 0 <= j < i + 1 implies (#[trigger] fields[j]).name@ != name by {
                if j > 0 {
                    assert(t[j - 1] == fields[j]);
                }
            }
        }
    }
}

proof fn lemma_items(
    items: Seq<crate::config::document::Item>,
    name: Seq<char>,
    span: (usize, usize),
)
    ensures
        item_issues(items, name, span).len() == 0 <==> forall|k: int|
            0 <= k < items.len() ==> (#[trigger] items[k]).value is Text || items[k].value is Word,
    decreases items.len(),
{
    if items.len() > 0 {
        let front = items.drop_last();
        let n = items.len() - 1;
        lemma_items(front, name, span);
        assert forall|k: int| 0 <= k < n implies front[k] == items[k] by {}
        assert(items.last() == items[n]);
        if item_issues(items, name, span).len() == 0 {
            assert forall|k: int| 0 <= k < items.len() implies (#[trigger] items[k]).value is Text
                || items[k].value is Word by {
                if k < n {
                    assert(front[k] == items[k]);
                }
            }
        }
    }
}

/// A field is found wrong exactly when it cannot be evaluated or is not of the kind
/// that is asked for.
pub proof fn field_is_found_wrong_iff_it_is(b: Node, name: Seq<char>)
    ensures
        text_issues(b, name).len() == 0 <==> textual(b, name),
        flag_issues(b, name).len() == 0 <==> flagged(b, name),
        texts_issues(b, name).len() == 0 <==> listed(b, name),
        number_issues(b, name).len() == 0 <==> numbered(b, name, i64::MIN as int, i64::MAX as int),
        text_at(b, name) matches Some((t, _)) ==> writes_text(b, name, t),
        forall|t: Seq<char>| #[trigger]
            writes_text(b, name, t) ==> (text_at(b, name) matches Some((u, _)) && u == t),
        number_at(b, name) matches Some((n, _)) ==> writes_number(b, name, n as int),
        forall|n: int| #[trigger]
            writes_number(b, name, n) ==> (number_at(b, name) matches Some((m, _)) && m == n),
{
    lemma_named(b, name);
    if let Some(f) = b.named(name) {
        let i = choose|i: int| #[trigger] given(b, name, i) && b.fields@[i] == f;
        if let Ok(item) = f.value {
            if let Datum::List(items) = item.value {
                lemma_items(items@, name, f.span);
            }
        }
    } else {
        assert forall|i: int| !(#[trigger] given(b, name, i)) by {
            if given(b, name, i) {
                assert(b.fields@[i].name@ != name);
            }
        }
    }
}

/// A field holds some text.
pub open spec fn holds_text(b: Node, name: Seq<char>) -> bool {
    exists|t: Seq<char>| #[trigger] writes_text(b, name, t)
}

/// A block has a text on its first label.
pub open spec fn has_label(b: Node) -> bool {
    exists|t: Seq<char>| #[trigger] labelled(b, t)
}

/// A text is a name, a colon and a port.
pub open spec fn names_a_port(t: Seq<char>) -> bool {
    find_char(t, ':') matches Some(i) && port_value(t.skip(i + 1)) is Some
}

proof fn lemma_field(b: Node, name: Seq<char>)
    ensures
        text_issues(b, name).len() == 0 <==> textual(b, name),
        flag_issues(b, name).len() == 0 <==> flagged(b, name),
        texts_issues(b, name).len() == 0 <==> listed(b, name),
        text_of(b, name) is Some <==> holds_text(b, name),
        forall|t: Seq<char>| #[trigger] writes_text(b, name, t) <==> text_of(b, name) == Some(t),
        parsed_issues(SizeText, b, name).len() == 0 <==> sized(b, name),
        parsed_issues(IpText, b, name).len() == 0 <==> addressed(b, name),
        parsed_issues(SubnetText, b, name).len() == 0 <==> ranged(b, name),
        parsed_issues(CidrText, b, name).len() == 0 <==> ranged(b, name),
        parsed_issues(MacText, b, name).len() == 0 <==> hardware(b, name),
        parsed_issues(HostPortText, b, name).len() == 0 <==> ported(b, name),
        port_issues(b, name).len() == 0 <==> numbered(b, name, 0, 65535),
{
    field_is_found_wrong_iff_it_is(b, name);
    if let Some((t, _)) = text_at(b, name) {
        assert(writes_text(b, name, t));
    }
    if let Some((n, _)) = number_at(b, name) {
        assert(writes_number(b, name, n as int));
    }
}

proof fn lemma_word<T: Choice>(b: Node, name: Seq<char>, words: Seq<Seq<char>>)
    requires
        forall|t: Seq<char>| (#[trigger] T::chosen(t) is Some) <==> words.contains(t),
    ensures
        choice_issues::<T>(b, name).len() == 0 <==> one_of(b, name, words),
{
    field_is_found_wrong_iff_it_is(b, name);
    if let Some((t, _)) = text_at(b, name) {
        assert(writes_text(b, name, t));
        assert(T::chosen(t) is Some <==> words.contains(t));
    }
}

proof fn lemma_two(x: Seq<char>, y: Seq<char>, t: Seq<char>)
    ensures
        seq![x, y].contains(t) <==> t == x || t == y,
{
    let all = seq![x, y];
    assert(all[0] == x && all[1] == y);
}

proof fn lemma_three(x: Seq<char>, y: Seq<char>, z: Seq<char>, t: Seq<char>)
    ensures
        seq![x, y, z].contains(t) <==> t == x || t == y || t == z,
{
    let all = seq![x, y, z];
    assert(all[0] == x && all[1] == y && all[2] == z);
}

proof fn lemma_words(b: Node, name: Seq<char>)
    ensures
        choice_issues::<Proto>(b, name).len() == 0 <==> one_of(
            b,
            name,
            seq!["tcp"@, "udp"@, "both"@],
        ),
        choice_issues::<RedirectProto>(b, name).len() == 0 <==> one_of(
            b,
            name,
            seq!["tcp"@, "udp"@],
        ),
        choice_issues::<L4Proto>(b, name).len() == 0 <==> one_of(
            b,
            name,
            seq!["tcp"@, "udp"@, "icmp"@],
        ),
        choice_issues::<SinkholeMode>(b, name).len() == 0 <==> one_of(
            b,
            name,
            seq!["nxdomain"@, "zero"@],
        ),
        choice_issues::<MediaKind>(b, name).len() == 0 <==> one_of(
            b,
            name,
            seq!["iso"@, "floppy"@],
        ),
        choice_issues::<GpuMode>(b, name).len() == 0 <==> one_of(
            b,
            name,
            seq!["passthrough"@, "virgl"@, "vulkan"@],
        ),
        choice_issues::<Firmware>(b, name).len() == 0 <==> one_of(
            b,
            name,
            seq!["ovmf"@, "seabios"@],
        ),
{
    assert forall|t: Seq<char>| (#[trigger] <Proto as Choice>::chosen(t) is Some) <==> seq![
        "tcp"@,
        "udp"@,
        "both"@,
    ].contains(t) by {
        lemma_three("tcp"@, "udp"@, "both"@, t);
    }
    lemma_word::<Proto>(b, name, seq!["tcp"@, "udp"@, "both"@]);
    assert forall|t: Seq<char>| (#[trigger] <RedirectProto as Choice>::chosen(t) is Some) <==> seq![
        "tcp"@,
        "udp"@,
    ].contains(t) by {
        lemma_two("tcp"@, "udp"@, t);
    }
    lemma_word::<RedirectProto>(b, name, seq!["tcp"@, "udp"@]);
    assert forall|t: Seq<char>| (#[trigger] <L4Proto as Choice>::chosen(t) is Some) <==> seq![
        "tcp"@,
        "udp"@,
        "icmp"@,
    ].contains(t) by {
        lemma_three("tcp"@, "udp"@, "icmp"@, t);
    }
    lemma_word::<L4Proto>(b, name, seq!["tcp"@, "udp"@, "icmp"@]);
    assert forall|t: Seq<char>| (#[trigger] <SinkholeMode as Choice>::chosen(t) is Some) <==> seq![
        "nxdomain"@,
        "zero"@,
    ].contains(t) by {
        lemma_two("nxdomain"@, "zero"@, t);
    }
    lemma_word::<SinkholeMode>(b, name, seq!["nxdomain"@, "zero"@]);
    assert forall|t: Seq<char>| (#[trigger] <MediaKind as Choice>::chosen(t) is Some) <==> seq![
        "iso"@,
        "floppy"@,
    ].contains(t) by {
        lemma_two("iso"@, "floppy"@, t);
    }
    lemma_word::<MediaKind>(b, name, seq!["iso"@, "floppy"@]);
    assert forall|t: Seq<char>| (#[trigger] <GpuMode as Choice>::chosen(t) is Some) <==> seq![
        "passthrough"@,
        "virgl"@,
        "vulkan"@,
    ].contains(t) by {
        lemma_three("passthrough"@, "virgl"@, "vulkan"@, t);
    }
    lemma_word::<GpuMode>(b, name, seq!["passthrough"@, "virgl"@, "vulkan"@]);
    assert forall|t: Seq<char>| (#[trigger] <Firmware as Choice>::chosen(t) is Some) <==> seq![
        "ovmf"@,
        "seabios"@,
    ].contains(t) by {
        lemma_two("ovmf"@, "seabios"@, t);
    }
    lemma_word::<Firmware>(b, name, seq!["ovmf"@, "seabios"@]);
}

proof fn lemma_labelled(b: Node, what: Seq<char>)
    ensures
        label_issues(b, what).len() == 0 <==> has_label(b),
        label_of(b) is Some <==> has_label(b),
        forall|t: Seq<char>| #[trigger] labelled(b, t) <==> label_of(b) == Some(t),
{
    if let Some(t) = label_of(b) {
        assert(labelled(b, t));
    }
}

// -- small blocks -----------------------------------------------------------------------

/// The small blocks are found wrong exactly when a field of theirs is.
#[verifier::spinoff_prover]
pub proof fn small_block_is_found_wrong_iff_it_is(b: Node)
    ensures
        record_issues(b).len() == 0 <==> textual(b, "name"@) && addressed(b, "ip"@),
        sinkhole_issues(b).len() == 0 <==> textual(b, "pattern"@) && (holds_text(b, "pattern"@)
            ==> one_of(b, "mode"@, seq!["nxdomain"@, "zero"@])),
        nic_issues(b).len() == 0 <==> textual(b, "segment"@) && flagged(b, "nat"@) && addressed(
            b,
            "ip"@,
        ) && hardware(b, "mac"@) && flagged(b, "isolated"@),
        share_issues(b).len() == 0 <==> textual(b, "host"@) && (holds_text(b, "host"@) ==> textual(
            b,
            "guest"@,
        ) && (holds_text(b, "guest"@) ==> textual(b, "name"@) && flagged(b, "readonly"@) && flagged(
            b,
            "smb1"@,
        ))),
        media_issues(b).len() == 0 <==> one_of(b, "kind"@, seq!["iso"@, "floppy"@]) && (holds_text(
            b,
            "kind"@,
        ) ==> textual(b, "from"@) && (holds_text(b, "from"@) ==> textual(b, "label"@))),
        disk_block_issues(b).len() == 0 <==> has_label(b) && sized(b, "size"@) && textual(
            b,
            "from"@,
        ),
        gpu_issues(b).len() == 0 <==> one_of(
            b,
            "mode"@,
            seq!["passthrough"@, "virgl"@, "vulkan"@],
        ) && (holds_text(b, "mode"@) ==> textual(b, "address"@)),
        provision_issues(b).len() == 0 <==> has_label(b) && listed(b, "vms"@),
        handler_issues(b).len() == 0 <==> has_label(b) && textual(b, "run"@),
{
    lemma_field(b, "name"@);
    lemma_field(b, "ip"@);
    lemma_field(b, "pattern"@);
    lemma_words(b, "mode"@);
    lemma_field(b, "segment"@);
    lemma_field(b, "nat"@);
    lemma_field(b, "mac"@);
    lemma_field(b, "isolated"@);
    lemma_field(b, "host"@);
    lemma_field(b, "guest"@);
    lemma_field(b, "readonly"@);
    lemma_field(b, "smb1"@);
    lemma_words(b, "kind"@);
    lemma_field(b, "kind"@);
    lemma_field(b, "from"@);
    lemma_field(b, "label"@);
    lemma_field(b, "size"@);
    lemma_field(b, "mode"@);
    lemma_field(b, "address"@);
    lemma_field(b, "vms"@);
    lemma_field(b, "run"@);
    lemma_labelled(b, "disk"@);
    lemma_labelled(b, "provision"@);
    lemma_labelled(b, "on"@);
    lemma_two("iso"@, "floppy"@, text_of(b, "kind"@)->0);
    lemma_three("passthrough"@, "virgl"@, "vulkan"@, text_of(b, "mode"@)->0);
}

/// A forward is found wrong exactly when its host port is no port, when what it
/// leads to is no guest and port, or when its transport is none.
pub proof fn forward_is_found_wrong_iff_it_is(b: Node)
    ensures
        forward_issues(b).len() == 0 <==> numbered(b, "host_port"@, 0, 65535) && ((exists|n: int|
            #[trigger] writes_number(b, "host_port"@, n)) ==> textual(b, "to"@) && (forall|
            t: Seq<char>,
        | #[trigger]
            writes_text(b, "to"@, t) ==> names_a_port(t) && one_of(
                b,
                "proto"@,
                seq!["tcp"@, "udp"@, "both"@],
            ))),
{
    lemma_field(b, "host_port"@);
    field_is_found_wrong_iff_it_is(b, "host_port"@);
    field_is_found_wrong_iff_it_is(b, "to"@);
    lemma_field(b, "to"@);
    lemma_words(b, "proto"@);
    if let Some((t, _)) = text_at(b, "to"@) {
        assert(writes_text(b, "to"@, t));
        assert(guest_port_of(t) is Some <==> names_a_port(t));
    }
    if let Some((n, _)) = number_at(b, "host_port"@) {
        assert(writes_number(b, "host_port"@, n as int));
    }
}

// -- blocks with blocks inside ------------------------------------------------------------

pub(crate) proof fn lemma_inside(blocks: Seq<Node>, f: spec_fn(Node) -> Seq<crate::config::issue::IssueView>)
    ensures
        gather_issues(blocks, f).len() == 0 <==> forall|i: int|
            0 <= i < blocks.len() ==> f(#[trigger] blocks[i]).len() == 0,
    decreases blocks.len(),
{
    if blocks.len() > 0 {
        let front = blocks.drop_last();
        let n = blocks.len() - 1;
        lemma_inside(front, f);
        assert(blocks.last() == blocks[n]);
        if gather_issues(blocks, f).len() == 0 {
            assert forall|i: int| 0 <= i < blocks.len() implies f(#[trigger] blocks[i]).len()
                == 0 by {
                if i < n {
                    assert(front[i] == blocks[i]);
                }
            }
        }
        if forall|i: int| 0 <= i < blocks.len() ==> f(#[trigger] blocks[i]).len() == 0 {
            assert forall|i: int| 0 <= i < front.len() implies f(#[trigger] front[i]).len()
                == 0 by {
                assert(front[i] == blocks[i]);
            }
            assert(f(blocks[n]).len() == 0);
        }
    }
}

/// What stands in a segment is as it should be.
pub open spec fn segment_part_fits(c: Node) -> bool {
    &&& c.kind@ == "dns"@ ==> addressed(c, "server"@) && flagged(c, "enabled"@)
    &&& c.kind@ == "connect"@ ==> textual(c, "host"@)
    &&& c.kind@ == "route"@ ==> ranged(c, "dest"@) && addressed(c, "via"@)
    &&& c.kind@ == "record"@ ==> record_issues(c).len() == 0
    &&& c.kind@ == "forward"@ ==> forward_issues(c).len() == 0
    &&& c.kind@ == "block"@ ==> ranged(c, "cidr"@) && one_of(
        c,
        "proto"@,
        seq!["tcp"@, "udp"@, "icmp"@],
    ) && numbered(c, "port"@, 0, 65535)
    &&& c.kind@ == "redirect"@ ==> ported(c, "from"@) && ported(c, "to"@) && one_of(
        c,
        "proto"@,
        seq!["tcp"@, "udp"@],
    )
    &&& c.kind@ == "sinkhole"@ ==> sinkhole_issues(c).len() == 0
}

proof fn lemma_segment_part(c: Node)
    ensures
        segment_child_issues(c).len() == 0 <==> segment_part_fits(c),
{
    lemma_kinds();
    lemma_field(c, "server"@);
    lemma_field(c, "enabled"@);
    lemma_field(c, "host"@);
    lemma_field(c, "dest"@);
    lemma_field(c, "via"@);
    lemma_field(c, "cidr"@);
    lemma_field(c, "port"@);
    lemma_field(c, "from"@);
    lemma_field(c, "to"@);
    lemma_words(c, "proto"@);
    assert((kind_of(c.kind@) == Kind::Dns) == (c.kind@ == "dns"@));
    assert((kind_of(c.kind@) == Kind::Connect) == (c.kind@ == "connect"@));
    assert((kind_of(c.kind@) == Kind::Route) == (c.kind@ == "route"@));
    assert((kind_of(c.kind@) == Kind::Record) == (c.kind@ == "record"@));
    assert((kind_of(c.kind@) == Kind::Forward) == (c.kind@ == "forward"@));
    assert((kind_of(c.kind@) == Kind::Block) == (c.kind@ == "block"@));
    assert((kind_of(c.kind@) == Kind::Redirect) == (c.kind@ == "redirect"@));
    assert((kind_of(c.kind@) == Kind::Sinkhole) == (c.kind@ == "sinkhole"@));
}

/// A segment is found wrong exactly when it has no name, when a field of it is
/// wrong, or when a block inside it is.
pub proof fn segment_is_found_wrong_iff_it_is(b: Node)
    ensures
        segment_issues(b).len() == 0 <==> has_label(b) && ranged(b, "subnet"@) && numbered(
            b,
            "mtu"@,
            576,
            65535,
        ) && flagged(b, "global"@) && flagged(b, "dhcp"@) && flagged(b, "nat"@) && listed(
            b,
            "routes_to"@,
        ) && forall|i: int|
            0 <= i < b.blocks@.len() ==> segment_part_fits(#[trigger] b.blocks@[i]),
{
    lemma_labelled(b, "segment"@);
    lemma_field(b, "subnet"@);
    lemma_field(b, "global"@);
    lemma_field(b, "dhcp"@);
    lemma_field(b, "nat"@);
    lemma_field(b, "routes_to"@);
    field_is_found_wrong_iff_it_is(b, "mtu"@);
    if let Some((n, _)) = number_at(b, "mtu"@) {
        assert(writes_number(b, "mtu"@, n as int));
    }
    let f = segment_child_reader();
    lemma_inside(b.blocks@, f);
    assert forall|c: Node| (#[trigger] f(c)).len() == 0 <==> segment_part_fits(c) by {
        lemma_segment_part(c);
    }
}

/// What stands in a guest is as it should be.
pub open spec fn guest_part_fits(c: Node) -> bool {
    &&& c.kind@ == "nic"@ ==> nic_issues(c).len() == 0
    &&& c.kind@ == "gpu"@ ==> gpu_issues(c).len() == 0
    &&& c.kind@ == "disk"@ ==> disk_block_issues(c).len() == 0
    &&& c.kind@ == "share"@ ==> share_issues(c).len() == 0
    &&& c.kind@ == "media"@ ==> media_issues(c).len() == 0
}

/// A field holds a reference to a template.
pub open spec fn refers(b: Node, name: Seq<char>, arches: Seq<Seq<char>>) -> bool {
    exists|t: Seq<char>| #[trigger]
        writes_text(b, name, t) && template_ref_value(t, arches) is Some
}

/// A guest is found wrong exactly when it has no name or no template, when a field
/// of it is wrong, or when a block inside it is.
#[verifier::spinoff_prover]
#[verifier::rlimit(40)]
pub proof fn guest_is_found_wrong_iff_it_is(b: Node, arches: Seq<Seq<char>>)
    ensures
        vm_issues(b, arches).len() == 0 <==> has_label(b) && refers(b, "template"@, arches)
            && textual(b, "arch"@) && textual(b, "profile"@) && numbered(
            b,
            "cpus"@,
            1,
            0xFFFF_FFFF,
        ) && sized(b, "memory"@) && sized(b, "disk"@) && textual(b, "cdrom"@) && textual(
            b,
            "floppy"@,
        ) && listed(b, "depends_on"@) && flagged(b, "nested"@) && flagged(b, "gui"@) && textual(
            b,
            "display"@,
        ) && one_of(b, "firmware"@, seq!["ovmf"@, "seabios"@]) && flagged(b, "tpm"@) && flagged(
            b,
            "secure_boot"@,
        ) && listed(b, "qemu_args"@) && forall|i: int|
            0 <= i < b.blocks@.len() ==> guest_part_fits(#[trigger] b.blocks@[i]),
{
    lemma_kinds();
    lemma_labelled(b, "vm"@);
    lemma_field(b, "template"@);
    field_is_found_wrong_iff_it_is(b, "template"@);
    if let Some((t, _)) = text_at(b, "template"@) {
        assert(writes_text(b, "template"@, t));
        assert(textual(b, "template"@));
        assert(refers(b, "template"@, arches) <==> template_ref_value(t, arches) is Some);
    }
    lemma_field(b, "arch"@);
    lemma_field(b, "profile"@);
    field_is_found_wrong_iff_it_is(b, "cpus"@);
    if let Some((n, _)) = number_at(b, "cpus"@) {
        assert(writes_number(b, "cpus"@, n as int));
    }
    lemma_field(b, "memory"@);
    lemma_field(b, "disk"@);
    lemma_field(b, "cdrom"@);
    lemma_field(b, "floppy"@);
    lemma_field(b, "depends_on"@);
    lemma_field(b, "nested"@);
    lemma_field(b, "gui"@);
    lemma_field(b, "display"@);
    lemma_words(b, "firmware"@);
    lemma_field(b, "tpm"@);
    lemma_field(b, "secure_boot"@);
    lemma_field(b, "qemu_args"@);
    let f = vm_child_reader();
    lemma_inside(b.blocks@, f);
    assert forall|c: Node| (#[trigger] f(c)).len() == 0 <==> guest_part_fits(c) by {
        assert((kind_of(c.kind@) == Kind::Nic) == (c.kind@ == "nic"@));
        assert((kind_of(c.kind@) == Kind::Gpu) == (c.kind@ == "gpu"@));
        assert((kind_of(c.kind@) == Kind::Disk) == (c.kind@ == "disk"@));
        assert((kind_of(c.kind@) == Kind::Share) == (c.kind@ == "share"@));
        assert((kind_of(c.kind@) == Kind::Media) == (c.kind@ == "media"@));
    }
}

/// A source is found wrong exactly when it has no known kind, when one of a file
/// does not name one file, with a checksum if by its address, or when one of a
/// template does not refer to the local store.
#[verifier::spinoff_prover]
#[verifier::rlimit(40)]
pub proof fn source_is_found_wrong_iff_it_is(b: Node, arches: Seq<Seq<char>>)
    ensures
        source_issues(b, arches).len() == 0 <==> {
            &&& textual(b, "path"@) && textual(b, "url"@) && textual(b, "sha256"@)
            &&& {
                ||| (labelled(b, "iso"@) || labelled(b, "qcow2"@)) && holds_text(b, "path"@)
                    && !holds_text(b, "url"@)
                ||| (labelled(b, "iso"@) || labelled(b, "qcow2"@)) && !holds_text(b, "path"@)
                    && holds_text(b, "url"@) && holds_text(b, "sha256"@)
                ||| labelled(b, "template"@) && textual(b, "from"@) && forall|t: Seq<char>|
                    #[trigger] writes_text(b, "from"@, t) ==> (template_ref_value(
                        t,
                        arches,
                    ) matches Some(r) && r is Store)
                ||| labelled(b, "scratch"@)
            }
        },
{
    reveal_strlit("iso");
    reveal_strlit("qcow2");
    reveal_strlit("template");
    reveal_strlit("scratch");
    assert("iso"@.len() == 3);
    assert("qcow2"@.len() == 5);
    assert("template"@.len() == 8);
    assert("scratch"@.len() == 7);
    lemma_labelled(b, "source"@);
    lemma_field(b, "path"@);
    lemma_field(b, "url"@);
    lemma_field(b, "sha256"@);
    lemma_field(b, "from"@);
    field_is_found_wrong_iff_it_is(b, "from"@);
    if let Some((t, _)) = text_at(b, "from"@) {
        assert(writes_text(b, "from"@, t));
        assert(textual(b, "from"@));
    }
    assert(labelled(b, "iso"@) <==> label_of(b) == Some("iso"@));
    assert(labelled(b, "qcow2"@) <==> label_of(b) == Some("qcow2"@));
    assert(labelled(b, "template"@) <==> label_of(b) == Some("template"@));
    assert(labelled(b, "scratch"@) <==> label_of(b) == Some("scratch"@));
}

/// What stands in a template is as it should be.
pub open spec fn template_part_fits(c: Node, arches: Seq<Seq<char>>) -> bool {
    &&& c.kind@ == "source"@ ==> source_issues(c, arches).len() == 0
    &&& c.kind@ == "media"@ ==> media_issues(c).len() == 0
    &&& c.kind@ == "provision"@ ==> provision_issues(c).len() == 0
    &&& c.kind@ == "nic"@ ==> nic_issues(c).len() == 0
    &&& c.kind@ == "disk"@ ==> disk_block_issues(c).len() == 0
}

/// A template is found wrong exactly when it has no name, no known architecture, no
/// version or no source, when a field of it is wrong, or when a block inside it is.
#[verifier::spinoff_prover]
#[verifier::rlimit(40)]
pub proof fn template_is_found_wrong_iff_it_is(b: Node, arches: Seq<Seq<char>>)
    ensures
        template_issues(b, arches).len() == 0 <==> has_label(b) && (exists|t: Seq<char>| #[trigger]
            writes_text(b, "arch"@, t) && arches.contains(t)) && holds_text(b, "version"@)
            && crate::config::extract::template_source_of(b, arches) is Some && textual(
            b,
            "registry"@,
        ) && textual(b, "profile"@) && numbered(b, "cpus"@, i64::MIN as int, i64::MAX as int)
            && sized(b, "memory"@) && sized(b, "disk"@) && textual(b, "display"@) && one_of(
            b,
            "firmware"@,
            seq!["ovmf"@, "seabios"@],
        ) && flagged(b, "tpm"@) && flagged(b, "secure_boot"@) && flagged(b, "nested"@) && flagged(
            b,
            "gui"@,
        ) && listed(b, "qemu_args"@) && textual(b, "first_boot"@) && forall|i: int|
            0 <= i < b.blocks@.len() ==> template_part_fits(#[trigger] b.blocks@[i], arches),
{
    lemma_kinds();
    lemma_labelled(b, "template"@);
    lemma_field(b, "arch"@);
    field_is_found_wrong_iff_it_is(b, "arch"@);
    if let Some((t, _)) = text_at(b, "arch"@) {
        assert(writes_text(b, "arch"@, t));
        assert(textual(b, "arch"@));
    }
    lemma_field(b, "version"@);
    field_is_found_wrong_iff_it_is(b, "version"@);
    if let Some((t, _)) = text_at(b, "version"@) {
        assert(writes_text(b, "version"@, t));
        assert(textual(b, "version"@));
    }
    lemma_field(b, "registry"@);
    lemma_field(b, "profile"@);
    field_is_found_wrong_iff_it_is(b, "cpus"@);
    lemma_field(b, "memory"@);
    lemma_field(b, "disk"@);
    lemma_field(b, "display"@);
    lemma_words(b, "firmware"@);
    lemma_field(b, "tpm"@);
    lemma_field(b, "secure_boot"@);
    lemma_field(b, "nested"@);
    lemma_field(b, "gui"@);
    lemma_field(b, "qemu_args"@);
    lemma_field(b, "first_boot"@);
    let f = template_child_reader(arches);
    lemma_inside(b.blocks@, f);
    assert forall|c: Node| (#[trigger] f(c)).len() == 0 <==> template_part_fits(c, arches) by {
        assert((kind_of(c.kind@) == Kind::Source) == (c.kind@ == "source"@));
        assert((kind_of(c.kind@) == Kind::Media) == (c.kind@ == "media"@));
        assert((kind_of(c.kind@) == Kind::Provision) == (c.kind@ == "provision"@));
        assert((kind_of(c.kind@) == Kind::Nic) == (c.kind@ == "nic"@));
        assert((kind_of(c.kind@) == Kind::Disk) == (c.kind@ == "disk"@));
    }
}

/// What stands in a lab is as it should be.
pub open spec fn lab_part_fits(c: Node, arches: Seq<Seq<char>>) -> bool {
    &&& c.kind@ == "segment"@ ==> segment_issues(c).len() == 0
    &&& c.kind@ == "vm"@ ==> vm_issues(c, arches).len() == 0
    &&& c.kind@ == "provision"@ ==> provision_issues(c).len() == 0
    &&& c.kind@ == "on"@ ==> handler_issues(c).len() == 0
    &&& c.kind@ == "record"@ ==> record_issues(c).len() == 0
    &&& c.kind@ == "sinkhole"@ ==> sinkhole_issues(c).len() == 0
}

/// A lab is found wrong exactly when it has no name, when a field of it is wrong,
/// or when a block inside it is; a file when it does not hold exactly one lab, or
/// when a lab or a template in it is wrong.
#[verifier::spinoff_prover]
#[verifier::rlimit(40)]
pub proof fn lab_is_found_wrong_iff_it_is(b: Node, blocks: Seq<Node>, arches: Seq<Seq<char>>)
    ensures
        lab_issues(b, arches).len() == 0 <==> has_label(b) && flagged(b, "gui"@) && forall|i: int|
            0 <= i < b.blocks@.len() ==> lab_part_fits(#[trigger] b.blocks@[i], arches),
        lab_file_issues(blocks, arches).len() == 0 <==> lab_file_of(
            blocks,
            Seq::empty(),
            arches,
        ) is Some && forall|i: int|
            0 <= i < blocks.len() ==> ((#[trigger] blocks[i]).kind@ == "lab"@ ==> lab_issues(
                blocks[i],
                arches,
            ).len() == 0) && (blocks[i].kind@ == "template"@ ==> template_issues(
                blocks[i],
                arches,
            ).len() == 0),
{
    lemma_kinds();
    lemma_labelled(b, "lab"@);
    lemma_field(b, "gui"@);
    let f = lab_child_reader(arches);
    lemma_inside(b.blocks@, f);
    assert forall|c: Node| (#[trigger] f(c)).len() == 0 <==> lab_part_fits(c, arches) by {
        assert((kind_of(c.kind@) == Kind::Segment) == (c.kind@ == "segment"@));
        assert((kind_of(c.kind@) == Kind::Vm) == (c.kind@ == "vm"@));
        assert((kind_of(c.kind@) == Kind::Provision) == (c.kind@ == "provision"@));
        assert((kind_of(c.kind@) == Kind::On) == (c.kind@ == "on"@));
        assert((kind_of(c.kind@) == Kind::Record) == (c.kind@ == "record"@));
        assert((kind_of(c.kind@) == Kind::Sinkhole) == (c.kind@ == "sinkhole"@));
    }
    let g = file_block_reader(arches);
    lemma_inside(blocks, g);
    assert forall|c: Node| (#[trigger] g(c)).len() == 0 <==> (c.kind@ == "lab"@ ==> lab_issues(
        c,
        arches,
    ).len() == 0) && (c.kind@ == "template"@ ==> template_issues(c, arches).len() == 0) by {
        assert((kind_of(c.kind@) == Kind::Lab) == (c.kind@ == "lab"@));
        assert((kind_of(c.kind@) == Kind::Template) == (c.kind@ == "template"@));
    }
}

} // verus!
