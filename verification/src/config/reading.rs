//! What the blocks of a file say, field by field, and that this is what is read
//! from them.

use vstd::prelude::*;

use crate::config::document::{
    choice_of, find_field, flag_issues, flag_of, flag_or, item_issues, number_at, number_issues,
    text_at, text_issues, text_of, texts_in, texts_issues, texts_of, Attr, Datum, Item, Node,
};
use crate::config::extract::{
    block_rule_of, block_rule_reader, connect_of, connect_reader, disk_block_of, disk_block_reader,
    dns_of, dns_reader, forward_of, forward_reader, gather, gpu_of, gpu_reader, handler_of,
    handler_reader, kind_of, lab_file_of, lab_of, lab_reader, last_of, media_of, media_reader,
    nic_of, nic_reader, provision_of, provision_reader, record_of, record_reader, redirect_rule_of,
    redirect_rule_reader, route_of, route_reader, segment_of, segment_reader, share_name, share_of,
    share_reader, sinkhole_of, sinkhole_reader, source_of, source_reader, template_of,
    template_reader, vm_of, vm_reader, Kind,
};
use crate::config::model::{
    host_port_value, mac_value, size_value, template_ref_value, ArtefactSourceView, Firmware,
    GpuMode, HostPort, L4Proto, MediaKind, Proto, SinkholeMode, TemplateSourceView,
};
use crate::net::addr::{Ipv4Addr, MacAddr};
use crate::net::cidr::{ip_value, net_value, Ipv4Net};
use crate::text::{find_char, lemma_find_char, port_value};

verus! {

// -- what a block says ----------------------------------------------------------------

/// A block has no field of this name.
pub open spec fn silent(b: Node, name: Seq<char>) -> bool {
    forall|i: int| 0 <= i < b.fields@.len() ==> (#[trigger] b.fields@[i]).name@ != name
}

/// The first field of this name is the one at `i`.
pub open spec fn given(b: Node, name: Seq<char>, i: int) -> bool {
    &&& 0 <= i < b.fields@.len()
    &&& b.fields@[i].name@ == name
    &&& forall|j: int| 0 <= j < i ==> (#[trigger] b.fields@[j]).name@ != name
}

/// A value is this text.
pub open spec fn says_text(v: Datum, t: Seq<char>) -> bool {
    match v {
        Datum::Text(s) => s@ == t,
        Datum::Word(s) => s@ == t,
        _ => false,
    }
}

/// A value is this number.
pub open spec fn says_number(v: Datum, n: int) -> bool {
    match v {
        Datum::Signed(x) => x == n,
        Datum::Narrow(x) => x == n,
        Datum::Unsigned(x) => x == n && n < 0x8000_0000_0000_0000,
        _ => false,
    }
}

/// A block's field of this name holds this text.
pub open spec fn writes_text(b: Node, name: Seq<char>, t: Seq<char>) -> bool {
    exists|i: int|
        #[trigger] given(b, name, i) && (b.fields@[i].value matches Ok(item) && says_text(
            item.value,
            t,
        ))
}

/// A block's field of this name holds this flag.
pub open spec fn writes_flag(b: Node, name: Seq<char>, x: bool) -> bool {
    exists|i: int|
        #[trigger] given(b, name, i) && (b.fields@[i].value matches Ok(item) && item.value
            == Datum::Bool(x))
}

/// A block's field of this name holds this number.
pub open spec fn writes_number(b: Node, name: Seq<char>, n: int) -> bool {
    exists|i: int|
        #[trigger] given(b, name, i) && (b.fields@[i].value matches Ok(item) && says_number(
            item.value,
            n,
        ))
}

/// The items are these texts.
pub open spec fn says_texts(items: Seq<Item>, all: Seq<Seq<char>>) -> bool {
    &&& items.len() == all.len()
    &&& forall|k: int| 0 <= k < all.len() ==> says_text(items[k].value, #[trigger] all[k])
}

/// A block's field of this name holds these texts.
pub open spec fn writes_texts(b: Node, name: Seq<char>, all: Seq<Seq<char>>) -> bool {
    exists|i: int|
        #[trigger] given(b, name, i) && (b.fields@[i].value matches Ok(item)
            && item.value matches Datum::List(items) && says_texts(items@, all))
}

/// The first label of a block is this text.
pub open spec fn labelled(b: Node, t: Seq<char>) -> bool {
    b.labels matches Ok(all) && all@.len() > 0 && says_text(all@[0].value, t)
}

// -- what is kept of it ---------------------------------------------------------------

pub open spec fn text_kept(b: Node, name: Seq<char>, o: Option<Seq<char>>) -> bool {
    &&& forall|t: Seq<char>| #[trigger] writes_text(b, name, t) ==> o == Some(t)
    &&& silent(b, name) ==> o is None
}

pub open spec fn flag_kept(b: Node, name: Seq<char>, o: Option<bool>) -> bool {
    &&& forall|x: bool| #[trigger] writes_flag(b, name, x) ==> o == Some(x)
    &&& silent(b, name) ==> o is None
}

pub open spec fn flag_kept_or(b: Node, name: Seq<char>, default: bool, y: bool) -> bool {
    &&& forall|x: bool| #[trigger] writes_flag(b, name, x) ==> y == x
    &&& silent(b, name) ==> y == default
}

pub open spec fn texts_kept(b: Node, name: Seq<char>, all: Seq<Seq<char>>) -> bool {
    &&& forall|t: Seq<Seq<char>>| #[trigger] writes_texts(b, name, t) ==> all == t
    &&& silent(b, name) ==> all.len() == 0
}

/// A number between `least` and `most` is kept.
pub open spec fn number_kept(b: Node, name: Seq<char>, least: int, most: int, o: Option<int>) -> bool {
    &&& forall|n: int|
        #[trigger] writes_number(b, name, n) ==> o == if least <= n <= most {
            Some(n)
        } else {
            None
        }
    &&& silent(b, name) ==> o is None
}

pub open spec fn size_kept(b: Node, name: Seq<char>, o: Option<u64>) -> bool {
    &&& forall|t: Seq<char>| #[trigger] writes_text(b, name, t) ==> o == size_value(t)
    &&& silent(b, name) ==> o is None
}

pub open spec fn ip_kept(b: Node, name: Seq<char>, o: Option<Ipv4Addr>) -> bool {
    &&& forall|t: Seq<char>| #[trigger] writes_text(b, name, t) ==> o == ip_value(t)
    &&& silent(b, name) ==> o is None
}

pub open spec fn net_kept(b: Node, name: Seq<char>, o: Option<Ipv4Net>) -> bool {
    &&& forall|t: Seq<char>| #[trigger] writes_text(b, name, t) ==> o == net_value(t)
    &&& silent(b, name) ==> o is None
}

pub open spec fn mac_kept(b: Node, name: Seq<char>, o: Option<MacAddr>) -> bool {
    &&& forall|t: Seq<char>| #[trigger] writes_text(b, name, t) ==> o == mac_value(t)
    &&& silent(b, name) ==> o is None
}

pub open spec fn host_port_kept(b: Node, name: Seq<char>, o: Option<HostPort>) -> bool {
    &&& forall|t: Seq<char>| #[trigger] writes_text(b, name, t) ==> o == host_port_value(t)
    &&& silent(b, name) ==> o is None
}

proof fn lemma_given(fields: Seq<Attr>, name: Seq<char>, i: int)
    requires
        0 <= i < fields.len(),
        fields[i].name@ == name,
        forall|j: int| 0 <= j < i ==> (#[trigger] fields[j]).name@ != name,
    ensures
        find_field(fields, name) == Some(fields[i]),
    decreases fields.len(),
{
    if i > 0 {
        let t = fields.skip(1);
        assert(fields[0].name@ != name);
        assert forall|j: int| 0 <= j < i - 1 implies (#[trigger] t[j]).name@ != name by {
            assert(t[j] == fields[j + 1]);
        }
        lemma_given(t, name, i - 1);
    }
}

proof fn lemma_silent(fields: Seq<Attr>, name: Seq<char>)
    requires
        forall|j: int| 0 <= j < fields.len() ==> (#[trigger] fields[j]).name@ != name,
    ensures
        find_field(fields, name) is None,
    decreases fields.len(),
{
    if fields.len() > 0 {
        let t = fields.skip(1);
        assert(fields[0].name@ != name);
        assert forall|j: int| 0 <= j < t.len() implies (#[trigger] t[j]).name@ != name by {
            assert(t[j] == fields[j + 1]);
        }
        lemma_silent(t, name);
    }
}

proof fn lemma_texts(items: Seq<Item>, all: Seq<Seq<char>>, name: Seq<char>, span: (usize, usize))
    requires
        says_texts(items, all),
    ensures
        texts_in(items) == all,
        item_issues(items, name, span).len() == 0,
    decreases items.len(),
{
    if items.len() > 0 {
        let n = items.len() - 1;
        let (a, b) = (items.drop_last(), all.drop_last());
        assert forall|k: int| 0 <= k < b.len() implies says_text(a[k].value, #[trigger] b[k]) by {
            assert(says_text(items[k].value, all[k]));
        }
        lemma_texts(a, b, name, span);
        assert(says_text(items[n].value, all[n]));
        assert(b.push(all[n]) =~= all);
    } else {
        assert(texts_in(items) =~= all);
    }
}

/// A field is read as it is written, and one that is not there is not read; neither
/// is found wrong.
pub proof fn fields_are_read_as_written(b: Node, name: Seq<char>)
    ensures
        text_kept(b, name, text_of(b, name)),
        flag_kept(b, name, flag_of(b, name)),
        forall|d: bool| flag_kept_or(b, name, d, #[trigger] flag_or(b, name, d)),
        texts_kept(b, name, texts_of(b, name)),
        forall|n: int| #[trigger]
            writes_number(b, name, n) ==> (number_at(b, name) matches Some((x, _)) && x == n)
                && number_issues(b, name).len() == 0,
        silent(b, name) ==> number_at(b, name) is None && text_at(b, name) is None,
        silent(b, name) ==> text_issues(b, name).len() == 0 && flag_issues(b, name).len() == 0
            && texts_issues(b, name).len() == 0 && number_issues(b, name).len() == 0,
        forall|t: Seq<char>| #[trigger]
            writes_text(b, name, t) ==> text_issues(b, name).len() == 0 && flag_issues(
                b,
                name,
            ).len() == 1 && texts_issues(b, name).len() == 1 && number_issues(b, name).len() == 1
                && flag_of(b, name) is None && texts_of(b, name).len() == 0 && number_at(
                b,
                name,
            ) is None,
        forall|x: bool| #[trigger]
            writes_flag(b, name, x) ==> flag_issues(b, name).len() == 0 && text_issues(
                b,
                name,
            ).len() == 1 && text_of(b, name) is None && number_at(b, name) is None,
        forall|all: Seq<Seq<char>>| #[trigger]
            writes_texts(b, name, all) ==> texts_issues(b, name).len() == 0,
{
    if silent(b, name) {
        lemma_silent(b.fields@, name);
    }
    assert forall|i: int| #[trigger] given(b, name, i) implies b.named(name) == Some(b.fields@[i])
        && !silent(b, name) by {
        lemma_given(b.fields@, name, i);
        assert(b.fields@[i].name@ == name);
    }
    assert forall|t: Seq<Seq<char>>| #[trigger] writes_texts(b, name, t) implies texts_of(b, name)
        == t && texts_issues(b, name).len() == 0 by {
        let i = choose|i: int| #[trigger] given(b, name, i) && (b.fields@[i].value matches Ok(item)
            && item.value matches Datum::List(items) && says_texts(items@, t));
        let item = b.fields@[i].value->Ok_0;
        lemma_texts(item.value->List_0@, t, name, b.fields@[i].span);
    }
}

// -- small blocks -----------------------------------------------------------------------

/// A record gives its name its address.
pub proof fn record_is_read_as_written(b: Node, name: Seq<char>, ip: Seq<char>)
    ensures
        writes_text(b, "name"@, name) && writes_text(b, "ip"@, ip) ==> (record_of(b) is Some
            <==> ip_value(ip) is Some),
        record_of(b) matches Some(r) ==> r.span == b.span && text_kept(b, "name"@, Some(r.name))
            && ip_kept(b, "ip"@, Some(r.ip)),
{
    fields_are_read_as_written(b, "name"@);
    fields_are_read_as_written(b, "ip"@);
}

/// A sinkhole covers its pattern, with no address unless it says zero.
pub proof fn sinkhole_is_read_as_written(b: Node, pattern: Seq<char>)
    ensures
        writes_text(b, "pattern"@, pattern) ==> sinkhole_of(b) is Some,
        sinkhole_of(b) matches Some(r) ==> r.span == b.span && text_kept(
            b,
            "pattern"@,
            Some(r.pattern),
        ) && (silent(b, "mode"@) ==> r.mode == SinkholeMode::Nxdomain) && (writes_text(
            b,
            "mode"@,
            "nxdomain"@,
        ) ==> r.mode == SinkholeMode::Nxdomain) && (writes_text(b, "mode"@, "zero"@) ==> r.mode
            == SinkholeMode::Zero),
{
    reveal_strlit("nxdomain");
    reveal_strlit("zero");
    assert("nxdomain"@.len() == 8 && "nxdomain"@[0] == 'n' && "nxdomain"@[1] == 'x');
    assert("zero"@.len() == 4 && "zero"@[0] == 'z' && "zero"@[1] == 'e');
    fields_are_read_as_written(b, "pattern"@);
    fields_are_read_as_written(b, "mode"@);
}

proof fn lemma_in_two(head: Seq<char>, tail: Seq<char>)
    requires
        !head.contains(':'),
    ensures
        ({
            let s = head.push(':') + tail;
            &&& find_char(s, ':') == Some(head.len() as int)
            &&& s.take(head.len() as int) == head
            &&& s.skip(head.len() as int + 1) == tail
        }),
{
    let s = head.push(':') + tail;
    assert forall|j: int| 0 <= j < head.len() implies s[j] != ':' by {
        assert(s[j] == head[j]);
        assert(head.contains(head[j]));
    }
    lemma_find_char(s, ':', head.len() as int);
    assert(s.take(head.len() as int) =~= head);
    assert(s.skip(head.len() as int + 1) =~= tail);
}

/// A forward leads from the host port to the guest and the guest port in
/// `guest:port`, over TCP unless it says otherwise.
pub proof fn forward_is_read_as_written(b: Node, host_port: int, vm: Seq<char>, port: Seq<char>)
    requires
        writes_number(b, "host_port"@, host_port),
        writes_text(b, "to"@, vm.push(':') + port),
        !vm.contains(':'),
    ensures
        forward_of(b) is Some <==> 0 <= host_port <= 65535 && port_value(port) is Some,
        forward_of(b) matches Some(r) ==> {
            &&& r.span == b.span
            &&& r.host_port == host_port
            &&& r.vm == vm
            &&& r.guest_port == port_value(port)->0
            &&& silent(b, "proto"@) || writes_text(b, "proto"@, "tcp"@) ==> r.proto == Proto::Tcp
            &&& writes_text(b, "proto"@, "udp"@) ==> r.proto == Proto::Udp
            &&& writes_text(b, "proto"@, "both"@) ==> r.proto == Proto::Both
        },
{
    reveal_strlit("tcp");
    reveal_strlit("udp");
    reveal_strlit("both");
    assert("tcp"@.len() == 3 && "tcp"@[0] == 't' && "tcp"@[1] == 'c');
    assert("udp"@.len() == 3 && "udp"@[0] == 'u' && "udp"@[1] == 'd');
    assert("both"@.len() == 4 && "both"@[0] == 'b' && "both"@[1] == 'o');
    fields_are_read_as_written(b, "host_port"@);
    fields_are_read_as_written(b, "to"@);
    fields_are_read_as_written(b, "proto"@);
    lemma_in_two(vm, port);
}

/// A route leads to its network by its address; a `dns` block names a server and
/// switches names on or off; a `connect` block names a host.
pub proof fn small_blocks_are_read_as_written(b: Node, dest: Seq<char>, via: Seq<char>, host: Seq<char>)
    ensures
        writes_text(b, "dest"@, dest) && writes_text(b, "via"@, via) ==> (route_of(b) is Some
            <==> net_value(dest) is Some && ip_value(via) is Some),
        route_of(b) matches Some(r) ==> r.span == b.span && net_kept(b, "dest"@, Some(r.dest))
            && ip_kept(b, "via"@, Some(r.via)),
        dns_of(b).declared,
        ip_kept(b, "server"@, dns_of(b).server),
        flag_kept_or(b, "enabled"@, true, dns_of(b).enabled),
        writes_text(b, "host"@, host) ==> connect_of(b) is Some,
        connect_of(b) matches Some(c) ==> c.span == b.span && text_kept(b, "host"@, Some(c.host)),
{
    fields_are_read_as_written(b, "dest"@);
    fields_are_read_as_written(b, "via"@);
    fields_are_read_as_written(b, "server"@);
    fields_are_read_as_written(b, "enabled"@);
    fields_are_read_as_written(b, "host"@);
}

/// The transport that a rule is for.
pub open spec fn transport_kept(b: Node, o: Option<L4Proto>) -> bool {
    &&& silent(b, "proto"@) ==> o is None
    &&& writes_text(b, "proto"@, "tcp"@) ==> o == Some(L4Proto::Tcp)
    &&& writes_text(b, "proto"@, "udp"@) ==> o == Some(L4Proto::Udp)
}

/// A block rule is for its network, and for a transport and a port if it says so;
/// a redirect rule leads from one address to the other.
pub proof fn rules_are_read_as_written(b: Node, cidr: Seq<char>, from: Seq<char>, to: Seq<char>)
    ensures
        writes_text(b, "cidr"@, cidr) ==> (block_rule_of(b) is Some <==> net_value(cidr) is Some),
        block_rule_of(b) matches Some(r) ==> {
            &&& r.span == b.span
            &&& net_kept(b, "cidr"@, Some(r.cidr))
            &&& transport_kept(b, r.proto)
            &&& writes_text(b, "proto"@, "icmp"@) ==> r.proto == Some(L4Proto::Icmp)
            &&& silent(b, "port"@) ==> r.port is None
            &&& forall|n: int| #[trigger]
                writes_number(b, "port"@, n) ==> if 0 <= n <= 65535 {
                    r.port matches Some(p) && p == n
                } else {
                    r.port is None
                }
        },
        writes_text(b, "from"@, from) && writes_text(b, "to"@, to) ==> (redirect_rule_of(b) is Some
            <==> host_port_value(from) is Some && host_port_value(to) is Some),
        redirect_rule_of(b) matches Some(r) ==> {
            &&& r.span == b.span
            &&& host_port_kept(b, "from"@, Some(r.from))
            &&& host_port_kept(b, "to"@, Some(r.to))
            &&& transport_kept(b, r.proto)
        },
{
    reveal_strlit("tcp");
    reveal_strlit("udp");
    reveal_strlit("icmp");
    assert("tcp"@.len() == 3 && "tcp"@[0] == 't' && "tcp"@[1] == 'c');
    assert("udp"@.len() == 3 && "udp"@[0] == 'u' && "udp"@[1] == 'd');
    assert("icmp"@.len() == 4 && "icmp"@[0] == 'i' && "icmp"@[1] == 'c');
    fields_are_read_as_written(b, "cidr"@);
    fields_are_read_as_written(b, "proto"@);
    fields_are_read_as_written(b, "port"@);
    fields_are_read_as_written(b, "from"@);
    fields_are_read_as_written(b, "to"@);
}

/// A card is on the segment it names, or on the built-in one, with the addresses
/// it states.
pub proof fn card_is_read_as_written(b: Node)
    ensures
        nic_of(b).span == b.span,
        text_kept(b, "segment"@, nic_of(b).segment),
        flag_kept_or(b, "nat"@, false, nic_of(b).nat),
        ip_kept(b, "ip"@, nic_of(b).ip),
        mac_kept(b, "mac"@, nic_of(b).mac),
        flag_kept_or(b, "isolated"@, false, nic_of(b).isolated),
{
    fields_are_read_as_written(b, "segment"@);
    fields_are_read_as_written(b, "nat"@);
    fields_are_read_as_written(b, "ip"@);
    fields_are_read_as_written(b, "mac"@);
    fields_are_read_as_written(b, "isolated"@);
}

/// A share leads from a host folder to a guest path, by its own name or by one
/// that is made from the guest path.
pub proof fn share_is_read_as_written(b: Node, host: Seq<char>, guest: Seq<char>)
    ensures
        writes_text(b, "host"@, host) && writes_text(b, "guest"@, guest) ==> share_of(b) is Some,
        silent(b, "host"@) || silent(b, "guest"@) ==> share_of(b) is None,
        share_of(b) matches Some(s) ==> {
            &&& s.span == b.span
            &&& text_kept(b, "host"@, Some(s.host))
            &&& text_kept(b, "guest"@, Some(s.guest))
            &&& flag_kept_or(b, "readonly"@, false, s.readonly)
            &&& flag_kept_or(b, "smb1"@, false, s.smb1)
            &&& silent(b, "name"@) ==> s.name == share_name(s.guest)
            &&& forall|t: Seq<char>| #[trigger] writes_text(b, "name"@, t) ==> s.name == t
        },
{
    fields_are_read_as_written(b, "host"@);
    fields_are_read_as_written(b, "guest"@);
    fields_are_read_as_written(b, "readonly"@);
    fields_are_read_as_written(b, "smb1"@);
    fields_are_read_as_written(b, "name"@);
}

/// An image is of its kind, from its folder and under its label; a disk has its
/// name and a size or a folder; a GPU has its mode and an address.
pub proof fn devices_are_read_as_written(b: Node, name: Seq<char>, from: Seq<char>)
    ensures
        writes_text(b, "from"@, from) ==> (media_of(b) is Some <==> choice_of::<MediaKind>(
            b,
            "kind"@,
        ) is Some),
        silent(b, "kind"@) || silent(b, "from"@) ==> media_of(b) is None,
        writes_text(b, "kind"@, "iso"@) && writes_text(b, "from"@, from) ==> media_of(b) is Some,
        writes_text(b, "kind"@, "floppy"@) && writes_text(b, "from"@, from) ==> media_of(b) is Some,
        media_of(b) matches Some(m) ==> {
            &&& m.span == b.span
            &&& writes_text(b, "kind"@, "iso"@) ==> m.kind == MediaKind::Iso
            &&& writes_text(b, "kind"@, "floppy"@) ==> m.kind == MediaKind::Floppy
            &&& text_kept(b, "from"@, Some(m.from))
            &&& text_kept(b, "label"@, m.label)
        },
        labelled(b, name) ==> disk_block_of(b) is Some,
        disk_block_of(b) matches Some(d) ==> {
            &&& d.span == b.span
            &&& labelled(b, name) ==> d.name == name
            &&& size_kept(b, "size"@, d.size)
            &&& text_kept(b, "from"@, d.from)
        },
        silent(b, "mode"@) ==> gpu_of(b) is None,
        writes_text(b, "mode"@, "passthrough"@) ==> (gpu_of(b) matches Some(g) && g.mode
            == GpuMode::Passthrough),
        writes_text(b, "mode"@, "virgl"@) ==> (gpu_of(b) matches Some(g) && g.mode
            == GpuMode::Virgl),
        writes_text(b, "mode"@, "vulkan"@) ==> (gpu_of(b) matches Some(g) && g.mode
            == GpuMode::Vulkan),
        gpu_of(b) matches Some(g) ==> g.span == b.span && text_kept(b, "address"@, g.address),
{
    reveal_strlit("iso");
    reveal_strlit("floppy");
    reveal_strlit("passthrough");
    reveal_strlit("virgl");
    reveal_strlit("vulkan");
    assert("iso"@.len() == 3 && "iso"@[0] == 'i' && "iso"@[1] == 's');
    assert("floppy"@.len() == 6 && "floppy"@[0] == 'f' && "floppy"@[1] == 'l');
    assert("passthrough"@.len() == 11 && "passthrough"@[0] == 'p' && "passthrough"@[1] == 'a');
    assert("virgl"@.len() == 5 && "virgl"@[0] == 'v' && "virgl"@[1] == 'i');
    assert("vulkan"@.len() == 6 && "vulkan"@[0] == 'v' && "vulkan"@[1] == 'u');
    fields_are_read_as_written(b, "kind"@);
    fields_are_read_as_written(b, "from"@);
    fields_are_read_as_written(b, "label"@);
    fields_are_read_as_written(b, "size"@);
    fields_are_read_as_written(b, "mode"@);
    fields_are_read_as_written(b, "address"@);
}

/// A provision runs its script for the guests it lists; a handler runs its script
/// on its event.
pub proof fn scripts_are_read_as_written(b: Node, label: Seq<char>, run: Seq<char>)
    ensures
        labelled(b, label) ==> (provision_of(b) matches Some(p) && p.script == label),
        provision_of(b) matches Some(p) ==> p.span == b.span && texts_kept(b, "vms"@, p.vms),
        labelled(b, label) && writes_text(b, "run"@, run) ==> (handler_of(b) matches Some(h)
            && h.event == label && h.run == run && h.span == b.span),
        silent(b, "run"@) ==> handler_of(b) is None,
{
    fields_are_read_as_written(b, "vms"@);
    fields_are_read_as_written(b, "run"@);
}

// -- blocks inside blocks ---------------------------------------------------------------

/// The items are what the blocks of this kind declare, in order: those at `at`.
pub open spec fn picked_at<T>(
    all: Seq<T>,
    blocks: Seq<Node>,
    kind: Seq<char>,
    f: spec_fn(Node) -> Option<T>,
    at: Seq<int>,
) -> bool {
    &&& at.len() == all.len()
    &&& forall|k: int, l: int| 0 <= k < l < at.len() ==> #[trigger] at[k] < #[trigger] at[l]
    &&& forall|k: int|
        0 <= k < at.len() ==> {
            let i = #[trigger] at[k];
            &&& 0 <= i < blocks.len()
            &&& blocks[i].kind@ == kind
            &&& f(blocks[i]) == Some(all[k])
        }
    &&& forall|i: int|
        0 <= i < blocks.len() && (#[trigger] blocks[i]).kind@ == kind && f(blocks[i]) is Some
            ==> at.contains(i)
}

/// The items are what the blocks of this kind declare, in order, and all of it.
pub open spec fn picked<T>(
    all: Seq<T>,
    blocks: Seq<Node>,
    kind: Seq<char>,
    f: spec_fn(Node) -> Option<T>,
) -> bool {
    exists|at: Seq<int>| #[trigger] picked_at(all, blocks, kind, f, at)
}

/// The last block of this kind is the one at `i`.
pub open spec fn last_block(blocks: Seq<Node>, kind: Seq<char>, i: int) -> bool {
    &&& 0 <= i < blocks.len()
    &&& blocks[i].kind@ == kind
    &&& forall|j: int| i < j < blocks.len() ==> (#[trigger] blocks[j]).kind@ != kind
}

/// No block is of this kind.
pub open spec fn no_block(blocks: Seq<Node>, kind: Seq<char>) -> bool {
    forall|j: int| 0 <= j < blocks.len() ==> (#[trigger] blocks[j]).kind@ != kind
}

#[verifier::spinoff_prover]
pub(crate) proof fn lemma_kinds()
    ensures
        forall|s: Seq<char>| (#[trigger] kind_of(s) == Kind::Lab) == (s == "lab"@),
        forall|s: Seq<char>| (#[trigger] kind_of(s) == Kind::Template) == (s == "template"@),
        forall|s: Seq<char>| (#[trigger] kind_of(s) == Kind::Segment) == (s == "segment"@),
        forall|s: Seq<char>| (#[trigger] kind_of(s) == Kind::Vm) == (s == "vm"@),
        forall|s: Seq<char>| (#[trigger] kind_of(s) == Kind::Provision) == (s == "provision"@),
        forall|s: Seq<char>| (#[trigger] kind_of(s) == Kind::On) == (s == "on"@),
        forall|s: Seq<char>| (#[trigger] kind_of(s) == Kind::Record) == (s == "record"@),
        forall|s: Seq<char>| (#[trigger] kind_of(s) == Kind::Sinkhole) == (s == "sinkhole"@),
        forall|s: Seq<char>| (#[trigger] kind_of(s) == Kind::Dns) == (s == "dns"@),
        forall|s: Seq<char>| (#[trigger] kind_of(s) == Kind::Connect) == (s == "connect"@),
        forall|s: Seq<char>| (#[trigger] kind_of(s) == Kind::Route) == (s == "route"@),
        forall|s: Seq<char>| (#[trigger] kind_of(s) == Kind::Forward) == (s == "forward"@),
        forall|s: Seq<char>| (#[trigger] kind_of(s) == Kind::Block) == (s == "block"@),
        forall|s: Seq<char>| (#[trigger] kind_of(s) == Kind::Redirect) == (s == "redirect"@),
        forall|s: Seq<char>| (#[trigger] kind_of(s) == Kind::Nic) == (s == "nic"@),
        forall|s: Seq<char>| (#[trigger] kind_of(s) == Kind::Gpu) == (s == "gpu"@),
        forall|s: Seq<char>| (#[trigger] kind_of(s) == Kind::Disk) == (s == "disk"@),
        forall|s: Seq<char>| (#[trigger] kind_of(s) == Kind::Share) == (s == "share"@),
        forall|s: Seq<char>| (#[trigger] kind_of(s) == Kind::Media) == (s == "media"@),
        forall|s: Seq<char>| (#[trigger] kind_of(s) == Kind::Source) == (s == "source"@),
{
    reveal_strlit("lab");
    reveal_strlit("template");
    reveal_strlit("segment");
    reveal_strlit("vm");
    reveal_strlit("provision");
    reveal_strlit("on");
    reveal_strlit("record");
    reveal_strlit("sinkhole");
    reveal_strlit("dns");
    reveal_strlit("connect");
    reveal_strlit("route");
    reveal_strlit("forward");
    reveal_strlit("block");
    reveal_strlit("redirect");
    reveal_strlit("nic");
    reveal_strlit("gpu");
    reveal_strlit("disk");
    reveal_strlit("share");
    reveal_strlit("media");
    reveal_strlit("source");
    assert("lab"@.len() == 3 && "lab"@[0] == 'l' && "lab"@[1] == 'a');
    assert("template"@.len() == 8 && "template"@[0] == 't' && "template"@[1] == 'e');
    assert("segment"@.len() == 7 && "segment"@[0] == 's' && "segment"@[1] == 'e');
    assert("vm"@.len() == 2 && "vm"@[0] == 'v' && "vm"@[1] == 'm');
    assert("provision"@.len() == 9 && "provision"@[0] == 'p' && "provision"@[1] == 'r');
    assert("on"@.len() == 2 && "on"@[0] == 'o' && "on"@[1] == 'n');
    assert("record"@.len() == 6 && "record"@[0] == 'r' && "record"@[1] == 'e');
    assert("sinkhole"@.len() == 8 && "sinkhole"@[0] == 's' && "sinkhole"@[1] == 'i');
    assert("dns"@.len() == 3 && "dns"@[0] == 'd' && "dns"@[1] == 'n');
    assert("connect"@.len() == 7 && "connect"@[0] == 'c' && "connect"@[1] == 'o');
    assert("route"@.len() == 5 && "route"@[0] == 'r' && "route"@[1] == 'o');
    assert("forward"@.len() == 7 && "forward"@[0] == 'f' && "forward"@[1] == 'o');
    assert("block"@.len() == 5 && "block"@[0] == 'b' && "block"@[1] == 'l');
    assert("redirect"@.len() == 8 && "redirect"@[0] == 'r' && "redirect"@[1] == 'e');
    assert("nic"@.len() == 3 && "nic"@[0] == 'n' && "nic"@[1] == 'i');
    assert("gpu"@.len() == 3 && "gpu"@[0] == 'g' && "gpu"@[1] == 'p');
    assert("disk"@.len() == 4 && "disk"@[0] == 'd' && "disk"@[1] == 'i');
    assert("share"@.len() == 5 && "share"@[0] == 's' && "share"@[1] == 'h');
    assert("media"@.len() == 5 && "media"@[0] == 'm' && "media"@[1] == 'e');
    assert("source"@.len() == 6 && "source"@[0] == 's' && "source"@[1] == 'o');
}

pub(crate) proof fn lemma_gathered<T>(
    blocks: Seq<Node>,
    k: Kind,
    kind: Seq<char>,
    f: spec_fn(Node) -> Option<T>,
    g: spec_fn(Node) -> Option<T>,
)
    requires
        forall|s: Seq<char>| (#[trigger] kind_of(s) == k) == (s == kind),
        forall|b: Node| #[trigger] f(b) == g(b),
    ensures
        picked(gather(blocks, k, f), blocks, kind, g),
    decreases blocks.len(),
{
    let all = gather(blocks, k, f);
    if blocks.len() == 0 {
        assert(picked_at(all, blocks, kind, g, Seq::<int>::empty()));
    } else {
        let n = blocks.len() - 1;
        let front = blocks.drop_last();
        let some = gather(front, k, f);
        lemma_gathered(front, k, kind, f, g);
        let at = choose|at: Seq<int>| #[trigger] picked_at(some, front, kind, g, at);
        assert(kind_of(blocks[n].kind@) == k <==> blocks[n].kind@ == kind);
        assert(f(blocks[n]) == g(blocks[n]));
        assert forall|j: int| 0 <= j < at.len() implies {
            let i = #[trigger] at[j];
            &&& 0 <= i < n
            &&& blocks[i].kind@ == kind
            &&& g(blocks[i]) == Some(some[j])
        } by {
            assert(front[at[j]] == blocks[at[j]]);
        }
        if blocks[n].kind@ == kind && g(blocks[n]) is Some {
            let more = at.push(n);
            assert(all == some.push(g(blocks[n])->0));
            assert forall|i: int|
                0 <= i < blocks.len() && (#[trigger] blocks[i]).kind@ == kind && g(
                    blocks[i],
                ) is Some implies more.contains(i) by {
                if i < n {
                    assert(front[i] == blocks[i]);
                    let j = choose|j: int| 0 <= j < at.len() && at[j] == i;
                    assert(more[j] == i);
                } else {
                    assert(more[at.len() as int] == i);
                }
            }
            assert(picked_at(all, blocks, kind, g, more));
        } else {
            assert(all == some);
            assert forall|i: int|
                0 <= i < blocks.len() && (#[trigger] blocks[i]).kind@ == kind && g(
                    blocks[i],
                ) is Some implies at.contains(i) by {
                assert(front[i] == blocks[i]);
            }
            assert(picked_at(all, blocks, kind, g, at));
        }
    }
}

proof fn lemma_last<T>(
    blocks: Seq<Node>,
    k: Kind,
    kind: Seq<char>,
    f: spec_fn(Node) -> Option<T>,
)
    requires
        forall|s: Seq<char>| (#[trigger] kind_of(s) == k) == (s == kind),
    ensures
        forall|i: int| #[trigger]
            last_block(blocks, kind, i) ==> last_of(blocks, k, f) == f(blocks[i]),
        no_block(blocks, kind) ==> last_of(blocks, k, f) is None,
    decreases blocks.len(),
{
    if blocks.len() > 0 {
        let n = blocks.len() - 1;
        let front = blocks.drop_last();
        lemma_last(front, k, kind, f);
        assert(kind_of(blocks[n].kind@) == k <==> blocks[n].kind@ == kind);
        assert forall|i: int| #[trigger] last_block(blocks, kind, i) implies last_of(blocks, k, f)
            == f(blocks[i]) by {
            if i < n {
                assert(blocks[n].kind@ != kind);
                assert forall|j: int| i < j < front.len() implies (#[trigger] front[j]).kind@
                    != kind by {
                    assert(front[j] == blocks[j]);
                }
                assert(last_block(front, kind, i));
                assert(front[i] == blocks[i]);
            }
        }
        if no_block(blocks, kind) {
            assert(blocks[n].kind@ != kind);
            assert forall|j: int| 0 <= j < front.len() implies (#[trigger] front[j]).kind@
                != kind by {
                assert(front[j] == blocks[j]);
            }
            assert(no_block(front, kind));
        }
    }
}

/// What the `connect` blocks inside a block name.
pub open spec fn connections(b: Node, all: Seq<crate::config::model::ConnectView>) -> bool {
    picked(all, b.blocks@, "connect"@, |c: Node| connect_of(c))
}

/// A segment has the name on its label, what its fields say, and what the blocks
/// inside it declare; without a field it hands out addresses but has no way out.
#[verifier::spinoff_prover]
#[verifier::rlimit(40)]
pub proof fn segment_is_read_as_written(b: Node, name: Seq<char>)
    ensures
        labelled(b, name) ==> segment_of(b) is Some,
        segment_of(b) matches Some(s) ==> {
            &&& s.span == b.span
            &&& labelled(b, name) ==> s.name == name
            &&& net_kept(b, "subnet"@, s.subnet)
            &&& flag_kept_or(b, "global"@, false, s.global)
            &&& flag_kept_or(b, "dhcp"@, true, s.dhcp)
            &&& flag_kept_or(b, "nat"@, false, s.nat)
            &&& texts_kept(b, "routes_to"@, s.routes_to)
            &&& silent(b, "mtu"@) ==> s.mtu is None
            &&& forall|n: int| #[trigger]
                writes_number(b, "mtu"@, n) ==> if 576 <= n <= 65535 {
                    s.mtu matches Some(m) && m == n
                } else {
                    s.mtu is None
                }
            &&& forall|i: int| #[trigger]
                last_block(b.blocks@, "dns"@, i) ==> s.dns == dns_of(b.blocks@[i])
            &&& no_block(b.blocks@, "dns"@) ==> s.dns.server is None && s.dns.enabled
                && !s.dns.declared
            &&& picked(s.routes, b.blocks@, "route"@, |c: Node| route_of(c))
            &&& picked(s.records, b.blocks@, "record"@, |c: Node| record_of(c))
            &&& picked(s.forwards, b.blocks@, "forward"@, |c: Node| forward_of(c))
            &&& picked(s.block_rules, b.blocks@, "block"@, |c: Node| block_rule_of(c))
            &&& picked(s.redirect_rules, b.blocks@, "redirect"@, |c: Node| redirect_rule_of(c))
            &&& picked(s.sinkholes, b.blocks@, "sinkhole"@, |c: Node| sinkhole_of(c))
            &&& exists|all: Seq<crate::config::model::ConnectView>| #[trigger]
                connections(b, all) && s.connect == if all.len() > 0 {
                    Some(all[all.len() - 1])
                } else {
                    None
                }
        },
{
    lemma_kinds();
    fields_are_read_as_written(b, "subnet"@);
    fields_are_read_as_written(b, "global"@);
    fields_are_read_as_written(b, "dhcp"@);
    fields_are_read_as_written(b, "nat"@);
    fields_are_read_as_written(b, "routes_to"@);
    fields_are_read_as_written(b, "mtu"@);
    lemma_last(b.blocks@, Kind::Dns, "dns"@, dns_reader());
    lemma_gathered(b.blocks@, Kind::Route, "route"@, route_reader(), |c: Node| route_of(c));
    lemma_gathered(b.blocks@, Kind::Record, "record"@, record_reader(), |c: Node| record_of(c));
    lemma_gathered(b.blocks@, Kind::Forward, "forward"@, forward_reader(), |c: Node| forward_of(c));
    lemma_gathered(
        b.blocks@,
        Kind::Block,
        "block"@,
        block_rule_reader(),
        |c: Node| block_rule_of(c),
    );
    lemma_gathered(
        b.blocks@,
        Kind::Redirect,
        "redirect"@,
        redirect_rule_reader(),
        |c: Node| redirect_rule_of(c),
    );
    lemma_gathered(
        b.blocks@,
        Kind::Sinkhole,
        "sinkhole"@,
        sinkhole_reader(),
        |c: Node| sinkhole_of(c),
    );
    lemma_gathered(b.blocks@, Kind::Connect, "connect"@, connect_reader(), |c: Node| connect_of(c));
    assert(connections(b, gather(b.blocks@, Kind::Connect, connect_reader())));
}

/// The firmware that a block asks for.
pub open spec fn firmware_kept(b: Node, o: Option<Firmware>) -> bool {
    &&& silent(b, "firmware"@) ==> o is None
    &&& writes_text(b, "firmware"@, "ovmf"@) ==> o == Some(Firmware::Ovmf)
    &&& writes_text(b, "firmware"@, "seabios"@) ==> o == Some(Firmware::Seabios)
}

proof fn lemma_firmware(b: Node)
    ensures
        firmware_kept(b, choice_of::<Firmware>(b, "firmware"@)),
{
    reveal_strlit("ovmf");
    reveal_strlit("seabios");
    assert("ovmf"@.len() == 4);
    assert("seabios"@.len() == 7);
    fields_are_read_as_written(b, "firmware"@);
}

/// A guest has the name on its label, is from the template it names, has what its
/// fields say, and the devices that the blocks inside it declare.
#[verifier::spinoff_prover]
#[verifier::rlimit(60)]
pub proof fn guest_is_read_as_written(
    b: Node,
    name: Seq<char>,
    template: Seq<char>,
    arches: Seq<Seq<char>>,
)
    ensures
        labelled(b, name) && writes_text(b, "template"@, template) ==> (vm_of(b, arches) is Some
            <==> template_ref_value(template, arches) is Some),
        silent(b, "template"@) ==> vm_of(b, arches) is None,
        vm_of(b, arches) matches Some(v) ==> {
            &&& v.span == b.span
            &&& labelled(b, name) ==> v.name == name
            &&& writes_text(b, "template"@, template) ==> template_ref_value(template, arches)
                == Some(v.template)
            &&& text_kept(b, "arch"@, v.arch)
            &&& text_kept(b, "profile"@, v.profile)
            &&& silent(b, "cpus"@) ==> v.cpus is None
            &&& forall|n: int| #[trigger]
                writes_number(b, "cpus"@, n) ==> if 1 <= n <= 0xFFFF_FFFF {
                    v.cpus matches Some(m) && m == n
                } else {
                    v.cpus is None
                }
            &&& size_kept(b, "memory"@, v.memory)
            &&& size_kept(b, "disk"@, v.disk)
            &&& text_kept(b, "cdrom"@, v.cdrom)
            &&& text_kept(b, "floppy"@, v.floppy)
            &&& texts_kept(b, "depends_on"@, v.depends_on)
            &&& flag_kept_or(b, "nested"@, false, v.nested)
            &&& flag_kept(b, "gui"@, v.gui)
            &&& text_kept(b, "display"@, v.display)
            &&& firmware_kept(b, v.firmware)
            &&& flag_kept(b, "tpm"@, v.tpm)
            &&& flag_kept(b, "secure_boot"@, v.secure_boot)
            &&& texts_kept(b, "qemu_args"@, v.qemu_args)
            &&& forall|i: int| #[trigger]
                last_block(b.blocks@, "gpu"@, i) ==> v.gpu == gpu_of(b.blocks@[i])
            &&& no_block(b.blocks@, "gpu"@) ==> v.gpu is None
            &&& picked(v.nics, b.blocks@, "nic"@, |c: Node| Some(nic_of(c)))
            &&& picked(v.extra_disks, b.blocks@, "disk"@, |c: Node| disk_block_of(c))
            &&& picked(v.shares, b.blocks@, "share"@, |c: Node| share_of(c))
            &&& picked(v.media, b.blocks@, "media"@, |c: Node| media_of(c))
        },
{
    lemma_kinds();
    lemma_firmware(b);
    fields_are_read_as_written(b, "template"@);
    fields_are_read_as_written(b, "arch"@);
    fields_are_read_as_written(b, "profile"@);
    fields_are_read_as_written(b, "cpus"@);
    fields_are_read_as_written(b, "memory"@);
    fields_are_read_as_written(b, "disk"@);
    fields_are_read_as_written(b, "cdrom"@);
    fields_are_read_as_written(b, "floppy"@);
    fields_are_read_as_written(b, "depends_on"@);
    fields_are_read_as_written(b, "nested"@);
    fields_are_read_as_written(b, "gui"@);
    fields_are_read_as_written(b, "display"@);
    fields_are_read_as_written(b, "tpm"@);
    fields_are_read_as_written(b, "secure_boot"@);
    fields_are_read_as_written(b, "qemu_args"@);
    lemma_last(b.blocks@, Kind::Gpu, "gpu"@, gpu_reader());
    lemma_gathered(b.blocks@, Kind::Nic, "nic"@, nic_reader(), |c: Node| Some(nic_of(c)));
    lemma_gathered(b.blocks@, Kind::Disk, "disk"@, disk_block_reader(), |c: Node| disk_block_of(c));
    lemma_gathered(b.blocks@, Kind::Share, "share"@, share_reader(), |c: Node| share_of(c));
    lemma_gathered(b.blocks@, Kind::Media, "media"@, media_reader(), |c: Node| media_of(c));
}

/// A template is built from the file that its source names, by a path or by an
/// address with a checksum, or from another template of the local store, or from
/// nothing; a source that names two files or none is none.
#[verifier::spinoff_prover]
#[verifier::rlimit(40)]
pub proof fn source_is_read_as_written(
    b: Node,
    path: Seq<char>,
    url: Seq<char>,
    sum: Seq<char>,
    arches: Seq<Seq<char>>,
)
    ensures
        labelled(b, "iso"@) && writes_text(b, "path"@, path) && silent(b, "url"@) ==> source_of(
            b,
            arches,
        ) == Some(TemplateSourceView::Iso(ArtefactSourceView::Path { path, span: b.span })),
        labelled(b, "qcow2"@) && writes_text(b, "path"@, path) && silent(b, "url"@) ==> source_of(
            b,
            arches,
        ) == Some(TemplateSourceView::Qcow2(ArtefactSourceView::Path { path, span: b.span })),
        labelled(b, "iso"@) && writes_text(b, "url"@, url) && silent(b, "path"@) && writes_text(
            b,
            "sha256"@,
            sum,
        ) ==> source_of(b, arches) == Some(
            TemplateSourceView::Iso(ArtefactSourceView::Url { url, sha256: sum, span: b.span }),
        ),
        labelled(b, "qcow2"@) && writes_text(b, "url"@, url) && silent(b, "path"@) && writes_text(
            b,
            "sha256"@,
            sum,
        ) ==> source_of(b, arches) == Some(
            TemplateSourceView::Qcow2(ArtefactSourceView::Url { url, sha256: sum, span: b.span }),
        ),
        (labelled(b, "iso"@) || labelled(b, "qcow2"@)) && silent(b, "path"@) && (silent(b, "url"@)
            || silent(b, "sha256"@)) ==> source_of(b, arches) is None,
        (labelled(b, "iso"@) || labelled(b, "qcow2"@)) && writes_text(b, "path"@, path)
            && writes_text(b, "url"@, url) ==> source_of(b, arches) is None,
        labelled(b, "template"@) && writes_text(b, "from"@, path) && template_ref_value(
            path,
            arches,
        ) is Some ==> source_of(b, arches) == if template_ref_value(path, arches)->0 is Store {
            Some(
                TemplateSourceView::Template {
                    from: template_ref_value(path, arches)->0,
                    span: b.span,
                },
            )
        } else {
            None
        },
        labelled(b, "template"@) && silent(b, "from"@) ==> source_of(b, arches) is None,
        labelled(b, "scratch"@) ==> source_of(b, arches) == Some(
            TemplateSourceView::Scratch { span: b.span },
        ),
{
    reveal_strlit("iso");
    reveal_strlit("qcow2");
    reveal_strlit("template");
    reveal_strlit("scratch");
    assert("iso"@.len() == 3);
    assert("qcow2"@.len() == 5);
    assert("template"@.len() == 8);
    assert("scratch"@.len() == 7);
    fields_are_read_as_written(b, "path"@);
    fields_are_read_as_written(b, "url"@);
    fields_are_read_as_written(b, "sha256"@);
    fields_are_read_as_written(b, "from"@);
}

/// A template has the name on its label, a known architecture and a version, is
/// built from its last source, and has what its fields and the blocks inside it
/// say.
#[verifier::spinoff_prover]
#[verifier::rlimit(60)]
pub proof fn template_is_read_as_written(
    b: Node,
    name: Seq<char>,
    arch: Seq<char>,
    version: Seq<char>,
    i: int,
    arches: Seq<Seq<char>>,
)
    ensures
        labelled(b, name) && writes_text(b, "arch"@, arch) && writes_text(b, "version"@, version)
            && last_block(b.blocks@, "source"@, i) ==> (template_of(b, arches) is Some
            <==> arches.contains(arch) && source_of(b.blocks@[i], arches) is Some),
        silent(b, "arch"@) || silent(b, "version"@) || no_block(b.blocks@, "source"@)
            ==> template_of(b, arches) is None,
        template_of(b, arches) matches Some(t) ==> {
            &&& t.span == b.span
            &&& labelled(b, name) ==> t.name == name
            &&& text_kept(b, "arch"@, Some(t.arch))
            &&& text_kept(b, "version"@, Some(t.version))
            &&& last_block(b.blocks@, "source"@, i) ==> source_of(b.blocks@[i], arches) == Some(
                t.source,
            )
            &&& text_kept(b, "registry"@, t.registry)
            &&& text_kept(b, "profile"@, t.profile)
            &&& silent(b, "cpus"@) ==> t.cpus is None
            &&& forall|n: int| #[trigger]
                writes_number(b, "cpus"@, n) ==> if 0 <= n <= 0xFFFF_FFFF {
                    t.cpus matches Some(m) && m == n
                } else {
                    t.cpus is None
                }
            &&& size_kept(b, "memory"@, t.memory)
            &&& size_kept(b, "disk"@, t.disk)
            &&& text_kept(b, "display"@, t.display)
            &&& firmware_kept(b, t.firmware)
            &&& flag_kept(b, "tpm"@, t.tpm)
            &&& flag_kept(b, "secure_boot"@, t.secure_boot)
            &&& flag_kept_or(b, "nested"@, false, t.nested)
            &&& flag_kept_or(b, "gui"@, false, t.gui)
            &&& texts_kept(b, "qemu_args"@, t.qemu_args)
            &&& text_kept(b, "first_boot"@, t.first_boot)
            &&& picked(t.media, b.blocks@, "media"@, |c: Node| media_of(c))
            &&& picked(t.provisions, b.blocks@, "provision"@, |c: Node| provision_of(c))
            &&& picked(t.nics, b.blocks@, "nic"@, |c: Node| Some(nic_of(c)))
            &&& picked(t.extra_disks, b.blocks@, "disk"@, |c: Node| disk_block_of(c))
        },
{
    lemma_kinds();
    lemma_firmware(b);
    fields_are_read_as_written(b, "arch"@);
    fields_are_read_as_written(b, "version"@);
    fields_are_read_as_written(b, "registry"@);
    fields_are_read_as_written(b, "profile"@);
    fields_are_read_as_written(b, "cpus"@);
    fields_are_read_as_written(b, "memory"@);
    fields_are_read_as_written(b, "disk"@);
    fields_are_read_as_written(b, "display"@);
    fields_are_read_as_written(b, "tpm"@);
    fields_are_read_as_written(b, "secure_boot"@);
    fields_are_read_as_written(b, "nested"@);
    fields_are_read_as_written(b, "gui"@);
    fields_are_read_as_written(b, "qemu_args"@);
    fields_are_read_as_written(b, "first_boot"@);
    lemma_last(b.blocks@, Kind::Source, "source"@, source_reader(arches));
    lemma_gathered(b.blocks@, Kind::Media, "media"@, media_reader(), |c: Node| media_of(c));
    lemma_gathered(
        b.blocks@,
        Kind::Provision,
        "provision"@,
        provision_reader(),
        |c: Node| provision_of(c),
    );
    lemma_gathered(b.blocks@, Kind::Nic, "nic"@, nic_reader(), |c: Node| Some(nic_of(c)));
    lemma_gathered(b.blocks@, Kind::Disk, "disk"@, disk_block_reader(), |c: Node| disk_block_of(c));
}

/// A lab has the name on its label and what the blocks inside it declare.
#[verifier::spinoff_prover]
#[verifier::rlimit(40)]
pub proof fn lab_is_read_as_written(b: Node, name: Seq<char>, arches: Seq<Seq<char>>)
    ensures
        labelled(b, name) ==> lab_of(b, arches) is Some,
        lab_of(b, arches) matches Some(l) ==> {
            &&& l.span == b.span
            &&& labelled(b, name) ==> l.name == name
            &&& flag_kept(b, "gui"@, l.gui)
            &&& picked(l.segments, b.blocks@, "segment"@, |c: Node| segment_of(c))
            &&& picked(l.vms, b.blocks@, "vm"@, |c: Node| vm_of(c, arches))
            &&& picked(l.provisions, b.blocks@, "provision"@, |c: Node| provision_of(c))
            &&& picked(l.handlers, b.blocks@, "on"@, |c: Node| handler_of(c))
            &&& picked(l.records, b.blocks@, "record"@, |c: Node| record_of(c))
            &&& picked(l.sinkholes, b.blocks@, "sinkhole"@, |c: Node| sinkhole_of(c))
        },
{
    lemma_kinds();
    fields_are_read_as_written(b, "gui"@);
    let all = b.blocks@;
    lemma_gathered(all, Kind::Segment, "segment"@, segment_reader(), |c: Node| segment_of(c));
    lemma_gathered(all, Kind::Vm, "vm"@, vm_reader(arches), |c: Node| vm_of(c, arches));
    lemma_gathered(
        all,
        Kind::Provision,
        "provision"@,
        provision_reader(),
        |c: Node| provision_of(c),
    );
    lemma_gathered(all, Kind::On, "on"@, handler_reader(), |c: Node| handler_of(c));
    lemma_gathered(all, Kind::Record, "record"@, record_reader(), |c: Node| record_of(c));
    lemma_gathered(all, Kind::Sinkhole, "sinkhole"@, sinkhole_reader(), |c: Node| sinkhole_of(c));
}

/// What the `lab` blocks of a file declare.
pub open spec fn labs_in(
    blocks: Seq<Node>,
    arches: Seq<Seq<char>>,
    all: Seq<crate::config::model::LabView>,
) -> bool {
    picked(all, blocks, "lab"@, |c: Node| lab_of(c, arches))
}

/// A lab file is its one lab and the templates beside it.
pub proof fn lab_file_is_read_as_written(
    blocks: Seq<Node>,
    root: Seq<char>,
    arches: Seq<Seq<char>>,
)
    ensures
        exists|all: Seq<crate::config::model::LabView>| #[trigger]
            labs_in(blocks, arches, all) && (lab_file_of(blocks, root, arches) is Some <==> all.len()
                == 1) && (lab_file_of(blocks, root, arches) matches Some(f) ==> f.lab == all[0]),
        lab_file_of(blocks, root, arches) matches Some(f) ==> f.root == root && picked(
            f.templates,
            blocks,
            "template"@,
            |c: Node| template_of(c, arches),
        ),
{
    lemma_kinds();
    lemma_gathered(blocks, Kind::Lab, "lab"@, lab_reader(arches), |c: Node| lab_of(c, arches));
    lemma_gathered(
        blocks,
        Kind::Template,
        "template"@,
        template_reader(arches),
        |c: Node| template_of(c, arches),
    );
    assert(labs_in(blocks, arches, gather(blocks, Kind::Lab, lab_reader(arches))));
}

} // verus!
