//! When a lab validates: exactly when it keeps these rules.

use vstd::prelude::*;

use crate::config::cycles::{closed_walk, cycle_issues, cycle_reported_iff_cyclic, is_vm};
use crate::config::issue::{no_issues, IssueView};
use crate::config::model::{
    ArtefactSourceView, DiskBlockView, GpuMode, LabFileView, LabView, NicView, SegmentView,
    ShareView, TemplateDefView, TemplateRefView, TemplateSourceView, VmView,
};
use crate::config::validate::{
    build_scripts, depends_in, disk_check, disks_in, each, find_segment, forwards_from,
    handler_checks, handler_scripts, ips_before, is_dns_label, is_segment, macs_before,
    media_check, media_in, nic_check, nic_ips, nic_macs, nic_segment, nics_in, overlaps_with,
    port_checks, ports_before, ports_in, ports_of, provision_checks, provision_scripts,
    routes_from, scopes_in, script_check, script_error, segment_check, segment_checks,
    segment_repeats, share_check, shares_in, sinkholes_in, source_check, static_ip_check,
    template_check, template_checks, template_repeats, template_script_check, template_scripts,
    validation, vm_check, vm_checks, vm_repeats, vm_template_check, CatalogueView, FactsView,
};
use crate::text::lemma_text_le_total;

verus! {

// -- the rules ----------------------------------------------------------------------------

/// A name that can be part of a hostname: 1 to 63 letters, digits and hyphens,
/// no hyphen first or last.
pub open spec fn good_label(name: Seq<char>) -> bool {
    &&& 1 <= name.len() <= 63
    &&& name[0] != '-'
    &&& name[name.len() - 1] != '-'
    &&& forall|i: int|
        0 <= i < name.len() ==> {
            let c = #[trigger] name[i];
            ('a' <= c <= 'z') || ('A' <= c <= 'Z') || ('0' <= c <= '9') || c == '-'
        }
}

/// Where a guest comes from: a guest from nothing says for which known
/// architecture and profile it is and how large its disk is; one from the store
/// is of a template that is there, for no other architecture, and has no disk of
/// its own; one from a registry says for which architecture.
pub open spec fn good_origin(v: VmView, facts: FactsView, arches: Seq<Seq<char>>) -> bool {
    match v.template {
        TemplateRefView::Scratch => (v.arch matches Some(a) && arches.contains(a)) && v.profile is Some
            && v.disk is Some,
        TemplateRefView::Store { arch, name, version } => (v.arch matches Some(a) ==> a == arch)
            && facts.templates.contains((arch, name, version)) && v.disk is None,
        TemplateRefView::Registry { .. } => v.arch is Some,
    }
}

/// A network card is on one declared segment or on the built-in one, and a
/// static address of it lies in the declared subnet of its segment and is
/// neither the first, the second nor the last address there.
pub open spec fn good_card(lab: LabView, n: NicView) -> bool {
    &&& n.nat <==> n.segment is None
    &&& n.segment matches Some(name) ==> is_segment(lab, name)
    &&& n.ip matches Some(ip) ==> !n.nat && (find_segment(
        lab.segments,
        n.segment->0,
    ) matches Some(s) && s.subnet matches Some(net) && net.first() <= ip.bits <= net.last()
        && ip.bits != net.first() && ip.bits != net.last() && ip.bits != net.first() + 1)
}

/// Whether one card comes before another in the lab file.
pub open spec fn before(j: int, l: int, i: int, k: int) -> bool {
    j < i || (j == i && l < k)
}

/// A share is of a folder and has a name.
pub open spec fn good_share(s: ShareView, facts: FactsView) -> bool {
    facts.dirs.contains(s.host) && s.name.len() > 0
}

/// An additional disk has a size, or a folder that it is filled from, which
/// then exists.
pub open spec fn good_disk(d: DiskBlockView, facts: FactsView) -> bool {
    &&& d.size is Some || d.from is Some
    &&& d.from matches Some(from) ==> facts.dirs.contains(from)
}

/// A script exists and compiles.
pub open spec fn good_script(path: Seq<char>, facts: FactsView) -> bool {
    &&& facts.files.contains(path)
    &&& forall|i: int|
        0 <= i < facts.script_errors.len() ==> (#[trigger] facts.script_errors[i]).0 != path
}

/// A segment has a good name of its own, routes to segments, forwards to guests,
/// and has no empty sinkhole.
pub open spec fn good_segment(lab: LabView, i: int) -> bool {
    let s = lab.segments[i];
    &&& good_label(s.name)
    &&& forall|j: int| 0 <= j < i ==> (#[trigger] lab.segments[j]).name != s.name
    &&& forall|k: int| 0 <= k < s.routes_to.len() ==> is_segment(lab, #[trigger] s.routes_to[k])
    &&& forall|k: int| 0 <= k < s.forwards.len() ==> is_vm(lab, (#[trigger] s.forwards[k]).vm)
    &&& forall|k: int| 0 <= k < s.sinkholes.len() ==> (#[trigger] s.sinkholes[k]).pattern.len() > 0
}

/// A guest has a good name of its own and a good origin, a known profile, good
/// cards, depends on guests, and all the host files it is made from exist; one
/// that shares folders has a card to reach them by.
pub open spec fn good_guest(f: LabFileView, i: int, facts: FactsView, cat: CatalogueView) -> bool {
    let v = f.lab.vms[i];
    &&& good_label(v.name)
    &&& forall|j: int| 0 <= j < i ==> (#[trigger] f.lab.vms[j]).name != v.name
    &&& good_origin(v, facts, cat.arches)
    &&& v.profile matches Some(p) ==> facts.profiles.contains(p)
    &&& forall|k: int| 0 <= k < v.nics.len() ==> good_card(f.lab, #[trigger] v.nics[k])
    &&& forall|k: int| 0 <= k < v.depends_on.len() ==> is_vm(f.lab, #[trigger] v.depends_on[k])
    &&& v.shares.len() > 0 ==> v.nics.len() > 0
    &&& forall|k: int| 0 <= k < v.shares.len() ==> good_share(#[trigger] v.shares[k], facts)
    &&& forall|k: int|
        0 <= k < v.media.len() ==> facts.dirs.contains((#[trigger] v.media[k]).from)
    &&& forall|k: int| 0 <= k < v.extra_disks.len() ==> good_disk(#[trigger] v.extra_disks[k], facts)
    &&& v.gpu matches Some(g) ==> g.mode == GpuMode::Passthrough ==> g.address is Some
    &&& v.cdrom matches Some(p) ==> facts.files.contains(p)
    &&& v.floppy matches Some(p) ==> facts.files.contains(p)
}

/// What a template is built from exists.
pub open spec fn good_source(t: TemplateDefView, facts: FactsView) -> bool {
    match t.source {
        TemplateSourceView::Template { from, .. } => from matches TemplateRefView::Store {
            arch,
            name,
            version,
        } ==> facts.templates.contains((arch, name, version)),
        TemplateSourceView::Iso(a) => a matches ArtefactSourceView::Path { path, .. }
            ==> facts.files.contains(path),
        TemplateSourceView::Qcow2(a) => a matches ArtefactSourceView::Path { path, .. }
            ==> facts.files.contains(path),
        TemplateSourceView::Scratch { .. } => t.disk is Some,
    }
}

/// A template is defined once, has a version, a known profile and good scripts,
/// and what it is built from exists.
pub open spec fn good_template(f: LabFileView, i: int, facts: FactsView) -> bool {
    let t = f.templates[i];
    &&& forall|j: int|
        0 <= j < i ==> (#[trigger] f.templates[j]).arch != t.arch || f.templates[j].name != t.name
            || f.templates[j].version != t.version
    &&& t.version.len() > 0
    &&& t.profile matches Some(p) ==> facts.profiles.contains(p)
    &&& good_source(t, facts)
    &&& forall|k: int|
        0 <= k < t.media.len() ==> facts.dirs.contains((#[trigger] t.media[k]).from)
    &&& forall|k: int| 0 <= k < t.extra_disks.len() ==> good_disk(#[trigger] t.extra_disks[k], facts)
    &&& forall|k: int|
        0 <= k < t.provisions.len() ==> good_script((#[trigger] t.provisions[k]).script, facts)
    &&& t.first_boot matches Some(p) ==> good_script(p, facts)
}

/// One network lies wholly behind the other.
pub open spec fn apart(a: crate::net::cidr::Ipv4Net, b: crate::net::cidr::Ipv4Net) -> bool {
    a.last() < b.first() || b.last() < a.first()
}

/// No two declared subnets have an address in common.
pub open spec fn subnets_apart(lab: LabView) -> bool {
    forall|i: int, j: int|
        0 <= i < lab.segments.len() && 0 <= j < lab.segments.len() && i != j && (
        #[trigger] lab.segments[i]).subnet is Some && (#[trigger] lab.segments[j]).subnet is Some
            ==> apart(lab.segments[i].subnet->0, lab.segments[j].subnet->0)
}

/// No two forwards take the same host port.
pub open spec fn ports_apart(lab: LabView) -> bool {
    forall|j: int, l: int, i: int, k: int|
        0 <= j < lab.segments.len() && 0 <= l < lab.segments[j].forwards.len() && 0 <= i
            < lab.segments.len() && 0 <= k < lab.segments[i].forwards.len() && before(j, l, i, k)
            ==> (#[trigger] lab.segments[j].forwards[l]).host_port != (
        #[trigger] lab.segments[i].forwards[k]).host_port
}

/// No two cards have the same static address, and no two declare the same
/// hardware address.
pub open spec fn cards_apart(lab: LabView) -> bool {
    forall|j: int, l: int, i: int, k: int|
        0 <= j < lab.vms.len() && 0 <= l < lab.vms[j].nics.len() && 0 <= i < lab.vms.len() && 0 <= k
            < lab.vms[i].nics.len() && before(j, l, i, k) ==> {
            let a = #[trigger] lab.vms[j].nics[l];
            let b = #[trigger] lab.vms[i].nics[k];
            &&& a.ip is Some ==> a.ip != b.ip
            &&& a.mac is Some ==> a.mac != b.mac
        }
}

/// What a lab file has to keep to.
pub open spec fn good_lab(f: LabFileView, facts: FactsView, cat: CatalogueView) -> bool {
    &&& good_label(f.lab.name)
    &&& forall|i: int| 0 <= i < f.lab.segments.len() ==> #[trigger] good_segment(f.lab, i)
    &&& subnets_apart(f.lab)
    &&& ports_apart(f.lab)
    &&& forall|i: int| 0 <= i < f.lab.vms.len() ==> #[trigger] good_guest(f, i, facts, cat)
    &&& cards_apart(f.lab)
    &&& !exists|c: Seq<Seq<char>>| closed_walk(f.lab, c)
    &&& forall|i: int, k: int|
        0 <= i < f.lab.provisions.len() && 0 <= k < f.lab.provisions[i].vms.len() ==> is_vm(
            f.lab,
            #[trigger] f.lab.provisions[i].vms[k],
        )
    &&& forall|i: int|
        0 <= i < f.lab.provisions.len() ==> good_script(
            (#[trigger] f.lab.provisions[i]).script,
            facts,
        )
    &&& forall|i: int|
        0 <= i < f.lab.handlers.len() ==> cat.events.contains(
            (#[trigger] f.lab.handlers[i]).event,
        ) && good_script(f.lab.handlers[i].run, facts)
    &&& forall|i: int| 0 <= i < f.templates.len() ==> #[trigger] good_template(f, i, facts)
}

// -- one check at a time ------------------------------------------------------------------

proof fn lemma_each(n: int, f: spec_fn(int) -> Seq<IssueView>)
    ensures
        each(n, f).len() == 0 <==> forall|k: int| 0 <= k < n ==> (#[trigger] f(k)).len() == 0,
    decreases n,
{
    if n > 0 {
        lemma_each(n - 1, f);
        assert(f(n - 1).len() == f(n - 1).len());
    }
}

proof fn lemma_label(name: Seq<char>)
    ensures
        is_dns_label(name) <==> good_label(name),
{
}

proof fn lemma_script_error(errors: Seq<(Seq<char>, Seq<char>)>, path: Seq<char>)
    ensures
        script_error(errors, path) is None <==> forall|i: int|
            0 <= i < errors.len() ==> (#[trigger] errors[i]).0 != path,
    decreases errors.len(),
{
    if errors.len() > 0 {
        let rest = errors.skip(1);
        lemma_script_error(rest, path);
        if errors[0].0 != path {
            if forall|i: int| 0 <= i < rest.len() ==> (#[trigger] rest[i]).0 != path {
                assert forall|i: int| 0 <= i < errors.len() implies (#[trigger] errors[i]).0
                    != path by {
                    if i > 0 {
                        assert(rest[i - 1] == errors[i]);
                    }
                }
            }
            if forall|i: int| 0 <= i < errors.len() ==> (#[trigger] errors[i]).0 != path {
                assert forall|i: int| 0 <= i < rest.len() implies (#[trigger] rest[i]).0
                    != path by {
                    assert(rest[i] == errors[i + 1]);
                }
            }
        }
    }
}

proof fn lemma_script(path: Seq<char>, span: crate::config::model::Span, facts: FactsView)
    ensures
        script_check(path, span, facts).len() == 0 <==> good_script(path, facts),
{
    lemma_script_error(facts.script_errors, path);
}

/// A segment is found by its name, if there is one of that name.
pub proof fn lemma_find_segment(segs: Seq<SegmentView>, name: Seq<char>)
    ensures
        find_segment(segs, name) matches Some(s) ==> s.name == name && segs.contains(s),
        find_segment(segs, name) is Some <==> exists|i: int|
            0 <= i < segs.len() && #[trigger] segs[i].name == name,
    decreases segs.len(),
{
    if segs.len() > 0 {
        let t = segs.skip(1);
        lemma_find_segment(t, name);
        assert(segs.contains(segs[0]));
        if let Some(s) = find_segment(t, name) {
            let i = choose|i: int| 0 <= i < t.len() && t[i] == s;
            assert(segs[i + 1] == s);
        }
        if exists|i: int| 0 <= i < t.len() && #[trigger] t[i].name == name {
            let i = choose|i: int| 0 <= i < t.len() && #[trigger] t[i].name == name;
            assert(segs[i + 1].name == name);
        }
        if exists|i: int| 0 <= i < segs.len() && #[trigger] segs[i].name == name {
            let i = choose|i: int| 0 <= i < segs.len() && #[trigger] segs[i].name == name;
            if i > 0 {
                assert(t[i - 1].name == name);
            }
        }
    }
}

proof fn lemma_placed(lab: LabView, n: NicView)
    ensures
        nic_segment(lab, n) is Ok <==> (n.nat <==> n.segment is None) && (n.segment matches Some(
            name,
        ) ==> is_segment(lab, name)),
        good_card(lab, n) ==> nic_segment(lab, n) is Ok,
{
    if let Some(name) = n.segment {
        lemma_find_segment(lab.segments, name);
    }
}

proof fn lemma_card(
    lab: LabView,
    n: NicView,
    ips: Seq<crate::net::addr::Ipv4Addr>,
    macs: Seq<crate::net::addr::MacAddr>,
)
    ensures
        nic_check(lab, n, ips, macs).len() == 0 <==> good_card(lab, n) && (n.ip matches Some(ip)
            ==> !ips.contains(ip)) && (n.mac matches Some(mac) ==> !macs.contains(mac)),
{
    lemma_placed(lab, n);
    if nic_segment(lab, n) is Ok && n.ip is Some {
        let seg = nic_segment(lab, n)->Ok_0;
        let ip = n.ip->0;
        if let Some(s) = seg {
            if let Some(net) = s.subnet {
                let gateway = crate::config::validate::gateway_of(net);
                lemma_first(net);
                assert(ip == gateway <==> ip.bits == gateway.bits);
            }
        }
        assert(static_ip_check(ip, seg, n.span).len() == 0 <==> good_card(lab, n));
    }
}

proof fn lemma_origin(f: LabFileView, v: VmView, facts: FactsView, arches: Seq<Seq<char>>)
    ensures
        vm_template_check(f, v, facts, arches).len() == 0 <==> good_origin(v, facts, arches),
{
}

proof fn lemma_first(net: crate::net::cidr::Ipv4Net)
    ensures
        0 <= net.first() <= 0xFFFF_FFFF,
        net.first() <= net.last(),
{
    let k = crate::net::cidr::block_size(net.prefix());
    let a = net.base().bits;
    vstd::arithmetic::power2::lemma_pow2_pos((32 - net.prefix()) as nat);
    vstd::arithmetic::div_mod::lemma_mod_bound(a as int, k);
    vstd::arithmetic::div_mod::lemma_mod_decreases(a as nat, k as nat);
}

/// The cards of a guest, apart from what other cards have.
spec fn cards_checked(lab: LabView, i: int) -> bool {
    forall|k: int|
        0 <= k < lab.vms[i].nics.len() ==> (#[trigger] nics_in(lab, i)(k)).len() == 0
}

proof fn lemma_guest(f: LabFileView, i: int, facts: FactsView, cat: CatalogueView)
    requires
        0 <= i < f.lab.vms.len(),
    ensures
        vm_check(f, i, facts, cat).len() == 0 ==> cards_checked(f.lab, i),
        vm_check(f, i, facts, cat).len() == 0 && (forall|k: int|
            0 <= k < f.lab.vms[i].nics.len() ==> good_card(f.lab, #[trigger] f.lab.vms[i].nics[k]))
            ==> good_guest(f, i, facts, cat),
        good_guest(f, i, facts, cat) && cards_checked(f.lab, i) ==> vm_check(
            f,
            i,
            facts,
            cat,
        ).len() == 0,
{
    let v = f.lab.vms[i];
    lemma_label(v.name);
    lemma_origin(f, v, facts, cat.arches);
    lemma_each(v.nics.len() as int, nics_in(f.lab, i));
    lemma_each(v.depends_on.len() as int, depends_in(f.lab, i));
    lemma_each(v.shares.len() as int, shares_in(v, facts));
    lemma_each(v.media.len() as int, media_in(v.media, facts));
    lemma_each(v.extra_disks.len() as int, disks_in(v.extra_disks, facts));
    assert(vm_repeats(f.lab, i) <==> !(forall|j: int|
        0 <= j < i ==> (#[trigger] f.lab.vms[j]).name != v.name));
    assert forall|k: int| 0 <= k < v.depends_on.len() implies (#[trigger] depends_in(f.lab, i)(
        k,
    ).len() == 0) == is_vm(f.lab, v.depends_on[k]) by {}
    assert((forall|k: int| 0 <= k < v.depends_on.len() ==> (#[trigger] depends_in(f.lab, i)(k)).len()
        == 0) <==> (forall|k: int|
        0 <= k < v.depends_on.len() ==> is_vm(f.lab, #[trigger] v.depends_on[k]))) by {
        assert forall|k: int| 0 <= k < v.depends_on.len() implies is_vm(
            f.lab,
            #[trigger] v.depends_on[k],
        ) == (depends_in(f.lab, i)(k).len() == 0) by {}
    }
    assert((forall|k: int| 0 <= k < v.shares.len() ==> (#[trigger] shares_in(v, facts)(k)).len()
        == 0) <==> (forall|k: int|
        0 <= k < v.shares.len() ==> good_share(#[trigger] v.shares[k], facts))) by {
        assert forall|k: int| 0 <= k < v.shares.len() implies good_share(
            #[trigger] v.shares[k],
            facts,
        ) == (shares_in(v, facts)(k).len() == 0) by {}
        assert forall|k: int| 0 <= k < v.shares.len() implies (
        #[trigger] shares_in(v, facts)(k)).len() == share_check(v.shares[k], facts).len() by {}
    }
    assert((forall|k: int| 0 <= k < v.media.len() ==> (#[trigger] media_in(v.media, facts)(k)).len()
        == 0) <==> (forall|k: int|
        0 <= k < v.media.len() ==> facts.dirs.contains((#[trigger] v.media[k]).from))) by {
        assert forall|k: int| 0 <= k < v.media.len() implies facts.dirs.contains(
            (#[trigger] v.media[k]).from,
        ) == (media_in(v.media, facts)(k).len() == 0) by {}
        assert forall|k: int| 0 <= k < v.media.len() implies (
        #[trigger] media_in(v.media, facts)(k)).len() == media_check(v.media[k], facts).len() by {}
    }
    lemma_disks(v.extra_disks, facts);
}

proof fn lemma_disks(all: Seq<DiskBlockView>, facts: FactsView)
    ensures
        (forall|k: int| 0 <= k < all.len() ==> (#[trigger] disks_in(all, facts)(k)).len() == 0)
            <==> (forall|k: int| 0 <= k < all.len() ==> good_disk(#[trigger] all[k], facts)),
{
    assert forall|k: int| 0 <= k < all.len() implies good_disk(#[trigger] all[k], facts) == (
    disks_in(all, facts)(k).len() == 0) by {}
    assert forall|k: int| 0 <= k < all.len() implies (#[trigger] disks_in(all, facts)(k)).len()
        == disk_check(all[k], facts).len() by {}
}

proof fn lemma_segment(lab: LabView, i: int)
    requires
        0 <= i < lab.segments.len(),
    ensures
        segment_check(lab, i).len() == 0 <==> good_segment(lab, i) && forall|j: int|
            0 <= j < lab.segments.len() ==> (#[trigger] overlaps_with(lab, i)(j)).len() == 0,
{
    let s = lab.segments[i];
    lemma_label(s.name);
    lemma_each(lab.segments.len() as int, overlaps_with(lab, i));
    lemma_each(s.routes_to.len() as int, routes_from(lab, i));
    lemma_each(s.forwards.len() as int, forwards_from(lab, i));
    lemma_each(s.sinkholes.len() as int, sinkholes_in(s));
    assert(segment_repeats(lab, i) <==> !(forall|j: int|
        0 <= j < i ==> (#[trigger] lab.segments[j]).name != s.name));
    assert((forall|k: int| 0 <= k < s.routes_to.len() ==> (#[trigger] routes_from(lab, i)(k)).len()
        == 0) <==> (forall|k: int|
        0 <= k < s.routes_to.len() ==> is_segment(lab, #[trigger] s.routes_to[k]))) by {
        assert forall|k: int| 0 <= k < s.routes_to.len() implies is_segment(
            lab,
            #[trigger] s.routes_to[k],
        ) == (routes_from(lab, i)(k).len() == 0) by {}
        assert forall|k: int| 0 <= k < s.routes_to.len() && is_segment(lab, s.routes_to[k]) implies (
        #[trigger] routes_from(lab, i)(k)).len() == 0 by {}
    }
    assert((forall|k: int| 0 <= k < s.forwards.len() ==> (#[trigger] forwards_from(lab, i)(k)).len()
        == 0) <==> (forall|k: int|
        0 <= k < s.forwards.len() ==> is_vm(lab, (#[trigger] s.forwards[k]).vm))) by {
        assert forall|k: int| 0 <= k < s.forwards.len() implies is_vm(
            lab,
            (#[trigger] s.forwards[k]).vm,
        ) == (forwards_from(lab, i)(k).len() == 0) by {}
        assert forall|k: int| 0 <= k < s.forwards.len() && is_vm(lab, s.forwards[k].vm) implies (
        #[trigger] forwards_from(lab, i)(k)).len() == 0 by {}
    }
    assert((forall|k: int| 0 <= k < s.sinkholes.len() ==> (#[trigger] sinkholes_in(s)(k)).len()
        == 0) <==> (forall|k: int|
        0 <= k < s.sinkholes.len() ==> (#[trigger] s.sinkholes[k]).pattern.len() > 0)) by {
        assert forall|k: int| 0 <= k < s.sinkholes.len() implies ((
        #[trigger] s.sinkholes[k]).pattern.len() > 0) == (sinkholes_in(s)(k).len() == 0) by {}
        assert forall|k: int| 0 <= k < s.sinkholes.len() && s.sinkholes[k].pattern.len() > 0 implies (
        #[trigger] sinkholes_in(s)(k)).len() == 0 by {}
    }
}

proof fn lemma_template(f: LabFileView, i: int, facts: FactsView)
    requires
        0 <= i < f.templates.len(),
    ensures
        template_check(f, i, facts).len() == 0 && template_script_check(f.templates[i], facts).len()
            == 0 <==> good_template(f, i, facts),
{
    let t = f.templates[i];
    lemma_each(t.media.len() as int, media_in(t.media, facts));
    lemma_each(t.extra_disks.len() as int, disks_in(t.extra_disks, facts));
    lemma_each(t.provisions.len() as int, build_scripts(t, facts));
    lemma_disks(t.extra_disks, facts);
    assert(template_repeats(f, i) <==> !(forall|j: int|
        0 <= j < i ==> (#[trigger] f.templates[j]).arch != t.arch || f.templates[j].name != t.name
            || f.templates[j].version != t.version));
    assert((forall|k: int| 0 <= k < t.media.len() ==> (#[trigger] media_in(t.media, facts)(k)).len()
        == 0) <==> (forall|k: int|
        0 <= k < t.media.len() ==> facts.dirs.contains((#[trigger] t.media[k]).from))) by {
        assert forall|k: int| 0 <= k < t.media.len() implies facts.dirs.contains(
            (#[trigger] t.media[k]).from,
        ) == (media_in(t.media, facts)(k).len() == 0) by {}
        assert forall|k: int| 0 <= k < t.media.len() implies (
        #[trigger] media_in(t.media, facts)(k)).len() == media_check(t.media[k], facts).len() by {}
    }
    assert((forall|k: int|
        0 <= k < t.provisions.len() ==> (#[trigger] build_scripts(t, facts)(k)).len() == 0) <==> (
    forall|k: int|
        0 <= k < t.provisions.len() ==> good_script((#[trigger] t.provisions[k]).script, facts)))
        by {
        assert forall|k: int| 0 <= k < t.provisions.len() implies good_script(
            (#[trigger] t.provisions[k]).script,
            facts,
        ) == (build_scripts(t, facts)(k).len() == 0) by {
            lemma_script(t.provisions[k].script, t.provisions[k].span, facts);
        }
        assert forall|k: int|
            0 <= k < t.provisions.len() && good_script(t.provisions[k].script, facts) implies (
        #[trigger] build_scripts(t, facts)(k)).len() == 0 by {
            lemma_script(t.provisions[k].script, t.provisions[k].span, facts);
        }
    }
    if let Some(p) = t.first_boot {
        lemma_script(p, t.span, facts);
    }
    assert(source_check(t, facts).len() == 0 <==> good_source(t, facts));
}

// -- what is earlier ----------------------------------------------------------------------

proof fn lemma_ports(segs: Seq<SegmentView>, p: u16)
    ensures
        ports_before(segs).contains(p) <==> exists|j: int, l: int|
            0 <= j < segs.len() && 0 <= l < segs[j].forwards.len() && (
            #[trigger] segs[j].forwards[l]).host_port == p,
    decreases segs.len(),
{
    if segs.len() > 0 {
        let front = segs.drop_last();
        let n = segs.len() - 1;
        lemma_ports(front, p);
        let a = ports_before(front);
        let b = ports_of(segs.last().forwards);
        let all = ports_before(segs);
        if all.contains(p) {
            let x = choose|x: int| 0 <= x < all.len() && all[x] == p;
            if x < a.len() {
                assert(a[x] == p);
                let (j, l) = choose|j: int, l: int|
                    0 <= j < front.len() && 0 <= l < front[j].forwards.len() && (
                    #[trigger] front[j].forwards[l]).host_port == p;
                assert(segs[j].forwards[l].host_port == p);
            } else {
                assert(segs[n].forwards[x - a.len()].host_port == p);
            }
        }
        if exists|j: int, l: int|
            0 <= j < segs.len() && 0 <= l < segs[j].forwards.len() && (
            #[trigger] segs[j].forwards[l]).host_port == p {
            let (j, l) = choose|j: int, l: int|
                0 <= j < segs.len() && 0 <= l < segs[j].forwards.len() && (
                #[trigger] segs[j].forwards[l]).host_port == p;
            if j < n {
                assert(front[j].forwards[l].host_port == p);
                let x = choose|x: int| 0 <= x < a.len() && a[x] == p;
                assert(all[x] == p);
            } else {
                assert(b[l] == p);
                assert(all[a.len() + l] == p);
            }
        }
    }
}

proof fn lemma_port(lab: LabView, i: int, k: int)
    requires
        0 <= i < lab.segments.len(),
        0 <= k < lab.segments[i].forwards.len(),
    ensures
        ports_in(lab, i)(k).len() > 0 <==> exists|j: int, l: int|
            0 <= j < lab.segments.len() && 0 <= l < lab.segments[j].forwards.len() && before(
                j,
                l,
                i,
                k,
            ) && (#[trigger] lab.segments[j].forwards[l]).host_port
                == lab.segments[i].forwards[k].host_port,
{
    let p = lab.segments[i].forwards[k].host_port;
    let segs = lab.segments.take(i);
    let a = ports_before(segs);
    let b = ports_of(lab.segments[i].forwards).take(k);
    let all = a + b;
    lemma_ports(segs, p);
    if all.contains(p) {
        let x = choose|x: int| 0 <= x < all.len() && all[x] == p;
        if x < a.len() {
            assert(a[x] == p);
            let (j, l) = choose|j: int, l: int|
                0 <= j < segs.len() && 0 <= l < segs[j].forwards.len() && (
                #[trigger] segs[j].forwards[l]).host_port == p;
            assert(lab.segments[j].forwards[l].host_port == p);
            assert(before(j, l, i, k));
        } else {
            let l = x - a.len();
            assert(lab.segments[i].forwards[l].host_port == p);
            assert(before(i, l, i, k));
        }
    }
    if exists|j: int, l: int|
        0 <= j < lab.segments.len() && 0 <= l < lab.segments[j].forwards.len() && before(j, l, i, k)
            && (#[trigger] lab.segments[j].forwards[l]).host_port == p {
        let (j, l) = choose|j: int, l: int|
            0 <= j < lab.segments.len() && 0 <= l < lab.segments[j].forwards.len() && before(
                j,
                l,
                i,
                k,
            ) && (#[trigger] lab.segments[j].forwards[l]).host_port == p;
        if j < i {
            assert(segs[j].forwards[l].host_port == p);
            let x = choose|x: int| 0 <= x < a.len() && a[x] == p;
            assert(all[x] == p);
        } else {
            assert(b[l] == p);
            assert(all[a.len() + l] == p);
        }
    }
}

/// Whether every card of the lab is on a segment.
spec fn all_placed(lab: LabView) -> bool {
    forall|i: int, k: int|
        0 <= i < lab.vms.len() && 0 <= k < lab.vms[i].nics.len() ==> nic_segment(
            lab,
            #[trigger] lab.vms[i].nics[k],
        ) is Ok
}

proof fn lemma_nic_addresses(
    lab: LabView,
    nics: Seq<NicView>,
    ip: crate::net::addr::Ipv4Addr,
    mac: crate::net::addr::MacAddr,
)
    requires
        forall|k: int| 0 <= k < nics.len() ==> nic_segment(lab, #[trigger] nics[k]) is Ok,
    ensures
        nic_ips(lab, nics).contains(ip) <==> exists|l: int|
            0 <= l < nics.len() && (#[trigger] nics[l]).ip == Some(ip),
        nic_macs(lab, nics).contains(mac) <==> exists|l: int|
            0 <= l < nics.len() && (#[trigger] nics[l]).mac == Some(mac),
    decreases nics.len(),
{
    if nics.len() > 0 {
        let front = nics.drop_last();
        let n = nics.len() - 1;
        assert forall|k: int| 0 <= k < front.len() implies nic_segment(
            lab,
            #[trigger] front[k],
        ) is Ok by {
            assert(front[k] == nics[k]);
        }
        lemma_nic_addresses(lab, front, ip, mac);
        let (a, b) = (nic_ips(lab, front), nic_macs(lab, front));
        let (c, d) = (nic_ips(lab, nics), nic_macs(lab, nics));
        assert(nic_segment(lab, nics[n]) is Ok);
        assert(c.contains(ip) <==> a.contains(ip) || nics[n].ip == Some(ip)) by {
            if nics[n].ip is Some {
                lemma_pushed(a, nics[n].ip->0, ip);
            }
        }
        assert(d.contains(mac) <==> b.contains(mac) || nics[n].mac == Some(mac)) by {
            if nics[n].mac is Some {
                lemma_pushed(b, nics[n].mac->0, mac);
            }
        }
        if exists|l: int| 0 <= l < nics.len() && (#[trigger] nics[l]).ip == Some(ip) {
            let l = choose|l: int| 0 <= l < nics.len() && (#[trigger] nics[l]).ip == Some(ip);
            if l < n {
                assert(front[l].ip == Some(ip));
            }
        }
        if exists|l: int| 0 <= l < front.len() && (#[trigger] front[l]).ip == Some(ip) {
            let l = choose|l: int| 0 <= l < front.len() && (#[trigger] front[l]).ip == Some(ip);
            assert(nics[l].ip == Some(ip));
        }
        if exists|l: int| 0 <= l < nics.len() && (#[trigger] nics[l]).mac == Some(mac) {
            let l = choose|l: int| 0 <= l < nics.len() && (#[trigger] nics[l]).mac == Some(mac);
            if l < n {
                assert(front[l].mac == Some(mac));
            }
        }
        if exists|l: int| 0 <= l < front.len() && (#[trigger] front[l]).mac == Some(mac) {
            let l = choose|l: int| 0 <= l < front.len() && (#[trigger] front[l]).mac == Some(mac);
            assert(nics[l].mac == Some(mac));
        }
    }
}

proof fn lemma_pushed<T>(s: Seq<T>, x: T, y: T)
    ensures
        s.push(x).contains(y) <==> s.contains(y) || y == x,
{
    let t = s.push(x);
    assert(t[s.len() as int] == x);
    if s.contains(y) {
        let i = choose|i: int| 0 <= i < s.len() && s[i] == y;
        assert(t[i] == y);
    }
    if t.contains(y) && y != x {
        let i = choose|i: int| 0 <= i < t.len() && t[i] == y;
        assert(s[i] == y);
    }
}

proof fn lemma_joined<T>(s: Seq<T>, t: Seq<T>, y: T)
    ensures
        (s + t).contains(y) <==> s.contains(y) || t.contains(y),
{
    let u = s + t;
    if u.contains(y) {
        let i = choose|i: int| 0 <= i < u.len() && u[i] == y;
        if i < s.len() {
            assert(s[i] == y);
        } else {
            assert(t[i - s.len()] == y);
        }
    }
    if s.contains(y) {
        let i = choose|i: int| 0 <= i < s.len() && s[i] == y;
        assert(u[i] == y);
    }
    if t.contains(y) {
        let i = choose|i: int| 0 <= i < t.len() && t[i] == y;
        assert(u[s.len() + i] == y);
    }
}

proof fn lemma_addresses(
    lab: LabView,
    i: int,
    ip: crate::net::addr::Ipv4Addr,
    mac: crate::net::addr::MacAddr,
)
    requires
        all_placed(lab),
        0 <= i <= lab.vms.len(),
    ensures
        ips_before(lab, i).contains(ip) <==> exists|j: int, l: int|
            0 <= j < i && 0 <= l < lab.vms[j].nics.len() && (#[trigger] lab.vms[j].nics[l]).ip
                == Some(ip),
        macs_before(lab, i).contains(mac) <==> exists|j: int, l: int|
            0 <= j < i && 0 <= l < lab.vms[j].nics.len() && (#[trigger] lab.vms[j].nics[l]).mac
                == Some(mac),
    decreases i,
{
    if i > 0 {
        lemma_addresses(lab, i - 1, ip, mac);
        let nics = lab.vms[i - 1].nics;
        assert forall|k: int| 0 <= k < nics.len() implies nic_segment(
            lab,
            #[trigger] nics[k],
        ) is Ok by {
            assert(nic_segment(lab, lab.vms[i - 1].nics[k]) is Ok);
        }
        lemma_nic_addresses(lab, nics, ip, mac);
        lemma_joined(ips_before(lab, i - 1), nic_ips(lab, nics), ip);
        lemma_joined(macs_before(lab, i - 1), nic_macs(lab, nics), mac);
        if exists|l: int| 0 <= l < nics.len() && (#[trigger] nics[l]).ip == Some(ip) {
            let l = choose|l: int| 0 <= l < nics.len() && (#[trigger] nics[l]).ip == Some(ip);
            assert(lab.vms[i - 1].nics[l].ip == Some(ip));
        }
        if exists|l: int| 0 <= l < nics.len() && (#[trigger] nics[l]).mac == Some(mac) {
            let l = choose|l: int| 0 <= l < nics.len() && (#[trigger] nics[l]).mac == Some(mac);
            assert(lab.vms[i - 1].nics[l].mac == Some(mac));
        }
    }
}

proof fn lemma_card_earlier(lab: LabView, i: int, k: int)
    requires
        all_placed(lab),
        0 <= i < lab.vms.len(),
        0 <= k < lab.vms[i].nics.len(),
    ensures
        nics_in(lab, i)(k).len() == 0 <==> good_card(lab, lab.vms[i].nics[k]) && forall|
            j: int,
            l: int,
        |
            0 <= j < lab.vms.len() && 0 <= l < lab.vms[j].nics.len() && before(j, l, i, k) ==> ((
            #[trigger] lab.vms[j].nics[l]).ip is Some ==> lab.vms[j].nics[l].ip
                != lab.vms[i].nics[k].ip) && (lab.vms[j].nics[l].mac is Some
                ==> lab.vms[j].nics[l].mac != lab.vms[i].nics[k].mac),
{
    let n = lab.vms[i].nics[k];
    let head = lab.vms[i].nics.take(k);
    let ips = ips_before(lab, i) + nic_ips(lab, head);
    let macs = macs_before(lab, i) + nic_macs(lab, head);
    lemma_card(lab, n, ips, macs);
    assert forall|l: int| 0 <= l < head.len() implies nic_segment(lab, #[trigger] head[l]) is Ok by {
        assert(nic_segment(lab, lab.vms[i].nics[l]) is Ok);
    }
    let ip = n.ip->0;
    let mac = n.mac->0;
    lemma_addresses(lab, i, ip, mac);
    lemma_nic_addresses(lab, head, ip, mac);
    lemma_joined(ips_before(lab, i), nic_ips(lab, head), ip);
    lemma_joined(macs_before(lab, i), nic_macs(lab, head), mac);
    if ips.contains(ip) {
        if ips_before(lab, i).contains(ip) {
            let (j, l) = choose|j: int, l: int|
                0 <= j < i && 0 <= l < lab.vms[j].nics.len() && (#[trigger] lab.vms[j].nics[l]).ip
                    == Some(ip);
            assert(before(j, l, i, k));
        } else {
            let l = choose|l: int| 0 <= l < head.len() && (#[trigger] head[l]).ip == Some(ip);
            assert(lab.vms[i].nics[l].ip == Some(ip));
            assert(before(i, l, i, k));
        }
    }
    if macs.contains(mac) {
        if macs_before(lab, i).contains(mac) {
            let (j, l) = choose|j: int, l: int|
                0 <= j < i && 0 <= l < lab.vms[j].nics.len() && (#[trigger] lab.vms[j].nics[l]).mac
                    == Some(mac);
            assert(before(j, l, i, k));
        } else {
            let l = choose|l: int| 0 <= l < head.len() && (#[trigger] head[l]).mac == Some(mac);
            assert(lab.vms[i].nics[l].mac == Some(mac));
            assert(before(i, l, i, k));
        }
    }
    assert forall|j: int, l: int|
        0 <= j < lab.vms.len() && 0 <= l < lab.vms[j].nics.len() && before(j, l, i, k)
            && nics_in(lab, i)(k).len() == 0 implies ((#[trigger] lab.vms[j].nics[l]).ip is Some
        ==> lab.vms[j].nics[l].ip != n.ip) && (lab.vms[j].nics[l].mac is Some
        ==> lab.vms[j].nics[l].mac != n.mac) by {
        if j == i {
            assert(head[l] == lab.vms[j].nics[l]);
        }
    }
}

// -- the lab ------------------------------------------------------------------------------

proof fn lemma_segments(lab: LabView)
    ensures
        each(lab.segments.len() as int, segment_checks(lab)).len() == 0 <==> (forall|i: int|
            0 <= i < lab.segments.len() ==> #[trigger] good_segment(lab, i)) && subnets_apart(lab),
{
    let n = lab.segments.len() as int;
    let f = segment_checks(lab);
    lemma_each(n, f);
    assert forall|i: int| 0 <= i < n implies ((#[trigger] f(i)).len() == 0 <==> good_segment(lab, i)
        && forall|j: int| 0 <= j < n ==> (#[trigger] overlaps_with(lab, i)(j)).len() == 0) by {
        lemma_segment(lab, i);
    }
    if each(n, f).len() == 0 {
        assert forall|i: int| 0 <= i < n implies #[trigger] good_segment(lab, i) by {
            assert(f(i).len() == 0);
        }
        assert forall|i: int, j: int|
            0 <= i < n && 0 <= j < n && i != j && (#[trigger] lab.segments[i]).subnet is Some && (
            #[trigger] lab.segments[j]).subnet is Some implies apart(
            lab.segments[i].subnet->0,
            lab.segments[j].subnet->0,
        ) by {
            lemma_first(lab.segments[i].subnet->0);
            lemma_first(lab.segments[j].subnet->0);
            lemma_text_le_total(lab.segments[i].name, lab.segments[j].name);
            assert(f(i).len() == 0);
            assert(f(j).len() == 0);
            assert(overlaps_with(lab, i)(j).len() == 0);
            assert(overlaps_with(lab, j)(i).len() == 0);
        }
    }
    if (forall|i: int| 0 <= i < n ==> #[trigger] good_segment(lab, i)) && subnets_apart(lab) {
        assert forall|i: int| 0 <= i < n implies (#[trigger] f(i)).len() == 0 by {
            assert(good_segment(lab, i));
            assert forall|j: int| 0 <= j < n implies (#[trigger] overlaps_with(lab, i)(j)).len()
                == 0 by {
                if lab.segments[i].subnet is Some && lab.segments[j].subnet is Some {
                    lemma_first(lab.segments[i].subnet->0);
                    lemma_first(lab.segments[j].subnet->0);
                }
            }
        }
    }
}

proof fn lemma_all_ports(lab: LabView)
    ensures
        each(lab.segments.len() as int, port_checks(lab)).len() == 0 <==> ports_apart(lab),
{
    let n = lab.segments.len() as int;
    lemma_each(n, port_checks(lab));
    assert forall|i: int| 0 <= i < n implies ((#[trigger] port_checks(lab)(i)).len() == 0 <==> (
    forall|k: int|
        0 <= k < lab.segments[i].forwards.len() ==> (#[trigger] ports_in(lab, i)(k)).len() == 0)) by {
        lemma_each(lab.segments[i].forwards.len() as int, ports_in(lab, i));
    }
    if each(n, port_checks(lab)).len() == 0 {
        assert forall|j: int, l: int, i: int, k: int|
            0 <= j < n && 0 <= l < lab.segments[j].forwards.len() && 0 <= i < n && 0 <= k
                < lab.segments[i].forwards.len() && before(j, l, i, k) implies (
        #[trigger] lab.segments[j].forwards[l]).host_port != (
        #[trigger] lab.segments[i].forwards[k]).host_port by {
            assert(port_checks(lab)(i).len() == 0);
            assert(ports_in(lab, i)(k).len() == 0);
            lemma_port(lab, i, k);
        }
    }
    if ports_apart(lab) {
        assert forall|i: int| 0 <= i < n implies (#[trigger] port_checks(lab)(i)).len() == 0 by {
            assert forall|k: int| 0 <= k < lab.segments[i].forwards.len() implies (
            #[trigger] ports_in(lab, i)(k)).len() == 0 by {
                lemma_port(lab, i, k);
                assert(lab.segments[i].forwards[k] == lab.segments[i].forwards[k]);
            }
        }
    }
}

proof fn lemma_guests(f: LabFileView, facts: FactsView, cat: CatalogueView)
    ensures
        each(f.lab.vms.len() as int, vm_checks(f, facts, cat)).len() == 0 <==> (forall|i: int|
            0 <= i < f.lab.vms.len() ==> #[trigger] good_guest(f, i, facts, cat)) && cards_apart(
            f.lab,
        ),
{
    let lab = f.lab;
    let n = lab.vms.len() as int;
    let g = vm_checks(f, facts, cat);
    lemma_each(n, g);
    if each(n, g).len() == 0 {
        assert forall|i: int, k: int| 0 <= i < n && 0 <= k < lab.vms[i].nics.len() implies (
        nics_in(lab, i)(k).len() == 0 && nic_segment(lab, #[trigger] lab.vms[i].nics[k]) is Ok) by {
            assert(g(i).len() == 0);
            lemma_guest(f, i, facts, cat);
            assert(nics_in(lab, i)(k).len() == 0);
        }
        assert(all_placed(lab));
        assert forall|i: int| 0 <= i < n implies #[trigger] good_guest(f, i, facts, cat) by {
            assert(g(i).len() == 0);
            lemma_guest(f, i, facts, cat);
            assert forall|k: int| 0 <= k < lab.vms[i].nics.len() implies good_card(
                lab,
                #[trigger] lab.vms[i].nics[k],
            ) by {
                lemma_card_earlier(lab, i, k);
            }
        }
        assert forall|j: int, l: int, i: int, k: int|
            0 <= j < n && 0 <= l < lab.vms[j].nics.len() && 0 <= i < n && 0 <= k
                < lab.vms[i].nics.len() && before(j, l, i, k) implies {
            let a = #[trigger] lab.vms[j].nics[l];
            let b = #[trigger] lab.vms[i].nics[k];
            &&& a.ip is Some ==> a.ip != b.ip
            &&& a.mac is Some ==> a.mac != b.mac
        } by {
            lemma_card_earlier(lab, i, k);
        }
    }
    if (forall|i: int| 0 <= i < n ==> #[trigger] good_guest(f, i, facts, cat)) && cards_apart(lab) {
        assert forall|i: int, k: int| 0 <= i < n && 0 <= k < lab.vms[i].nics.len() implies (
        good_card(lab, lab.vms[i].nics[k]) && nic_segment(
            lab,
            #[trigger] lab.vms[i].nics[k],
        ) is Ok) by {
            assert(good_guest(f, i, facts, cat));
            lemma_placed(lab, lab.vms[i].nics[k]);
        }
        assert forall|i: int| 0 <= i < n implies (#[trigger] g(i)).len() == 0 by {
            assert(good_guest(f, i, facts, cat));
            lemma_guest(f, i, facts, cat);
            assert forall|k: int| 0 <= k < lab.vms[i].nics.len() implies (
            #[trigger] nics_in(lab, i)(k)).len() == 0 by {
                lemma_card_earlier(lab, i, k);
                assert(lab.vms[i].nics[k] == lab.vms[i].nics[k]);
            }
            assert(cards_checked(lab, i));
        }
    }
}

proof fn lemma_provisions(lab: LabView, facts: FactsView)
    ensures
        each(lab.provisions.len() as int, provision_checks(lab)).len() == 0 <==> forall|
            i: int,
            k: int,
        |
            0 <= i < lab.provisions.len() && 0 <= k < lab.provisions[i].vms.len() ==> is_vm(
                lab,
                #[trigger] lab.provisions[i].vms[k],
            ),
        each(lab.provisions.len() as int, provision_scripts(lab, facts)).len() == 0 <==> forall|
            i: int,
        |
            0 <= i < lab.provisions.len() ==> good_script(
                (#[trigger] lab.provisions[i]).script,
                facts,
            ),
{
    let n = lab.provisions.len() as int;
    let f = provision_checks(lab);
    let g = provision_scripts(lab, facts);
    lemma_each(n, f);
    lemma_each(n, g);
    assert forall|i: int| 0 <= i < n implies ((#[trigger] f(i)).len() == 0 <==> (forall|k: int|
        0 <= k < lab.provisions[i].vms.len() ==> (#[trigger] scopes_in(lab, i)(k)).len() == 0)) by {
        lemma_each(lab.provisions[i].vms.len() as int, scopes_in(lab, i));
    }
    assert forall|i: int| 0 <= i < n implies ((#[trigger] g(i)).len() == 0 <==> good_script(
        lab.provisions[i].script,
        facts,
    )) by {
        lemma_script(lab.provisions[i].script, lab.provisions[i].span, facts);
    }
    if each(n, f).len() == 0 {
        assert forall|i: int, k: int|
            0 <= i < n && 0 <= k < lab.provisions[i].vms.len() implies is_vm(
            lab,
            #[trigger] lab.provisions[i].vms[k],
        ) by {
            assert(f(i).len() == 0);
            assert(scopes_in(lab, i)(k).len() == 0);
        }
    }
    if each(n, g).len() == 0 {
        assert forall|i: int| 0 <= i < n implies good_script(
            (#[trigger] lab.provisions[i]).script,
            facts,
        ) by {
            assert(g(i).len() == 0);
        }
    }
}

proof fn lemma_handlers(lab: LabView, facts: FactsView, events: Seq<Seq<char>>)
    ensures
        each(lab.handlers.len() as int, handler_checks(lab, events)).len() == 0 && each(
            lab.handlers.len() as int,
            handler_scripts(lab, facts),
        ).len() == 0 <==> forall|i: int|
            0 <= i < lab.handlers.len() ==> events.contains((#[trigger] lab.handlers[i]).event)
                && good_script(lab.handlers[i].run, facts),
{
    let n = lab.handlers.len() as int;
    let f = handler_checks(lab, events);
    let g = handler_scripts(lab, facts);
    lemma_each(n, f);
    lemma_each(n, g);
    assert forall|i: int| 0 <= i < n implies ((#[trigger] g(i)).len() == 0 <==> good_script(
        lab.handlers[i].run,
        facts,
    )) by {
        lemma_script(lab.handlers[i].run, lab.handlers[i].span, facts);
    }
    if each(n, f).len() == 0 && each(n, g).len() == 0 {
        assert forall|i: int| 0 <= i < n implies events.contains(
            (#[trigger] lab.handlers[i]).event,
        ) && good_script(lab.handlers[i].run, facts) by {
            assert(g(i).len() == 0);
            assert(f(i).len() == 0);
        }
    }
}

proof fn lemma_templates(f: LabFileView, facts: FactsView)
    ensures
        each(f.templates.len() as int, template_scripts(f, facts)).len() == 0 && each(
            f.templates.len() as int,
            template_checks(f, facts),
        ).len() == 0 <==> forall|i: int|
            0 <= i < f.templates.len() ==> #[trigger] good_template(f, i, facts),
{
    let n = f.templates.len() as int;
    let a = template_scripts(f, facts);
    let b = template_checks(f, facts);
    lemma_each(n, a);
    lemma_each(n, b);
    assert forall|i: int| 0 <= i < n implies (a(i).len() == 0 && b(i).len() == 0
        <==> #[trigger] good_template(f, i, facts)) by {
        lemma_template(f, i, facts);
    }
    if forall|i: int| 0 <= i < n ==> #[trigger] good_template(f, i, facts) {
        assert forall|i: int| 0 <= i < n implies (#[trigger] a(i)).len() == 0 by {
            assert(good_template(f, i, facts));
        }
        assert forall|i: int| 0 <= i < n implies (#[trigger] b(i)).len() == 0 by {
            assert(good_template(f, i, facts));
        }
    }
}

/// A lab file validates exactly when it keeps the rules: names that can be
/// hostnames and that nothing else has, references to what is declared, subnets,
/// host ports and addresses that do not clash, no guest that waits for itself,
/// and host files that exist.
pub proof fn lab_validates_iff_good(f: LabFileView, facts: FactsView, cat: CatalogueView)
    ensures
        validation(f, facts, cat) == no_issues() <==> good_lab(f, facts, cat),
{
    lemma_label(f.lab.name);
    lemma_segments(f.lab);
    lemma_all_ports(f.lab);
    lemma_guests(f, facts, cat);
    cycle_reported_iff_cyclic(f.lab);
    lemma_provisions(f.lab, facts);
    lemma_handlers(f.lab, facts, cat.events);
    lemma_templates(f, facts);
    assert(cycle_issues(f.lab).len() == 0 <==> cycle_issues(f.lab) == no_issues()) by {
        if cycle_issues(f.lab).len() == 0 {
            assert(cycle_issues(f.lab) =~= no_issues());
        }
    }
    if validation(f, facts, cat).len() == 0 {
        assert(validation(f, facts, cat) =~= no_issues());
    }
}

} // verus!
