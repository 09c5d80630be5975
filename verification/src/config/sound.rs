//! What holds of a lab that validates.

use vstd::prelude::*;

use crate::config::cycles::{cycle_issues, is_vm};
use crate::config::issue::{no_issues, IssueView};
use crate::config::model::LabFileView;
use crate::config::validate::{
    depends_in, each, forwards_from, gateway_of, ips_before, is_dns_label, is_segment, macs_before,
    nic_check, nic_ips, nic_macs, nic_segment, nics_in, overlap, overlap_check, overlaps_with,
    port_checks, ports_before, ports_in, ports_of, routes_from, segment_check, segment_checks,
    segment_repeats, validation, vm_check, vm_checks, vm_repeats, CatalogueView,
    FactsView,
};
use crate::text::lemma_text_le_total;

verus! {

/// Whether the lab validates.
#[verifier::opaque]
spec fn clean(f: LabFileView, facts: FactsView, cat: CatalogueView) -> bool {
    validation(f, facts, cat).len() == 0
}

proof fn lemma_each_nothing(n: int, f: spec_fn(int) -> Seq<IssueView>, i: int)
    requires
        each(n, f).len() == 0,
        0 <= i < n,
    ensures
        f(i).len() == 0,
    decreases n,
{
    if i < n - 1 {
        lemma_each_nothing(n - 1, f, i);
    }
}

proof fn lemma_clean_segment(f: LabFileView, facts: FactsView, cat: CatalogueView, i: int)
    requires
        clean(f, facts, cat),
        0 <= i < f.lab.segments.len(),
    ensures
        !segment_repeats(f.lab, i),
        is_dns_label(f.lab.segments[i].name),
        each(f.lab.segments.len() as int, overlaps_with(f.lab, i)).len() == 0,
        each(f.lab.segments[i].routes_to.len() as int, routes_from(f.lab, i)).len() == 0,
        each(f.lab.segments[i].forwards.len() as int, forwards_from(f.lab, i)).len() == 0,
        each(f.lab.segments[i].forwards.len() as int, ports_in(f.lab, i)).len() == 0,
{
    assert(segment_check(f.lab, i).len() == 0 && each(
        f.lab.segments[i].forwards.len() as int,
        ports_in(f.lab, i),
    ).len() == 0) by {
        reveal(clean);
        lemma_each_nothing(f.lab.segments.len() as int, segment_checks(f.lab), i);
        lemma_each_nothing(f.lab.segments.len() as int, port_checks(f.lab), i);
    }
}

proof fn lemma_clean_cycles(f: LabFileView, facts: FactsView, cat: CatalogueView)
    requires
        clean(f, facts, cat),
    ensures
        cycle_issues(f.lab) == no_issues(),
        is_dns_label(f.lab.name),
{
    reveal(clean);
    assert(cycle_issues(f.lab) =~= no_issues());
}

proof fn lemma_clean_vm(f: LabFileView, facts: FactsView, cat: CatalogueView, i: int)
    requires
        clean(f, facts, cat),
        0 <= i < f.lab.vms.len(),
    ensures
        !vm_repeats(f.lab, i),
        is_dns_label(f.lab.vms[i].name),
        each(f.lab.vms[i].nics.len() as int, nics_in(f.lab, i)).len() == 0,
        each(f.lab.vms[i].depends_on.len() as int, depends_in(f.lab, i)).len() == 0,
{
    assert(vm_check(f, i, facts, cat).len() == 0) by {
        reveal(clean);
        lemma_each_nothing(f.lab.vms.len() as int, vm_checks(f, facts, cat), i);
    }
}

proof fn lemma_clean_lab_has_unique_names(f: LabFileView, facts: FactsView, cat: CatalogueView)
    requires
        clean(f, facts, cat),
    ensures
        is_dns_label(f.lab.name),
        forall|i: int| 0 <= i < f.lab.segments.len() ==> is_dns_label(
            #[trigger] f.lab.segments[i].name,
        ),
        forall|i: int| 0 <= i < f.lab.vms.len() ==> is_dns_label(#[trigger] f.lab.vms[i].name),
        forall|i: int, j: int|
            0 <= i < j < f.lab.segments.len() ==> #[trigger] f.lab.segments[i].name
                != #[trigger] f.lab.segments[j].name,
        forall|i: int, j: int|
            0 <= i < j < f.lab.vms.len() ==> #[trigger] f.lab.vms[i].name
                != #[trigger] f.lab.vms[j].name,
{
    lemma_clean_cycles(f, facts, cat);
    assert forall|i: int| 0 <= i < f.lab.segments.len() implies is_dns_label(
        #[trigger] f.lab.segments[i].name,
    ) by {
        lemma_clean_segment(f, facts, cat, i);
    }
    assert forall|i: int| 0 <= i < f.lab.vms.len() implies is_dns_label(
        #[trigger] f.lab.vms[i].name,
    ) by {
        lemma_clean_vm(f, facts, cat, i);
    }
    assert forall|i: int, j: int| 0 <= i < j < f.lab.segments.len() implies #[trigger]
        f.lab.segments[i].name != #[trigger] f.lab.segments[j].name by {
        lemma_clean_segment(f, facts, cat, j);
        assert(!segment_repeats(f.lab, j));
    }
    assert forall|i: int, j: int| 0 <= i < j < f.lab.vms.len() implies #[trigger]
        f.lab.vms[i].name != #[trigger] f.lab.vms[j].name by {
        lemma_clean_vm(f, facts, cat, j);
        assert(!vm_repeats(f.lab, j));
    }
}

/// In a lab that validates, every name of a segment or a guest is a DNS label
/// that no other has.
pub proof fn clean_lab_has_unique_names(f: LabFileView, facts: FactsView, cat: CatalogueView)
    requires
        validation(f, facts, cat) == no_issues(),
    ensures
        is_dns_label(f.lab.name),
        forall|i: int| 0 <= i < f.lab.segments.len() ==> is_dns_label(
            #[trigger] f.lab.segments[i].name,
        ),
        forall|i: int| 0 <= i < f.lab.vms.len() ==> is_dns_label(#[trigger] f.lab.vms[i].name),
        forall|i: int, j: int|
            0 <= i < j < f.lab.segments.len() ==> #[trigger] f.lab.segments[i].name
                != #[trigger] f.lab.segments[j].name,
        forall|i: int, j: int|
            0 <= i < j < f.lab.vms.len() ==> #[trigger] f.lab.vms[i].name
                != #[trigger] f.lab.vms[j].name,
{
    assert(clean(f, facts, cat)) by {
        reveal(clean);
    }
    lemma_clean_lab_has_unique_names(f, facts, cat);
}

proof fn lemma_clean_lab_has_disjoint_subnets(
    f: LabFileView,
    facts: FactsView,
    cat: CatalogueView,
    i: int,
    j: int,
)
    requires
        clean(f, facts, cat),
        0 <= i < f.lab.segments.len(),
        0 <= j < f.lab.segments.len(),
        i != j,
        f.lab.segments[i].subnet is Some,
        f.lab.segments[j].subnet is Some,
    ensures
        !overlap(f.lab.segments[i].subnet->0, f.lab.segments[j].subnet->0),
{
    let n = f.lab.segments.len() as int;
    lemma_clean_segment(f, facts, cat, i);
    lemma_clean_segment(f, facts, cat, j);
    lemma_each_nothing(n, overlaps_with(f.lab, i), j);
    lemma_each_nothing(n, overlaps_with(f.lab, j), i);
    assert(overlap_check(f.lab, i, j).len() == 0);
    assert(overlap_check(f.lab, j, i).len() == 0);
    lemma_text_le_total(f.lab.segments[i].name, f.lab.segments[j].name);
}

/// In a lab that validates, no two segments have addresses in common.
pub proof fn clean_lab_has_disjoint_subnets(
    f: LabFileView,
    facts: FactsView,
    cat: CatalogueView,
    i: int,
    j: int,
)
    requires
        validation(f, facts, cat) == no_issues(),
        0 <= i < f.lab.segments.len(),
        0 <= j < f.lab.segments.len(),
        i != j,
        f.lab.segments[i].subnet is Some,
        f.lab.segments[j].subnet is Some,
    ensures
        !overlap(f.lab.segments[i].subnet->0, f.lab.segments[j].subnet->0),
{
    assert(clean(f, facts, cat)) by {
        reveal(clean);
    }
    lemma_clean_lab_has_disjoint_subnets(f, facts, cat, i, j);
}

proof fn lemma_ports_distinct(f: LabFileView, facts: FactsView, cat: CatalogueView, i: int, k: int)
    requires
        clean(f, facts, cat),
        0 <= i < f.lab.segments.len(),
        0 <= k <= f.lab.segments[i].forwards.len(),
        ports_before(f.lab.segments.take(i)).no_duplicates(),
    ensures
        (ports_before(f.lab.segments.take(i)) + ports_of(f.lab.segments[i].forwards).take(
            k,
        )).no_duplicates(),
    decreases k,
{
    let before = ports_before(f.lab.segments.take(i));
    let here = ports_of(f.lab.segments[i].forwards);
    if k == 0 {
        assert(before + here.take(0) =~= before);
    } else {
        lemma_ports_distinct(f, facts, cat, i, k - 1);
        lemma_clean_segment(f, facts, cat, i);
        lemma_each_nothing(f.lab.segments[i].forwards.len() as int, ports_in(f.lab, i), k - 1);
        let old_list = before + here.take(k - 1);
        assert(!old_list.contains(here[k - 1]));
        assert(before + here.take(k) =~= old_list.push(here[k - 1]));
        lemma_push_distinct(old_list, here[k - 1]);
    }
}

proof fn lemma_push_distinct<T>(s: Seq<T>, x: T)
    requires
        s.no_duplicates(),
        !s.contains(x),
    ensures
        s.push(x).no_duplicates(),
{
    let t = s.push(x);
    assert forall|a: int, b: int| 0 <= a < t.len() && 0 <= b < t.len() && a != b implies t[a]
        != t[b] by {
        if a == s.len() {
            assert(s[b] == t[b]);
        } else if b == s.len() {
            assert(s[a] == t[a]);
        } else {
            assert(s[a] == t[a] && s[b] == t[b]);
        }
    }
}

proof fn lemma_all_ports(f: LabFileView, facts: FactsView, cat: CatalogueView, i: int)
    requires
        clean(f, facts, cat),
        0 <= i <= f.lab.segments.len(),
    ensures
        ports_before(f.lab.segments.take(i)).no_duplicates(),
    decreases i,
{
    if i > 0 {
        lemma_all_ports(f, facts, cat, i - 1);
        let here = ports_of(f.lab.segments[i - 1].forwards);
        lemma_ports_distinct(f, facts, cat, i - 1, f.lab.segments[i - 1].forwards.len() as int);
        assert(here.take(f.lab.segments[i - 1].forwards.len() as int) =~= here);
        let t = f.lab.segments.take(i);
        assert(t.drop_last() =~= f.lab.segments.take(i - 1));
        assert(t.last() == f.lab.segments[i - 1]);
    }
}

proof fn lemma_clean_lab_has_unique_ports(f: LabFileView, facts: FactsView, cat: CatalogueView)
    requires
        clean(f, facts, cat),
    ensures
        ports_before(f.lab.segments).no_duplicates(),
{
    lemma_all_ports(f, facts, cat, f.lab.segments.len() as int);
    assert(f.lab.segments.take(f.lab.segments.len() as int) =~= f.lab.segments);
}

/// In a lab that validates, no host port is forwarded twice.
pub proof fn clean_lab_has_unique_ports(f: LabFileView, facts: FactsView, cat: CatalogueView)
    requires
        validation(f, facts, cat) == no_issues(),
    ensures
        ports_before(f.lab.segments).no_duplicates(),
{
    assert(clean(f, facts, cat)) by {
        reveal(clean);
    }
    lemma_clean_lab_has_unique_ports(f, facts, cat);
}

proof fn lemma_clean_nic(f: LabFileView, facts: FactsView, cat: CatalogueView, i: int, k: int)
    requires
        clean(f, facts, cat),
        0 <= i < f.lab.vms.len(),
        0 <= k < f.lab.vms[i].nics.len(),
    ensures
        nics_in(f.lab, i)(k).len() == 0,
{
    lemma_clean_vm(f, facts, cat, i);
    lemma_each_nothing(f.lab.vms[i].nics.len() as int, nics_in(f.lab, i), k);
}

proof fn lemma_addresses_distinct(
    f: LabFileView,
    facts: FactsView,
    cat: CatalogueView,
    i: int,
    k: int,
)
    requires
        clean(f, facts, cat),
        0 <= i < f.lab.vms.len(),
        0 <= k <= f.lab.vms[i].nics.len(),
        ips_before(f.lab, i).no_duplicates(),
        macs_before(f.lab, i).no_duplicates(),
    ensures
        (ips_before(f.lab, i) + nic_ips(f.lab, f.lab.vms[i].nics.take(k))).no_duplicates(),
        (macs_before(f.lab, i) + nic_macs(f.lab, f.lab.vms[i].nics.take(k))).no_duplicates(),
    decreases k,
{
    let l = f.lab;
    let nics = l.vms[i].nics;
    if k == 0 {
        assert(nics.take(0) =~= Seq::empty());
        assert(ips_before(l, i) + nic_ips(l, nics.take(0)) =~= ips_before(l, i));
        assert(macs_before(l, i) + nic_macs(l, nics.take(0)) =~= macs_before(l, i));
    } else {
        lemma_addresses_distinct(f, facts, cat, i, k - 1);
        lemma_clean_nic(f, facts, cat, i, k - 1);
        let t = nics.take(k);
        assert(t.drop_last() =~= nics.take(k - 1));
        let n = nics[k - 1];
        assert(t.last() == n);
        let ips = ips_before(l, i) + nic_ips(l, nics.take(k - 1));
        let macs = macs_before(l, i) + nic_macs(l, nics.take(k - 1));
        assert(nic_check(l, n, ips, macs).len() == 0);
        match n.ip {
            Some(ip) => {
                assert(!ips.contains(ip));
                lemma_push_distinct(ips, ip);
                assert(ips_before(l, i) + nic_ips(l, t) =~= ips.push(ip));
            },
            None => {
                assert(nic_ips(l, t) == nic_ips(l, nics.take(k - 1)));
            },
        }
        match n.mac {
            Some(mac) => {
                assert(!macs.contains(mac));
                lemma_push_distinct(macs, mac);
                assert(macs_before(l, i) + nic_macs(l, t) =~= macs.push(mac));
            },
            None => {
                assert(nic_macs(l, t) == nic_macs(l, nics.take(k - 1)));
            },
        }
    }
}

proof fn lemma_all_addresses(f: LabFileView, facts: FactsView, cat: CatalogueView, i: int)
    requires
        clean(f, facts, cat),
        0 <= i <= f.lab.vms.len(),
    ensures
        ips_before(f.lab, i).no_duplicates(),
        macs_before(f.lab, i).no_duplicates(),
    decreases i,
{
    if i > 0 {
        lemma_all_addresses(f, facts, cat, i - 1);
        let nics = f.lab.vms[i - 1].nics;
        lemma_addresses_distinct(f, facts, cat, i - 1, nics.len() as int);
        assert(nics.take(nics.len() as int) =~= nics);
    }
}

proof fn lemma_clean_lab_has_unique_addresses(f: LabFileView, facts: FactsView, cat: CatalogueView)
    requires
        clean(f, facts, cat),
    ensures
        ips_before(f.lab, f.lab.vms.len() as int).no_duplicates(),
        macs_before(f.lab, f.lab.vms.len() as int).no_duplicates(),
{
    lemma_all_addresses(f, facts, cat, f.lab.vms.len() as int);
}

/// In a lab that validates, no static address and no declared hardware address
/// is given twice.
pub proof fn clean_lab_has_unique_addresses(f: LabFileView, facts: FactsView, cat: CatalogueView)
    requires
        validation(f, facts, cat) == no_issues(),
    ensures
        ips_before(f.lab, f.lab.vms.len() as int).no_duplicates(),
        macs_before(f.lab, f.lab.vms.len() as int).no_duplicates(),
{
    assert(clean(f, facts, cat)) by {
        reveal(clean);
    }
    lemma_clean_lab_has_unique_addresses(f, facts, cat);
}

proof fn lemma_clean_lab_has_sound_cards(
    f: LabFileView,
    facts: FactsView,
    cat: CatalogueView,
    i: int,
    k: int,
)
    requires
        clean(f, facts, cat),
        0 <= i < f.lab.vms.len(),
        0 <= k < f.lab.vms[i].nics.len(),
    ensures
        nic_segment(f.lab, f.lab.vms[i].nics[k]) is Ok,
        f.lab.vms[i].nics[k].ip matches Some(ip) ==> {
            let seg = nic_segment(f.lab, f.lab.vms[i].nics[k])->Ok_0;
            &&& seg is Some
            &&& seg->0.subnet is Some
            &&& seg->0.subnet->0.holds(ip)
            &&& ip.bits != seg->0.subnet->0.first()
            &&& ip.bits != seg->0.subnet->0.last()
            &&& ip != gateway_of(seg->0.subnet->0)
        },
{
    lemma_clean_nic(f, facts, cat, i, k);
}

/// In a lab that validates, every network card is on a declared segment or the
/// built-in one, and a static address lies in its segment's subnet and is none
/// of the reserved addresses there.
pub proof fn clean_lab_has_sound_cards(
    f: LabFileView,
    facts: FactsView,
    cat: CatalogueView,
    i: int,
    k: int,
)
    requires
        validation(f, facts, cat) == no_issues(),
        0 <= i < f.lab.vms.len(),
        0 <= k < f.lab.vms[i].nics.len(),
    ensures
        nic_segment(f.lab, f.lab.vms[i].nics[k]) is Ok,
        f.lab.vms[i].nics[k].ip matches Some(ip) ==> {
            let seg = nic_segment(f.lab, f.lab.vms[i].nics[k])->Ok_0;
            &&& seg is Some
            &&& seg->0.subnet is Some
            &&& seg->0.subnet->0.holds(ip)
            &&& ip.bits != seg->0.subnet->0.first()
            &&& ip.bits != seg->0.subnet->0.last()
            &&& ip != gateway_of(seg->0.subnet->0)
        },
{
    assert(clean(f, facts, cat)) by {
        reveal(clean);
    }
    lemma_clean_lab_has_sound_cards(f, facts, cat, i, k);
}

proof fn lemma_clean_lab_has_sound_references(f: LabFileView, facts: FactsView, cat: CatalogueView)
    requires
        clean(f, facts, cat),
    ensures
        cycle_issues(f.lab) == no_issues(),
        forall|i: int, k: int|
            0 <= i < f.lab.vms.len() && 0 <= k < f.lab.vms[i].depends_on.len() ==> is_vm(
                f.lab,
                #[trigger] f.lab.vms[i].depends_on[k],
            ),
        forall|i: int, k: int|
            0 <= i < f.lab.segments.len() && 0 <= k < f.lab.segments[i].forwards.len() ==> is_vm(
                f.lab,
                (#[trigger] f.lab.segments[i].forwards[k]).vm,
            ),
        forall|i: int, k: int|
            0 <= i < f.lab.segments.len() && 0 <= k < f.lab.segments[i].routes_to.len()
                ==> is_segment(f.lab, #[trigger] f.lab.segments[i].routes_to[k]),
{
    lemma_clean_cycles(f, facts, cat);
    assert forall|i: int, k: int|
        0 <= i < f.lab.vms.len() && 0 <= k < f.lab.vms[i].depends_on.len() implies is_vm(
        f.lab,
        #[trigger] f.lab.vms[i].depends_on[k],
    ) by {
        lemma_clean_vm(f, facts, cat, i);
        lemma_each_nothing(f.lab.vms[i].depends_on.len() as int, depends_in(f.lab, i), k);
    }
    assert forall|i: int, k: int|
        0 <= i < f.lab.segments.len() && 0 <= k < f.lab.segments[i].forwards.len() implies is_vm(
        f.lab,
        (#[trigger] f.lab.segments[i].forwards[k]).vm,
    ) by {
        lemma_clean_segment(f, facts, cat, i);
        lemma_each_nothing(
            f.lab.segments[i].forwards.len() as int,
            forwards_from(f.lab, i),
            k,
        );
    }
    assert forall|i: int, k: int|
        0 <= i < f.lab.segments.len() && 0 <= k < f.lab.segments[i].routes_to.len() implies is_segment(
        f.lab,
        #[trigger] f.lab.segments[i].routes_to[k],
    ) by {
        lemma_clean_segment(f, facts, cat, i);
        lemma_each_nothing(f.lab.segments[i].routes_to.len() as int, routes_from(f.lab, i), k);
    }
}

/// In a lab that validates, every guest that another one names exists, and the
/// dependencies have no cycle.
pub proof fn clean_lab_has_sound_references(f: LabFileView, facts: FactsView, cat: CatalogueView)
    requires
        validation(f, facts, cat) == no_issues(),
    ensures
        cycle_issues(f.lab) == no_issues(),
        forall|i: int, k: int|
            0 <= i < f.lab.vms.len() && 0 <= k < f.lab.vms[i].depends_on.len() ==> is_vm(
                f.lab,
                #[trigger] f.lab.vms[i].depends_on[k],
            ),
        forall|i: int, k: int|
            0 <= i < f.lab.segments.len() && 0 <= k < f.lab.segments[i].forwards.len() ==> is_vm(
                f.lab,
                (#[trigger] f.lab.segments[i].forwards[k]).vm,
            ),
        forall|i: int, k: int|
            0 <= i < f.lab.segments.len() && 0 <= k < f.lab.segments[i].routes_to.len()
                ==> is_segment(f.lab, #[trigger] f.lab.segments[i].routes_to[k]),
{
    assert(clean(f, facts, cat)) by {
        reveal(clean);
    }
    lemma_clean_lab_has_sound_references(f, facts, cat);
}

} // verus!
