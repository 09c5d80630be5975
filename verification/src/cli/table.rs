//! Tables that the verbs print.

use vstd::prelude::*;
use vstd::utf8::encode_utf8;

use crate::json::{flag_at, member, number_at, text_at, Json};
use crate::text::{cat3, cat5, decimal, decimal_string, push_char};

verus! {

/// `n` blanks.
pub open spec fn blanks(n: int) -> Seq<char> {
    if n <= 0 {
        Seq::empty()
    } else {
        Seq::new(n as nat, |i: int| ' ')
    }
}

/// A text with blanks behind it, up to a width.
pub open spec fn padded(s: Seq<char>, width: int) -> Seq<char> {
    s + blanks(width - s.len())
}

/// A text with blanks behind it, up to a width.
pub fn pad(s: &str, width: usize) -> (r: String)
    ensures
        r@ == padded(s@, width as int),
{
    let mut out = s.to_owned();
    let mut n: usize = crate::text::chars_of(s).len();
    let ghost start = s@.len();
    while n < width
        invariant
            start == s@.len(),
            start <= n,
            n <= width || n == start,
            out@ == s@ + blanks(n - start),
        decreases width - n,
    {
        push_char(&mut out, ' ');
        n = n + 1;
        assert(out@ =~= s@ + blanks(n - start));
    }
    assert(out@ =~= padded(s@, width as int));
    out
}

/// The string under a key, or another.
pub open spec fn text_or(j: Json, key: Seq<char>, default: Seq<char>) -> Seq<char> {
    match text_at(j, key) {
        Some(s) => s,
        None => default,
    }
}

fn told(j: &Json, key: &str, default: &str) -> (r: String)
    ensures
        r@ == text_or(*j, key@, default@),
{
    match j.text(key) {
        Some(s) => s,
        None => default.to_owned(),
    }
}

/// The list under a key.
pub open spec fn list_at(j: Json, key: Seq<char>) -> Option<Seq<Json>> {
    match member(j, key) {
        Some(Json::List(items)) => Some(items@),
        _ => None,
    }
}

/// One line after the other.
pub open spec fn lines_of(items: Seq<Json>, row: spec_fn(Json) -> Seq<char>) -> Seq<char>
    decreases items.len(),
{
    if items.len() == 0 {
        Seq::empty()
    } else {
        lines_of(items.drop_last(), row) + row(items.last())
    }
}

// -- lab status ------------------------------------------------------------------------------

/// A row of the guests' table.
pub open spec fn vm_cells(
    name: Seq<char>,
    state: Seq<char>,
    ready: Seq<char>,
    ip: Seq<char>,
    template: Seq<char>,
) -> Seq<char> {
    "  "@ + padded(name, 16) + " "@ + padded(state, 10) + " "@ + padded(ready, 7) + " "@ + padded(
        ip,
        16,
    ) + " "@ + template + "\n"@
}

/// The row of a guest.
pub open spec fn vm_row() -> spec_fn(Json) -> Seq<char> {
    |v: Json|
        vm_cells(
            text_or(v, "name"@, "?"@),
            text_or(v, "state"@, "?"@),
            if flag_at(v, "ready"@) {
                "yes"@
            } else {
                "no"@
            },
            text_or(v, "ip"@, "-"@),
            text_or(v, "template"@, "?"@),
        )
}

/// A row of the segments' table.
pub open spec fn segment_cells(
    name: Seq<char>,
    subnet: Seq<char>,
    gateway: Seq<char>,
    services: Seq<char>,
) -> Seq<char> {
    "  "@ + padded(name, 16) + " "@ + padded(subnet, 18) + " "@ + padded(gateway, 15) + " "@
        + services + "\n"@
}

/// Whether something is on.
pub open spec fn on_off(b: bool) -> Seq<char> {
    if b {
        "on"@
    } else {
        "off"@
    }
}

/// The row of a segment.
pub open spec fn segment_row() -> spec_fn(Json) -> Seq<char> {
    |s: Json|
        segment_cells(
            text_or(s, "name"@, "?"@),
            text_or(s, "subnet"@, "?"@),
            text_or(s, "gateway"@, "?"@),
            on_off(flag_at(s, "nat"@)) + "/"@ + on_off(flag_at(s, "dhcp"@)),
        )
}

/// What is printed of a lab.
pub open spec fn status_text(status: Json) -> Seq<char> {
    let head = "lab \""@ + text_or(status, "lab"@, "?"@) + "\"\n"@;
    let vms = match list_at(status, "vms"@) {
        Some(items) => vm_cells("VM"@, "STATE"@, "READY"@, "IP"@, "TEMPLATE"@) + lines_of(
            items,
            vm_row(),
        ),
        None => Seq::empty(),
    };
    let segments = match list_at(status, "segments"@) {
        Some(items) => "\n"@ + segment_cells("SEGMENT"@, "SUBNET"@, "GATEWAY"@, "NAT/DHCP"@)
            + lines_of(items, segment_row()),
        None => Seq::empty(),
    };
    head + vms + segments
}

fn vm_line(name: &str, state: &str, ready: &str, ip: &str, template: &str) -> (r: String)
    ensures
        r@ == vm_cells(name@, state@, ready@, ip@, template@),
{
    let mut s = cat5("  ", pad(name, 16).as_str(), " ", pad(state, 10).as_str(), " ");
    s.append(pad(ready, 7).as_str());
    s.append(" ");
    s.append(pad(ip, 16).as_str());
    s.append(" ");
    s.append(template);
    s.append("\n");
    s
}

fn segment_line(name: &str, subnet: &str, gateway: &str, services: &str) -> (r: String)
    ensures
        r@ == segment_cells(name@, subnet@, gateway@, services@),
{
    let mut s = cat5("  ", pad(name, 16).as_str(), " ", pad(subnet, 18).as_str(), " ");
    s.append(pad(gateway, 15).as_str());
    s.append(" ");
    s.append(services);
    s.append("\n");
    s
}

fn vm_lines(items: &Vec<Json>) -> (r: String)
    ensures
        r@ == lines_of(items@, vm_row()),
{
    let mut out = String::new();
    let mut i: usize = 0;
    assert(items@.take(0) =~= Seq::empty());
    assert(out@ =~= Seq::empty());
    while i < items.len()
        invariant
            i <= items@.len(),
            out@ == lines_of(items@.take(i as int), vm_row()),
        decreases items@.len() - i,
    {
        proof {
            let t = items@.take(i as int + 1);
            assert(t.drop_last() =~= items@.take(i as int));
            assert(t.last() == items@[i as int]);
        }
        let v = &items[i];
        let name = told(v, "name", "?");
        let state = told(v, "state", "?");
        let ready = if v.flag("ready") {
            "yes"
        } else {
            "no"
        };
        let ip = told(v, "ip", "-");
        let template = told(v, "template", "?");
        let line = vm_line(name.as_str(), state.as_str(), ready, ip.as_str(), template.as_str());
        assert(line@ == vm_row()(items@[i as int]));
        out.append(line.as_str());
        i = i + 1;
    }
    assert(items@.take(i as int) =~= items@);
    out
}

fn switch_word(b: bool) -> (r: &'static str)
    ensures
        r@ == on_off(b),
{
    if b {
        "on"
    } else {
        "off"
    }
}

fn segment_lines(items: &Vec<Json>) -> (r: String)
    ensures
        r@ == lines_of(items@, segment_row()),
{
    let mut out = String::new();
    let mut i: usize = 0;
    assert(items@.take(0) =~= Seq::empty());
    assert(out@ =~= Seq::empty());
    while i < items.len()
        invariant
            i <= items@.len(),
            out@ == lines_of(items@.take(i as int), segment_row()),
        decreases items@.len() - i,
    {
        proof {
            let t = items@.take(i as int + 1);
            assert(t.drop_last() =~= items@.take(i as int));
            assert(t.last() == items@[i as int]);
        }
        let s = &items[i];
        let name = told(s, "name", "?");
        let subnet = told(s, "subnet", "?");
        let gateway = told(s, "gateway", "?");
        let services = cat3(switch_word(s.flag("nat")), "/", switch_word(s.flag("dhcp")));
        let line = segment_line(
            name.as_str(),
            subnet.as_str(),
            gateway.as_str(),
            services.as_str(),
        );
        assert(line@ == segment_row()(items@[i as int]));
        out.append(line.as_str());
        i = i + 1;
    }
    assert(items@.take(i as int) =~= items@);
    out
}

/// What is printed of a lab.
pub fn print_status(status: &Json) -> (r: String)
    ensures
        r@ == status_text(*status),
{
    let mut out = cat3("lab \"", told(status, "lab", "?").as_str(), "\"\n");
    let ghost head = out@;
    let mut vms = String::new();
    if let Some(Json::List(items)) = status.get("vms") {
        vms = vm_line("VM", "STATE", "READY", "IP", "TEMPLATE");
        vms.append(vm_lines(items).as_str());
    }
    let mut segments = String::new();
    if let Some(Json::List(items)) = status.get("segments") {
        segments.append("\n");
        segments.append(segment_line("SEGMENT", "SUBNET", "GATEWAY", "NAT/DHCP").as_str());
        segments.append(segment_lines(items).as_str());
        assert(segments@ =~= "\n"@ + segment_cells(
            "SEGMENT"@,
            "SUBNET"@,
            "GATEWAY"@,
            "NAT/DHCP"@,
        ) + lines_of(items@, segment_row()));
    } else {
        assert(segments@ =~= Seq::empty());
    }
    out.append(vms.as_str());
    out.append(segments.as_str());
    assert(out@ =~= status_text(*status));
    out
}

// -- labs ------------------------------------------------------------------------------------

/// The width of the names' column.
pub open spec fn name_width(labs: Seq<Json>) -> nat
    decreases labs.len(),
{
    if labs.len() == 0 {
        4
    } else {
        let front = name_width(labs.drop_last());
        let n = encode_utf8(text_or(labs.last(), "name"@, "?"@)).len();
        if n > front {
            n
        } else {
            front
        }
    }
}

/// A row of the labs' table.
pub open spec fn lab_cells(width: int, name: Seq<char>, state: Seq<char>, root: Seq<char>) -> Seq<char> {
    padded(name, width) + " "@ + padded(state, 10) + " "@ + root + "\n"@
}

/// The row of a lab.
pub open spec fn lab_row(width: int) -> spec_fn(Json) -> Seq<char> {
    |l: Json|
        lab_cells(
            width,
            text_or(l, "name"@, "?"@),
            text_or(l, "state"@, "?"@),
            text_or(l, "root"@, "?"@),
        )
}

/// What is printed of the labs.
pub open spec fn labs_text(labs: Seq<Json>) -> Seq<char> {
    if labs.len() == 0 {
        "no running labs\n"@
    } else {
        let w = name_width(labs) as int;
        lab_cells(w, "NAME"@, "STATE"@, "DIRECTORY"@) + lines_of(labs, lab_row(w))
    }
}

fn lab_line(width: usize, name: &str, state: &str, root: &str) -> (r: String)
    ensures
        r@ == lab_cells(width as int, name@, state@, root@),
{
    let mut s = cat5(pad(name, width).as_str(), " ", pad(state, 10).as_str(), " ", root);
    s.append("\n");
    s
}

/// What is printed of the labs: a row for each.
pub fn print_labs(labs: &Vec<Json>) -> (r: String)
    ensures
        r@ == labs_text(labs@),
{
    if labs.len() == 0 {
        return "no running labs\n".to_owned();
    }
    let mut width: usize = 4;
    let mut i: usize = 0;
    assert(labs@.take(0) =~= Seq::empty());
    while i < labs.len()
        invariant
            i <= labs@.len(),
            width == name_width(labs@.take(i as int)),
        decreases labs@.len() - i,
    {
        proof {
            let t = labs@.take(i as int + 1);
            assert(t.drop_last() =~= labs@.take(i as int));
            assert(t.last() == labs@[i as int]);
        }
        let name = told(&labs[i], "name", "?");
        let n: usize = name.as_str().as_bytes_vec().len();
        if n > width {
            width = n;
        }
        i = i + 1;
    }
    assert(labs@.take(i as int) =~= labs@);
    let mut out = lab_line(width, "NAME", "STATE", "DIRECTORY");
    let ghost head = out@;
    let mut k: usize = 0;
    assert(labs@.take(0) =~= Seq::empty());
    assert(head + lines_of(labs@.take(0), lab_row(width as int)) =~= head);
    while k < labs.len()
        invariant
            k <= labs@.len(),
            out@ == head + lines_of(labs@.take(k as int), lab_row(width as int)),
        decreases labs@.len() - k,
    {
        proof {
            let t = labs@.take(k as int + 1);
            assert(t.drop_last() =~= labs@.take(k as int));
            assert(t.last() == labs@[k as int]);
        }
        let l = &labs[k];
        let name = told(l, "name", "?");
        let state = told(l, "state", "?");
        let root = told(l, "root", "?");
        let line = lab_line(width, name.as_str(), state.as_str(), root.as_str());
        assert(line@ == lab_row(width as int)(labs@[k as int]));
        out.append(line.as_str());
        assert(out@ =~= head + (lines_of(labs@.take(k as int), lab_row(width as int)) + line@));
        k = k + 1;
    }
    assert(labs@.take(k as int) =~= labs@);
    out
}

// -- snapshots -------------------------------------------------------------------------------

/// A row of the snapshots' table.
pub open spec fn snapshot_cells(name: Seq<char>, kind: Seq<char>, taken: Seq<char>) -> Seq<char> {
    padded(name, 24) + " "@ + padded(kind, 8) + " "@ + taken + "\n"@
}

/// The row of a snapshot.
pub open spec fn snapshot_row() -> spec_fn(Json) -> Seq<char> {
    |s: Json|
        snapshot_cells(
            text_or(s, "name"@, "?"@),
            if flag_at(s, "online"@) {
                "online"@
            } else {
                "offline"@
            },
            text_or(s, "taken_at"@, "?"@),
        )
}

/// What is printed of a guest's snapshots.
pub open spec fn snapshots_text(vm: Seq<char>, snaps: Seq<Json>) -> Seq<char> {
    if snaps.len() == 0 {
        "no snapshots for "@ + vm + "\n"@
    } else {
        snapshot_cells("NAME"@, "KIND"@, "TAKEN"@) + lines_of(snaps, snapshot_row())
    }
}

fn snapshot_line(name: &str, kind: &str, taken: &str) -> (r: String)
    ensures
        r@ == snapshot_cells(name@, kind@, taken@),
{
    let mut s = cat5(pad(name, 24).as_str(), " ", pad(kind, 8).as_str(), " ", taken);
    s.append("\n");
    s
}

/// What is printed of a guest's snapshots.
pub fn print_snapshots(vm: &str, snaps: &Vec<Json>) -> (r: String)
    ensures
        r@ == snapshots_text(vm@, snaps@),
{
    if snaps.len() == 0 {
        return cat3("no snapshots for ", vm, "\n");
    }
    let mut out = snapshot_line("NAME", "KIND", "TAKEN");
    let ghost head = out@;
    let mut k: usize = 0;
    assert(snaps@.take(0) =~= Seq::empty());
    assert(head + lines_of(snaps@.take(0), snapshot_row()) =~= head);
    while k < snaps.len()
        invariant
            k <= snaps@.len(),
            out@ == head + lines_of(snaps@.take(k as int), snapshot_row()),
        decreases snaps@.len() - k,
    {
        proof {
            let t = snaps@.take(k as int + 1);
            assert(t.drop_last() =~= snaps@.take(k as int));
            assert(t.last() == snaps@[k as int]);
        }
        let s = &snaps[k];
        let name = told(s, "name", "?");
        let kind = if s.flag("online") {
            "online"
        } else {
            "offline"
        };
        let taken = told(s, "taken_at", "?");
        let line = snapshot_line(name.as_str(), kind, taken.as_str());
        assert(line@ == snapshot_row()(snaps@[k as int]));
        out.append(line.as_str());
        assert(out@ =~= head + (lines_of(snaps@.take(k as int), snapshot_row()) + line@));
        k = k + 1;
    }
    assert(snaps@.take(k as int) =~= snaps@);
    out
}

// -- rules -----------------------------------------------------------------------------------

/// The line of a rule.
pub open spec fn rule_row() -> spec_fn(Json) -> Seq<char> {
    |r: Json|
        "  ["@ + decimal(
            match number_at(r, "id"@) {
                Some(n) => n as nat,
                None => 0,
            },
        ) + "] "@ + text_or(r, "description"@, "?"@) + "\n"@
}

/// What is printed of a segment's rules: nothing where there are none.
pub open spec fn segment_rules() -> spec_fn(Json) -> Seq<char> {
    |s: Json|
        match list_at(s, "rules"@) {
            Some(rules) => if rules.len() == 0 {
                Seq::empty()
            } else {
                "segment \""@ + text_or(s, "segment"@, "?"@) + "\"\n"@ + lines_of(
                    rules,
                    rule_row(),
                )
            },
            None => Seq::empty(),
        }
}

fn rule_lines(rules: &Vec<Json>) -> (r: String)
    ensures
        r@ == lines_of(rules@, rule_row()),
{
    let mut out = String::new();
    let mut i: usize = 0;
    assert(rules@.take(0) =~= Seq::empty());
    assert(out@ =~= Seq::empty());
    while i < rules.len()
        invariant
            i <= rules@.len(),
            out@ == lines_of(rules@.take(i as int), rule_row()),
        decreases rules@.len() - i,
    {
        proof {
            let t = rules@.take(i as int + 1);
            assert(t.drop_last() =~= rules@.take(i as int));
            assert(t.last() == rules@[i as int]);
        }
        let id: u64 = match rules[i].number("id") {
            Some(n) => n,
            None => 0,
        };
        let what = told(&rules[i], "description", "?");
        let line = cat5("  [", decimal_string(id).as_str(), "] ", what.as_str(), "\n");
        assert(line@ == rule_row()(rules@[i as int]));
        out.append(line.as_str());
        i = i + 1;
    }
    assert(rules@.take(i as int) =~= rules@);
    out
}

/// What is printed of the rules of all segments.
pub fn print_rules(segments: &Vec<Json>) -> (r: String)
    ensures
        r@ == lines_of(segments@, segment_rules()),
{
    let mut out = String::new();
    let mut i: usize = 0;
    assert(segments@.take(0) =~= Seq::empty());
    assert(out@ =~= Seq::empty());
    while i < segments.len()
        invariant
            i <= segments@.len(),
            out@ == lines_of(segments@.take(i as int), segment_rules()),
        decreases segments@.len() - i,
    {
        proof {
            let t = segments@.take(i as int + 1);
            assert(t.drop_last() =~= segments@.take(i as int));
            assert(t.last() == segments@[i as int]);
        }
        let s = &segments[i];
        let mut text = String::new();
        assert(text@ =~= Seq::empty());
        if let Some(Json::List(rules)) = s.get("rules") {
            if rules.len() > 0 {
                text = cat3("segment \"", told(s, "segment", "?").as_str(), "\"\n");
                text.append(rule_lines(rules).as_str());
            }
        }
        assert(text@ == segment_rules()(segments@[i as int]));
        out.append(text.as_str());
        i = i + 1;
    }
    assert(segments@.take(i as int) =~= segments@);
    out
}

// -- laws ------------------------------------------------------------------------------------

/// A list is printed line by line: a list in two parts is the one part and behind
/// it the other, and one item is its line.
pub proof fn lines_follow_each_other(
    a: Seq<Json>,
    b: Seq<Json>,
    item: Json,
    row: spec_fn(Json) -> Seq<char>,
)
    ensures
        lines_of(a + b, row) == lines_of(a, row) + lines_of(b, row),
        lines_of(seq![item], row) == row(item),
        lines_of(Seq::<Json>::empty(), row).len() == 0,
    decreases b.len(),
{
    assert(seq![item].drop_last() =~= Seq::<Json>::empty());
    assert(lines_of(Seq::<Json>::empty(), row) =~= Seq::<char>::empty());
    assert(seq![item].last() == item);
    assert(lines_of(seq![item], row) == lines_of(seq![item].drop_last(), row) + row(item));
    assert(lines_of(seq![item], row) =~= row(item));
    if b.len() == 0 {
        assert(a + b =~= a);
        assert(lines_of(a, row) + lines_of(b, row) =~= lines_of(a, row));
    } else {
        lines_follow_each_other(a, b.drop_last(), item, row);
        assert((a + b).drop_last() =~= a + b.drop_last());
        assert(lines_of(a + b, row) =~= lines_of(a, row) + lines_of(b, row));
    }
}

/// A text stands in a line at this place.
pub open spec fn stands_at(line: Seq<char>, at: int, t: Seq<char>) -> bool {
    0 <= at && at + t.len() <= line.len() && line.subrange(at, at + t.len()) == t
}

/// What is told under a key, or a mark for what is not.
pub open spec fn told_or(j: Json, key: Seq<char>, mark: Seq<char>, t: Seq<char>) -> bool {
    &&& forall|s: Seq<char>| text_at(j, key) == Some(s) ==> t == s
    &&& text_at(j, key) is None ==> t == mark
}

/// The row of a guest tells its name, its state, whether it is ready, its address
/// and its template, each in its column, as long as they fit.
#[verifier::spinoff_prover]
#[verifier::rlimit(40)]
pub proof fn guest_row_has_columns(v: Json, name: Seq<char>, state: Seq<char>, ip: Seq<char>, template: Seq<char>)
    requires
        told_or(v, "name"@, "?"@, name),
        told_or(v, "state"@, "?"@, state),
        told_or(v, "ip"@, "-"@, ip),
        told_or(v, "template"@, "?"@, template),
        name.len() <= 16,
        state.len() <= 10,
        ip.len() <= 16,
    ensures
        ({
            let line = vm_row()(v);
            &&& stands_at(line, 2, name)
            &&& stands_at(line, 19, state)
            &&& stands_at(
                line,
                30,
                if flag_at(v, "ready"@) {
                    "yes"@
                } else {
                    "no"@
                },
            )
            &&& stands_at(line, 38, ip)
            &&& stands_at(line, 55, template)
            &&& line.len() == 55 + template.len() + 1
            &&& line.last() == '\n'
        }),
{
    reveal_strlit("  ");
    reveal_strlit(" ");
    reveal_strlit("\n");
    reveal_strlit("yes");
    reveal_strlit("no");
    let ready = if flag_at(v, "ready"@) {
        "yes"@
    } else {
        "no"@
    };
    let line = vm_row()(v);
    assert(line == vm_cells(name, state, ready, ip, template));
    assert(line.subrange(2, 2int + name.len()) =~= name);
    assert(line.subrange(19, 19int + state.len()) =~= state);
    assert(line.subrange(30, 30int + ready.len()) =~= ready);
    assert(line.subrange(38, 38int + ip.len()) =~= ip);
    assert(line.subrange(55, 55int + template.len()) =~= template);
}

/// The row of a segment tells its name, its subnet, its gateway and whether it has
/// a way out and hands out addresses, each in its column, as long as they fit.
#[verifier::spinoff_prover]
#[verifier::rlimit(40)]
pub proof fn segment_row_has_columns(s: Json, name: Seq<char>, subnet: Seq<char>, gateway: Seq<char>)
    requires
        told_or(s, "name"@, "?"@, name),
        told_or(s, "subnet"@, "?"@, subnet),
        told_or(s, "gateway"@, "?"@, gateway),
        name.len() <= 16,
        subnet.len() <= 18,
        gateway.len() <= 15,
    ensures
        ({
            let line = segment_row()(s);
            &&& stands_at(line, 2, name)
            &&& stands_at(line, 19, subnet)
            &&& stands_at(line, 38, gateway)
            &&& line.subrange(54, line.len() as int) == (if flag_at(s, "nat"@) {
                if flag_at(s, "dhcp"@) {
                    "on/on\n"@
                } else {
                    "on/off\n"@
                }
            } else {
                if flag_at(s, "dhcp"@) {
                    "off/on\n"@
                } else {
                    "off/off\n"@
                }
            })
        }),
{
    reveal_strlit("  ");
    reveal_strlit(" ");
    reveal_strlit("\n");
    reveal_strlit("/");
    reveal_strlit("on");
    reveal_strlit("off");
    reveal_strlit("on/on\n");
    reveal_strlit("on/off\n");
    reveal_strlit("off/on\n");
    reveal_strlit("off/off\n");
    let services = on_off(flag_at(s, "nat"@)) + "/"@ + on_off(flag_at(s, "dhcp"@));
    let line = segment_row()(s);
    assert(line == segment_cells(name, subnet, gateway, services));
    assert(line.subrange(2, 2int + name.len()) =~= name);
    assert(line.subrange(19, 19int + subnet.len()) =~= subnet);
    assert(line.subrange(38, 38int + gateway.len()) =~= gateway);
    assert(line.subrange(54, line.len() as int) =~= services + "\n"@);
    if flag_at(s, "nat"@) && flag_at(s, "dhcp"@) {
        assert(services + "\n"@ =~= "on/on\n"@);
    } else if flag_at(s, "nat"@) {
        assert(services + "\n"@ =~= "on/off\n"@);
    } else if flag_at(s, "dhcp"@) {
        assert(services + "\n"@ =~= "off/on\n"@);
    } else {
        assert(services + "\n"@ =~= "off/off\n"@);
    }
}

/// The column of the names is as wide as the longest of them, in bytes, and at
/// least as wide as its heading.
pub proof fn name_column_fits(labs: Seq<Json>)
    ensures
        name_width(labs) >= 4,
        forall|i: int|
            0 <= i < labs.len() ==> encode_utf8(
                text_or(#[trigger] labs[i], "name"@, "?"@),
            ).len() <= name_width(labs),
        name_width(labs) > 4 ==> exists|i: int|
            0 <= i < labs.len() && encode_utf8(
                text_or(#[trigger] labs[i], "name"@, "?"@),
            ).len() == name_width(labs),
    decreases labs.len(),
{
    if labs.len() > 0 {
        let front = labs.drop_last();
        name_column_fits(front);
        assert(labs.last() == labs[labs.len() - 1]);
        assert forall|i: int| 0 <= i < labs.len() implies encode_utf8(
            text_or(#[trigger] labs[i], "name"@, "?"@),
        ).len() <= name_width(labs) by {
            if i < labs.len() - 1 {
                assert(front[i] == labs[i]);
            }
        }
        if name_width(front) > 4 && name_width(labs) == name_width(front) {
            let i = choose|i: int|
                0 <= i < front.len() && encode_utf8(
                    text_or(#[trigger] front[i], "name"@, "?"@),
                ).len() == name_width(front);
            assert(labs[i] == front[i]);
        }
    }
}

/// The row of a lab and the row of a snapshot tell what is known of them, each in
/// its column, as long as it fits.
#[verifier::spinoff_prover]
#[verifier::rlimit(40)]
pub proof fn other_rows_have_columns(
    j: Json,
    width: int,
    name: Seq<char>,
    state: Seq<char>,
    root: Seq<char>,
    taken: Seq<char>,
)
    requires
        told_or(j, "name"@, "?"@, name),
        told_or(j, "state"@, "?"@, state),
        told_or(j, "root"@, "?"@, root),
        told_or(j, "taken_at"@, "?"@, taken),
        name.len() <= 24,
        name.len() <= width,
        state.len() <= 10,
    ensures
        ({
            let line = lab_row(width)(j);
            &&& stands_at(line, 0, name)
            &&& stands_at(line, width + 1, state)
            &&& stands_at(line, width + 12, root)
            &&& line.len() == width + 12 + root.len() + 1
            &&& line.last() == '\n'
        }),
        ({
            let line = snapshot_row()(j);
            &&& stands_at(line, 0, name)
            &&& stands_at(
                line,
                25,
                if flag_at(j, "online"@) {
                    "online"@
                } else {
                    "offline"@
                },
            )
            &&& stands_at(line, 34, taken)
            &&& line.len() == 34 + taken.len() + 1
            &&& line.last() == '\n'
        }),
{
    reveal_strlit(" ");
    reveal_strlit("\n");
    reveal_strlit("online");
    reveal_strlit("offline");
    let line = lab_row(width)(j);
    assert(line == lab_cells(width, name, state, root));
    assert(line.subrange(0, name.len() as int) =~= name);
    assert(line.subrange(width + 1, width + 1 + state.len()) =~= state);
    assert(line.subrange(width + 12, width + 12 + root.len()) =~= root);
    let kind = if flag_at(j, "online"@) {
        "online"@
    } else {
        "offline"@
    };
    let row = snapshot_row()(j);
    assert(row == snapshot_cells(name, kind, taken));
    assert(row.subrange(0, name.len() as int) =~= name);
    assert(row.subrange(25, 25int + kind.len()) =~= kind);
    assert(row.subrange(34, 34int + taken.len()) =~= taken);
}

/// A segment's rules are told below its name, each by its number and what it does;
/// a segment without rules is passed over.
pub proof fn rules_are_told_by_segment(s: Json, rules: Seq<Json>, id: nat, what: Seq<char>)
    ensures
        list_at(s, "rules"@) is None ==> segment_rules()(s).len() == 0,
        list_at(s, "rules"@) == Some(rules) && rules.len() == 0 ==> segment_rules()(s).len() == 0,
        list_at(s, "rules"@) == Some(rules) && rules.len() > 0 && told_or(
            s,
            "segment"@,
            "?"@,
            what,
        ) ==> segment_rules()(s) == "segment \""@ + what + "\"\n"@ + lines_of(rules, rule_row()),
        told_or(s, "description"@, "?"@, what) && (number_at(s, "id"@) is Some ==> id == number_at(
            s,
            "id"@,
        )->0) && (number_at(s, "id"@) is None ==> id == 0) ==> rule_row()(s) == "  ["@ + decimal(id)
            + "] "@ + what + "\n"@,
{
}

} // verus!
