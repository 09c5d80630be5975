//! Reading the logs that labs leave on disk.
//!
//! Layout under `<state>/labs/<lab>/`:
//!   - `events.jsonl` — structured event lines (timestamped)
//!   - `lab.log`      — provision/script output (raw text)
//!   - `vms/<vm>/{serial,qemu,swtpm}.log` — raw per-VM text
//!
//! The caller lists and reads the files, and parses an event's line.

use vstd::prelude::*;
use vstd::slice::slice_subrange;

use crate::names::NameMap;
use crate::text::{cat3, chars_of, join_path, path_join, str_eq, string_of, trim_tail, trimmed_end};

verus! {

/// The synthetic source name for lab-level (non-VM) logs.
pub const LAB_SOURCE: &'static str = "lab";

/// One parsed log line, tagged with where it came from.
#[derive(Debug)]
pub struct LogEntry {
    /// `"lab"` or the VM name.
    pub source: String,
    /// `"events" | "lab" | "serial" | "qemu" | "swtpm"`.
    pub stream: String,
    /// Present only for events.
    pub ts: Option<String>,
    /// Formatted event summary, or the raw line verbatim.
    pub text: String,
}

/// A log file on disk plus the source/stream tags its lines should carry.
#[derive(Debug)]
pub struct LogFile {
    pub source: String,
    pub stream: String,
    pub path: String,
}

/// The contents of a [`LogFile`].
pub ghost struct LogFileView {
    pub source: Seq<char>,
    pub stream: Seq<char>,
    pub path: Seq<char>,
}

impl DeepView for LogFile {
    type V = LogFileView;

    open spec fn deep_view(&self) -> LogFileView {
        LogFileView { source: self.source@, stream: self.stream@, path: self.path@ }
    }
}

/// The directory holding a lab's logs.
pub open spec fn lab_dir_of(state: Seq<char>, lab: Seq<char>) -> Seq<char> {
    path_join(path_join(state, "labs"@), lab)
}

/// `<state>/labs/<lab>` — the directory holding a lab's logs.
pub fn lab_dir(state: &str, lab: &str) -> (r: String)
    ensures
        r@ == lab_dir_of(state@, lab@),
{
    let labs = join_path(state, "labs");
    join_path(labs.as_str(), lab)
}

/// `<state>/labs/<lab>/events.jsonl`
pub fn history_path(state: &str, lab: &str) -> (r: String)
    ensures
        r@ == path_join(lab_dir_of(state@, lab@), "events.jsonl"@),
{
    let dir = lab_dir(state, lab);
    join_path(dir.as_str(), "events.jsonl")
}

/// Which logs of a guest exist.
#[derive(Debug, Clone, Copy, PartialEq, Eq, Structural)]
pub struct VmLogs {
    pub serial: bool,
    pub qemu: bool,
    pub swtpm: bool,
}

/// Which logs of a lab exist.
pub struct Listing {
    pub events: bool,
    pub lab: bool,
    pub vms: NameMap<VmLogs>,
}

/// A file, where it exists.
pub open spec fn file_if(there: bool, source: Seq<char>, stream: Seq<char>, path: Seq<char>) -> Seq<
    LogFileView,
> {
    if there {
        seq![LogFileView { source, stream, path }]
    } else {
        Seq::empty()
    }
}

/// The log files of a guest.
pub open spec fn vm_files(base: Seq<char>, vm: Seq<char>, logs: VmLogs) -> Seq<LogFileView> {
    let dir = path_join(path_join(base, "vms"@), vm);
    file_if(logs.serial, vm, "serial"@, path_join(dir, "serial.log"@)) + file_if(
        logs.qemu,
        vm,
        "qemu"@,
        path_join(dir, "qemu.log"@),
    ) + file_if(logs.swtpm, vm, "swtpm"@, path_join(dir, "swtpm.log"@))
}

/// The log files of the first `n` guests.
pub open spec fn all_vm_files(
    base: Seq<char>,
    names: Seq<Seq<char>>,
    logs: Map<Seq<char>, VmLogs>,
    n: int,
) -> Seq<LogFileView>
    decreases n,
{
    if n <= 0 {
        Seq::empty()
    } else {
        all_vm_files(base, names, logs, n - 1) + vm_files(
            base,
            names[n - 1],
            logs[names[n - 1]],
        )
    }
}

/// The log files of a lab.
pub open spec fn lab_files(base: Seq<char>, events: bool, lab: bool) -> Seq<LogFileView> {
    file_if(events, LAB_SOURCE@, "events"@, path_join(base, "events.jsonl"@)) + file_if(
        lab,
        LAB_SOURCE@,
        "lab"@,
        path_join(base, "lab.log"@),
    )
}

fn add_file(out: &mut Vec<LogFile>, there: bool, source: &str, stream: &str, path: String)
    ensures
        final(out).deep_view() == old(out).deep_view() + file_if(
            there,
            source@,
            stream@,
            path@,
        ),
{
    if there {
        let f = LogFile { source: source.to_owned(), stream: stream.to_owned(), path };
        let ghost v = f.deep_view();
        out.push(f);
        assert(out.deep_view() =~= old(out).deep_view().push(v));
    }
    assert(out.deep_view() =~= old(out).deep_view() + file_if(there, source@, stream@, path@));
}

/// Every log file that exists for a lab, in a stable order: the lab-level
/// events then `lab.log`, then each VM's serial/qemu/swtpm (VMs sorted by
/// name).
pub fn enumerate_in(base: &str, listing: &Listing) -> (r: Vec<LogFile>)
    ensures
        r.deep_view() == lab_files(base@, listing.events, listing.lab) + all_vm_files(
            base@,
            listing.vms.names(),
            listing.vms@,
            listing.vms.names().len() as int,
        ),
{
    let mut out: Vec<LogFile> = Vec::new();
    assert(out.deep_view() =~= Seq::empty());
    add_file(&mut out, listing.events, LAB_SOURCE, "events", join_path(base, "events.jsonl"));
    add_file(&mut out, listing.lab, LAB_SOURCE, "lab", join_path(base, "lab.log"));
    let ghost head = lab_files(base@, listing.events, listing.lab);
    assert(out.deep_view() =~= head);
    let vms = join_path(base, "vms");
    let mut i: usize = 0;
    assert(head + all_vm_files(base@, listing.vms.names(), listing.vms@, 0) =~= head);
    while i < listing.vms.len()
        invariant
            i <= listing.vms.names().len(),
            vms@ == path_join(base@, "vms"@),
            out.deep_view() == head + all_vm_files(
                base@,
                listing.vms.names(),
                listing.vms@,
                i as int,
            ),
        decreases listing.vms.names().len() - i,
    {
        let ghost had = out.deep_view();
        let (vm, logs) = listing.vms.at(i);
        let dir = join_path(vms.as_str(), vm.as_str());
        add_file(
            &mut out,
            logs.serial,
            vm.as_str(),
            "serial",
            join_path(dir.as_str(), "serial.log"),
        );
        add_file(&mut out, logs.qemu, vm.as_str(), "qemu", join_path(dir.as_str(), "qemu.log"));
        add_file(&mut out, logs.swtpm, vm.as_str(), "swtpm", join_path(dir.as_str(), "swtpm.log"));
        assert(out.deep_view() =~= had + vm_files(base@, vm@, *logs));
        assert(out.deep_view() =~= head + (all_vm_files(
            base@,
            listing.vms.names(),
            listing.vms@,
            i as int,
        ) + vm_files(base@, vm@, *logs)));
        i = i + 1;
    }
    out
}

/// Every log file that exists for a lab.
pub fn enumerate(state: &str, lab: &str, listing: &Listing) -> (r: Vec<LogFile>)
    ensures
        ({
            let base = lab_dir_of(state@, lab@);
            r.deep_view() == lab_files(base, listing.events, listing.lab) + all_vm_files(
                base,
                listing.vms.names(),
                listing.vms@,
                listing.vms.names().len() as int,
            )
        }),
{
    let base = lab_dir(state, lab);
    enumerate_in(base.as_str(), listing)
}

// -- lines ------------------------------------------------------------------------------------

/// What an event carries. Each value is as it is shown: a string verbatim, any
/// other as it is written.
#[derive(Debug)]
pub enum EventData {
    Null,
    Fields(Vec<(String, String)>),
    Other(String),
}

/// An event.
#[derive(Debug)]
pub struct Event {
    pub event: String,
    pub ts: String,
    pub data: EventData,
}

/// The fields of an event, `key=value` each.
pub open spec fn fields_text(fields: Seq<(String, String)>) -> Seq<char>
    decreases fields.len(),
{
    if fields.len() == 0 {
        Seq::empty()
    } else {
        let one = fields.last().0@ + "="@ + fields.last().1@;
        if fields.len() == 1 {
            one
        } else {
            fields_text(fields.drop_last()) + " "@ + one
        }
    }
}

/// What an event carries, as text.
pub open spec fn data_text(d: EventData) -> Seq<char> {
    match d {
        EventData::Null => Seq::empty(),
        EventData::Fields(fields) => fields_text(fields@),
        EventData::Other(s) => s@,
    }
}

/// An event in one line.
pub open spec fn event_text(e: Event) -> Seq<char> {
    trimmed_end(e.event@ + " "@ + data_text(e.data))
}

fn joined_fields(fields: &Vec<(String, String)>) -> (r: String)
    ensures
        r@ == fields_text(fields@),
{
    let mut out = String::new();
    assert(out@ =~= Seq::empty());
    let mut i: usize = 0;
    assert(fields@.take(0) =~= Seq::empty());
    while i < fields.len()
        invariant
            i <= fields@.len(),
            out@ == fields_text(fields@.take(i as int)),
        decreases fields@.len() - i,
    {
        proof {
            let t = fields@.take(i as int + 1);
            assert(t.drop_last() =~= fields@.take(i as int));
            assert(t.last() == fields@[i as int]);
        }
        let one = cat3(fields[i].0.as_str(), "=", fields[i].1.as_str());
        if i > 0 {
            out.append(" ");
        }
        let ghost was = out@;
        out.append(one.as_str());
        assert(i == 0 ==> out@ =~= one@);
        i = i + 1;
    }
    assert(fields@.take(i as int) =~= fields@);
    out
}

/// Flatten an event into a one-line `event key=value …` summary.
pub fn format_event(e: &Event) -> (r: String)
    ensures
        r@ == event_text(*e),
{
    let data: String = match &e.data {
        EventData::Null => String::new(),
        EventData::Fields(fields) => joined_fields(fields),
        EventData::Other(s) => s.clone(),
    };
    assert(data@ =~= data_text(e.data));
    let line = cat3(e.event.as_str(), " ", data.as_str());
    trim_tail(line.as_str())
}

/// Tag one raw line of a log file. `event` is what the line reads as: a line
/// of the events that does not read as one, and any line of another stream,
/// stays as it is.
pub fn parse_line(source: &str, stream: &str, raw: &str, event: Option<&Event>) -> (r: LogEntry)
    ensures
        r.source@ == source@,
        r.stream@ == stream@,
        ({
            let read = stream@ == "events"@ && event is Some;
            &&& r.ts is Some <==> read
            &&& read ==> r.ts->0@ == event->0.ts@ && r.text@ == event_text(*event->0)
            &&& !read ==> r.text@ == raw@
        }),
{
    if str_eq(stream, "events") {
        if let Some(e) = event {
            return LogEntry {
                source: source.to_owned(),
                stream: stream.to_owned(),
                ts: Some(e.ts.clone()),
                text: format_event(e),
            };
        }
    }
    LogEntry {
        source: source.to_owned(),
        stream: stream.to_owned(),
        ts: None,
        text: raw.to_owned(),
    }
}

/// A line without the carriage return at its end.
pub open spec fn without_return(s: Seq<char>) -> Seq<char> {
    if s.len() > 0 && s.last() == '\r' {
        s.drop_last()
    } else {
        s
    }
}

/// The lines of a text: what a newline ends, and what follows the last one
/// where that is not empty.
pub open spec fn text_lines(s: Seq<char>) -> Seq<Seq<char>>
    decreases s.len(),
{
    match crate::text::find_char(s, '\n') {
        Some(i) => if 0 <= i < s.len() {
            seq![without_return(s.take(i))] + text_lines(s.skip(i + 1))
        } else {
            Seq::empty()
        },
        None => if s.len() == 0 {
            Seq::empty()
        } else {
            seq![s]
        },
    }
}

fn line_of(c: &[char], from: usize, to: usize) -> (r: String)
    requires
        from <= to <= c@.len(),
    ensures
        r@ == without_return(c@.subrange(from as int, to as int)),
{
    let ghost all = c@.subrange(from as int, to as int);
    let end: usize = if to > from && c[to - 1] == '\r' {
        to - 1
    } else {
        to
    };
    let part = slice_subrange(c, from, end);
    assert(part@ =~= without_return(all));
    string_of(part)
}

/// The lines of a text.
pub fn lines(content: &str) -> (r: Vec<String>)
    ensures
        r.deep_view() == text_lines(content@),
{
    let c = chars_of(content);
    assert(c.len() == c@.len());
    let mut out: Vec<String> = Vec::new();
    let mut from: usize = 0;
    assert(out.deep_view() =~= Seq::empty());
    assert(c@.skip(0) =~= c@);
    assert(out.deep_view() + text_lines(c@.skip(0)) =~= text_lines(c@));
    while from < c.len()
        invariant
            from <= c@.len(),
            c.len() == c@.len(),
            text_lines(c@) == out.deep_view() + text_lines(c@.skip(from as int)),
        decreases c@.len() - from,
    {
        let ghost rest = c@.skip(from as int);
        let ghost had = out.deep_view();
        let tail = slice_subrange(c.as_slice(), from, c.len());
        assert(tail@ =~= rest);
        match crate::text::index_of_char(tail, '\n') {
            Some(i) => {
                assert(rest.take(i as int) =~= c@.subrange(from as int, from + i));
                assert(rest.skip(i + 1) =~= c@.skip(from + i + 1));
                let line = line_of(c.as_slice(), from, from + i);
                let ghost text = line@;
                out.push(line);
                assert(out.deep_view() =~= had.push(text));
                assert(had + (seq![text] + text_lines(c@.skip(from + i + 1))) =~= out.deep_view()
                    + text_lines(c@.skip(from + i + 1)));
                from = from + i + 1;
            },
            None => {
                let line = string_of(tail);
                let ghost text = line@;
                out.push(line);
                assert(out.deep_view() =~= had.push(text));
                assert(c@.skip(c@.len() as int) =~= Seq::empty());
                assert(crate::text::find_char(Seq::<char>::empty(), '\n') is None);
                assert(text_lines(c@.skip(c@.len() as int)) =~= Seq::empty());
                assert(had + seq![text] =~= out.deep_view() + text_lines(
                    c@.skip(c@.len() as int),
                ));
                from = c.len();
            },
        }
    }
    proof {
        assert(c@.skip(from as int) =~= Seq::empty());
        assert(crate::text::find_char(Seq::<char>::empty(), '\n') is None);
        assert(text_lines(c@.skip(from as int)) =~= Seq::empty());
        assert(text_lines(c@) =~= out.deep_view());
    }
    out
}

/// The last `n` of a sequence.
pub open spec fn last_of(s: Seq<Seq<char>>, n: int) -> Seq<Seq<char>> {
    if n >= s.len() {
        s
    } else {
        s.skip(s.len() - n)
    }
}

/// The last `n` lines of a text.
pub fn tail(content: &str, n: usize) -> (r: Vec<String>)
    ensures
        r.deep_view() == last_of(text_lines(content@), n as int),
{
    let all = lines(content);
    let ghost view = all.deep_view();
    let start: usize = if n >= all.len() {
        0
    } else {
        all.len() - n
    };
    let mut out: Vec<String> = Vec::new();
    let mut i: usize = start;
    while i < all.len()
        invariant
            start <= i <= all@.len(),
            view == all.deep_view(),
            view.len() == all@.len(),
            out@.len() == i - start,
            forall|j: int| 0 <= j < i - start ==> #[trigger] out@[j]@ == view[start + j],
        decreases all@.len() - i,
    {
        assert(view[i as int] == all@[i as int]@);
        out.push(all[i].clone());
        i = i + 1;
    }
    assert(out.deep_view() =~= last_of(view, n as int));
    out
}

// -- laws -------------------------------------------------------------------------------------

/// The events of a lab come before its own log, and both before those of its
/// guests.
pub proof fn events_come_first(base: Seq<char>, events: bool, lab: bool)
    ensures
        events ==> lab_files(base, events, lab)[0].stream == "events"@,
        events && lab ==> lab_files(base, events, lab)[1].stream == "lab"@,
        forall|i: int|
            0 <= i < lab_files(base, events, lab).len() ==> #[trigger] lab_files(
                base,
                events,
                lab,
            )[i].source == LAB_SOURCE@,
{
}

/// No more than the lines asked for are shown, and those are the last.
pub proof fn tail_is_a_suffix(s: Seq<Seq<char>>, n: nat)
    ensures
        last_of(s, n as int).len() <= n,
        last_of(s, n as int).len() == n || last_of(s, n as int) == s,
        last_of(s, n as int).is_suffix_of(s),
{
}

/// A line ends at the first newline, with the carriage return before it, if
/// any, left out; what follows is split in the same way; and what no newline
/// ends is a line unless it is empty.
pub proof fn lines_end_at_newlines(line: Seq<char>, rest: Seq<char>)
    requires
        forall|i: int| 0 <= i < line.len() ==> line[i] != '\n',
    ensures
        ({
            let shown = if line.len() > 0 && line.last() == '\r' {
                line.drop_last()
            } else {
                line
            };
            &&& text_lines(line + seq!['\n'] + rest) == seq![shown] + text_lines(rest)
            &&& line.len() > 0 ==> text_lines(line) == seq![line]
            &&& line.len() == 0 ==> text_lines(line).len() == 0
        }),
{
    let s = line + seq!['\n'] + rest;
    crate::text::lemma_find_char(s, '\n', line.len() as int);
    assert(s.take(line.len() as int) =~= line);
    assert(s.skip(line.len() as int + 1) =~= rest);
    lemma_no_newline(line);
}

proof fn lemma_no_newline(line: Seq<char>)
    requires
        forall|i: int| 0 <= i < line.len() ==> line[i] != '\n',
    ensures
        crate::text::find_char(line, '\n') is None,
    decreases line.len(),
{
    crate::text::lemma_found(line, '\n');
}

/// Every log that exists is listed, under its source and stream, and no other:
/// the lab's own, and each guest's in the order of their names.
pub proof fn every_log_is_listed(
    base: Seq<char>,
    names: Seq<Seq<char>>,
    logs: Map<Seq<char>, VmLogs>,
    n: int,
    k: int,
)
    requires
        0 <= k < n <= names.len(),
    ensures
        ({
            let vm = names[k];
            let dir = path_join(path_join(base, "vms"@), vm);
            let all = all_vm_files(base, names, logs, n);
            &&& logs[vm].serial ==> all.contains(
                LogFileView { source: vm, stream: "serial"@, path: path_join(dir, "serial.log"@) },
            )
            &&& logs[vm].qemu ==> all.contains(
                LogFileView { source: vm, stream: "qemu"@, path: path_join(dir, "qemu.log"@) },
            )
            &&& logs[vm].swtpm ==> all.contains(
                LogFileView { source: vm, stream: "swtpm"@, path: path_join(dir, "swtpm.log"@) },
            )
            &&& vm_files(base, vm, logs[vm]).len() == (if logs[vm].serial {
                1int
            } else {
                0
            }) + (if logs[vm].qemu {
                1int
            } else {
                0
            }) + (if logs[vm].swtpm {
                1int
            } else {
                0
            })
            &&& all == all_vm_files(base, names, logs, n - 1) + vm_files(
                base,
                names[n - 1],
                logs[names[n - 1]],
            )
        }),
    decreases n,
{
    let front = all_vm_files(base, names, logs, n - 1);
    let last = vm_files(base, names[n - 1], logs[names[n - 1]]);
    if k < n - 1 {
        every_log_is_listed(base, names, logs, n - 1, k);
        assert forall|f: LogFileView| front.contains(f) implies #[trigger] (front + last).contains(
            f,
        ) by {
            let i = choose|i: int| 0 <= i < front.len() && front[i] == f;
            assert((front + last)[i] == f);
        }
    } else {
        let vm = names[k];
        let l = logs[vm];
        assert forall|f: LogFileView| last.contains(f) implies #[trigger] (front + last).contains(
            f,
        ) by {
            let i = choose|i: int| 0 <= i < last.len() && last[i] == f;
            assert((front + last)[front.len() + i] == f);
        }
        if l.serial {
            assert(last.contains(last[0]));
        }
        if l.qemu {
            let i = if l.serial {
                1int
            } else {
                0
            };
            assert(last.contains(last[i]));
        }
        if l.swtpm {
            assert(last.contains(last[last.len() - 1]));
        }
    }
}

/// An event is shown as its name and its fields, `key=value` each, with single
/// spaces between them; without fields it is its name.
pub proof fn event_shows_its_fields(fields: Seq<(String, String)>, more: (String, String))
    ensures
        fields.len() == 0 ==> fields_text(fields).len() == 0 && fields_text(fields.push(more))
            == more.0@ + "="@ + more.1@,
        fields.len() > 0 ==> fields_text(fields.push(more)) == fields_text(fields) + " "@ + (
        more.0@ + "="@ + more.1@),
{
    assert(fields.push(more).drop_last() =~= fields);
}

} // verus!
