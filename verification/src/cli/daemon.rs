//! Supervisor control.

use vstd::prelude::*;

use crate::text::{cat3, cat7};

verus! {

/// Supervisor control.
#[derive(Debug, Clone, Copy, PartialEq, Eq, Structural)]
pub enum DaemonCmd {
    /// Start the supervisor (normally automatic)
    Start,
    /// Stop the supervisor and all lab daemons
    Stop,
    /// Show supervisor status and lab daemons
    Status,
}

/// What the supervisor knows of a lab daemon. The process is as it is shown.
#[derive(Debug)]
pub struct DaemonEntry {
    pub name: Option<String>,
    pub state: Option<String>,
    pub pid: String,
    pub root: Option<String>,
}

/// A text, or a question mark.
pub open spec fn known(t: Option<Seq<char>>) -> Seq<char> {
    match t {
        Some(s) => s,
        None => "?"@,
    }
}

fn known_text(t: &Option<String>) -> (r: &str)
    ensures
        r@ == known(t.deep_view()),
{
    match t {
        Some(s) => s.as_str(),
        None => "?",
    }
}

/// The line that tells of a lab daemon.
pub open spec fn daemon_line(e: DaemonEntry) -> Seq<char> {
    "  "@ + known(e.name.deep_view()) + " ["@ + known(e.state.deep_view()) + "] pid "@ + e.pid@
        + " root "@ + known(e.root.deep_view()) + "\n"@
}

/// The lines that tell of the lab daemons.
pub open spec fn daemon_lines(entries: Seq<DaemonEntry>) -> Seq<char>
    decreases entries.len(),
{
    if entries.len() == 0 {
        Seq::empty()
    } else {
        daemon_lines(entries.drop_last()) + daemon_line(entries.last())
    }
}

/// What is told of the supervisor, when it answers.
pub open spec fn supervisor_text(
    version: Option<Seq<char>>,
    socket: Seq<char>,
    entries: Seq<DaemonEntry>,
) -> Seq<char> {
    "vmlabd "@ + known(version) + " at "@ + socket + "\n"@ + (if entries.len() == 0 {
        "no lab daemons\n"@
    } else {
        daemon_lines(entries)
    })
}

/// What is told of the supervisor: its version, and each lab daemon.
pub fn supervisor_status(
    version: &Option<String>,
    socket: &str,
    entries: &Vec<DaemonEntry>,
) -> (r: String)
    ensures
        r@ == supervisor_text(version.deep_view(), socket@, entries@),
{
    let mut out = cat3("vmlabd ", known_text(version), " at ");
    out.append(socket);
    out.append("\n");
    if entries.len() == 0 {
        out.append("no lab daemons\n");
        return out;
    }
    let ghost head = out@;
    let mut i: usize = 0;
    assert(entries@.take(0) =~= Seq::empty());
    assert(head + daemon_lines(entries@.take(0)) =~= head);
    while i < entries.len()
        invariant
            i <= entries@.len(),
            out@ == head + daemon_lines(entries@.take(i as int)),
        decreases entries@.len() - i,
    {
        proof {
            let t = entries@.take(i as int + 1);
            assert(t.drop_last() =~= entries@.take(i as int));
            assert(t.last() == entries@[i as int]);
        }
        let e = &entries[i];
        let ghost was = out@;
        let mut line = cat7(
            "  ",
            known_text(&e.name),
            " [",
            known_text(&e.state),
            "] pid ",
            e.pid.as_str(),
            " root ",
        );
        line.append(known_text(&e.root));
        line.append("\n");
        out.append(line.as_str());
        assert(out@ =~= head + (daemon_lines(entries@.take(i as int)) + daemon_line(
            entries@[i as int],
        )));
        i = i + 1;
    }
    assert(entries@.take(i as int) =~= entries@);
    out
}

/// How often the supervisor is tried after it was started.
pub const SUPERVISOR_TRIES: u32 = 100;

/// What is said when the supervisor does not come up.
pub fn supervisor_absent(log: &str) -> (r: String)
    ensures
        r@ == "supervisor did not come up — check "@ + log@,
{
    crate::text::joined("supervisor did not come up — check ", log)
}

} // verus!
