//! First boot: a template's own script, run once in each clone before the
//! guest counts as ready.

use vstd::prelude::*;

use crate::text::{cat3, decimal, decimal_string, joined};

verus! {

/// How long the guest agent may take to answer, in seconds.
pub const AGENT_WAIT: u64 = 600;

/// How long the script may take, in seconds.
pub const SCRIPT_LIMIT: u64 = 1800;

/// What a guest's first boot does next.
#[derive(Debug)]
pub enum FirstBootStep {
    /// There is nothing to run, or it has run.
    Nothing,
    /// Say this, and wait for the guest agent.
    AwaitAgent(String),
    /// Run the script under this label.
    Run(String),
    /// Record that the script has run.
    Record,
    /// The guest is ready: announce it, and say this.
    Ready(String),
    Failed(String),
}

/// The contents of a [`FirstBootStep`].
pub ghost enum FirstBootStepView {
    Nothing,
    AwaitAgent(Seq<char>),
    Run(Seq<char>),
    Record,
    Ready(Seq<char>),
    Failed(Seq<char>),
}

impl DeepView for FirstBootStep {
    type V = FirstBootStepView;

    open spec fn deep_view(&self) -> FirstBootStepView {
        match *self {
            FirstBootStep::Nothing => FirstBootStepView::Nothing,
            FirstBootStep::AwaitAgent(s) => FirstBootStepView::AwaitAgent(s@),
            FirstBootStep::Run(s) => FirstBootStepView::Run(s@),
            FirstBootStep::Record => FirstBootStepView::Record,
            FirstBootStep::Ready(s) => FirstBootStepView::Ready(s@),
            FirstBootStep::Failed(s) => FirstBootStepView::Failed(s@),
        }
    }
}

/// What came of a step.
#[derive(Clone, Copy, Debug, PartialEq, Eq, Structural)]
pub enum FirstBootEvent {
    AgentUp,
    AgentMissing,
    ScriptDone,
    ScriptFailed,
    /// The script was still running at its limit.
    TimedOut,
    Recorded,
    RecordFailed,
}

/// The first step of a guest whose template has a script or none, and whose
/// clone has run it or not.
pub open spec fn first_step(name: Seq<char>, script: bool, recorded: bool) -> FirstBootStepView {
    if script && !recorded {
        FirstBootStepView::AwaitAgent("first-boot: provisioning "@ + name + "...\n"@)
    } else {
        FirstBootStepView::Nothing
    }
}

/// The step behind an event.
pub open spec fn step_after(name: Seq<char>, event: FirstBootEvent) -> FirstBootStepView {
    match event {
        FirstBootEvent::AgentUp => FirstBootStepView::Run("first-boot:"@ + name),
        FirstBootEvent::AgentMissing => FirstBootStepView::Failed(
            "first-boot "@ + name + ": agent did not come up"@,
        ),
        FirstBootEvent::ScriptDone => FirstBootStepView::Record,
        FirstBootEvent::ScriptFailed => FirstBootStepView::Failed(
            "first-boot provision for "@ + name,
        ),
        FirstBootEvent::TimedOut => FirstBootStepView::Failed(
            "first-boot "@ + name + ": timed out after "@ + decimal(SCRIPT_LIMIT as nat) + "s"@,
        ),
        FirstBootEvent::Recorded => FirstBootStepView::Ready(
            "first-boot: "@ + name + " ready\n"@,
        ),
        FirstBootEvent::RecordFailed => FirstBootStepView::Failed(
            "writing first-boot sentinel for "@ + name,
        ),
    }
}

/// The first step of a guest's first boot.
pub fn first_boot(name: &str, script: bool, recorded: bool) -> (r: FirstBootStep)
    ensures
        r.deep_view() == first_step(name@, script, recorded),
{
    if script && !recorded {
        FirstBootStep::AwaitAgent(cat3("first-boot: provisioning ", name, "...\n"))
    } else {
        FirstBootStep::Nothing
    }
}

/// The next step of a guest's first boot.
pub fn after_first_boot(name: &str, event: FirstBootEvent) -> (r: FirstBootStep)
    ensures
        r.deep_view() == step_after(name@, event),
{
    match event {
        FirstBootEvent::AgentUp => FirstBootStep::Run(joined("first-boot:", name)),
        FirstBootEvent::AgentMissing => FirstBootStep::Failed(
            cat3("first-boot ", name, ": agent did not come up"),
        ),
        FirstBootEvent::ScriptDone => FirstBootStep::Record,
        FirstBootEvent::ScriptFailed => FirstBootStep::Failed(
            joined("first-boot provision for ", name),
        ),
        FirstBootEvent::TimedOut => {
            let head = cat3("first-boot ", name, ": timed out after ");
            let limit = decimal_string(SCRIPT_LIMIT);
            FirstBootStep::Failed(cat3(head.as_str(), limit.as_str(), "s"))
        },
        FirstBootEvent::Recorded => FirstBootStep::Ready(cat3("first-boot: ", name, " ready\n")),
        FirstBootEvent::RecordFailed => FirstBootStep::Failed(
            joined("writing first-boot sentinel for ", name),
        ),
    }
}

// -- laws ----------------------------------------------------------------------

/// Whether a run of events is one that the steps from `step` on ask for, each
/// answering the step before it.
pub open spec fn answers_steps(name: Seq<char>, step: FirstBootStepView, events: Seq<FirstBootEvent>) -> bool
    decreases events.len(),
{
    if events.len() == 0 {
        true
    } else {
        let e = events[0];
        let fits = match step {
            FirstBootStepView::AwaitAgent(_) => e is AgentUp || e is AgentMissing,
            FirstBootStepView::Run(_) => e is ScriptDone || e is ScriptFailed || e is TimedOut,
            FirstBootStepView::Record => e is Recorded || e is RecordFailed,
            _ => false,
        };
        fits && answers_steps(name, step_after(name, e), events.skip(1))
    }
}

/// The step that a run of events ends in.
pub open spec fn last_step(name: Seq<char>, step: FirstBootStepView, events: Seq<FirstBootEvent>) -> FirstBootStepView
    decreases events.len(),
{
    if events.len() == 0 {
        step
    } else {
        last_step(name, step_after(name, events[0]), events.skip(1))
    }
}

/// A guest with a pending first boot becomes ready only once the agent has
/// answered, the script has run and that has been recorded, in this order; and
/// from then on it has nothing more to run.
pub proof fn ready_behind_the_script(name: Seq<char>, events: Seq<FirstBootEvent>)
    requires
        answers_steps(name, first_step(name, true, false), events),
    ensures
        events.len() <= 3,
        last_step(name, first_step(name, true, false), events) is Ready <==> events == seq![
            FirstBootEvent::AgentUp,
            FirstBootEvent::ScriptDone,
            FirstBootEvent::Recorded,
        ],
        first_step(name, true, true) is Nothing,
{
    let first = first_step(name, true, false);
    let all = seq![FirstBootEvent::AgentUp, FirstBootEvent::ScriptDone, FirstBootEvent::Recorded];
    reveal_with_fuel(answers_steps, 5);
    reveal_with_fuel(last_step, 5);
    if events.len() > 0 {
        let a = events.skip(1);
        if a.len() > 0 {
            let b = a.skip(1);
            assert(a[0] == events[1]);
            if b.len() > 0 {
                assert(b[0] == events[2]);
                let c = b.skip(1);
                assert(c.len() == 0);
                if last_step(name, first, events) is Ready {
                    assert(events =~= all);
                }
            }
        }
    }
    if events == all {
        assert(events.skip(1).skip(1).skip(1).len() == 0);
        assert(events.skip(1)[0] == FirstBootEvent::ScriptDone);
        assert(events.skip(1).skip(1)[0] == FirstBootEvent::Recorded);
    }
}

/// A failure anywhere in the first boot ends it, and everything else leads on:
/// the agent's answer to the script, the script's success to the record, the
/// record to readiness. A guest without a script, or whose script has run, has
/// nothing to do.
pub proof fn failures_end_the_first_boot(
    name: &str,
    event: FirstBootEvent,
    r: FirstBootStep,
    script: bool,
    recorded: bool,
    first: FirstBootStep,
)
    requires
        call_ensures(after_first_boot, (name, event), r),
        call_ensures(first_boot, (name, script, recorded), first),
    ensures
        r is Failed <==> event == FirstBootEvent::AgentMissing || event
            == FirstBootEvent::ScriptFailed || event == FirstBootEvent::TimedOut || event
            == FirstBootEvent::RecordFailed,
        r is Run <==> event == FirstBootEvent::AgentUp,
        r is Record <==> event == FirstBootEvent::ScriptDone,
        r is Ready <==> event == FirstBootEvent::Recorded,
        first is AwaitAgent <==> script && !recorded,
        first is Nothing <==> !script || recorded,
{
}

} // verus!
