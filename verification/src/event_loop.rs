//! What the X11 worker does next.

use vstd::prelude::*;

use crate::bridge::{without_change, BridgeView, ClipboardBridge};
use crate::events::SelectionChange;
use crate::property::NONE;

verus! {

/// The next thing for the worker to do.
#[derive(Clone, Copy, Debug, PartialEq, Eq, Structural)]
pub enum LoopStep {
    /// Look for a command.
    ReceiveCommand,
    /// Handle all events that are there.
    DrainEvents,
    /// Deal with a change of the selection.
    ProcessChange(SelectionChange),
    /// Wait for the connection or the wake pipe.
    Poll,
    /// Empty the wake pipe.
    DrainWake,
    /// End without an error.
    Stop,
    /// End because the connection is closed.
    ConnectionClosed,
}

/// What came of looking for a command.
#[derive(Clone, Copy, Debug, PartialEq, Eq, Structural)]
pub enum CommandPoll {
    /// There was one, and it was carried out.
    Executed,
    /// There is none.
    Empty,
    /// There will be none.
    Disconnected,
}

/// What polling found on one descriptor.
#[derive(Clone, Copy, Debug, PartialEq, Eq, Structural)]
pub struct PollEvents {
    pub input: bool,
    pub error: bool,
    pub hang_up: bool,
    pub invalid: bool,
}

/// What a change of the selection asks for.
#[derive(Clone, Copy, Debug, PartialEq, Eq, Structural)]
pub enum ChangeStep {
    /// Report that the clipboard was cleared.
    ReportCleared,
    /// Capture the content.
    Capture,
}

/// What to do once a command was looked for.
pub open spec fn step_after_command(poll: CommandPoll) -> LoopStep {
    match poll {
        CommandPoll::Executed => LoopStep::ReceiveCommand,
        CommandPoll::Empty => LoopStep::DrainEvents,
        CommandPoll::Disconnected => LoopStep::Stop,
    }
}

/// What to do once the events are handled.
pub open spec fn step_after_events(bridge: BridgeView) -> LoopStep {
    match bridge.pending_change {
        Some(change) => LoopStep::ProcessChange(change),
        None => LoopStep::Poll,
    }
}

/// What a change of the selection asks for.
pub open spec fn step_for_change(change: SelectionChange) -> ChangeStep {
    if change.owner == NONE {
        ChangeStep::ReportCleared
    } else {
        ChangeStep::Capture
    }
}

/// As long as there are commands they are looked for, and the worker stops
/// exactly when there can be none any more. It waits exactly when no change is
/// pending, and else deals with that change. A change is a clear exactly when
/// there is no owner.
pub proof fn law_nothing_is_left_waiting(
    poll: CommandPoll,
    bridge: BridgeView,
    change: SelectionChange,
)
    ensures
        step_after_command(poll) is ReceiveCommand <==> poll is Executed,
        step_after_command(poll) is Stop <==> poll is Disconnected,
        step_after_command(poll) is DrainEvents <==> poll is Empty,
        step_after_events(bridge) is Poll <==> bridge.pending_change is None,
        bridge.pending_change is Some ==> step_after_events(bridge) == LoopStep::ProcessChange(
            bridge.pending_change->0,
        ),
        step_for_change(change) is ReportCleared <==> change.owner == 0,
{
}

/// Commands are carried out until there is none left.
pub fn after_command(poll: CommandPoll) -> (step: LoopStep)
    ensures
        step == step_after_command(poll),
{
    match poll {
        CommandPoll::Executed => LoopStep::ReceiveCommand,
        CommandPoll::Empty => LoopStep::DrainEvents,
        CommandPoll::Disconnected => LoopStep::Stop,
    }
}

/// Once the events are handled a pending change is taken up; where there is
/// none the worker waits.
pub fn after_events(bridge: &mut ClipboardBridge) -> (step: LoopStep)
    ensures
        step == step_after_events(old(bridge)@),
        final(bridge)@ == without_change(old(bridge)@),
{
    match bridge.take_change() {
        Some(change) => LoopStep::ProcessChange(change),
        None => LoopStep::Poll,
    }
}

/// What to do once something was polled.
pub open spec fn step_after_poll(x11: PollEvents, wake: PollEvents) -> LoopStep {
    if (x11.error || x11.hang_up || x11.invalid) && !x11.input {
        LoopStep::ConnectionClosed
    } else if wake.hang_up {
        LoopStep::Stop
    } else if wake.input {
        LoopStep::DrainWake
    } else {
        LoopStep::ReceiveCommand
    }
}

/// The worker ends only where it has to: the connection is given up exactly when
/// it is broken and there is nothing left to read, and else the worker stops
/// exactly when nobody can wake it any more. Otherwise it goes on, and empties
/// the wake pipe exactly when there is something in it.
pub proof fn law_worker_goes_on(x11: PollEvents, wake: PollEvents)
    ensures
        ({
            let broken = !x11.input && (x11.error || x11.hang_up || x11.invalid);
            let step = step_after_poll(x11, wake);
            &&& (step is ConnectionClosed <==> broken)
            &&& (step is Stop <==> !broken && wake.hang_up)
            &&& (step is DrainWake <==> !broken && !wake.hang_up && wake.input)
            &&& (step is ReceiveCommand <==> !broken && !wake.hang_up && !wake.input)
        }),
{
}

/// A broken connection with nothing left to read ends the worker, and so does
/// the end of the wake pipe; a wake-up is taken note of.
pub fn after_poll(x11: PollEvents, wake: PollEvents) -> (step: LoopStep)
    ensures
        step == step_after_poll(x11, wake),
{
    if (x11.error || x11.hang_up || x11.invalid) && !x11.input {
        LoopStep::ConnectionClosed
    } else if wake.hang_up {
        LoopStep::Stop
    } else if wake.input {
        LoopStep::DrainWake
    } else {
        LoopStep::ReceiveCommand
    }
}

/// Once a change was dealt with, commands come first again.
pub fn after_change() -> (step: LoopStep)
    ensures
        step == LoopStep::ReceiveCommand,
{
    LoopStep::ReceiveCommand
}

/// Once the wake pipe is empty, the commands that it announced are carried out.
pub fn after_wake() -> (step: LoopStep)
    ensures
        step == LoopStep::ReceiveCommand,
{
    LoopStep::ReceiveCommand
}

/// A selection without an owner was cleared, any other one has content.
pub fn process_selection_change(change: SelectionChange) -> (step: ChangeStep)
    ensures
        step == step_for_change(change),
{
    if change.owner == NONE {
        ChangeStep::ReportCleared
    } else {
        ChangeStep::Capture
    }
}

} // verus!
