//! X11 events and how the waits for them end.

use vstd::prelude::*;

use crate::property::NONE;

verus! {

/// A change of the owner of the clipboard selection.
#[derive(Clone, Copy, Debug, PartialEq, Eq, Structural)]
pub struct SelectionChange {
    pub owner: u32,
    pub timestamp: u32,
}

/// A request by another client for the content of the selection.
#[derive(Clone, Copy, Debug, PartialEq, Eq, Structural)]
pub struct SelectionRequest {
    pub time: u32,
    pub requestor: u32,
    pub selection: u32,
    pub target: u32,
    pub property: u32,
}

/// The answer to a [`SelectionRequest`]. The property is [`NONE`] where the
/// request is refused.
#[derive(Clone, Copy, Debug, PartialEq, Eq, Structural)]
pub struct SelectionNotify {
    pub time: u32,
    pub requestor: u32,
    pub selection: u32,
    pub target: u32,
    pub property: u32,
}

/// An event from the X11 server.
#[derive(Clone, Copy, Debug, PartialEq, Eq, Structural)]
pub enum X11Event {
    /// The owner of the selection changed.
    OwnerChanged(SelectionChange),
    /// Another client asks for the content of the selection.
    SelectionRequest(SelectionRequest),
    /// The bridge lost the selection.
    SelectionClear,
    /// A conversion request was answered, with this property.
    SelectionNotify(u32),
    /// A property of a window has a new value.
    PropertyUpdated { window: u32, atom: u32 },
    /// A property of a window was deleted.
    PropertyDeleted { window: u32, atom: u32 },
    /// Anything else.
    Other,
}

/// What an event means to a wait.
#[derive(Clone, Copy, Debug, PartialEq, Eq, Structural)]
pub enum WaitStep {
    /// The wait is over.
    Ready,
    /// The owner refused the target.
    Refused,
    /// The event is not waited for: handle it as usual and wait on.
    Dispatch,
}

/// What to do while no event may have arrived yet.
#[derive(Clone, Copy, Debug, PartialEq, Eq, Structural)]
pub enum PollStep {
    /// Hand out the event that arrived.
    Deliver,
    /// Give up.
    TimedOut,
    /// Sleep and look again.
    Sleep,
}

/// What an event means while the answer to a conversion request is awaited.
pub open spec fn notify_step(event: X11Event) -> WaitStep {
    match event {
        X11Event::SelectionNotify(property) => if property == NONE {
            WaitStep::Refused
        } else {
            WaitStep::Ready
        },
        _ => WaitStep::Dispatch,
    }
}

/// What an event means while the next chunk is awaited in `property` of
/// `window`.
pub open spec fn update_step(event: X11Event, window: u32, property: u32) -> WaitStep {
    if event == (X11Event::PropertyUpdated { window, atom: property }) {
        WaitStep::Ready
    } else {
        WaitStep::Dispatch
    }
}

/// What to do while no event may have arrived yet.
pub open spec fn poll_step(arrived: bool, elapsed_nanos: nat, timeout_nanos: nat) -> PollStep {
    if arrived {
        PollStep::Deliver
    } else if elapsed_nanos >= timeout_nanos {
        PollStep::TimedOut
    } else {
        PollStep::Sleep
    }
}

/// A wait for an answer ends with the answer, which is a refusal exactly when it
/// names no property, and with nothing else. A wait for a chunk ends with a new
/// value of the property that is awaited, and with nothing else.
pub proof fn law_waits_end_with_their_event(event: X11Event, window: u32, property: u32)
    ensures
        notify_step(event) is Dispatch <==> !(event is SelectionNotify),
        notify_step(event) is Refused <==> event is SelectionNotify && event->SelectionNotify_0
            == NONE,
        update_step(event, window, property) is Ready <==> event is PropertyUpdated
            && event->PropertyUpdated_window == window && event->PropertyUpdated_atom == property,
        !(update_step(event, window, property) is Refused),
{
}

/// An event that is there is always delivered. While there is none, the wait
/// goes on exactly as long as its time is not up, and then it is given up.
pub proof fn law_wait_lasts_as_long_as_its_timeout(arrived: bool, elapsed: nat, timeout: nat)
    ensures
        poll_step(arrived, elapsed, timeout) is Deliver <==> arrived,
        poll_step(arrived, elapsed, timeout) is Sleep <==> !arrived && elapsed < timeout,
{
}

/// What an event means while the answer to a conversion request is awaited.
pub fn wait_for_selection_notify(event: X11Event) -> (step: WaitStep)
    ensures
        step == notify_step(event),
{
    match event {
        X11Event::SelectionNotify(property) => if property == NONE {
            WaitStep::Refused
        } else {
            WaitStep::Ready
        },
        _ => WaitStep::Dispatch,
    }
}

/// What an event means while the next chunk is awaited in `property` of
/// `window`.
pub fn wait_for_property_update(event: X11Event, window: u32, property: u32) -> (step: WaitStep)
    ensures
        step == update_step(event, window, property),
{
    match event {
        X11Event::PropertyUpdated { window: changed, atom } => if changed == window && atom
            == property {
            WaitStep::Ready
        } else {
            WaitStep::Dispatch
        },
        _ => WaitStep::Dispatch,
    }
}

/// What to do `elapsed_nanos` after a transfer began that may take
/// `timeout_nanos`: an event that is there is delivered even when it is late.
pub fn poll_event_until(arrived: bool, elapsed_nanos: u128, timeout_nanos: u128) -> (step: PollStep)
    ensures
        step == poll_step(arrived, elapsed_nanos as nat, timeout_nanos as nat),
{
    if arrived {
        PollStep::Deliver
    } else if elapsed_nanos >= timeout_nanos {
        PollStep::TimedOut
    } else {
        PollStep::Sleep
    }
}

} // verus!
