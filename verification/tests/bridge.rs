//! The X11 side.

use xwayclip::bridge::{
    selection_notify, Atoms, ChunkOutcome, ClipboardBridge, EventAction, IncrChunk, PropertyWrite,
    RequestError, RequestStep, SharedData,
};
use xwayclip::event_loop::{
    after_change, after_command, after_events, after_poll, after_wake, process_selection_change,
    ChangeStep, CommandPoll, LoopStep, PollEvents,
};
use xwayclip::events::{SelectionChange, SelectionNotify, SelectionRequest, X11Event};
use xwayclip::property::{PropertyReply, NONE};
use xwayclip::request::{RequestEvent, RequestProgress, TargetRequest};
use xwayclip::snapshot::{Offer, Snapshot};

const WINDOW: u32 = 5;
const ATOMS: Atoms = Atoms {
    clipboard: 50,
    incr: 60,
    property: 70,
    targets: 80,
};
const OTHER: u32 = 9;

/// A bridge whose properties hold up to eight bytes.
fn bridge() -> ClipboardBridge {
    ClipboardBridge::new(WINDOW, ATOMS, 40)
}

fn offer(mime_type: &str, data: &[u8]) -> Offer {
    Offer {
        mime_type: mime_type.to_owned(),
        data: data.to_vec(),
    }
}

/// A bridge that offers a short text under 101 and a long image under 102.
fn offering() -> ClipboardBridge {
    let mut bridge = bridge();
    let snapshot = Snapshot::new(vec![
        offer("image/png", b"0123456789abcdefghij"),
        offer("TEXT", b"text"),
    ]);
    bridge.set_clipboard(snapshot, vec![101, 102]);
    bridge
}

fn request(target: u32, property: u32) -> SelectionRequest {
    SelectionRequest {
        time: 1,
        requestor: OTHER,
        selection: ATOMS.clipboard,
        target,
        property,
    }
}

fn answer(target: u32, property: u32) -> SelectionNotify {
    SelectionNotify {
        time: 1,
        requestor: OTHER,
        selection: ATOMS.clipboard,
        target,
        property,
    }
}

fn served(action: EventAction) -> RequestStep {
    match action {
        EventAction::Serve(_, step) => step,
        _ => panic!("there is nothing to serve"),
    }
}

fn write(step: RequestStep) -> PropertyWrite {
    match step {
        RequestStep::Write(write) => write,
        _ => panic!("there is nothing to write"),
    }
}

fn data(write: PropertyWrite) -> SharedData {
    match write {
        PropertyWrite::Data(data) => data,
        _ => panic!("the data is not written at once"),
    }
}

fn chunk(action: EventAction) -> IncrChunk {
    match action {
        EventAction::Advance(chunk) => chunk,
        _ => panic!("there is no chunk"),
    }
}

fn refused(step: RequestStep) -> (RequestError, SelectionNotify) {
    match step {
        RequestStep::Refuse(error, notify) => (error, notify),
        _ => panic!("the request is not refused"),
    }
}

fn deleted(property: u32) -> X11Event {
    X11Event::PropertyDeleted {
        window: OTHER,
        atom: property,
    }
}

#[test]
fn new_bridge_has_nothing_to_do() {
    let mut bridge = bridge();

    assert_eq!(bridge.window(), WINDOW);
    assert_eq!(bridge.atoms(), ATOMS);
    assert!(!bridge.has_pending_change());
    assert_eq!(bridge.take_change(), None);
}

#[test]
fn target_list_names_every_target() {
    let mut bridge = offering();
    let step = served(bridge.handle_event(X11Event::SelectionRequest(request(80, 7))));
    let PropertyWrite::Targets(atoms) = write(step) else {
        panic!("there is no list of targets");
    };

    assert_eq!(atoms, [80, 101, 102]);
}

#[test]
fn utf8_text_is_served_under_its_alias() {
    let mut bridge = bridge();
    let snapshot = Snapshot::new(vec![
        offer("text/plain;charset=utf-8", b"utf8"),
        offer("TEXT", b"text"),
        offer("TARGETS", b"no"),
    ]);
    assert_eq!(
        snapshot.x11_targets(),
        [("TEXT", 1), ("UTF8_STRING", 2), ("text/plain;charset=utf-8", 2)]
    );
    bridge.set_clipboard(snapshot, vec![201, 202, 203]);

    for (target, expected) in [(201, b"text"), (202, b"utf8"), (203, b"utf8")] {
        let Ok(write) = bridge.write_selection_property(&request(target, 7)) else {
            panic!("the request is refused");
        };
        assert_eq!(data(write).bytes(), expected);
    }
}

#[test]
fn short_data_is_written_at_once() {
    let mut bridge = offering();
    let step = bridge.handle_selection_request(request(101, 7));
    let written = write(step);
    let PropertyWrite::Data(content) = &written else {
        panic!("the data is not written at once");
    };
    assert_eq!(content.bytes(), b"text");

    assert_eq!(
        bridge.finish_selection_request(request(101, 7), written, true),
        answer(101, 7)
    );
    assert!(matches!(
        bridge.handle_event(deleted(7)),
        EventAction::Nothing
    ));
}

#[test]
fn data_of_the_size_of_a_property_is_written_at_once() {
    let mut bridge = bridge();
    bridge.set_clipboard(Snapshot::new(vec![offer("TEXT", b"12345678")]), vec![101]);

    let written = write(bridge.handle_selection_request(request(101, 7)));
    assert_eq!(data(written).bytes(), b"12345678");
}

#[test]
fn long_data_is_sent_in_chunks() {
    let mut bridge = offering();
    let written = write(bridge.handle_selection_request(request(102, 7)));
    let PropertyWrite::Incremental(content, size) = &written else {
        panic!("the data is not sent in chunks");
    };
    assert_eq!(content.bytes().len(), 20);
    assert_eq!(*size, 20);
    assert_eq!(
        bridge.finish_selection_request(request(102, 7), written, true),
        answer(102, 7)
    );

    for expected in ["01234567", "89abcdef", "ghij"] {
        let chunk = chunk(bridge.handle_event(deleted(7)));
        assert_eq!(chunk.window(), OTHER);
        assert_eq!(chunk.atom(), 7);
        assert_eq!(chunk.target(), 102);
        assert_eq!(chunk.bytes(), expected.as_bytes());
        assert_eq!(bridge.finish_incr_chunk(chunk), ChunkOutcome::Continues);
    }
    let last = chunk(bridge.handle_event(deleted(7)));
    assert!(last.bytes().is_empty());
    assert_eq!(bridge.finish_incr_chunk(last), ChunkOutcome::CompleteLast);
    assert!(matches!(
        bridge.handle_event(deleted(7)),
        EventAction::Nothing
    ));
}

#[test]
fn transfers_to_one_window_are_told_apart() {
    let mut bridge = offering();
    for property in [7, 8] {
        let written = write(bridge.handle_selection_request(request(102, property)));
        bridge.finish_selection_request(request(102, property), written, true);
    }
    for property in [7, 8] {
        for _ in 0..3 {
            let chunk = chunk(bridge.handle_event(deleted(property)));
            assert_eq!(bridge.finish_incr_chunk(chunk), ChunkOutcome::Continues);
        }
    }

    let last = chunk(bridge.handle_event(deleted(7)));
    assert_eq!(bridge.finish_incr_chunk(last), ChunkOutcome::Complete);
    let last = chunk(bridge.handle_event(deleted(8)));
    assert_eq!(bridge.finish_incr_chunk(last), ChunkOutcome::CompleteLast);
}

#[test]
fn transfer_goes_on_when_the_selection_is_lost() {
    let mut bridge = offering();
    let written = write(bridge.handle_selection_request(request(102, 7)));
    bridge.finish_selection_request(request(102, 7), written, true);
    bridge.handle_event(X11Event::SelectionClear);
    bridge.set_clipboard(Snapshot::new(vec![offer("TEXT", b"new")]), vec![101]);

    assert_eq!(
        chunk(bridge.handle_event(deleted(7))).bytes(),
        b"01234567"
    );
}

#[test]
fn chunk_that_is_dropped_ends_its_transfer() {
    let mut bridge = offering();
    let written = write(bridge.handle_selection_request(request(102, 7)));
    bridge.finish_selection_request(request(102, 7), written, true);
    drop(chunk(bridge.handle_event(deleted(7))));

    assert!(bridge.advance_incr_transfer(OTHER, 7).is_none());
}

#[test]
fn failed_write_is_answered_with_a_refusal() {
    let mut bridge = offering();
    let written = write(bridge.handle_selection_request(request(102, 7)));

    assert_eq!(
        bridge.finish_selection_request(request(102, 7), written, false),
        answer(102, NONE)
    );
    assert!(bridge.advance_incr_transfer(OTHER, 7).is_none());
}

#[test]
fn request_without_a_property_is_answered_at_once() {
    let RequestStep::Notify(notify) = offering().handle_selection_request(request(101, NONE)) else {
        panic!("the request is not answered");
    };

    assert_eq!(notify, answer(101, NONE));
    assert_eq!(selection_notify(request(101, 7), 7), answer(101, 7));
}

#[test]
fn unknown_target_is_refused() {
    let (error, notify) = refused(offering().handle_selection_request(request(103, 7)));

    assert_eq!(error, RequestError::NotOffered);
    assert_eq!(error.message(), "requested X11 target is not offered");
    assert_eq!(notify, answer(103, NONE));
}

#[test]
fn lost_selection_is_refused() {
    let mut bridge = offering();
    bridge.handle_event(X11Event::SelectionClear);
    let (error, notify) = refused(bridge.handle_selection_request(request(80, 7)));
    assert_eq!(error, RequestError::NotOwned);
    assert_eq!(
        error.message(),
        "X11 selection request arrived without owned clipboard data"
    );
    assert_eq!(notify, answer(80, NONE));

    let mut bridge = offering();
    bridge.clear_clipboard();
    let (error, _) = refused(bridge.handle_selection_request(request(101, 7)));
    assert_eq!(error, RequestError::NotOwned);
    assert_eq!(
        RequestError::TooLarge.message(),
        "X11 INCR transfer is larger than the protocol can announce"
    );
}

#[test]
fn only_the_last_change_by_others_is_remembered() {
    let mut bridge = bridge();
    let change = |owner: u32, timestamp: u32| SelectionChange { owner, timestamp };
    bridge.handle_event(X11Event::OwnerChanged(change(OTHER, 1)));
    bridge.handle_event(X11Event::OwnerChanged(change(NONE, 2)));
    assert!(bridge.has_pending_change());
    assert_eq!(bridge.take_change(), Some(change(NONE, 2)));
    assert!(!bridge.has_pending_change());

    bridge.handle_event(X11Event::OwnerChanged(change(OTHER, 3)));
    bridge.handle_event(X11Event::OwnerChanged(change(WINDOW, 4)));
    assert_eq!(bridge.take_change(), None);

    bridge.remember_change(change(WINDOW, 5));
    bridge.remember_change(change(OTHER, 6));
    assert_eq!(bridge.take_change(), Some(change(OTHER, 6)));
}

#[test]
fn other_events_do_nothing() {
    let mut bridge = offering();
    for event in [
        X11Event::Other,
        X11Event::SelectionNotify(7),
        X11Event::PropertyUpdated {
            window: OTHER,
            atom: 7,
        },
    ] {
        assert!(matches!(bridge.handle_event(event), EventAction::Nothing));
    }
    assert!(!bridge.has_pending_change());
}

#[test]
fn what_the_bridge_sends_arrives_as_it_is() {
    let content: Vec<u8> = (0..30_000_u32).map(|i| (i * 7 % 251) as u8).collect();
    let mut bridge = ClipboardBridge::new(WINDOW, ATOMS, 4_096);
    bridge.set_clipboard(Snapshot::new(vec![offer("image/png", &content)]), vec![102]);
    let written = write(bridge.handle_selection_request(request(102, 7)));
    let PropertyWrite::Incremental(_, size) = &written else {
        panic!("the data is not sent in chunks");
    };
    let announced = size.to_ne_bytes().to_vec();
    bridge.finish_selection_request(request(102, 7), written, true);

    let receiver = TargetRequest::new(OTHER, 7, ATOMS.incr, 30_000);
    let mut reading = match receiver.on_event(X11Event::SelectionNotify(7)) {
        Ok(RequestEvent::Read(reading)) => reading,
        _ => panic!("the property is not read"),
    };
    let mut reply = PropertyReply {
        type_: ATOMS.incr,
        format: 32,
        bytes_after: 0,
        value: announced,
    };
    let received = loop {
        let receiver = match reading.on_reply(reply) {
            Ok(RequestProgress::Await(receiver)) => receiver,
            Ok(RequestProgress::Complete(value)) => break value,
            _ => panic!("the transfer failed"),
        };
        let chunk = chunk(bridge.handle_event(deleted(7)));
        reply = PropertyReply {
            type_: chunk.target(),
            format: 8,
            bytes_after: 0,
            value: chunk.bytes().to_vec(),
        };
        bridge.finish_incr_chunk(chunk);
        let updated = X11Event::PropertyUpdated {
            window: OTHER,
            atom: 7,
        };
        reading = match receiver.on_event(updated) {
            Ok(RequestEvent::Read(reading)) => reading,
            _ => panic!("the property is not read"),
        };
    };

    assert!(!received.exceeded_limit);
    assert_eq!(received.type_, 102);
    assert_eq!(received.data, content);
}

#[test]
fn commands_come_before_events() {
    assert_eq!(
        after_command(CommandPoll::Executed),
        LoopStep::ReceiveCommand
    );
    assert_eq!(after_command(CommandPoll::Empty), LoopStep::DrainEvents);
    assert_eq!(after_command(CommandPoll::Disconnected), LoopStep::Stop);
    assert_eq!(after_change(), LoopStep::ReceiveCommand);
    assert_eq!(after_wake(), LoopStep::ReceiveCommand);
}

#[test]
fn pending_change_comes_before_waiting() {
    let mut bridge = bridge();
    assert_eq!(after_events(&mut bridge), LoopStep::Poll);

    let change = SelectionChange {
        owner: OTHER,
        timestamp: 3,
    };
    bridge.handle_event(X11Event::OwnerChanged(change));
    assert_eq!(after_events(&mut bridge), LoopStep::ProcessChange(change));
    assert_eq!(after_events(&mut bridge), LoopStep::Poll);
}

#[test]
fn polling_tells_how_to_go_on() {
    let quiet = PollEvents {
        input: false,
        error: false,
        hang_up: false,
        invalid: false,
    };
    let input = PollEvents {
        input: true,
        ..quiet
    };
    let hang_up = PollEvents {
        hang_up: true,
        ..quiet
    };
    let error = PollEvents {
        error: true,
        ..quiet
    };
    let invalid = PollEvents {
        invalid: true,
        ..quiet
    };
    let last_words = PollEvents {
        input: true,
        hang_up: true,
        ..quiet
    };

    for broken in [hang_up, error, invalid] {
        assert_eq!(after_poll(broken, hang_up), LoopStep::ConnectionClosed);
    }
    assert_eq!(after_poll(last_words, quiet), LoopStep::ReceiveCommand);
    assert_eq!(after_poll(quiet, last_words), LoopStep::Stop);
    assert_eq!(after_poll(input, input), LoopStep::DrainWake);
    assert_eq!(after_poll(input, quiet), LoopStep::ReceiveCommand);
}

#[test]
fn change_without_an_owner_is_a_clear() {
    let change = |owner: u32| SelectionChange {
        owner,
        timestamp: 1,
    };

    assert_eq!(
        process_selection_change(change(NONE)),
        ChangeStep::ReportCleared
    );
    assert_eq!(
        process_selection_change(change(OTHER)),
        ChangeStep::Capture
    );
}
