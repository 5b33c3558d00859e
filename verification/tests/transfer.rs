//! Receiving a target from another X11 client.

use xwayclip::events::{
    poll_event_until, wait_for_property_update, wait_for_selection_notify, PollStep, WaitStep,
    X11Event,
};
use xwayclip::property::{
    PropertyError, PropertyReader, PropertyReply, PropertyValue, ReadStep, NONE,
};
use xwayclip::receive::{
    begin_transfer_in, ChunkStep, IncrReceiver, ReceiveError, TransferStart,
};
use xwayclip::request::{
    RequestEvent, RequestProgress, TargetError, TargetReading, TargetRequest,
};
use xwayclip::text::{comes_before, same_name};
use xwayclip::wire::{decode_atoms, decode_atoms_in, word_at, ByteOrder};

const WINDOW: u32 = 5;
const PROPERTY: u32 = 70;
const INCR: u32 = 60;
const TEXT: u32 = 80;

fn reply(type_: u32, format: u8, bytes_after: u32, value: &[u8]) -> PropertyReply {
    PropertyReply {
        type_,
        format,
        bytes_after,
        value: value.to_vec(),
    }
}

fn value(type_: u32, format: u8, data: &[u8], exceeded_limit: bool) -> PropertyValue {
    PropertyValue {
        type_,
        format,
        data: data.to_vec(),
        exceeded_limit,
    }
}

fn begin_transfer(
    initial: PropertyValue,
    incr: u32,
    size_limit: usize,
) -> Result<TransferStart, ReceiveError> {
    begin_transfer_in(ByteOrder::Little, initial, incr, size_limit)
}

fn more(result: Result<ReadStep, PropertyError>) -> PropertyReader {
    match result {
        Ok(ReadStep::More(reader)) => reader,
        _ => panic!("the reader does not read on"),
    }
}

fn done(result: Result<ReadStep, PropertyError>) -> PropertyValue {
    match result {
        Ok(ReadStep::Done(value)) => value,
        _ => panic!("the reader is not done"),
    }
}

fn read_error(result: Result<ReadStep, PropertyError>) -> PropertyError {
    match result {
        Err(error) => error,
        Ok(_) => panic!("the reader goes on"),
    }
}

fn incremental(result: Result<TransferStart, ReceiveError>) -> IncrReceiver {
    match result {
        Ok(TransferStart::Incremental(receiver)) => receiver,
        _ => panic!("the transfer is not incremental"),
    }
}

fn next(result: Result<ChunkStep, ReceiveError>) -> IncrReceiver {
    match result {
        Ok(ChunkStep::More(receiver)) => receiver,
        _ => panic!("the transfer does not go on"),
    }
}

fn received(result: Result<ChunkStep, ReceiveError>) -> PropertyValue {
    match result {
        Ok(ChunkStep::Done(value)) => value,
        _ => panic!("the transfer is not done"),
    }
}

#[test]
fn words_are_read_in_either_order() {
    let bytes = [0x78, 0x56, 0x34, 0x12, 1, 0, 0, 0, 9, 9];

    assert_eq!(word_at(ByteOrder::Little, &bytes, 0), 0x1234_5678);
    assert_eq!(word_at(ByteOrder::Big, &bytes, 0), 0x7856_3412);
    assert_eq!(word_at(ByteOrder::Big, &bytes, 1), 0x5634_1201);
    assert_eq!(decode_atoms_in(ByteOrder::Little, &bytes), [0x1234_5678, 1]);
    assert_eq!(
        decode_atoms_in(ByteOrder::Big, &bytes),
        [0x7856_3412, 0x0100_0000]
    );
    assert!(decode_atoms_in(ByteOrder::Little, &bytes[..3]).is_empty());
    assert_eq!(
        word_at(ByteOrder::Little, &[255, 255, 255, 255], 0),
        u32::MAX
    );
}

#[test]
fn probe_tells_the_orders_apart() {
    let probe = [1, 0, 0, 0];
    for order in [ByteOrder::Little, ByteOrder::Big] {
        assert_eq!(ByteOrder::of_probe(word_at(order, &probe, 0)), order);
    }
    assert_eq!(ByteOrder::of_probe(1), ByteOrder::Little);
    assert_eq!(ByteOrder::of_probe(0x0100_0000), ByteOrder::Big);
}

#[test]
fn atoms_are_read_in_the_order_of_the_machine() {
    let atoms = [1_u32, 258, 0xdead_beef];
    let bytes: Vec<u8> = atoms.iter().flat_map(|atom| atom.to_ne_bytes()).collect();

    assert_eq!(decode_atoms(&bytes), atoms);
    assert!(decode_atoms(&[]).is_empty());
}

#[test]
fn property_is_read_in_one_piece() {
    let reader = PropertyReader::new(4);
    assert_eq!(reader.offset(), 0);

    let value = done(reader.take(reply(TEXT, 8, 0, b"text")));
    assert_eq!(value.type_, TEXT);
    assert_eq!(value.format, 8);
    assert_eq!(value.data, b"text");
    assert!(!value.exceeded_limit);
}

#[test]
fn property_is_joined_from_its_pieces() {
    let reader = more(PropertyReader::new(100).take(reply(TEXT, 8, 7, b"abcd")));
    assert_eq!(reader.offset(), 1);
    let reader = more(reader.take(reply(TEXT, 8, 2, b"efghi")));
    assert_eq!(reader.offset(), 3);

    let value = done(reader.take(reply(TEXT, 8, 0, b"jk")));
    assert_eq!(value.data, b"abcdefghijk");
    assert!(!value.exceeded_limit);
}

#[test]
fn property_over_the_limit_is_read_to_its_end_and_marked() {
    let reader = more(PropertyReader::new(5).take(reply(TEXT, 8, 5, b"abcd")));
    let reader = more(reader.take(reply(TEXT, 8, 1, b"efgh")));
    let value = done(reader.take(reply(TEXT, 8, 0, b"i")));

    assert!(value.exceeded_limit);
    assert!(value.data.is_empty());
    assert_eq!(value.type_, TEXT);
}

#[test]
fn missing_property_is_empty() {
    let value = done(PropertyReader::new(0).take(reply(NONE, 0, 0, b"")));

    assert_eq!(value.type_, NONE);
    assert!(value.data.is_empty());
    assert!(!value.exceeded_limit);
}

#[test]
fn property_that_changes_is_refused() {
    let reader = more(PropertyReader::new(100).take(reply(TEXT, 8, 7, b"abcd")));
    assert_eq!(
        read_error(reader.take(reply(TEXT, 16, 0, b"e"))),
        PropertyError::Changed
    );
    let reader = more(PropertyReader::new(100).take(reply(TEXT, 8, 7, b"abcd")));
    assert_eq!(
        read_error(reader.take(reply(NONE, 8, 0, b"e"))),
        PropertyError::Changed
    );
    assert_eq!(
        PropertyError::Changed.message(),
        "X11 property changed while it was being read"
    );
}

#[test]
fn property_without_progress_is_refused() {
    assert_eq!(
        read_error(PropertyReader::new(100).take(reply(TEXT, 8, 7, b""))),
        PropertyError::NoProgress
    );
    assert_eq!(
        PropertyError::NoProgress.message(),
        "X11 property read made no progress"
    );
}

#[test]
fn ordinary_pieces_can_be_taken() {
    let reader = PropertyReader::new(1);

    assert!(reader.can_take(&reply(TEXT, 8, 0, b"")));
    assert!(reader.can_take(&reply(TEXT, 8, 1, &[0; 65536])));
}

#[test]
fn target_in_one_piece_is_complete() {
    let Ok(TransferStart::Complete(value)) = begin_transfer(value(TEXT, 8, b"text", false), INCR, 2)
    else {
        panic!("the target is not complete");
    };

    assert_eq!(value.data, b"text");
}

#[test]
fn incremental_transfer_needs_a_size() {
    for initial in [
        value(INCR, 8, b"1234", false),
        value(INCR, 32, b"123", false),
        value(INCR, 32, b"", false),
    ] {
        let Err(error) = begin_transfer(initial, INCR, 100) else {
            panic!("the transfer started");
        };
        assert_eq!(error, ReceiveError::NoSize);
    }
    assert_eq!(
        ReceiveError::NoSize.message(),
        "X11 INCR response does not contain a 32-bit size"
    );
}

#[test]
fn incremental_transfer_joins_its_chunks() {
    let size = 7_u32.to_le_bytes();
    let receiver = incremental(begin_transfer(value(INCR, 32, &size, false), INCR, 8));
    assert_eq!(receiver.remaining(), 8);
    let receiver = next(receiver.accept(value(TEXT, 8, b"abcd", false)));
    assert_eq!(receiver.remaining(), 4);
    let receiver = next(receiver.accept(value(TEXT, 8, b"efg", false)));
    assert_eq!(receiver.remaining(), 1);

    let value = received(receiver.accept(value(NONE, 0, b"", false)));
    assert_eq!(value.type_, TEXT);
    assert_eq!(value.format, 8);
    assert_eq!(value.data, b"abcdefg");
    assert!(!value.exceeded_limit);
}

#[test]
fn incremental_transfer_may_be_empty() {
    let size = 0_u32.to_le_bytes();
    let receiver = incremental(begin_transfer(value(INCR, 32, &size, false), INCR, 8));
    let value = received(receiver.accept(value(TEXT, 8, b"", false)));

    assert_eq!(value.type_, NONE);
    assert_eq!(value.format, 0);
    assert!(value.data.is_empty());
    assert!(!value.exceeded_limit);
}

#[test]
fn announced_size_over_the_limit_is_marked() {
    let little = [9, 0, 0, 0];
    let receiver = incremental(begin_transfer_in(
        ByteOrder::Little,
        value(INCR, 32, &little, false),
        INCR,
        8,
    ));
    assert_eq!(receiver.remaining(), 0);
    let receiver = next(receiver.accept(value(TEXT, 8, b"", true)));
    let marked = received(receiver.accept(value(TEXT, 8, b"", false)));
    assert!(marked.exceeded_limit);
    assert!(marked.data.is_empty());
    assert_eq!(marked.type_, TEXT);

    // The same bytes announce another size in the other order.
    let big = [0, 0, 0, 8];
    let receiver = incremental(begin_transfer_in(
        ByteOrder::Big,
        value(INCR, 32, &big, false),
        INCR,
        8,
    ));
    assert_eq!(receiver.remaining(), 8);
}

#[test]
fn oversized_announcement_needs_no_size() {
    let receiver = incremental(begin_transfer(value(INCR, 8, b"", true), INCR, 2));

    assert_eq!(receiver.remaining(), 0);
}

#[test]
fn chunk_over_the_limit_drops_the_data() {
    let size = 4_u32.to_le_bytes();
    let receiver = incremental(begin_transfer(value(INCR, 32, &size, false), INCR, 8));
    let receiver = next(receiver.accept(value(TEXT, 8, b"abcd", false)));
    let receiver = next(receiver.accept(value(TEXT, 8, b"", true)));
    assert_eq!(receiver.remaining(), 0);

    let value = received(receiver.accept(value(TEXT, 8, b"", false)));
    assert!(value.exceeded_limit);
    assert!(value.data.is_empty());
}

#[test]
fn chunk_of_another_kind_is_refused() {
    for chunk in [value(TEXT + 1, 8, b"e", false), value(TEXT, 16, b"e", false)] {
        let size = 4_u32.to_le_bytes();
        let receiver = incremental(begin_transfer(value(INCR, 32, &size, false), INCR, 8));
        let receiver = next(receiver.accept(value(TEXT, 8, b"abcd", false)));
        let Err(error) = receiver.accept(chunk) else {
            panic!("the chunk was accepted");
        };
        assert_eq!(error, ReceiveError::Changed);
    }
    assert_eq!(
        ReceiveError::Changed.message(),
        "X11 INCR transfer changed its property type or format"
    );
}

#[test]
fn waits_end_with_their_event() {
    assert_eq!(
        wait_for_selection_notify(X11Event::SelectionNotify(PROPERTY)),
        WaitStep::Ready
    );
    assert_eq!(
        wait_for_selection_notify(X11Event::SelectionNotify(NONE)),
        WaitStep::Refused
    );
    assert_eq!(
        wait_for_selection_notify(X11Event::SelectionClear),
        WaitStep::Dispatch
    );

    let updated = |window: u32, atom: u32| X11Event::PropertyUpdated { window, atom };
    assert_eq!(
        wait_for_property_update(updated(WINDOW, PROPERTY), WINDOW, PROPERTY),
        WaitStep::Ready
    );
    assert_eq!(
        wait_for_property_update(updated(WINDOW + 1, PROPERTY), WINDOW, PROPERTY),
        WaitStep::Dispatch
    );
    assert_eq!(
        wait_for_property_update(updated(WINDOW, PROPERTY + 1), WINDOW, PROPERTY),
        WaitStep::Dispatch
    );
    let deleted = X11Event::PropertyDeleted {
        window: WINDOW,
        atom: PROPERTY,
    };
    assert_eq!(
        wait_for_property_update(deleted, WINDOW, PROPERTY),
        WaitStep::Dispatch
    );
}

#[test]
fn polling_ends_at_the_deadline() {
    assert_eq!(poll_event_until(true, 100, 5), PollStep::Deliver);
    assert_eq!(poll_event_until(false, 4, 5), PollStep::Sleep);
    assert_eq!(poll_event_until(false, 5, 5), PollStep::TimedOut);
}

fn dispatched(result: Result<RequestEvent, TargetError>) -> TargetRequest {
    match result {
        Ok(RequestEvent::Dispatch(request)) => request,
        _ => panic!("the event is not dispatched"),
    }
}

fn readable(result: Result<RequestEvent, TargetError>) -> TargetReading {
    match result {
        Ok(RequestEvent::Read(request)) => request,
        _ => panic!("the property is not read"),
    }
}

fn reading(result: Result<RequestProgress, TargetError>) -> TargetReading {
    match result {
        Ok(RequestProgress::Read(request)) => request,
        _ => panic!("the request does not read on"),
    }
}

fn awaiting(result: Result<RequestProgress, TargetError>) -> TargetRequest {
    match result {
        Ok(RequestProgress::Await(request)) => request,
        _ => panic!("the request does not wait"),
    }
}

fn complete(result: Result<RequestProgress, TargetError>) -> PropertyValue {
    match result {
        Ok(RequestProgress::Complete(value)) => value,
        _ => panic!("the request is not complete"),
    }
}

fn request_error(result: Result<RequestProgress, TargetError>) -> TargetError {
    match result {
        Err(error) => error,
        Ok(_) => panic!("the request goes on"),
    }
}

fn answered(size_limit: usize) -> TargetReading {
    let request = TargetRequest::new(WINDOW, PROPERTY, INCR, size_limit);
    readable(request.on_event(X11Event::SelectionNotify(PROPERTY)))
}

#[test]
fn request_reads_a_target_in_pieces() {
    let request = TargetRequest::new(WINDOW, PROPERTY, INCR, 10);
    let request = dispatched(request.on_event(X11Event::Other));
    let request = dispatched(request.on_event(X11Event::PropertyUpdated {
        window: WINDOW,
        atom: PROPERTY,
    }));
    let request = readable(request.on_event(X11Event::SelectionNotify(PROPERTY)));
    assert_eq!(request.offset(), 0);
    let piece = reply(TEXT, 8, 2, b"abcdef");
    assert!(request.can_take(&piece));
    let request = reading(request.on_reply(piece));
    assert_eq!(request.offset(), 2);

    let value = complete(request.on_reply(reply(TEXT, 8, 0, b"gh")));
    assert_eq!(value.data, b"abcdefgh");
    assert_eq!(value.type_, TEXT);
    assert!(!value.exceeded_limit);
}

#[test]
fn request_follows_an_incremental_transfer() {
    let updated = X11Event::PropertyUpdated {
        window: WINDOW,
        atom: PROPERTY,
    };
    let request = awaiting(answered(6).on_reply_in(
        ByteOrder::Little,
        reply(INCR, 32, 0, &[6, 0, 0, 0]),
    ));
    let request = dispatched(request.on_event(X11Event::SelectionNotify(PROPERTY)));
    let request = readable(request.on_event(updated));
    let request = reading(request.on_reply(reply(TEXT, 8, 1, b"abc")));
    assert_eq!(request.offset(), 1);
    let request = awaiting(request.on_reply(reply(TEXT, 8, 0, b"d")));
    let request = readable(request.on_event(updated));
    assert_eq!(request.offset(), 0);
    let request = awaiting(request.on_reply(reply(TEXT, 8, 0, b"ef")));
    let request = readable(request.on_event(updated));

    let value = complete(request.on_reply(reply(TEXT, 8, 0, b"")));
    assert_eq!(value.data, b"abcdef");
    assert_eq!(value.type_, TEXT);
    assert!(!value.exceeded_limit);
}

#[test]
fn request_marks_chunks_over_the_limit() {
    let updated = X11Event::PropertyUpdated {
        window: WINDOW,
        atom: PROPERTY,
    };
    let request = awaiting(answered(5).on_reply_in(
        ByteOrder::Big,
        reply(INCR, 32, 0, &[0, 0, 0, 5]),
    ));
    let request = readable(request.on_event(updated));
    let request = awaiting(request.on_reply(reply(TEXT, 8, 0, b"abcd")));
    let request = readable(request.on_event(updated));
    let request = awaiting(request.on_reply(reply(TEXT, 8, 0, b"ef")));
    let request = readable(request.on_event(updated));

    let value = complete(request.on_reply(reply(TEXT, 8, 0, b"")));
    assert!(value.exceeded_limit);
    assert!(value.data.is_empty());
}

#[test]
fn request_reports_each_error() {
    let request = TargetRequest::new(WINDOW, PROPERTY, INCR, 10);
    let Err(error) = request.on_event(X11Event::SelectionNotify(NONE)) else {
        panic!("the request was not refused");
    };
    assert_eq!(error, TargetError::Refused);
    assert_eq!(error.message(), "X11 owner refused clipboard target");

    let request = reading(answered(10).on_reply(reply(TEXT, 8, 9, b"abcd")));
    let error = request_error(request.on_reply(reply(TEXT, 32, 0, b"efgh")));
    assert_eq!(error, TargetError::Property(PropertyError::Changed));
    assert_eq!(error.message(), PropertyError::Changed.message());

    let error = request_error(answered(10).on_reply(reply(TEXT, 8, 1, b"")));
    assert_eq!(error, TargetError::Property(PropertyError::NoProgress));
    assert_eq!(error.message(), PropertyError::NoProgress.message());

    let error = request_error(answered(10).on_reply(reply(INCR, 32, 0, b"abc")));
    assert_eq!(error, TargetError::Receive(ReceiveError::NoSize));
    assert_eq!(error.message(), ReceiveError::NoSize.message());

    let updated = X11Event::PropertyUpdated {
        window: WINDOW,
        atom: PROPERTY,
    };
    let size = 4_u32.to_ne_bytes();
    let request = awaiting(answered(10).on_reply(reply(INCR, 32, 0, &size)));
    let request = readable(request.on_event(updated));
    let request = awaiting(request.on_reply(reply(TEXT, 8, 0, b"ab")));
    let request = readable(request.on_event(updated));
    let error = request_error(request.on_reply(reply(TEXT + 1, 8, 0, b"cd")));
    assert_eq!(error, TargetError::Receive(ReceiveError::Changed));
    assert_eq!(error.message(), ReceiveError::Changed.message());
}

#[test]
fn names_are_compared_by_bytes() {
    assert!(comes_before("", "a"));
    assert!(comes_before("Z", "a"));
    assert!(comes_before("a", "ab"));
    assert!(comes_before("z", "é"));
    assert!(!comes_before("a", "a"));
    assert!(!comes_before("b", "a"));
    assert!(!comes_before("a", ""));
    assert!(same_name("text/plain", "text/plain"));
    assert!(!same_name("text/plain", "text/html"));
    assert!(!same_name("text", "text/plain"));
}
