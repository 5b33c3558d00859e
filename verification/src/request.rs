//! Requesting one target from the owner of the selection: waiting for the
//! answer, reading the property, and going on chunk by chunk where the owner
//! sends incrementally.

use vstd::prelude::*;

use crate::events::{wait_for_property_update, wait_for_selection_notify, WaitStep, X11Event};
use crate::property::{
    law_property_holds_its_pieces, property_of, reply_differs, words_for, words_read,
    PropertyError, PropertyReader, PropertyReply, PropertyValue, ReadStep, ReplyView, ValueView,
    NONE,
};
use crate::receive::{
    any_exceeded, begin_transfer_in, chunk_bytes, chunk_differs, ends_transfer, law_chunks_joined,
    law_transfer_holds_its_chunks, lemma_push_chunk, transfer_kind, ChunkStep, IncrReceiver,
    ReceiveError, TransferStart, TransferView,
};
use crate::wire::{word_of, ByteOrder};

verus! {

/// Why a target cannot be received.
#[derive(Clone, Copy, Debug, PartialEq, Eq, Structural)]
pub enum TargetError {
    /// The owner refused the target.
    Refused,
    /// The property cannot be read.
    Property(PropertyError),
    /// The incremental transfer is not in order.
    Receive(ReceiveError),
}

impl TargetError {
    /// What to tell the user.
    pub fn message(&self) -> (message: &'static str)
        ensures
            message@ == match *self {
                TargetError::Refused => "X11 owner refused clipboard target"@,
                TargetError::Property(PropertyError::Changed) =>
                    "X11 property changed while it was being read"@,
                TargetError::Property(PropertyError::NoProgress) =>
                    "X11 property read made no progress"@,
                TargetError::Receive(ReceiveError::NoSize) =>
                    "X11 INCR response does not contain a 32-bit size"@,
                TargetError::Receive(ReceiveError::Changed) =>
                    "X11 INCR transfer changed its property type or format"@,
            },
    {
        match *self {
            TargetError::Refused => "X11 owner refused clipboard target",
            TargetError::Property(error) => error.message(),
            TargetError::Receive(error) => error.message(),
        }
    }
}

/// The model of a [`TargetRequest`].
#[verifier::ext_equal]
pub struct RequestView {
    /// The window that the target is delivered to.
    pub window: u32,
    /// The property that the target is delivered in.
    pub property: u32,
    /// The type that announces an incremental transfer.
    pub incr: u32,
    /// The largest number of bytes to keep.
    pub size_limit: nat,
    /// The incremental transfer, once it was announced.
    pub transfer: Option<TransferView>,
}

impl RequestView {
    /// The largest number of bytes to keep of the property that comes next.
    pub open spec fn read_limit(self) -> int {
        match self.transfer {
            Some(transfer) => transfer.remaining(),
            None => self.size_limit as int,
        }
    }
}

/// A target that was requested and whose owner has to act next: to answer, or
/// to send a chunk.
pub struct TargetRequest {
    window: u32,
    property: u32,
    incr: u32,
    size_limit: usize,
    transfer: Option<IncrReceiver>,
}

impl View for TargetRequest {
    type V = RequestView;

    closed spec fn view(&self) -> RequestView {
        RequestView {
            window: self.window,
            property: self.property,
            incr: self.incr,
            size_limit: self.size_limit as nat,
            transfer: match self.transfer {
                Some(receiver) => Some(receiver@),
                None => None,
            },
        }
    }
}

/// The model of a [`TargetReading`].
#[verifier::ext_equal]
pub struct ReadingView {
    /// The request that the property belongs to.
    pub request: RequestView,
    /// The pieces of the property that are there.
    pub replies: Seq<ReplyView>,
}

/// A target that was requested and whose property is being read.
pub struct TargetReading {
    request: TargetRequest,
    reader: PropertyReader,
}

impl View for TargetReading {
    type V = ReadingView;

    closed spec fn view(&self) -> ReadingView {
        ReadingView { request: self.request@, replies: self.reader.replies() }
    }
}

/// What an event means to a request.
pub enum RequestEvent {
    /// Nothing: handle it as usual and wait on.
    Dispatch(TargetRequest),
    /// The property is there to be read.
    Read(TargetReading),
}

/// What to do after a piece of the property.
pub enum RequestProgress {
    /// Read on.
    Read(TargetReading),
    /// Wait for an event.
    Await(TargetRequest),
    /// The target is here.
    Complete(PropertyValue),
}

/// What an event does to a request: the answer to it, or the next chunk, is
/// there to be read.
pub open spec fn event_taken(
    request: RequestView,
    event: X11Event,
    result: Result<RequestEvent, TargetError>,
) -> bool {
    let awaited = match request.transfer {
        None => event is SelectionNotify,
        Some(_) => event == (X11Event::PropertyUpdated {
            window: request.window,
            atom: request.property,
        }),
    };
    if !awaited {
        result matches Ok(RequestEvent::Dispatch(next)) && next@ == request
    } else if event == X11Event::SelectionNotify(NONE) {
        result matches Err(error) && error == TargetError::Refused
    } else {
        result matches Ok(RequestEvent::Read(reading)) && reading@ == (ReadingView {
            request,
            replies: seq![],
        })
    }
}

/// What a request does with a property that was read to its end.
pub open spec fn property_taken(
    order: ByteOrder,
    request: RequestView,
    value: ValueView,
    result: Result<RequestProgress, TargetError>,
) -> bool {
    match request.transfer {
        None => if value.type_ != request.incr {
            result matches Ok(RequestProgress::Complete(target)) && target@ == value
        } else if !value.exceeded_limit && (value.format != 32 || value.data.len() < 4) {
            result matches Err(error) && error == TargetError::Receive(ReceiveError::NoSize)
        } else {
            result matches Ok(RequestProgress::Await(next)) && next@ == (RequestView {
                transfer: Some(
                    TransferView {
                        size_limit: request.size_limit,
                        announced_too_much: value.exceeded_limit || word_of(
                            order,
                            value.data.take(4),
                        ) > request.size_limit,
                        chunks: seq![],
                    },
                ),
                ..request
            })
        },
        Some(transfer) => if ends_transfer(value) {
            result matches Ok(RequestProgress::Complete(target)) && target@ == transfer.value()
        } else if chunk_differs(transfer.chunks, value) {
            result matches Err(error) && error == TargetError::Receive(ReceiveError::Changed)
        } else {
            result matches Ok(RequestProgress::Await(next)) && next@ == (RequestView {
                transfer: Some(
                    TransferView { chunks: transfer.chunks.push(value), ..transfer },
                ),
                ..request
            })
        },
    }
}

/// What a piece does to a request whose property is being read.
pub open spec fn reply_taken(
    order: ByteOrder,
    reading: ReadingView,
    reply: ReplyView,
    result: Result<RequestProgress, TargetError>,
) -> bool {
    let replies = reading.replies.push(reply);
    if reply_differs(reading.replies, reply) {
        result matches Err(error) && error == TargetError::Property(PropertyError::Changed)
    } else if reply.bytes_after == 0 {
        let value = property_of(reading.request.read_limit() as nat, replies);
        property_taken(order, reading.request, value, result)
    } else if reply.value.len() == 0 {
        result matches Err(error) && error == TargetError::Property(PropertyError::NoProgress)
    } else {
        result matches Ok(RequestProgress::Read(next)) && next@ == (ReadingView {
            replies,
            ..reading
        })
    }
}

/// A request of which nothing arrived yet.
pub open spec fn new_request(
    window: u32,
    property: u32,
    incr: u32,
    size_limit: nat,
) -> RequestView {
    RequestView { window, property, incr, size_limit, transfer: None }
}

impl TargetRequest {
    /// The transfer has the limit of the request.
    #[verifier::type_invariant]
    closed spec fn well_formed(self) -> bool {
        self.transfer matches Some(receiver) ==> receiver@.size_limit == self.size_limit
    }

    /// A request whose target is delivered in `property` of `window`, that
    /// keeps at most `size_limit` bytes.
    pub fn new(window: u32, property: u32, incr: u32, size_limit: usize) -> (request: Self)
        ensures
            request@ == new_request(window, property, incr, size_limit as nat),
    {
        TargetRequest { window, property, incr, size_limit, transfer: None }
    }

    /// Looks at an event.
    pub fn on_event(self, event: X11Event) -> (result: Result<RequestEvent, TargetError>)
        ensures
            event_taken(self@, event, result),
    {
        let (step, limit): (WaitStep, usize) = match &self.transfer {
            None => (wait_for_selection_notify(event), self.size_limit),
            Some(receiver) => (
                wait_for_property_update(event, self.window, self.property),
                receiver.remaining(),
            ),
        };
        match step {
            WaitStep::Ready => Ok(
                RequestEvent::Read(
                    TargetReading { request: self, reader: PropertyReader::new(limit) },
                ),
            ),
            WaitStep::Refused => Err(TargetError::Refused),
            WaitStep::Dispatch => Ok(RequestEvent::Dispatch(self)),
        }
    }
}

impl TargetReading {
    /// The reader keeps as much as the request allows.
    #[verifier::type_invariant]
    closed spec fn well_formed(self) -> bool {
        self.reader.size_limit() == self.request@.read_limit()
    }

    /// Where to read the property on, counted in 32-bit words.
    pub fn offset(&self) -> (offset: u32)
        ensures
            offset == words_read(self@.replies),
    {
        self.reader.offset()
    }

    /// Whether the offset behind `reply` can be expressed in the protocol, or
    /// is not needed.
    pub fn can_take(&self, reply: &PropertyReply) -> (can: bool)
        ensures
            can == (reply.bytes_after == 0 || words_read(self@.replies) + words_for(
                reply.value@.len(),
            ) <= u32::MAX),
    {
        self.reader.can_take(reply)
    }

    /// Takes in a piece of the property, reading words in the given order.
    pub fn on_reply_in(self, order: ByteOrder, reply: PropertyReply) -> (result: Result<
        RequestProgress,
        TargetError,
    >)
        requires
            reply.bytes_after != 0 ==> words_read(self@.replies) + words_for(reply.value@.len())
                <= u32::MAX,
        ensures
            reply_taken(order, self@, reply@, result),
            result matches Ok(RequestProgress::Complete(value)) ==> value.data@.len()
                <= self@.request.size_limit,
            self@.request.read_limit() >= 0,
    {
        proof {
            use_type_invariant(&self);
            use_type_invariant(&self.request);
        }
        let TargetReading { request, reader } = self;
        let value: PropertyValue = match reader.take(reply) {
            Err(error) => return Err(TargetError::Property(error)),
            Ok(ReadStep::More(reader)) => {
                return Ok(RequestProgress::Read(TargetReading { request, reader }));
            },
            Ok(ReadStep::Done(value)) => value,
        };
        let TargetRequest { window, property, incr, size_limit, transfer } = request;
        let receiver: IncrReceiver = match transfer {
            None => match begin_transfer_in(order, value, incr, size_limit) {
                Err(error) => return Err(TargetError::Receive(error)),
                Ok(TransferStart::Complete(target)) => {
                    return Ok(RequestProgress::Complete(target));
                },
                Ok(TransferStart::Incremental(receiver)) => receiver,
            },
            Some(receiver) => match receiver.accept(value) {
                Err(error) => return Err(TargetError::Receive(error)),
                Ok(ChunkStep::Done(target)) => return Ok(RequestProgress::Complete(target)),
                Ok(ChunkStep::More(receiver)) => receiver,
            },
        };
        Ok(
            RequestProgress::Await(
                TargetRequest { window, property, incr, size_limit, transfer: Some(receiver) },
            ),
        )
    }

    /// Takes in a piece of the property, reading words in the order of this
    /// machine.
    pub fn on_reply(self, reply: PropertyReply) -> (result: Result<RequestProgress, TargetError>)
        requires
            reply.bytes_after != 0 ==> words_read(self@.replies) + words_for(reply.value@.len())
                <= u32::MAX,
        ensures
            reply_taken(ByteOrder::Little, self@, reply@, result) || reply_taken(
                ByteOrder::Big,
                self@,
                reply@,
                result,
            ),
            result matches Ok(RequestProgress::Complete(value)) ==> value.data@.len()
                <= self@.request.size_limit,
    {
        self.on_reply_in(ByteOrder::native(), reply)
    }
}

/// What a request waits for: first the answer of the owner, which may be a
/// refusal, and in an incremental transfer the next value of the property. Any
/// other event is handed on and changes nothing.
pub proof fn law_request_waits(
    request: RequestView,
    event: X11Event,
    result: Result<RequestEvent, TargetError>,
)
    requires
        event_taken(request, event, result),
    ensures
        result matches Err(error) ==> error is Refused,
        result is Err <==> request.transfer is None && (event matches X11Event::SelectionNotify(
            property,
        ) && property == NONE),
        result matches Ok(RequestEvent::Read(reading)) ==> {
            &&& reading@.request == request
            &&& reading@.replies.len() == 0
        },
        (result is Ok && result->Ok_0 is Read) <==> match event {
            X11Event::SelectionNotify(property) => request.transfer is None && property != NONE,
            X11Event::PropertyUpdated { window, atom } => request.transfer is Some && window
                == request.window && atom == request.property,
            _ => false,
        },
        result matches Ok(RequestEvent::Dispatch(next)) ==> next@ == request,
{
}

/// A target that comes in one property and is complete has the type and the
/// format of the first piece. It is marked exactly when all pieces together hold
/// more bytes than the limit; unmarked it holds exactly the bytes of all pieces,
/// one after the other.
pub proof fn law_target_is_whole(
    order: ByteOrder,
    reading: ReadingView,
    reply: ReplyView,
    result: Result<RequestProgress, TargetError>,
)
    requires
        reply_taken(order, reading, reply, result),
        reading.request.transfer is None,
        result is Ok && result->Ok_0 is Complete,
    ensures
        ({
            let target = result->Ok_0->Complete_0@;
            let pieces = reading.replies.push(reply);
            let bytes = Seq::new(pieces.len(), |i: int| pieces[i].value).flatten();
            &&& reply.bytes_after == 0
            &&& target.type_ == pieces[0].type_
            &&& target.type_ != reading.request.incr
            &&& target.format == pieces[0].format
            &&& (target.exceeded_limit <==> bytes.len() > reading.request.size_limit)
            &&& !target.exceeded_limit ==> target.data == bytes
            &&& target.exceeded_limit ==> target.data.len() == 0
        }),
{
    let pieces = reading.replies.push(reply);
    law_property_holds_its_pieces(reading.request.size_limit, pieces);
}

/// What a request does while it reads: nothing of a piece is lost, and nothing
/// else of the request changes.
pub proof fn law_request_reads_on(
    order: ByteOrder,
    reading: ReadingView,
    reply: ReplyView,
    result: Result<RequestProgress, TargetError>,
)
    requires
        reply_taken(order, reading, reply, result),
    ensures
        result matches Ok(RequestProgress::Read(next)) ==> {
            &&& reply.bytes_after != 0
            &&& next@.request == reading.request
            &&& next@.replies.len() == reading.replies.len() + 1
            &&& next@.replies.last() == reply
            &&& next@.replies.drop_last() == reading.replies
        },
        result matches Ok(RequestProgress::Await(next)) ==> {
            &&& reply.bytes_after == 0
            &&& next@.window == reading.request.window
            &&& next@.property == reading.request.property
            &&& next@.incr == reading.request.incr
            &&& next@.size_limit == reading.request.size_limit
            &&& next@.transfer is Some
        },
        result is Ok ==> (result->Ok_0 is Read <==> reply.bytes_after != 0),
{
    let pieces = reading.replies.push(reply);
    assert(pieces.drop_last() =~= reading.replies);
}

/// A property of the type that announces an incremental transfer starts one:
/// no chunk is there yet, and the limit is that of the request. It is taken to
/// be too large exactly when the announcement or the announced size is over the
/// limit.
pub proof fn law_announcement_starts_transfer(
    order: ByteOrder,
    reading: ReadingView,
    reply: ReplyView,
    result: Result<RequestProgress, TargetError>,
)
    requires
        reply_taken(order, reading, reply, result),
        reading.request.transfer is None,
        result is Ok && result->Ok_0 is Await,
    ensures
        ({
            let next = result->Ok_0->Await_0@;
            let pieces = reading.replies.push(reply);
            let bytes = Seq::new(pieces.len(), |i: int| pieces[i].value).flatten();
            let limit = reading.request.size_limit;
            &&& pieces[0].type_ == reading.request.incr
            &&& next.transfer->0.chunks.len() == 0
            &&& next.transfer->0.size_limit == limit
            &&& bytes.len() <= limit ==> bytes.len() >= 4 && pieces[0].format == 32
            &&& (next.transfer->0.announced_too_much <==> bytes.len() > limit || word_of(
                order,
                bytes.take(4),
            ) > limit)
        }),
{
    let pieces = reading.replies.push(reply);
    law_property_holds_its_pieces(reading.request.size_limit, pieces);
}

/// A request fails exactly where it has to: a piece is of another type or format
/// than the first, or brings nothing although there is more, or an announcement
/// within the limit holds no 32-bit size, or a chunk is of another type or
/// format than the transfer.
pub proof fn law_request_fails_only_where_it_must(
    order: ByteOrder,
    reading: ReadingView,
    reply: ReplyView,
    result: Result<RequestProgress, TargetError>,
)
    requires
        reply_taken(order, reading, reply, result),
        reading.request.read_limit() >= 0,
    ensures
        ({
            let pieces = reading.replies.push(reply);
            let bytes = Seq::new(pieces.len(), |i: int| pieces[i].value).flatten();
            let differs = reply.type_ != pieces[0].type_ || reply.format != pieces[0].format;
            let stuck = reply.bytes_after != 0 && reply.value.len() == 0;
            let sizeless = match reading.request.transfer {
                None => pieces[0].type_ == reading.request.incr && bytes.len()
                    <= reading.request.size_limit && (pieces[0].format != 32 || bytes.len() < 4),
                Some(_) => false,
            };
            let strange = match reading.request.transfer {
                None => false,
                Some(transfer) => {
                    let kind = transfer_kind(transfer.chunks);
                    bytes.len() > 0 && kind.0 != NONE && (pieces[0].type_ != kind.0
                        || pieces[0].format != kind.1)
                },
            };
            let end = reply.bytes_after == 0;
            &&& (result is Err <==> differs || stuck || (end && (sizeless || strange)))
            &&& result matches Err(error) ==> {
                &&& (error == TargetError::Property(PropertyError::Changed) <==> differs)
                &&& (error == TargetError::Property(PropertyError::NoProgress) <==> !differs
                    && stuck)
                &&& (error == TargetError::Receive(ReceiveError::NoSize) <==> !differs && end
                    && sizeless)
                &&& (error == TargetError::Receive(ReceiveError::Changed) <==> !differs && end
                    && strange)
            }
        }),
{
    let pieces = reading.replies.push(reply);
    law_property_holds_its_pieces(reading.request.read_limit() as nat, pieces);
}

/// A chunk that was read is added to its transfer: it is marked exactly when its
/// pieces hold more bytes than may still come, and else holds exactly these.
/// Nothing else of the transfer changes.
pub proof fn law_chunk_is_added(
    order: ByteOrder,
    reading: ReadingView,
    reply: ReplyView,
    result: Result<RequestProgress, TargetError>,
)
    requires
        reply_taken(order, reading, reply, result),
        reading.request.read_limit() >= 0,
        reading.request.transfer is Some,
        result is Ok && result->Ok_0 is Await,
    ensures
        ({
            let before = reading.request.transfer->0;
            let after = result->Ok_0->Await_0@.transfer->0;
            let chunk = after.chunks.last();
            let pieces = reading.replies.push(reply);
            let bytes = Seq::new(pieces.len(), |i: int| pieces[i].value).flatten();
            &&& after.size_limit == before.size_limit
            &&& after.announced_too_much == before.announced_too_much
            &&& after.chunks.len() == before.chunks.len() + 1
            &&& after.chunks.drop_last() == before.chunks
            &&& bytes.len() > 0
            &&& chunk.type_ == pieces[0].type_
            &&& chunk.format == pieces[0].format
            &&& (chunk.exceeded_limit <==> bytes.len() > before.remaining())
            &&& !chunk.exceeded_limit ==> chunk.data == bytes
            &&& chunk.exceeded_limit ==> chunk.data.len() == 0
        }),
{
    let before = reading.request.transfer->0;
    let pieces = reading.replies.push(reply);
    law_property_holds_its_pieces(reading.request.read_limit() as nat, pieces);
    let after = result->Ok_0->Await_0@.transfer->0;
    assert(after.chunks.drop_last() =~= before.chunks);
}

/// The bytes of properties that were delivered one after the other, each of them
/// in pieces.
pub open spec fn bytes_delivered(deliveries: Seq<Seq<ReplyView>>) -> Seq<u8> {
    Seq::new(
        deliveries.len(),
        |k: int| Seq::new(deliveries[k].len(), |i: int| deliveries[k][i].value).flatten(),
    ).flatten()
}

/// Whether reading `pieces` to the end takes a request from `before` to `after`,
/// which waits for a chunk again.
pub open spec fn chunk_delivered(
    order: ByteOrder,
    before: RequestView,
    pieces: Seq<ReplyView>,
    after: RequestView,
) -> bool {
    exists|result: Result<RequestProgress, TargetError>| #[trigger]
        reply_taken(
            order,
            ReadingView { request: before, replies: pieces.drop_last() },
            pieces.last(),
            result,
        ) && (result matches Ok(RequestProgress::Await(next)) && next@ == after)
}

/// What a transfer holds after some chunks.
proof fn lemma_chunks_delivered(
    order: ByteOrder,
    requests: Seq<RequestView>,
    deliveries: Seq<Seq<ReplyView>>,
    count: nat,
)
    requires
        count <= deliveries.len(),
        requests.len() == deliveries.len() + 1,
        requests[0].transfer is Some,
        requests[0].transfer->0.chunks.len() == 0,
        forall|k: int|
            0 <= k < deliveries.len() ==> (#[trigger] deliveries[k]).len() > 0 && chunk_delivered(
                order,
                requests[k],
                deliveries[k],
                requests[k + 1],
            ),
        forall|k: int| 0 <= k < requests.len() ==> (#[trigger] requests[k]).read_limit() >= 0,
    ensures
        ({
            let first = requests[0].transfer->0;
            let now = requests[count as int].transfer->0;
            let bytes = bytes_delivered(deliveries.take(count as int));
            &&& requests[count as int].transfer is Some
            &&& now.size_limit == first.size_limit
            &&& now.announced_too_much == first.announced_too_much
            &&& (now.exceeded() <==> first.announced_too_much || bytes.len() > first.size_limit)
            &&& !now.exceeded() ==> chunk_bytes(now.chunks) == bytes
        }),
    decreases count,
{
    let first = requests[0].transfer->0;
    let deliveries_now = deliveries.take(count as int);
    let now = requests[count as int].transfer->0;
    if count == 0 {
        assert(bytes_delivered(deliveries_now) =~= seq![]);
        assert(!any_exceeded(first.chunks));
        assert(chunk_bytes(first.chunks) =~= seq![]);
    } else {
        let k = count - 1;
        lemma_chunks_delivered(order, requests, deliveries, k as nat);
        let before = requests[k].transfer->0;
        let pieces = deliveries[k];
        assert(chunk_delivered(order, requests[k], pieces, requests[k + 1]));
        let reading = ReadingView { request: requests[k], replies: pieces.drop_last() };
        let result: Result<RequestProgress, TargetError> = choose|
            result: Result<RequestProgress, TargetError>,
        | #[trigger]
            reply_taken(order, reading, pieces.last(), result) && (result matches Ok(
                RequestProgress::Await(next),
            ) && next@ == requests[k + 1]);
        law_chunk_is_added(order, reading, pieces.last(), result);
        assert(reading.replies.push(pieces.last()) =~= pieces);
        let bytes = Seq::new(pieces.len(), |i: int| pieces[i].value).flatten();
        let earlier = deliveries.take(k);
        let parts = Seq::new(
            deliveries_now.len(),
            |j: int|
                Seq::new(deliveries_now[j].len(), |i: int| deliveries_now[j][i].value).flatten(),
        );
        let earlier_parts = Seq::new(
            earlier.len(),
            |j: int| Seq::new(earlier[j].len(), |i: int| earlier[j][i].value).flatten(),
        );
        assert(parts =~= earlier_parts.push(bytes)) by {
            assert(Seq::new(deliveries_now[k].len(), |i: int| deliveries_now[k][i].value)
                =~= Seq::new(pieces.len(), |i: int| pieces[i].value));
            assert forall|j: int| 0 <= j < k implies parts[j] == earlier_parts[j] by {
                assert(Seq::new(deliveries_now[j].len(), |i: int| deliveries_now[j][i].value)
                    =~= Seq::new(earlier[j].len(), |i: int| earlier[j][i].value));
            }
        }
        earlier_parts.lemma_flatten_push(bytes);
        assert(bytes_delivered(deliveries_now) == bytes_delivered(earlier) + bytes);
        assert(now.chunks =~= before.chunks.push(now.chunks.last()));
        lemma_push_chunk(before.chunks, now.chunks.last());
    }
}

/// A target that comes in chunks arrives as it was sent. Whatever number of
/// chunks its owner delivers, and in whatever pieces each of them is read, once
/// the empty chunk ends the transfer the target is marked exactly when the
/// announced size or the bytes of all chunks together are over the limit.
/// Unmarked it holds exactly these bytes, one chunk after the other.
pub proof fn law_incremental_target_is_whole(
    order: ByteOrder,
    requests: Seq<RequestView>,
    deliveries: Seq<Seq<ReplyView>>,
    ending: Seq<ReplyView>,
    result: Result<RequestProgress, TargetError>,
)
    requires
        requests.len() == deliveries.len() + 1,
        requests[0].transfer is Some,
        requests[0].transfer->0.chunks.len() == 0,
        forall|k: int|
            0 <= k < deliveries.len() ==> (#[trigger] deliveries[k]).len() > 0 && chunk_delivered(
                order,
                requests[k],
                deliveries[k],
                requests[k + 1],
            ),
        forall|k: int| 0 <= k < requests.len() ==> (#[trigger] requests[k]).read_limit() >= 0,
        ending.len() > 0,
        reply_taken(
            order,
            ReadingView { request: requests.last(), replies: ending.drop_last() },
            ending.last(),
            result,
        ),
        result is Ok && result->Ok_0 is Complete,
    ensures
        ({
            let first = requests[0].transfer->0;
            let target = result->Ok_0->Complete_0@;
            let bytes = bytes_delivered(deliveries);
            &&& (target.exceeded_limit <==> first.announced_too_much || bytes.len()
                > first.size_limit)
            &&& !target.exceeded_limit ==> target.data == bytes
            &&& target.exceeded_limit ==> target.data.len() == 0
            &&& forall|i: int| 0 <= i < ending.len() ==> (#[trigger] ending[i]).value.len() == 0
        }),
{
    let count = deliveries.len();
    lemma_chunks_delivered(order, requests, deliveries, count);
    assert(deliveries.take(count as int) =~= deliveries);
    let last = requests.last().transfer->0;
    law_transfer_holds_its_chunks(last);
    law_chunks_joined(last.chunks);
    assert(ending.drop_last().push(ending.last()) =~= ending);
    law_property_holds_its_pieces(requests.last().read_limit() as nat, ending);
    let values = Seq::new(ending.len(), |i: int| ending[i].value);
    assert forall|i: int| 0 <= i < ending.len() implies (#[trigger] ending[i]).value.len() == 0 by {
        values.lemma_flatten_length_ge_single_element_length(i);
        values.lemma_flatten_and_flatten_alt_are_equivalent();
        assert(values[i] == ending[i].value);
    }
}

/// A chunk in which there are bytes never ends a transfer, and one without any
/// always does.
pub proof fn law_empty_chunk_ends_transfer(
    order: ByteOrder,
    reading: ReadingView,
    reply: ReplyView,
    result: Result<RequestProgress, TargetError>,
)
    requires
        reply_taken(order, reading, reply, result),
        reading.request.read_limit() >= 0,
        reading.request.transfer is Some,
        result is Ok,
        reply.bytes_after == 0,
    ensures
        ({
            let pieces = reading.replies.push(reply);
            let bytes = Seq::new(pieces.len(), |i: int| pieces[i].value).flatten();
            result->Ok_0 is Complete <==> bytes.len() == 0
        }),
{
    let pieces = reading.replies.push(reply);
    law_property_holds_its_pieces(reading.request.read_limit() as nat, pieces);
}

/// A new request waits for an answer in its own property and may receive as much
/// as its limit says.
pub proof fn law_new_request(window: u32, property: u32, incr: u32, size_limit: nat)
    ensures
        ({
            let request = new_request(window, property, incr, size_limit);
            &&& request.window == window
            &&& request.property == property
            &&& request.incr == incr
            &&& request.size_limit == size_limit
            &&& request.read_limit() == size_limit
            &&& request.transfer is None
        }),
{
}

/// Of a chunk as much may be read as is left of the limit of its transfer.
pub proof fn law_chunk_limit(request: RequestView)
    requires
        request.transfer is Some,
        !request.transfer->0.announced_too_much,
        forall|i: int|
            0 <= i < request.transfer->0.chunks.len() ==> !(
            #[trigger] request.transfer->0.chunks[i]).exceeded_limit,
    ensures
        ({
            let chunks = request.transfer->0.chunks;
            request.read_limit() + Seq::new(chunks.len(), |i: int| chunks[i].data).flatten().len()
                == request.transfer->0.size_limit
        }),
{
    law_transfer_holds_its_chunks(request.transfer->0);
}

} // verus!
