//! Receiving one target from another X11 client, in one piece or through the
//! `INCR` protocol.

use vstd::prelude::*;

use crate::property::{PropertyValue, ValueView, NONE};
use crate::wire::{word_at, word_of, ByteOrder};

verus! {

/// Why an incremental transfer cannot be received.
#[derive(Clone, Copy, Debug, PartialEq, Eq, Structural)]
pub enum ReceiveError {
    /// The response that starts the transfer holds no 32-bit size.
    NoSize,
    /// The type or the format differs from that of an earlier chunk.
    Changed,
}

impl ReceiveError {
    /// What to tell the user.
    pub fn message(&self) -> (message: &'static str)
        ensures
            message@ == match *self {
                ReceiveError::NoSize => "X11 INCR response does not contain a 32-bit size"@,
                ReceiveError::Changed => "X11 INCR transfer changed its property type or format"@,
            },
    {
        match *self {
            ReceiveError::NoSize => "X11 INCR response does not contain a 32-bit size",
            ReceiveError::Changed => "X11 INCR transfer changed its property type or format",
        }
    }
}

/// The data of all chunks, one after the other.
pub open spec fn chunk_bytes(chunks: Seq<ValueView>) -> Seq<u8>
    decreases chunks.len(),
{
    if chunks.len() == 0 {
        seq![]
    } else {
        chunk_bytes(chunks.drop_last()) + chunks.last().data
    }
}

/// Whether one of the chunks exceeded its size limit.
pub open spec fn any_exceeded(chunks: Seq<ValueView>) -> bool {
    exists|i: int| 0 <= i < chunks.len() && (#[trigger] chunks[i]).exceeded_limit
}

/// The type and format of a transfer: those of its first chunk that has a type.
pub open spec fn transfer_kind(chunks: Seq<ValueView>) -> (u32, u8)
    decreases chunks.len(),
{
    if chunks.len() == 0 {
        (NONE, 0)
    } else {
        let kind = transfer_kind(chunks.drop_last());
        if kind.0 == NONE {
            (chunks.last().type_, chunks.last().format)
        } else {
            kind
        }
    }
}

/// Whether a chunk does not fit the type and format of the chunks before it.
pub open spec fn chunk_differs(chunks: Seq<ValueView>, chunk: ValueView) -> bool {
    let kind = transfer_kind(chunks);
    kind.0 != NONE && (chunk.type_ != kind.0 || chunk.format != kind.1)
}

/// Whether a chunk ends its transfer: it is empty.
pub open spec fn ends_transfer(chunk: ValueView) -> bool {
    chunk.data.len() == 0 && !chunk.exceeded_limit
}

/// The model of an [`IncrReceiver`].
#[verifier::ext_equal]
pub struct TransferView {
    /// The largest number of bytes to keep.
    pub size_limit: nat,
    /// Whether the announced size was over the limit.
    pub announced_too_much: bool,
    /// The chunks so far.
    pub chunks: Seq<ValueView>,
}

impl TransferView {
    /// Whether the data is over the limit, as announced or as received.
    pub open spec fn exceeded(self) -> bool {
        self.announced_too_much || any_exceeded(self.chunks)
    }

    /// How many bytes the next chunk may have.
    pub open spec fn remaining(self) -> int {
        if self.exceeded() {
            0
        } else {
            self.size_limit - chunk_bytes(self.chunks).len()
        }
    }

    /// What was received: all data, or none and a mark.
    pub open spec fn value(self) -> ValueView {
        ValueView {
            type_: transfer_kind(self.chunks).0,
            format: transfer_kind(self.chunks).1,
            data: if self.exceeded() {
                seq![]
            } else {
                chunk_bytes(self.chunks)
            },
            exceeded_limit: self.exceeded(),
        }
    }
}

/// An incremental transfer under way.
pub struct IncrReceiver {
    size_limit: usize,
    exceeded_limit: bool,
    data: Vec<u8>,
    type_: u32,
    format: u8,
    transfer: Ghost<TransferView>,
}

/// How a target arrives.
pub enum TransferStart {
    /// In one piece, which is here.
    Complete(PropertyValue),
    /// In chunks.
    Incremental(IncrReceiver),
}

/// What to do after a chunk.
pub enum ChunkStep {
    /// Wait for the next chunk.
    More(IncrReceiver),
    /// The target is complete.
    Done(PropertyValue),
}

impl View for IncrReceiver {
    type V = TransferView;

    closed spec fn view(&self) -> TransferView {
        self.transfer@
    }
}

impl IncrReceiver {
    #[verifier::type_invariant]
    closed spec fn well_formed(self) -> bool {
        let transfer = self.transfer@;
        &&& self.size_limit == transfer.size_limit
        &&& self.exceeded_limit == transfer.exceeded()
        &&& self.data@ == transfer.value().data
        &&& self.data@.len() <= self.size_limit
        &&& (self.type_, self.format) == transfer_kind(transfer.chunks)
    }

    /// How many bytes the next chunk may have.
    pub fn remaining(&self) -> (remaining: usize)
        ensures
            remaining == self@.remaining(),
    {
        proof {
            use_type_invariant(self);
        }
        if self.exceeded_limit {
            0
        } else {
            self.size_limit - self.data.len()
        }
    }

    /// Takes in the next chunk, which was read with the limit
    /// [`Self::remaining`].
    pub fn accept(self, chunk: PropertyValue) -> (result: Result<ChunkStep, ReceiveError>)
        requires
            chunk.exceeded_limit || self@.exceeded() || chunk.data@.len() <= self@.remaining(),
        ensures
            match result {
                Ok(ChunkStep::Done(value)) => {
                    &&& ends_transfer(chunk@)
                    &&& value@ == self@.value()
                    &&& value.data@.len() <= self@.size_limit
                },
                Err(error) => {
                    &&& error == ReceiveError::Changed
                    &&& !ends_transfer(chunk@)
                    &&& chunk_differs(self@.chunks, chunk@)
                },
                Ok(ChunkStep::More(receiver)) => {
                    &&& !ends_transfer(chunk@)
                    &&& !chunk_differs(self@.chunks, chunk@)
                    &&& receiver@ == (TransferView { chunks: self@.chunks.push(chunk@), ..self@ })
                },
            },
    {
        proof {
            use_type_invariant(&self);
        }
        let ghost before = self.transfer@;
        let ghost after = TransferView { chunks: before.chunks.push(chunk@), ..before };
        let size_limit: usize = self.size_limit;
        let mut exceeded_limit: bool = self.exceeded_limit;
        let mut data: Vec<u8> = self.data;
        let mut type_: u32 = self.type_;
        let mut format: u8 = self.format;
        if chunk.data.is_empty() && !chunk.exceeded_limit {
            return Ok(ChunkStep::Done(PropertyValue { type_, format, data, exceeded_limit }));
        }
        if type_ == NONE {
            type_ = chunk.type_;
            format = chunk.format;
        } else if chunk.type_ != type_ || chunk.format != format {
            return Err(ReceiveError::Changed);
        }
        if chunk.exceeded_limit {
            exceeded_limit = true;
            data.clear();
        } else if !exceeded_limit {
            let ghost old_data = data@;
            data.extend_from_slice(chunk.data.as_slice());
            assert(data@ =~= old_data + chunk.data@);
        }
        proof {
            lemma_push_chunk(before.chunks, chunk@);
        }
        Ok(
            ChunkStep::More(
                IncrReceiver {
                    size_limit,
                    exceeded_limit,
                    data,
                    type_,
                    format,
                    transfer: Ghost(after),
                },
            ),
        )
    }
}

pub(crate) proof fn lemma_push_chunk(chunks: Seq<ValueView>, chunk: ValueView)
    ensures
        chunk_bytes(chunks.push(chunk)) == chunk_bytes(chunks) + chunk.data,
        any_exceeded(chunks.push(chunk)) == (any_exceeded(chunks) || chunk.exceeded_limit),
        transfer_kind(chunks.push(chunk)) == (if transfer_kind(chunks).0 == NONE {
            (chunk.type_, chunk.format)
        } else {
            transfer_kind(chunks)
        }),
{
    let after = chunks.push(chunk);
    assert(after.drop_last() =~= chunks);
    if any_exceeded(chunks) {
        let i: int = choose|i: int| 0 <= i < chunks.len() && (#[trigger] chunks[i]).exceeded_limit;
        assert(after[i].exceeded_limit);
    }
    if chunk.exceeded_limit {
        assert(after[chunks.len() as int].exceeded_limit);
    }
    if any_exceeded(after) && !chunk.exceeded_limit {
        let i: int = choose|i: int| 0 <= i < after.len() && (#[trigger] after[i]).exceeded_limit;
        assert(chunks[i].exceeded_limit);
    }
}

/// How the transfer starts that the response `initial` announces, when words
/// are read in the given order.
pub open spec fn started(
    order: ByteOrder,
    initial: ValueView,
    incr: u32,
    size_limit: nat,
    result: Result<TransferStart, ReceiveError>,
) -> bool {
    if initial.type_ != incr {
        result matches Ok(TransferStart::Complete(value)) && value@ == initial
    } else if !initial.exceeded_limit && (initial.format != 32 || initial.data.len() < 4) {
        result == Err::<TransferStart, ReceiveError>(ReceiveError::NoSize)
    } else {
        result matches Ok(TransferStart::Incremental(receiver)) && receiver@ == (TransferView {
            size_limit,
            announced_too_much: initial.exceeded_limit || word_of(order, initial.data.take(4))
                > size_limit,
            chunks: seq![],
        })
    }
}

/// Looks at the response to a conversion request: unless its type is `incr` it
/// is the target itself, else it announces a size and chunks follow. Words are
/// read in the given order.
pub fn begin_transfer_in(
    order: ByteOrder,
    initial: PropertyValue,
    incr: u32,
    size_limit: usize,
) -> (result: Result<TransferStart, ReceiveError>)
    ensures
        started(order, initial@, incr, size_limit as nat, result),
{
    if initial.type_ != incr {
        return Ok(TransferStart::Complete(initial));
    }
    let mut exceeded_limit: bool = initial.exceeded_limit;
    if !exceeded_limit {
        if initial.format != 32 || initial.data.len() < 4 {
            return Err(ReceiveError::NoSize);
        }
        let announced: u32 = word_at(order, initial.data.as_slice(), 0);
        assert(initial.data@.subrange(0, 4) =~= initial.data@.take(4));
        exceeded_limit = announced as usize > size_limit;
    }
    Ok(
        TransferStart::Incremental(
            IncrReceiver {
                size_limit,
                exceeded_limit,
                data: Vec::new(),
                type_: NONE,
                format: 0,
                transfer: Ghost(
                    TransferView {
                        size_limit: size_limit as nat,
                        announced_too_much: exceeded_limit,
                        chunks: seq![],
                    },
                ),
            },
        ),
    )
}

/// The bytes of chunks are the data of each chunk, one after the other.
pub proof fn law_chunks_joined(chunks: Seq<ValueView>)
    ensures
        chunk_bytes(chunks) == Seq::new(chunks.len(), |i: int| chunks[i].data).flatten(),
    decreases chunks.len(),
{
    let data = Seq::new(chunks.len(), |i: int| chunks[i].data);
    if chunks.len() > 0 {
        let rest = chunks.drop_last();
        law_chunks_joined(rest);
        let rest_data = Seq::new(rest.len(), |i: int| rest[i].data);
        assert(data =~= rest_data.push(chunks.last().data));
        rest_data.lemma_flatten_push(chunks.last().data);
    } else {
        assert(data.flatten() =~= seq![]);
    }
}

/// What was received through chunks is marked exactly when the announced size or
/// a chunk was over the limit. Unmarked it holds exactly the data of all chunks,
/// marked it holds none. What may still come fills the limit up, or is nothing
/// once the limit was broken.
pub proof fn law_transfer_holds_its_chunks(transfer: TransferView)
    ensures
        ({
            let value = transfer.value();
            let bytes = Seq::new(transfer.chunks.len(), |i: int| transfer.chunks[i].data).flatten();
            let broken = transfer.announced_too_much || exists|i: int|
                0 <= i < transfer.chunks.len() && (#[trigger] transfer.chunks[i]).exceeded_limit;
            &&& (value.exceeded_limit <==> broken)
            &&& value.type_ == transfer_kind(transfer.chunks).0
            &&& value.format == transfer_kind(transfer.chunks).1
            &&& !broken ==> value.data == bytes && bytes.len() + transfer.remaining()
                == transfer.size_limit
            &&& broken ==> value.data == Seq::<u8>::empty() && transfer.remaining() == 0
        }),
{
    law_chunks_joined(transfer.chunks);
}

/// A transfer has the type and the format of its first chunk that has a type,
/// and a chunk differs exactly when that one exists and it has another type or
/// format.
pub proof fn law_transfer_kind_is_the_first(chunks: Seq<ValueView>, chunk: ValueView, first: int)
    requires
        0 <= first < chunks.len(),
        chunks[first].type_ != NONE,
        forall|i: int| 0 <= i < first ==> (#[trigger] chunks[i]).type_ == NONE,
    ensures
        transfer_kind(chunks) == (chunks[first].type_, chunks[first].format),
        chunk_differs(chunks, chunk) <==> chunk.type_ != chunks[first].type_ || chunk.format
            != chunks[first].format,
    decreases chunks.len(),
{
    let rest = chunks.drop_last();
    if first < rest.len() {
        assert(rest[first] == chunks[first]);
        assert forall|i: int| 0 <= i < first implies (#[trigger] rest[i]).type_ == NONE by {
            assert(rest[i] == chunks[i]);
        }
        law_transfer_kind_is_the_first(rest, chunk, first);
    } else {
        assert forall|i: int| 0 <= i < rest.len() implies (#[trigger] rest[i]).type_ == NONE by {
            assert(rest[i] == chunks[i]);
        }
        law_untyped_chunks_fit_anything(rest, chunk);
    }
}

/// Where no chunk has a type yet, no chunk differs.
pub proof fn law_untyped_chunks_fit_anything(chunks: Seq<ValueView>, chunk: ValueView)
    requires
        forall|i: int| 0 <= i < chunks.len() ==> (#[trigger] chunks[i]).type_ == NONE,
    ensures
        transfer_kind(chunks).0 == NONE,
        chunks.len() == 0 ==> transfer_kind(chunks).1 == 0,
        !chunk_differs(chunks, chunk),
    decreases chunks.len(),
{
    if chunks.len() > 0 {
        let rest = chunks.drop_last();
        assert forall|i: int| 0 <= i < rest.len() implies (#[trigger] rest[i]).type_ == NONE by {
            assert(rest[i] == chunks[i]);
        }
        law_untyped_chunks_fit_anything(rest, chunk);
        assert(chunks[chunks.len() - 1].type_ == NONE);
    }
}

/// How a response starts a transfer: one of another type than `incr` is the
/// target, with all that it holds; one of that type starts a transfer without
/// any chunk, unless it is within its limit and holds no 32-bit size.
pub proof fn law_transfer_starts(
    order: ByteOrder,
    initial: ValueView,
    incr: u32,
    size_limit: nat,
    result: Result<TransferStart, ReceiveError>,
)
    requires
        started(order, initial, incr, size_limit, result),
    ensures
        result matches Ok(TransferStart::Complete(value)) ==> initial.type_ != incr && value@
            == initial,
        result matches Ok(TransferStart::Incremental(receiver)) ==> {
            &&& initial.type_ == incr
            &&& receiver@.size_limit == size_limit
            &&& receiver@.chunks.len() == 0
            &&& (receiver@.announced_too_much <==> initial.exceeded_limit || word_of(
                order,
                initial.data.take(4),
            ) > size_limit)
        },
        result matches Err(error) ==> error is NoSize,
        result is Err <==> initial.type_ == incr && !initial.exceeded_limit && !(initial.format
            == 32 && initial.data.len() >= 4),
{
}

} // verus!
