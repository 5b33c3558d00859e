//! Reading a property of an X11 window piece by piece, up to a size limit.

use vstd::prelude::*;

verus! {

/// The value that stands for no atom and no window.
pub const NONE: u32 = 0;

/// The number of 32-bit words to ask for in one read.
pub const PROPERTY_CHUNK_LONGS: u32 = 16 * 1024;

/// The model of a [`PropertyReply`].
#[verifier::ext_equal]
pub struct ReplyView {
    pub type_: u32,
    pub format: u8,
    pub bytes_after: u32,
    pub value: Seq<u8>,
}

/// What the server answers to one read of a property.
pub struct PropertyReply {
    pub type_: u32,
    pub format: u8,
    /// How many bytes follow those in `value`.
    pub bytes_after: u32,
    pub value: Vec<u8>,
}

impl View for PropertyReply {
    type V = ReplyView;

    open spec fn view(&self) -> ReplyView {
        ReplyView {
            type_: self.type_,
            format: self.format,
            bytes_after: self.bytes_after,
            value: self.value@,
        }
    }
}

/// The model of a [`PropertyValue`].
#[verifier::ext_equal]
pub struct ValueView {
    pub type_: u32,
    pub format: u8,
    pub data: Seq<u8>,
    pub exceeded_limit: bool,
}

/// A property as it was read: with all its data, or with none and a mark that
/// the data exceeds the size limit.
pub struct PropertyValue {
    pub type_: u32,
    pub format: u8,
    pub data: Vec<u8>,
    pub exceeded_limit: bool,
}

impl View for PropertyValue {
    type V = ValueView;

    open spec fn view(&self) -> ValueView {
        ValueView {
            type_: self.type_,
            format: self.format,
            data: self.data@,
            exceeded_limit: self.exceeded_limit,
        }
    }
}

/// Why a property cannot be read to its end.
#[derive(Clone, Copy, Debug, PartialEq, Eq, Structural)]
pub enum PropertyError {
    /// The type or the format differs from that of the first piece.
    Changed,
    /// The server announces more bytes but sends none.
    NoProgress,
}

impl PropertyError {
    /// What to tell the user.
    pub fn message(&self) -> (message: &'static str)
        ensures
            message@ == match *self {
                PropertyError::Changed => "X11 property changed while it was being read"@,
                PropertyError::NoProgress => "X11 property read made no progress"@,
            },
    {
        match *self {
            PropertyError::Changed => "X11 property changed while it was being read",
            PropertyError::NoProgress => "X11 property read made no progress",
        }
    }
}

/// The bytes of all pieces, one after the other.
pub open spec fn joined(replies: Seq<ReplyView>) -> Seq<u8>
    decreases replies.len(),
{
    if replies.len() == 0 {
        seq![]
    } else {
        joined(replies.drop_last()) + replies.last().value
    }
}

/// The number of 32-bit words that `bytes` bytes take up.
pub open spec fn words_for(bytes: nat) -> nat {
    (bytes + 3) / 4
}

/// The number of 32-bit words that `bytes` bytes take up.
fn word_count(bytes: usize) -> (words: usize)
    ensures
        words == words_for(bytes as nat),
{
    bytes / 4 + (if bytes % 4 == 0 {
        0usize
    } else {
        1usize
    })
}

/// The number of 32-bit words that the pieces take up, each one rounded up.
pub open spec fn words_read(replies: Seq<ReplyView>) -> nat
    decreases replies.len(),
{
    if replies.len() == 0 {
        0
    } else {
        words_read(replies.drop_last()) + words_for(replies.last().value.len())
    }
}

/// Whether a piece belongs to another property value than the pieces before it.
pub open spec fn reply_differs(replies: Seq<ReplyView>, reply: ReplyView) -> bool {
    replies.len() > 0 && (reply.type_ != replies[0].type_ || reply.format != replies[0].format)
}

/// The property that the pieces make up: their type and format, and their bytes
/// unless these are more than `size_limit`.
pub open spec fn property_of(size_limit: nat, replies: Seq<ReplyView>) -> ValueView
    recommends
        replies.len() > 0,
{
    let exceeded = joined(replies).len() > size_limit;
    ValueView {
        type_: replies[0].type_,
        format: replies[0].format,
        data: if exceeded {
            seq![]
        } else {
            joined(replies)
        },
        exceeded_limit: exceeded,
    }
}

/// A property that was read in part: every piece so far announced more.
pub struct PropertyReader {
    size_limit: usize,
    offset: u32,
    type_: u32,
    format: u8,
    data: Vec<u8>,
    exceeded_limit: bool,
    replies: Ghost<Seq<ReplyView>>,
}

/// What to do after a piece.
pub enum ReadStep {
    /// Read on, from the offset of the reader.
    More(PropertyReader),
    /// The property is complete.
    Done(PropertyValue),
}

impl PropertyReader {
    /// The largest number of bytes to keep.
    pub closed spec fn size_limit(self) -> nat {
        self.size_limit as nat
    }

    /// The pieces that were read.
    pub closed spec fn replies(self) -> Seq<ReplyView> {
        self.replies@
    }

    #[verifier::type_invariant]
    closed spec fn well_formed(self) -> bool {
        let replies = self.replies@;
        let bytes = joined(replies);
        &&& self.offset == words_read(replies)
        &&& (self.offset == 0 <==> replies.len() == 0)
        &&& replies.len() > 0 ==> self.type_ == replies[0].type_ && self.format == replies[0].format
        &&& self.exceeded_limit == (bytes.len() > self.size_limit)
        &&& self.data@ == (if self.exceeded_limit {
            seq![]
        } else {
            bytes
        })
    }

    /// Starts to read a property of which at most `size_limit` bytes are kept.
    pub fn new(size_limit: usize) -> (reader: Self)
        ensures
            reader.size_limit() == size_limit,
            reader.replies() == Seq::<ReplyView>::empty(),
    {
        PropertyReader {
            size_limit,
            offset: 0,
            type_: NONE,
            format: 0,
            data: Vec::new(),
            exceeded_limit: false,
            replies: Ghost(Seq::empty()),
        }
    }

    /// Where to read on, counted in 32-bit words.
    pub fn offset(&self) -> (offset: u32)
        ensures
            offset == words_read(self.replies()),
    {
        proof {
            use_type_invariant(self);
        }
        self.offset
    }

    /// Whether the offset behind `reply` can be expressed in the protocol, or
    /// is not needed.
    pub fn can_take(&self, reply: &PropertyReply) -> (can: bool)
        ensures
            can == (reply.bytes_after == 0 || words_read(self.replies()) + words_for(
                reply.value@.len(),
            ) <= u32::MAX),
    {
        proof {
            use_type_invariant(self);
        }
        if reply.bytes_after == 0 {
            return true;
        }
        let words: usize = word_count(reply.value.len());
        let room: usize = (u32::MAX - self.offset) as usize;
        words <= room
    }

    /// Takes in the next piece.
    pub fn take(self, reply: PropertyReply) -> (result: Result<ReadStep, PropertyError>)
        requires
            reply.bytes_after != 0 ==> words_read(self.replies()) + words_for(reply.value@.len())
                <= u32::MAX,
        ensures
            match result {
                Err(PropertyError::Changed) => reply_differs(self.replies(), reply@),
                Err(PropertyError::NoProgress) => {
                    &&& !reply_differs(self.replies(), reply@)
                    &&& reply.bytes_after != 0
                    &&& reply.value@.len() == 0
                },
                Ok(ReadStep::More(reader)) => {
                    &&& !reply_differs(self.replies(), reply@)
                    &&& reply.bytes_after != 0
                    &&& reply.value@.len() != 0
                    &&& reader.size_limit() == self.size_limit()
                    &&& reader.replies() == self.replies().push(reply@)
                },
                Ok(ReadStep::Done(value)) => {
                    &&& !reply_differs(self.replies(), reply@)
                    &&& reply.bytes_after == 0
                    &&& value@ == property_of(self.size_limit(), self.replies().push(reply@))
                },
            },
    {
        proof {
            use_type_invariant(&self);
        }
        let ghost before = self.replies@;
        let ghost after = before.push(reply@);
        proof {
            assert(after.drop_last() =~= before);
            assert(joined(after) == joined(before) + reply.value@);
            assert(words_read(after) == words_read(before) + words_for(reply.value@.len()));
        }
        let type_: u32 = if self.offset == 0 {
            reply.type_
        } else {
            self.type_
        };
        let format: u8 = if self.offset == 0 {
            reply.format
        } else {
            self.format
        };
        if reply.type_ != type_ || reply.format != format {
            return Err(PropertyError::Changed);
        }
        let size_limit: usize = self.size_limit;
        let offset: u32 = self.offset;
        let mut data: Vec<u8> = self.data;
        let mut exceeded_limit: bool = self.exceeded_limit;
        if !exceeded_limit {
            let remaining: usize = size_limit - data.len();
            if reply.value.len() <= remaining {
                let ghost old_data = data@;
                data.extend_from_slice(reply.value.as_slice());
                assert(data@ =~= old_data + reply.value@);
            } else {
                exceeded_limit = true;
                data.clear();
            }
        }
        if reply.bytes_after == 0 {
            return Ok(ReadStep::Done(PropertyValue { type_, format, data, exceeded_limit }));
        }
        if reply.value.is_empty() {
            return Err(PropertyError::NoProgress);
        }
        let words: usize = word_count(reply.value.len());
        Ok(
            ReadStep::More(
                PropertyReader {
                    size_limit,
                    offset: offset + words as u32,
                    type_,
                    format,
                    data,
                    exceeded_limit,
                    replies: Ghost(after),
                },
            ),
        )
    }
}

/// A property that was read within the limit holds every byte of its pieces,
/// one that exceeds the limit is marked and holds none.
pub proof fn law_property_whole_or_marked(size_limit: nat, replies: Seq<ReplyView>)
    ensures
        property_of(size_limit, replies).data.len() <= size_limit,
        joined(replies).len() <= size_limit ==> {
            &&& !property_of(size_limit, replies).exceeded_limit
            &&& property_of(size_limit, replies).data == joined(replies)
        },
        joined(replies).len() > size_limit ==> {
            &&& property_of(size_limit, replies).exceeded_limit
            &&& property_of(size_limit, replies).data == Seq::<u8>::empty()
        },
{
}

/// The bytes of a property are those of its pieces, one piece after the other.
pub proof fn law_pieces_joined(replies: Seq<ReplyView>)
    ensures
        joined(replies) == Seq::new(replies.len(), |i: int| replies[i].value).flatten(),
    decreases replies.len(),
{
    let values = Seq::new(replies.len(), |i: int| replies[i].value);
    if replies.len() > 0 {
        let rest = replies.drop_last();
        law_pieces_joined(rest);
        let rest_values = Seq::new(rest.len(), |i: int| rest[i].value);
        assert(values =~= rest_values.push(replies.last().value));
        rest_values.lemma_flatten_push(replies.last().value);
    } else {
        assert(values.flatten() =~= seq![]);
    }
}

/// A property is read from its first byte on, and each read goes on at the word
/// behind the last one: the number of words is the least that holds the bytes of
/// a piece, and those of pieces add up.
pub proof fn law_words_add_up(replies: Seq<ReplyView>, reply: ReplyView, bytes: nat, words: nat)
    ensures
        4 * words >= bytes <==> words >= words_for(bytes),
        words_read(Seq::empty()) == 0,
        words_read(replies.push(reply)) == words_read(replies) + words_for(reply.value.len()),
{
    assert(replies.push(reply).drop_last() =~= replies);
}

/// Pieces of which none differs from those before it are of one type and one
/// format, and pieces that are do not differ.
pub proof fn law_pieces_of_one_kind(replies: Seq<ReplyView>)
    ensures
        (forall|k: int|
            #![trigger replies[k]]
            0 <= k < replies.len() ==> !reply_differs(replies.take(k), replies[k])) <==> (forall|
            k: int,
        |
            #![trigger replies[k]]
            0 <= k < replies.len() ==> replies[k].type_ == replies[0].type_ && replies[k].format
                == replies[0].format),
{
    assert forall|k: int|
        #![trigger replies[k]]
        0 < k < replies.len() implies replies.take(k)[0] == replies[0] by {}
    if forall|k: int|
        #![trigger replies[k]]
        0 <= k < replies.len() ==> !reply_differs(replies.take(k), replies[k]) {
        assert forall|k: int|
            #![trigger replies[k]]
            0 <= k < replies.len() implies replies[k].type_ == replies[0].type_
            && replies[k].format == replies[0].format by {
            if k > 0 {
                assert(!reply_differs(replies.take(k), replies[k]));
                assert(replies.take(k)[0] == replies[0]);
            }
        }
    }
}

/// A property that was read has the type and the format of its first piece.
/// Where the bytes of its pieces are no more than the limit it holds exactly
/// these, else it is marked and holds none.
pub proof fn law_property_holds_its_pieces(size_limit: nat, replies: Seq<ReplyView>)
    requires
        replies.len() > 0,
    ensures
        ({
            let value = property_of(size_limit, replies);
            let bytes = Seq::new(replies.len(), |i: int| replies[i].value).flatten();
            &&& value.type_ == replies[0].type_
            &&& value.format == replies[0].format
            &&& (value.exceeded_limit <==> bytes.len() > size_limit)
            &&& bytes.len() <= size_limit ==> value.data == bytes
            &&& bytes.len() > size_limit ==> value.data == Seq::<u8>::empty()
        }),
{
    law_pieces_joined(replies);
}

/// Replies and values are seen as they are.
pub proof fn law_property_views(reply: PropertyReply, value: PropertyValue)
    ensures
        reply@.type_ == reply.type_ && reply@.format == reply.format,
        reply@.bytes_after == reply.bytes_after && reply@.value == reply.value@,
        value@.type_ == value.type_ && value@.format == value.format,
        value@.data == value.data@ && value@.exceeded_limit == value.exceeded_limit,
{
}

/// One read asks for 64 KiB.
pub proof fn law_size_of_a_read()
    ensures
        4 * PROPERTY_CHUNK_LONGS == 64 * 1024,
{
}

} // verus!
