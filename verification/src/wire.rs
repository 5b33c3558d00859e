//! Reading 32-bit words out of property data.

use vstd::prelude::*;

verus! {

/// The order in which the bytes of a word stand.
#[derive(Clone, Copy, Debug, PartialEq, Eq, Structural)]
pub enum ByteOrder {
    /// The lowest byte first.
    Little,
    /// The highest byte first.
    Big,
}

/// The number whose base-256 digits are `digits`, the lowest first.
pub open spec fn le_value(digits: Seq<u8>) -> nat
    decreases digits.len(),
{
    if digits.len() == 0 {
        0
    } else {
        digits[0] as nat + 256 * le_value(digits.drop_first())
    }
}

/// The word that four bytes stand for.
pub open spec fn word_of(order: ByteOrder, bytes: Seq<u8>) -> int {
    match order {
        ByteOrder::Little => bytes[0] + 256 * bytes[1] + 65536 * bytes[2] + 16777216 * bytes[3],
        ByteOrder::Big => bytes[3] + 256 * bytes[2] + 65536 * bytes[1] + 16777216 * bytes[0],
    }
}

/// The words that `bytes` holds; up to three bytes at the end make no word.
pub open spec fn words_of(order: ByteOrder, bytes: Seq<u8>) -> Seq<u32> {
    Seq::new(
        (bytes.len() / 4) as nat,
        |i: int| word_of(order, bytes.subrange(4 * i, 4 * i + 4)) as u32,
    )
}

/// Calls `u32::from_ne_bytes`: the bytes are read in one of the two orders.
/// Which one depends on the machine.
#[verifier::external_body]
fn word_from_native(bytes: [u8; 4]) -> (word: u32)
    ensures
        word == word_of(ByteOrder::Little, bytes@) || word == word_of(ByteOrder::Big, bytes@),
{
    u32::from_ne_bytes(bytes)
}

/// The bytes that tell the two orders apart: each order reads another word in
/// them.
pub open spec fn probe_bytes() -> Seq<u8> {
    seq![1, 0, 0, 0]
}

impl ByteOrder {
    /// The order of this machine, found by letting it read the bytes of
    /// [`probe_bytes`]. Which order that is depends on the machine, so nothing
    /// is promised of the result; [`Self::of_probe`] says what follows from the
    /// word that was read.
    pub(crate) fn native() -> (order: ByteOrder) {
        let probe: [u8; 4] = [1, 0, 0, 0];
        ByteOrder::of_probe(word_from_native(probe))
    }

    /// The order in which the bytes of [`probe_bytes`] were read as `word`.
    pub fn of_probe(word: u32) -> (order: ByteOrder)
        ensures
            order == (if word == 1 {
                ByteOrder::Little
            } else {
                ByteOrder::Big
            }),
            word == word_of(ByteOrder::Little, probe_bytes()) || word == word_of(
                ByteOrder::Big,
                probe_bytes(),
            ) ==> word == word_of(order, probe_bytes()),
    {
        if word == 1 {
            ByteOrder::Little
        } else {
            ByteOrder::Big
        }
    }
}

/// The word at `bytes[at..at + 4]`.
pub fn word_at(order: ByteOrder, bytes: &[u8], at: usize) -> (word: u32)
    requires
        at + 4 <= bytes@.len(),
    ensures
        word == word_of(order, bytes@.subrange(at as int, at + 4)),
{
    let b0: u32 = bytes[at] as u32;
    let b1: u32 = bytes[at + 1] as u32;
    let b2: u32 = bytes[at + 2] as u32;
    let b3: u32 = bytes[at + 3] as u32;
    match order {
        ByteOrder::Little => b0 + 256 * b1 + 65536 * b2 + 16777216 * b3,
        ByteOrder::Big => b3 + 256 * b2 + 65536 * b1 + 16777216 * b0,
    }
}

/// The atoms in `bytes`, read in the given order.
pub fn decode_atoms_in(order: ByteOrder, bytes: &[u8]) -> (atoms: Vec<u32>)
    ensures
        atoms@ == words_of(order, bytes@),
{
    let mut atoms: Vec<u32> = Vec::new();
    let len: usize = bytes.len();
    let count: usize = len / 4;
    let mut i: usize = 0;
    while i < count
        invariant
            i <= count,
            len == bytes@.len(),
            count == len / 4,
            atoms@ == words_of(order, bytes@).take(i as int),
        decreases count - i,
    {
        atoms.push(word_at(order, bytes, 4 * i));
        assert(words_of(order, bytes@).take(i + 1) =~= words_of(order, bytes@).take(i as int).push(
            atoms@[i as int],
        ));
        i += 1;
    }
    assert(words_of(order, bytes@).take(i as int) =~= words_of(order, bytes@));
    atoms
}

/// The atoms in `bytes`, read in the order of this machine.
pub fn decode_atoms(bytes: &[u8]) -> (atoms: Vec<u32>)
    ensures
        atoms@ == words_of(ByteOrder::Little, bytes@) || atoms@ == words_of(
            ByteOrder::Big,
            bytes@,
        ),
{
    decode_atoms_in(ByteOrder::native(), bytes)
}

/// A word is the number whose digits its bytes are, from the lowest to the
/// highest or the other way round.
pub proof fn law_word_value(bytes: Seq<u8>)
    requires
        bytes.len() == 4,
    ensures
        word_of(ByteOrder::Little, bytes) == le_value(bytes),
        word_of(ByteOrder::Big, bytes) == le_value(bytes.reverse()),
{
    let turned = bytes.reverse();
    reveal_with_fuel(le_value, 5);
    assert(bytes.drop_first().drop_first().drop_first().drop_first().len() == 0);
    assert(turned.drop_first().drop_first().drop_first().drop_first().len() == 0);
}

/// The words of two pieces are those of the first and then those of the second,
/// where the first is made of whole words; four bytes are one word, and fewer
/// are none.
pub proof fn law_words_in_turn(order: ByteOrder, first: Seq<u8>, second: Seq<u8>)
    requires
        first.len() % 4 == 0,
    ensures
        words_of(order, first + second) == words_of(order, first) + words_of(order, second),
        second.len() == 4 ==> words_of(order, second) == seq![word_of(order, second) as u32],
        second.len() < 4 ==> words_of(order, second) == Seq::<u32>::empty(),
{
    let all = first + second;
    let words = words_of(order, first) + words_of(order, second);
    assert(words_of(order, all).len() == words.len());
    assert forall|i: int| 0 <= i < words.len() implies words_of(order, all)[i] == words[i] by {
        let count = first.len() as int / 4;
        if i < count {
            assert(all.subrange(4 * i, 4 * i + 4) =~= first.subrange(4 * i, 4 * i + 4));
        } else {
            let j = i - count;
            assert(all.subrange(4 * i, 4 * i + 4) =~= second.subrange(4 * j, 4 * j + 4));
        }
    }
    assert(words_of(order, all) =~= words);
    if second.len() == 4 {
        assert(second.subrange(0, 4) =~= second);
        assert(words_of(order, second) =~= seq![word_of(order, second) as u32]);
    }
    if second.len() < 4 {
        assert(words_of(order, second) =~= Seq::<u32>::empty());
    }
}

/// The word that four bytes stand for fits into 32 bits.
pub(crate) proof fn lemma_word_fits(order: ByteOrder, bytes: Seq<u8>)
    ensures
        0 <= word_of(order, bytes) <= u32::MAX,
{
}

} // verus!
