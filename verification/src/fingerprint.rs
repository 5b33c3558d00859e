//! Content fingerprints: a digest over a framing that tells apart any two
//! different contents.

use vstd::prelude::*;
use vstd::utf8::encode_utf8;

use crate::content::{
    is_normal_form, law_normal_form_ignores_order, law_normal_form_keeps_first_offers,
    lemma_insert_ordered, lemma_lookup_none, lemma_normal_form, lemma_normal_form_same, lookup,
    normal_form, OfferView,
};
use crate::snapshot::{insert_named, names_ordered};
use crate::text::{lemma_name_bytes_injective, name_precedes};
use crate::wire::le_value;

verus! {

/// The BLAKE3 digest of `input`.
pub uninterp spec fn blake3_digest(input: Seq<u8>) -> Seq<u8>;

/// The `width` lowest base-256 digits of `n`, the lowest first.
pub open spec fn le_digits(n: nat, width: nat) -> Seq<u8>
    decreases width,
{
    if width == 0 {
        seq![]
    } else {
        seq![(n % 256) as u8] + le_digits(n / 256, (width - 1) as nat)
    }
}

/// A length as it stands in a frame: as many bytes as a `usize` has, the lowest
/// first.
pub open spec fn length_bytes(n: nat) -> Seq<u8> {
    le_digits(n, (usize::BITS / 8) as nat)
}

/// One offer framed: the length of the MIME type, the type, the length of the
/// data, the data.
pub open spec fn frame(offer: OfferView) -> Seq<u8> {
    let name = encode_utf8(offer.mime_type);
    length_bytes(name.len()) + name + length_bytes(offer.data.len()) + offer.data
}

/// The frames of all offers, one after the other.
pub open spec fn frames(offers: Seq<OfferView>) -> Seq<u8>
    decreases offers.len(),
{
    if offers.len() == 0 {
        seq![]
    } else {
        frame(offers[0]) + frames(offers.drop_first())
    }
}

/// What the digest of the content of `offers` is taken over.
pub open spec fn digest_input(offers: Seq<OfferView>) -> Seq<u8> {
    frames(normal_form(offers))
}

/// The digest that stands for the content of `offers`.
pub open spec fn content_digest(offers: Seq<OfferView>) -> Seq<u8> {
    blake3_digest(digest_input(offers))
}

/// The digest of a clipboard content.
#[derive(Clone, Copy, Debug)]
pub struct Fingerprint {
    pub bytes: [u8; 32],
}

impl PartialEq for Fingerprint {
    fn eq(&self, other: &Fingerprint) -> (same: bool) {
        let mut i: usize = 0;
        while i < 32
            invariant
                i <= 32,
                forall|j: int| 0 <= j < i ==> self.bytes@[j] == other.bytes@[j],
            decreases 32 - i,
        {
            if self.bytes[i] != other.bytes[i] {
                return false;
            }
            i += 1;
        }
        assert(self.bytes =~= other.bytes);
        true
    }
}

impl Eq for Fingerprint {

}

impl vstd::std_specs::cmp::PartialEqSpecImpl for Fingerprint {
    open spec fn obeys_eq_spec() -> bool {
        true
    }

    open spec fn eq_spec(&self, other: &Fingerprint) -> bool {
        *self == *other
    }
}

/// Two fingerprints with the same bytes are the same.
pub proof fn lemma_fingerprint_ext(left: Fingerprint, right: Fingerprint)
    requires
        left.bytes@ == right.bytes@,
    ensures
        left == right,
{
    assert forall|i: int| 0 <= i < 32 implies left.bytes[i] == right.bytes[i] by {
        assert(left.bytes@[i] == right.bytes@[i]);
    }
    assert(left.bytes =~= right.bytes);
}

/// Calls `blake3::hash`: the digest is a function of the input bytes alone,
/// here named [`blake3_digest`].
#[verifier::external_body]
fn blake3_hash(input: &[u8]) -> (digest: [u8; 32])
    ensures
        digest@ == blake3_digest(input@),
{
    blake3::hash(input).into()
}

/// The offers that a list of names and data stands for.
pub open spec fn target_views(targets: Seq<(&str, &[u8])>) -> Seq<OfferView> {
    Seq::new(
        targets.len(),
        |i: int| OfferView { mime_type: targets[i].0@, data: targets[i].1@ },
    )
}

/// Appends a length to a frame.
fn append_length(out: &mut Vec<u8>, length: usize)
    ensures
        final(out)@ == old(out)@ + length_bytes(length as nat),
{
    let ghost before = out@;
    let mut left: u32 = usize::BITS / 8;
    let mut n: usize = length;
    assert(out@ + le_digits(n as nat, left as nat) == before + length_bytes(length as nat));
    while left > 0
        invariant
            out@ + le_digits(n as nat, left as nat) == before + length_bytes(length as nat),
        decreases left,
    {
        let digit: u8 = (n % 256) as u8;
        let ghost rest = le_digits((n / 256) as nat, (left - 1) as nat);
        assert(le_digits(n as nat, left as nat) == seq![digit] + rest);
        assert(out@ + (seq![digit] + rest) =~= out@.push(digit) + rest);
        out.push(digit);
        n = n / 256;
        left -= 1;
    }
    assert(out@ + le_digits(n as nat, 0) =~= out@);
}

/// Appends bytes.
fn append_bytes(out: &mut Vec<u8>, bytes: &[u8])
    ensures
        final(out)@ == old(out)@ + bytes@,
{
    let ghost before = out@;
    out.extend_from_slice(bytes);
    assert(out@ =~= before + bytes@);
}

/// The fingerprint of the content that `targets` lists under different names,
/// in any order.
pub(crate) fn fingerprint(targets: Vec<(&str, &[u8])>) -> (fingerprint: Fingerprint)
    requires
        forall|i: int, j: int|
            #![trigger targets@[i], targets@[j]]
            0 <= i < j < targets@.len() ==> targets@[i].0@ != targets@[j].0@,
    ensures
        fingerprint.bytes@ == content_digest(target_views(targets@)),
{
    let ghost given = target_views(targets@);
    let mut ordered: Vec<(&str, &[u8])> = Vec::new();
    let mut k: usize = 0;
    while k < targets.len()
        invariant
            k <= targets@.len(),
            given == target_views(targets@),
            forall|i: int, j: int|
                #![trigger targets@[i], targets@[j]]
                0 <= i < j < targets@.len() ==> targets@[i].0@ != targets@[j].0@,
            names_ordered(ordered@),
            is_normal_form(given.take(k as int), target_views(ordered@)),
        decreases targets.len() - k,
    {
        let (name, data) = targets[k];
        let ghost seen = given.take(k as int);
        let ghost before = target_views(ordered@);
        let ghost offer = given[k as int];
        proof {
            lemma_lookup_none(seen, name@);
            assert forall|i: int| 0 <= i < seen.len() implies (#[trigger] seen[i]).mime_type
                != name@ by {
                assert(seen[i] == given[i]);
                assert(targets@[i].0@ != targets@[k as int].0@);
            }
            assert(lookup(before, name@) == lookup(seen, name@));
            lemma_lookup_none(before, name@);
            assert forall|i: int| 0 <= i < ordered@.len() implies (#[trigger] ordered@[i]).0@
                != name@ by {
                assert(before[i].mime_type != name@);
            }
        }
        let ghost unsorted = ordered@;
        let slot: usize = insert_named(&mut ordered, name, data);
        proof {
            assert forall|i: int| 0 <= i < slot implies name_precedes(
                (#[trigger] before[i]).mime_type,
                offer.mime_type,
            ) by {
                assert(unsorted[i].0@ == before[i].mime_type);
            }
            assert forall|i: int| slot <= i < before.len() implies name_precedes(
                offer.mime_type,
                (#[trigger] before[i]).mime_type,
            ) by {
                assert(unsorted[i].0@ == before[i].mime_type);
            }
            lemma_insert_ordered(before, slot as int, offer);
            let after = target_views(ordered@);
            assert(after =~= before.insert(slot as int, offer));
            let now = given.take(k + 1);
            assert(now.drop_last() =~= seen);
            assert forall|mime_type: Seq<char>| #[trigger]
                lookup(after, mime_type) == lookup(now, mime_type) by {
                assert(lookup(before, mime_type) == lookup(seen, mime_type));
            }
        }
        k += 1;
    }
    proof {
        assert(given.take(k as int) =~= given);
        lemma_normal_form(given);
    }
    let mut input: Vec<u8> = Vec::new();
    let ghost views = target_views(ordered@);
    let mut i: usize = 0;
    assert(views.skip(0) =~= views);
    assert(input@ + frames(views) =~= frames(views));
    while i < ordered.len()
        invariant
            i <= ordered@.len(),
            views == target_views(ordered@),
            input@ + frames(views.skip(i as int)) == frames(views),
        decreases ordered.len() - i,
    {
        let (name, data) = ordered[i];
        let ghost before = input@;
        let name_bytes: &[u8] = name.as_bytes();
        append_length(&mut input, name_bytes.len());
        append_bytes(&mut input, name_bytes);
        append_length(&mut input, data.len());
        append_bytes(&mut input, data);
        proof {
            let offer = views[i as int];
            let rest = frames(views.skip(i + 1));
            assert(views.skip(i as int)[0] == offer);
            assert(views.skip(i as int).drop_first() =~= views.skip(i + 1));
            assert(input@ =~= before + frame(offer));
            assert(input@ + rest =~= before + (frame(offer) + rest));
        }
        i += 1;
    }
    assert(frames(views.skip(i as int)) =~= seq![]);
    assert(input@ =~= frames(views));
    Fingerprint { bytes: blake3_hash(input.as_slice()) }
}

/// The number of values that `width` digits can hold.
spec fn capacity(width: nat) -> nat
    decreases width,
{
    if width == 0 {
        1
    } else {
        256 * capacity((width - 1) as nat)
    }
}

proof fn lemma_le_digits_len(n: nat, width: nat)
    ensures
        le_digits(n, width).len() == width,
    decreases width,
{
    if width > 0 {
        lemma_le_digits_len(n / 256, (width - 1) as nat);
    }
}

proof fn lemma_le_digits_injective(a: nat, b: nat, width: nat)
    requires
        a < capacity(width),
        b < capacity(width),
        le_digits(a, width) == le_digits(b, width),
    ensures
        a == b,
    decreases width,
{
    if width > 0 {
        let low = (width - 1) as nat;
        let left = le_digits(a, width);
        let right = le_digits(b, width);
        assert(left[0] == (a % 256) as u8);
        assert(right[0] == (b % 256) as u8);
        assert(left.drop_first() =~= le_digits(a / 256, low));
        assert(right.drop_first() =~= le_digits(b / 256, low));
        lemma_le_digits_injective(a / 256, b / 256, low);
    }
}

proof fn lemma_usize_capacity()
    ensures
        usize::MAX < capacity((usize::BITS / 8) as nat),
        usize::BITS / 8 > 0,
{
    assert(usize::BITS == 32 || usize::BITS == 64);
    reveal_with_fuel(capacity, 9);
}

/// Equal frames at the start of two byte sequences come from equal offers.
proof fn lemma_first_frame(
    left: OfferView,
    left_rest: Seq<u8>,
    right: OfferView,
    right_rest: Seq<u8>,
)
    requires
        encode_utf8(left.mime_type).len() <= usize::MAX,
        encode_utf8(right.mime_type).len() <= usize::MAX,
        left.data.len() <= usize::MAX,
        right.data.len() <= usize::MAX,
        frame(left) + left_rest == frame(right) + right_rest,
    ensures
        left == right,
        left_rest == right_rest,
{
    let width = (usize::BITS / 8) as nat;
    let all = frame(left) + left_rest;
    let l_name = encode_utf8(left.mime_type);
    let r_name = encode_utf8(right.mime_type);
    lemma_usize_capacity();
    lemma_le_digits_len(l_name.len(), width);
    lemma_le_digits_len(r_name.len(), width);
    lemma_le_digits_len(left.data.len(), width);
    lemma_le_digits_len(right.data.len(), width);
    assert(all.take(width as int) =~= length_bytes(l_name.len()));
    assert(all.take(width as int) =~= length_bytes(r_name.len()));
    lemma_le_digits_injective(l_name.len(), r_name.len(), width);
    let at = (width + l_name.len()) as int;
    assert(all.subrange(width as int, at) =~= l_name);
    assert(all.subrange(width as int, at) =~= r_name);
    lemma_name_bytes_injective(left.mime_type, right.mime_type);
    assert(all.subrange(at, at + width) =~= length_bytes(left.data.len()));
    assert(all.subrange(at, at + width) =~= length_bytes(right.data.len()));
    lemma_le_digits_injective(left.data.len(), right.data.len(), width);
    let end = at + width + left.data.len();
    assert(all.subrange(at + width, end) =~= left.data);
    assert(all.subrange(at + width, end) =~= right.data);
    assert(all.skip(end) =~= left_rest);
    assert(all.skip(end) =~= right_rest);
}

/// The framing takes in every MIME type and all data: lists of offers with the
/// same frames are equal. So different contents have different inputs to the
/// digest.
pub proof fn law_frames_injective(left: Seq<OfferView>, right: Seq<OfferView>)
    requires
        frames(left) == frames(right),
        forall|i: int|
            0 <= i < left.len() ==> encode_utf8((#[trigger] left[i]).mime_type).len() <= usize::MAX
                && left[i].data.len() <= usize::MAX,
        forall|i: int|
            0 <= i < right.len() ==> encode_utf8((#[trigger] right[i]).mime_type).len()
                <= usize::MAX && right[i].data.len() <= usize::MAX,
    ensures
        left == right,
    decreases left.len(),
{
    lemma_usize_capacity();
    let width = (usize::BITS / 8) as nat;
    if left.len() > 0 {
        lemma_le_digits_len(encode_utf8(left[0].mime_type).len(), width);
    }
    if right.len() > 0 {
        lemma_le_digits_len(encode_utf8(right[0].mime_type).len(), width);
    }
    if left.len() > 0 && right.len() > 0 {
        let l = left.drop_first();
        let r = right.drop_first();
        lemma_first_frame(left[0], frames(l), right[0], frames(r));
        assert forall|i: int| 0 <= i < l.len() implies encode_utf8(
            (#[trigger] l[i]).mime_type,
        ).len() <= usize::MAX && l[i].data.len() <= usize::MAX by {
            assert(l[i] == left[i + 1]);
        }
        assert forall|i: int| 0 <= i < r.len() implies encode_utf8(
            (#[trigger] r[i]).mime_type,
        ).len() <= usize::MAX && r[i].data.len() <= usize::MAX by {
            assert(r[i] == right[i + 1]);
        }
        law_frames_injective(l, r);
        assert(left =~= seq![left[0]] + l);
        assert(right =~= seq![right[0]] + r);
    } else {
        assert(left =~= right);
    }
}

/// The digest does not depend on the order in which offers of different MIME
/// types are listed.
pub proof fn law_digest_ignores_order(left: Seq<OfferView>, right: Seq<OfferView>)
    requires
        left.to_multiset() == right.to_multiset(),
        forall|i: int, j: int|
            #![trigger left[i], left[j]]
            0 <= i < j < left.len() ==> left[i].mime_type != left[j].mime_type,
    ensures
        content_digest(left) == content_digest(right),
{
    law_normal_form_ignores_order(left, right);
}

proof fn lemma_le_digits_value(n: nat, width: nat)
    requires
        n < capacity(width),
    ensures
        le_value(le_digits(n, width)) == n,
    decreases width,
{
    if width > 0 {
        let digits = le_digits(n, width);
        lemma_le_digits_value(n / 256, (width - 1) as nat);
        assert(digits[0] == (n % 256) as u8);
        assert(digits.drop_first() =~= le_digits(n / 256, (width - 1) as nat));
    }
}

/// A frame reads back: first the length of the MIME type as a `usize`, the
/// lowest byte first, then the type, then the length of the data in the same
/// way, then all of the data, and nothing behind it.
pub proof fn law_frame_reads_back(offer: OfferView)
    requires
        encode_utf8(offer.mime_type).len() <= usize::MAX,
        offer.data.len() <= usize::MAX,
    ensures
        ({
            let width = (usize::BITS / 8) as int;
            let bytes = frame(offer);
            let name_end = width + le_value(bytes.take(width));
            let data_start = name_end + width;
            &&& bytes.len() == data_start + le_value(bytes.subrange(name_end, data_start))
            &&& bytes.subrange(width, name_end) == encode_utf8(offer.mime_type)
            &&& bytes.skip(data_start) == offer.data
        }),
{
    let width = (usize::BITS / 8) as int;
    let bytes = frame(offer);
    let name = encode_utf8(offer.mime_type);
    lemma_usize_capacity();
    lemma_le_digits_len(name.len(), width as nat);
    lemma_le_digits_len(offer.data.len(), width as nat);
    lemma_le_digits_value(name.len(), width as nat);
    lemma_le_digits_value(offer.data.len(), width as nat);
    assert(bytes.take(width) =~= length_bytes(name.len()));
    let name_end = width + name.len();
    assert(bytes.subrange(width, name_end) =~= name);
    assert(bytes.subrange(name_end, name_end + width) =~= length_bytes(offer.data.len()));
    assert(bytes.skip(name_end + width) =~= offer.data);
}

/// Frames follow one another with nothing between them.
pub proof fn law_frames_in_turn(first: Seq<OfferView>, second: Seq<OfferView>, offer: OfferView)
    ensures
        frames(seq![offer]) == frame(offer),
        frames(first + second) == frames(first) + frames(second),
    decreases first.len(),
{
    assert(seq![offer].drop_first() =~= Seq::<OfferView>::empty());
    assert(frames(seq![offer].drop_first()) =~= seq![]);
    assert(frames(seq![offer]) =~= frame(offer));
    if first.len() == 0 {
        assert(first + second =~= second);
        assert(frames(first) + frames(second) =~= frames(second));
    } else {
        law_frames_in_turn(first.drop_first(), second, offer);
        assert((first + second).drop_first() =~= first.drop_first() + second);
        assert(frames(first + second) =~= frames(first) + frames(second));
    }
}

/// Unless BLAKE3 collides on them, two contents have the same digest exactly
/// when the same data is found in both under every MIME type.
pub proof fn law_digest_tells_contents_apart(left: Seq<OfferView>, right: Seq<OfferView>)
    requires
        blake3_digest(digest_input(left)) == blake3_digest(digest_input(right)) ==> digest_input(
            left,
        ) == digest_input(right),
        forall|i: int|
            0 <= i < left.len() ==> encode_utf8((#[trigger] left[i]).mime_type).len() <= usize::MAX
                && left[i].data.len() <= usize::MAX,
        forall|i: int|
            0 <= i < right.len() ==> encode_utf8((#[trigger] right[i]).mime_type).len()
                <= usize::MAX && right[i].data.len() <= usize::MAX,
    ensures
        content_digest(left) == content_digest(right) <==> forall|mime_type: Seq<char>| #[trigger]
            lookup(left, mime_type) == lookup(right, mime_type),
{
    let l = normal_form(left);
    let r = normal_form(right);
    lemma_normal_form(left);
    lemma_normal_form(right);
    lemma_normal_form_sizes(left);
    lemma_normal_form_sizes(right);
    if content_digest(left) == content_digest(right) {
        law_frames_injective(l, r);
        assert forall|mime_type: Seq<char>| #[trigger]
            lookup(left, mime_type) == lookup(right, mime_type) by {
            assert(lookup(l, mime_type) == lookup(left, mime_type));
            assert(lookup(r, mime_type) == lookup(right, mime_type));
        }
    }
    if forall|mime_type: Seq<char>| #[trigger]
        lookup(left, mime_type) == lookup(right, mime_type) {
        lemma_normal_form_same(left, right);
    }
}

proof fn lemma_normal_form_sizes(offers: Seq<OfferView>)
    requires
        forall|i: int|
            0 <= i < offers.len() ==> encode_utf8((#[trigger] offers[i]).mime_type).len()
                <= usize::MAX && offers[i].data.len() <= usize::MAX,
    ensures
        forall|i: int|
            0 <= i < normal_form(offers).len() ==> encode_utf8(
                (#[trigger] normal_form(offers)[i]).mime_type,
            ).len() <= usize::MAX && normal_form(offers)[i].data.len() <= usize::MAX,
{
    let normal = normal_form(offers);
    lemma_normal_form(offers);
    assert forall|i: int| 0 <= i < normal.len() implies encode_utf8(
        (#[trigger] normal[i]).mime_type,
    ).len() <= usize::MAX && normal[i].data.len() <= usize::MAX by {
        law_normal_form_keeps_first_offers(offers, normal, normal[i]);
        assert(normal.contains(normal[i]));
    }
}

} // verus!
