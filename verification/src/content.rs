//! The mathematical model of clipboard content: a list of offers, read as a
//! map from MIME type to data in which the first offer of a type counts.

use vstd::prelude::*;

use crate::text::{
    ascending, lemma_insert_ascending, lemma_name_irreflexive, lemma_name_total,
    lemma_name_transitive, name_precedes,
};

verus! {

/// One representation of the clipboard content.
#[verifier::ext_equal]
pub struct OfferView {
    pub mime_type: Seq<char>,
    pub data: Seq<u8>,
}

/// The data offered as `mime_type`: that of the first offer of this type.
pub open spec fn lookup(offers: Seq<OfferView>, mime_type: Seq<char>) -> Option<Seq<u8>>
    decreases offers.len(),
{
    if offers.len() == 0 {
        None
    } else {
        match lookup(offers.drop_last(), mime_type) {
            Some(data) => Some(data),
            None => if offers.last().mime_type == mime_type {
                Some(offers.last().data)
            } else {
                None
            },
        }
    }
}

/// Whether the offers stand in strictly ascending order of their MIME types,
/// so that no type occurs twice.
pub open spec fn strictly_ordered(offers: Seq<OfferView>) -> bool {
    forall|i: int, j: int|
        #![trigger offers[i], offers[j]]
        0 <= i < j < offers.len() ==> name_precedes(offers[i].mime_type, offers[j].mime_type)
}

/// The MIME types of offers.
pub open spec fn types_of(offers: Seq<OfferView>) -> Seq<Seq<char>> {
    Seq::new(offers.len(), |i: int| offers[i].mime_type)
}

/// Offers are strictly ordered exactly when their MIME types ascend.
pub proof fn lemma_ordered_types(offers: Seq<OfferView>)
    ensures
        strictly_ordered(offers) <==> ascending(types_of(offers)),
{
    let types = types_of(offers);
    if ascending(types) {
        assert forall|i: int, j: int|
            #![trigger offers[i], offers[j]]
            0 <= i < j < offers.len() implies name_precedes(
            offers[i].mime_type,
            offers[j].mime_type,
        ) by {
            assert(name_precedes(types[i], types[j]));
        }
    }
}

/// Whether `normal` is the normal form of `offers`: strictly ordered, with the
/// same data under every MIME type.
pub open spec fn is_normal_form(offers: Seq<OfferView>, normal: Seq<OfferView>) -> bool {
    &&& strictly_ordered(normal)
    &&& forall|mime_type: Seq<char>| #[trigger]
        lookup(normal, mime_type) == lookup(offers, mime_type)
}

/// The normal form of `offers`. It exists and there is only one, as
/// [`lemma_normal_form`] shows.
pub open spec fn normal_form(offers: Seq<OfferView>) -> Seq<OfferView> {
    choose|normal: Seq<OfferView>| is_normal_form(offers, normal)
}

/// The number of data bytes in `offers`.
pub open spec fn total_len(offers: Seq<OfferView>) -> nat
    decreases offers.len(),
{
    if offers.len() == 0 {
        0
    } else {
        total_len(offers.drop_last()) + offers.last().data.len()
    }
}

/// The first of `names` under which `offers` holds something.
pub open spec fn first_offered(offers: Seq<OfferView>, names: Seq<Seq<char>>) -> Option<Seq<char>>
    decreases names.len(),
{
    if names.len() == 0 {
        None
    } else if lookup(offers, names[0]) is Some {
        Some(names[0])
    } else {
        first_offered(offers, names.drop_first())
    }
}

/// Nothing is found under `mime_type` exactly when no offer has that type.
pub proof fn lemma_lookup_none(offers: Seq<OfferView>, mime_type: Seq<char>)
    ensures
        lookup(offers, mime_type) is None <==> forall|i: int|
            0 <= i < offers.len() ==> (#[trigger] offers[i]).mime_type != mime_type,
    decreases offers.len(),
{
    if offers.len() > 0 {
        let rest = offers.drop_last();
        lemma_lookup_none(rest, mime_type);
        if lookup(offers, mime_type) is None {
            assert forall|i: int| 0 <= i < offers.len() implies (
            #[trigger] offers[i]).mime_type != mime_type by {
                if i < rest.len() {
                    assert(rest[i] == offers[i]);
                }
            }
        } else if lookup(rest, mime_type) is Some {
            let i: int = choose|i: int|
                0 <= i < rest.len() && (#[trigger] rest[i]).mime_type == mime_type;
            assert(offers[i].mime_type == mime_type);
        }
    }
}

/// The first offer of its type is what is found under that type.
pub proof fn lemma_lookup_first(offers: Seq<OfferView>, index: int)
    requires
        0 <= index < offers.len(),
        forall|j: int|
            0 <= j < index ==> (#[trigger] offers[j]).mime_type != offers[index].mime_type,
    ensures
        lookup(offers, offers[index].mime_type) == Some(offers[index].data),
    decreases offers.len(),
{
    let rest = offers.drop_last();
    let mime_type = offers[index].mime_type;
    if index < rest.len() {
        assert(rest[index] == offers[index]);
        assert forall|j: int| 0 <= j < index implies (#[trigger] rest[j]).mime_type
            != rest[index].mime_type by {
            assert(rest[j] == offers[j]);
        }
        lemma_lookup_first(rest, index);
    } else {
        lemma_lookup_none(rest, mime_type);
        assert forall|i: int| 0 <= i < rest.len() implies (#[trigger] rest[i]).mime_type
            != mime_type by {
            assert(rest[i] == offers[i]);
        }
    }
}

/// What is found under a type is the data of an offer of that type.
pub proof fn lemma_lookup_some(offers: Seq<OfferView>, mime_type: Seq<char>) -> (index: int)
    requires
        lookup(offers, mime_type) is Some,
    ensures
        0 <= index < offers.len(),
        offers[index].mime_type == mime_type,
        lookup(offers, mime_type) == Some(offers[index].data),
        forall|j: int| 0 <= j < index ==> (#[trigger] offers[j]).mime_type != mime_type,
    decreases offers.len(),
{
    let rest = offers.drop_last();
    if lookup(rest, mime_type) is Some {
        let index: int = lemma_lookup_some(rest, mime_type);
        assert(rest[index] == offers[index]);
        assert forall|j: int| 0 <= j < index implies (#[trigger] offers[j]).mime_type
            != mime_type by {
            assert(rest[j] == offers[j]);
        }
        index
    } else {
        lemma_lookup_none(rest, mime_type);
        assert forall|j: int| 0 <= j < rest.len() implies (#[trigger] offers[j]).mime_type
            != mime_type by {
            assert(rest[j] == offers[j]);
        }
        offers.len() - 1
    }
}

/// In strictly ordered offers each offer is what is found under its type.
pub proof fn lemma_lookup_ordered(offers: Seq<OfferView>, index: int)
    requires
        strictly_ordered(offers),
        0 <= index < offers.len(),
    ensures
        lookup(offers, offers[index].mime_type) == Some(offers[index].data),
{
    assert forall|j: int| 0 <= j < index implies (#[trigger] offers[j]).mime_type
        != offers[index].mime_type by {
        lemma_name_irreflexive(offers[j].mime_type);
    }
    lemma_lookup_first(offers, index);
}

/// In strictly ordered offers a type stands at one place only.
pub proof fn lemma_ordered_distinct(offers: Seq<OfferView>, i: int, j: int)
    requires
        strictly_ordered(offers),
        0 <= i < offers.len(),
        0 <= j < offers.len(),
        offers[i].mime_type == offers[j].mime_type,
    ensures
        i == j,
{
    lemma_name_irreflexive(offers[i].mime_type);
}

/// Looking up in a concatenation tries the first part, then the second.
pub proof fn lemma_lookup_concat(
    first: Seq<OfferView>,
    second: Seq<OfferView>,
    mime_type: Seq<char>,
)
    ensures
        lookup(first + second, mime_type) == match lookup(first, mime_type) {
            Some(data) => Some(data),
            None => lookup(second, mime_type),
        },
    decreases second.len(),
{
    if second.len() == 0 {
        assert(first + second =~= first);
    } else {
        assert((first + second).drop_last() =~= first + second.drop_last());
        lemma_lookup_concat(first, second.drop_last(), mime_type);
    }
}

/// Inserting an offer of a new type at its place keeps the order and adds the
/// offer to what can be found.
pub proof fn lemma_insert_ordered(offers: Seq<OfferView>, slot: int, offer: OfferView)
    requires
        strictly_ordered(offers),
        0 <= slot <= offers.len(),
        forall|i: int|
            0 <= i < slot ==> name_precedes((#[trigger] offers[i]).mime_type, offer.mime_type),
        forall|i: int|
            slot <= i < offers.len() ==> name_precedes(
                offer.mime_type,
                (#[trigger] offers[i]).mime_type,
            ),
    ensures
        strictly_ordered(offers.insert(slot, offer)),
        forall|mime_type: Seq<char>| #[trigger]
            lookup(offers.insert(slot, offer), mime_type) == if mime_type == offer.mime_type {
                Some(offer.data)
            } else {
                lookup(offers, mime_type)
            },
{
    let grown = offers.insert(slot, offer);
    lemma_ordered_types(offers);
    lemma_insert_ascending(types_of(offers), slot, offer.mime_type);
    assert(types_of(grown) =~= types_of(offers).insert(slot, offer.mime_type));
    lemma_ordered_types(grown);
    assert forall|mime_type: Seq<char>| #[trigger]
        lookup(grown, mime_type) == if mime_type == offer.mime_type {
            Some(offer.data)
        } else {
            lookup(offers, mime_type)
        } by {
        if mime_type == offer.mime_type {
            assert(grown[slot] == offer);
            lemma_lookup_ordered(grown, slot);
        } else if lookup(offers, mime_type) is Some {
            let i: int = lemma_lookup_some(offers, mime_type);
            let to_i = if i < slot { i } else { i + 1 };
            assert(grown[to_i] == offers[i]);
            lemma_lookup_ordered(grown, to_i);
        } else {
            lemma_lookup_none(offers, mime_type);
            lemma_lookup_none(grown, mime_type);
            assert forall|i: int| 0 <= i < grown.len() implies (
            #[trigger] grown[i]).mime_type != mime_type by {
                if i != slot {
                    let from_i = if i < slot { i } else { i - 1 };
                    assert(grown[i] == offers[from_i]);
                }
            }
        }
    }
}

/// The place of a type that strictly ordered offers do not hold.
proof fn lemma_slot_exists(offers: Seq<OfferView>, mime_type: Seq<char>) -> (slot: int)
    requires
        strictly_ordered(offers),
        lookup(offers, mime_type) is None,
    ensures
        0 <= slot <= offers.len(),
        forall|i: int| 0 <= i < slot ==> name_precedes((#[trigger] offers[i]).mime_type, mime_type),
        forall|i: int|
            slot <= i < offers.len() ==> name_precedes(mime_type, (#[trigger] offers[i]).mime_type),
    decreases offers.len(),
{
    lemma_lookup_none(offers, mime_type);
    if offers.len() == 0 {
        0
    } else {
        let last = offers.len() - 1;
        lemma_name_total(offers[last].mime_type, mime_type);
        if name_precedes(offers[last].mime_type, mime_type) {
            assert forall|i: int| 0 <= i < offers.len() implies name_precedes(
                (#[trigger] offers[i]).mime_type,
                mime_type,
            ) by {
                if i < last {
                    lemma_name_transitive(offers[i].mime_type, offers[last].mime_type, mime_type);
                }
            }
            offers.len() as int
        } else {
            let rest = offers.drop_last();
            assert(strictly_ordered(rest)) by {
                assert forall|i: int, j: int|
                    #![trigger rest[i], rest[j]]
                    0 <= i < j < rest.len() implies name_precedes(
                    rest[i].mime_type,
                    rest[j].mime_type,
                ) by {
                    assert(rest[i] == offers[i]);
                    assert(rest[j] == offers[j]);
                }
            }
            let slot: int = lemma_slot_exists(rest, mime_type);
            assert forall|i: int| 0 <= i < slot implies name_precedes(
                (#[trigger] offers[i]).mime_type,
                mime_type,
            ) by {
                assert(rest[i] == offers[i]);
            }
            assert forall|i: int| slot <= i < offers.len() implies name_precedes(
                mime_type,
                (#[trigger] offers[i]).mime_type,
            ) by {
                if i < last {
                    assert(rest[i] == offers[i]);
                }
            }
            slot
        }
    }
}

/// Every list of offers has a normal form.
proof fn lemma_normal_form_exists(offers: Seq<OfferView>) -> (normal: Seq<OfferView>)
    ensures
        is_normal_form(offers, normal),
    decreases offers.len(),
{
    if offers.len() == 0 {
        offers
    } else {
        let rest = lemma_normal_form_exists(offers.drop_last());
        let offer = offers.last();
        if lookup(rest, offer.mime_type) is Some {
            assert forall|mime_type: Seq<char>| #[trigger]
                lookup(rest, mime_type) == lookup(offers, mime_type) by {
                assert(lookup(rest, mime_type) == lookup(offers.drop_last(), mime_type));
                assert(lookup(rest, offer.mime_type) == lookup(
                    offers.drop_last(),
                    offer.mime_type,
                ));
            }
            rest
        } else {
            let slot: int = lemma_slot_exists(rest, offer.mime_type);
            lemma_insert_ordered(rest, slot, offer);
            let normal = rest.insert(slot, offer);
            assert forall|mime_type: Seq<char>| #[trigger]
                lookup(normal, mime_type) == lookup(offers, mime_type) by {
                assert(lookup(rest, mime_type) == lookup(offers.drop_last(), mime_type));
            }
            normal
        }
    }
}

/// Two strictly ordered lists of offers with the same data under every MIME
/// type are equal.
pub proof fn lemma_ordered_unique(left: Seq<OfferView>, right: Seq<OfferView>)
    requires
        strictly_ordered(left),
        strictly_ordered(right),
        forall|mime_type: Seq<char>| #[trigger]
            lookup(left, mime_type) == lookup(right, mime_type),
    ensures
        left == right,
    decreases left.len() + right.len(),
{
    if left.len() == 0 {
        if right.len() > 0 {
            lemma_lookup_ordered(right, 0);
            assert(lookup(left, right[0].mime_type) is None);
        }
        assert(left =~= right);
    } else if right.len() == 0 {
        lemma_lookup_ordered(left, 0);
        assert(lookup(right, left[0].mime_type) is None);
    } else {
        let l = left.last();
        let r = right.last();
        lemma_lookup_ordered(left, left.len() - 1);
        lemma_lookup_ordered(right, right.len() - 1);
        // The last offer of each list stands in the other one, hence nowhere
        // but at its end.
        let in_right: int = lemma_lookup_some(right, l.mime_type);
        let in_left: int = lemma_lookup_some(left, r.mime_type);
        if l.mime_type != r.mime_type {
            assert(in_right < right.len() - 1);
            assert(name_precedes(right[in_right].mime_type, right[right.len() - 1].mime_type));
            assert(in_left < left.len() - 1);
            assert(name_precedes(left[in_left].mime_type, left[left.len() - 1].mime_type));
            lemma_name_transitive(l.mime_type, r.mime_type, l.mime_type);
            lemma_name_irreflexive(l.mime_type);
        }
        assert(l =~= r);
        let left_rest = left.drop_last();
        let right_rest = right.drop_last();
        assert forall|mime_type: Seq<char>| #[trigger]
            lookup(left_rest, mime_type) == lookup(right_rest, mime_type) by {
            assert(lookup(left, mime_type) == lookup(right, mime_type));
            if mime_type == l.mime_type {
                lemma_last_type_absent(left);
                lemma_last_type_absent(right);
            }
        }
        lemma_prefix_ordered(left);
        lemma_prefix_ordered(right);
        lemma_ordered_unique(left_rest, right_rest);
        assert(left =~= left_rest.push(l));
        assert(right =~= right_rest.push(r));
    }
}

proof fn lemma_last_type_absent(offers: Seq<OfferView>)
    requires
        strictly_ordered(offers),
        offers.len() > 0,
    ensures
        lookup(offers.drop_last(), offers.last().mime_type) is None,
{
    let rest = offers.drop_last();
    lemma_lookup_none(rest, offers.last().mime_type);
    assert forall|i: int| 0 <= i < rest.len() implies (#[trigger] rest[i]).mime_type
        != offers.last().mime_type by {
        assert(rest[i] == offers[i]);
        assert(offers.last() == offers[offers.len() - 1]);
        lemma_name_irreflexive(offers[i].mime_type);
    }
}

proof fn lemma_prefix_ordered(offers: Seq<OfferView>)
    requires
        strictly_ordered(offers),
        offers.len() > 0,
    ensures
        strictly_ordered(offers.drop_last()),
{
    let rest = offers.drop_last();
    assert forall|i: int, j: int|
        #![trigger rest[i], rest[j]]
        0 <= i < j < rest.len() implies name_precedes(rest[i].mime_type, rest[j].mime_type) by {
        assert(rest[i] == offers[i]);
        assert(rest[j] == offers[j]);
    }
}

/// The normal form of any offers exists, and whatever satisfies its definition
/// is equal to it.
pub proof fn lemma_normal_form(offers: Seq<OfferView>)
    ensures
        is_normal_form(offers, normal_form(offers)),
        forall|normal: Seq<OfferView>|
            #![trigger is_normal_form(offers, normal)]
            is_normal_form(offers, normal) ==> normal == normal_form(offers),
{
    let witness = lemma_normal_form_exists(offers);
    assert(is_normal_form(offers, witness));
    let chosen = normal_form(offers);
    assert forall|normal: Seq<OfferView>|
        #![trigger is_normal_form(offers, normal)]
        is_normal_form(offers, normal) implies normal == chosen by {
        assert forall|mime_type: Seq<char>| #[trigger]
            lookup(normal, mime_type) == lookup(chosen, mime_type) by {
            assert(lookup(normal, mime_type) == lookup(offers, mime_type));
            assert(lookup(chosen, mime_type) == lookup(offers, mime_type));
        }
        lemma_ordered_unique(normal, chosen);
    }
}

/// Offers with the same data under every MIME type have the same normal form.
pub proof fn lemma_normal_form_same(left: Seq<OfferView>, right: Seq<OfferView>)
    requires
        forall|mime_type: Seq<char>| #[trigger]
            lookup(left, mime_type) == lookup(right, mime_type),
    ensures
        normal_form(left) == normal_form(right),
{
    lemma_normal_form(left);
    lemma_normal_form(right);
    let normal = normal_form(left);
    assert forall|mime_type: Seq<char>| #[trigger]
        lookup(normal, mime_type) == lookup(right, mime_type) by {
        assert(lookup(normal, mime_type) == lookup(left, mime_type));
        assert(lookup(left, mime_type) == lookup(right, mime_type));
    }
    assert(is_normal_form(right, normal));
}

/// Strictly ordered offers are their own normal form.
pub proof fn lemma_normal_form_ordered(offers: Seq<OfferView>)
    requires
        strictly_ordered(offers),
    ensures
        normal_form(offers) == offers,
{
    lemma_normal_form(offers);
    assert(is_normal_form(offers, offers));
}

/// Inserting an offer adds its data to the total.
proof fn lemma_total_len_insert(offers: Seq<OfferView>, slot: int, offer: OfferView)
    requires
        0 <= slot <= offers.len(),
    ensures
        total_len(offers.insert(slot, offer)) == total_len(offers) + offer.data.len(),
    decreases offers.len() - slot,
{
    let grown = offers.insert(slot, offer);
    if slot == offers.len() {
        assert(grown.drop_last() =~= offers);
    } else {
        let rest = offers.drop_last();
        lemma_total_len_insert(rest, slot, offer);
        assert(grown.drop_last() =~= rest.insert(slot, offer));
        assert(grown.last() == offers.last());
    }
}

/// A normal form holds no more data than the offers it comes from.
pub proof fn lemma_normal_form_total(offers: Seq<OfferView>)
    ensures
        total_len(normal_form(offers)) <= total_len(offers),
    decreases offers.len(),
{
    lemma_normal_form(offers);
    if offers.len() == 0 {
        lemma_normal_form_ordered(offers);
    } else {
        let earlier = offers.drop_last();
        let offer = offers.last();
        let rest = normal_form(earlier);
        lemma_normal_form(earlier);
        lemma_normal_form_total(earlier);
        if lookup(rest, offer.mime_type) is Some {
            assert forall|mime_type: Seq<char>| #[trigger]
                lookup(earlier, mime_type) == lookup(offers, mime_type) by {
                assert(lookup(rest, mime_type) == lookup(earlier, mime_type));
                assert(lookup(rest, offer.mime_type) == lookup(earlier, offer.mime_type));
            }
            lemma_normal_form_same(earlier, offers);
        } else {
            let slot: int = lemma_slot_exists(rest, offer.mime_type);
            lemma_insert_ordered(rest, slot, offer);
            lemma_total_len_insert(rest, slot, offer);
            let normal = rest.insert(slot, offer);
            assert forall|mime_type: Seq<char>| #[trigger]
                lookup(normal, mime_type) == lookup(offers, mime_type) by {
                assert(lookup(rest, mime_type) == lookup(earlier, mime_type));
            }
            assert(is_normal_form(offers, normal));
        }
    }
}

/// The order of offers of different MIME types does not matter: a permutation
/// of them has the same normal form.
pub proof fn law_normal_form_ignores_order(left: Seq<OfferView>, right: Seq<OfferView>)
    requires
        left.to_multiset() == right.to_multiset(),
        forall|i: int, j: int|
            #![trigger left[i], left[j]]
            0 <= i < j < left.len() ==> left[i].mime_type != left[j].mime_type,
    ensures
        normal_form(left) == normal_form(right),
{
    broadcast use vstd::seq_lib::group_to_multiset_ensures;

    assert(left.no_duplicates());
    assert forall|mime_type: Seq<char>| #[trigger]
        lookup(left, mime_type) == lookup(right, mime_type) by {
        lemma_lookup_none(left, mime_type);
        lemma_lookup_none(right, mime_type);
        if lookup(right, mime_type) is Some {
            let i: int = lemma_lookup_some(right, mime_type);
            assert(right.to_multiset().contains(right[i]));
            assert(left.contains(right[i]));
            let j: int = left.index_of(right[i]);
            lemma_lookup_first(left, j);
        }
        if lookup(left, mime_type) is Some {
            let i: int = lemma_lookup_some(left, mime_type);
            assert(left.to_multiset().contains(left[i]));
            assert(right.contains(left[i]));
            let j: int = right.index_of(left[i]);
            assert(right[j].mime_type == mime_type);
        }
    }
    lemma_normal_form_same(left, right);
}

/// What is found under a MIME type is the data of the first offer of that type.
pub proof fn law_lookup_finds_first(offers: Seq<OfferView>, mime_type: Seq<char>, data: Seq<u8>)
    ensures
        lookup(offers, mime_type) == Some(data) <==> exists|i: int|
            #![trigger offers[i]]
            0 <= i < offers.len() && offers[i] == (OfferView { mime_type, data }) && forall|j: int|
                0 <= j < i ==> (#[trigger] offers[j]).mime_type != mime_type,
{
    if lookup(offers, mime_type) == Some(data) {
        let i: int = lemma_lookup_some(offers, mime_type);
        assert(offers[i] =~= OfferView { mime_type, data });
    }
    if exists|i: int|
        #![trigger offers[i]]
        0 <= i < offers.len() && offers[i] == (OfferView { mime_type, data }) && forall|j: int|
            0 <= j < i ==> (#[trigger] offers[j]).mime_type != mime_type {
        let i: int = choose|i: int|
            #![trigger offers[i]]
            0 <= i < offers.len() && offers[i] == (OfferView { mime_type, data }) && forall|j: int|
                0 <= j < i ==> (#[trigger] offers[j]).mime_type != mime_type;
        lemma_lookup_first(offers, i);
    }
}

/// A normal form holds exactly the first offer of each MIME type, whole and
/// unchanged, in ascending order of the types.
pub proof fn law_normal_form_keeps_first_offers(
    offers: Seq<OfferView>,
    normal: Seq<OfferView>,
    offer: OfferView,
)
    requires
        is_normal_form(offers, normal),
    ensures
        normal.contains(offer) <==> exists|i: int|
            #![trigger offers[i]]
            0 <= i < offers.len() && offers[i] == offer && forall|j: int|
                0 <= j < i ==> (#[trigger] offers[j]).mime_type != offer.mime_type,
        forall|i: int, j: int|
            #![trigger normal[i], normal[j]]
            0 <= i < j < normal.len() ==> name_precedes(normal[i].mime_type, normal[j].mime_type),
{
    law_lookup_finds_first(offers, offer.mime_type, offer.data);
    assert(lookup(normal, offer.mime_type) == lookup(offers, offer.mime_type));
    if normal.contains(offer) {
        let i: int = choose|i: int| 0 <= i < normal.len() && normal[i] == offer;
        lemma_lookup_ordered(normal, i);
    }
    if lookup(normal, offer.mime_type) == Some(offer.data) {
        let i: int = lemma_lookup_some(normal, offer.mime_type);
        assert(normal[i] =~= offer);
    }
}

/// The size of offers is the sum of the sizes of their data.
pub proof fn law_total_is_a_sum(first: Seq<OfferView>, second: Seq<OfferView>, offer: OfferView)
    ensures
        total_len(seq![offer]) == offer.data.len(),
        total_len(first + second) == total_len(first) + total_len(second),
    decreases second.len(),
{
    assert(seq![offer].drop_last() =~= Seq::<OfferView>::empty());
    assert(total_len(seq![offer].drop_last()) == 0);
    if second.len() == 0 {
        assert(first + second =~= first);
    } else {
        assert((first + second).drop_last() =~= first + second.drop_last());
        law_total_is_a_sum(first, second.drop_last(), offer);
    }
}

} // verus!
