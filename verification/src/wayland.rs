//! The Wayland side of the bridge: how a snapshot is published.

use vstd::prelude::*;

use crate::content::{
    lemma_lookup_concat, lemma_lookup_none, lemma_lookup_ordered, lemma_lookup_some, lookup,
    strictly_ordered, OfferView,
};
use crate::snapshot::{
    law_preferred_text, offer_views, preferred_text_type, text_aliases, with_text_aliases, Offer,
    Snapshot,
};
use crate::text::name_precedes;

verus! {

/// What to publish as one Wayland data source.
pub struct Publication {
    /// The offers. Plain text comes first where there is any, so that it is
    /// this text that is offered under further plain text types.
    pub sources: Vec<Offer>,
    /// Whether nothing is to be offered under further plain text types.
    pub omit_additional_text_mime_types: bool,
}

/// The offers with the one at `index` moved to the front.
pub open spec fn moved_to_front(offers: Seq<OfferView>, index: int) -> Seq<OfferView> {
    seq![offers[index]] + offers.remove(index)
}

/// Whether a content is published as `sources`: as it is, or, where there is
/// plain text in it, with the preferred text at the front and offered under
/// further plain text types.
pub open spec fn publishes(
    content: Seq<OfferView>,
    sources: Seq<OfferView>,
    omit_additional: bool,
) -> bool {
    match preferred_text_type(content) {
        Some(text_type) => {
            &&& !omit_additional
            &&& exists|index: int|
                0 <= index < content.len() && (#[trigger] content[index]).mime_type == text_type
                    && sources == moved_to_front(content, index)
        },
        None => omit_additional && sources == content,
    }
}

/// Prepares a snapshot for publishing on Wayland.
pub fn publish(snapshot: Snapshot) -> (publication: Publication)
    ensures
        publishes(
            snapshot@,
            offer_views(publication.sources@),
            publication.omit_additional_text_mime_types,
        ),
        snapshot.well_formed(),
{
    let preferred_text: Option<usize> = snapshot.preferred_text_index();
    let ghost content = snapshot@;
    let mut offers: Vec<Offer> = snapshot.into_offers();
    match preferred_text {
        Some(index) => {
            let ghost before = offers@;
            assert(offer_views(before)[index as int].mime_type == content[index as int].mime_type);
            let offer: Offer = offers.remove(index);
            offers.insert(0, offer);
            proof {
                assert(offer_views(offers@) =~= moved_to_front(content, index as int));
                assert(content[index as int].mime_type == preferred_text_type(content)->0);
            }
            Publication { sources: offers, omit_additional_text_mime_types: false }
        },
        None => Publication { sources: offers, omit_additional_text_mime_types: true },
    }
}

/// What a data source offers that `wl_clipboard_rs` makes of `sources`: these,
/// and, unless they are omitted, the plain text types with the data of the first
/// source, which is plain text.
pub open spec fn offered(sources: Seq<OfferView>, omit_additional: bool) -> Seq<OfferView> {
    if omit_additional {
        sources
    } else {
        sources + text_aliases(sources[0].data)
    }
}

/// Moving an offer to the front changes nothing that can be found.
proof fn lemma_moved_to_front(offers: Seq<OfferView>, index: int, mime_type: Seq<char>)
    requires
        strictly_ordered(offers),
        0 <= index < offers.len(),
    ensures
        lookup(moved_to_front(offers, index), mime_type) == lookup(offers, mime_type),
{
    let moved = moved_to_front(offers, index);
    lemma_lookup_none(moved, mime_type);
    lemma_lookup_none(offers, mime_type);
    if lookup(moved, mime_type) is Some {
        let i: int = lemma_lookup_some(moved, mime_type);
        let from: int = if i == 0 {
            index
        } else if i <= index {
            i - 1
        } else {
            i
        };
        assert(moved[i] == offers[from]);
        lemma_lookup_ordered(offers, from);
    } else if lookup(offers, mime_type) is Some {
        let i: int = lemma_lookup_some(offers, mime_type);
        let to: int = if i == index {
            0
        } else if i < index {
            i + 1
        } else {
            i
        };
        assert(moved[to] == offers[i]);
    }
}

/// What a published snapshot offers on Wayland is what
/// [`with_text_aliases`] says: every offer of the snapshot, and its preferred
/// text under every plain text type that has no offer of its own.
pub proof fn law_publication_offers_aliases(
    content: Seq<OfferView>,
    sources: Seq<OfferView>,
    omit_additional: bool,
    mime_type: Seq<char>,
)
    requires
        strictly_ordered(content),
        publishes(content, sources, omit_additional),
    ensures
        lookup(offered(sources, omit_additional), mime_type) == lookup(
            with_text_aliases(content),
            mime_type,
        ),
{
    if let Some(text_type) = preferred_text_type(content) {
        let index: int = choose|index: int|
            0 <= index < content.len() && (#[trigger] content[index]).mime_type == text_type
                && sources == moved_to_front(content, index);
        let text = content[index].data;
        lemma_lookup_ordered(content, index);
        assert(sources[0].data == text);
        lemma_moved_to_front(content, index, mime_type);
        lemma_lookup_concat(sources, text_aliases(text), mime_type);
        lemma_lookup_concat(content, text_aliases(text), mime_type);
    }
}

/// A publication holds every offer of the content, each of them once and as it
/// is. Where there is plain text, the preferred text stands first and the others
/// follow in their order, and further plain text types are offered; where there
/// is none, the offers stand in their order and no further type is offered.
pub proof fn law_publication_holds_the_content(
    content: Seq<OfferView>,
    sources: Seq<OfferView>,
    omit_additional: bool,
)
    requires
        strictly_ordered(content),
        publishes(content, sources, omit_additional),
    ensures
        sources.to_multiset() == content.to_multiset(),
        ({
            let types = seq![
                "text/plain;charset=utf-8"@,
                "UTF8_STRING"@,
                "text/plain"@,
                "TEXT"@,
                "STRING"@,
            ];
            let text = exists|k: int|
                0 <= k < 5 && lookup(content, #[trigger] types[k]) is Some;
            &&& (omit_additional <==> !text)
            &&& !text ==> sources == content
            &&& text ==> strictly_ordered(sources.drop_first())
            &&& forall|k: int|
                #![trigger types[k]]
                0 <= k < 5 && lookup(content, types[k]) is Some && (forall|j: int|
                    0 <= j < k ==> lookup(content, #[trigger] types[j]) is None) ==> {
                    &&& sources.len() > 0
                    &&& sources[0].mime_type == types[k]
                    &&& lookup(content, types[k]) == Some(sources[0].data)
                }
        }),
{
    broadcast use vstd::seq_lib::group_to_multiset_ensures;

    let types = seq![
        "text/plain;charset=utf-8"@,
        "UTF8_STRING"@,
        "text/plain"@,
        "TEXT"@,
        "STRING"@,
    ];
    law_preferred_text(content);
    if let Some(text_type) = preferred_text_type(content) {
        let index: int = choose|index: int|
            0 <= index < content.len() && (#[trigger] content[index]).mime_type == text_type
                && sources == moved_to_front(content, index);
        let rest = content.remove(index);
        lemma_lookup_ordered(content, index);
        assert(sources =~= seq![content[index]] + rest);
        assert(sources.drop_first() =~= rest);
        assert(strictly_ordered(rest)) by {
            assert forall|i: int, j: int|
                #![trigger rest[i], rest[j]]
                0 <= i < j < rest.len() implies name_precedes(
                rest[i].mime_type,
                rest[j].mime_type,
            ) by {
                let from_i = if i < index { i } else { i + 1 };
                let from_j = if j < index { j } else { j + 1 };
                assert(rest[i] == content[from_i]);
                assert(rest[j] == content[from_j]);
            }
        }
        lemma_removed_multiset(content, index);
        let chosen: int = choose|k: int|
            #![trigger types[k]]
            0 <= k < 5 && types[k] == text_type && lookup(content, types[k]) is Some && forall|
                j: int,
            |
                0 <= j < k ==> lookup(content, #[trigger] types[j]) is None;
        assert forall|k: int|
            #![trigger types[k]]
            0 <= k < 5 && lookup(content, types[k]) is Some && (forall|j: int|
                0 <= j < k ==> lookup(content, #[trigger] types[j]) is None) implies {
            &&& sources.len() > 0
            &&& sources[0].mime_type == types[k]
            &&& lookup(content, types[k]) == Some(sources[0].data)
        } by {
            assert(lookup(content, types[chosen]) is Some);
            assert(k == chosen);
        }
    }
}

/// Taking an offer out and putting it in front keeps the offers.
proof fn lemma_removed_multiset(offers: Seq<OfferView>, index: int)
    requires
        0 <= index < offers.len(),
    ensures
        (seq![offers[index]] + offers.remove(index)).to_multiset() == offers.to_multiset(),
{
    broadcast use vstd::seq_lib::group_to_multiset_ensures;

    let rest = offers.remove(index);
    assert(seq![offers[index]] + rest =~= rest.insert(0, offers[index]));
    vstd::seq_lib::to_multiset_remove(offers, index);
    vstd::seq_lib::to_multiset_insert(rest, 0, offers[index]);
    assert(rest.insert(0, offers[index]).to_multiset() =~= offers.to_multiset());
}

} // verus!
