//! Clipboard snapshots: every representation of one clipboard content.

use vstd::prelude::*;

use crate::content::{
    first_offered, is_normal_form, lemma_insert_ordered, lemma_lookup_concat, lemma_lookup_none,
    lemma_lookup_ordered, lemma_lookup_some, lemma_normal_form_same, lemma_ordered_distinct,
    lookup, strictly_ordered, total_len, OfferView,
};
use crate::fingerprint::{content_digest, fingerprint, target_views, Fingerprint};
use crate::text::{
    ascending, comes_before, lemma_insert_ascending, lemma_name_irreflexive, lemma_name_total,
    lemma_name_transitive, name_precedes, same_name,
};

verus! {

/// The MIME types and X11 targets that stand for plain text, the preferred one
/// first.
pub const PLAIN_TEXT_MIME_TYPES: [&'static str; 5] = [
    "text/plain;charset=utf-8",
    "UTF8_STRING",
    "text/plain",
    "TEXT",
    "STRING",
];

/// X11 targets that ask for something other than clipboard content.
const X11_CONTROL_TARGETS: [&'static str; 10] = [
    "ATOM",
    "ATOM_PAIR",
    "DELETE",
    "INCR",
    "INSERT_PROPERTY",
    "INSERT_SELECTION",
    "MULTIPLE",
    "SAVE_TARGETS",
    "TARGETS",
    "TIMESTAMP",
];

/// The names in [`PLAIN_TEXT_MIME_TYPES`].
pub open spec fn plain_text_names() -> Seq<Seq<char>> {
    seq![
        "text/plain;charset=utf-8"@,
        "UTF8_STRING"@,
        "text/plain"@,
        "TEXT"@,
        "STRING"@,
    ]
}

/// The names of the X11 targets that ask for something other than content.
pub open spec fn x11_control_names() -> Seq<Seq<char>> {
    seq![
        "ATOM"@,
        "ATOM_PAIR"@,
        "DELETE"@,
        "INCR"@,
        "INSERT_PROPERTY"@,
        "INSERT_SELECTION"@,
        "MULTIPLE"@,
        "SAVE_TARGETS"@,
        "TARGETS"@,
        "TIMESTAMP"@,
    ]
}

/// Whether a name can be offered as content on X11: it is neither empty nor
/// a protocol target and holds no NUL character.
pub open spec fn is_x11_target_name(name: Seq<char>) -> bool {
    &&& name.len() > 0
    &&& !name.contains('\0')
    &&& !x11_control_names().contains(name)
}

/// The preferred plain text type among `offers`.
pub open spec fn preferred_text_type(offers: Seq<OfferView>) -> Option<Seq<char>> {
    first_offered(offers, plain_text_names())
}

/// The plain text types, each with `text` as its data.
pub open spec fn text_aliases(text: Seq<u8>) -> Seq<OfferView> {
    plain_text_names().map_values(|name: Seq<char>| OfferView { mime_type: name, data: text })
}

/// The offers as they read on Wayland: where there is plain text among them,
/// the plain text types that have no offer of their own follow, with the data
/// of the preferred one. (An alias whose type has an offer is never found.)
pub open spec fn with_text_aliases(offers: Seq<OfferView>) -> Seq<OfferView> {
    match preferred_text_type(offers) {
        Some(text_type) => offers + text_aliases(lookup(offers, text_type)->0),
        None => offers,
    }
}

/// Whether the X11 target `name` is served from the offer at `source`: from the
/// offer of that very type, or, for `UTF8_STRING` where no offer has this type,
/// from the offer of UTF-8 text.
pub open spec fn serves_x11_target(offers: Seq<OfferView>, name: Seq<char>, source: int) -> bool {
    &&& 0 <= source < offers.len()
    &&& {
        ||| offers[source].mime_type == name && is_x11_target_name(name)
        ||| {
            &&& name == "UTF8_STRING"@
            &&& lookup(offers, "UTF8_STRING"@) is None
            &&& offers[source].mime_type == "text/plain;charset=utf-8"@
        }
    }
}

/// Whether `list` names, in strictly ascending order, exactly the X11 targets
/// that `offers` serves, each with the index of the offer that serves it.
pub open spec fn is_x11_target_list(offers: Seq<OfferView>, list: Seq<(Seq<char>, int)>) -> bool {
    &&& forall|i: int, j: int|
        #![trigger list[i], list[j]]
        0 <= i < j < list.len() ==> name_precedes(list[i].0, list[j].0)
    &&& forall|i: int|
        0 <= i < list.len() ==> serves_x11_target(offers, (#[trigger] list[i]).0, list[i].1)
    &&& forall|name: Seq<char>, source: int| #[trigger]
        serves_x11_target(offers, name, source) ==> list.contains((name, source))
}

/// The X11 targets that `offers` serves. There is one such list, as
/// [`lemma_x11_target_list`] shows of the offers of a snapshot.
pub open spec fn x11_target_list(offers: Seq<OfferView>) -> Seq<(Seq<char>, int)> {
    choose|list: Seq<(Seq<char>, int)>| is_x11_target_list(offers, list)
}

/// A list of targets as names and sources.
pub open spec fn named_sources(targets: Seq<(&str, usize)>) -> Seq<(Seq<char>, int)> {
    Seq::new(targets.len(), |i: int| (targets[i].0@, targets[i].1 as int))
}

/// One representation of the clipboard content.
pub struct Offer {
    pub mime_type: String,
    pub data: Vec<u8>,
}

impl View for Offer {
    type V = OfferView;

    open spec fn view(&self) -> OfferView {
        OfferView { mime_type: self.mime_type@, data: self.data@ }
    }
}

/// The views of a list of offers.
pub open spec fn offer_views(offers: Seq<Offer>) -> Seq<OfferView> {
    Seq::new(offers.len(), |i: int| offers[i]@)
}

/// A complete clipboard content: offers in ascending order of their MIME types,
/// with no type twice.
pub struct Snapshot {
    offers: Vec<Offer>,
}

impl View for Snapshot {
    type V = Seq<OfferView>;

    closed spec fn view(&self) -> Seq<OfferView> {
        offer_views(self.offers@)
    }
}

impl Snapshot {
    /// The offers are strictly ordered.
    #[verifier::type_invariant]
    pub open spec fn well_formed(self) -> bool {
        strictly_ordered(self@)
    }

    /// Creates the snapshot of `offers`. Where a MIME type occurs more than
    /// once, its first offer counts.
    pub fn new(offers: Vec<Offer>) -> (snapshot: Self)
        ensures
            is_normal_form(offer_views(offers@), snapshot@),
            snapshot.well_formed(),
    {
        let ghost given = offers@;
        let mut ordered: Vec<Offer> = Vec::new();
        for offer in iter: offers.into_iter()
            invariant
                iter.seq() == given,
                is_normal_form(offer_views(given.take(iter.index())), offer_views(ordered@)),
        {
            let ghost seen = offer_views(given.take(iter.index()));
            let ghost before = offer_views(ordered@);
            let ghost now = offer_views(given.take(iter.index() + 1));
            proof {
                assert(now.drop_last() =~= seen);
                assert(now.last() == offer@);
            }
            let (slot, found) = slot_of(&ordered, offer.mime_type.as_str());
            if !found {
                proof {
                    lemma_insert_ordered(before, slot as int, offer@);
                    assert(offer_views(ordered@.insert(slot as int, offer)) =~= before.insert(
                        slot as int,
                        offer@,
                    ));
                }
                ordered.insert(slot, offer);
            }
            proof {
                assert forall|mime_type: Seq<char>| #[trigger]
                    lookup(offer_views(ordered@), mime_type) == lookup(now, mime_type) by {
                    assert(lookup(before, mime_type) == lookup(seen, mime_type));
                    if found {
                        lemma_lookup_ordered(before, slot as int);
                        assert(lookup(before, offer@.mime_type) == lookup(seen, offer@.mime_type));
                    } else {
                        lemma_lookup_none(before, offer@.mime_type);
                        assert forall|i: int| 0 <= i < before.len() implies (
                        #[trigger] before[i]).mime_type != offer@.mime_type by {
                            lemma_name_irreflexive(offer@.mime_type);
                        }
                    }
                }
            }
        }
        assert(given.take(given.len() as int) =~= given);
        Snapshot { offers: ordered }
    }

    /// The index of the offer of type `mime_type`.
    fn find(&self, mime_type: &str) -> (found: Option<usize>)
        ensures
            match found {
                Some(index) => {
                    &&& index < self@.len()
                    &&& self@[index as int].mime_type == mime_type@
                    &&& lookup(self@, mime_type@) == Some(self@[index as int].data)
                },
                None => lookup(self@, mime_type@) is None,
            },
    {
        proof {
            use_type_invariant(self);
        }
        let (slot, found) = slot_of(&self.offers, mime_type);
        if found {
            proof {
                lemma_lookup_ordered(self@, slot as int);
            }
            Some(slot)
        } else {
            proof {
                lemma_lookup_none(self@, mime_type@);
                assert forall|i: int| 0 <= i < self@.len() implies (
                #[trigger] self@[i]).mime_type != mime_type@ by {
                    lemma_name_irreflexive(mime_type@);
                }
            }
            None
        }
    }

    /// The index of the preferred plain text offer.
    pub fn preferred_text_index(&self) -> (index: Option<usize>)
        ensures
            match index {
                Some(index) => {
                    &&& index < self@.len()
                    &&& preferred_text_type(self@) == Some(self@[index as int].mime_type)
                },
                None => preferred_text_type(self@) is None,
            },
            index matches Some(found) ==> {
                &&& plain_text_names().contains(self@[found as int].mime_type)
                &&& lookup(self@, self@[found as int].mime_type) == Some(self@[found as int].data)
            },
    {
        let ghost names = plain_text_names();
        let mut k: usize = 0;
        assert(names.skip(0) =~= names);
        while k < 5
            invariant
                k <= 5,
                names == plain_text_names(),
                preferred_text_type(self@) == first_offered(self@, names.skip(k as int)),
            decreases 5 - k,
        {
            let name: &'static str = PLAIN_TEXT_MIME_TYPES[k];
            assert(name@ == names[k as int]);
            assert(names.skip(k as int)[0] == names[k as int]);
            if let Some(index) = self.find(name) {
                return Some(index);
            }
            assert(names.skip(k as int).drop_first() =~= names.skip(k + 1));
            k += 1;
        }
        None
    }

    /// The fingerprint of the content as it is.
    pub fn fingerprint(&self) -> (fingerprint: Fingerprint)
        ensures
            fingerprint.bytes@ == content_digest(self@),
    {
        let targets: Vec<(&str, &[u8])> = self.targets();
        proof {
            use_type_invariant(self);
            lemma_distinct_names(targets@);
        }
        fingerprint(targets)
    }

    /// The fingerprint of the content as it reads on Wayland, where the missing
    /// plain text types are offered with the preferred text.
    pub fn wayland_fingerprint(&self) -> (fingerprint: Fingerprint)
        ensures
            fingerprint.bytes@ == content_digest(with_text_aliases(self@)),
    {
        let mut targets: Vec<(&str, &[u8])> = self.targets();
        proof {
            use_type_invariant(self);
            lemma_distinct_names(targets@);
        }
        if let Some(text_index) = self.preferred_text_index() {
            let text: &[u8] = self.offers[text_index].data.as_slice();
            let ghost aliases = text_aliases(text@);
            let ghost count = self@.len() as int;
            proof {
                lemma_lookup_ordered(self@, text_index as int);
                assert(with_text_aliases(self@) == self@ + aliases);
                assert(self@ + aliases.take(0) =~= self@);
            }
            let mut k: usize = 0;
            while k < 5
                invariant
                    k <= 5,
                    count == self@.len(),
                    strictly_ordered(self@),
                    aliases == text_aliases(text@),
                    targets@.len() >= count,
                    distinct_names(targets@),
                    forall|i: int|
                        0 <= i < count ==> (#[trigger] targets@[i]).0@ == self@[i].mime_type,
                    forall|i: int|
                        count <= i < targets@.len() ==> is_earlier_alias(
                            (#[trigger] targets@[i]).0@,
                            k as int,
                        ),
                    forall|mime_type: Seq<char>| #[trigger]
                        lookup(target_views(targets@), mime_type) == lookup(
                            self@ + aliases.take(k as int),
                            mime_type,
                        ),
                decreases 5 - k,
            {
                let name: &'static str = PLAIN_TEXT_MIME_TYPES[k];
                let ghost before = targets@;
                assert(name@ == plain_text_names()[k as int]);
                let missing: bool = self.find(name).is_none();
                if missing {
                    targets.push((name, text));
                }
                proof {
                    lemma_plain_text_names_distinct();
                    lemma_alias_step(self@, text, k as int, name, before, targets@, missing);
                }
                k += 1;
            }
            proof {
                assert(aliases.take(5) =~= aliases);
                lemma_normal_form_same(target_views(targets@), with_text_aliases(self@));
            }
        }
        fingerprint(targets)
    }

    /// The offers as names and data.
    fn targets(&self) -> (targets: Vec<(&str, &[u8])>)
        ensures
            target_views(targets@) == self@,
            self.well_formed(),
    {
        proof {
            use_type_invariant(self);
        }
        let mut targets: Vec<(&str, &[u8])> = Vec::new();
        let mut i: usize = 0;
        while i < self.offers.len()
            invariant
                i <= self.offers@.len(),
                self@ == offer_views(self.offers@),
                target_views(targets@) == self@.take(i as int),
            decreases self.offers.len() - i,
        {
            let ghost before = targets@;
            targets.push((self.offers[i].mime_type.as_str(), self.offers[i].data.as_slice()));
            assert(target_views(targets@) =~= target_views(before).push(self@[i as int]));
            assert(self@.take(i + 1) =~= self@.take(i as int).push(self@[i as int]));
            i += 1;
        }
        assert(self@.take(i as int) =~= self@);
        targets
    }

    /// The X11 targets to advertise, in ascending order, each with the index of
    /// the offer that serves it.
    pub fn x11_targets(&self) -> (targets: Vec<(&str, usize)>)
        ensures
            is_x11_target_list(self@, named_sources(targets@)),
    {
        proof {
            use_type_invariant(self);
        }
        let mut targets: Vec<(&str, usize)> = Vec::new();
        let mut index: usize = 0;
        while index < self.offers.len()
            invariant
                index <= self.offers@.len(),
                self@ == offer_views(self.offers@),
                strictly_ordered(self@),
                forall|i: int, j: int|
                    #![trigger targets@[i], targets@[j]]
                    0 <= i < j < targets@.len() ==> targets@[i].1 < targets@[j].1,
                forall|i: int|
                    0 <= i < targets@.len() ==> {
                        &&& (#[trigger] targets@[i]).1 < index
                        &&& targets@[i].0@ == self@[targets@[i].1 as int].mime_type
                        &&& is_x11_target_name(targets@[i].0@)
                    },
                forall|source: int|
                    0 <= source < index && is_x11_target_name(
                        (#[trigger] self@[source]).mime_type,
                    ) ==> exists|i: int|
                        0 <= i < targets@.len() && (#[trigger] targets@[i]).1 == source,
            decreases self.offers.len() - index,
        {
            let ghost before = targets@;
            let name: &str = self.offers[index].mime_type.as_str();
            assert(name@ == self@[index as int].mime_type);
            let offered: bool = is_x11_target(name);
            if offered {
                targets.push((name, index));
            }
            proof {
                assert forall|source: int|
                    0 <= source < index + 1 && is_x11_target_name(
                        (#[trigger] self@[source]).mime_type,
                    ) implies exists|i: int|
                    0 <= i < targets@.len() && (#[trigger] targets@[i]).1 == source by {
                    if source < index {
                        let i: int = choose|i: int|
                            0 <= i < before.len() && (#[trigger] before[i]).1 == source;
                        assert(targets@[i] == before[i]);
                    } else {
                        assert(targets@[before.len() as int].1 == source);
                    }
                }
            }
            index += 1;
        }
        let ghost own = targets@;
        proof {
            assert forall|i: int, j: int|
                #![trigger own[i], own[j]]
                0 <= i < j < own.len() implies name_precedes(own[i].0@, own[j].0@) by {
                assert(self@[own[i].1 as int].mime_type == own[i].0@);
                assert(self@[own[j].1 as int].mime_type == own[j].0@);
            }
            lemma_utf8_string_is_target();
        }
        let has_utf8_string: bool = self.find("UTF8_STRING").is_some();
        if !has_utf8_string {
            if let Some(source) = self.find("text/plain;charset=utf-8") {
                proof {
                    lemma_lookup_none(self@, "UTF8_STRING"@);
                    assert forall|i: int| 0 <= i < own.len() implies (#[trigger] own[i]).0@
                        != "UTF8_STRING"@ by {
                        assert(self@[own[i].1 as int].mime_type == own[i].0@);
                    }
                }
                let slot: usize = insert_named(&mut targets, "UTF8_STRING", source);
                proof {
                    lemma_targets_with_alias(self@, own, slot as int, targets@, source as int);
                    lemma_listed(self@, targets@);
                }
                return targets;
            }
        }
        proof {
            lemma_targets_without_alias(self@, own);
            lemma_listed(self@, own);
        }
        targets
    }

    /// The offers in ascending order of their MIME types.
    pub fn offers(&self) -> (offers: &[Offer])
        ensures
            offer_views(offers@) == self@,
            self.well_formed(),
    {
        proof {
            use_type_invariant(self);
        }
        self.offers.as_slice()
    }

    /// The number of data bytes in all offers.
    pub fn total_bytes(&self) -> (total: usize)
        requires
            total_len(self@) <= usize::MAX,
        ensures
            total == total_len(self@),
    {
        let mut total: usize = 0;
        let mut i: usize = 0;
        while i < self.offers.len()
            invariant
                i <= self.offers@.len(),
                self@ == offer_views(self.offers@),
                total_len(self@) <= usize::MAX,
                total == total_len(self@.take(i as int)),
            decreases self.offers.len() - i,
        {
            proof {
                assert(self@.take(i + 1).drop_last() =~= self@.take(i as int));
                assert(self@.take(i + 1).last() == self@[i as int]);
                lemma_total_len_prefix(self@, i + 1);
            }
            total += self.offers[i].data.len();
            i += 1;
        }
        assert(self@.take(i as int) =~= self@);
        total
    }

    /// The MIME types of the offers, in ascending order.
    pub fn mime_types(&self) -> (mime_types: Vec<&str>)
        ensures
            mime_types@.len() == self@.len(),
            forall|i: int|
                0 <= i < mime_types@.len() ==> (#[trigger] mime_types@[i])@ == self@[i].mime_type,
    {
        let mut mime_types: Vec<&str> = Vec::new();
        let mut i: usize = 0;
        while i < self.offers.len()
            invariant
                i <= self.offers@.len(),
                self@ == offer_views(self.offers@),
                mime_types@.len() == i,
                forall|j: int|
                    0 <= j < i ==> (#[trigger] mime_types@[j])@ == self@[j].mime_type,
            decreases self.offers.len() - i,
        {
            mime_types.push(self.offers[i].mime_type.as_str());
            i += 1;
        }
        mime_types
    }

    /// The offers themselves.
    pub fn into_offers(self) -> (offers: Vec<Offer>)
        ensures
            offer_views(offers@) == self@,
            self.well_formed(),
    {
        proof {
            use_type_invariant(&self);
        }
        self.offers
    }
}

/// Whether `name` is one of the first `k` plain text types.
spec fn is_earlier_alias(name: Seq<char>, k: int) -> bool {
    exists|j: int| 0 <= j < k && name == #[trigger] plain_text_names()[j]
}

/// Whether no name occurs twice.
spec fn distinct_names(targets: Seq<(&str, &[u8])>) -> bool {
    forall|i: int, j: int|
        #![trigger targets[i], targets[j]]
        0 <= i < j < targets.len() ==> targets[i].0@ != targets[j].0@
}

proof fn lemma_distinct_names(targets: Seq<(&str, &[u8])>)
    requires
        strictly_ordered(target_views(targets)),
    ensures
        distinct_names(targets),
{
    let views = target_views(targets);
    assert forall|i: int, j: int|
        #![trigger targets[i], targets[j]]
        0 <= i < j < targets.len() implies targets[i].0@ != targets[j].0@ by {
        assert(name_precedes(views[i].mime_type, views[j].mime_type));
        lemma_name_irreflexive(targets[i].0@);
    }
}

/// The plain text types differ from one another.
proof fn lemma_plain_text_names_distinct()
    ensures
        forall|i: int, j: int|
            #![trigger plain_text_names()[i], plain_text_names()[j]]
            0 <= i < j < 5 ==> plain_text_names()[i] != plain_text_names()[j],
{
    reveal_strlit("text/plain;charset=utf-8");
    reveal_strlit("UTF8_STRING");
    reveal_strlit("text/plain");
    reveal_strlit("TEXT");
    reveal_strlit("STRING");
    let names = plain_text_names();
    assert(names[0].len() == 24);
    assert(names[1].len() == 11);
    assert(names[2].len() == 10);
    assert(names[3].len() == 4);
    assert(names[4].len() == 6);
}

/// Adding the alias at `k` where its type is missing.
proof fn lemma_alias_step(
    offers: Seq<OfferView>,
    text: &[u8],
    k: int,
    name: &str,
    before: Seq<(&str, &[u8])>,
    after: Seq<(&str, &[u8])>,
    missing: bool,
)
    requires
        0 <= k < 5,
        name@ == plain_text_names()[k],
        missing == (lookup(offers, name@) is None),
        after == (if missing {
            before.push((name, text))
        } else {
            before
        }),
        before.len() >= offers.len(),
        distinct_names(before),
        forall|i: int, j: int|
            #![trigger plain_text_names()[i], plain_text_names()[j]]
            0 <= i < j < 5 ==> plain_text_names()[i] != plain_text_names()[j],
        forall|i: int|
            0 <= i < offers.len() ==> (#[trigger] before[i]).0@ == offers[i].mime_type,
        forall|i: int|
            offers.len() <= i < before.len() ==> is_earlier_alias((#[trigger] before[i]).0@, k),
        forall|mime_type: Seq<char>| #[trigger]
            lookup(target_views(before), mime_type) == lookup(
                offers + text_aliases(text@).take(k),
                mime_type,
            ),
    ensures
        distinct_names(after),
        forall|i: int|
            0 <= i < offers.len() ==> (#[trigger] after[i]).0@ == offers[i].mime_type,
        forall|i: int|
            offers.len() <= i < after.len() ==> is_earlier_alias((#[trigger] after[i]).0@, k + 1),
        forall|mime_type: Seq<char>| #[trigger]
            lookup(target_views(after), mime_type) == lookup(
                offers + text_aliases(text@).take(k + 1),
                mime_type,
            ),
{
    let aliases = text_aliases(text@);
    lemma_lookup_none(offers, name@);
    assert forall|i: int, j: int|
        #![trigger after[i], after[j]]
        0 <= i < j < after.len() implies after[i].0@ != after[j].0@ by {
        assert(after[i] == before[i]);
        if j < before.len() {
            assert(after[j] == before[j]);
        } else if i < offers.len() {
            assert(offers[i].mime_type != name@);
        }
    }
    assert forall|i: int| offers.len() <= i < after.len() implies is_earlier_alias(
        (#[trigger] after[i]).0@,
        k + 1,
    ) by {
        if i < before.len() {
            assert(after[i] == before[i]);
            let j: int = choose|j: int|
                0 <= j < k && before[i].0@ == #[trigger] plain_text_names()[j];
            assert(after[i].0@ == plain_text_names()[j]);
        } else {
            assert(after[i].0@ == plain_text_names()[k]);
        }
    }
    let seen = offers + aliases.take(k);
    let now = offers + aliases.take(k + 1);
    assert(now.drop_last() =~= seen);
    assert(now.last() == OfferView { mime_type: name@, data: text@ });
    assert forall|mime_type: Seq<char>| #[trigger]
        lookup(target_views(after), mime_type) == lookup(now, mime_type) by {
        assert(lookup(target_views(before), mime_type) == lookup(seen, mime_type));
        if missing {
            assert(target_views(after).drop_last() =~= target_views(before));
        } else {
            lemma_lookup_concat(offers, aliases.take(k), mime_type);
        }
    }
}

/// Whether the names of `targets` stand in strictly ascending order.
pub open spec fn names_ordered<T>(targets: Seq<(&str, T)>) -> bool {
    forall|i: int, j: int|
        #![trigger targets[i], targets[j]]
        0 <= i < j < targets.len() ==> name_precedes(targets[i].0@, targets[j].0@)
}

/// The names of `targets`.
spec fn names_of<T>(targets: Seq<(&str, T)>) -> Seq<Seq<char>> {
    Seq::new(targets.len(), |i: int| targets[i].0@)
}

/// Targets are ordered exactly when their names ascend.
proof fn lemma_names_ordered<T>(targets: Seq<(&str, T)>)
    ensures
        names_ordered(targets) <==> ascending(names_of(targets)),
{
    let names = names_of(targets);
    if ascending(names) {
        assert forall|i: int, j: int|
            #![trigger targets[i], targets[j]]
            0 <= i < j < targets.len() implies name_precedes(targets[i].0@, targets[j].0@) by {
            assert(name_precedes(names[i], names[j]));
        }
    }
}

/// Whether every target is an offer under its own type, and every offer that
/// can be a target is one.
spec fn own_targets(offers: Seq<OfferView>, targets: Seq<(&str, usize)>) -> bool {
    &&& forall|i: int|
        0 <= i < targets.len() ==> {
            &&& (#[trigger] targets[i]).1 < offers.len()
            &&& targets[i].0@ == offers[targets[i].1 as int].mime_type
            &&& is_x11_target_name(targets[i].0@)
        }
    &&& forall|source: int|
        0 <= source < offers.len() && is_x11_target_name((#[trigger] offers[source]).mime_type)
            ==> exists|i: int| 0 <= i < targets.len() && (#[trigger] targets[i]).1 == source
}

/// Whether `targets` names exactly the targets that `offers` serves.
spec fn lists_x11_targets(offers: Seq<OfferView>, targets: Seq<(&str, usize)>) -> bool {
    &&& names_ordered(targets)
    &&& forall|i: int|
        0 <= i < targets.len() ==> serves_x11_target(
            offers,
            (#[trigger] targets[i]).0@,
            targets[i].1 as int,
        )
    &&& forall|name: Seq<char>, source: int| #[trigger]
        serves_x11_target(offers, name, source) ==> exists|i: int|
            0 <= i < targets.len() && (#[trigger] targets[i]).0@ == name && targets[i].1 == source
}

proof fn lemma_listed(offers: Seq<OfferView>, targets: Seq<(&str, usize)>)
    requires
        lists_x11_targets(offers, targets),
    ensures
        is_x11_target_list(offers, named_sources(targets)),
{
    let list = named_sources(targets);
    assert forall|i: int, j: int|
        #![trigger list[i], list[j]]
        0 <= i < j < list.len() implies name_precedes(list[i].0, list[j].0) by {
        assert(name_precedes(targets[i].0@, targets[j].0@));
    }
    assert forall|i: int| 0 <= i < list.len() implies serves_x11_target(
        offers,
        (#[trigger] list[i]).0,
        list[i].1,
    ) by {
        assert(serves_x11_target(offers, targets[i].0@, targets[i].1 as int));
    }
    assert forall|name: Seq<char>, source: int| #[trigger]
        serves_x11_target(offers, name, source) implies list.contains((name, source)) by {
        let i: int = choose|i: int|
            0 <= i < targets.len() && (#[trigger] targets[i]).0@ == name && targets[i].1 == source;
        assert(list[i] == (name, source));
    }
}

/// A list that satisfies the definition of [`x11_target_list`] is equal to it.
pub proof fn lemma_x11_target_list(offers: Seq<OfferView>, list: Seq<(Seq<char>, int)>)
    requires
        is_x11_target_list(offers, list),
    ensures
        list == x11_target_list(offers),
{
    let other = x11_target_list(offers);
    assert(is_x11_target_list(offers, other));
    assert forall|pair: (Seq<char>, int)| list.contains(pair) == other.contains(pair) by {
        if list.contains(pair) {
            let i: int = choose|i: int| 0 <= i < list.len() && list[i] == pair;
            assert(serves_x11_target(offers, list[i].0, list[i].1));
        }
        if other.contains(pair) {
            let i: int = choose|i: int| 0 <= i < other.len() && other[i] == pair;
            assert(serves_x11_target(offers, other[i].0, other[i].1));
        }
    }
    lemma_ordered_list_unique(list, other);
}

proof fn lemma_ordered_list_unique(left: Seq<(Seq<char>, int)>, right: Seq<(Seq<char>, int)>)
    requires
        forall|i: int, j: int|
            #![trigger left[i], left[j]]
            0 <= i < j < left.len() ==> name_precedes(left[i].0, left[j].0),
        forall|i: int, j: int|
            #![trigger right[i], right[j]]
            0 <= i < j < right.len() ==> name_precedes(right[i].0, right[j].0),
        forall|pair: (Seq<char>, int)| left.contains(pair) == right.contains(pair),
    ensures
        left == right,
    decreases left.len() + right.len(),
{
    if left.len() == 0 || right.len() == 0 {
        if left.len() > 0 {
            assert(left.contains(left[0]));
        }
        if right.len() > 0 {
            assert(right.contains(right[0]));
        }
        assert(left =~= right);
    } else {
        let l = left.last();
        let r = right.last();
        assert(left[left.len() - 1] == l);
        assert(right[right.len() - 1] == r);
        assert(left.contains(l) && right.contains(r));
        assert(right.contains(l) && left.contains(r));
        let in_right: int = choose|i: int| 0 <= i < right.len() && right[i] == l;
        let in_left: int = choose|i: int| 0 <= i < left.len() && left[i] == r;
        if in_right < right.len() - 1 {
            assert(name_precedes(right[in_right].0, right[right.len() - 1].0));
            if in_left < left.len() - 1 {
                assert(name_precedes(left[in_left].0, left[left.len() - 1].0));
                lemma_name_transitive(l.0, r.0, l.0);
            }
            lemma_name_irreflexive(l.0);
        }
        assert(l == r);
        let left_rest = left.drop_last();
        let right_rest = right.drop_last();
        assert forall|pair: (Seq<char>, int)|
            left_rest.contains(pair) == right_rest.contains(pair) by {
            lemma_rest_contains(left, pair);
            lemma_rest_contains(right, pair);
            assert(left.contains(pair) == right.contains(pair));
        }
        lemma_rest_ordered(left);
        lemma_rest_ordered(right);
        lemma_ordered_list_unique(left_rest, right_rest);
        assert(left =~= left_rest.push(l));
        assert(right =~= right_rest.push(r));
    }
}

proof fn lemma_rest_ordered(list: Seq<(Seq<char>, int)>)
    requires
        list.len() > 0,
        forall|i: int, j: int|
            #![trigger list[i], list[j]]
            0 <= i < j < list.len() ==> name_precedes(list[i].0, list[j].0),
    ensures
        forall|i: int, j: int|
            #![trigger list.drop_last()[i], list.drop_last()[j]]
            0 <= i < j < list.drop_last().len() ==> name_precedes(
                list.drop_last()[i].0,
                list.drop_last()[j].0,
            ),
{
    let rest = list.drop_last();
    assert forall|i: int, j: int|
        #![trigger rest[i], rest[j]]
        0 <= i < j < rest.len() implies name_precedes(rest[i].0, rest[j].0) by {
        assert(rest[i] == list[i] && rest[j] == list[j]);
    }
}

proof fn lemma_rest_contains(list: Seq<(Seq<char>, int)>, pair: (Seq<char>, int))
    requires
        list.len() > 0,
        forall|i: int, j: int|
            #![trigger list[i], list[j]]
            0 <= i < j < list.len() ==> name_precedes(list[i].0, list[j].0),
    ensures
        list.drop_last().contains(pair) == (list.contains(pair) && pair != list.last()),
{
    let rest = list.drop_last();
    if list.contains(pair) && pair != list.last() {
        let i: int = choose|i: int| 0 <= i < list.len() && list[i] == pair;
        assert(rest[i] == pair);
    }
    if rest.contains(pair) {
        let i: int = choose|i: int| 0 <= i < rest.len() && rest[i] == pair;
        assert(list[i] == pair);
        assert(name_precedes(list[i].0, list[list.len() - 1].0));
        lemma_name_irreflexive(pair.0);
    }
}

/// UTF-8 text can be offered under its MIME type.
pub(crate) proof fn lemma_utf8_text_is_target()
    ensures
        is_x11_target_name("text/plain;charset=utf-8"@),
{
    reveal_strlit("text/plain;charset=utf-8");
    reveal_strlit("ATOM");
    reveal_strlit("ATOM_PAIR");
    reveal_strlit("DELETE");
    reveal_strlit("INCR");
    reveal_strlit("INSERT_PROPERTY");
    reveal_strlit("INSERT_SELECTION");
    reveal_strlit("MULTIPLE");
    reveal_strlit("SAVE_TARGETS");
    reveal_strlit("TARGETS");
    reveal_strlit("TIMESTAMP");
    let name = "text/plain;charset=utf-8"@;
    assert forall|i: int| 0 <= i < x11_control_names().len() implies (
    #[trigger] x11_control_names()[i]) != name by {
        assert(name[0] == 't');
        assert(x11_control_names()[i][0] != 't');
    }
}

proof fn lemma_utf8_string_is_target()
    ensures
        is_x11_target_name("UTF8_STRING"@),
{
    reveal_strlit("UTF8_STRING");
    reveal_strlit("ATOM");
    reveal_strlit("ATOM_PAIR");
    reveal_strlit("DELETE");
    reveal_strlit("INCR");
    reveal_strlit("INSERT_PROPERTY");
    reveal_strlit("INSERT_SELECTION");
    reveal_strlit("MULTIPLE");
    reveal_strlit("SAVE_TARGETS");
    reveal_strlit("TARGETS");
    reveal_strlit("TIMESTAMP");
    let name = "UTF8_STRING"@;
    assert forall|i: int| 0 <= i < x11_control_names().len() implies (
    #[trigger] x11_control_names()[i]) != name by {
        assert(name[0] == 'U');
        assert(x11_control_names()[i][0] != 'U');
    }
}

proof fn lemma_targets_without_alias(offers: Seq<OfferView>, own: Seq<(&str, usize)>)
    requires
        names_ordered(own),
        own_targets(offers, own),
        lookup(offers, "UTF8_STRING"@) is Some || lookup(
            offers,
            "text/plain;charset=utf-8"@,
        ) is None,
    ensures
        lists_x11_targets(offers, own),
{
    assert forall|name: Seq<char>, source: int| #[trigger]
        serves_x11_target(offers, name, source) implies exists|i: int|
        0 <= i < own.len() && (#[trigger] own[i]).0@ == name && own[i].1 == source by {
        lemma_lookup_none(offers, "text/plain;charset=utf-8"@);
        assert(offers[source].mime_type == name);
        let i: int = choose|i: int| 0 <= i < own.len() && (#[trigger] own[i]).1 == source;
        assert(own[i].0@ == name);
    }
}

proof fn lemma_targets_with_alias(
    offers: Seq<OfferView>,
    own: Seq<(&str, usize)>,
    slot: int,
    targets: Seq<(&str, usize)>,
    source: int,
)
    requires
        strictly_ordered(offers),
        names_ordered(own),
        names_ordered(targets),
        own_targets(offers, own),
        0 <= slot <= own.len(),
        targets.len() == own.len() + 1,
        targets[slot].0@ == "UTF8_STRING"@,
        targets[slot].1 == source,
        forall|i: int| 0 <= i < slot ==> targets[i] == #[trigger] own[i],
        forall|i: int| slot <= i < own.len() ==> targets[i + 1] == #[trigger] own[i],
        lookup(offers, "UTF8_STRING"@) is None,
        0 <= source < offers.len(),
        offers[source].mime_type == "text/plain;charset=utf-8"@,
    ensures
        lists_x11_targets(offers, targets),
{
    assert forall|i: int| 0 <= i < targets.len() implies serves_x11_target(
        offers,
        (#[trigger] targets[i]).0@,
        targets[i].1 as int,
    ) by {
        if i < slot {
            assert(targets[i] == own[i]);
        } else if i > slot {
            assert(targets[i] == own[i - 1]);
        }
    }
    assert forall|name: Seq<char>, from: int| #[trigger]
        serves_x11_target(offers, name, from) implies exists|i: int|
        0 <= i < targets.len() && (#[trigger] targets[i]).0@ == name && targets[i].1 == from by {
        if offers[from].mime_type == name {
            lemma_lookup_none(offers, "UTF8_STRING"@);
            let k: int = choose|k: int| 0 <= k < own.len() && (#[trigger] own[k]).1 == from;
            let i = if k < slot { k } else { k + 1 };
            assert(targets[i] == own[k]);
            assert(targets[i].0@ == name);
        } else {
            lemma_ordered_distinct(offers, from, source);
            assert(targets[slot].1 == from);
        }
    }
}

/// Inserts a new name at its place and returns that place.
pub(crate) fn insert_named<'a, T>(
    targets: &mut Vec<(&'a str, T)>,
    name: &'a str,
    value: T,
) -> (slot: usize)
    requires
        names_ordered(old(targets)@),
        forall|i: int| 0 <= i < old(targets)@.len() ==> (#[trigger] old(targets)@[i]).0@ != name@,
    ensures
        slot <= old(targets)@.len(),
        final(targets)@ == old(targets)@.insert(slot as int, (name, value)),
        names_ordered(final(targets)@),
        forall|i: int|
            0 <= i < slot ==> name_precedes((#[trigger] old(targets)@[i]).0@, name@),
        forall|i: int|
            slot <= i < old(targets)@.len() ==> name_precedes(
                name@,
                (#[trigger] old(targets)@[i]).0@,
            ),
{
    let ghost before = targets@;
    let mut slot: usize = targets.len();
    while slot > 0 && comes_before(name, targets[slot - 1].0)
        invariant
            targets@ == before,
            slot <= before.len(),
            forall|i: int|
                slot <= i < before.len() ==> name_precedes(name@, (#[trigger] before[i]).0@),
        decreases slot,
    {
        slot -= 1;
    }
    proof {
        assert forall|i: int| 0 <= i < slot implies name_precedes(
            (#[trigger] before[i]).0@,
            name@,
        ) by {
            let last = slot - 1;
            lemma_name_total(before[last].0@, name@);
            if i < last {
                lemma_name_transitive(before[i].0@, before[last].0@, name@);
            }
        }
    }
    targets.insert(slot, (name, value));
    proof {
        lemma_names_ordered(before);
        lemma_insert_ascending(names_of(before), slot as int, name@);
        assert(names_of(targets@) =~= names_of(before).insert(slot as int, name@));
        lemma_names_ordered(targets@);
    }
    slot
}

/// The number of offers whose types precede `mime_type`, and whether the next
/// offer is of that type.
fn slot_of(offers: &Vec<Offer>, mime_type: &str) -> (slot: (usize, bool))
    requires
        strictly_ordered(offer_views(offers@)),
    ensures
        slot.0 <= offers@.len(),
        forall|i: int|
            0 <= i < slot.0 ==> name_precedes(
                (#[trigger] offer_views(offers@)[i]).mime_type,
                mime_type@,
            ),
        slot.1 ==> slot.0 < offers@.len() && offer_views(offers@)[slot.0 as int].mime_type
            == mime_type@,
        !slot.1 ==> forall|i: int|
            slot.0 <= i < offers@.len() ==> name_precedes(
                mime_type@,
                (#[trigger] offer_views(offers@)[i]).mime_type,
            ),
{
    let ghost views = offer_views(offers@);
    let mut low: usize = 0;
    let mut high: usize = offers.len();
    while low < high
        invariant
            low <= high <= offers@.len(),
            views == offer_views(offers@),
            strictly_ordered(views),
            forall|i: int|
                0 <= i < low ==> name_precedes((#[trigger] views[i]).mime_type, mime_type@),
            forall|i: int|
                high <= i < offers@.len() ==> !name_precedes(
                    (#[trigger] views[i]).mime_type,
                    mime_type@,
                ),
        decreases high - low,
    {
        let middle: usize = low + (high - low) / 2;
        let ghost m = views[middle as int].mime_type;
        if comes_before(offers[middle].mime_type.as_str(), mime_type) {
            proof {
                assert forall|i: int| 0 <= i < middle + 1 implies name_precedes(
                    (#[trigger] views[i]).mime_type,
                    mime_type@,
                ) by {
                    if i < middle {
                        lemma_name_transitive(views[i].mime_type, m, mime_type@);
                    }
                }
            }
            low = middle + 1;
        } else {
            proof {
                assert forall|i: int| middle <= i < offers@.len() implies !name_precedes(
                    (#[trigger] views[i]).mime_type,
                    mime_type@,
                ) by {
                    if i > middle && name_precedes(views[i].mime_type, mime_type@) {
                        lemma_name_transitive(m, views[i].mime_type, mime_type@);
                    }
                }
            }
            high = middle;
        }
    }
    let found: bool = low < offers.len() && same_name(offers[low].mime_type.as_str(), mime_type);
    proof {
        if !found {
            assert forall|i: int| low <= i < offers@.len() implies name_precedes(
                mime_type@,
                (#[trigger] views[i]).mime_type,
            ) by {
                lemma_name_total(views[low as int].mime_type, mime_type@);
                if i > low {
                    lemma_name_transitive(
                        mime_type@,
                        views[low as int].mime_type,
                        views[i].mime_type,
                    );
                }
            }
        }
    }
    (low, found)
}

/// A part of the offers holds no more bytes than all of them.
pub proof fn lemma_total_len_prefix(offers: Seq<OfferView>, count: int)
    requires
        0 <= count <= offers.len(),
    ensures
        total_len(offers.take(count)) <= total_len(offers),
    decreases offers.len() - count,
{
    if count < offers.len() {
        assert(offers.take(count + 1).drop_last() =~= offers.take(count));
        lemma_total_len_prefix(offers, count + 1);
    } else {
        assert(offers.take(count) =~= offers);
    }
}

/// The data of a plain text alias is the text, and only the plain text types
/// are aliases.
proof fn lemma_alias_lookup(text: Seq<u8>, mime_type: Seq<char>)
    ensures
        lookup(text_aliases(text), mime_type) == (if plain_text_names().contains(mime_type) {
            Some(text)
        } else {
            None
        }),
{
    let names = plain_text_names();
    let aliases = text_aliases(text);
    lemma_lookup_none(aliases, mime_type);
    if names.contains(mime_type) {
        let i: int = choose|i: int| 0 <= i < names.len() && names[i] == mime_type;
        assert(aliases[i].mime_type == mime_type);
        lemma_lookup_some(aliases, mime_type);
    } else if lookup(aliases, mime_type) is Some {
        let i: int = lemma_lookup_some(aliases, mime_type);
        assert(names[i] == mime_type);
    }
}

/// Content reads on Wayland as it is, with one addition: where there is plain
/// text in it, each plain text type that has no offer of its own reads as the
/// preferred text.
pub proof fn law_text_reads_under_every_type(offers: Seq<OfferView>, mime_type: Seq<char>)
    ensures
        lookup(with_text_aliases(offers), mime_type) == match lookup(offers, mime_type) {
            Some(data) => Some(data),
            None => match preferred_text_type(offers) {
                Some(text_type) if plain_text_names().contains(mime_type) => lookup(
                    offers,
                    text_type,
                ),
                _ => None,
            },
        },
{
    if let Some(text_type) = preferred_text_type(offers) {
        lemma_first_offered(offers, plain_text_names());
        let text = lookup(offers, text_type)->0;
        lemma_lookup_concat(offers, text_aliases(text), mime_type);
        lemma_alias_lookup(text, mime_type);
    }
}

/// The first offered name has data.
proof fn lemma_first_offered(offers: Seq<OfferView>, names: Seq<Seq<char>>)
    ensures
        first_offered(offers, names) matches Some(name) ==> lookup(offers, name) is Some,
    decreases names.len(),
{
    if names.len() > 0 {
        lemma_first_offered(offers, names.drop_first());
    }
}

/// Content that was read back from Wayland reads there as it is: its own
/// fingerprint and that of its reading are the same.
pub proof fn law_text_aliases_idempotent(offers: Seq<OfferView>)
    ensures
        content_digest(with_text_aliases(with_text_aliases(offers))) == content_digest(
            with_text_aliases(offers),
        ),
{
    let once = with_text_aliases(offers);
    assert forall|mime_type: Seq<char>| #[trigger]
        lookup(with_text_aliases(once), mime_type) == lookup(once, mime_type) by {
        law_text_reads_under_every_type(offers, mime_type);
        law_text_reads_under_every_type(once, mime_type);
        if let Some(text_type) = preferred_text_type(offers) {
            lemma_first_offered(offers, plain_text_names());
        }
    }
    lemma_normal_form_same(with_text_aliases(once), once);
}

/// What is advertised on X11: each offer whose type can be a target, and
/// `UTF8_STRING` where there is UTF-8 text. So a protocol target is never
/// advertised as content.
pub proof fn law_x11_targets_advertised(
    offers: Seq<OfferView>,
    list: Seq<(Seq<char>, int)>,
    name: Seq<char>,
)
    requires
        is_x11_target_list(offers, list),
    ensures
        (exists|i: int| 0 <= i < list.len() && (#[trigger] list[i]).0 == name) <==> {
            &&& is_x11_target_name(name)
            &&& {
                ||| lookup(offers, name) is Some
                ||| name == "UTF8_STRING"@ && lookup(offers, "text/plain;charset=utf-8"@) is Some
            }
        },
{
    let utf8 = "text/plain;charset=utf-8"@;
    lemma_utf8_string_is_target();
    lemma_lookup_none(offers, name);
    lemma_lookup_none(offers, utf8);
    if exists|i: int| 0 <= i < list.len() && (#[trigger] list[i]).0 == name {
        let i: int = choose|i: int| 0 <= i < list.len() && (#[trigger] list[i]).0 == name;
        assert(serves_x11_target(offers, list[i].0, list[i].1));
        assert(offers[list[i].1].mime_type == name || offers[list[i].1].mime_type == utf8);
    }
    if is_x11_target_name(name) && lookup(offers, name) is Some {
        let source: int = lemma_lookup_some(offers, name);
        assert(serves_x11_target(offers, name, source));
        let i: int = choose|i: int| 0 <= i < list.len() && list[i] == (name, source);
        assert(list[i].0 == name);
    } else if name == "UTF8_STRING"@ && lookup(offers, utf8) is Some {
        let source: int = lemma_lookup_some(offers, utf8);
        assert(serves_x11_target(offers, name, source));
        let i: int = choose|i: int| 0 <= i < list.len() && list[i] == (name, source);
        assert(list[i].0 == name);
    }
}

/// The preferred text is offered, it is one of the plain text types, and none of
/// those that stand before it in their list is offered. There is none only where
/// no plain text type is offered.
pub proof fn law_preferred_text(offers: Seq<OfferView>)
    ensures
        ({
            let types = seq![
                "text/plain;charset=utf-8"@,
                "UTF8_STRING"@,
                "text/plain"@,
                "TEXT"@,
                "STRING"@,
            ];
            match preferred_text_type(offers) {
                Some(preferred) => exists|k: int|
                    #![trigger types[k]]
                    0 <= k < 5 && types[k] == preferred && lookup(offers, types[k]) is Some
                        && forall|j: int|
                        0 <= j < k ==> lookup(offers, #[trigger] types[j]) is None,
                None => forall|j: int| 0 <= j < 5 ==> lookup(offers, #[trigger] types[j]) is None,
            }
        }),
{
    let types = seq![
        "text/plain;charset=utf-8"@,
        "UTF8_STRING"@,
        "text/plain"@,
        "TEXT"@,
        "STRING"@,
    ];
    assert(plain_text_names() =~= types);
    lemma_first_offered_index(offers, types);
}

/// The first offered name is the one before which nothing is offered.
proof fn lemma_first_offered_index(offers: Seq<OfferView>, names: Seq<Seq<char>>)
    ensures
        match first_offered(offers, names) {
            Some(name) => exists|k: int|
                #![trigger names[k]]
                0 <= k < names.len() && names[k] == name && lookup(offers, names[k]) is Some
                    && forall|j: int| 0 <= j < k ==> lookup(offers, #[trigger] names[j]) is None,
            None => forall|j: int|
                0 <= j < names.len() ==> lookup(offers, #[trigger] names[j]) is None,
        },
    decreases names.len(),
{
    if names.len() > 0 && lookup(offers, names[0]) is None {
        let rest = names.drop_first();
        lemma_first_offered_index(offers, rest);
        match first_offered(offers, rest) {
            Some(name) => {
                let k: int = choose|k: int|
                    #![trigger rest[k]]
                    0 <= k < rest.len() && rest[k] == name && lookup(offers, rest[k]) is Some
                        && forall|j: int| 0 <= j < k ==> lookup(offers, #[trigger] rest[j]) is None;
                assert(names[k + 1] == name);
                assert forall|j: int| 0 <= j < k + 1 implies lookup(
                    offers,
                    #[trigger] names[j],
                ) is None by {
                    if j > 0 {
                        assert(rest[j - 1] == names[j]);
                    }
                }
            },
            None => {
                assert forall|j: int| 0 <= j < names.len() implies lookup(
                    offers,
                    #[trigger] names[j],
                ) is None by {
                    if j > 0 {
                        assert(rest[j - 1] == names[j]);
                    }
                }
            },
        }
    } else if names.len() > 0 {
        assert(names[0] == first_offered(offers, names)->0);
    }
}

/// Each plain text type that has no offer of its own reads on Wayland as the
/// text of the first type in their list that has one.
pub proof fn law_missing_text_reads_as_preferred(
    offers: Seq<OfferView>,
    mime_type: Seq<char>,
    preferred: int,
)
    requires
        0 <= preferred < 5,
    ensures
        ({
            let types = seq![
                "text/plain;charset=utf-8"@,
                "UTF8_STRING"@,
                "text/plain"@,
                "TEXT"@,
                "STRING"@,
            ];
            lookup(offers, types[preferred]) is Some && (forall|j: int|
                0 <= j < preferred ==> lookup(offers, #[trigger] types[j]) is None)
                && types.contains(mime_type) && lookup(offers, mime_type) is None ==> lookup(
                with_text_aliases(offers),
                mime_type,
            ) == lookup(offers, types[preferred])
        }),
{
    let types = seq![
        "text/plain;charset=utf-8"@,
        "UTF8_STRING"@,
        "text/plain"@,
        "TEXT"@,
        "STRING"@,
    ];
    assert(plain_text_names() =~= types);
    law_preferred_text(offers);
    law_text_reads_under_every_type(offers, mime_type);
    if lookup(offers, types[preferred]) is Some && (forall|j: int|
        0 <= j < preferred ==> lookup(offers, #[trigger] types[j]) is None) {
        let text_type = preferred_text_type(offers)->0;
        let k: int = choose|k: int|
            #![trigger types[k]]
            0 <= k < 5 && types[k] == text_type && lookup(offers, types[k]) is Some && forall|
                j: int,
            |
                0 <= j < k ==> lookup(offers, #[trigger] types[j]) is None;
        assert(lookup(offers, types[k]) is Some);
        assert(k == preferred);
    }
}

/// What is not plain text reads on Wayland as it is, and so does plain text that
/// has an offer of its own.
pub proof fn law_other_types_read_as_they_are(offers: Seq<OfferView>, mime_type: Seq<char>)
    requires
        lookup(offers, mime_type) is Some || !seq![
            "text/plain;charset=utf-8"@,
            "UTF8_STRING"@,
            "text/plain"@,
            "TEXT"@,
            "STRING"@,
        ].contains(mime_type),
    ensures
        lookup(with_text_aliases(offers), mime_type) == lookup(offers, mime_type),
{
    let types = seq![
        "text/plain;charset=utf-8"@,
        "UTF8_STRING"@,
        "text/plain"@,
        "TEXT"@,
        "STRING"@,
    ];
    assert(plain_text_names() =~= types);
    law_text_reads_under_every_type(offers, mime_type);
}

/// A name is that of content on X11 unless it is empty, holds a NUL character or
/// is one of the names that the protocol uses for itself.
pub proof fn law_x11_content_names(name: Seq<char>)
    ensures
        is_x11_target_name(name) <==> {
            &&& name.len() != 0
            &&& forall|i: int| 0 <= i < name.len() ==> #[trigger] name[i] != '\0'
            &&& name != "ATOM"@
            &&& name != "ATOM_PAIR"@
            &&& name != "DELETE"@
            &&& name != "INCR"@
            &&& name != "INSERT_PROPERTY"@
            &&& name != "INSERT_SELECTION"@
            &&& name != "MULTIPLE"@
            &&& name != "SAVE_TARGETS"@
            &&& name != "TARGETS"@
            &&& name != "TIMESTAMP"@
        },
{
    let names = x11_control_names();
    assert(names[0] == "ATOM"@);
    assert(names[1] == "ATOM_PAIR"@);
    assert(names[2] == "DELETE"@);
    assert(names[3] == "INCR"@);
    assert(names[4] == "INSERT_PROPERTY"@);
    assert(names[5] == "INSERT_SELECTION"@);
    assert(names[6] == "MULTIPLE"@);
    assert(names[7] == "SAVE_TARGETS"@);
    assert(names[8] == "TARGETS"@);
    assert(names[9] == "TIMESTAMP"@);
    assert(names.len() == 10);
}

/// An advertised target is served with the data of the offer of that type, or,
/// for `UTF8_STRING` where there is none, with that of the UTF-8 text. Targets
/// are advertised in ascending order.
pub proof fn law_x11_target_data(offers: Seq<OfferView>, list: Seq<(Seq<char>, int)>, index: int)
    requires
        strictly_ordered(offers),
        is_x11_target_list(offers, list),
        0 <= index < list.len(),
    ensures
        0 <= list[index].1 < offers.len(),
        lookup(offers, list[index].0) is Some ==> lookup(offers, list[index].0) == Some(
            offers[list[index].1].data,
        ),
        lookup(offers, list[index].0) is None ==> list[index].0 == "UTF8_STRING"@ && lookup(
            offers,
            "text/plain;charset=utf-8"@,
        ) == Some(offers[list[index].1].data),
        index + 1 < list.len() ==> name_precedes(list[index].0, list[index + 1].0),
{
    let (name, source) = list[index];
    assert(serves_x11_target(offers, name, source));
    lemma_lookup_ordered(offers, source);
    if index + 1 < list.len() {
        assert(name_precedes(list[index].0, list[index + 1].0));
    }
}

/// Offers are seen as they are.
pub proof fn law_offer_views(offers: Seq<Offer>, index: int)
    requires
        0 <= index < offers.len(),
    ensures
        offer_views(offers).len() == offers.len(),
        offer_views(offers)[index].mime_type == offers[index].mime_type@,
        offer_views(offers)[index].data == offers[index].data@,
{
}

/// Whether `name` can be offered as content on X11.
pub fn is_x11_target(name: &str) -> (offered: bool)
    ensures
        offered == is_x11_target_name(name@),
{
    if name.is_empty() || holds_nul(name) {
        return false;
    }
    let mut k: usize = 0;
    while k < 10
        invariant
            k <= 10,
            forall|j: int| 0 <= j < k ==> #[trigger] x11_control_names()[j] != name@,
        decreases 10 - k,
    {
        let control: &'static str = X11_CONTROL_TARGETS[k];
        assert(control@ == x11_control_names()[k as int]);
        if same_name(control, name) {
            return false;
        }
        k += 1;
    }
    true
}

/// Whether `text` holds a NUL character.
pub(crate) fn holds_nul(text: &str) -> (holds: bool)
    ensures
        holds == text@.contains('\0'),
{
    for c in iter: text.chars()
        invariant
            iter.seq() == text@,
            forall|i: int| 0 <= i < iter.index() ==> text@[i] != '\0',
    {
        assert(c == text@[iter.index()]);
        if c == '\0' {
            return true;
        }
    }
    false
}

/// Targets are seen as they are.
pub proof fn law_named_sources(targets: Seq<(&str, usize)>, index: int)
    requires
        0 <= index < targets.len(),
    ensures
        named_sources(targets).len() == targets.len(),
        named_sources(targets)[index].0 == targets[index].0@,
        named_sources(targets)[index].1 == targets[index].1,
{
}

} // verus!
