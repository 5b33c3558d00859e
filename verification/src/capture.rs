//! Capturing a complete snapshot, target by target, within the size limits.

use vstd::prelude::*;
use vstd::utf8::{decode_utf8, valid_utf8};

use crate::config::{target_limit_of, Config, ConfigView};
use crate::content::{
    is_normal_form, lemma_lookup_none, lemma_lookup_ordered, lemma_lookup_some, lemma_normal_form,
    lemma_normal_form_ordered, lemma_normal_form_total, lemma_ordered_types, lookup,
    strictly_ordered, total_len, types_of, OfferView,
};
use crate::property::{PropertyValue, ValueView};
use crate::snapshot::{
    holds_nul, is_x11_target, is_x11_target_name, lemma_total_len_prefix, offer_views,
    plain_text_names, with_text_aliases, Offer, Snapshot,
};
use crate::text::{
    ascending, comes_before, lemma_insert_ascending, lemma_name_total, lemma_name_transitive,
    name_precedes, same_name,
};
use crate::wayland::{law_publication_offers_aliases, offered, publishes};
use crate::wire::{decode_atoms_in, lemma_word_fits, word_of, words_of, ByteOrder};

verus! {

/// The largest number of targets that an X11 owner may advertise.
pub const MAX_TARGET_COUNT: usize = 4096;

/// The largest size of a list of targets, in bytes.
pub const TARGET_LIST_LIMIT: usize = MAX_TARGET_COUNT * 4;

/// Why an X11 clipboard cannot be captured completely.
pub enum X11CaptureError {
    /// The list of targets is not a list of atoms.
    NotAtoms,
    /// There are more than [`MAX_TARGET_COUNT`] targets.
    TooManyTargets,
    /// The data of this target is over its size limit.
    TargetTooLarge(String),
}

/// Why a Wayland clipboard cannot be captured completely.
#[derive(Clone, Copy, Debug, PartialEq, Eq, Structural)]
pub enum WaylandCaptureError {
    /// The data is over the size limit of a snapshot.
    TotalTooLarge,
}

impl WaylandCaptureError {
    /// What to tell the user.
    pub fn message(&self) -> (message: &'static str)
        ensures
            message@ == "Wayland clipboard exceeds its total size limit"@,
    {
        "Wayland clipboard exceeds its total size limit"
    }
}

/// Calls `String::from_utf8`: the bytes become a string exactly when they are
/// valid UTF-8, and then the one that they encode.
#[verifier::external_body]
fn string_from_utf8(bytes: Vec<u8>) -> (string: Option<String>)
    ensures
        match string {
            Some(string) => valid_utf8(bytes@) && string@ == decode_utf8(bytes@),
            None => !valid_utf8(bytes@),
        },
{
    String::from_utf8(bytes).ok()
}

/// The MIME type that the name of an atom stands for, where it is a target to
/// capture.
pub open spec fn target_name(name: Seq<u8>) -> Option<Seq<char>> {
    if valid_utf8(name) && is_x11_target_name(decode_utf8(name)) {
        Some(decode_utf8(name))
    } else {
        None
    }
}

/// The MIME types among the names of atoms, in their order.
pub open spec fn targets_named(names: Seq<Seq<u8>>) -> Seq<Seq<char>>
    decreases names.len(),
{
    if names.len() == 0 {
        seq![]
    } else {
        match target_name(names.last()) {
            Some(mime_type) => targets_named(names.drop_last()).push(mime_type),
            None => targets_named(names.drop_last()),
        }
    }
}

/// The model of an [`X11Capture`].
#[verifier::ext_equal]
pub struct X11CaptureView {
    pub config: ConfigView,
    /// The atoms of the targets.
    pub atoms: Seq<u32>,
    /// The names of the atoms that were dealt with, in their order.
    pub names: Seq<Seq<u8>>,
    /// What was captured, in the order of the atoms.
    pub offers: Seq<OfferView>,
}

/// Whether captured offers keep the size limits.
pub open spec fn within_limits(config: ConfigView, offers: Seq<OfferView>) -> bool {
    &&& total_len(offers) <= config.max_total_bytes
    &&& forall|i: int|
        0 <= i < offers.len() ==> (#[trigger] offers[i]).data.len() <= config.max_target_bytes
}

impl X11CaptureView {
    /// What holds at every stage of a capture: there is an offer for each
    /// target that was dealt with, and the offers keep the size limits.
    pub open spec fn valid(self) -> bool {
        &&& self.names.len() <= self.atoms.len()
        &&& types_of(self.offers) == targets_named(self.names)
        &&& within_limits(self.config, self.offers)
    }

    /// The capture once an atom of this name was passed over.
    pub open spec fn skipping(self, name: Seq<u8>) -> X11CaptureView {
        X11CaptureView { names: self.names.push(name), ..self }
    }

    /// The capture once the target that an atom of this name stands for was
    /// received.
    pub open spec fn taking(self, name: Seq<u8>, data: Seq<u8>) -> X11CaptureView {
        X11CaptureView {
            names: self.names.push(name),
            offers: self.offers.push(OfferView { mime_type: target_name(name)->0, data }),
            ..self
        }
    }

    /// The largest size to accept for the next target.
    pub open spec fn limit(self) -> int {
        target_limit_of(self.config, total_len(self.offers))
    }
}

/// A capture of the X11 clipboard under way.
pub struct X11Capture {
    config: Config,
    atoms: Vec<u32>,
    next: usize,
    offers: Vec<Offer>,
    total_bytes: usize,
    names: Ghost<Seq<Seq<u8>>>,
}

impl View for X11Capture {
    type V = X11CaptureView;

    closed spec fn view(&self) -> X11CaptureView {
        X11CaptureView {
            config: self.config@,
            atoms: self.atoms@,
            names: self.names@,
            offers: offer_views(self.offers@),
        }
    }
}

/// A capture that waits for the name of its next atom.
pub struct TargetQuery {
    capture: X11Capture,
}

impl View for TargetQuery {
    type V = X11CaptureView;

    closed spec fn view(&self) -> X11CaptureView {
        self.capture@
    }
}

/// A capture that waits for the data of a target.
pub struct TargetFetch {
    capture: X11Capture,
    mime_type: String,
    limit: usize,
    name: Ghost<Seq<u8>>,
}

/// The model of a [`TargetFetch`].
#[verifier::ext_equal]
pub struct FetchView {
    pub capture: X11CaptureView,
    /// The name of the atom of the target.
    pub name: Seq<u8>,
}

impl View for TargetFetch {
    type V = FetchView;

    closed spec fn view(&self) -> FetchView {
        FetchView { capture: self.capture@, name: self.name@ }
    }
}

/// A capture that dealt with every atom.
pub struct CompleteCapture {
    capture: X11Capture,
}

impl View for CompleteCapture {
    type V = X11CaptureView;

    closed spec fn view(&self) -> X11CaptureView {
        self.capture@
    }
}

/// What to do about the next target.
pub enum TargetStep {
    /// The content changed meanwhile: give up.
    Superseded,
    /// Ask for the name of an atom.
    Query(TargetQuery),
    /// There is no further target.
    Finished(CompleteCapture),
}

/// What the name of an atom asks for.
pub enum NameStep {
    /// It is not UTF-8, so that it is not to be captured: go on.
    NotText(X11Capture),
    /// This name is not that of content, so that it is not to be captured: go
    /// on.
    NotContent(X11Capture, String),
    /// Request the target.
    Fetch(TargetFetch),
}

/// The outcome of looking at the list of targets, read in the given order.
pub open spec fn capture_started(
    order: ByteOrder,
    config: ConfigView,
    targets: ValueView,
    result: Result<X11Capture, X11CaptureError>,
) -> bool {
    if targets.format != 32 {
        result matches Err(error) && error is NotAtoms
    } else if targets.exceeded_limit {
        result matches Err(error) && error is TooManyTargets
    } else {
        result matches Ok(capture) && capture@ == (X11CaptureView {
            config,
            atoms: words_of(order, targets.data),
            names: seq![],
            offers: seq![],
        })
    }
}

/// What comes next in a capture.
pub open spec fn turned_to_target(
    capture: X11CaptureView,
    superseded: bool,
    step: TargetStep,
) -> bool {
    if capture.names.len() == capture.atoms.len() {
        step matches TargetStep::Finished(complete) && complete@ == capture
    } else if superseded {
        step is Superseded
    } else {
        step matches TargetStep::Query(query) && query@ == capture
    }
}

/// What the name of an atom does to a capture.
pub open spec fn name_taken(capture: X11CaptureView, name: Seq<u8>, step: NameStep) -> bool {
    match step {
        NameStep::NotText(next) => {
            &&& !valid_utf8(name)
            &&& next@ == capture.skipping(name)
        },
        NameStep::NotContent(next, text) => {
            &&& valid_utf8(name)
            &&& text@ == decode_utf8(name)
            &&& !is_x11_target_name(text@)
            &&& next@ == capture.skipping(name)
        },
        NameStep::Fetch(fetch) => {
            &&& target_name(name) is Some
            &&& fetch@ == (FetchView { capture, name })
        },
    }
}

/// What a target that was received does to a capture.
pub open spec fn target_taken(
    fetch: FetchView,
    value: ValueView,
    result: Result<X11Capture, X11CaptureError>,
) -> bool {
    match result {
        Ok(capture) => {
            &&& !value.exceeded_limit
            &&& capture@ == fetch.capture.taking(fetch.name, value.data)
        },
        Err(error) => {
            &&& value.exceeded_limit
            &&& error matches X11CaptureError::TargetTooLarge(mime_type) && target_name(fetch.name)
                == Some(mime_type@)
        },
    }
}

/// What a complete capture comes to.
pub open spec fn capture_finished(
    capture: X11CaptureView,
    superseded: bool,
    snapshot: Option<Snapshot>,
) -> bool {
    match snapshot {
        Some(snapshot) => {
            &&& !superseded
            &&& capture.offers.len() > 0
            &&& is_normal_form(capture.offers, snapshot@)
            &&& snapshot.well_formed()
        },
        None => superseded || capture.offers.len() == 0,
    }
}

impl X11Capture {
    /// The capture is valid, and the counters are those of its lists.
    #[verifier::type_invariant]
    closed spec fn well_formed(self) -> bool {
        &&& self@.valid()
        &&& self.next == self@.names.len()
        &&& self.total_bytes == total_len(self@.offers)
    }

    /// Starts from the list of targets, read in the given order.
    pub fn begin_in(order: ByteOrder, config: Config, targets: &PropertyValue) -> (result: Result<
        Self,
        X11CaptureError,
    >)
        ensures
            capture_started(order, config@, targets@, result),
    {
        if targets.format != 32 {
            return Err(X11CaptureError::NotAtoms);
        }
        if targets.exceeded_limit {
            return Err(X11CaptureError::TooManyTargets);
        }
        let offers: Vec<Offer> = Vec::new();
        assert(offer_views(offers@) =~= seq![]);
        assert(types_of(seq![]) =~= targets_named(seq![]));
        Ok(
            X11Capture {
                config,
                atoms: decode_atoms_in(order, targets.data.as_slice()),
                next: 0,
                offers,
                total_bytes: 0,
                names: Ghost(Seq::empty()),
            },
        )
    }

    /// Starts from the list of targets, read in the order of this machine.
    pub fn begin(config: Config, targets: &PropertyValue) -> (result: Result<
        Self,
        X11CaptureError,
    >)
        ensures
            capture_started(ByteOrder::Little, config@, targets@, result) || capture_started(
                ByteOrder::Big,
                config@,
                targets@,
                result,
            ),
    {
        X11Capture::begin_in(ByteOrder::native(), config, targets)
    }

    /// Turns to the next target, unless the content was superseded.
    pub fn next_target(self, superseded: bool) -> (step: TargetStep)
        ensures
            turned_to_target(self@, superseded, step),
    {
        proof {
            use_type_invariant(&self);
        }
        if self.next == self.atoms.len() {
            TargetStep::Finished(CompleteCapture { capture: self })
        } else if superseded {
            TargetStep::Superseded
        } else {
            TargetStep::Query(TargetQuery { capture: self })
        }
    }
}

impl TargetQuery {
    /// There is a next atom.
    #[verifier::type_invariant]
    closed spec fn well_formed(self) -> bool {
        self@.names.len() < self@.atoms.len()
    }

    /// The atom whose name is asked for.
    pub fn atom(&self) -> (atom: u32)
        ensures
            self@.names.len() < self@.atoms.len(),
            atom == self@.atoms[self@.names.len() as int],
    {
        proof {
            use_type_invariant(self);
            use_type_invariant(&self.capture);
        }
        self.capture.atoms[self.capture.next]
    }

    /// Looks at the name of the atom.
    pub fn name(self, name: Vec<u8>) -> (step: NameStep)
        ensures
            name_taken(self@, name@, step),
    {
        proof {
            use_type_invariant(&self);
            use_type_invariant(&self.capture);
        }
        let ghost bytes = name@;
        let mime_type: String = match string_from_utf8(name) {
            Some(mime_type) => mime_type,
            None => return NameStep::NotText(self.capture.skip_target(Ghost(bytes))),
        };
        if !is_x11_target(mime_type.as_str()) {
            let capture: X11Capture = self.capture.skip_target(Ghost(bytes));
            return NameStep::NotContent(capture, mime_type);
        }
        let limit: usize = self.capture.config.target_limit(self.capture.total_bytes);
        NameStep::Fetch(
            TargetFetch { capture: self.capture, mime_type, limit, name: Ghost(bytes) },
        )
    }
}

impl X11Capture {
    /// Passes over an atom that is not to be captured.
    fn skip_target(self, name: Ghost<Seq<u8>>) -> (capture: Self)
        requires
            self@.names.len() < self@.atoms.len(),
            target_name(name@) is None,
        ensures
            capture@ == self@.skipping(name@),
    {
        proof {
            use_type_invariant(&self);
        }
        let X11Capture { config, atoms, next, offers, total_bytes, names } = self;
        let ghost dealt_with = names@.push(name@);
        assert(dealt_with.drop_last() =~= names@);
        assert(next < atoms.len());
        X11Capture { config, atoms, next: next + 1, offers, total_bytes, names: Ghost(dealt_with) }
    }
}

impl TargetFetch {
    /// The name is that of a target, and the limit is that of the next target.
    #[verifier::type_invariant]
    closed spec fn well_formed(self) -> bool {
        &&& self.capture@.names.len() < self.capture@.atoms.len()
        &&& target_name(self.name@) == Some(self.mime_type@)
        &&& self.limit == self.capture@.limit()
    }

    /// The target to request.
    pub fn atom(&self) -> (atom: u32)
        ensures
            self@.capture.names.len() < self@.capture.atoms.len(),
            atom == self@.capture.atoms[self@.capture.names.len() as int],
    {
        proof {
            use_type_invariant(self);
            use_type_invariant(&self.capture);
        }
        self.capture.atoms[self.capture.next]
    }

    /// The MIME type of the target.
    pub fn mime_type(&self) -> (mime_type: &str)
        ensures
            target_name(self@.name) == Some(mime_type@),
    {
        proof {
            use_type_invariant(self);
        }
        self.mime_type.as_str()
    }

    /// The largest size to accept for the target.
    pub fn limit(&self) -> (limit: usize)
        ensures
            limit == self@.capture.limit(),
    {
        proof {
            use_type_invariant(self);
        }
        self.limit
    }

    /// Takes in the target, which was requested with the limit
    /// [`Self::limit`].
    pub fn receive(self, value: PropertyValue) -> (result: Result<X11Capture, X11CaptureError>)
        requires
            value.exceeded_limit || value.data@.len() <= self@.capture.limit(),
        ensures
            target_taken(self@, value@, result),
            result matches Ok(capture) ==> capture@.valid(),
    {
        proof {
            use_type_invariant(&self);
            use_type_invariant(&self.capture);
            use_type_invariant(&self.capture.config);
        }
        let TargetFetch { capture, mime_type, limit: _, name } = self;
        if value.exceeded_limit {
            return Err(X11CaptureError::TargetTooLarge(mime_type));
        }
        let ghost before = capture@;
        let ghost offer = OfferView { mime_type: mime_type@, data: value.data@ };
        let X11Capture { config, atoms, next, mut offers, total_bytes, names } = capture;
        let total_bytes: usize = total_bytes + value.data.len();
        offers.push(Offer { mime_type, data: value.data });
        proof {
            assert(offer_views(offers@) =~= before.offers.push(offer));
            assert(before.offers.push(offer).drop_last() =~= before.offers);
            assert(next < atoms.len());
            law_target_keeps_limits(before, name@, value.data@);
        }
        Ok(
            X11Capture {
                config,
                atoms,
                next: next + 1,
                offers,
                total_bytes,
                names: Ghost(names@.push(name@)),
            },
        )
    }
}

/// A target that is received within the limit of its request keeps the capture
/// within all size limits.
pub proof fn law_target_keeps_limits(capture: X11CaptureView, name: Seq<u8>, data: Seq<u8>)
    requires
        capture.valid(),
        capture.names.len() < capture.atoms.len(),
        target_name(name) is Some,
        data.len() <= capture.limit(),
    ensures
        capture.taking(name, data).valid(),
{
    let after = capture.taking(name, data);
    assert(after.names.drop_last() =~= capture.names);
    assert(after.offers.drop_last() =~= capture.offers);
    assert(types_of(after.offers) =~= types_of(capture.offers).push(target_name(name)->0));
    assert forall|i: int| 0 <= i < after.offers.len() implies (
    #[trigger] after.offers[i]).data.len() <= capture.config.max_target_bytes by {
        if i < capture.offers.len() {
            assert(after.offers[i] == capture.offers[i]);
        }
    }
}

impl CompleteCapture {
    /// No atom is left.
    #[verifier::type_invariant]
    closed spec fn well_formed(self) -> bool {
        self@.names.len() == self@.atoms.len()
    }

    /// The snapshot of what was captured, unless it was superseded or there is
    /// nothing in it.
    pub fn finish(self, superseded: bool) -> (snapshot: Option<Snapshot>)
        ensures
            self@.valid(),
            self@.names.len() == self@.atoms.len(),
            capture_finished(self@, superseded, snapshot),
    {
        proof {
            use_type_invariant(&self);
            use_type_invariant(&self.capture);
        }
        if superseded || self.capture.offers.is_empty() {
            return None;
        }
        Some(Snapshot::new(self.capture.offers))
    }
}

/// The types of a list of names hold the type of each name, and nothing else.
proof fn lemma_targets_named(names: Seq<Seq<u8>>, mime_type: Seq<char>)
    ensures
        targets_named(names).contains(mime_type) <==> exists|i: int|
            0 <= i < names.len() && target_name(#[trigger] names[i]) == Some(mime_type),
    decreases names.len(),
{
    if names.len() > 0 {
        let rest = names.drop_last();
        let last = names.len() - 1;
        lemma_targets_named(rest, mime_type);
        if let Some(last_type) = target_name(names.last()) {
            lemma_push_contains(targets_named(rest), last_type, mime_type);
        }
        if targets_named(names).contains(mime_type) {
            if targets_named(rest).contains(mime_type) {
                let i: int = choose|i: int|
                    0 <= i < rest.len() && target_name(#[trigger] rest[i]) == Some(mime_type);
                assert(target_name(names[i]) == Some(mime_type));
            } else {
                assert(target_name(names[last]) == Some(mime_type));
            }
        }
        if exists|i: int|
            0 <= i < names.len() && target_name(#[trigger] names[i]) == Some(mime_type) {
            let i: int = choose|i: int|
                0 <= i < names.len() && target_name(#[trigger] names[i]) == Some(mime_type);
            if i < last {
                assert(target_name(rest[i]) == Some(mime_type));
            }
        }
    }
}

/// A capture that comes to its end is complete: the snapshot holds data for
/// every atom that names a target, and for nothing else. Each target is within
/// its size limit, and all of them together are within that of a snapshot.
pub proof fn law_x11_capture_complete(
    capture: X11CaptureView,
    snapshot: Seq<OfferView>,
    mime_type: Seq<char>,
)
    requires
        capture.valid(),
        capture.names.len() == capture.atoms.len(),
        is_normal_form(capture.offers, snapshot),
    ensures
        lookup(snapshot, mime_type) is Some <==> exists|i: int|
            0 <= i < capture.names.len() && target_name(#[trigger] capture.names[i]) == Some(
                mime_type,
            ),
        lookup(snapshot, mime_type) matches Some(data) ==> data.len()
            <= capture.config.max_target_bytes,
        total_len(snapshot) <= capture.config.max_total_bytes,
{
    let types = types_of(capture.offers);
    lemma_targets_named(capture.names, mime_type);
    lemma_lookup_none(capture.offers, mime_type);
    assert(lookup(snapshot, mime_type) == lookup(capture.offers, mime_type));
    if lookup(snapshot, mime_type) is Some {
        let i: int = lemma_lookup_some(capture.offers, mime_type);
        assert(types[i] == mime_type);
    }
    if types.contains(mime_type) {
        let i: int = choose|i: int| 0 <= i < types.len() && types[i] == mime_type;
        assert(capture.offers[i].mime_type == mime_type);
    }
    lemma_normal_form(capture.offers);
    lemma_normal_form_total(capture.offers);
}

/// A list of targets that is within its size limit names no more targets than
/// are allowed.
pub proof fn law_target_count(order: ByteOrder, targets: Seq<u8>)
    requires
        targets.len() <= TARGET_LIST_LIMIT,
    ensures
        words_of(order, targets).len() <= MAX_TARGET_COUNT,
{
}

/// Whether a MIME type can be received from Wayland.
pub open spec fn is_receivable(mime_type: Seq<char>) -> bool {
    mime_type.len() > 0 && !mime_type.contains('\0')
}

/// Whether a MIME type can be received from Wayland.
pub fn can_receive(mime_type: &str) -> (can: bool)
    ensures
        can == is_receivable(mime_type@),
{
    !mime_type.is_empty() && !holds_nul(mime_type)
}

/// The model of a [`WaylandCapture`].
#[verifier::ext_equal]
pub struct WaylandCaptureView {
    pub config: ConfigView,
    /// The MIME types to receive.
    pub names: Seq<Seq<char>>,
    /// What was received, in the order of the MIME types.
    pub offers: Seq<OfferView>,
}

impl WaylandCaptureView {
    /// What holds at every stage of a capture: the offers are those of the
    /// first MIME types, and keep the size limit of a snapshot.
    pub open spec fn valid(self) -> bool {
        &&& ascending(self.names)
        &&& self.offers.len() <= self.names.len()
        &&& forall|i: int|
            0 <= i < self.offers.len() ==> (#[trigger] self.offers[i]).mime_type == self.names[i]
        &&& total_len(self.offers) <= self.config.max_total_bytes
    }

    /// The capture once the data of the next MIME type was received.
    pub open spec fn receiving(self, data: Seq<u8>) -> WaylandCaptureView {
        WaylandCaptureView {
            offers: self.offers.push(
                OfferView { mime_type: self.names[self.offers.len() as int], data },
            ),
            ..self
        }
    }
}

/// A capture of the Wayland clipboard under way.
pub struct WaylandCapture {
    config: Config,
    names: Vec<String>,
    offers: Vec<Offer>,
    total_bytes: usize,
}

/// A capture that waits for the data of its next MIME type.
pub struct TypeFetch {
    capture: WaylandCapture,
}

impl View for TypeFetch {
    type V = WaylandCaptureView;

    closed spec fn view(&self) -> WaylandCaptureView {
        self.capture@
    }
}

/// What to do about the next MIME type.
pub enum TypeStep {
    /// Receive its data.
    Receive(TypeFetch),
    /// There is none left; this is what was captured, unless that is nothing.
    Finished(Option<Snapshot>),
}

/// The views of a list of names.
pub open spec fn name_views(names: Seq<String>) -> Seq<Seq<char>> {
    Seq::new(names.len(), |i: int| names[i]@)
}

impl View for WaylandCapture {
    type V = WaylandCaptureView;

    closed spec fn view(&self) -> WaylandCaptureView {
        WaylandCaptureView {
            config: self.config@,
            names: name_views(self.names@),
            offers: offer_views(self.offers@),
        }
    }
}

/// What comes next in a capture.
pub open spec fn turned_to_type(capture: WaylandCaptureView, step: TypeStep) -> bool {
    match step {
        TypeStep::Receive(fetch) => {
            &&& capture.offers.len() < capture.names.len()
            &&& fetch@ == capture
        },
        TypeStep::Finished(snapshot) => {
            &&& capture.offers.len() == capture.names.len()
            &&& match snapshot {
                Some(snapshot) => {
                    &&& capture.offers.len() > 0
                    &&& snapshot@ == capture.offers
                    &&& snapshot.well_formed()
                },
                None => capture.offers.len() == 0,
            }
        },
    }
}

/// What the data of the next MIME type does to a capture.
pub open spec fn data_taken(
    capture: WaylandCaptureView,
    data: Seq<u8>,
    result: Result<WaylandCapture, WaylandCaptureError>,
) -> bool {
    match result {
        Ok(next) => {
            &&& total_len(capture.offers) + data.len() <= capture.config.max_total_bytes
            &&& next@ == capture.receiving(data)
        },
        Err(_) => total_len(capture.offers) + data.len() > capture.config.max_total_bytes,
    }
}

impl WaylandCapture {
    /// The capture is valid, and the total is that of its offers.
    #[verifier::type_invariant]
    closed spec fn well_formed(self) -> bool {
        &&& self@.valid()
        &&& self.total_bytes == total_len(self@.offers)
    }

    /// Starts from the advertised MIME types: each one that can be received is
    /// received once, in ascending order.
    pub fn begin(config: Config, mime_types: Vec<String>) -> (capture: Self)
        ensures
            capture@.config == config@,
            capture@.offers == Seq::<OfferView>::empty(),
            ascending(capture@.names),
            forall|name: Seq<char>| #[trigger]
                capture@.names.contains(name) <==> is_receivable(name) && name_views(
                    mime_types@,
                ).contains(name),
    {
        let ghost given = name_views(mime_types@);
        let mut names: Vec<String> = Vec::new();
        let mut k: usize = 0;
        while k < mime_types.len()
            invariant
                k <= mime_types@.len(),
                given == name_views(mime_types@),
                ascending(name_views(names@)),
                forall|name: Seq<char>| #[trigger]
                    name_views(names@).contains(name) <==> is_receivable(name) && given.take(
                        k as int,
                    ).contains(name),
            decreases mime_types.len() - k,
        {
            let ghost before = name_views(names@);
            assert(given[k as int] == mime_types@[k as int]@);
            if can_receive(mime_types[k].as_str()) {
                add_name(&mut names, &mime_types[k]);
            }
            proof {
                let now = given.take(k + 1);
                assert(now =~= given.take(k as int).push(given[k as int]));
                assert forall|name: Seq<char>| #[trigger]
                    name_views(names@).contains(name) <==> is_receivable(name) && now.contains(
                        name,
                    ) by {
                    lemma_push_contains(given.take(k as int), given[k as int], name);
                    assert(before.contains(name) <==> is_receivable(name) && given.take(
                        k as int,
                    ).contains(name));
                }
            }
            k += 1;
        }
        assert(given.take(k as int) =~= given);
        let offers: Vec<Offer> = Vec::new();
        assert(offer_views(offers@) =~= seq![]);
        WaylandCapture { config, names, offers, total_bytes: 0 }
    }

    /// Turns to the next MIME type. Where there is none left the capture is
    /// complete.
    pub fn next_type(self) -> (step: TypeStep)
        ensures
            self@.valid(),
            turned_to_type(self@, step),
    {
        proof {
            use_type_invariant(&self);
        }
        if self.offers.len() < self.names.len() {
            return TypeStep::Receive(TypeFetch { capture: self });
        }
        if self.offers.is_empty() {
            return TypeStep::Finished(None);
        }
        let ghost capture = self@;
        let snapshot: Snapshot = Snapshot::new(self.offers);
        proof {
            lemma_received_ordered(capture.names, capture.offers);
            lemma_normal_form(capture.offers);
            lemma_normal_form_ordered(capture.offers);
        }
        TypeStep::Finished(Some(snapshot))
    }
}

impl TypeFetch {
    /// There is a next MIME type.
    #[verifier::type_invariant]
    closed spec fn well_formed(self) -> bool {
        self@.offers.len() < self@.names.len()
    }

    /// The MIME type to receive.
    pub fn mime_type(&self) -> (mime_type: &str)
        ensures
            self@.offers.len() < self@.names.len(),
            mime_type@ == self@.names[self@.offers.len() as int],
    {
        proof {
            use_type_invariant(self);
            use_type_invariant(&self.capture);
        }
        self.capture.names[self.capture.offers.len()].as_str()
    }

    /// Takes in the data of the MIME type, unless the snapshot would then be
    /// over its size limit.
    pub fn receive(self, data: Vec<u8>) -> (result: Result<WaylandCapture, WaylandCaptureError>)
        ensures
            data_taken(self@, data@, result),
            result matches Ok(capture) ==> capture@.valid(),
    {
        proof {
            use_type_invariant(&self);
            use_type_invariant(&self.capture);
        }
        let ghost before = self@;
        let WaylandCapture { config, names, mut offers, total_bytes } = self.capture;
        if data.len() > config.max_total_bytes() - total_bytes {
            return Err(WaylandCaptureError::TotalTooLarge);
        }
        let total_bytes: usize = total_bytes + data.len();
        let mime_type: String = names[offers.len()].clone();
        let ghost offer = OfferView { mime_type: mime_type@, data: data@ };
        offers.push(Offer { mime_type, data });
        proof {
            assert(offer_views(offers@) =~= before.offers.push(offer));
            assert(before.offers.push(offer).drop_last() =~= before.offers);
        }
        Ok(WaylandCapture { config, names, offers, total_bytes })
    }
}

/// A capture goes through exactly when all of its data together is within the
/// size limit of a snapshot, that limit included: then each MIME type in turn is
/// accepted, and else one of them is refused.
pub proof fn law_wayland_total_limit(config: ConfigView, offers: Seq<OfferView>)
    ensures
        total_len(offers) <= config.max_total_bytes <==> forall|k: int|
            #![trigger offers[k]]
            0 <= k < offers.len() ==> total_len(offers.take(k)) + offers[k].data.len()
                <= config.max_total_bytes,
{
    assert forall|k: int|
        #![trigger offers[k]]
        0 <= k < offers.len() && total_len(offers) <= config.max_total_bytes implies total_len(
        offers.take(k),
    ) + offers[k].data.len() <= config.max_total_bytes by {
        assert(offers.take(k + 1).drop_last() =~= offers.take(k));
        lemma_total_len_prefix(offers, k + 1);
    }
    if offers.len() > 0 {
        let last = offers.len() - 1;
        assert(offers.take(last) =~= offers.drop_last());
        assert(offers[last] == offers.last());
    }
}

/// A capture that comes to its end is complete: it holds data for every
/// advertised MIME type that can be received, and for nothing else, and all of
/// it together is within the size limit of a snapshot. Where the data of each
/// type was received with the limit that [`Config::target_limit`] gives for an
/// empty snapshot, each type is also within the size limit of a target.
pub proof fn law_wayland_capture_complete(
    advertised: Seq<Seq<char>>,
    capture: WaylandCaptureView,
    mime_type: Seq<char>,
)
    requires
        capture.valid(),
        forall|name: Seq<char>| #[trigger]
            capture.names.contains(name) <==> is_receivable(name) && advertised.contains(name),
        capture.offers.len() == capture.names.len(),
    ensures
        lookup(capture.offers, mime_type) is Some <==> is_receivable(mime_type)
            && advertised.contains(mime_type),
        total_len(capture.offers) <= capture.config.max_total_bytes,
        (forall|i: int|
            0 <= i < capture.offers.len() ==> (#[trigger] capture.offers[i]).data.len()
                <= target_limit_of(capture.config, 0)) ==> within_limits(
            capture.config,
            capture.offers,
        ),
{
    lemma_lookup_none(capture.offers, mime_type);
    if lookup(capture.offers, mime_type) is Some {
        let i: int = lemma_lookup_some(capture.offers, mime_type);
        assert(capture.names[i] == mime_type);
        assert(capture.names.contains(mime_type));
    }
    if capture.names.contains(mime_type) {
        let i: int = choose|i: int| 0 <= i < capture.names.len() && capture.names[i] == mime_type;
        assert(capture.offers[i].mime_type == mime_type);
    }
}

proof fn lemma_push_contains(names: Seq<Seq<char>>, last: Seq<char>, name: Seq<char>)
    ensures
        names.push(last).contains(name) <==> names.contains(name) || name == last,
{
    let after = names.push(last);
    if names.contains(name) {
        let i: int = choose|i: int| 0 <= i < names.len() && names[i] == name;
        assert(after[i] == name);
    }
    if name == last {
        assert(after[names.len() as int] == name);
    }
    if after.contains(name) && name != last {
        let i: int = choose|i: int| 0 <= i < after.len() && after[i] == name;
        assert(names[i] == name);
    }
}

/// What was published reads back: where every MIME type of a data source is
/// received with its data, what can be found in the capture is what
/// [`with_text_aliases`] says of the published content.
pub proof fn law_published_content_reads_back(
    content: Seq<OfferView>,
    sources: Seq<OfferView>,
    omit_additional: bool,
    capture: WaylandCaptureView,
    mime_type: Seq<char>,
)
    requires
        strictly_ordered(content),
        forall|i: int|
            0 <= i < content.len() ==> is_x11_target_name((#[trigger] content[i]).mime_type),
        publishes(content, sources, omit_additional),
        capture.valid(),
        forall|name: Seq<char>| #[trigger]
            capture.names.contains(name) <==> is_receivable(name) && lookup(
                offered(sources, omit_additional),
                name,
            ) is Some,
        capture.offers.len() == capture.names.len(),
        forall|i: int|
            0 <= i < capture.offers.len() ==> lookup(
                offered(sources, omit_additional),
                (#[trigger] capture.offers[i]).mime_type,
            ) == Some(capture.offers[i].data),
    ensures
        lookup(capture.offers, mime_type) == lookup(with_text_aliases(content), mime_type),
{
    let there = offered(sources, omit_additional);
    law_publication_offers_aliases(content, sources, omit_additional, mime_type);
    lemma_lookup_none(capture.offers, mime_type);
    if lookup(there, mime_type) is Some {
        lemma_aliased_receivable(content, mime_type);
        assert(capture.names.contains(mime_type));
        let i: int = choose|i: int| 0 <= i < capture.names.len() && capture.names[i] == mime_type;
        assert(capture.offers[i].mime_type == mime_type);
        lemma_received_ordered(capture.names, capture.offers);
        lemma_lookup_ordered(capture.offers, i);
    } else if lookup(capture.offers, mime_type) is Some {
        let i: int = lemma_lookup_some(capture.offers, mime_type);
        assert(lookup(there, capture.offers[i].mime_type) is Some);
    }
}

/// What X11 content offers on Wayland can be received there.
proof fn lemma_aliased_receivable(content: Seq<OfferView>, mime_type: Seq<char>)
    requires
        forall|i: int|
            0 <= i < content.len() ==> is_x11_target_name((#[trigger] content[i]).mime_type),
        lookup(with_text_aliases(content), mime_type) is Some,
    ensures
        is_receivable(mime_type),
{
    let all = with_text_aliases(content);
    let i: int = lemma_lookup_some(all, mime_type);
    if i < content.len() {
        assert(all[i] == content[i]);
    } else {
        let names = plain_text_names();
        assert(mime_type == names[i - content.len()]);
        reveal_strlit("text/plain;charset=utf-8");
        reveal_strlit("UTF8_STRING");
        reveal_strlit("text/plain");
        reveal_strlit("TEXT");
        reveal_strlit("STRING");
        assert forall|k: int| 0 <= k < mime_type.len() implies mime_type[k] != '\0' by {
            assert(mime_type[k] != '\0');
        }
    }
}

/// Offers under ascending names are strictly ordered.
proof fn lemma_received_ordered(names: Seq<Seq<char>>, offers: Seq<OfferView>)
    requires
        ascending(names),
        offers.len() <= names.len(),
        forall|i: int|
            0 <= i < offers.len() ==> (#[trigger] offers[i]).mime_type == names[i],
    ensures
        strictly_ordered(offers),
{
    assert(types_of(offers) =~= names.take(offers.len() as int));
    lemma_ordered_types(offers);
}

/// Adds a name to ascending names, unless it is among them.
fn add_name(names: &mut Vec<String>, name: &String)
    requires
        ascending(name_views(old(names)@)),
    ensures
        ascending(name_views(final(names)@)),
        forall|other: Seq<char>| #[trigger]
            name_views(final(names)@).contains(other) <==> name_views(old(names)@).contains(other)
                || other == name@,
{
    let ghost before = name_views(names@);
    let mut slot: usize = names.len();
    while slot > 0 && comes_before(name.as_str(), names[slot - 1].as_str())
        invariant
            name_views(names@) == before,
            names@.len() == before.len(),
            names@ == old(names)@,
            slot <= before.len(),
            forall|i: int|
                slot <= i < before.len() ==> name_precedes(name@, #[trigger] before[i]),
        decreases slot,
    {
        slot -= 1;
    }
    if slot > 0 && same_name(name.as_str(), names[slot - 1].as_str()) {
        assert(before[slot - 1] == name@);
        assert(before.contains(name@));
        return ;
    }
    proof {
        assert forall|i: int| 0 <= i < slot implies name_precedes(#[trigger] before[i], name@) by {
            let last = slot - 1;
            lemma_name_total(before[last], name@);
            if i < last {
                lemma_name_transitive(before[i], before[last], name@);
            }
        }
    }
    names.insert(slot, name.clone());
    proof {
        let after = name_views(names@);
        assert(after =~= before.insert(slot as int, name@));
        lemma_insert_ascending(before, slot as int, name@);
        assert forall|other: Seq<char>| #[trigger]
            after.contains(other) <==> before.contains(other) || other == name@ by {
            if before.contains(other) {
                let i: int = choose|i: int| 0 <= i < before.len() && before[i] == other;
                let to = if i < slot { i } else { i + 1 };
                assert(after[to] == other);
            }
            if other == name@ {
                assert(after[slot as int] == other);
            }
            if after.contains(other) && other != name@ {
                let i: int = choose|i: int| 0 <= i < after.len() && after[i] == other;
                let from = if i < slot { i } else { i - 1 };
                assert(before[from] == other);
            }
        }
    }
}

/// The list of targets is accepted exactly when it is a list of 32-bit atoms
/// within its limit: then each four bytes of it are an atom, and nothing was
/// captured yet.
pub proof fn law_capture_starts(
    order: ByteOrder,
    config: ConfigView,
    targets: ValueView,
    result: Result<X11Capture, X11CaptureError>,
)
    requires
        capture_started(order, config, targets, result),
    ensures
        result is Ok <==> targets.format == 32 && !targets.exceeded_limit,
        result matches Err(error) ==> (error is NotAtoms <==> targets.format != 32)
            && (error is TooManyTargets <==> targets.format == 32),
        result matches Ok(capture) ==> {
            &&& capture@.config == config
            &&& capture@.names.len() == 0
            &&& capture@.offers.len() == 0
            &&& capture@.atoms.len() == targets.data.len() as int / 4
            &&& forall|i: int|
                #![trigger capture@.atoms[i]]
                0 <= i < capture@.atoms.len() ==> capture@.atoms[i] == word_of(
                    order,
                    targets.data.subrange(4 * i, 4 * i + 4),
                )
        },
{
    if let Ok(capture) = result {
        assert forall|i: int|
            #![trigger capture@.atoms[i]]
            0 <= i < capture@.atoms.len() implies capture@.atoms[i] == word_of(
            order,
            targets.data.subrange(4 * i, 4 * i + 4),
        ) by {
            lemma_word_fits(order, targets.data.subrange(4 * i, 4 * i + 4));
        }
    }
}

/// A capture is given up only where it was superseded before its end, and comes
/// to its end exactly when no atom is left. Until then it asks for the name of
/// one atom after the other.
pub proof fn law_capture_goes_on(capture: X11CaptureView, superseded: bool, step: TargetStep)
    requires
        turned_to_target(capture, superseded, step),
        capture.names.len() <= capture.atoms.len(),
    ensures
        step is Finished <==> capture.names.len() == capture.atoms.len(),
        step is Superseded <==> superseded && capture.names.len() < capture.atoms.len(),
        step matches TargetStep::Finished(complete) ==> complete@ == capture,
        step matches TargetStep::Query(query) ==> query@ == capture,
{
}

/// No target is passed over: an atom whose name is UTF-8 and that of content is
/// fetched, and any other one is not.
pub proof fn law_every_target_is_fetched(capture: X11CaptureView, name: Seq<u8>, step: NameStep)
    requires
        name_taken(capture, name, step),
    ensures
        step is Fetch <==> valid_utf8(name) && is_x11_target_name(decode_utf8(name)),
        step is NotText <==> !valid_utf8(name),
        step matches NameStep::Fetch(fetch) ==> fetch@.capture == capture && fetch@.name == name,
        step matches NameStep::NotText(next) ==> next@.offers == capture.offers
            && next@.names.drop_last() == capture.names && next@.atoms == capture.atoms
            && next@.config == capture.config && next@.names.len() == capture.names.len() + 1,
        step matches NameStep::NotContent(next, _) ==> next@.offers == capture.offers
            && next@.names.drop_last() == capture.names && next@.atoms == capture.atoms
            && next@.config == capture.config && next@.names.len() == capture.names.len() + 1,
        step matches NameStep::NotContent(_, text) ==> text@ == decode_utf8(name),
        target_name(name) is Some <==> valid_utf8(name) && is_x11_target_name(decode_utf8(name)),
        target_name(name) is Some ==> target_name(name)->0 == decode_utf8(name),
{
    assert(capture.names.push(name).drop_last() =~= capture.names);
}

/// A target that was received is refused exactly when it is over its limit, and
/// the error names it. Otherwise it is added with its MIME type and all of its
/// data, behind what was captured before.
pub proof fn law_target_is_added(
    fetch: FetchView,
    value: ValueView,
    result: Result<X11Capture, X11CaptureError>,
)
    requires
        target_taken(fetch, value, result),
        target_name(fetch.name) is Some,
    ensures
        result is Err <==> value.exceeded_limit,
        result matches Err(error) ==> error is TargetTooLarge && error->TargetTooLarge_0@
            == decode_utf8(fetch.name),
        result matches Ok(capture) ==> {
            &&& capture@.offers.len() == fetch.capture.offers.len() + 1
            &&& capture@.offers.drop_last() == fetch.capture.offers
            &&& capture@.offers.last().mime_type == decode_utf8(fetch.name)
            &&& capture@.offers.last().data == value.data
            &&& capture@.names.drop_last() == fetch.capture.names
            &&& capture@.names.last() == fetch.name
            &&& capture@.atoms == fetch.capture.atoms
            &&& capture@.config == fetch.capture.config
        },
{
    if let Ok(capture) = result {
        assert(capture@.offers.drop_last() =~= fetch.capture.offers);
        assert(capture@.names.drop_last() =~= fetch.capture.names);
    }
}

/// What is found under a MIME type while atoms are dealt with.
proof fn lemma_captured_data(
    captures: Seq<X11CaptureView>,
    names: Seq<Seq<u8>>,
    data: Seq<Seq<u8>>,
    index: int,
    count: nat,
)
    requires
        captures.len() == names.len() + 1,
        data.len() == names.len(),
        captures[0].offers.len() == 0,
        forall|k: int|
            #![trigger names[k]]
            0 <= k < names.len() ==> captures[k + 1] == if target_name(names[k]) is Some {
                captures[k].taking(names[k], data[k])
            } else {
                captures[k].skipping(names[k])
            },
        0 <= index < names.len(),
        target_name(names[index]) is Some,
        forall|k: int|
            0 <= k < index ==> target_name(#[trigger] names[k]) != target_name(names[index]),
        count <= names.len(),
    ensures
        lookup(captures[count as int].offers, target_name(names[index])->0) == (if count > index {
            Some(data[index])
        } else {
            None
        }),
    decreases count,
{
    if count > 0 {
        let k = count - 1;
        lemma_captured_data(captures, names, data, index, k as nat);
        let before = captures[k];
        assert(captures[k + 1] == if target_name(names[k]) is Some {
            before.taking(names[k], data[k])
        } else {
            before.skipping(names[k])
        });
        if target_name(names[k]) is Some {
            let offer = OfferView { mime_type: target_name(names[k])->0, data: data[k] };
            assert(before.offers.push(offer).drop_last() =~= before.offers);
        }
    }
}

/// A snapshot holds what was received: where atoms are dealt with one after the
/// other, each that names a target with the data that was received for it, the
/// snapshot has under the MIME type of each target all of the data of the first
/// atom that names it.
pub proof fn law_x11_snapshot_holds_what_was_received(
    captures: Seq<X11CaptureView>,
    names: Seq<Seq<u8>>,
    data: Seq<Seq<u8>>,
    snapshot: Seq<OfferView>,
    index: int,
)
    requires
        captures.len() == names.len() + 1,
        data.len() == names.len(),
        captures[0].offers.len() == 0,
        forall|k: int|
            #![trigger names[k]]
            0 <= k < names.len() ==> captures[k + 1] == if target_name(names[k]) is Some {
                captures[k].taking(names[k], data[k])
            } else {
                captures[k].skipping(names[k])
            },
        is_normal_form(captures.last().offers, snapshot),
        0 <= index < names.len(),
        valid_utf8(names[index]),
        is_x11_target_name(decode_utf8(names[index])),
        forall|k: int|
            0 <= k < index && valid_utf8(#[trigger] names[k]) ==> decode_utf8(names[k])
                != decode_utf8(names[index]),
    ensures
        lookup(snapshot, decode_utf8(names[index])) == Some(data[index]),
{
    let mime_type = decode_utf8(names[index]);
    lemma_captured_data(captures, names, data, index, names.len());
    assert(lookup(snapshot, mime_type) == lookup(captures.last().offers, mime_type));
}

/// A complete capture gives a snapshot exactly when it was not superseded and
/// something was captured.
pub proof fn law_complete_capture_is_delivered(
    capture: X11CaptureView,
    superseded: bool,
    snapshot: Option<Snapshot>,
)
    requires
        capture_finished(capture, superseded, snapshot),
    ensures
        snapshot is Some <==> !superseded && capture.offers.len() != 0,
        snapshot matches Some(snapshot) ==> is_normal_form(capture.offers, snapshot@),
{
}

/// A MIME type can be received unless it is empty or holds a NUL character.
pub proof fn law_receivable_types(mime_type: Seq<char>)
    ensures
        is_receivable(mime_type) <==> mime_type.len() != 0 && forall|i: int|
            0 <= i < mime_type.len() ==> #[trigger] mime_type[i] != '\0',
{
}

/// A Wayland capture receives one MIME type after the other and comes to its end
/// exactly when none is left; then it gives what was received, as it is, unless
/// that is nothing.
pub proof fn law_wayland_capture_goes_on(capture: WaylandCaptureView, step: TypeStep)
    requires
        turned_to_type(capture, step),
        capture.valid(),
    ensures
        step is Finished <==> capture.offers.len() == capture.names.len(),
        step matches TypeStep::Receive(fetch) ==> fetch@ == capture,
        step matches TypeStep::Finished(snapshot) ==> {
            &&& (snapshot is Some <==> capture.offers.len() != 0)
            &&& snapshot matches Some(snapshot) ==> snapshot@ == capture.offers
        },
{
}

/// The data of a MIME type is refused exactly when it does not fit into what is
/// left of the size limit. Otherwise it is added as it is, behind what was
/// received before.
pub proof fn law_received_data_is_added(
    capture: WaylandCaptureView,
    data: Seq<u8>,
    result: Result<WaylandCapture, WaylandCaptureError>,
)
    requires
        data_taken(capture, data, result),
        capture.offers.len() < capture.names.len(),
    ensures
        result is Err <==> data.len() > capture.config.max_total_bytes - total_len(capture.offers),
        result matches Ok(next) ==> {
            &&& next@.offers.len() == capture.offers.len() + 1
            &&& next@.offers.drop_last() == capture.offers
            &&& next@.offers.last().mime_type == capture.names[capture.offers.len() as int]
            &&& next@.offers.last().data == data
            &&& next@.names == capture.names
            &&& next@.config == capture.config
        },
{
    if let Ok(next) = result {
        assert(next@.offers.drop_last() =~= capture.offers);
    }
}

/// A Wayland snapshot holds what was received: where the data of one MIME type
/// after the other is received, all of it is then found under its type.
pub proof fn law_wayland_snapshot_holds_what_was_received(
    captures: Seq<WaylandCaptureView>,
    data: Seq<Seq<u8>>,
    index: int,
)
    requires
        captures.len() == data.len() + 1,
        captures[0].offers.len() == 0,
        ascending(captures[0].names),
        captures[0].names.len() == data.len(),
        forall|k: int|
            #![trigger data[k]]
            0 <= k < data.len() ==> captures[k + 1] == captures[k].receiving(data[k]),
        0 <= index < data.len(),
    ensures
        captures.last().names == captures[0].names,
        captures.last().offers.len() == data.len(),
        lookup(captures.last().offers, captures[0].names[index]) == Some(data[index]),
{
    lemma_received_data(captures, data, data.len());
    let last = captures.last();
    lemma_received_ordered(last.names, last.offers);
    lemma_lookup_ordered(last.offers, index);
}

proof fn lemma_received_data(
    captures: Seq<WaylandCaptureView>,
    data: Seq<Seq<u8>>,
    count: nat,
)
    requires
        captures.len() == data.len() + 1,
        captures[0].offers.len() == 0,
        forall|k: int|
            #![trigger data[k]]
            0 <= k < data.len() ==> captures[k + 1] == captures[k].receiving(data[k]),
        count <= data.len(),
    ensures
        captures[count as int].names == captures[0].names,
        captures[count as int].offers.len() == count,
        forall|i: int|
            0 <= i < count ==> (#[trigger] captures[count as int].offers[i]) == (OfferView {
                mime_type: captures[0].names[i],
                data: data[i],
            }),
    decreases count,
{
    if count > 0 {
        let k = count - 1;
        lemma_received_data(captures, data, k as nat);
        assert(captures[k + 1] == captures[k].receiving(data[k]));
    }
}

/// As much of the next target may be received as keeps it within the limit of
/// a target and all targets together within that of a snapshot.
pub proof fn law_capture_limit(capture: X11CaptureView, size: int)
    requires
        capture.valid(),
        size >= 0,
    ensures
        size <= capture.limit() <==> size <= capture.config.max_target_bytes && total_len(
            capture.offers,
        ) + size <= capture.config.max_total_bytes,
{
}

/// Names are seen as they are.
pub proof fn law_name_views(names: Seq<String>, index: int)
    requires
        0 <= index < names.len(),
    ensures
        name_views(names).len() == names.len(),
        name_views(names)[index] == names[index]@,
{
}

} // verus!
