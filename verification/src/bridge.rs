//! The X11 side of the bridge: serving the selection it owns and remembering
//! changes by others.

use std::collections::HashMap;
use std::rc::Rc;

use vstd::prelude::*;

use crate::content::OfferView;
use crate::events::{SelectionChange, SelectionNotify, SelectionRequest, X11Event};
use crate::property::NONE;
use crate::snapshot::{
    is_x11_target_list, lemma_x11_target_list, named_sources, offer_views, serves_x11_target,
    x11_target_list, Offer, Snapshot,
};

verus! {

/// The atoms that the bridge uses.
#[derive(Clone, Copy, Debug, PartialEq, Eq, Structural)]
pub struct Atoms {
    pub clipboard: u32,
    pub incr: u32,
    pub property: u32,
    pub targets: u32,
}

/// An advertised target and the offer that serves it.
#[derive(Clone, Copy, Debug, PartialEq, Eq, Structural)]
pub struct OwnedTarget {
    pub atom: u32,
    pub source: usize,
}

/// The model of an [`OwnedSelection`].
#[verifier::ext_equal]
pub struct OwnedView {
    pub content: Seq<OfferView>,
    pub targets: Seq<OwnedTarget>,
}

/// A snapshot that the bridge offers to other X11 clients.
pub struct OwnedSelection {
    snapshot: Rc<Snapshot>,
    targets: Vec<OwnedTarget>,
}

impl View for OwnedSelection {
    type V = OwnedView;

    closed spec fn view(&self) -> OwnedView {
        OwnedView { content: self.snapshot@, targets: self.targets@ }
    }
}

impl OwnedSelection {
    #[verifier::type_invariant]
    spec fn well_formed(self) -> bool {
        forall|i: int|
            0 <= i < self.targets@.len() ==> (#[trigger] self.targets@[i]).source
                < self.snapshot@.len()
    }
}

/// The data of one offer of a shared snapshot.
pub struct SharedData {
    snapshot: Rc<Snapshot>,
    source: usize,
}

impl View for SharedData {
    type V = Seq<u8>;

    closed spec fn view(&self) -> Seq<u8> {
        self.snapshot@[self.source as int].data
    }
}

impl SharedData {
    #[verifier::type_invariant]
    spec fn well_formed(self) -> bool {
        self.source < self.snapshot@.len()
    }

    /// The data itself.
    pub fn bytes(&self) -> (bytes: &[u8])
        ensures
            bytes@ == self@,
    {
        proof {
            use_type_invariant(self);
        }
        let offers: &[Offer] = self.snapshot.offers();
        let offer: &Offer = &offers[self.source];
        assert(offer_views(offers@)[self.source as int].data == offer.data@);
        offer.data.as_slice()
    }
}

/// The model of an [`IncrTransfer`].
#[verifier::ext_equal]
pub struct IncrView {
    pub data: Seq<u8>,
    /// How many bytes were sent.
    pub offset: nat,
    pub target: u32,
}

/// Data that is sent chunk by chunk.
pub struct IncrTransfer {
    content: SharedData,
    offset: usize,
    target: u32,
}

impl View for IncrTransfer {
    type V = IncrView;

    closed spec fn view(&self) -> IncrView {
        IncrView { data: self.content@, offset: self.offset as nat, target: self.target }
    }
}

impl IncrTransfer {
    #[verifier::type_invariant]
    spec fn well_formed(self) -> bool {
        self.offset <= self.content@.len()
    }
}

/// What to write into the property of a requestor.
pub enum PropertyWrite {
    /// The list of targets.
    Targets(Vec<u32>),
    /// The data of the target.
    Data(SharedData),
    /// The announcement of an incremental transfer of this data.
    Incremental(SharedData, u32),
}

/// The model of a [`PropertyWrite`].
#[verifier::ext_equal]
pub enum WriteView {
    Targets(Seq<u32>),
    Data(Seq<u8>),
    Incremental(Seq<u8>, u32),
}

impl View for PropertyWrite {
    type V = WriteView;

    open spec fn view(&self) -> WriteView {
        match *self {
            PropertyWrite::Targets(atoms) => WriteView::Targets(atoms@),
            PropertyWrite::Data(data) => WriteView::Data(data@),
            PropertyWrite::Incremental(data, size) => WriteView::Incremental(data@, size),
        }
    }
}

/// Why a request for the selection is refused.
#[derive(Clone, Copy, Debug, PartialEq, Eq, Structural)]
pub enum RequestError {
    /// The bridge does not own the selection.
    NotOwned,
    /// The target is not among those advertised.
    NotOffered,
    /// The data is larger than the protocol can announce.
    TooLarge,
}

impl RequestError {
    /// What to tell the user.
    pub fn message(&self) -> (message: &'static str)
        ensures
            message@ == match *self {
                RequestError::NotOwned =>
                    "X11 selection request arrived without owned clipboard data"@,
                RequestError::NotOffered => "requested X11 target is not offered"@,
                RequestError::TooLarge =>
                    "X11 INCR transfer is larger than the protocol can announce"@,
            },
    {
        match *self {
            RequestError::NotOwned => "X11 selection request arrived without owned clipboard data",
            RequestError::NotOffered => "requested X11 target is not offered",
            RequestError::TooLarge => "X11 INCR transfer is larger than the protocol can announce",
        }
    }
}

/// What to do about a request for the selection.
pub enum RequestStep {
    /// Write this, then report the outcome.
    Write(PropertyWrite),
    /// Answer at once: the requestor named no property.
    Notify(SelectionNotify),
    /// Answer at once that the request is refused.
    Refuse(RequestError, SelectionNotify),
}

/// A chunk of an incremental transfer to write.
pub struct IncrChunk {
    window: u32,
    atom: u32,
    transfer: IncrTransfer,
    end: usize,
}

/// The model of an [`IncrChunk`].
#[verifier::ext_equal]
pub struct ChunkView {
    pub window: u32,
    pub atom: u32,
    pub transfer: IncrView,
    pub end: nat,
}

impl View for IncrChunk {
    type V = ChunkView;

    closed spec fn view(&self) -> ChunkView {
        ChunkView {
            window: self.window,
            atom: self.atom,
            transfer: self.transfer@,
            end: self.end as nat,
        }
    }
}

impl ChunkView {
    /// The bytes to write.
    pub open spec fn bytes(self) -> Seq<u8> {
        self.transfer.data.subrange(self.transfer.offset as int, self.end as int)
    }
}

impl IncrChunk {
    #[verifier::type_invariant]
    pub open spec fn well_formed(self) -> bool {
        self@.transfer.offset <= self@.end <= self@.transfer.data.len()
    }

    /// The bytes to write.
    pub fn bytes(&self) -> (bytes: &[u8])
        ensures
            bytes@ == self@.bytes(),
    {
        proof {
            use_type_invariant(self);
        }
        vstd::slice::slice_subrange(self.transfer.content.bytes(), self.transfer.offset, self.end)
    }

    /// The window to write to.
    pub fn window(&self) -> (window: u32)
        ensures
            window == self@.window,
    {
        self.window
    }

    /// The property to write to.
    pub fn atom(&self) -> (atom: u32)
        ensures
            atom == self@.atom,
    {
        self.atom
    }

    /// The target that is the type of the property.
    pub fn target(&self) -> (target: u32)
        ensures
            target == self@.transfer.target,
    {
        self.transfer.target
    }
}

/// What follows the writing of a chunk.
#[derive(Clone, Copy, Debug, PartialEq, Eq, Structural)]
pub enum ChunkOutcome {
    /// The transfer goes on when the requestor has taken the chunk.
    Continues,
    /// The transfer is complete, another one to that window goes on.
    Complete,
    /// The transfer is complete and the window needs no watching any more.
    CompleteLast,
}

/// What an event asks for.
pub enum EventAction {
    /// Nothing more.
    Nothing,
    /// Deal with a request for the selection.
    Serve(SelectionRequest, RequestStep),
    /// Write a chunk.
    Advance(IncrChunk),
}

/// The model of a [`ClipboardBridge`].
#[verifier::ext_equal]
pub struct BridgeView {
    pub window: u32,
    pub atoms: Atoms,
    /// The largest number of bytes that fit into one property.
    pub max_property_bytes: nat,
    /// The last change by another client that was not dealt with.
    pub pending_change: Option<SelectionChange>,
    pub owned: Option<OwnedView>,
    /// The incremental transfers, by window and property.
    pub transfers: Map<(u32, u32), IncrView>,
}

/// The state of the X11 side.
pub struct ClipboardBridge {
    window: u32,
    atoms: Atoms,
    max_property_bytes: usize,
    pending_change: Option<SelectionChange>,
    owned: Option<OwnedSelection>,
    incr_transfers: HashMap<u64, IncrTransfer>,
}

/// The key of the transfer to a property of a window.
spec fn key_of(window: u32, atom: u32) -> u64 {
    (window * 4294967296 + atom) as u64
}

fn transfer_key(window: u32, atom: u32) -> (key: u64)
    ensures
        key == key_of(window, atom),
        key == window * 4294967296 + atom,
{
    window as u64 * 4294967296 + atom as u64
}

proof fn lemma_key_injective(window: u32, atom: u32, other_window: u32, other_atom: u32)
    ensures
        key_of(window, atom) == window * 4294967296 + atom,
        key_of(window, atom) == key_of(other_window, other_atom) ==> window == other_window && atom
            == other_atom,
{
}

/// The transfers that a table of keys stands for.
spec fn transfers_of(table: Map<u64, IncrTransfer>) -> Map<(u32, u32), IncrView> {
    Map::new(
        |place: (u32, u32)| table.contains_key(key_of(place.0, place.1)),
        |place: (u32, u32)| table[key_of(place.0, place.1)]@,
    )
}

impl View for ClipboardBridge {
    type V = BridgeView;

    closed spec fn view(&self) -> BridgeView {
        BridgeView {
            window: self.window,
            atoms: self.atoms,
            max_property_bytes: self.max_property_bytes as nat,
            pending_change: self.pending_change,
            owned: match self.owned {
                Some(owned) => Some(owned@),
                None => None,
            },
            transfers: transfers_of(self.incr_transfers@),
        }
    }
}

/// The first target with the given atom.
pub open spec fn find_target(targets: Seq<OwnedTarget>, atom: u32) -> Option<OwnedTarget>
    decreases targets.len(),
{
    if targets.len() == 0 {
        None
    } else if targets[0].atom == atom {
        Some(targets[0])
    } else {
        find_target(targets.drop_first(), atom)
    }
}

/// The atoms of targets.
pub open spec fn target_atoms(targets: Seq<OwnedTarget>) -> Seq<u32> {
    targets.map_values(|target: OwnedTarget| target.atom)
}

/// What a request for the selection is served with.
pub open spec fn served(bridge: BridgeView, target: u32) -> Result<WriteView, RequestError> {
    match bridge.owned {
        None => Err(RequestError::NotOwned),
        Some(owned) => if target == bridge.atoms.targets {
            Ok(WriteView::Targets(seq![bridge.atoms.targets] + target_atoms(owned.targets)))
        } else {
            match find_target(owned.targets, target) {
                None => Err(RequestError::NotOffered),
                Some(found) => {
                    let data = owned.content[found.source as int].data;
                    if data.len() <= bridge.max_property_bytes {
                        Ok(WriteView::Data(data))
                    } else if data.len() <= u32::MAX {
                        Ok(WriteView::Incremental(data, data.len() as u32))
                    } else {
                        Err(RequestError::TooLarge)
                    }
                },
            }
        },
    }
}

/// The answer to `request` with the given property.
pub open spec fn answer(request: SelectionRequest, property: u32) -> SelectionNotify {
    SelectionNotify {
        time: request.time,
        requestor: request.requestor,
        selection: request.selection,
        target: request.target,
        property,
    }
}

/// What is to be done about a request.
pub open spec fn request_step_of(
    bridge: BridgeView,
    request: SelectionRequest,
    step: RequestStep,
) -> bool {
    if request.property == NONE {
        step matches RequestStep::Notify(notify) && notify == answer(request, NONE)
    } else {
        match served(bridge, request.target) {
            Ok(expected) => step matches RequestStep::Write(write) && write@ == expected,
            Err(error) => step == RequestStep::Refuse(error, answer(request, NONE)),
        }
    }
}

/// The bridge once the outcome of a write is known: where an announcement was
/// written, the transfer begins.
pub open spec fn after_write(
    bridge: BridgeView,
    request: SelectionRequest,
    write: WriteView,
    written: bool,
) -> BridgeView {
    match write {
        WriteView::Incremental(data, _) if written => BridgeView {
            transfers: bridge.transfers.insert(
                (request.requestor, request.property),
                IncrView { data, offset: 0, target: request.target },
            ),
            ..bridge
        },
        _ => bridge,
    }
}

/// Where the chunk ends that follows the first `offset` bytes.
pub open spec fn chunk_end(transfer: IncrView, max_property_bytes: nat) -> nat {
    if transfer.data.len() - transfer.offset <= max_property_bytes {
        transfer.data.len()
    } else {
        transfer.offset + max_property_bytes
    }
}

/// Whether a transfer to `window` is under way.
pub open spec fn serves_window(transfers: Map<(u32, u32), IncrView>, window: u32) -> bool {
    exists|atom: u32| #[trigger] transfers.contains_key((window, atom))
}

/// A bridge that has nothing to do yet, on a connection on which a request may
/// have `maximum_request_bytes` bytes.
pub open spec fn new_bridge(window: u32, atoms: Atoms, maximum_request_bytes: nat) -> BridgeView {
    BridgeView {
        window,
        atoms,
        max_property_bytes: (maximum_request_bytes - 32) as nat,
        pending_change: None,
        owned: None,
        transfers: Map::empty(),
    }
}

/// The bridge without its pending change.
pub open spec fn without_change(bridge: BridgeView) -> BridgeView {
    BridgeView { pending_change: None, ..bridge }
}

/// The bridge that offers `content` under `atoms`.
pub open spec fn offering(
    bridge: BridgeView,
    content: Seq<OfferView>,
    atoms: Seq<u32>,
) -> BridgeView {
    BridgeView { owned: Some(owned_selection(content, atoms)), ..bridge }
}

/// The bridge that offers nothing.
pub open spec fn offering_nothing(bridge: BridgeView) -> BridgeView {
    BridgeView { owned: None, ..bridge }
}

/// The answer to a request whose property was written, or could not be written.
pub open spec fn answer_to_write(request: SelectionRequest, written: bool) -> SelectionNotify {
    answer(
        request,
        if written {
            request.property
        } else {
            NONE
        },
    )
}

impl ClipboardBridge {
    /// The bridge of a connection on which a request may have
    /// `maximum_request_bytes` bytes.
    pub fn new(window: u32, atoms: Atoms, maximum_request_bytes: usize) -> (bridge: Self)
        requires
            maximum_request_bytes >= 32,
        ensures
            bridge@ == new_bridge(window, atoms, maximum_request_bytes as nat),
    {
        let bridge = ClipboardBridge {
            window,
            atoms,
            max_property_bytes: maximum_request_bytes - 32,
            pending_change: None,
            owned: None,
            incr_transfers: HashMap::new(),
        };
        assert(bridge@.transfers =~= Map::<(u32, u32), IncrView>::empty());
        bridge
    }

    /// The window of the bridge.
    pub fn window(&self) -> (window: u32)
        ensures
            window == self@.window,
    {
        self.window
    }

    /// The atoms of the bridge.
    pub fn atoms(&self) -> (atoms: Atoms)
        ensures
            atoms == self@.atoms,
    {
        self.atoms
    }

    /// Whether another client changed the selection since the last change was
    /// taken.
    pub fn has_pending_change(&self) -> (pending: bool)
        ensures
            pending == (self@.pending_change is Some),
    {
        self.pending_change.is_some()
    }

    /// Takes the pending change, so that it is dealt with once.
    pub fn take_change(&mut self) -> (change: Option<SelectionChange>)
        ensures
            change == old(self)@.pending_change,
            final(self)@ == without_change(old(self)@),
    {
        let change: Option<SelectionChange> = self.pending_change;
        self.pending_change = None;
        change
    }

    /// Remembers a change, unless the bridge made it: then any earlier change
    /// is out of date.
    pub fn remember_change(&mut self, change: SelectionChange)
        ensures
            final(self)@ == remembered(old(self)@, change),
    {
        self.pending_change = if change.owner != self.window {
            Some(change)
        } else {
            None
        };
    }

    /// Offers `snapshot` under `atoms`, the atoms of its X11 targets in their
    /// order.
    pub fn set_clipboard(&mut self, snapshot: Snapshot, atoms: Vec<u32>)
        requires
            atoms@.len() == x11_target_list(snapshot@).len(),
        ensures
            final(self)@ == offering(old(self)@, snapshot@, atoms@),
    {
        let mut targets: Vec<OwnedTarget> = Vec::new();
        {
            let listed: Vec<(&str, usize)> = snapshot.x11_targets();
            proof {
                lemma_x11_target_list(snapshot@, named_sources(listed@));
            }
            let ghost list = named_sources(listed@);
            let mut i: usize = 0;
            while i < atoms.len()
                invariant
                    i <= atoms@.len() == listed@.len(),
                    list == named_sources(listed@),
                    list == x11_target_list(snapshot@),
                    is_x11_target_list(snapshot@, list),
                    targets@ == owned_selection(snapshot@, atoms@).targets.take(i as int),
                    forall|j: int|
                        0 <= j < targets@.len() ==> (#[trigger] targets@[j]).source
                            < snapshot@.len(),
                decreases atoms.len() - i,
            {
                let source: usize = listed[i].1;
                proof {
                    assert(list[i as int].1 == source);
                    assert(serves_x11_target(snapshot@, list[i as int].0, list[i as int].1));
                    let all = owned_selection(snapshot@, atoms@).targets;
                    assert(all.take(i + 1) =~= all.take(i as int).push(all[i as int]));
                }
                targets.push(OwnedTarget { atom: atoms[i], source });
                i += 1;
            }
            assert(owned_selection(snapshot@, atoms@).targets.take(i as int)
                =~= owned_selection(snapshot@, atoms@).targets);
        }
        self.owned = Some(OwnedSelection { snapshot: Rc::new(snapshot), targets });
    }

    /// Stops offering anything.
    pub fn clear_clipboard(&mut self)
        ensures
            final(self)@ == offering_nothing(old(self)@),
    {
        self.owned = None;
    }

    /// What to do about a request for the selection.
    pub fn handle_selection_request(&self, request: SelectionRequest) -> (step: RequestStep)
        ensures
            request_step_of(self@, request, step),
    {
        if request.property == NONE {
            return RequestStep::Notify(selection_notify(request, NONE));
        }
        match self.write_selection_property(&request) {
            Ok(write) => RequestStep::Write(write),
            Err(error) => RequestStep::Refuse(error, selection_notify(request, NONE)),
        }
    }

    /// What to write into the property that `request` names.
    pub fn write_selection_property(&self, request: &SelectionRequest) -> (result: Result<
        PropertyWrite,
        RequestError,
    >)
        ensures
            match (result, served(self@, request.target)) {
                (Ok(write), Ok(expected)) => write@ == expected,
                (Err(error), Err(expected)) => error == expected,
                _ => false,
            },
    {
        let target: u32 = request.target;
        let owned: &OwnedSelection = match &self.owned {
            Some(owned) => owned,
            None => return Err(RequestError::NotOwned),
        };
        proof {
            use_type_invariant(owned);
        }
        if target == self.atoms.targets {
            return Ok(PropertyWrite::Targets(self.target_list(owned)));
        }
        let mut i: usize = 0;
        assert(owned.targets@.skip(0) =~= owned.targets@);
        while i < owned.targets.len() && owned.targets[i].atom != target
            invariant
                i <= owned.targets@.len(),
                find_target(owned.targets@, target) == find_target(
                    owned.targets@.skip(i as int),
                    target,
                ),
            decreases owned.targets.len() - i,
        {
            assert(owned.targets@.skip(i as int).drop_first() =~= owned.targets@.skip(i + 1));
            i += 1;
        }
        if i == owned.targets.len() {
            return Err(RequestError::NotOffered);
        }
        assert(owned.targets@.skip(i as int)[0] == owned.targets@[i as int]);
        let data = SharedData {
            snapshot: Rc::clone(&owned.snapshot),
            source: owned.targets[i].source,
        };
        let len: usize = data.bytes().len();
        if len <= self.max_property_bytes {
            Ok(PropertyWrite::Data(data))
        } else if len as u128 <= u32::MAX as u128 {
            Ok(PropertyWrite::Incremental(data, len as u32))
        } else {
            Err(RequestError::TooLarge)
        }
    }

    /// The list of targets to advertise.
    fn target_list(&self, owned: &OwnedSelection) -> (atoms: Vec<u32>)
        ensures
            atoms@ == seq![self@.atoms.targets] + target_atoms(owned@.targets),
    {
        let mut atoms: Vec<u32> = Vec::new();
        atoms.push(self.atoms.targets);
        let mut i: usize = 0;
        while i < owned.targets.len()
            invariant
                i <= owned.targets@.len(),
                atoms@ == seq![self.atoms.targets] + target_atoms(owned.targets@.take(i as int)),
            decreases owned.targets.len() - i,
        {
            let ghost before = atoms@;
            atoms.push(owned.targets[i].atom);
            assert(target_atoms(owned.targets@.take(i + 1)) =~= target_atoms(
                owned.targets@.take(i as int),
            ).push(owned.targets@[i as int].atom));
            assert(atoms@ =~= seq![self.atoms.targets] + target_atoms(owned.targets@.take(i + 1)));
            i += 1;
        }
        assert(owned.targets@.take(i as int) =~= owned.targets@);
        atoms
    }

    /// Takes note of whether the write for `request` succeeded, and gives the
    /// answer to send.
    pub fn finish_selection_request(
        &mut self,
        request: SelectionRequest,
        write: PropertyWrite,
        written: bool,
    ) -> (notify: SelectionNotify)
        ensures
            notify == answer_to_write(request, written),
            final(self)@ == after_write(old(self)@, request, write@, written),
    {
        if !written {
            return selection_notify(request, NONE);
        }
        if let PropertyWrite::Incremental(content, _) = write {
            let transfer = IncrTransfer { content, offset: 0, target: request.target };
            self.store_transfer(request.requestor, request.property, transfer);
        }
        selection_notify(request, request.property)
    }

    /// Enters a transfer into the table.
    fn store_transfer(&mut self, window: u32, atom: u32, transfer: IncrTransfer)
        ensures
            final(self)@ == (BridgeView {
                transfers: old(self)@.transfers.insert((window, atom), transfer@),
                ..old(self)@
            }),
    {
        broadcast use vstd::std_specs::hash::group_hash_axioms;

        let ghost before = self.incr_transfers@;
        self.incr_transfers.insert(transfer_key(window, atom), transfer);
        proof {
            assert forall|place: (u32, u32)| #[trigger]
                transfers_of(self.incr_transfers@).contains_key(place) == transfers_of(
                    before,
                ).insert((window, atom), transfer@).contains_key(place) by {
                lemma_key_injective(window, atom, place.0, place.1);
            }
            assert forall|place: (u32, u32)| #[trigger]
                transfers_of(self.incr_transfers@).contains_key(place) implies transfers_of(
                self.incr_transfers@,
            )[place] == transfers_of(before).insert((window, atom), transfer@)[place] by {
                lemma_key_injective(window, atom, place.0, place.1);
            }
            assert(transfers_of(self.incr_transfers@) =~= transfers_of(before).insert(
                (window, atom),
                transfer@,
            ));
        }
    }

    /// Takes the transfer to a property that its reader deleted, and gives the
    /// next chunk to write.
    pub fn advance_incr_transfer(&mut self, window: u32, atom: u32) -> (chunk: Option<IncrChunk>)
        ensures
            advanced(old(self)@, window, atom, chunk, final(self)@),
    {
        broadcast use vstd::std_specs::hash::group_hash_axioms;

        let ghost before = self.incr_transfers@;
        let key: u64 = transfer_key(window, atom);
        let removed: Option<IncrTransfer> = self.incr_transfers.remove(&key);
        proof {
            assert forall|place: (u32, u32)| #[trigger]
                transfers_of(self.incr_transfers@).contains_key(place) == transfers_of(
                    before,
                ).remove((window, atom)).contains_key(place) by {
                lemma_key_injective(window, atom, place.0, place.1);
            }
            assert(transfers_of(self.incr_transfers@) =~= transfers_of(before).remove(
                (window, atom),
            ));
        }
        match removed {
            None => {
                assert(transfers_of(before).remove((window, atom)) =~= transfers_of(before));
                None
            },
            Some(transfer) => {
                proof {
                    use_type_invariant(&transfer);
                }
                let len: usize = transfer.content.bytes().len();
                let end: usize = if len - transfer.offset <= self.max_property_bytes {
                    len
                } else {
                    transfer.offset + self.max_property_bytes
                };
                Some(IncrChunk { window, atom, transfer, end })
            },
        }
    }

    /// Takes note that a chunk was written: an empty one ends its transfer.
    pub fn finish_incr_chunk(&mut self, chunk: IncrChunk) -> (outcome: ChunkOutcome)
        ensures
            chunk_written(old(self)@, chunk@, outcome, final(self)@),
    {
        proof {
            use_type_invariant(&chunk);
        }
        let IncrChunk { window, atom, transfer, end } = chunk;
        if transfer.offset == end {
            if self.has_transfer_to(window) {
                ChunkOutcome::Complete
            } else {
                ChunkOutcome::CompleteLast
            }
        } else {
            let IncrTransfer { content, offset: _, target } = transfer;
            self.store_transfer(window, atom, IncrTransfer { content, offset: end, target });
            ChunkOutcome::Continues
        }
    }

    /// Whether a transfer to `window` is under way.
    fn has_transfer_to(&self, window: u32) -> (found: bool)
        ensures
            found == serves_window(self@.transfers, window),
    {
        broadcast use vstd::std_specs::hash::group_hash_axioms;

        let ghost table = self.incr_transfers@;
        for key in iter: self.incr_transfers.keys()
            invariant
                table == self.incr_transfers@,
                iter.seq().unref().to_set() == table.dom(),
                forall|i: int|
                    0 <= i < iter.index() ==> *(#[trigger] iter.seq()[i]) / 4294967296 != window,
        {
            if *key / 4294967296 == window as u64 {
                proof {
                    assert(iter.seq().unref()[iter.index()] == *key);
                    assert(iter.seq().unref().to_set().contains(*key));
                    let atom = (*key % 4294967296) as u32;
                    assert(key_of(window, atom) == *key);
                    assert(self@.transfers.contains_key((window, atom)));
                }
                return true;
            }
        }
        false
    }

    /// Deals with an event outside of any wait.
    pub fn handle_event(&mut self, event: X11Event) -> (action: EventAction)
        ensures
            handled(old(self)@, event, action, final(self)@),
    {
        match event {
            X11Event::OwnerChanged(change) => {
                self.remember_change(change);
                EventAction::Nothing
            },
            X11Event::SelectionRequest(request) => EventAction::Serve(
                request,
                self.handle_selection_request(request),
            ),
            X11Event::SelectionClear => {
                self.clear_clipboard();
                EventAction::Nothing
            },
            X11Event::PropertyDeleted { window, atom } => {
                match self.advance_incr_transfer(window, atom) {
                    Some(chunk) => EventAction::Advance(chunk),
                    None => EventAction::Nothing,
                }
            },
            _ => EventAction::Nothing,
        }
    }
}

/// The bridge once a change was remembered.
pub open spec fn remembered(bridge: BridgeView, change: SelectionChange) -> BridgeView {
    BridgeView {
        pending_change: if change.owner != bridge.window {
            Some(change)
        } else {
            None
        },
        ..bridge
    }
}

/// The selection that offers `content` under `atoms`.
pub open spec fn owned_selection(content: Seq<OfferView>, atoms: Seq<u32>) -> OwnedView {
    OwnedView {
        content,
        targets: Seq::new(
            atoms.len(),
            |i: int| OwnedTarget { atom: atoms[i], source: x11_target_list(content)[i].1 as usize },
        ),
    }
}

/// The next chunk of the transfer to a property, which leaves the table.
pub open spec fn advanced(
    before: BridgeView,
    window: u32,
    atom: u32,
    chunk: Option<IncrChunk>,
    after: BridgeView,
) -> bool {
    if before.transfers.contains_key((window, atom)) {
        let transfer = before.transfers[(window, atom)];
        &&& chunk matches Some(chunk) && chunk@ == (ChunkView {
            window,
            atom,
            transfer,
            end: chunk_end(transfer, before.max_property_bytes),
        })
        &&& after == (BridgeView { transfers: before.transfers.remove((window, atom)), ..before })
    } else {
        chunk is None && after == before
    }
}

/// What the writing of a chunk does: an empty one ends its transfer, any other
/// one takes it on.
pub open spec fn chunk_written(
    before: BridgeView,
    chunk: ChunkView,
    outcome: ChunkOutcome,
    after: BridgeView,
) -> bool {
    if chunk.transfer.offset == chunk.end {
        &&& outcome == (if serves_window(before.transfers, chunk.window) {
            ChunkOutcome::Complete
        } else {
            ChunkOutcome::CompleteLast
        })
        &&& after == before
    } else {
        &&& outcome == ChunkOutcome::Continues
        &&& after == (BridgeView {
            transfers: before.transfers.insert(
                (chunk.window, chunk.atom),
                IncrView { offset: chunk.end, ..chunk.transfer },
            ),
            ..before
        })
    }
}

/// What an event does to the bridge and asks for.
pub open spec fn handled(
    before: BridgeView,
    event: X11Event,
    action: EventAction,
    after: BridgeView,
) -> bool {
    match event {
        X11Event::OwnerChanged(change) => {
            &&& action is Nothing
            &&& after == remembered(before, change)
        },
        X11Event::SelectionRequest(request) => {
            &&& action matches EventAction::Serve(served_request, step) && served_request == request
                && request_step_of(before, request, step)
            &&& after == before
        },
        X11Event::SelectionClear => {
            &&& action is Nothing
            &&& after == offering_nothing(before)
        },
        X11Event::PropertyDeleted { window, atom } => {
            let chunk = match action {
                EventAction::Advance(chunk) => Some(chunk),
                _ => None,
            };
            &&& !(action is Serve)
            &&& advanced(before, window, atom, chunk, after)
        },
        _ => action is Nothing && after == before,
    }
}

/// The answer to `request` with the given property.
pub fn selection_notify(request: SelectionRequest, property: u32) -> (notify: SelectionNotify)
    ensures
        notify == answer(request, property),
{
    SelectionNotify {
        time: request.time,
        requestor: request.requestor,
        selection: request.selection,
        target: request.target,
        property,
    }
}

/// The bridge once several changes were remembered, one after the other.
pub open spec fn remembered_all(bridge: BridgeView, changes: Seq<SelectionChange>) -> BridgeView
    decreases changes.len(),
{
    if changes.len() == 0 {
        bridge
    } else {
        remembered(remembered_all(bridge, changes.drop_last()), changes.last())
    }
}

/// Of several changes only the last one counts, and where the bridge made that
/// one itself there is nothing to deal with. Nothing else is touched.
pub proof fn law_last_change_counts(bridge: BridgeView, changes: Seq<SelectionChange>)
    requires
        changes.len() > 0,
    ensures
        remembered_all(bridge, changes) == (BridgeView {
            pending_change: if changes.last().owner != bridge.window {
                Some(changes.last())
            } else {
                None
            },
            ..bridge
        }),
    decreases changes.len(),
{
    let earlier = changes.drop_last();
    if earlier.len() > 0 {
        law_last_change_counts(bridge, earlier);
    } else {
        assert(remembered_all(bridge, earlier) == bridge);
    }
}

/// A transfer goes on when the selection is lost or taken over, whatever else
/// happens: only the deletion of its own property touches it.
pub proof fn law_transfers_outlive_selection(
    before: BridgeView,
    event: X11Event,
    action: EventAction,
    after: BridgeView,
    place: (u32, u32),
)
    requires
        handled(before, event, action, after),
        event != (X11Event::PropertyDeleted { window: place.0, atom: place.1 }),
        before.transfers.contains_key(place),
    ensures
        after.transfers.contains_key(place),
        after.transfers[place] == before.transfers[place],
{
}

/// What each event does: a change of the owner only replaces the pending change,
/// a request changes nothing and is dealt with as it came, the loss of the
/// selection only ends the offer, a deleted property only touches the transfer
/// to it, and no other event does anything.
pub proof fn law_events_touch_only_theirs(
    before: BridgeView,
    event: X11Event,
    action: EventAction,
    after: BridgeView,
)
    requires
        handled(before, event, action, after),
    ensures
        after.window == before.window,
        after.atoms == before.atoms,
        after.max_property_bytes == before.max_property_bytes,
        !(event is OwnerChanged) ==> after.pending_change == before.pending_change,
        event is SelectionClear ==> after.owned is None,
        !(event is SelectionClear) ==> after.owned == before.owned,
        !(event is PropertyDeleted) ==> after.transfers == before.transfers,
        event matches X11Event::OwnerChanged(change) ==> {
            &&& change.owner == before.window ==> after.pending_change is None
            &&& change.owner != before.window ==> after.pending_change == Some(change)
        },
        event matches X11Event::SelectionRequest(request) ==> {
            &&& action is Serve
            &&& action->Serve_0 == request
            &&& request_step_of(before, request, action->Serve_1)
        },
        event matches X11Event::PropertyDeleted { window, atom } ==> {
            &&& (action is Advance <==> before.transfers.contains_key((window, atom)))
            &&& !after.transfers.contains_key((window, atom))
            &&& action is Advance ==> advanced(
                before,
                window,
                atom,
                Some(action->Advance_0),
                after,
            )
        },
        !(event is SelectionRequest) && !(event is PropertyDeleted) ==> action is Nothing,
{
}

/// The answer to a request carries its time, requestor, selection and target.
pub proof fn law_answer_belongs_to_request(request: SelectionRequest, property: u32)
    ensures
        answer(request, property).time == request.time,
        answer(request, property).requestor == request.requestor,
        answer(request, property).selection == request.selection,
        answer(request, property).target == request.target,
        answer(request, property).property == property,
{
}

/// A write that is not an announcement, or that failed, leaves the bridge as it
/// is. An announcement that was written leaves a transfer of all the announced
/// data to the property of the request, of which nothing was sent yet, and
/// touches no other transfer.
pub proof fn law_announcement_leaves_unsent_transfer(
    bridge: BridgeView,
    request: SelectionRequest,
    write: WriteView,
    written: bool,
    other: (u32, u32),
)
    ensures
        ({
            let after = after_write(bridge, request, write, written);
            let place = (request.requestor, request.property);
            &&& !(written && write is Incremental) ==> after == bridge
            &&& written && write is Incremental ==> {
                &&& after.transfers.contains_key(place)
                &&& after.transfers[place].data == write->Incremental_0
                &&& after.transfers[place].data.skip(after.transfers[place].offset as int)
                    == write->Incremental_0
                &&& after.transfers[place].target == request.target
            }
            &&& other != place ==> {
                &&& (after.transfers.contains_key(other) <==> bridge.transfers.contains_key(other))
                &&& bridge.transfers.contains_key(other) ==> after.transfers[other]
                    == bridge.transfers[other]
            }
            &&& after.owned == bridge.owned
            &&& after.pending_change == bridge.pending_change
            &&& after.window == bridge.window
            &&& after.atoms == bridge.atoms
            &&& after.max_property_bytes == bridge.max_property_bytes
        }),
{
    if let WriteView::Incremental(data, _) = write {
        assert(data.skip(0) =~= data);
    }
}

/// A new bridge owns nothing, sends nothing and has no change to deal with, and
/// what it writes into a property leaves 32 bytes of the largest request.
pub proof fn law_new_bridge_is_idle(window: u32, atoms: Atoms, maximum_request_bytes: nat)
    requires
        maximum_request_bytes >= 32,
    ensures
        ({
            let bridge = new_bridge(window, atoms, maximum_request_bytes);
            &&& bridge.window == window
            &&& bridge.atoms == atoms
            &&& bridge.max_property_bytes + 32 == maximum_request_bytes
            &&& bridge.pending_change is None
            &&& bridge.owned is None
            &&& forall|place: (u32, u32)| !(#[trigger] bridge.transfers.contains_key(place))
        }),
{
}

/// Taking a change, offering content and offering nothing touch nothing else:
/// not the pending change, not the transfers under way, not what the bridge is.
pub proof fn law_offers_touch_only_the_offer(
    bridge: BridgeView,
    content: Seq<OfferView>,
    atoms: Seq<u32>,
)
    ensures
        offering(bridge, content, atoms).transfers == bridge.transfers,
        offering(bridge, content, atoms).pending_change == bridge.pending_change,
        offering(bridge, content, atoms).window == bridge.window,
        offering(bridge, content, atoms).atoms == bridge.atoms,
        offering(bridge, content, atoms).max_property_bytes == bridge.max_property_bytes,
        offering(bridge, content, atoms).owned is Some,
        offering_nothing(offering(bridge, content, atoms)) == offering_nothing(bridge),
        offering_nothing(bridge).transfers == bridge.transfers,
        offering_nothing(bridge).pending_change == bridge.pending_change,
        offering_nothing(bridge).window == bridge.window,
        offering_nothing(bridge).atoms == bridge.atoms,
        offering_nothing(bridge).max_property_bytes == bridge.max_property_bytes,
        offering_nothing(bridge).owned is None,
        without_change(bridge).pending_change is None,
        without_change(bridge).transfers == bridge.transfers,
        without_change(bridge).owned == bridge.owned,
        without_change(bridge).window == bridge.window,
        without_change(bridge).atoms == bridge.atoms,
        without_change(bridge).max_property_bytes == bridge.max_property_bytes,
{
}

/// A request is told its own property exactly when that was written, and the
/// answer is an answer to this request.
pub proof fn law_written_property_is_told(request: SelectionRequest, written: bool)
    ensures
        ({
            let notify = answer_to_write(request, written);
            &&& written ==> notify.property == request.property
            &&& !written ==> notify.property == NONE
            &&& notify.time == request.time
            &&& notify.requestor == request.requestor
            &&& notify.selection == request.selection
            &&& notify.target == request.target
        }),
{
}

/// The writing of a chunk touches no other transfer and nothing else of the
/// bridge.
pub proof fn law_chunk_touches_only_its_transfer(
    before: BridgeView,
    chunk: ChunkView,
    outcome: ChunkOutcome,
    after: BridgeView,
    other: (u32, u32),
)
    requires
        chunk_written(before, chunk, outcome, after),
        other != (chunk.window, chunk.atom),
    ensures
        after.transfers.contains_key(other) <==> before.transfers.contains_key(other),
        before.transfers.contains_key(other) ==> after.transfers[other] == before.transfers[other],
        after.owned == before.owned,
        after.pending_change == before.pending_change,
        after.window == before.window,
        after.atoms == before.atoms,
        after.max_property_bytes == before.max_property_bytes,
{
}

/// Writes are seen as they are.
pub proof fn law_write_views(atoms: Vec<u32>, data: SharedData, size: u32)
    ensures
        PropertyWrite::Targets(atoms)@ == WriteView::Targets(atoms@),
        PropertyWrite::Data(data)@ == WriteView::Data(data@),
        PropertyWrite::Incremental(data, size)@ == WriteView::Incremental(data@, size),
{
}

} // verus!
