//! Which side of the bridge has to follow the other, and when a change is only
//! the echo of one that the bridge made.

use vstd::prelude::*;

use crate::config::{ReconnectDelay, INITIAL_RECONNECT_DELAY};
use crate::content::{lemma_normal_form_same, lookup, OfferView};
use crate::fingerprint::{content_digest, lemma_fingerprint_ext, Fingerprint};
use crate::snapshot::{
    is_x11_target_list, is_x11_target_name, lemma_utf8_text_is_target, lemma_x11_target_list,
    named_sources, serves_x11_target, with_text_aliases, x11_target_list, Snapshot,
};

verus! {

/// A change of one clipboard.
pub enum ClipboardUpdate {
    /// It holds this content.
    Changed(Snapshot),
    /// It was cleared.
    Cleared,
}

/// The model of a [`ClipboardUpdate`].
#[verifier::ext_equal]
pub enum UpdateView {
    Changed(Seq<OfferView>),
    Cleared,
}

impl View for ClipboardUpdate {
    type V = UpdateView;

    open spec fn view(&self) -> UpdateView {
        match *self {
            ClipboardUpdate::Changed(snapshot) => UpdateView::Changed(snapshot@),
            ClipboardUpdate::Cleared => UpdateView::Cleared,
        }
    }
}

/// What the bridge knows of one clipboard.
#[derive(Clone, Copy, Debug)]
pub enum ClipboardState {
    Unknown,
    Cleared,
    Content(Fingerprint),
}

/// The model of a [`ClipboardState`].
#[verifier::ext_equal]
pub enum StateView {
    Unknown,
    Cleared,
    /// Content with this digest.
    Content(Seq<u8>),
}

impl View for ClipboardState {
    type V = StateView;

    open spec fn view(&self) -> StateView {
        match *self {
            ClipboardState::Unknown => StateView::Unknown,
            ClipboardState::Cleared => StateView::Cleared,
            ClipboardState::Content(fingerprint) => StateView::Content(fingerprint.bytes@),
        }
    }
}

impl ClipboardState {
    fn is_cleared(&self) -> (cleared: bool)
        ensures
            cleared == (self@ == StateView::Cleared),
    {
        match self {
            ClipboardState::Cleared => true,
            _ => false,
        }
    }

    fn holds(&self, fingerprint: &Fingerprint) -> (holds: bool)
        ensures
            holds == (self@ == StateView::Content(fingerprint.bytes@)),
    {
        match self {
            ClipboardState::Content(known) => {
                proof {
                    if known.bytes@ == fingerprint.bytes@ {
                        lemma_fingerprint_ext(*known, *fingerprint);
                    }
                }
                *known == *fingerprint
            },
            _ => false,
        }
    }
}

/// What a change on X11 asks of the Wayland side.
pub enum WaylandAction {
    /// Nothing: the bridge knows of the change already.
    Ignore,
    /// Clear the clipboard.
    Clear,
    /// Publish this content, which will read back with this fingerprint.
    Publish(Snapshot, Fingerprint),
}

/// What a change on Wayland asks of the X11 side.
pub enum X11Action {
    /// Nothing: the bridge knows of the change already, or X11 has no use for
    /// it.
    Ignore,
    /// Clear the clipboard.
    Clear,
    /// Offer this content, which has this fingerprint.
    Offer(Snapshot, Fingerprint),
}

/// The model of what one side has to do.
#[verifier::ext_equal]
pub enum ActionView {
    Ignore,
    Clear,
    /// Show this content.
    Show(Seq<OfferView>),
}

impl View for WaylandAction {
    type V = ActionView;

    open spec fn view(&self) -> ActionView {
        match *self {
            WaylandAction::Ignore => ActionView::Ignore,
            WaylandAction::Clear => ActionView::Clear,
            WaylandAction::Publish(snapshot, _) => ActionView::Show(snapshot@),
        }
    }
}

impl View for X11Action {
    type V = ActionView;

    open spec fn view(&self) -> ActionView {
        match *self {
            X11Action::Ignore => ActionView::Ignore,
            X11Action::Clear => ActionView::Clear,
            X11Action::Offer(snapshot, _) => ActionView::Show(snapshot@),
        }
    }
}

/// The model of a [`Coordinator`].
#[verifier::ext_equal]
pub struct SyncView {
    pub x11: StateView,
    pub wayland: StateView,
    pub ready_workers: int,
}

/// The state of a session.
pub struct Coordinator {
    x11_state: ClipboardState,
    wayland_state: ClipboardState,
    ready_workers: i32,
}

impl View for Coordinator {
    type V = SyncView;

    closed spec fn view(&self) -> SyncView {
        SyncView {
            x11: self.x11_state@,
            wayland: self.wayland_state@,
            ready_workers: self.ready_workers as int,
        }
    }
}

/// What a change on X11 does: the state to be in, and what to do on Wayland.
pub open spec fn x11_changed(state: SyncView, update: UpdateView) -> (SyncView, ActionView) {
    match update {
        UpdateView::Cleared => if state.x11 == StateView::Cleared {
            (state, ActionView::Ignore)
        } else {
            (SyncView { x11: StateView::Cleared, ..state }, ActionView::Clear)
        },
        UpdateView::Changed(content) => {
            let known = StateView::Content(content_digest(content));
            if state.x11 == known {
                (state, ActionView::Ignore)
            } else {
                (SyncView { x11: known, ..state }, ActionView::Show(content))
            }
        },
    }
}

/// The state once Wayland did what it was asked to.
pub open spec fn wayland_followed(state: SyncView, action: ActionView) -> SyncView {
    match action {
        ActionView::Ignore => state,
        ActionView::Clear => SyncView { wayland: StateView::Cleared, ..state },
        ActionView::Show(content) => SyncView {
            wayland: StateView::Content(content_digest(with_text_aliases(content))),
            ..state
        },
    }
}

/// What a change on Wayland does: the state to be in, and what to do on X11.
pub open spec fn wayland_changed(state: SyncView, update: UpdateView) -> (SyncView, ActionView) {
    match update {
        UpdateView::Cleared => if state.wayland == StateView::Cleared {
            (state, ActionView::Ignore)
        } else {
            (SyncView { wayland: StateView::Cleared, ..state }, ActionView::Clear)
        },
        UpdateView::Changed(content) => {
            let known = StateView::Content(content_digest(content));
            if state.wayland == known {
                (state, ActionView::Ignore)
            } else if x11_target_list(content).len() == 0 {
                (SyncView { wayland: known, ..state }, ActionView::Ignore)
            } else {
                (SyncView { wayland: known, ..state }, ActionView::Show(content))
            }
        },
    }
}

/// The state once X11 did what it was asked to.
pub open spec fn x11_followed(state: SyncView, action: ActionView) -> SyncView {
    match action {
        ActionView::Ignore => state,
        ActionView::Clear => SyncView { x11: StateView::Cleared, ..state },
        ActionView::Show(content) => SyncView {
            x11: StateView::Content(content_digest(content)),
            ..state
        },
    }
}

/// The state in which nothing is known yet.
pub open spec fn new_session() -> SyncView {
    SyncView { x11: StateView::Unknown, wayland: StateView::Unknown, ready_workers: 0 }
}

/// The state in which Wayland holds content with this digest.
pub open spec fn wayland_holding(state: SyncView, digest: Seq<u8>) -> SyncView {
    SyncView { wayland: StateView::Content(digest), ..state }
}

/// The state in which X11 holds content with this digest.
pub open spec fn x11_holding(state: SyncView, digest: Seq<u8>) -> SyncView {
    SyncView { x11: StateView::Content(digest), ..state }
}

/// The state with one more worker that is ready, whether both are now, and the
/// delay before the next session.
pub open spec fn with_ready_worker(state: SyncView, delay: nat) -> (SyncView, bool, nat) {
    let up = state.ready_workers == 1;
    (
        SyncView { ready_workers: state.ready_workers + 1, ..state },
        up,
        if up {
            INITIAL_RECONNECT_DELAY as nat
        } else {
            delay
        },
    )
}

impl Coordinator {
    /// A session in which nothing is known yet.
    pub fn new() -> (coordinator: Self)
        ensures
            coordinator@ == new_session(),
    {
        Coordinator {
            x11_state: ClipboardState::Unknown,
            wayland_state: ClipboardState::Unknown,
            ready_workers: 0,
        }
    }

    /// How many workers reported that they are ready.
    pub fn ready_workers(&self) -> (count: i32)
        ensures
            count == self@.ready_workers,
    {
        self.ready_workers
    }

    /// Counts a worker that is ready. When it is the second one, the session is
    /// up and the delay starts anew.
    pub fn worker_ready(&mut self, reconnect_delay: &mut ReconnectDelay) -> (synchronizing: bool)
        requires
            old(self)@.ready_workers < i32::MAX,
        ensures
            (final(self)@, synchronizing, final(reconnect_delay)@) == with_ready_worker(
                old(self)@,
                old(reconnect_delay)@,
            ),
    {
        self.ready_workers = self.ready_workers + 1;
        if self.ready_workers == 2 {
            reconnect_delay.reset();
            true
        } else {
            false
        }
    }

    /// Takes note of a change on X11 and says what to do on Wayland.
    pub fn sync_from_x11(&mut self, update: ClipboardUpdate) -> (action: WaylandAction)
        ensures
            (final(self)@, action@) == x11_changed(old(self)@, update@),
            action matches WaylandAction::Publish(snapshot, fingerprint) ==> fingerprint.bytes@
                == content_digest(with_text_aliases(snapshot@)),
            update matches ClipboardUpdate::Changed(given) ==> if old(self)@.x11
                == StateView::Content(content_digest(given@)) {
                action is Ignore
            } else {
                action matches WaylandAction::Publish(shown, _) && shown@ == given@
            },
    {
        match update {
            ClipboardUpdate::Cleared => {
                if self.x11_state.is_cleared() {
                    return WaylandAction::Ignore;
                }
                self.x11_state = ClipboardState::Cleared;
                WaylandAction::Clear
            },
            ClipboardUpdate::Changed(snapshot) => {
                let source_fingerprint: Fingerprint = snapshot.fingerprint();
                if self.x11_state.holds(&source_fingerprint) {
                    return WaylandAction::Ignore;
                }
                self.x11_state = ClipboardState::Content(source_fingerprint);
                let destination_fingerprint: Fingerprint = snapshot.wayland_fingerprint();
                WaylandAction::Publish(snapshot, destination_fingerprint)
            },
        }
    }

    /// Takes note that the Wayland clipboard was cleared.
    pub fn wayland_cleared(&mut self)
        ensures
            final(self)@ == wayland_followed(old(self)@, ActionView::Clear),
    {
        self.wayland_state = ClipboardState::Cleared;
    }

    /// Takes note that content was published on Wayland which reads back with
    /// this fingerprint.
    pub fn wayland_published(&mut self, fingerprint: Fingerprint)
        ensures
            final(self)@ == wayland_holding(old(self)@, fingerprint.bytes@),
    {
        self.wayland_state = ClipboardState::Content(fingerprint);
    }

    /// Takes note of a change on Wayland and says what to do on X11.
    pub fn sync_from_wayland(&mut self, update: ClipboardUpdate) -> (action: X11Action)
        ensures
            (final(self)@, action@) == wayland_changed(old(self)@, update@),
            action matches X11Action::Offer(snapshot, fingerprint) ==> fingerprint.bytes@
                == content_digest(snapshot@),
            update matches ClipboardUpdate::Changed(given) ==> if old(self)@.wayland
                == StateView::Content(content_digest(given@)) || x11_target_list(given@).len()
                == 0 {
                action is Ignore
            } else {
                action matches X11Action::Offer(shown, _) && shown@ == given@
            },
    {
        match update {
            ClipboardUpdate::Cleared => {
                if self.wayland_state.is_cleared() {
                    return X11Action::Ignore;
                }
                self.wayland_state = ClipboardState::Cleared;
                X11Action::Clear
            },
            ClipboardUpdate::Changed(snapshot) => {
                let source_fingerprint: Fingerprint = snapshot.fingerprint();
                if self.wayland_state.holds(&source_fingerprint) {
                    return X11Action::Ignore;
                }
                self.wayland_state = ClipboardState::Content(source_fingerprint);
                let transferable: bool = {
                    let targets: Vec<(&str, usize)> = snapshot.x11_targets();
                    proof {
                        lemma_x11_target_list(snapshot@, named_sources(targets@));
                    }
                    !targets.is_empty()
                };
                if !transferable {
                    return X11Action::Ignore;
                }
                X11Action::Offer(snapshot, source_fingerprint)
            },
        }
    }

    /// Takes note that the X11 side was told to clear its clipboard.
    pub fn x11_cleared(&mut self)
        ensures
            final(self)@ == x11_followed(old(self)@, ActionView::Clear),
    {
        self.x11_state = ClipboardState::Cleared;
    }

    /// Takes note that the X11 side was told to offer content with this
    /// fingerprint.
    pub fn x11_offered(&mut self, fingerprint: Fingerprint)
        ensures
            final(self)@ == x11_holding(old(self)@, fingerprint.bytes@),
    {
        self.x11_state = ClipboardState::Content(fingerprint);
    }
}

/// The echo of a published content is suppressed: once a content from X11 was
/// published on Wayland, reading it back there, text aliases included, changes
/// nothing and asks nothing of X11.
pub proof fn law_wayland_echo_ignored(
    state: SyncView,
    content: Seq<OfferView>,
    read_back: Seq<OfferView>,
)
    requires
        x11_changed(state, UpdateView::Changed(content)).1 != ActionView::Ignore,
        forall|mime_type: Seq<char>| #[trigger]
            lookup(read_back, mime_type) == lookup(with_text_aliases(content), mime_type),
    ensures
        ({
            let (noted, action) = x11_changed(state, UpdateView::Changed(content));
            let settled = wayland_followed(noted, action);
            wayland_changed(settled, UpdateView::Changed(read_back)) == (
                settled,
                ActionView::Ignore,
            )
        }),
{
    lemma_normal_form_same(read_back, with_text_aliases(content));
}

/// The echo of an offered content is suppressed: once a content from Wayland is
/// offered on X11, finding the same content there changes nothing and asks
/// nothing of Wayland.
pub proof fn law_x11_echo_ignored(
    state: SyncView,
    content: Seq<OfferView>,
    read_back: Seq<OfferView>,
)
    requires
        wayland_changed(state, UpdateView::Changed(content)).1 != ActionView::Ignore,
        forall|mime_type: Seq<char>| #[trigger]
            lookup(read_back, mime_type) == lookup(content, mime_type),
    ensures
        ({
            let (noted, action) = wayland_changed(state, UpdateView::Changed(content));
            let settled = x11_followed(noted, action);
            x11_changed(settled, UpdateView::Changed(read_back)) == (settled, ActionView::Ignore)
        }),
{
    lemma_normal_form_same(read_back, content);
}

/// Clearing the X11 clipboard clears the Wayland one, unless X11 is known to be
/// clear; afterwards both are known to be clear, and a clear of either is an
/// echo that is ignored.
pub proof fn law_x11_clear_clears_wayland(state: SyncView)
    requires
        state.x11 != StateView::Cleared,
    ensures
        ({
            let (noted, action) = x11_changed(state, UpdateView::Cleared);
            let settled = wayland_followed(noted, action);
            &&& action == ActionView::Clear
            &&& settled.x11 == StateView::Cleared
            &&& settled.wayland == StateView::Cleared
            &&& wayland_changed(settled, UpdateView::Cleared) == (settled, ActionView::Ignore)
            &&& x11_changed(settled, UpdateView::Cleared) == (settled, ActionView::Ignore)
        }),
{
}

/// Clearing the Wayland clipboard clears the X11 one, unless Wayland is known
/// to be clear; afterwards both are known to be clear, and a clear of either is
/// an echo that is ignored.
pub proof fn law_wayland_clear_clears_x11(state: SyncView)
    requires
        state.wayland != StateView::Cleared,
    ensures
        ({
            let (noted, action) = wayland_changed(state, UpdateView::Cleared);
            let settled = x11_followed(noted, action);
            &&& action == ActionView::Clear
            &&& settled.x11 == StateView::Cleared
            &&& settled.wayland == StateView::Cleared
            &&& x11_changed(settled, UpdateView::Cleared) == (settled, ActionView::Ignore)
            &&& wayland_changed(settled, UpdateView::Cleared) == (settled, ActionView::Ignore)
        }),
{
}

/// A change that a side reports twice in a row is acted on at most once.
pub proof fn law_repeated_change_ignored(state: SyncView, update: UpdateView)
    ensures
        ({
            let (noted, action) = x11_changed(state, update);
            let settled = wayland_followed(noted, action);
            x11_changed(settled, update) == (settled, ActionView::Ignore)
        }),
        ({
            let (noted, action) = wayland_changed(state, update);
            let settled = x11_followed(noted, action);
            wayland_changed(settled, update) == (settled, ActionView::Ignore)
        }),
{
}

/// A change on X11 is shown on Wayland unless it is known: content is ignored
/// exactly when X11 is known to hold content with its digest, else it is shown,
/// exactly as it is; a clear is ignored exactly when X11 is known to be clear,
/// else Wayland is cleared. Either way X11 is then known to be as reported, and
/// nothing else changes.
pub proof fn law_x11_change_is_shown(state: SyncView, update: UpdateView)
    ensures
        ({
            let (noted, action) = x11_changed(state, update);
            let reported = match update {
                UpdateView::Changed(content) => StateView::Content(content_digest(content)),
                UpdateView::Cleared => StateView::Cleared,
            };
            &&& (action is Ignore <==> state.x11 == reported)
            &&& action matches ActionView::Show(shown) ==> update == UpdateView::Changed(shown)
            &&& action is Clear ==> update is Cleared
            &&& noted.x11 == reported
            &&& noted.wayland == state.wayland
            &&& noted.ready_workers == state.ready_workers
        }),
{
}

/// A change on Wayland is shown on X11 unless it is known or there is nothing to
/// show: content is shown, exactly as it is, when Wayland is not known to hold
/// content with its digest and there is an offer in it that can be a target, and
/// else ignored; a clear is ignored exactly when Wayland is known to be clear,
/// else X11 is cleared. Either way Wayland is then known to be as reported, and
/// nothing else changes.
pub proof fn law_wayland_change_is_shown(state: SyncView, update: UpdateView)
    requires
        update matches UpdateView::Changed(content) ==> is_x11_target_list(
            content,
            x11_target_list(content),
        ),
    ensures
        ({
            let (noted, action) = wayland_changed(state, update);
            let reported = match update {
                UpdateView::Changed(content) => StateView::Content(content_digest(content)),
                UpdateView::Cleared => StateView::Cleared,
            };
            let showable = match update {
                UpdateView::Changed(content) => exists|i: int|
                    0 <= i < content.len() && is_x11_target_name(
                        (#[trigger] content[i]).mime_type,
                    ),
                UpdateView::Cleared => true,
            };
            &&& (action is Ignore <==> state.wayland == reported || !showable)
            &&& action matches ActionView::Show(shown) ==> update == UpdateView::Changed(shown)
            &&& action is Clear ==> update is Cleared
            &&& noted.wayland == reported
            &&& noted.x11 == state.x11
            &&& noted.ready_workers == state.ready_workers
        }),
{
    if let UpdateView::Changed(content) = update {
        let list = x11_target_list(content);
        if list.len() > 0 {
            let (name, source) = list[0];
            assert(serves_x11_target(content, list[0].0, list[0].1));
            lemma_utf8_text_is_target();
            assert(is_x11_target_name(content[source].mime_type));
        }
        if exists|i: int|
            0 <= i < content.len() && is_x11_target_name((#[trigger] content[i]).mime_type) {
            let i: int = choose|i: int|
                0 <= i < content.len() && is_x11_target_name((#[trigger] content[i]).mime_type);
            assert(serves_x11_target(content, content[i].mime_type, i));
            assert(list.contains((content[i].mime_type, i)));
        }
    }
}

/// What a side did is then known of it: that it is clear, or that it holds
/// content with the digest that reading it back gives. Nothing else changes.
pub proof fn law_followed_side_is_known(state: SyncView, content: Seq<OfferView>)
    ensures
        wayland_followed(state, ActionView::Ignore) == state,
        x11_followed(state, ActionView::Ignore) == state,
        wayland_followed(state, ActionView::Clear).wayland is Cleared,
        x11_followed(state, ActionView::Clear).x11 is Cleared,
        wayland_followed(state, ActionView::Show(content)).wayland == StateView::Content(
            content_digest(with_text_aliases(content)),
        ),
        x11_followed(state, ActionView::Show(content)).x11 == StateView::Content(
            content_digest(content),
        ),
        forall|action: ActionView|
            #![trigger wayland_followed(state, action)]
            wayland_followed(state, action).x11 == state.x11 && wayland_followed(
                state,
                action,
            ).ready_workers == state.ready_workers,
        forall|action: ActionView|
            #![trigger x11_followed(state, action)]
            x11_followed(state, action).wayland == state.wayland && x11_followed(
                state,
                action,
            ).ready_workers == state.ready_workers,
{
}

/// Updates, states and actions are seen as they are.
pub proof fn law_sync_views(snapshot: Snapshot, fingerprint: Fingerprint)
    ensures
        ClipboardUpdate::Changed(snapshot)@ == UpdateView::Changed(snapshot@),
        ClipboardUpdate::Cleared@ is Cleared,
        ClipboardState::Content(fingerprint)@ == StateView::Content(fingerprint.bytes@),
        ClipboardState::Cleared@ is Cleared,
        ClipboardState::Unknown@ is Unknown,
        WaylandAction::Publish(snapshot, fingerprint)@ == ActionView::Show(snapshot@),
        WaylandAction::Clear@ is Clear,
        WaylandAction::Ignore@ is Ignore,
        X11Action::Offer(snapshot, fingerprint)@ == ActionView::Show(snapshot@),
        X11Action::Clear@ is Clear,
        X11Action::Ignore@ is Ignore,
{
}

/// Taking note of the fingerprint that goes with an action is what follows from
/// the action.
pub proof fn law_noted_fingerprint_follows_action(state: SyncView, content: Seq<OfferView>)
    ensures
        wayland_holding(state, content_digest(with_text_aliases(content))) == wayland_followed(
            state,
            ActionView::Show(content),
        ),
        x11_holding(state, content_digest(content)) == x11_followed(
            state,
            ActionView::Show(content),
        ),
{
}

/// From a session without a ready worker on, the second worker that is ready
/// makes the session work and sets the delay back to one second; no other one
/// does, and what is known of the clipboards stays.
pub proof fn law_session_is_up_with_the_second_worker(state: SyncView, delay: nat)
    requires
        state.ready_workers == 0,
    ensures
        ({
            let (one, one_up, one_delay) = with_ready_worker(state, delay);
            let (two, two_up, two_delay) = with_ready_worker(one, one_delay);
            let (three, three_up, three_delay) = with_ready_worker(two, delay);
            &&& !one_up && one_delay == delay
            &&& two_up && two_delay == 1
            &&& !three_up && three_delay == delay
            &&& three.x11 == state.x11
            &&& three.wayland == state.wayland
        }),
{
}

/// Whatever a side reports first in a session is acted on: a clear crosses over,
/// and so does content, from Wayland where there is a target for X11 in it.
pub proof fn law_first_report_is_acted_on(content: Seq<OfferView>)
    ensures
        x11_changed(new_session(), UpdateView::Cleared).1 is Clear,
        wayland_changed(new_session(), UpdateView::Cleared).1 is Clear,
        x11_changed(new_session(), UpdateView::Changed(content)).1 == ActionView::Show(content),
        x11_target_list(content).len() > 0 ==> wayland_changed(
            new_session(),
            UpdateView::Changed(content),
        ).1 == ActionView::Show(content),
        new_session().ready_workers == 0,
{
}

} // verus!
