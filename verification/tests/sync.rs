//! Keeping both sides in step.

use xwayclip::config::ReconnectDelay;
use xwayclip::fingerprint::Fingerprint;
use xwayclip::snapshot::{Offer, Snapshot};
use xwayclip::sync::{ClipboardUpdate, Coordinator, WaylandAction, X11Action};

fn snapshot(offers: &[(&str, &str)]) -> Snapshot {
    Snapshot::new(
        offers
            .iter()
            .map(|(mime_type, data)| Offer {
                mime_type: mime_type.to_string(),
                data: data.as_bytes().to_vec(),
            })
            .collect(),
    )
}

fn changed(offers: &[(&str, &str)]) -> ClipboardUpdate {
    ClipboardUpdate::Changed(snapshot(offers))
}

fn published(action: WaylandAction) -> (Snapshot, Fingerprint) {
    match action {
        WaylandAction::Publish(snapshot, fingerprint) => (snapshot, fingerprint),
        _ => panic!("nothing is published"),
    }
}

fn offered(action: X11Action) -> (Snapshot, Fingerprint) {
    match action {
        X11Action::Offer(snapshot, fingerprint) => (snapshot, fingerprint),
        _ => panic!("nothing is offered"),
    }
}

#[test]
fn echo_of_a_publication_is_ignored() {
    let mut coordinator = Coordinator::new();
    let (content, fingerprint) =
        published(coordinator.sync_from_x11(changed(&[("UTF8_STRING", "text")])));
    assert_eq!(content.mime_types(), ["UTF8_STRING"]);
    assert_eq!(fingerprint, content.wayland_fingerprint());
    coordinator.wayland_published(fingerprint);

    let echo = changed(&[
        ("text/plain;charset=utf-8", "text"),
        ("UTF8_STRING", "text"),
        ("text/plain", "text"),
        ("TEXT", "text"),
        ("STRING", "text"),
    ]);
    assert!(matches!(coordinator.sync_from_wayland(echo), X11Action::Ignore));
    assert!(matches!(
        coordinator.sync_from_x11(changed(&[("UTF8_STRING", "text")])),
        WaylandAction::Ignore
    ));
}

#[test]
fn echo_of_an_offer_is_ignored() {
    let mut coordinator = Coordinator::new();
    let (content, fingerprint) =
        offered(coordinator.sync_from_wayland(changed(&[("image/png", "png"), ("TEXT", "t")])));
    assert_eq!(fingerprint, content.fingerprint());
    coordinator.x11_offered(fingerprint);

    assert!(matches!(
        coordinator.sync_from_x11(changed(&[("TEXT", "t"), ("image/png", "png")])),
        WaylandAction::Ignore
    ));
    assert!(matches!(
        coordinator.sync_from_wayland(changed(&[("TEXT", "t"), ("image/png", "png")])),
        X11Action::Ignore
    ));
}

#[test]
fn new_content_is_no_echo() {
    let mut coordinator = Coordinator::new();
    let (_, fingerprint) = published(coordinator.sync_from_x11(changed(&[("TEXT", "one")])));
    coordinator.wayland_published(fingerprint);

    offered(coordinator.sync_from_wayland(changed(&[("TEXT", "two")])));
    published(coordinator.sync_from_x11(changed(&[("TEXT", "three")])));
}

#[test]
fn a_failed_publication_is_not_taken_for_known() {
    let mut coordinator = Coordinator::new();
    let (_, _) = published(coordinator.sync_from_x11(changed(&[("image/png", "p")])));

    offered(coordinator.sync_from_wayland(changed(&[("image/png", "p")])));
}

#[test]
fn clearing_x11_clears_wayland_once() {
    let mut coordinator = Coordinator::new();
    assert!(matches!(
        coordinator.sync_from_x11(ClipboardUpdate::Cleared),
        WaylandAction::Clear
    ));
    coordinator.wayland_cleared();

    assert!(matches!(
        coordinator.sync_from_wayland(ClipboardUpdate::Cleared),
        X11Action::Ignore
    ));
    assert!(matches!(
        coordinator.sync_from_x11(ClipboardUpdate::Cleared),
        WaylandAction::Ignore
    ));
}

#[test]
fn clearing_wayland_clears_x11_once() {
    let mut coordinator = Coordinator::new();
    assert!(matches!(
        coordinator.sync_from_wayland(ClipboardUpdate::Cleared),
        X11Action::Clear
    ));
    coordinator.x11_cleared();

    assert!(matches!(
        coordinator.sync_from_x11(ClipboardUpdate::Cleared),
        WaylandAction::Ignore
    ));
    assert!(matches!(
        coordinator.sync_from_wayland(ClipboardUpdate::Cleared),
        X11Action::Ignore
    ));
}

#[test]
fn content_after_a_clear_is_shown() {
    let mut coordinator = Coordinator::new();
    coordinator.sync_from_x11(ClipboardUpdate::Cleared);
    coordinator.wayland_cleared();

    published(coordinator.sync_from_x11(changed(&[("TEXT", "t")])));
    offered(coordinator.sync_from_wayland(changed(&[("TEXT", "u")])));
}

#[test]
fn content_without_x11_targets_is_not_offered() {
    let mut coordinator = Coordinator::new();
    assert!(matches!(
        coordinator.sync_from_wayland(changed(&[("TARGETS", "t"), ("INCR", "i")])),
        X11Action::Ignore
    ));
    // X11 has not followed, so what it had before is still to be dealt with.
    published(coordinator.sync_from_x11(changed(&[("TARGETS", "t"), ("INCR", "i")])));
}

#[test]
fn second_ready_worker_resets_the_delay() {
    let mut coordinator = Coordinator::new();
    let mut delay = ReconnectDelay::new();
    delay.back_off();
    delay.back_off();

    assert!(!coordinator.worker_ready(&mut delay));
    assert_eq!(delay.seconds(), 4);
    assert!(coordinator.worker_ready(&mut delay));
    assert_eq!(delay.seconds(), 1);
    delay.back_off();
    assert!(!coordinator.worker_ready(&mut delay));
    assert_eq!(delay.seconds(), 2);
    assert_eq!(coordinator.ready_workers(), 3);
}
