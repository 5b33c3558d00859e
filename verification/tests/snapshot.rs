//! Snapshots and their fingerprints.

use xwayclip::snapshot::{is_x11_target, Offer, Snapshot, PLAIN_TEXT_MIME_TYPES};

fn offer(mime_type: &str, data: &[u8]) -> Offer {
    Offer {
        mime_type: mime_type.to_owned(),
        data: data.to_vec(),
    }
}

fn contents(snapshot: &Snapshot) -> Vec<(&str, &[u8])> {
    snapshot
        .offers()
        .iter()
        .map(|offer| (offer.mime_type.as_str(), offer.data.as_slice()))
        .collect()
}

/// The bytes that the digest is taken over.
fn framed(offers: &[(&str, &[u8])]) -> Vec<u8> {
    let mut bytes = Vec::new();
    for (mime_type, data) in offers {
        bytes.extend_from_slice(&mime_type.len().to_le_bytes());
        bytes.extend_from_slice(mime_type.as_bytes());
        bytes.extend_from_slice(&data.len().to_le_bytes());
        bytes.extend_from_slice(data);
    }
    bytes
}

#[test]
fn fingerprint_is_independent_of_target_order() {
    let left = Snapshot::new(vec![
        offer("text/html", b"html"),
        offer("UTF8_STRING", b"text"),
    ]);
    let right = Snapshot::new(vec![
        offer("UTF8_STRING", b"text"),
        offer("text/html", b"html"),
    ]);

    assert_eq!(left.fingerprint(), right.fingerprint());
}

#[test]
fn fingerprint_includes_mime_type_and_data() {
    let snapshot = Snapshot::new(vec![offer("text/html", b"same")]);
    let other_mime = Snapshot::new(vec![offer("UTF8_STRING", b"same")]);
    let other_data = Snapshot::new(vec![offer("text/html", b"different")]);

    assert_ne!(snapshot.fingerprint(), other_mime.fingerprint());
    assert_ne!(snapshot.fingerprint(), other_data.fingerprint());
}

#[test]
fn wayland_fingerprint_includes_missing_text_aliases() {
    let source = Snapshot::new(vec![offer("UTF8_STRING", b"text")]);
    let expanded = Snapshot::new(
        PLAIN_TEXT_MIME_TYPES
            .into_iter()
            .map(|mime_type| offer(mime_type, b"text"))
            .collect(),
    );

    assert_eq!(source.wayland_fingerprint(), expanded.fingerprint());
}

#[test]
fn fingerprint_is_the_digest_of_the_ordered_frames() {
    let snapshot = Snapshot::new(vec![
        offer("text/html", b"<b>"),
        offer("UTF8_STRING", b"text"),
        offer("image/png", &[0, 1, 2, 255]),
    ]);
    let input = framed(&[
        ("UTF8_STRING", b"text"),
        ("image/png", &[0, 1, 2, 255]),
        ("text/html", b"<b>"),
    ]);

    assert_eq!(snapshot.fingerprint().bytes, *blake3::hash(&input).as_bytes());
}

#[test]
fn fingerprint_matches_an_incremental_hash() {
    let snapshot = Snapshot::new(vec![offer("text/plain", &[7; 5000])]);
    let mut hasher = blake3::Hasher::new();
    hasher.update(&10_usize.to_le_bytes());
    hasher.update(b"text/plain");
    hasher.update(&5000_usize.to_le_bytes());
    hasher.update(&[7; 5000]);

    assert_eq!(snapshot.fingerprint().bytes, *hasher.finalize().as_bytes());
}

#[test]
fn empty_snapshot_has_the_digest_of_nothing() {
    let snapshot = Snapshot::new(vec![]);

    assert_eq!(snapshot.fingerprint().bytes, *blake3::hash(b"").as_bytes());
    assert_eq!(snapshot.wayland_fingerprint(), snapshot.fingerprint());
    assert_eq!(snapshot.total_bytes(), 0);
    assert!(snapshot.x11_targets().is_empty());
    assert_eq!(snapshot.preferred_text_index(), None);
}

#[test]
fn frames_do_not_run_into_one_another() {
    let joined = Snapshot::new(vec![offer("ab", b"cd")]);
    let shifted = Snapshot::new(vec![offer("abc", b"d")]);
    let split = Snapshot::new(vec![offer("a", b""), offer("b", b"cd")]);

    assert_ne!(joined.fingerprint(), shifted.fingerprint());
    assert_ne!(joined.fingerprint(), split.fingerprint());
}

#[test]
fn wayland_fingerprint_keeps_the_types_that_are_there() {
    let source = Snapshot::new(vec![
        offer("TEXT", b"latin"),
        offer("text/plain", b"plain"),
        offer("image/png", b"png"),
    ]);
    let expanded = Snapshot::new(vec![
        offer("text/plain;charset=utf-8", b"plain"),
        offer("UTF8_STRING", b"plain"),
        offer("text/plain", b"plain"),
        offer("TEXT", b"latin"),
        offer("STRING", b"plain"),
        offer("image/png", b"png"),
    ]);

    assert_eq!(source.wayland_fingerprint(), expanded.fingerprint());
    assert_ne!(source.fingerprint(), expanded.fingerprint());
}

#[test]
fn expanded_text_reads_as_it_is() {
    let expanded = Snapshot::new(vec![
        offer("text/plain;charset=utf-8", b"plain"),
        offer("UTF8_STRING", b"plain"),
        offer("text/plain", b"plain"),
        offer("TEXT", b"latin"),
        offer("STRING", b"plain"),
    ]);

    assert_eq!(expanded.wayland_fingerprint(), expanded.fingerprint());
}

#[test]
fn content_without_text_has_no_aliases() {
    let image = Snapshot::new(vec![offer("image/png", b"png"), offer("text/html", b"<p>")]);

    assert_eq!(image.wayland_fingerprint(), image.fingerprint());
}

#[test]
fn offers_are_ordered_and_the_first_of_a_type_counts() {
    let snapshot = Snapshot::new(vec![
        offer("text/plain", b"first"),
        offer("image/png", b"png"),
        offer("text/plain", b"second"),
        offer("TEXT", b"text"),
        offer("image/png", b"other"),
    ]);

    assert_eq!(
        contents(&snapshot),
        [
            ("TEXT", b"text".as_slice()),
            ("image/png", b"png"),
            ("text/plain", b"first"),
        ]
    );
    assert_eq!(snapshot.mime_types(), ["TEXT", "image/png", "text/plain"]);
    assert_eq!(snapshot.total_bytes(), 12);
}

#[test]
fn offers_are_ordered_by_bytes() {
    let snapshot = Snapshot::new(vec![
        offer("ab", b""),
        offer("é", b""),
        offer("a", b""),
        offer("z", b""),
        offer("Z", b""),
        offer("", b""),
    ]);

    assert_eq!(snapshot.mime_types(), ["", "Z", "a", "ab", "z", "é"]);
}

#[test]
fn preferred_text_follows_the_list_of_types() {
    let snapshot = Snapshot::new(vec![
        offer("STRING", b"1"),
        offer("TEXT", b"2"),
        offer("text/plain", b"3"),
    ]);
    assert_eq!(snapshot.preferred_text_index(), Some(2));

    let snapshot = Snapshot::new(vec![
        offer("UTF8_STRING", b"1"),
        offer("text/plain;charset=utf-8", b"2"),
        offer("text/plain", b"3"),
    ]);
    assert_eq!(snapshot.mime_types()[2], "text/plain;charset=utf-8");
    assert_eq!(snapshot.preferred_text_index(), Some(2));

    let snapshot = Snapshot::new(vec![offer("STRING", b"1"), offer("TEXT", b"2")]);
    assert_eq!(snapshot.preferred_text_index(), Some(1));
}

#[test]
fn x11_targets_leave_out_protocol_targets() {
    let snapshot = Snapshot::new(vec![
        offer("TARGETS", b"x"),
        offer("image/png", b"png"),
        offer("", b"x"),
        offer("a\0b", b"x"),
        offer("STRING", b"text"),
    ]);

    // In order: "", "STRING", "TARGETS", "a\0b", "image/png".
    assert_eq!(snapshot.x11_targets(), [("STRING", 1), ("image/png", 4)]);
}

#[test]
fn x11_targets_add_utf8_string_for_utf8_text() {
    let snapshot = Snapshot::new(vec![
        offer("text/plain;charset=utf-8", b"text"),
        offer("image/png", b"png"),
        offer("TEXT", b"text"),
    ]);

    assert_eq!(
        snapshot.x11_targets(),
        [
            ("TEXT", 0),
            ("UTF8_STRING", 2),
            ("image/png", 1),
            ("text/plain;charset=utf-8", 2),
        ]
    );
}

#[test]
fn x11_targets_keep_an_offered_utf8_string() {
    let snapshot = Snapshot::new(vec![
        offer("text/plain;charset=utf-8", b"one"),
        offer("UTF8_STRING", b"two"),
    ]);

    assert_eq!(
        snapshot.x11_targets(),
        [("UTF8_STRING", 0), ("text/plain;charset=utf-8", 1)]
    );
}

#[test]
fn every_control_target_is_refused() {
    for name in [
        "ATOM",
        "ATOM_PAIR",
        "DELETE",
        "INCR",
        "INSERT_PROPERTY",
        "INSERT_SELECTION",
        "MULTIPLE",
        "SAVE_TARGETS",
        "TARGETS",
        "TIMESTAMP",
        "",
        "\0",
        "text\0",
    ] {
        assert!(!is_x11_target(name), "{name:?}");
    }
    for name in ["UTF8_STRING", "text/plain", "targets", "INCRX", "ATO"] {
        assert!(is_x11_target(name), "{name:?}");
    }
}

#[test]
fn into_offers_gives_back_the_ordered_offers() {
    let offers = Snapshot::new(vec![offer("b", b"2"), offer("a", b"1")]).into_offers();

    assert_eq!(offers.len(), 2);
    assert_eq!(offers[0].mime_type, "a");
    assert_eq!(offers[0].data, b"1");
    assert_eq!(offers[1].mime_type, "b");
    assert_eq!(offers[1].data, b"2");
}
