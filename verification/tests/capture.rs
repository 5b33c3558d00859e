//! Capturing snapshots.

use xwayclip::capture::{
    can_receive, CompleteCapture, NameStep, TargetFetch, TargetQuery, TargetStep, TypeFetch,
    TypeStep, WaylandCapture, WaylandCaptureError, X11Capture, X11CaptureError, MAX_TARGET_COUNT,
    TARGET_LIST_LIMIT,
};
use xwayclip::property::PropertyValue;
use xwayclip::snapshot::{Offer, Snapshot, PLAIN_TEXT_MIME_TYPES};
use xwayclip::wayland::publish;
use xwayclip::wire::ByteOrder;
use xwayclip::Config;

const ATOM: u32 = 4;

fn config(max_target_bytes: usize, max_total_bytes: usize) -> Config {
    match Config::new(max_target_bytes, max_total_bytes, 1_000_000) {
        Ok(config) => config,
        Err(error) => panic!("{}", error.message()),
    }
}

fn offer(mime_type: &str, data: &[u8]) -> Offer {
    Offer {
        mime_type: mime_type.to_owned(),
        data: data.to_vec(),
    }
}

fn atoms(atoms: &[u32]) -> PropertyValue {
    PropertyValue {
        type_: ATOM,
        format: 32,
        data: atoms.iter().flat_map(|atom| atom.to_ne_bytes()).collect(),
        exceeded_limit: false,
    }
}

fn data(bytes: &[u8]) -> PropertyValue {
    PropertyValue {
        type_: 1,
        format: 8,
        data: bytes.to_vec(),
        exceeded_limit: false,
    }
}

fn started(result: Result<X11Capture, X11CaptureError>) -> X11Capture {
    match result {
        Ok(capture) => capture,
        Err(_) => panic!("the capture failed"),
    }
}

fn query(step: TargetStep) -> TargetQuery {
    match step {
        TargetStep::Query(query) => query,
        _ => panic!("there is no further target"),
    }
}

fn finished(step: TargetStep) -> CompleteCapture {
    match step {
        TargetStep::Finished(complete) => complete,
        _ => panic!("there is a further target"),
    }
}

fn not_text(step: NameStep) -> X11Capture {
    match step {
        NameStep::NotText(capture) => capture,
        _ => panic!("the name is text"),
    }
}

fn not_content(step: NameStep, expected: &str) -> X11Capture {
    match step {
        NameStep::NotContent(capture, name) => {
            assert_eq!(name, expected);
            capture
        }
        _ => panic!("the name is not that of a protocol target"),
    }
}

fn fetched(step: NameStep) -> TargetFetch {
    match step {
        NameStep::Fetch(fetch) => fetch,
        _ => panic!("the target is skipped"),
    }
}

fn contents(snapshot: &Snapshot) -> Vec<(&str, &[u8])> {
    snapshot
        .offers()
        .iter()
        .map(|offer| (offer.mime_type.as_str(), offer.data.as_slice()))
        .collect()
}

#[test]
fn x11_capture_takes_every_transferable_target() {
    let capture = started(X11Capture::begin(config(4, 6), &atoms(&[10, 11, 12, 13, 14])));

    let next = query(capture.next_target(false));
    assert_eq!(next.atom(), 10);
    let capture = not_content(next.name(b"TARGETS".to_vec()), "TARGETS");

    let next = query(capture.next_target(false));
    assert_eq!(next.atom(), 11);
    let fetch = fetched(next.name(b"text/plain".to_vec()));
    assert_eq!(fetch.atom(), 11);
    assert_eq!(fetch.mime_type(), "text/plain");
    assert_eq!(fetch.limit(), 4);
    let capture = started(fetch.receive(data(b"abcd")));

    let next = query(capture.next_target(false));
    assert_eq!(next.atom(), 12);
    let capture = not_text(next.name(vec![0xff, b'x']));

    let next = query(capture.next_target(false));
    assert_eq!(next.atom(), 13);
    let fetch = fetched(next.name("é".as_bytes().to_vec()));
    assert_eq!(fetch.mime_type(), "é");
    assert_eq!(fetch.limit(), 2);
    let capture = started(fetch.receive(data(b"ef")));

    let next = query(capture.next_target(false));
    let fetch = fetched(next.name(b"image/png".to_vec()));
    assert_eq!(fetch.limit(), 0);
    let capture = started(fetch.receive(data(b"")));

    let Some(snapshot) = finished(capture.next_target(false)).finish(false) else {
        panic!("nothing was captured");
    };
    assert_eq!(
        contents(&snapshot),
        [
            ("image/png", b"".as_slice()),
            ("text/plain", b"abcd"),
            ("é", b"ef"),
        ]
    );
}

#[test]
fn x11_capture_keeps_the_first_of_equal_targets() {
    let capture = started(X11Capture::begin(config(9, 9), &atoms(&[1, 2])));
    let fetch = fetched(query(capture.next_target(false)).name(b"TEXT".to_vec()));
    let capture = started(fetch.receive(data(b"one")));
    let fetch = fetched(query(capture.next_target(false)).name(b"TEXT".to_vec()));
    let capture = started(fetch.receive(data(b"two")));

    let Some(snapshot) = finished(capture.next_target(false)).finish(false) else {
        panic!("nothing was captured");
    };
    assert_eq!(contents(&snapshot), [("TEXT", b"one".as_slice())]);
}

#[test]
fn x11_capture_gives_up_when_superseded() {
    let capture = started(X11Capture::begin(config(9, 9), &atoms(&[1])));
    assert!(matches!(capture.next_target(true), TargetStep::Superseded));

    let capture = started(X11Capture::begin(config(9, 9), &atoms(&[1])));
    let fetch = fetched(query(capture.next_target(false)).name(b"TEXT".to_vec()));
    let capture = started(fetch.receive(data(b"one")));
    assert!(finished(capture.next_target(true)).finish(true).is_none());
}

#[test]
fn x11_capture_of_nothing_is_none() {
    let capture = started(X11Capture::begin(config(9, 9), &atoms(&[])));
    assert!(finished(capture.next_target(true)).finish(false).is_none());

    let capture = started(X11Capture::begin(config(9, 9), &atoms(&[1])));
    let capture = not_content(query(capture.next_target(false)).name(b"".to_vec()), "");
    assert!(finished(capture.next_target(false)).finish(false).is_none());
}

#[test]
fn x11_capture_needs_a_list_of_atoms() {
    let mut targets = atoms(&[1]);
    targets.format = 8;
    targets.exceeded_limit = true;
    assert!(matches!(
        X11Capture::begin(config(9, 9), &targets),
        Err(X11CaptureError::NotAtoms)
    ));

    let mut targets = atoms(&[]);
    targets.exceeded_limit = true;
    assert!(matches!(
        X11Capture::begin(config(9, 9), &targets),
        Err(X11CaptureError::TooManyTargets)
    ));
}

#[test]
fn x11_capture_refuses_a_target_over_its_limit() {
    let capture = started(X11Capture::begin(config(2, 9), &atoms(&[1])));
    let fetch = fetched(query(capture.next_target(false)).name(b"image/png".to_vec()));
    let mut value = data(b"");
    value.exceeded_limit = true;

    let Err(X11CaptureError::TargetTooLarge(mime_type)) = fetch.receive(value) else {
        panic!("the target was accepted");
    };
    assert_eq!(mime_type, "image/png");
}

#[test]
fn x11_capture_reads_atoms_in_the_given_order() {
    let targets = PropertyValue {
        type_: ATOM,
        format: 32,
        data: vec![1, 0, 0, 0],
        exceeded_limit: false,
    };

    let little = started(X11Capture::begin_in(ByteOrder::Little, config(9, 9), &targets));
    assert_eq!(query(little.next_target(false)).atom(), 1);
    let big = started(X11Capture::begin_in(ByteOrder::Big, config(9, 9), &targets));
    assert_eq!(query(big.next_target(false)).atom(), 0x0100_0000);
}

#[test]
fn list_limit_is_that_of_its_atoms() {
    assert_eq!(MAX_TARGET_COUNT, 4096);
    assert_eq!(TARGET_LIST_LIMIT, 16_384);
}

fn receivable(step: TypeStep) -> TypeFetch {
    match step {
        TypeStep::Receive(fetch) => fetch,
        _ => panic!("there is no further MIME type"),
    }
}

fn whole(step: TypeStep) -> Option<Snapshot> {
    match step {
        TypeStep::Finished(snapshot) => snapshot,
        _ => panic!("there is a further MIME type"),
    }
}

fn names(names: &[&str]) -> Vec<String> {
    names.iter().map(|name| name.to_string()).collect()
}

#[test]
fn wayland_capture_takes_each_type_once_and_in_order() {
    let advertised = names(&["text/plain", "image/png", "", "a\0b", "text/plain", "TEXT"]);
    let mut capture = WaylandCapture::begin(config(9, 100), advertised);
    for (mime_type, data) in [("TEXT", "1"), ("image/png", ""), ("text/plain", "333")] {
        let fetch = receivable(capture.next_type());
        assert_eq!(fetch.mime_type(), mime_type);
        capture = match fetch.receive(data.as_bytes().to_vec()) {
            Ok(capture) => capture,
            Err(error) => panic!("{}", error.message()),
        };
    }

    let Some(snapshot) = whole(capture.next_type()) else {
        panic!("nothing was captured");
    };
    assert_eq!(
        contents(&snapshot),
        [
            ("TEXT", b"1".as_slice()),
            ("image/png", b""),
            ("text/plain", b"333"),
        ]
    );
}

#[test]
fn wayland_capture_of_nothing_is_none() {
    assert!(whole(WaylandCapture::begin(config(1, 1), vec![]).next_type()).is_none());
    assert!(whole(WaylandCapture::begin(config(1, 1), names(&["", "\0"])).next_type()).is_none());
}

#[test]
fn wayland_capture_keeps_the_total_limit() {
    let fetch = receivable(WaylandCapture::begin(config(9, 3), names(&["a", "b"])).next_type());
    let Err(error) = fetch.receive(b"1234".to_vec()) else {
        panic!("the data was accepted");
    };
    assert_eq!(error, WaylandCaptureError::TotalTooLarge);
    assert_eq!(
        error.message(),
        "Wayland clipboard exceeds its total size limit"
    );

    let full = || {
        let capture = WaylandCapture::begin(config(9, 3), names(&["a", "b"]));
        match receivable(capture.next_type()).receive(b"123".to_vec()) {
            Ok(capture) => receivable(capture.next_type()),
            Err(error) => panic!("{}", error.message()),
        }
    };
    assert_eq!(full().mime_type(), "b");
    let Err(error) = full().receive(b"4".to_vec()) else {
        panic!("the data was accepted");
    };
    assert_eq!(error, WaylandCaptureError::TotalTooLarge);
}

#[test]
fn wayland_capture_accepts_exactly_the_total_limit() {
    let capture = WaylandCapture::begin(config(9, 3), names(&["a", "b"]));
    let Ok(capture) = receivable(capture.next_type()).receive(b"123".to_vec()) else {
        panic!("the data was refused");
    };
    let Ok(capture) = receivable(capture.next_type()).receive(b"".to_vec()) else {
        panic!("empty data was refused");
    };
    let Some(snapshot) = whole(capture.next_type()) else {
        panic!("nothing was captured");
    };

    assert_eq!(
        contents(&snapshot),
        [("a", b"123".as_slice()), ("b", b"")]
    );
    assert_eq!(snapshot.total_bytes(), 3);
}

#[test]
fn wayland_capture_within_the_limit_of_a_target_keeps_both_limits() {
    let limits = config(2, 5);
    let limit = limits.target_limit(0);
    assert_eq!(limit, 2);
    assert_eq!(config(9, 5).target_limit(0), 5);

    let mut capture = WaylandCapture::begin(limits, names(&["a", "b", "c"]));
    for data in [b"12".as_slice(), b"34", b"5"] {
        assert!(data.len() <= limit);
        capture = match receivable(capture.next_type()).receive(data.to_vec()) {
            Ok(capture) => capture,
            Err(error) => panic!("{}", error.message()),
        };
    }
    let Some(snapshot) = whole(capture.next_type()) else {
        panic!("nothing was captured");
    };

    assert!(snapshot
        .offers()
        .iter()
        .all(|offer| offer.data.len() <= limits.max_target_bytes()));
    assert_eq!(snapshot.total_bytes(), limits.max_total_bytes());
}

#[test]
fn only_proper_mime_types_can_be_received() {
    assert!(can_receive("text/plain"));
    assert!(can_receive("TARGETS"));
    assert!(!can_receive(""));
    assert!(!can_receive("a\0b"));
}

#[test]
fn a_full_capture_may_end() {
    let fetch = receivable(WaylandCapture::begin(config(9, 3), names(&["a"])).next_type());
    let Ok(capture) = fetch.receive(b"123".to_vec()) else {
        panic!("the data was refused");
    };

    assert!(whole(capture.next_type()).is_some());
}

#[test]
fn publishing_puts_the_preferred_text_first() {
    let publication = publish(Snapshot::new(vec![
        offer("image/png", b"png"),
        offer("TEXT", b"latin"),
        offer("text/plain", b"plain"),
    ]));
    let types: Vec<&str> = publication
        .sources
        .iter()
        .map(|source| source.mime_type.as_str())
        .collect();

    assert_eq!(types, ["text/plain", "TEXT", "image/png"]);
    assert_eq!(publication.sources[0].data, b"plain");
    assert!(!publication.omit_additional_text_mime_types);
}

#[test]
fn publishing_without_text_keeps_the_order() {
    let publication = publish(Snapshot::new(vec![
        offer("text/html", b"<p>"),
        offer("image/png", b"png"),
    ]));
    let types: Vec<&str> = publication
        .sources
        .iter()
        .map(|source| source.mime_type.as_str())
        .collect();

    assert_eq!(types, ["image/png", "text/html"]);
    assert!(publication.omit_additional_text_mime_types);
}

#[test]
fn published_content_reads_back_with_its_wayland_fingerprint() {
    let content = || {
        Snapshot::new(vec![
            offer("image/png", b"png"),
            offer("STRING", b"latin"),
            offer("UTF8_STRING", b"utf8"),
        ])
    };
    let publication = publish(content());
    let text = publication.sources[0].data.clone();
    let mut there: Vec<(String, Vec<u8>)> = publication
        .sources
        .into_iter()
        .map(|source| (source.mime_type, source.data))
        .collect();
    assert!(!publication.omit_additional_text_mime_types);
    for mime_type in PLAIN_TEXT_MIME_TYPES {
        if there.iter().all(|(name, _)| name != mime_type) {
            there.push((mime_type.to_owned(), text.clone()));
        }
    }

    let advertised = there.iter().map(|(name, _)| name.clone()).collect();
    let mut capture = WaylandCapture::begin(config(100, 100), advertised);
    let snapshot = loop {
        let fetch = match capture.next_type() {
            TypeStep::Receive(fetch) => fetch,
            TypeStep::Finished(snapshot) => break snapshot,
        };
        let found = there.iter().find(|(name, _)| name == fetch.mime_type());
        let data = found.map(|(_, data)| data.clone()).unwrap_or_default();
        capture = match fetch.receive(data) {
            Ok(capture) => capture,
            Err(error) => panic!("{}", error.message()),
        };
    };
    let Some(snapshot) = snapshot else {
        panic!("nothing was captured");
    };

    assert_eq!(snapshot.offers().len(), 6);
    assert_eq!(snapshot.fingerprint(), content().wayland_fingerprint());
}
