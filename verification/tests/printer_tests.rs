use replance::jsonmode::{Event, JsonPrinter};
use replance::raw::RawPrinter;

#[test]
fn raw_identity_rechunked() {
    let mut p = RawPrinter::new();
    let mut printed: Vec<u8> = Vec::new();
    for line in p.feed(&b"hel".to_vec()) {
        printed.extend(line);
    }
    for line in p.feed(&b"lo\nwor".to_vec()) {
        printed.extend(line);
    }
    for line in p.feed(&b"ld".to_vec()) {
        printed.extend(line);
    }
    printed.extend(p.finish());
    assert_eq!(printed, b"hello\nworld".to_vec());
}

#[test]
fn raw_emits_complete_lines_only() {
    let mut p = RawPrinter::new();
    let lines = p.feed(&b"a\nb\nc".to_vec());
    assert_eq!(lines, vec![b"a\n".to_vec(), b"b\n".to_vec()]);
    assert_eq!(p.finish(), b"c".to_vec());
}

#[test]
fn raw_remote_close_with_nothing_pending() {
    let mut p = RawPrinter::new();
    let lines = p.feed(&b"done\n".to_vec());
    assert_eq!(lines, vec![b"done\n".to_vec()]);
    assert_eq!(p.finish(), Vec::<u8>::new());
}

#[test]
fn json_value_is_pretty_printed() {
    let mut p = JsonPrinter::new();
    let evs = p.feed(&b"{\"a\":1}".to_vec());
    assert_eq!(evs.len(), 1);
    match &evs[0] {
        Event::Json(t) => assert_eq!(t, &b"{\n  \"a\": 1\n}".to_vec()),
        Event::Notice(_) => panic!("expected a value"),
    }
}

#[test]
fn malformed_value_reports_and_continues() {
    let mut p = JsonPrinter::new();
    let evs = p.feed(&b"{\"a\":1}garbage{\"b\":2}".to_vec());
    assert_eq!(evs.len(), 3);
    match &evs[0] {
        Event::Json(t) => assert_eq!(t, &b"{\n  \"a\": 1\n}".to_vec()),
        Event::Notice(_) => panic!("expected a value"),
    }
    assert!(matches!(&evs[1], Event::Notice(_)));
    match &evs[2] {
        Event::Json(t) => assert_eq!(t, &b"{\n  \"b\": 2\n}".to_vec()),
        Event::Notice(_) => panic!("expected a value"),
    }
}

#[test]
fn round_trip_preserves_value() {
    let input = b"{\"k\":[1,2,{\"x\":null}],\"s\":\"hi\"}".to_vec();
    let mut p = JsonPrinter::new();
    let evs = p.feed(&input);
    assert_eq!(evs.len(), 1);
    let text = match &evs[0] {
        Event::Json(t) => t.clone(),
        Event::Notice(_) => panic!("expected a value"),
    };
    let original: serde_json::Value = serde_json::from_slice(&input).unwrap();
    let reparsed: serde_json::Value = serde_json::from_slice(&text).unwrap();
    assert_eq!(original, reparsed);
}

#[test]
fn value_split_across_chunks() {
    let mut p = JsonPrinter::new();
    let first = p.feed(&b"{\"a\":".to_vec());
    assert_eq!(first.len(), 0);
    let second = p.feed(&b"1}".to_vec());
    assert_eq!(second.len(), 1);
    assert!(matches!(&second[0], Event::Json(_)));
}

#[test]
fn adjacent_and_spaced_values() {
    let mut p = JsonPrinter::new();
    let evs = p.feed(&b"1 2\ntrue".to_vec());
    let texts: Vec<Vec<u8>> = evs
        .into_iter()
        .map(|e| match e {
            Event::Json(t) => t,
            Event::Notice(_) => panic!("expected values only"),
        })
        .collect();
    assert_eq!(texts, vec![b"1".to_vec(), b"2".to_vec(), b"true".to_vec()]);
}

#[test]
fn whole_garbage_yields_one_notice() {
    let mut p = JsonPrinter::new();
    let evs = p.feed(&b"garbage".to_vec());
    assert_eq!(evs.len(), 1);
    assert!(matches!(&evs[0], Event::Notice(_)));
}

#[test]
fn close_mid_value_reports() {
    let mut p = JsonPrinter::new();
    let during = p.feed(&b"{\"a\":".to_vec());
    assert_eq!(during.len(), 0);
    let at_close = p.finish();
    assert_eq!(at_close.len(), 1);
    assert!(matches!(&at_close[0], Event::Notice(_)));
}

#[test]
fn close_with_nothing_pending_is_silent() {
    let mut p = JsonPrinter::new();
    let evs = p.feed(&b"null".to_vec());
    assert_eq!(evs.len(), 1);
    assert_eq!(p.finish().len(), 0);
}
