use replance::history::HistoryStore;
use replance::lines::frame_line;
use replance::session::Session;

#[test]
fn frame_line_appends_single_newline() {
    assert_eq!(frame_line(&b"abc".to_vec()), b"abc\n".to_vec());
    assert_eq!(frame_line(&b"".to_vec()), b"\n".to_vec());
}

#[test]
fn submitted_lines_reach_wire_in_order() {
    let mut s = Session::new(HistoryStore::new());
    let mut wire: Vec<u8> = Vec::new();
    wire.extend(s.submit(b"hello".to_vec()));
    wire.extend(s.submit(b"world".to_vec()));
    assert_eq!(wire, b"hello\nworld\n".to_vec());
}

#[test]
fn history_round_trip_two_sessions() {
    let mut h = HistoryStore::new();
    h.add(b"first line".to_vec());
    h.add(b"second".to_vec());
    let file = h.render();
    assert_eq!(file, b"first line\nsecond\n".to_vec());

    let again = HistoryStore::parse(&file);
    assert_eq!(again.count(), 2);
    assert_eq!(again.entry(0), &b"first line".to_vec());
    assert_eq!(again.entry(1), &b"second".to_vec());
}

#[test]
fn second_session_extends_loaded_history() {
    let loaded = HistoryStore::parse(&b"old\n".to_vec());
    let mut s = Session::new(loaded);
    let _ = s.submit(b"new".to_vec());
    let saved = s.into_history().render();
    assert_eq!(saved, b"old\nnew\n".to_vec());
}

#[test]
fn parse_empty_file() {
    let h = HistoryStore::parse(&Vec::new());
    assert_eq!(h.count(), 0);
}

#[test]
fn parse_keeps_empty_entries() {
    let h = HistoryStore::parse(&b"a\n\nb\n".to_vec());
    assert_eq!(h.count(), 3);
    assert_eq!(h.entry(0), &b"a".to_vec());
    assert_eq!(h.entry(1), &b"".to_vec());
    assert_eq!(h.entry(2), &b"b".to_vec());
}

#[test]
fn parse_keeps_trailing_piece_without_newline() {
    let h = HistoryStore::parse(&b"a\nb".to_vec());
    assert_eq!(h.count(), 2);
    assert_eq!(h.entry(1), &b"b".to_vec());
}
