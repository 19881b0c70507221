use rustchain::journal::frame_record;
use rustchain::journal::split_records;

fn lines(log: &[u8]) -> Vec<Vec<u8>> {
    split_records(log)
}

#[test]
fn empty_log_has_no_records() {
    assert!(lines(b"").is_empty());
}

#[test]
fn records_end_at_line_feeds() {
    assert_eq!(lines(b"one\ntwo\nthree\n"), vec![b"one".to_vec(), b"two".to_vec(), b"three".to_vec()]);
}

#[test]
fn last_record_may_lack_its_line_feed() {
    assert_eq!(lines(b"one\ntwo"), vec![b"one".to_vec(), b"two".to_vec()]);
    assert_eq!(lines(b"one"), vec![b"one".to_vec()]);
}

#[test]
fn empty_lines_are_records() {
    assert_eq!(lines(b"\n"), vec![Vec::<u8>::new()]);
    assert_eq!(lines(b"a\n\nb\n"), vec![b"a".to_vec(), Vec::new(), b"b".to_vec()]);
    assert_eq!(lines(b"\n\n"), vec![Vec::<u8>::new(), Vec::new()]);
}

#[test]
fn one_carriage_return_is_dropped_before_a_line_feed() {
    assert_eq!(lines(b"one\r\ntwo\r\n"), vec![b"one".to_vec(), b"two".to_vec()]);
    assert_eq!(lines(b"one\r\r\n"), vec![b"one\r".to_vec()]);
    assert_eq!(lines(b"\r\n"), vec![Vec::<u8>::new()]);
    assert_eq!(lines(b"a\rb\n"), vec![b"a\rb".to_vec()]);
}

#[test]
fn carriage_return_stays_where_no_line_feed_follows() {
    assert_eq!(lines(b"one\r"), vec![b"one\r".to_vec()]);
    assert_eq!(lines(b"one\ntwo\r"), vec![b"one".to_vec(), b"two\r".to_vec()]);
}

#[test]
fn record_is_framed_by_a_line_feed() {
    assert_eq!(frame_record(b"{\"a\":1}"), b"{\"a\":1}\n");
    assert_eq!(frame_record(b""), b"\n");
}

#[test]
fn written_records_are_read_back() {
    let records: Vec<Vec<u8>> = vec![b"{\"height\":0}".to_vec(), b"{}".to_vec(), Vec::new(), b"x".to_vec()];
    let mut log = Vec::new();
    for record in &records {
        log.extend_from_slice(&frame_record(record));
    }
    assert_eq!(split_records(&log), records);
}
