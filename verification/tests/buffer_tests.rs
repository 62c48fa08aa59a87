use claude_supervisor::buffer::{LineAccumulator, OutputBuffer};

#[test]
fn accumulator_splits_on_line_feeds() {
    let mut acc = LineAccumulator::new();
    let lines = acc.feed(b"alpha\nbeta\ngam");
    assert_eq!(lines.len(), 2);
    assert_eq!(lines[0], b"alpha".to_vec());
    assert_eq!(lines[1], b"beta".to_vec());
    let rest = acc.feed(b"ma\n");
    assert_eq!(rest.len(), 1);
    assert_eq!(rest[0], b"gamma".to_vec());
}

#[test]
fn accumulator_strips_carriage_returns() {
    let mut acc = LineAccumulator::new();
    let lines = acc.feed(b"one\r\ntwo\n\r\n");
    assert_eq!(lines.len(), 3);
    assert_eq!(lines[0], b"one".to_vec());
    assert_eq!(lines[1], b"two".to_vec());
    assert_eq!(lines[2], b"".to_vec());
}

#[test]
fn accumulator_keeps_unterminated_tail_pending() {
    let mut acc = LineAccumulator::new();
    let lines = acc.feed(b"no newline yet");
    assert!(lines.is_empty());
    assert_eq!(acc.into_pending(), b"no newline yet".to_vec());
}

#[test]
fn accumulator_joins_lines_across_chunks() {
    let mut acc = LineAccumulator::new();
    assert!(acc.feed(b"sp").is_empty());
    assert!(acc.feed(b"li").is_empty());
    let lines = acc.feed(b"t\n");
    assert_eq!(lines.len(), 1);
    assert_eq!(lines[0], b"split".to_vec());
}

#[test]
fn buffer_appends_in_order_and_snapshots() {
    let mut buf = OutputBuffer::new();
    buf.push_stdout(String::from("first"));
    buf.push_stdout(String::from("second"));
    buf.push_stderr(String::from("oops"));
    let (out, err) = buf.snapshot();
    assert_eq!(out, vec![String::from("first"), String::from("second")]);
    assert_eq!(err, vec![String::from("oops")]);
}

#[test]
fn buffer_clear_resets_and_appends_restart_from_empty() {
    let mut buf = OutputBuffer::new();
    buf.push_stdout(String::from("stale"));
    buf.push_stderr(String::from("stale too"));
    buf.clear();
    let (out, err) = buf.snapshot();
    assert!(out.is_empty());
    assert!(err.is_empty());
    buf.push_stdout(String::from("fresh"));
    let (out2, err2) = buf.snapshot();
    assert_eq!(out2, vec![String::from("fresh")]);
    assert!(err2.is_empty());
}
