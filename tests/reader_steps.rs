use log_shipper::reader::{kind_for, reader_step, Origin, ReadOutcome, ReaderStep};
use log_shipper::types::{LogMessage, LogMessageKind};

fn chunk(o: Origin, b: &[u8]) -> ReadOutcome {
    ReadOutcome::Chunk(o, b.to_vec())
}

fn emitted(step: ReaderStep) -> LogMessage {
    match step {
        ReaderStep::Emit(m) => m,
        other => panic!("expected a message, got {:?}", other),
    }
}

#[test]
fn stdout_chunk_becomes_message() {
    let m = emitted(reader_step(&"foo".to_string(), chunk(Origin::StdOut, b"hello\n")));
    assert_eq!(m.backend_id, "foo");
    assert_eq!(m.kind, LogMessageKind::Stdout);
    assert_eq!(m.text, "hello\n");
}

#[test]
fn stderr_chunk_is_stderr() {
    let m = emitted(reader_step(&"b".to_string(), chunk(Origin::StdErr, b"oops")));
    assert_eq!(m.kind, LogMessageKind::Stderr);
    assert_eq!(m.text, "oops");
}

#[test]
fn other_channels_fold_into_stdout() {
    assert_eq!(kind_for(Origin::StdIn), LogMessageKind::Stdout);
    assert_eq!(kind_for(Origin::Console), LogMessageKind::Stdout);
    let m = emitted(reader_step(&"b".to_string(), chunk(Origin::Console, b"c")));
    assert_eq!(m.kind, LogMessageKind::Stdout);
}

#[test]
fn chunk_text_is_kept_exactly() {
    let m = emitted(reader_step(&"b".to_string(), chunk(Origin::StdOut, "  a\r\nb é ".as_bytes())));
    assert_eq!(m.text, "  a\r\nb é ");
}

#[test]
fn invalid_utf8_is_discarded() {
    let step = reader_step(&"b".to_string(), chunk(Origin::StdOut, &[0x66, 0xff, 0x6f]));
    assert!(matches!(step, ReaderStep::Discard));
    let truncated = reader_step(&"b".to_string(), chunk(Origin::StdErr, &[0xe6, 0x97]));
    assert!(matches!(truncated, ReaderStep::Discard));
}

#[test]
fn end_and_error_finish_the_reader() {
    assert!(matches!(reader_step(&"b".to_string(), ReadOutcome::Ended), ReaderStep::Finish));
    assert!(matches!(reader_step(&"b".to_string(), ReadOutcome::Failed), ReaderStep::Finish));
}

#[test]
fn invalid_chunk_between_valid_ones_is_skipped() {
    let reads = vec![
        chunk(Origin::StdOut, b"one\n"),
        chunk(Origin::StdOut, &[0xc3, 0x28]),
        chunk(Origin::StdErr, b"two\n"),
    ];
    let backend = "foo".to_string();
    let mut out = Vec::new();
    let mut finished = false;
    for r in reads {
        match reader_step(&backend, r) {
            ReaderStep::Finish => finished = true,
            ReaderStep::Discard => {}
            ReaderStep::Emit(m) => out.push(m),
        }
    }
    assert!(!finished);
    assert_eq!(out.len(), 2);
    assert_eq!((out[0].kind, out[0].text.as_str()), (LogMessageKind::Stdout, "one\n"));
    assert_eq!((out[1].kind, out[1].text.as_str()), (LogMessageKind::Stderr, "two\n"));
}
