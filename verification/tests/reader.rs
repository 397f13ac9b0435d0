use archive_list::reader::{ReadOutcome, ReverseBufferReader};

/// Reads every line of an in-memory file supplied as one chunk.
fn read_all(content: &[u8]) -> Vec<Vec<u8>> {
    let mut reader = ReverseBufferReader::new();
    reader.supply_chunk(content.to_vec(), true);
    let mut lines = Vec::new();
    loop {
        match reader.read_line() {
            ReadOutcome::Line(l) => lines.push(l),
            ReadOutcome::End => break,
            ReadOutcome::NeedChunk => panic!("no more chunks to supply"),
        }
    }
    lines
}

#[test]
fn test_backward_lines_with_trailing_newline() {
    let lines = read_all(b"a\nb\nc\n");
    assert_eq!(lines, vec![b"c".to_vec(), b"b".to_vec(), b"a".to_vec()]);
}

#[test]
fn test_backward_lines_without_trailing_newline() {
    let lines = read_all(b"a\nb\nc");
    assert_eq!(lines, vec![b"c".to_vec(), b"b".to_vec(), b"a".to_vec()]);
}

#[test]
fn test_empty_file_yields_no_lines() {
    let mut reader = ReverseBufferReader::new();
    reader.supply_chunk(Vec::new(), true);
    assert!(matches!(reader.read_line(), ReadOutcome::End));
}

#[test]
fn test_carriage_returns_are_dropped() {
    let lines = read_all(b"x\r\ny\r\n");
    assert_eq!(lines, vec![b"y".to_vec(), b"x".to_vec()]);
}

#[test]
fn test_chunked_reading_from_the_end() {
    // the file "alpha\nbeta" arrives in chunks taken from its end
    let content: &[u8] = b"alpha\nbeta";
    let mut reader = ReverseBufferReader::new();
    reader.supply_chunk(content[6..10].to_vec(), false);
    assert!(matches!(reader.read_line(), ReadOutcome::NeedChunk));
    reader.supply_chunk(content[2..6].to_vec(), false);
    match reader.read_line() {
        ReadOutcome::Line(l) => assert_eq!(l, b"beta".to_vec()),
        _ => panic!("expected the last line"),
    }
    assert!(matches!(reader.read_line(), ReadOutcome::NeedChunk));
    reader.supply_chunk(content[0..2].to_vec(), true);
    match reader.read_line() {
        ReadOutcome::Line(l) => assert_eq!(l, b"alpha".to_vec()),
        _ => panic!("expected the first line"),
    }
    assert!(matches!(reader.read_line(), ReadOutcome::End));
}

#[test]
fn test_blank_line_between_lines_is_kept() {
    let lines = read_all(b"a\n\nb\n");
    assert_eq!(lines, vec![b"b".to_vec(), b"".to_vec(), b"a".to_vec()]);
}

#[test]
fn test_resume_skips_already_processed_lines() {
    // a five-line manifest with two lines already processed: the run
    // handles exactly the three most recent unprocessed entries
    let content = b"u1\nu2\nu3\nu4\nu5\n";
    let progress: usize = 2;

    let mut reader = ReverseBufferReader::new();
    reader.supply_chunk(content.to_vec(), true);

    let mut skipped = Vec::new();
    for _ in 0..progress {
        match reader.read_line() {
            ReadOutcome::Line(l) => skipped.push(l),
            _ => panic!("manifest shorter than the progress counter"),
        }
    }
    let mut processed = Vec::new();
    loop {
        match reader.read_line() {
            ReadOutcome::Line(l) => processed.push(l),
            ReadOutcome::End => break,
            ReadOutcome::NeedChunk => panic!("no more chunks to supply"),
        }
    }

    assert_eq!(skipped, vec![b"u5".to_vec(), b"u4".to_vec()]);
    assert_eq!(
        processed,
        vec![b"u3".to_vec(), b"u2".to_vec(), b"u1".to_vec()]
    );
}
