use codex_cost_meter::jsonl::{JsonlEvent, JsonlReader, MAX_JSONL_RECORD_BYTES};

fn read_all(chunks: &[&[u8]]) -> (Vec<Vec<u8>>, usize) {
    let mut reader = JsonlReader::new();
    let mut records = Vec::new();
    let mut skipped = 0;
    for chunk in chunks {
        let mut rest: &[u8] = chunk;
        while !rest.is_empty() {
            let (used, event) = reader.chunk(rest);
            match event {
                JsonlEvent::Record(line) => records.push(line),
                JsonlEvent::Oversized => skipped += 1,
                JsonlEvent::Nothing => {}
            }
            rest = &rest[used..];
        }
    }
    match reader.end() {
        JsonlEvent::Record(line) => records.push(line),
        JsonlEvent::Oversized => skipped += 1,
        JsonlEvent::Nothing => {}
    }
    (records, skipped)
}

#[test]
fn splits_records_across_chunks() {
    let (records, skipped) = read_all(&[b"{\"a\":1}\n{\"b\"", b":2}\n\n{\"c\":3}"]);
    assert_eq!(
        records,
        vec![b"{\"a\":1}".to_vec(), b"{\"b\":2}".to_vec(), Vec::new(), b"{\"c\":3}".to_vec()]
    );
    assert_eq!(skipped, 0);
}

#[test]
fn a_trailing_newline_leaves_nothing_at_the_end() {
    let (records, skipped) = read_all(&[b"x\n"]);
    assert_eq!(records, vec![b"x".to_vec()]);
    assert_eq!(skipped, 0);
}

#[test]
fn skips_records_longer_than_the_limit() {
    let long = vec![b'a'; MAX_JSONL_RECORD_BYTES + 1];
    let mut input = long.clone();
    input.extend_from_slice(b"\nok\n");
    let (records, skipped) = read_all(&[&input[..10], &input[10..]]);
    assert_eq!(records, vec![b"ok".to_vec()]);
    assert_eq!(skipped, 1);

    let (records, skipped) = read_all(&[&long]);
    assert!(records.is_empty());
    assert_eq!(skipped, 1);

    let exact = vec![b'b'; MAX_JSONL_RECORD_BYTES];
    let (records, skipped) = read_all(&[&exact, b"\n"]);
    assert_eq!(records.len(), 1);
    assert_eq!(records[0].len(), MAX_JSONL_RECORD_BYTES);
    assert_eq!(skipped, 0);
}

#[test]
fn one_step_reports_bytes_used() {
    let mut reader = JsonlReader::new();
    let (used, event) = reader.chunk(b"abc");
    assert_eq!(used, 3);
    assert!(matches!(event, JsonlEvent::Nothing));
    let (used, event) = reader.chunk(b"d\nrest");
    assert_eq!(used, 2);
    assert!(matches!(event, JsonlEvent::Record(ref line) if line == b"abcd"));
}
