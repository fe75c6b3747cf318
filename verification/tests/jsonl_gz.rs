use request_trace::jsonl_gz::{
    gunzip, segment_path, JsonlGzipSinkOptions, SegmentOp, SegmentWriter,
};

fn options() -> JsonlGzipSinkOptions {
    JsonlGzipSinkOptions {
        buffer_bytes: 8,
        flush_interval_ms: 60_000,
        roll_uncompressed_bytes: 1024 * 1024,
        roll_lines: None,
        max_segments: None,
    }
}

fn appended(op: &SegmentOp) -> (u64, String) {
    match op {
        SegmentOp::Append { seq, gz_bytes } => {
            (*seq, String::from_utf8(gunzip(gz_bytes).unwrap()).unwrap())
        }
        SegmentOp::Close { seq } => panic!("segment {seq} was closed"),
    }
}

fn is_close(op: &SegmentOp, number: u64) -> bool {
    matches!(op, SegmentOp::Close { seq } if *seq == number)
}

#[test]
fn lines_wait_until_the_buffer_is_large_enough() {
    let mut writer = SegmentWriter::new(options());
    assert_eq!(writer.options().buffer_bytes, 8);
    assert_eq!(writer.push_line(b"abc").len(), 0);
    let ops = writer.push_line(b"def");
    assert_eq!(ops.len(), 1);
    assert_eq!(appended(&ops[0]), (0, "abc\ndef\n".to_string()));
}

#[test]
fn a_segment_ends_at_its_line_limit() {
    let mut writer = SegmentWriter::new(JsonlGzipSinkOptions {
        roll_lines: Some(2),
        ..options()
    });
    assert_eq!(writer.push_line(b"1").len(), 0);
    let ops = writer.push_line(b"2");
    assert_eq!(ops.len(), 2);
    assert_eq!(appended(&ops[0]), (0, "1\n2\n".to_string()));
    assert!(is_close(&ops[1], 0));
    assert_eq!(writer.push_line(b"3").len(), 0);
    let ops = writer.finish();
    assert_eq!(appended(&ops[0]), (1, "3\n".to_string()));
    assert!(is_close(&ops[1], 1));
}

#[test]
fn a_segment_ends_at_its_byte_limit() {
    let mut writer = SegmentWriter::new(JsonlGzipSinkOptions {
        roll_uncompressed_bytes: 5,
        buffer_bytes: 1,
        ..options()
    });
    let ops = writer.push_line(b"12");
    assert_eq!(ops.len(), 1);
    let ops = writer.push_line(b"3");
    assert_eq!(ops.len(), 2);
    assert_eq!(appended(&ops[0]), (0, "3\n".to_string()));
    assert!(is_close(&ops[1], 0));
}

#[test]
fn an_empty_buffer_makes_no_member() {
    let mut writer = SegmentWriter::new(options());
    assert_eq!(writer.flush().len(), 0);
    let ops = writer.finish();
    assert_eq!(ops.len(), 1);
    assert!(is_close(&ops[0], 0));
}

#[test]
fn members_read_one_after_the_other() {
    let mut writer = SegmentWriter::new(options());
    let mut file = Vec::new();
    for line in ["one", "two", "three"] {
        writer.push_line(line.as_bytes());
        for op in writer.flush() {
            if let SegmentOp::Append { gz_bytes, .. } = op {
                assert!(gz_bytes.len() >= 18);
                assert_ne!(gz_bytes, format!("{line}\n").into_bytes());
                file.extend(gz_bytes);
            }
        }
    }
    assert_eq!(gunzip(&file).unwrap(), b"one\ntwo\nthree\n".to_vec());
}

#[test]
fn what_is_no_gzip_file_is_not_read() {
    assert_eq!(gunzip(b""), None);
    assert_eq!(gunzip(b"plain text"), None);
    let mut writer = SegmentWriter::new(options());
    writer.push_line(b"x");
    if let SegmentOp::Append { gz_bytes, .. } = &writer.flush()[0] {
        assert_eq!(gunzip(&gz_bytes[..gz_bytes.len() - 1]), None);
        let mut longer = gz_bytes.clone();
        longer.push(0);
        assert_eq!(gunzip(&longer), None);
    }
}

#[test]
fn segments_of_a_file_are_numbered() {
    assert_eq!(segment_path("/tmp/request_trace", 0), "/tmp/request_trace.000000.jsonl.gz");
    assert_eq!(segment_path("t", 1_234_567), "t.1234567.jsonl.gz");
}
