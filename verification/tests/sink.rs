use request_trace::jsonl_gz::{gunzip, segment_path, JsonlGzipSinkOptions, SegmentOp, SegmentWriter};
use request_trace::policy::{
    RequestTraceFileFormat, RequestTracePolicy, RequestTraceSinkKind, SinkConfigError,
};
use request_trace::sink::{
    segment_options, JsonlGzipRequestTraceSink, JsonlRequestTraceSink, JsonlSinkOptions,
    NatsRequestTraceSink, RequestTraceSink, SinkAction, StderrRequestTraceSink,
};

const RECORD: &str = "{\"schema\":\"dynamo.request.trace.v1\",\"event_type\":\"request_end\",\
    \"event_time_unix_ms\":1100,\"request\":{\"request_id\":\"req-123\",\"output_tokens\":7}}";

fn record() -> Result<Vec<u8>, String> {
    Ok(RECORD.as_bytes().to_vec())
}

fn policy() -> RequestTracePolicy {
    RequestTracePolicy {
        sinks: vec![RequestTraceSinkKind::File],
        file_format: RequestTraceFileFormat::Jsonl,
        file_path: Some("/tmp/t".to_string()),
        file_buffer_bytes: 128,
        file_flush_interval_ms: 0,
        file_roll_bytes: 4096,
        file_roll_lines: Some(10),
        nats_subject: "dynamo.traces".to_string(),
        s3_bucket: None,
        s3_prefix: String::new(),
        s3_region: None,
    }
}

fn warning(actions: &[SinkAction]) -> &str {
    match actions {
        [SinkAction::Warn { message }] => message,
        other => panic!("unexpected {other:?}"),
    }
}

#[test]
fn stderr_sink_writes_a_line() {
    let mut sink = StderrRequestTraceSink;
    assert_eq!(sink.name(), "stderr");
    let actions = sink.emit(record());
    assert!(matches!(
        &actions[..],
        [SinkAction::WriteStderr { bytes }] if bytes == format!("{RECORD}\n").as_bytes()
    ));
    let failure = actions[0].failure("broken pipe").unwrap();
    assert_eq!(failure.message, "request trace stderr write failed");
    assert_eq!(failure.error.as_deref(), Some("broken pipe"));
    assert_eq!(
        warning(&sink.emit(Err("bad".to_string()))),
        "request trace serialization failed: bad"
    );
    assert_eq!(sink.shutdown().len(), 0);
}

#[test]
fn nats_sink_publishes_on_its_subject() {
    let mut sink = NatsRequestTraceSink::from_policy(&policy());
    assert_eq!(sink.name(), "nats");
    let actions = sink.emit(record());
    assert!(matches!(
        &actions[..],
        [SinkAction::Publish { subject, payload }]
            if subject == "dynamo.traces" && payload == RECORD.as_bytes()
    ));
    let failure = actions[0].failure("timeout").unwrap();
    assert_eq!(failure.message, "request trace nats: publish failed: timeout");
    assert_eq!(failure.error, None);
    assert_eq!(
        warning(&sink.emit(Err("bad".to_string()))),
        "request trace nats: serialize failed: bad"
    );
    assert_eq!(
        NatsRequestTraceSink::connect_context(),
        "Attempting to connect NATS request trace sink from env var DYN_REQUEST_TRACE_SINKS"
    );
}

#[test]
fn jsonl_sink_writes_request_record() {
    let mut sink = JsonlRequestTraceSink::new(
        "request_trace.jsonl".to_string(),
        JsonlSinkOptions { buffer_bytes: 128, flush_interval_ms: 10 },
    );
    assert_eq!(sink.name(), "file");
    let actions = sink.emit(record());
    let content = match &actions[..] {
        [SinkAction::Enqueue { record: Ok(line) }] => String::from_utf8(line.clone()).unwrap(),
        other => panic!("unexpected {other:?}"),
    };
    assert!(content.contains("\"schema\":\"dynamo.request.trace.v1\""));
    assert!(!content.contains("agent_context"));
    assert!(!content.contains("\"tool\""));
    let failure = actions[0].failure("closed").unwrap();
    assert_eq!(failure.message, "request trace file sink closed; dropping record");
    assert_eq!(failure.error, None);
    assert_eq!(
        sink.open_context(),
        "opening jsonl request trace sink at request_trace.jsonl"
    );
}

#[test]
fn gzip_sink_writes_and_rolls_request_records() {
    let options = JsonlGzipSinkOptions {
        buffer_bytes: 1,
        flush_interval_ms: 60_000,
        roll_uncompressed_bytes: 1024 * 1024,
        roll_lines: Some(1),
        max_segments: None,
    };
    let mut sink = JsonlGzipRequestTraceSink::new("request_trace".to_string(), options);
    assert_eq!(sink.name(), "file");
    assert_eq!(
        sink.open_context(),
        "opening gzip jsonl request trace sink at request_trace"
    );
    let mut writer = SegmentWriter::new(sink.options);
    let paths = ["request_trace.000000.jsonl.gz", "request_trace.000001.jsonl.gz"];
    for index in 0..2u64 {
        let line = match sink.emit(record()).pop() {
            Some(SinkAction::Enqueue { record: Ok(line) }) => line,
            other => panic!("unexpected {other:?}"),
        };
        let ops = writer.push_line(&line);
        assert_eq!(ops.len(), 2);
        match &ops[0] {
            SegmentOp::Append { seq, gz_bytes } => {
                assert_eq!(*seq, index);
                assert_eq!(segment_path(&sink.path, *seq), paths[index as usize]);
                let content = String::from_utf8(gunzip(gz_bytes).unwrap()).unwrap();
                assert!(content.contains("\"request_id\":\"req-123\""));
            }
            SegmentOp::Close { .. } => panic!("nothing was written"),
        }
        assert!(matches!(&ops[1], SegmentOp::Close { seq } if *seq == index));
    }
}

#[test]
fn the_policy_sets_the_file_sinks_up() {
    let sink = JsonlRequestTraceSink::from_policy(&policy()).ok().unwrap();
    assert_eq!(sink.path, "/tmp/t");
    assert_eq!(sink.options, JsonlSinkOptions { buffer_bytes: 128, flush_interval_ms: 1 });
    let sink = JsonlGzipRequestTraceSink::from_policy(&policy()).ok().unwrap();
    assert_eq!(sink.path, "/tmp/t");
    assert_eq!(sink.options.roll_uncompressed_bytes, 4096);
    assert_eq!(sink.options.roll_lines, Some(10));
    assert_eq!(sink.options.max_segments, None);
    assert_eq!(segment_options(&policy()).flush_interval_ms, 1);
    let mut slow = policy();
    slow.file_flush_interval_ms = 250;
    assert_eq!(segment_options(&slow).flush_interval_ms, 250);
}

#[test]
fn a_file_sink_needs_a_path() {
    let mut policy = policy();
    policy.file_path = None;
    let error = JsonlRequestTraceSink::from_policy(&policy).err().unwrap();
    assert_eq!(error, SinkConfigError::MissingFilePath);
    assert_eq!(
        error.message(),
        "DYN_REQUEST_TRACE_FILE_PATH must be set when DYN_REQUEST_TRACE_SINKS includes file"
    );
    let error = JsonlGzipRequestTraceSink::from_policy(&policy).err().unwrap();
    assert_eq!(error, SinkConfigError::MissingFilePath);
    assert_eq!(
        SinkConfigError::MissingS3Bucket.message(),
        "DYN_REQUEST_TRACE_S3_BUCKET must be set when DYN_REQUEST_TRACE_SINKS includes s3"
    );
}

#[test]
fn file_sinks_hand_on_what_cannot_be_encoded() {
    let mut sink = JsonlRequestTraceSink::from_policy(&policy()).ok().unwrap();
    assert!(matches!(
        &sink.emit(Err("bad".to_string()))[..],
        [SinkAction::Enqueue { record: Err(error) }] if error == "bad"
    ));
}
