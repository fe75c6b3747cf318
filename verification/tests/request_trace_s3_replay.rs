//! The S3 sink from records to objects.

use request_trace::jsonl_gz::{gunzip, JsonlGzipSinkOptions};
use request_trace::object_key::ObjectTime;
use request_trace::policy::{
    RequestTraceFileFormat, RequestTracePolicy, SinkConfigError, DYN_REQUEST_TRACE_S3_BUCKET,
};
use request_trace::s3_request_trace_sink::S3RequestTraceSink;
use request_trace::s3_segment_sink::{PutObject, S3SegmentIdentity, S3SegmentSinkConfig};
use request_trace::sink::{RequestTraceSink, SinkAction};

const BUCKET: &str = "test-bucket";
const PREFIX: &str = "test-prefix";

const NOW: ObjectTime = ObjectTime { year: 2026, month: 7, day: 16, hour: 9 };

fn sample_record() -> Result<Vec<u8>, String> {
    Ok(concat_record("req-123"))
}

fn concat_record(id: &str) -> Vec<u8> {
    format!(
        "{{\"schema\":\"dynamo.request.trace.v1\",\"event_type\":\"request_end\",\
         \"event_time_unix_ms\":1100,\"request\":{{\"request_id\":\"{id}\",\"output_tokens\":7,\
         \"request_received_ms\":1000,\"replay\":{{\"trace_block_size\":2,\"input_length\":3,\
         \"input_sequence_hashes\":[11,22]}}}}}}"
    )
    .into_bytes()
}

fn identity() -> S3SegmentIdentity {
    S3SegmentIdentity { instance: "pod-a".to_string(), startup: "deadbeef".to_string() }
}

fn test_config() -> S3SegmentSinkConfig {
    S3SegmentSinkConfig {
        bucket: BUCKET.to_string(),
        prefix: PREFIX.to_string(),
        identity: identity(),
    }
}

/// Thresholds high enough that nothing but an explicit shutdown can trigger an
/// upload.
fn no_roll_options() -> JsonlGzipSinkOptions {
    JsonlGzipSinkOptions {
        buffer_bytes: 1,
        flush_interval_ms: 60_000,
        roll_uncompressed_bytes: 1024 * 1024 * 1024,
        roll_lines: None,
        max_segments: None,
    }
}

fn puts(actions: Vec<SinkAction>) -> Vec<PutObject> {
    actions
        .into_iter()
        .map(|action| match action {
            SinkAction::Upload { object } => object,
            other => panic!("unexpected {other:?}"),
        })
        .collect()
}

fn text(object: &PutObject) -> String {
    String::from_utf8(gunzip(&object.body).expect("a gzip file")).unwrap()
}

fn assert_key_matches(key: &str, seq: u64) {
    let expected_object = format!("/pod-a-deadbeef-{seq:06}.jsonl.gz");
    assert!(key.ends_with(&expected_object), "{key:?}");
    let rest = key.strip_prefix(&format!("{PREFIX}/")).unwrap();
    let parts: Vec<&str> = rest.split('/').collect();
    assert_eq!(parts.len(), 5, "expected YYYY/MM/DD/HH/object in {rest:?}");
    assert!(parts[0].len() == 4 && parts[0].chars().all(|c| c.is_ascii_digit()));
    for part in &parts[1..4] {
        assert!(part.len() == 2 && part.chars().all(|c| c.is_ascii_digit()));
    }
}

#[test]
fn request_trace_s3_replay_s3_sink_uploads_pending_records_on_shutdown() {
    let mut sink = S3RequestTraceSink::new(test_config(), no_roll_options());

    assert_eq!(puts(sink.emit(sample_record())).len(), 0);
    let requests = puts(sink.shutdown());

    assert_eq!(requests.len(), 1, "expected exactly one PUT for the pending segment");
    assert_eq!(requests[0].bucket, BUCKET);
    assert_key_matches(&requests[0].key, 0);
    let body = text(&requests[0]);
    assert!(body.contains("\"schema\":\"dynamo.request.trace.v1\""), "{body}");
    assert!(body.contains("\"request_id\":\"req-123\""), "{body}");
}

#[test]
fn request_trace_s3_replay_s3_sink_uploads_each_segment_on_roll() {
    let options = JsonlGzipSinkOptions { roll_lines: Some(1), ..no_roll_options() };
    let mut sink = S3RequestTraceSink::new(test_config(), options);

    let mut requests = puts(sink.emit(sample_record()));
    requests.extend(puts(sink.emit(sample_record())));
    requests.extend(puts(sink.shutdown()));

    assert_eq!(requests.len(), 2, "expected one PUT per rolled segment");
    for (seq, request) in requests.iter().enumerate() {
        assert_key_matches(&request.key, seq as u64);
        let body = text(request);
        assert!(body.contains("\"request_id\":\"req-123\""), "{body}");
    }
}

#[test]
fn sink_s3_sink_uploads_pending_records_on_shutdown() {
    let mut sink = S3RequestTraceSink::new(test_config(), no_roll_options());
    assert_eq!(sink.emit_at(sample_record(), NOW).len(), 0);
    let requests = puts(sink.shutdown_at(NOW));
    assert_eq!(requests.len(), 1, "expected exactly one PUT for the pending segment");
    assert_eq!(requests[0].key, "test-prefix/2026/07/16/09/pod-a-deadbeef-000000.jsonl.gz");
    let body = text(&requests[0]);
    assert!(body.contains("\"schema\":\"dynamo.request.trace.v1\""), "{body}");
    assert!(body.contains("\"request_id\":\"req-123\""), "{body}");
    assert!(body.ends_with('\n'));
    assert_eq!(sink.shutdown_at(NOW).len(), 0);
}

#[test]
fn sink_s3_sink_uploads_each_segment_on_roll() {
    let options = JsonlGzipSinkOptions { roll_lines: Some(1), ..no_roll_options() };
    let mut sink = S3RequestTraceSink::new(test_config(), options);
    let mut requests = puts(sink.emit_at(sample_record(), NOW));
    requests.extend(puts(sink.emit_at(sample_record(), NOW)));
    requests.extend(puts(sink.shutdown_at(NOW)));
    assert_eq!(requests.len(), 2, "expected one PUT per rolled segment");
    assert_eq!(requests[0].key, "test-prefix/2026/07/16/09/pod-a-deadbeef-000000.jsonl.gz");
    assert_eq!(requests[1].key, "test-prefix/2026/07/16/09/pod-a-deadbeef-000001.jsonl.gz");
    for request in &requests {
        let body = text(request);
        assert!(body.contains("\"request_id\":\"req-123\""), "{body}");
    }
}

#[test]
fn s3_sink_without_bucket_fails() {
    let mut policy = policy();
    policy.s3_bucket = None;
    let error = match S3RequestTraceSink::from_policy(&policy, identity()) {
        Ok(_) => panic!("s3 sink must not build without a bucket"),
        Err(error) => error,
    };
    assert_eq!(error, SinkConfigError::MissingS3Bucket);
    let message = error.message();
    assert!(
        message.contains(DYN_REQUEST_TRACE_S3_BUCKET),
        "error should name the missing variable, got: {message}"
    );
}

fn policy() -> RequestTracePolicy {
    RequestTracePolicy {
        sinks: vec![],
        file_format: RequestTraceFileFormat::JsonlGz,
        file_path: None,
        file_buffer_bytes: 1 << 20,
        file_flush_interval_ms: 1000,
        file_roll_bytes: 1 << 30,
        file_roll_lines: Some(2),
        nats_subject: "traces".to_string(),
        s3_bucket: Some("b".to_string()),
        s3_prefix: "p".to_string(),
        s3_region: None,
    }
}

#[test]
fn the_policy_sets_where_segments_go_and_end() {
    let mut sink = S3RequestTraceSink::from_policy(&policy(), identity()).ok().unwrap();
    assert_eq!(sink.name(), "s3");
    assert_eq!(sink.emit_at(Ok(b"1".to_vec()), NOW).len(), 0);
    let requests = puts(sink.emit_at(Ok(b"2".to_vec()), NOW));
    assert_eq!(requests.len(), 1);
    assert_eq!(requests[0].bucket, "b");
    assert_eq!(requests[0].key, "p/2026/07/16/09/pod-a-deadbeef-000000.jsonl.gz");
    assert_eq!(text(&requests[0]), "1\n2\n");
}

#[test]
fn every_record_is_in_an_object_once_and_in_order() {
    for (buffer_bytes, roll_uncompressed_bytes, roll_lines) in
        [(1, 1 << 30, None), (50, 200, None), (1000, 1 << 30, Some(3)), (0, 0, None), (7, 1 << 30, Some(0))]
    {
        let options = JsonlGzipSinkOptions {
            buffer_bytes,
            roll_uncompressed_bytes,
            roll_lines,
            ..no_roll_options()
        };
        let mut sink = S3RequestTraceSink::new(test_config(), options);
        let mut requests = Vec::new();
        let mut expected = String::new();
        for i in 0..20 {
            let line = format!("{{\"n\":{i}}}");
            expected.push_str(&line);
            expected.push('\n');
            requests.extend(puts(sink.emit_at(Ok(line.into_bytes()), NOW)));
            if i % 4 == 3 {
                sink.flush();
            }
        }
        requests.extend(puts(sink.shutdown_at(NOW)));
        let stored: String = requests.iter().map(text).collect();
        assert_eq!(stored, expected);
        let mut keys: Vec<&String> = requests.iter().map(|r| &r.key).collect();
        keys.dedup();
        assert_eq!(keys.len(), requests.len());
    }
}

#[test]
fn a_record_that_cannot_be_encoded_is_only_warned_of() {
    let mut sink = S3RequestTraceSink::new(test_config(), no_roll_options());
    let actions = sink.emit(Err("no key".to_string()));
    assert_eq!(actions.len(), 1);
    assert!(matches!(
        &actions[0],
        SinkAction::Warn { message } if message == "request trace serialization failed: no key"
    ));
    assert_eq!(sink.shutdown().len(), 0);
}

#[test]
fn flushing_uploads_nothing_by_itself() {
    let options = JsonlGzipSinkOptions { buffer_bytes: 1000, ..no_roll_options() };
    let mut sink = S3RequestTraceSink::new(test_config(), options);
    sink.emit_at(Ok(b"a".to_vec()), NOW);
    sink.flush();
    sink.flush();
    sink.emit_at(Ok(b"b".to_vec()), NOW);
    let requests = puts(sink.shutdown_at(NOW));
    assert_eq!(requests.len(), 1);
    assert_eq!(text(&requests[0]), "a\nb\n");
}

#[test]
fn an_object_holds_whole_lines() {
    let options = JsonlGzipSinkOptions {
        buffer_bytes: 3,
        roll_uncompressed_bytes: 7,
        ..no_roll_options()
    };
    let mut sink = S3RequestTraceSink::new(test_config(), options);
    let mut texts = Vec::new();
    for line in ["ab", "cd", "efg", "hijklmnop", "q"] {
        texts.extend(puts(sink.emit_at(Ok(line.as_bytes().to_vec()), NOW)).iter().map(text));
    }
    texts.extend(puts(sink.shutdown_at(NOW)).iter().map(text));
    assert_eq!(texts, ["ab\ncd\nefg\n", "hijklmnop\n", "q\n"]);
}
