use request_trace::object_key::ObjectTime;
use request_trace::s3_segment_sink::{
    settle_upload, S3SegmentIdentity, S3SegmentSink, S3SegmentSinkConfig, UploadReport,
    SEGMENT_CONTENT_TYPE,
};

const UUID: &str = "deadbeef00004000800000000000cafe";

fn config() -> S3SegmentSinkConfig {
    S3SegmentSinkConfig {
        bucket: "test-bucket".to_string(),
        prefix: "/test-prefix/".to_string(),
        identity: S3SegmentIdentity {
            instance: "pod-a".to_string(),
            startup: "deadbeef".to_string(),
        },
    }
}

fn some(s: &str) -> Option<String> {
    Some(s.to_string())
}

fn instance(pod: Option<String>, host: Option<String>, file: Option<String>) -> String {
    S3SegmentIdentity::from_names(pod, host, file, UUID).instance
}

const NOW: ObjectTime = ObjectTime { year: 2026, month: 7, day: 16, hour: 9 };

#[test]
fn the_pod_name_comes_first() {
    assert_eq!(instance(some(" pod-a\n"), some("host"), some("file")), "pod-a");
    assert_eq!(instance(None, some("host "), some("file")), "host");
    assert_eq!(instance(None, None, some("file\n")), "file");
    assert_eq!(instance(None, None, None), "unknown");
}

#[test]
fn a_blank_pod_name_falls_back_to_the_file() {
    assert_eq!(instance(some("  "), some("host"), some("file")), "file");
    assert_eq!(instance(some(""), some("host"), None), "unknown");
    assert_eq!(instance(None, some("\t"), some(" \n")), "unknown");
}

#[test]
fn the_startup_is_the_head_of_the_uuid() {
    assert_eq!(S3SegmentIdentity::from_names(None, None, None, UUID).startup, "deadbeef");
}

#[test]
fn startups_are_random_hexadecimal_tokens() {
    let a = S3SegmentIdentity::resolve(some("pod-a"), None, None);
    let b = S3SegmentIdentity::resolve(some("pod-a"), None, None);
    assert_eq!(a.instance, "pod-a");
    for s in [&a.startup, &b.startup] {
        assert_eq!(s.len(), 8);
        assert!(s.chars().all(|c| c.is_ascii_digit() || ('a'..='f').contains(&c)), "{s}");
    }
    assert_ne!(a.startup, b.startup);
}

#[test]
fn a_segment_becomes_one_object() {
    let mut sink = S3SegmentSink::new(config());
    sink.append_to_segment(3, vec![1, 2]);
    sink.append_to_segment(4, vec![9]);
    sink.append_to_segment(3, vec![3]);
    let put = sink.close_segment_at(3, NOW).unwrap();
    assert_eq!(put.bucket, "test-bucket");
    assert_eq!(put.key, "test-prefix/2026/07/16/09/pod-a-deadbeef-000003.jsonl.gz");
    assert_eq!(put.body, vec![1, 2, 3]);
    assert_eq!(put.content_type, SEGMENT_CONTENT_TYPE);
    assert_eq!(put.content_type, "application/gzip");
    assert_eq!(
        put.context(),
        "request trace s3 put_object key=test-prefix/2026/07/16/09/pod-a-deadbeef-000003.jsonl.gz size=3"
    );
    assert!(sink.close_segment_at(3, NOW).is_none());
    assert_eq!(sink.close_segment(4).unwrap().body, vec![9]);
    assert_eq!(sink.config().bucket, "test-bucket");
}

#[test]
fn an_empty_segment_is_not_uploaded() {
    let mut sink = S3SegmentSink::new(config());
    assert!(sink.close_segment_at(0, NOW).is_none());
    sink.append_to_segment(0, vec![]);
    assert!(sink.close_segment_at(0, NOW).is_none());
    assert!(sink.close_segment(1).is_none());
}

#[test]
fn a_failed_upload_drops_the_segment() {
    assert!(matches!(
        settle_upload("k".to_string(), 3, Ok(())),
        UploadReport::Uploaded { key, bytes: 3 } if key == "k"
    ));
    assert!(matches!(
        settle_upload("k".to_string(), 3, Err("timeout".to_string())),
        UploadReport::Dropped { key, bytes: 3, error } if key == "k" && error == "timeout"
    ));
}
