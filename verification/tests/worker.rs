use request_trace::policy::{
    RequestTraceFileFormat, RequestTracePolicy, RequestTraceSinkKind, SinkConfigError,
};
use request_trace::worker::{
    after_open, next_setup_step, plan_sink, setup_warning, SetupStep, SinkPlan, Worker, WorkerAction,
    WorkerEvent, WorkerPhase, WorkerStart,
};

fn policy(sinks: Vec<RequestTraceSinkKind>) -> RequestTracePolicy {
    RequestTracePolicy {
        sinks,
        file_format: RequestTraceFileFormat::Jsonl,
        file_path: Some("/tmp/t".to_string()),
        file_buffer_bytes: 128,
        file_flush_interval_ms: 100,
        file_roll_bytes: 4096,
        file_roll_lines: None,
        nats_subject: "subject".to_string(),
        s3_bucket: None,
        s3_prefix: String::new(),
        s3_region: Some("us-east-1".to_string()),
    }
}

#[test]
fn sinks_are_opened_in_order_until_one_is_incomplete() {
    let policy = policy(vec![
        RequestTraceSinkKind::Nats,
        RequestTraceSinkKind::Stderr,
        RequestTraceSinkKind::File,
        RequestTraceSinkKind::S3,
        RequestTraceSinkKind::Otel,
    ]);
    assert!(matches!(
        next_setup_step(&policy, 0),
        SetupStep::Open(SinkPlan::Nats(sink)) if sink.subject == "subject"
    ));
    assert!(matches!(next_setup_step(&policy, 1), SetupStep::Open(SinkPlan::Stderr)));
    assert!(matches!(
        next_setup_step(&policy, 2),
        SetupStep::Open(SinkPlan::Jsonl(sink)) if sink.path == "/tmp/t"
    ));
    assert!(matches!(
        next_setup_step(&policy, 3),
        SetupStep::Fail(SinkConfigError::MissingS3Bucket)
    ));
    assert!(matches!(next_setup_step(&policy, 4), SetupStep::Open(SinkPlan::Otel)));
    assert!(matches!(next_setup_step(&policy, 5), SetupStep::Ready));
}

#[test]
fn the_file_format_selects_the_writer() {
    let mut policy = policy(vec![]);
    policy.file_format = RequestTraceFileFormat::JsonlGz;
    assert!(matches!(
        plan_sink(&policy, RequestTraceSinkKind::File),
        Ok(SinkPlan::JsonlGz(sink)) if sink.options.roll_uncompressed_bytes == 4096
    ));
    policy.file_path = None;
    assert!(matches!(
        plan_sink(&policy, RequestTraceSinkKind::File),
        Err(SinkConfigError::MissingFilePath)
    ));
    policy.s3_bucket = Some("b".to_string());
    assert!(matches!(
        plan_sink(&policy, RequestTraceSinkKind::S3),
        Ok(SinkPlan::S3 { region: Some(region) }) if region == "us-east-1"
    ));
}

#[test]
fn no_sinks_are_warned_of() {
    assert!(matches!(next_setup_step(&policy(vec![]), 0), SetupStep::Ready));
    assert_eq!(
        setup_warning(0),
        Some("request trace is enabled but no valid request trace sinks were configured")
    );
    assert_eq!(setup_warning(1), None);
}

#[test]
fn workers_start_once_and_again_after_a_failure() {
    let mut start = WorkerStart::new();
    assert!(start.begin());
    assert_eq!(start.settle::<&str>(Err("no connection")), Err("no connection"));
    assert!(start.begin());
    assert!(!start.begin());
    assert_eq!(start.settle::<&str>(Ok(())), Ok(()));
    assert!(!start.begin());
}

fn emits(action: WorkerAction<u32>, record: u32) -> bool {
    matches!(action, WorkerAction::Emit(r) if r == record)
}

#[test]
fn a_worker_drains_the_bus_before_it_stops() {
    let mut worker = Worker::new();
    assert!(emits(worker.on_event(WorkerEvent::Received(1)), 1));
    assert!(matches!(
        worker.on_event(WorkerEvent::<u32>::Lagged(3)),
        WorkerAction::WarnLagged { dropped: 3, message: "request trace bus lagged; dropped records" }
    ));
    assert!(matches!(
        worker.on_event(WorkerEvent::<u32>::ShutdownRequested),
        WorkerAction::Proceed
    ));
    assert_eq!(worker.phase(), WorkerPhase::Draining);
    assert!(emits(worker.on_event(WorkerEvent::Received(2)), 2));
    assert!(matches!(
        worker.on_event(WorkerEvent::<u32>::Lagged(1)),
        WorkerAction::WarnLagged {
            dropped: 1,
            message: "request trace bus lagged during shutdown; dropped records"
        }
    ));
    assert!(emits(worker.on_event(WorkerEvent::Received(3)), 3));
    assert!(matches!(
        worker.on_event(WorkerEvent::<u32>::Empty),
        WorkerAction::ShutDownSink
    ));
    assert_eq!(worker.phase(), WorkerPhase::Stopped);
    assert!(matches!(worker.on_event(WorkerEvent::Received(4)), WorkerAction::Proceed));
}

#[test]
fn a_worker_stops_when_the_bus_is_closed() {
    let mut worker = Worker::new();
    assert_eq!(worker.phase(), WorkerPhase::Running);
    assert!(matches!(worker.on_event(WorkerEvent::<u32>::Empty), WorkerAction::Proceed));
    assert!(matches!(
        worker.on_event(WorkerEvent::<u32>::Closed),
        WorkerAction::ShutDownSink
    ));
    let mut worker = Worker::new();
    worker.on_event(WorkerEvent::<u32>::ShutdownRequested);
    assert!(matches!(
        worker.on_event(WorkerEvent::<u32>::Closed),
        WorkerAction::ShutDownSink
    ));
    assert_eq!(worker.phase(), WorkerPhase::Stopped);
}

fn set_up(
    policy: &RequestTracePolicy,
    outcomes: &[Result<(), &'static str>],
) -> (usize, Result<usize, String>) {
    let mut opened = 0;
    let mut tried = 0;
    loop {
        match next_setup_step(policy, opened) {
            SetupStep::Open(_) => {
                tried += 1;
                match after_open(opened, outcomes[opened]) {
                    Ok(n) => opened = n,
                    Err(error) => return (tried, Err(error.to_string())),
                }
            }
            SetupStep::Fail(error) => return (tried, Err(error.message())),
            SetupStep::Ready => return (tried, Ok(opened)),
        }
    }
}

#[test]
fn a_sink_that_cannot_be_opened_ends_the_setup() {
    let mut policy = policy(vec![
        RequestTraceSinkKind::Stderr,
        RequestTraceSinkKind::Nats,
        RequestTraceSinkKind::File,
    ]);
    assert_eq!(set_up(&policy, &[Ok(()), Ok(()), Ok(())]), (3, Ok(3)));
    assert_eq!(
        set_up(&policy, &[Ok(()), Err("no server"), Ok(())]),
        (2, Err("no server".to_string()))
    );
    policy.file_path = None;
    assert_eq!(
        set_up(&policy, &[Ok(()), Err("no server"), Ok(())]),
        (2, Err("no server".to_string()))
    );
    assert_eq!(
        set_up(&policy, &[Ok(()), Ok(()), Ok(())]),
        (2, Err(SinkConfigError::MissingFilePath.message()))
    );
    assert_eq!(after_open::<()>(7, Ok(())), Ok(8));
    assert_eq!(after_open(7, Err("closed")), Err("closed"));
}
