//! Workers: one per sink, from the start to the last record.
//!
//! The caller awaits, opens connections and spawns tasks; what it does next is
//! decided here.

use crate::policy::{
    RequestTraceFileFormat, RequestTracePolicy, RequestTraceSinkKind, SinkConfigError,
};
use crate::sink;
use crate::sink::{
    JsonlGzipRequestTraceSink, JsonlRequestTraceSink, JsonlSinkOptions, NatsRequestTraceSink,
};
use vstd::prelude::*;

verus! {

/// What is to be opened for one selected sink.
#[derive(Debug)]
pub enum SinkPlan {
    Stderr,
    /// Connect to NATS.
    Nats(NatsRequestTraceSink),
    /// Set up the OpenTelemetry exporter.
    Otel,
    /// Open a file of lines.
    Jsonl(JsonlRequestTraceSink),
    /// Open the segments of a file.
    JsonlGz(JsonlGzipRequestTraceSink),
    /// Make an S3 client, for the given region where there is one.
    S3 { region: Option<String> },
}

/// What is to be opened for a sink of kind `kind`, or what it lacks.
pub open spec fn planned(policy: RequestTracePolicy, kind: RequestTraceSinkKind) -> Result<
    SinkPlan,
    SinkConfigError,
> {
    match kind {
        RequestTraceSinkKind::Stderr => Ok(SinkPlan::Stderr),
        RequestTraceSinkKind::Nats => Ok(
            SinkPlan::Nats(NatsRequestTraceSink { subject: policy.nats_subject }),
        ),
        RequestTraceSinkKind::Otel => Ok(SinkPlan::Otel),
        RequestTraceSinkKind::File => match (policy.file_path, policy.file_format) {
            (None, _) => Err(SinkConfigError::MissingFilePath),
            (Some(path), RequestTraceFileFormat::Jsonl) => Ok(
                SinkPlan::Jsonl(
                    JsonlRequestTraceSink {
                        path,
                        options: JsonlSinkOptions {
                            buffer_bytes: policy.file_buffer_bytes,
                            flush_interval_ms: policy.spec_flush_interval_ms(),
                        },
                    },
                ),
            ),
            (Some(path), RequestTraceFileFormat::JsonlGz) => Ok(
                SinkPlan::JsonlGz(
                    JsonlGzipRequestTraceSink {
                        path,
                        options: sink::spec_segment_options(policy),
                    },
                ),
            ),
        },
        RequestTraceSinkKind::S3 => match policy.s3_bucket {
            None => Err(SinkConfigError::MissingS3Bucket),
            Some(_) => Ok(SinkPlan::S3 { region: policy.s3_region }),
        },
    }
}

/// What is to be opened for a sink of kind `kind`, or what it lacks.
pub fn plan_sink(policy: &RequestTracePolicy, kind: RequestTraceSinkKind) -> (r: Result<
    SinkPlan,
    SinkConfigError,
>)
    ensures
        r == planned(*policy, kind),
{
    match kind {
        RequestTraceSinkKind::Stderr => Ok(SinkPlan::Stderr),
        RequestTraceSinkKind::Nats => Ok(
            SinkPlan::Nats(NatsRequestTraceSink::from_policy(policy)),
        ),
        RequestTraceSinkKind::Otel => Ok(SinkPlan::Otel),
        RequestTraceSinkKind::File => match policy.file_format {
            RequestTraceFileFormat::Jsonl => match JsonlRequestTraceSink::from_policy(policy) {
                Ok(sink) => Ok(SinkPlan::Jsonl(sink)),
                Err(error) => Err(error),
            },
            RequestTraceFileFormat::JsonlGz => match JsonlGzipRequestTraceSink::from_policy(
                policy,
            ) {
                Ok(sink) => Ok(SinkPlan::JsonlGz(sink)),
                Err(error) => Err(error),
            },
        },
        RequestTraceSinkKind::S3 => match &policy.s3_bucket {
            None => Err(SinkConfigError::MissingS3Bucket),
            Some(_) => Ok(SinkPlan::S3 { region: policy.s3_region.clone() }),
        },
    }
}

/// What is opened for a sink is what was selected, set up by the policy's own
/// settings; only a file without a path and a bucket without a name cannot be opened,
/// and the error says which of the two it is.
pub proof fn law_a_plan_says_what_the_policy_says(
    policy: RequestTracePolicy,
    kind: RequestTraceSinkKind,
)
    ensures
        planned(policy, kind) == Err::<SinkPlan, SinkConfigError>(SinkConfigError::MissingFilePath)
            <==> kind is File && policy.file_path is None,
        planned(policy, kind) == Err::<SinkPlan, SinkConfigError>(SinkConfigError::MissingS3Bucket)
            <==> kind is S3 && policy.s3_bucket is None,
        planned(policy, kind) matches Ok(plan) ==> match kind {
            RequestTraceSinkKind::Stderr => plan is Stderr,
            RequestTraceSinkKind::Nats => plan matches SinkPlan::Nats(sink) && sink.subject@
                == policy.nats_subject@,
            RequestTraceSinkKind::Otel => plan is Otel,
            RequestTraceSinkKind::File => match policy.file_format {
                RequestTraceFileFormat::Jsonl => plan matches SinkPlan::Jsonl(sink) && {
                    &&& sink.path@ == policy.file_path->0@
                    &&& sink.options.buffer_bytes == policy.file_buffer_bytes
                    &&& policy.file_flush_interval_ms > 0 ==> sink.options.flush_interval_ms
                        == policy.file_flush_interval_ms
                    &&& policy.file_flush_interval_ms == 0 ==> sink.options.flush_interval_ms == 1
                },
                RequestTraceFileFormat::JsonlGz => plan matches SinkPlan::JsonlGz(sink) && {
                    &&& sink.path@ == policy.file_path->0@
                    &&& sink.options.roll_lines == policy.file_roll_lines
                    &&& sink::options_are_the_policys(sink.options, policy)
                },
            },
            RequestTraceSinkKind::S3 => plan matches SinkPlan::S3 { region } && region
                == policy.s3_region,
        },
{
}

/// The next step of opening the selected sinks.
#[derive(Debug)]
pub enum SetupStep {
    /// Open this one. If that fails, the setup has failed.
    Open(SinkPlan),
    /// The setup has failed.
    Fail(SinkConfigError),
    /// All sinks are open.
    Ready,
}

/// The step that follows when `opened` sinks are open.
pub open spec fn setup_step(policy: RequestTracePolicy, opened: int) -> SetupStep {
    if opened < policy.sinks@.len() {
        match planned(policy, policy.sinks@[opened]) {
            Ok(plan) => SetupStep::Open(plan),
            Err(error) => SetupStep::Fail(error),
        }
    } else {
        SetupStep::Ready
    }
}

/// The step that follows when the first `opened` of the selected sinks are open.
pub fn next_setup_step(policy: &RequestTracePolicy, opened: usize) -> (r: SetupStep)
    ensures
        r == setup_step(*policy, opened as int),
{
    if opened < policy.sinks.len() {
        match plan_sink(policy, policy.sinks[opened]) {
            Ok(plan) => SetupStep::Open(plan),
            Err(error) => SetupStep::Fail(error),
        }
    } else {
        SetupStep::Ready
    }
}

/// How many sinks are open after one more was to be opened, or why it could not be.
pub open spec fn opened_after<E>(opened: usize, outcome: Result<(), E>) -> Result<usize, E> {
    match outcome {
        Ok(_) => Ok(
            if opened < usize::MAX {
                (opened + 1) as usize
            } else {
                opened
            },
        ),
        Err(error) => Err(error),
    }
}

/// Takes the outcome of opening one more sink, when `opened` are open. A sink that
/// cannot be opened ends the setup with its error; else the setup goes on from the
/// new count.
pub fn after_open<E>(opened: usize, outcome: Result<(), E>) -> (r: Result<usize, E>)
    ensures
        r == opened_after(opened, outcome),
{
    match outcome {
        Ok(_) => Ok(
            if opened < usize::MAX {
                opened + 1
            } else {
                opened
            },
        ),
        Err(error) => Err(error),
    }
}

/// How a setup ends.
pub enum SetupEnd<E> {
    /// All selected sinks are open.
    Ready,
    /// A sink lacks a setting.
    Incomplete(SinkConfigError),
    /// A sink could not be opened.
    NotOpened(E),
}

/// The plans that a setup tries to open when `opened` sinks are open, in order, and
/// how it ends. `outcomes` says of each selected sink what comes of opening it.
pub open spec fn setup_run<E>(
    policy: RequestTracePolicy,
    outcomes: Seq<Result<(), E>>,
    opened: usize,
) -> (Seq<SinkPlan>, SetupEnd<E>)
    decreases policy.sinks.len() - opened,
{
    match setup_step(policy, opened as int) {
        SetupStep::Open(plan) => match opened_after(opened, outcomes[opened as int]) {
            Ok(now_open) => if opened < now_open && opened < policy.sinks.len() {
                let (rest, end) = setup_run(policy, outcomes, now_open);
                (seq![plan] + rest, end)
            } else {
                (seq![plan], SetupEnd::Ready)
            },
            Err(error) => (seq![plan], SetupEnd::NotOpened(error)),
        },
        SetupStep::Fail(error) => (Seq::empty(), SetupEnd::Incomplete(error)),
        SetupStep::Ready => (Seq::empty(), SetupEnd::Ready),
    }
}

/// Every selected sink is opened, in the order of the selection, or the setup fails
/// at the first one that is incomplete or cannot be opened, with what that one
/// lacks or with its own error. No selected sink is skipped in silence, and none
/// after a failed one is tried.
pub proof fn law_setup_opens_every_selected_sink<E>(
    policy: RequestTracePolicy,
    outcomes: Seq<Result<(), E>>,
    opened: usize,
)
    requires
        opened <= policy.sinks.len(),
        outcomes.len() == policy.sinks@.len(),
    ensures
        ({
            let (tried, end) = setup_run(policy, outcomes, opened);
            let next = opened + tried.len();
            &&& next <= policy.sinks@.len()
            &&& forall|i: int|
                0 <= i < tried.len() ==> planned(policy, policy.sinks@[opened + i]) == Ok::<
                    SinkPlan,
                    SinkConfigError,
                >(#[trigger] tried[i])
            &&& forall|k: int| opened <= k < next - 1 ==> (#[trigger] outcomes[k]) is Ok
            &&& match end {
                SetupEnd::Ready => {
                    &&& next == policy.sinks@.len()
                    &&& tried.len() > 0 ==> outcomes[next - 1] is Ok
                },
                SetupEnd::Incomplete(error) => {
                    &&& next < policy.sinks@.len()
                    &&& planned(policy, policy.sinks@[next]) == Err::<SinkPlan, SinkConfigError>(
                        error,
                    )
                    &&& tried.len() > 0 ==> outcomes[next - 1] is Ok
                },
                SetupEnd::NotOpened(error) => {
                    &&& tried.len() > 0
                    &&& outcomes[next - 1] == Err::<(), E>(error)
                },
            }
        }),
    decreases policy.sinks.len() - opened,
{
    if opened < policy.sinks.len() {
        let (tried, end) = setup_run(policy, outcomes, opened);
        if setup_step(policy, opened as int) is Open && outcomes[opened as int] is Ok {
            let now_open = (opened + 1) as usize;
            law_setup_opens_every_selected_sink(policy, outcomes, now_open);
            let (rest, _) = setup_run(policy, outcomes, now_open);
            assert forall|i: int| 0 <= i < tried.len() implies planned(
                policy,
                policy.sinks@[opened + i],
            ) == Ok::<SinkPlan, SinkConfigError>(#[trigger] tried[i]) by {
                if i > 0 {
                    assert(tried[i] == rest[i - 1]);
                    assert(policy.sinks@[opened + i] == policy.sinks@[now_open + (i - 1)]);
                }
            }
            assert(opened + tried.len() == now_open + rest.len());
        }
    }
}

/// Whether a warning is due when the setup succeeded with `sink_count` sinks.
pub open spec fn setup_is_warned_of(sink_count: usize) -> bool {
    sink_count == 0
}

/// A setup that succeeds with no sink at all, and no other, is warned of.
pub proof fn law_a_setup_without_sinks_is_warned_of<E>(
    policy: RequestTracePolicy,
    outcomes: Seq<Result<(), E>>,
)
    requires
        outcomes.len() == policy.sinks@.len(),
        setup_run(policy, outcomes, 0).1 is Ready,
    ensures
        setup_is_warned_of(setup_run(policy, outcomes, 0).0.len() as usize) <==> policy.sinks@.len()
            == 0,
{
    law_setup_opens_every_selected_sink(policy, outcomes, 0);
}

/// The warning that is due when the setup succeeded with `sink_count` sinks.
pub fn setup_warning(sink_count: usize) -> (r: Option<&'static str>)
    ensures
        r is Some <==> setup_is_warned_of(sink_count),
        r is Some <==> sink_count == 0,
        r matches Some(w) ==> w@
            == "request trace is enabled but no valid request trace sinks were configured"@,
{
    if sink_count == 0 {
        Some("request trace is enabled but no valid request trace sinks were configured")
    } else {
        None
    }
}

/// Whether the claim on the start is new, and the claim after it.
pub open spec fn claimed(started: bool) -> (bool, bool) {
    (!started, true)
}

/// The claim on the start once the start has succeeded or failed. A failed start
/// gives it back.
pub open spec fn settled(started: bool, outcome_ok: bool) -> bool {
    started && outcome_ok
}

/// Whether the workers of this process have been started. A process has one.
#[derive(Debug, PartialEq, Eq, Structural)]
pub struct WorkerStart {
    pub started: bool,
}

impl WorkerStart {
    /// Nothing has been started.
    pub fn new() -> (r: WorkerStart)
        ensures
            !r.started,
    {
        WorkerStart { started: false }
    }

    /// Claims the start. `false` where it has been claimed before: there is
    /// nothing to do then, and that is no error.
    pub fn begin(&mut self) -> (r: bool)
        ensures
            (r, final(self).started) == claimed(old(self).started),
    {
        let first = !self.started;
        self.started = true;
        first
    }

    /// Settles a claimed start by its outcome, which it hands on. A failed start
    /// gives the claim back.
    pub fn settle<E>(&mut self, outcome: Result<(), E>) -> (r: Result<(), E>)
        ensures
            r == outcome,
            final(self).started == settled(old(self).started, outcome is Ok),
    {
        if outcome.is_err() {
            self.started = false;
        }
        outcome
    }
}

/// What an attempt to start the workers does to the claim, where `outcome_ok` says
/// whether spawning them would succeed: whether they are spawned, and the claim
/// after it.
pub open spec fn start_attempt(started: bool, outcome_ok: bool) -> (bool, bool) {
    let (first, claim) = claimed(started);
    (
        first,
        if first {
            settled(claim, outcome_ok)
        } else {
            claim
        },
    )
}

/// How many of the first `attempts.len()` attempts spawned workers with success.
pub open spec fn successful_starts(started: bool, attempts: Seq<bool>) -> nat
    decreases attempts.len(),
{
    if attempts.len() == 0 {
        0
    } else {
        let (spawns, after) = start_attempt(started, attempts.first());
        let here: nat = if spawns && attempts.first() {
            1
        } else {
            0
        };
        here + successful_starts(after, attempts.drop_first())
    }
}

/// The workers are started once: however often a start is attempted, it succeeds
/// at most once, and it does succeed as soon as one attempt can, whatever failed
/// before.
pub proof fn law_workers_are_started_once(attempts: Seq<bool>)
    ensures
        successful_starts(true, attempts) == 0,
        successful_starts(false, attempts) == if attempts.contains(true) {
            1nat
        } else {
            0
        },
    decreases attempts.len(),
{
    if attempts.len() > 0 {
        let rest = attempts.drop_first();
        law_workers_are_started_once(rest);
        if attempts.first() {
            assert(attempts[0] == true);
        } else if attempts.contains(true) {
            let i = choose|i: int| 0 <= i < attempts.len() && attempts[i] == true;
            assert(rest[i - 1] == true);
        } else if rest.contains(true) {
            let i = choose|i: int| 0 <= i < rest.len() && rest[i] == true;
            assert(attempts[i + 1] == true);
        }
    }
}

/// How far a worker is.
#[derive(Clone, Copy, Debug, PartialEq, Eq, Structural)]
pub enum WorkerPhase {
    /// It awaits the shutdown or the next record, the shutdown first: when both
    /// are there, the shutdown is seen.
    Running,
    /// It takes what is left on the bus, without waiting.
    Draining,
    /// It is done.
    Stopped,
}

/// Something that happened to a worker.
#[derive(Debug)]
pub enum WorkerEvent<R> {
    /// The shutdown was requested.
    ShutdownRequested,
    /// A record came off the bus.
    Received(R),
    /// The bus has dropped this many records that the worker was too slow for.
    Lagged(u64),
    /// There is no record on the bus now.
    Empty,
    /// There will be no more records.
    Closed,
}

/// What a worker does next.
#[derive(Debug)]
pub enum WorkerAction<R> {
    /// Hand the record to the sink.
    Emit(R),
    /// Log that records were dropped.
    WarnLagged { dropped: u64, message: &'static str },
    /// Nothing but to go on.
    Proceed,
    /// Shut the sink down and end.
    ShutDownSink,
}

impl WorkerPhase {
    /// The words of the warning that records were dropped.
    pub open spec fn lag_message(self) -> &'static str {
        if self is Draining {
            "request trace bus lagged during shutdown; dropped records"
        } else {
            "request trace bus lagged; dropped records"
        }
    }

    /// The phase after `event`.
    pub open spec fn after<R>(self, event: WorkerEvent<R>) -> WorkerPhase {
        match (self, event) {
            (WorkerPhase::Stopped, _) => WorkerPhase::Stopped,
            (WorkerPhase::Running, WorkerEvent::ShutdownRequested) => WorkerPhase::Draining,
            (WorkerPhase::Draining, WorkerEvent::Empty) => WorkerPhase::Stopped,
            (_, WorkerEvent::Closed) => WorkerPhase::Stopped,
            (phase, _) => phase,
        }
    }

    /// What is done on `event`.
    pub open spec fn action<R>(self, event: WorkerEvent<R>) -> WorkerAction<R> {
        match (self, event) {
            (WorkerPhase::Stopped, _) => WorkerAction::Proceed,
            (_, WorkerEvent::Received(record)) => WorkerAction::Emit(record),
            (phase, WorkerEvent::Lagged(dropped)) => WorkerAction::WarnLagged {
                dropped,
                message: phase.lag_message(),
            },
            (WorkerPhase::Draining, WorkerEvent::Empty) => WorkerAction::ShutDownSink,
            (_, WorkerEvent::Closed) => WorkerAction::ShutDownSink,
            _ => WorkerAction::Proceed,
        }
    }
}

/// The worker of one sink.
#[derive(Debug)]
pub struct Worker {
    phase: WorkerPhase,
}

impl View for Worker {
    type V = WorkerPhase;

    closed spec fn view(&self) -> WorkerPhase {
        self.phase
    }
}

impl Worker {
    /// A worker that runs.
    pub fn new() -> (r: Worker)
        ensures
            r@ == WorkerPhase::Running,
    {
        Worker { phase: WorkerPhase::Running }
    }

    /// How far the worker is.
    pub fn phase(&self) -> (r: WorkerPhase)
        ensures
            r == self@,
    {
        self.phase
    }

    /// Takes what happened and says what to do.
    pub fn on_event<R>(&mut self, event: WorkerEvent<R>) -> (action: WorkerAction<R>)
        ensures
            final(self)@ == old(self)@.after(event),
            action == old(self)@.action(event),
    {
        match self.phase {
            WorkerPhase::Stopped => WorkerAction::Proceed,
            WorkerPhase::Running => match event {
                WorkerEvent::ShutdownRequested => {
                    self.phase = WorkerPhase::Draining;
                    WorkerAction::Proceed
                },
                WorkerEvent::Received(record) => WorkerAction::Emit(record),
                WorkerEvent::Lagged(dropped) => WorkerAction::WarnLagged {
                    dropped,
                    message: "request trace bus lagged; dropped records",
                },
                WorkerEvent::Empty => WorkerAction::Proceed,
                WorkerEvent::Closed => {
                    self.phase = WorkerPhase::Stopped;
                    WorkerAction::ShutDownSink
                },
            },
            WorkerPhase::Draining => match event {
                WorkerEvent::ShutdownRequested => WorkerAction::Proceed,
                WorkerEvent::Received(record) => WorkerAction::Emit(record),
                WorkerEvent::Lagged(dropped) => WorkerAction::WarnLagged {
                    dropped,
                    message: "request trace bus lagged during shutdown; dropped records",
                },
                WorkerEvent::Empty | WorkerEvent::Closed => {
                    self.phase = WorkerPhase::Stopped;
                    WorkerAction::ShutDownSink
                },
            },
        }
    }
}

/// The phase after `events`.
pub open spec fn phase_after<R>(start: WorkerPhase, events: Seq<WorkerEvent<R>>) -> WorkerPhase
    decreases events.len(),
{
    if events.len() == 0 {
        start
    } else {
        phase_after(start, events.drop_last()).after(events.last())
    }
}

/// What is done on `events`, one action for each.
pub open spec fn actions_on<R>(start: WorkerPhase, events: Seq<WorkerEvent<R>>) -> Seq<
    WorkerAction<R>,
>
    decreases events.len(),
{
    if events.len() == 0 {
        Seq::empty()
    } else {
        actions_on(start, events.drop_last()).push(
            phase_after(start, events.drop_last()).action(events.last()),
        )
    }
}

/// The records among `events`, in order.
pub open spec fn received<R>(events: Seq<WorkerEvent<R>>) -> Seq<R>
    decreases events.len(),
{
    if events.len() == 0 {
        Seq::empty()
    } else {
        match events.last() {
            WorkerEvent::Received(record) => received(events.drop_last()).push(record),
            _ => received(events.drop_last()),
        }
    }
}

/// The records that `actions` hands to the sink, in order.
pub open spec fn emitted<R>(actions: Seq<WorkerAction<R>>) -> Seq<R>
    decreases actions.len(),
{
    if actions.len() == 0 {
        Seq::empty()
    } else {
        match actions.last() {
            WorkerAction::Emit(record) => emitted(actions.drop_last()).push(record),
            _ => emitted(actions.drop_last()),
        }
    }
}

/// A worker that has not stopped has handed every record that it received to the
/// sink, in order, and has not shut the sink down.
pub proof fn law_a_worker_emits_what_it_receives<R>(events: Seq<WorkerEvent<R>>)
    requires
        phase_after(WorkerPhase::Running, events) != WorkerPhase::Stopped,
    ensures
        emitted(actions_on(WorkerPhase::Running, events)) == received(events),
        forall|i: int|
            0 <= i < events.len() ==> !(#[trigger] actions_on(
                WorkerPhase::Running,
                events,
            )[i] is ShutDownSink),
        actions_on(WorkerPhase::Running, events).len() == events.len(),
    decreases events.len(),
{
    if events.len() > 0 {
        let before = events.drop_last();
        law_a_worker_emits_what_it_receives(before);
        let actions = actions_on(WorkerPhase::Running, events);
        assert(actions.drop_last() =~= actions_on(WorkerPhase::Running, before));
        assert forall|i: int| 0 <= i < events.len() implies !(#[trigger] actions[i] is
            ShutDownSink) by {
            if i < before.len() {
                assert(actions[i] == actions_on(WorkerPhase::Running, before)[i]);
            }
        }
    }
}

/// When a worker stops, it shuts its sink down, as the last thing it does, after
/// handing over every record that it received.
pub proof fn law_a_worker_shuts_its_sink_down_last<R>(
    events: Seq<WorkerEvent<R>>,
    last: WorkerEvent<R>,
)
    requires
        phase_after(WorkerPhase::Running, events) != WorkerPhase::Stopped,
        phase_after(WorkerPhase::Running, events.push(last)) == WorkerPhase::Stopped,
    ensures
        ({
            let actions = actions_on(WorkerPhase::Running, events.push(last));
            &&& actions.last() is ShutDownSink
            &&& forall|i: int| 0 <= i < events.len() ==> !(#[trigger] actions[i] is ShutDownSink)
            &&& emitted(actions) == received(events.push(last))
        }),
{
    let all = events.push(last);
    assert(all.drop_last() =~= events);
    law_a_worker_emits_what_it_receives(events);
    let actions = actions_on(WorkerPhase::Running, all);
    assert(actions.drop_last() =~= actions_on(WorkerPhase::Running, events));
    assert forall|i: int| 0 <= i < events.len() implies !(#[trigger] actions[i] is ShutDownSink) by {
        assert(actions[i] == actions_on(WorkerPhase::Running, events)[i]);
    }
}

/// Whether a shutdown was requested among the first `n` of `events`.
pub open spec fn shutdown_requested<R>(events: Seq<WorkerEvent<R>>, n: int) -> bool {
    exists|i: int| 0 <= i < n && #[trigger] events[i] is ShutdownRequested
}

/// Whether the event `i` is the end of the bus: it is closed, or it is empty and a
/// shutdown was requested before.
pub open spec fn is_the_end<R>(events: Seq<WorkerEvent<R>>, i: int) -> bool {
    events[i] is Closed || events[i] is Empty && shutdown_requested(events, i)
}

/// Whether the bus came to its end among the first `n` of `events`.
pub open spec fn bus_ended<R>(events: Seq<WorkerEvent<R>>, n: int) -> bool {
    exists|i: int| 0 <= i < n && #[trigger] is_the_end(events, i)
}

proof fn lemma_one_event_less<R>(events: Seq<WorkerEvent<R>>, n: int)
    requires
        events.len() > 0,
        0 <= n < events.len(),
    ensures
        shutdown_requested(events.drop_last(), n) == shutdown_requested(events, n),
        bus_ended(events.drop_last(), n) == bus_ended(events, n),
    decreases n,
{
    let before = events.drop_last();
    if shutdown_requested(events, n) {
        let i = choose|i: int| 0 <= i < n && #[trigger] events[i] is ShutdownRequested;
        assert(before[i] is ShutdownRequested);
    }
    if shutdown_requested(before, n) {
        let i = choose|i: int| 0 <= i < n && #[trigger] before[i] is ShutdownRequested;
        assert(events[i] is ShutdownRequested);
    }
    if bus_ended(events, n) {
        let i = choose|i: int| 0 <= i < n && #[trigger] is_the_end(events, i);
        lemma_one_event_less(events, i);
        assert(before[i] == events[i]);
        assert(is_the_end(before, i));
    }
    if bus_ended(before, n) {
        let i = choose|i: int| 0 <= i < n && #[trigger] is_the_end(before, i);
        lemma_one_event_less(events, i);
        assert(before[i] == events[i]);
        assert(is_the_end(events, i));
    }
}

proof fn lemma_one_event_more<R>(events: Seq<WorkerEvent<R>>)
    requires
        events.len() > 0,
    ensures
        ({
            let n = events.len() - 1;
            &&& shutdown_requested(events, n + 1) <==> shutdown_requested(events, n)
                || events[n] is ShutdownRequested
            &&& bus_ended(events, n + 1) <==> bus_ended(events, n) || is_the_end(events, n)
        }),
{
    let n = events.len() - 1;
    if events[n] is ShutdownRequested {
        assert(shutdown_requested(events, n + 1));
    }
    if is_the_end(events, n) {
        assert(bus_ended(events, n + 1));
    }
}

/// What happened decides how far a worker is, and nothing else does: it runs until a
/// shutdown is requested or the bus is closed, and nothing but a requested shutdown
/// has it drain; it stops when the bus comes to its end, and not before. Records that
/// were dropped, however many, change nothing about that.
pub proof fn law_only_a_shutdown_or_the_end_of_the_bus_ends_a_run<R>(events: Seq<WorkerEvent<R>>)
    ensures
        (forall|i: int|
            0 <= i < events.len() ==> !(#[trigger] events[i] is ShutdownRequested) && !(
            events[i] is Closed)) ==> phase_after(WorkerPhase::Running, events)
            == WorkerPhase::Running,
        phase_after(WorkerPhase::Running, events) == WorkerPhase::Stopped <==> bus_ended(
            events,
            events.len() as int,
        ),
        phase_after(WorkerPhase::Running, events) == WorkerPhase::Draining <==> {
            &&& shutdown_requested(events, events.len() as int)
            &&& !bus_ended(events, events.len() as int)
        },
        phase_after(WorkerPhase::Running, events) == WorkerPhase::Running <==> {
            &&& !shutdown_requested(events, events.len() as int)
            &&& !bus_ended(events, events.len() as int)
        },
    decreases events.len(),
{
    if events.len() > 0 {
        let before = events.drop_last();
        let n = events.len() - 1;
        law_only_a_shutdown_or_the_end_of_the_bus_ends_a_run(before);
        lemma_one_event_less(events, n);
        lemma_one_event_more(events);
        assert(events.last() == events[n]);
    }
    if forall|i: int|
        0 <= i < events.len() ==> !(#[trigger] events[i] is ShutdownRequested) && !(
        events[i] is Closed) {
        if bus_ended(events, events.len() as int) {
            let i = choose|i: int| 0 <= i < events.len() && #[trigger] is_the_end(events, i);
            assert(shutdown_requested(events, i));
        }
    }
}

/// Until the bus comes to its end, a worker does with each event what it calls for: a
/// record is emitted, dropped records are warned of, with their number and with other
/// words once a shutdown was requested, and the rest is passed over. At the end of
/// the bus it shuts the sink down. After that it does nothing more.
pub proof fn law_what_a_worker_does<R>(events: Seq<WorkerEvent<R>>, i: int)
    requires
        0 <= i < events.len(),
    ensures
        actions_on(WorkerPhase::Running, events).len() == events.len(),
        actions_on(WorkerPhase::Running, events)[i] == if bus_ended(events, i) {
            WorkerAction::Proceed
        } else if is_the_end(events, i) {
            WorkerAction::ShutDownSink
        } else {
            match events[i] {
                WorkerEvent::Received(record) => WorkerAction::Emit(record),
                WorkerEvent::Lagged(dropped) => if shutdown_requested(events, i) {
                    WorkerAction::WarnLagged {
                        dropped,
                        message: "request trace bus lagged during shutdown; dropped records",
                    }
                } else {
                    WorkerAction::WarnLagged {
                        dropped,
                        message: "request trace bus lagged; dropped records",
                    }
                },
                _ => WorkerAction::Proceed,
            }
        },
    decreases events.len(),
{
    let before = events.drop_last();
    let n = events.len() - 1;
    lemma_as_many_actions(events);
    lemma_as_many_actions(before);
    if i < n {
        law_what_a_worker_does(before, i);
        lemma_one_event_less(events, i);
        assert(before[i] == events[i]);
        assert(actions_on(WorkerPhase::Running, events)[i] == actions_on(
            WorkerPhase::Running,
            before,
        )[i]);
    } else {
        law_only_a_shutdown_or_the_end_of_the_bus_ends_a_run(before);
        lemma_one_event_less(events, n);
    }
}

proof fn lemma_as_many_actions<R>(events: Seq<WorkerEvent<R>>)
    ensures
        actions_on(WorkerPhase::Running, events).len() == events.len(),
    decreases events.len(),
{
    if events.len() > 0 {
        lemma_as_many_actions(events.drop_last());
    }
}

/// After a shutdown request a worker stops at the first sign that the bus holds
/// nothing more, and not before: what is on the bus is not dropped.
pub proof fn law_a_draining_worker_stops_when_the_bus_is_empty<R>(event: WorkerEvent<R>)
    ensures
        WorkerPhase::Running.after(WorkerEvent::<R>::ShutdownRequested) == WorkerPhase::Draining,
        WorkerPhase::Draining.after(event) == WorkerPhase::Stopped <==> event is Empty
            || event is Closed,
        WorkerPhase::Running.after(event) == WorkerPhase::Stopped <==> event is Closed,
{
}

} // verus!
