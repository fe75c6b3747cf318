//! Sinks: what each of them does with a record.

use crate::jsonl_gz::JsonlGzipSinkOptions;
use crate::policy::{RequestTracePolicy, SinkConfigError, DYN_REQUEST_TRACE_SINKS};
use crate::s3_segment_sink::PutObject;
use crate::text;
use vstd::prelude::*;

verus! {

/// Something that a sink asks its caller to do.
#[derive(Debug)]
pub enum SinkAction {
    /// Write these bytes to stderr.
    WriteStderr { bytes: Vec<u8> },
    /// Publish the payload on a NATS subject.
    Publish { subject: String, payload: Vec<u8> },
    /// Hand the record, encoded or not, to the writer of the file.
    Enqueue { record: EncodedRecord },
    /// Put the object into its bucket.
    Upload { object: PutObject },
    /// Log a warning.
    Warn { message: String },
}

/// The warning that a failed action calls for.
#[derive(Debug)]
pub struct FailureWarning {
    /// The words of the warning.
    pub message: String,
    /// The reason, where it is logged beside the words and not within them.
    pub error: Option<String>,
}

impl View for FailureWarning {
    type V = (Seq<char>, Option<Seq<char>>);

    /// The words, and the reason beside them.
    open spec fn view(&self) -> (Seq<char>, Option<Seq<char>>) {
        (self.message@, text::optional_text(self.error))
    }
}

impl SinkAction {
    /// The warning that is due when the action failed for the reason `error`: its
    /// words, and the reason where that is logged beside them. A failure goes no
    /// further than this warning. A failed upload has a report of its own, and a
    /// warning cannot fail.
    pub open spec fn spec_failure(self, error: Seq<char>) -> Option<
        (Seq<char>, Option<Seq<char>>),
    > {
        match self {
            SinkAction::WriteStderr { .. } => Some(
                ("request trace stderr write failed"@, Some(error)),
            ),
            SinkAction::Publish { .. } => Some(
                ("request trace nats: publish failed: "@ + error, None),
            ),
            SinkAction::Enqueue { .. } => Some(
                ("request trace file sink closed; dropping record"@, None),
            ),
            SinkAction::Upload { .. } => None,
            SinkAction::Warn { .. } => None,
        }
    }

    /// The warning that is due when the action failed for the reason `error`.
    pub fn failure(&self, error: &str) -> (r: Option<FailureWarning>)
        ensures
            match r {
                Some(warning) => self.spec_failure(error@) == Some(warning@),
                None => self.spec_failure(error@) is None,
            },
    {
        match self {
            SinkAction::WriteStderr { .. } => Some(
                FailureWarning {
                    message: "request trace stderr write failed".to_owned(),
                    error: Some(error.to_owned()),
                },
            ),
            SinkAction::Publish { .. } => {
                let mut message = "request trace nats: publish failed: ".to_owned();
                message.append(error);
                Some(FailureWarning { message, error: None })
            },
            SinkAction::Enqueue { .. } => Some(
                FailureWarning {
                    message: "request trace file sink closed; dropping record".to_owned(),
                    error: None,
                },
            ),
            SinkAction::Upload { .. } => None,
            SinkAction::Warn { .. } => None,
        }
    }
}

/// A record as the bytes of its JSON, or the reason why there are none.
pub type EncodedRecord = Result<Vec<u8>, String>;

/// A place that trace records go to.
pub trait RequestTraceSink: Sized + Send + Sync {
    /// What the sink is called.
    spec fn spec_name(&self) -> Seq<char>;

    /// Whether `actions` is what the sink does with `record`, and `after` is the
    /// sink it then is.
    spec fn emits(&self, record: EncodedRecord, after: &Self, actions: Seq<SinkAction>) -> bool;

    /// What the sink is called.
    fn name(&self) -> (r: &'static str)
        ensures
            r@ == self.spec_name(),
    ;

    /// Takes one record.
    fn emit(&mut self, record: EncodedRecord) -> (actions: Vec<SinkAction>)
        ensures
            old(self).emits(record, final(self), actions@),
    ;

    /// Gives out what is held back. Nothing, unless a sink says otherwise.
    fn shutdown(&mut self) -> (actions: Vec<SinkAction>)
        default_ensures
            actions@.len() == 0,
            *final(self) == *old(self),
    {
        Vec::new()
    }
}

/// Whether `actions` is the one warning `message`.
pub open spec fn only_warns(actions: Seq<SinkAction>, message: Seq<char>) -> bool {
    actions.len() == 1 && (actions[0] matches SinkAction::Warn { message: m } && m@ == message)
}

/// Whether `actions` hands the record to the writer of a file, and nothing else.
pub open spec fn only_enqueues(record: EncodedRecord, actions: Seq<SinkAction>) -> bool {
    actions.len() == 1 && actions[0] == (SinkAction::Enqueue { record })
}

/// The warning `text` followed by `error`, as the only action.
pub(crate) fn warn(text: &str, error: String) -> (actions: Vec<SinkAction>)
    ensures
        only_warns(actions@, text@ + error@),
{
    let mut message = text.to_owned();
    message.append(error.as_str());
    let mut actions: Vec<SinkAction> = Vec::new();
    actions.push(SinkAction::Warn { message });
    actions
}

fn enqueue(record: EncodedRecord) -> (actions: Vec<SinkAction>)
    ensures
        only_enqueues(record, actions@),
{
    let mut actions: Vec<SinkAction> = Vec::new();
    actions.push(SinkAction::Enqueue { record });
    actions
}

/// Writes each record as a line on stderr.
#[derive(Debug)]
pub struct StderrRequestTraceSink;

impl RequestTraceSink for StderrRequestTraceSink {
    open spec fn spec_name(&self) -> Seq<char> {
        "stderr"@
    }

    open spec fn emits(&self, record: EncodedRecord, after: &Self, actions: Seq<SinkAction>) -> bool {
        &&& *after == *self
        &&& match record {
            Ok(json) => actions.len() == 1 && (actions[0] matches SinkAction::WriteStderr { bytes }
                && bytes@ == json@.push(10)),
            Err(error) => only_warns(actions, "request trace serialization failed: "@ + error@),
        }
    }

    fn name(&self) -> (r: &'static str) {
        "stderr"
    }

    fn emit(&mut self, record: EncodedRecord) -> (actions: Vec<SinkAction>) {
        match record {
            Ok(json) => {
                let mut bytes = json;
                bytes.push(10);
                let mut actions: Vec<SinkAction> = Vec::new();
                actions.push(SinkAction::WriteStderr { bytes });
                actions
            },
            Err(error) => warn("request trace serialization failed: ", error),
        }
    }
}

/// Publishes each record on a NATS subject.
#[derive(Debug)]
pub struct NatsRequestTraceSink {
    pub subject: String,
}

impl NatsRequestTraceSink {
    /// The sink that the policy describes. It needs a connection.
    pub fn from_policy(policy: &RequestTracePolicy) -> (r: NatsRequestTraceSink)
        ensures
            r.subject == policy.nats_subject,
    {
        NatsRequestTraceSink { subject: policy.nats_subject.clone() }
    }

    /// The words that a failed connection is explained by.
    pub fn connect_context() -> (r: String)
        ensures
            r@ == "Attempting to connect NATS request trace sink from env var "@
                + DYN_REQUEST_TRACE_SINKS@,
    {
        let mut r = "Attempting to connect NATS request trace sink from env var ".to_owned();
        r.append(DYN_REQUEST_TRACE_SINKS);
        r
    }
}

impl RequestTraceSink for NatsRequestTraceSink {
    open spec fn spec_name(&self) -> Seq<char> {
        "nats"@
    }

    open spec fn emits(&self, record: EncodedRecord, after: &Self, actions: Seq<SinkAction>) -> bool {
        &&& *after == *self
        &&& match record {
            Ok(json) => actions.len() == 1 && (actions[0] matches SinkAction::Publish {
                subject,
                payload,
            } && subject == self.subject && payload@ == json@),
            Err(error) => only_warns(actions, "request trace nats: serialize failed: "@ + error@),
        }
    }

    fn name(&self) -> (r: &'static str) {
        "nats"
    }

    fn emit(&mut self, record: EncodedRecord) -> (actions: Vec<SinkAction>) {
        match record {
            Ok(payload) => {
                let mut actions: Vec<SinkAction> = Vec::new();
                actions.push(SinkAction::Publish { subject: self.subject.clone(), payload });
                actions
            },
            Err(error) => warn("request trace nats: serialize failed: ", error),
        }
    }
}

/// When the writer of a file of JSON lines writes.
#[derive(Clone, Copy, Debug, PartialEq, Eq, Structural)]
pub struct JsonlSinkOptions {
    pub buffer_bytes: usize,
    pub flush_interval_ms: u64,
}

/// Appends each record as a line to a file.
#[derive(Debug)]
pub struct JsonlRequestTraceSink {
    pub path: String,
    pub options: JsonlSinkOptions,
}

impl JsonlRequestTraceSink {
    /// A sink for the file at `path`.
    pub fn new(path: String, options: JsonlSinkOptions) -> (r: JsonlRequestTraceSink)
        ensures
            r == (JsonlRequestTraceSink { path, options }),
    {
        JsonlRequestTraceSink { path, options }
    }

    /// The sink that the policy describes, if it names a file.
    pub fn from_policy(policy: &RequestTracePolicy) -> (r: Result<
        JsonlRequestTraceSink,
        SinkConfigError,
    >)
        ensures
            r is Ok <==> policy.file_path is Some,
            r matches Ok(sink) ==> {
                &&& sink.path@ == policy.file_path->0@
                &&& sink.options.buffer_bytes == policy.file_buffer_bytes
                &&& policy.file_flush_interval_ms > 0 ==> sink.options.flush_interval_ms
                    == policy.file_flush_interval_ms
                &&& policy.file_flush_interval_ms == 0 ==> sink.options.flush_interval_ms == 1
            },
            r == (match policy.file_path {
                Some(path) => Ok::<JsonlRequestTraceSink, SinkConfigError>(
                    JsonlRequestTraceSink {
                        path,
                        options: JsonlSinkOptions {
                            buffer_bytes: policy.file_buffer_bytes,
                            flush_interval_ms: policy.spec_flush_interval_ms(),
                        },
                    },
                ),
                None => Err(SinkConfigError::MissingFilePath),
            }),
    {
        match &policy.file_path {
            Some(path) => Ok(
                JsonlRequestTraceSink::new(
                    path.clone(),
                    JsonlSinkOptions {
                        buffer_bytes: policy.file_buffer_bytes,
                        flush_interval_ms: policy.flush_interval_ms(),
                    },
                ),
            ),
            None => Err(SinkConfigError::MissingFilePath),
        }
    }

    /// The words that a file that cannot be opened is explained by.
    pub open spec fn spec_open_context(self) -> Seq<char> {
        "opening jsonl request trace sink at "@ + self.path@
    }

    /// The words that a file that cannot be opened is explained by.
    pub fn open_context(&self) -> (r: String)
        ensures
            r@ == self.spec_open_context(),
            r@ == "opening jsonl request trace sink at "@ + self.path@,
    {
        let mut r = "opening jsonl request trace sink at ".to_owned();
        r.append(self.path.as_str());
        r
    }
}

impl RequestTraceSink for JsonlRequestTraceSink {
    open spec fn spec_name(&self) -> Seq<char> {
        "file"@
    }

    open spec fn emits(&self, record: EncodedRecord, after: &Self, actions: Seq<SinkAction>) -> bool {
        *after == *self && only_enqueues(record, actions)
    }

    fn name(&self) -> (r: &'static str) {
        "file"
    }

    fn emit(&mut self, record: EncodedRecord) -> (actions: Vec<SinkAction>) {
        enqueue(record)
    }
}

/// Appends each record as a line to gzip-compressed segments of a file.
#[derive(Debug)]
pub struct JsonlGzipRequestTraceSink {
    pub path: String,
    pub options: JsonlGzipSinkOptions,
}

/// The segment limits that the policy sets.
pub open spec fn spec_segment_options(policy: RequestTracePolicy) -> JsonlGzipSinkOptions {
    JsonlGzipSinkOptions {
        buffer_bytes: policy.file_buffer_bytes,
        flush_interval_ms: policy.spec_flush_interval_ms(),
        roll_uncompressed_bytes: policy.file_roll_bytes,
        roll_lines: policy.file_roll_lines,
        max_segments: None,
    }
}

/// Whether `options` says what the policy says, setting by setting: each limit is the
/// policy's own, and a limit that the policy does not set is not set. A flush
/// interval of zero counts as one, and the number of segments is not limited.
pub open spec fn options_are_the_policys(
    options: JsonlGzipSinkOptions,
    policy: RequestTracePolicy,
) -> bool {
    &&& options.buffer_bytes == policy.file_buffer_bytes
    &&& options.roll_uncompressed_bytes == policy.file_roll_bytes
    &&& options.roll_lines is Some <==> policy.file_roll_lines is Some
    &&& options.roll_lines is Some ==> options.roll_lines->0 == policy.file_roll_lines->0
    &&& policy.file_flush_interval_ms > 0 ==> options.flush_interval_ms
        == policy.file_flush_interval_ms
    &&& policy.file_flush_interval_ms == 0 ==> options.flush_interval_ms == 1
    &&& options.max_segments is None
}

/// The segment limits that the policy sets.
pub fn segment_options(policy: &RequestTracePolicy) -> (r: JsonlGzipSinkOptions)
    ensures
        r == spec_segment_options(*policy),
        r.buffer_bytes == policy.file_buffer_bytes,
        r.roll_uncompressed_bytes == policy.file_roll_bytes,
        r.roll_lines == policy.file_roll_lines,
        options_are_the_policys(r, *policy),
{
    JsonlGzipSinkOptions {
        buffer_bytes: policy.file_buffer_bytes,
        flush_interval_ms: policy.flush_interval_ms(),
        roll_uncompressed_bytes: policy.file_roll_bytes,
        roll_lines: policy.file_roll_lines,
        max_segments: None,
    }
}

impl JsonlGzipRequestTraceSink {
    /// A sink for the segments of the file at `path`.
    pub fn new(path: String, options: JsonlGzipSinkOptions) -> (r: JsonlGzipRequestTraceSink)
        ensures
            r == (JsonlGzipRequestTraceSink { path, options }),
    {
        JsonlGzipRequestTraceSink { path, options }
    }

    /// The sink that the policy describes, if it names a file.
    pub fn from_policy(policy: &RequestTracePolicy) -> (r: Result<
        JsonlGzipRequestTraceSink,
        SinkConfigError,
    >)
        ensures
            r is Ok <==> policy.file_path is Some,
            r matches Ok(sink) ==> {
                &&& sink.path@ == policy.file_path->0@
                &&& sink.options.buffer_bytes == policy.file_buffer_bytes
                &&& sink.options.roll_uncompressed_bytes == policy.file_roll_bytes
                &&& sink.options.roll_lines == policy.file_roll_lines
                &&& options_are_the_policys(sink.options, *policy)
            },
            r == (match policy.file_path {
                Some(path) => Ok::<JsonlGzipRequestTraceSink, SinkConfigError>(
                    JsonlGzipRequestTraceSink { path, options: spec_segment_options(*policy) },
                ),
                None => Err(SinkConfigError::MissingFilePath),
            }),
    {
        match &policy.file_path {
            Some(path) => Ok(
                JsonlGzipRequestTraceSink::new(path.clone(), segment_options(policy)),
            ),
            None => Err(SinkConfigError::MissingFilePath),
        }
    }

    /// The words that a file that cannot be opened is explained by.
    pub open spec fn spec_open_context(self) -> Seq<char> {
        "opening gzip jsonl request trace sink at "@ + self.path@
    }

    /// The words that a file that cannot be opened is explained by.
    pub fn open_context(&self) -> (r: String)
        ensures
            r@ == self.spec_open_context(),
            r@ == "opening gzip jsonl request trace sink at "@ + self.path@,
    {
        let mut r = "opening gzip jsonl request trace sink at ".to_owned();
        r.append(self.path.as_str());
        r
    }
}

impl RequestTraceSink for JsonlGzipRequestTraceSink {
    open spec fn spec_name(&self) -> Seq<char> {
        "file"@
    }

    open spec fn emits(&self, record: EncodedRecord, after: &Self, actions: Seq<SinkAction>) -> bool {
        *after == *self && only_enqueues(record, actions)
    }

    fn name(&self) -> (r: &'static str) {
        "file"
    }

    fn emit(&mut self, record: EncodedRecord) -> (actions: Vec<SinkAction>) {
        enqueue(record)
    }
}

/// A sink goes by the policy's own limits, and two policies that differ in a limit
/// give sinks that differ in it: no limit is left out, made up or taken for another.
pub proof fn law_segment_limits_are_the_policys_own(
    policy1: RequestTracePolicy,
    policy2: RequestTracePolicy,
)
    ensures
        ({
            let options1 = spec_segment_options(policy1);
            let options2 = spec_segment_options(policy2);
            &&& options_are_the_policys(options1, policy1)
            &&& options1.roll_lines == options2.roll_lines <==> policy1.file_roll_lines
                == policy2.file_roll_lines
            &&& options1.roll_uncompressed_bytes == options2.roll_uncompressed_bytes
                <==> policy1.file_roll_bytes == policy2.file_roll_bytes
            &&& options1.buffer_bytes == options2.buffer_bytes <==> policy1.file_buffer_bytes
                == policy2.file_buffer_bytes
        }),
{
}

/// A record that could be encoded leaves a sink once and whole: as a line of its own
/// on stderr, as the payload of one message on the sink's subject, or handed to the
/// writer of the file. The sink stays what it is.
pub proof fn law_a_record_goes_out_once_and_whole(
    json: Vec<u8>,
    stderr: StderrRequestTraceSink,
    stderr_after: StderrRequestTraceSink,
    nats: NatsRequestTraceSink,
    nats_after: NatsRequestTraceSink,
    jsonl: JsonlRequestTraceSink,
    jsonl_after: JsonlRequestTraceSink,
    gz: JsonlGzipRequestTraceSink,
    gz_after: JsonlGzipRequestTraceSink,
    actions: Seq<SinkAction>,
)
    ensures
        stderr.emits(Ok(json), &stderr_after, actions) ==> {
            &&& actions.len() == 1
            &&& actions[0] is WriteStderr
            &&& actions[0]->bytes@.len() == json@.len() + 1
            &&& actions[0]->bytes@.drop_last() == json@
            &&& actions[0]->bytes@.last() == 10
        },
        nats.emits(Ok(json), &nats_after, actions) ==> {
            &&& actions.len() == 1
            &&& actions[0] is Publish
            &&& actions[0]->subject@ == nats.subject@
            &&& actions[0]->payload@ == json@
            &&& nats_after == nats
        },
        jsonl.emits(Ok(json), &jsonl_after, actions) ==> {
            &&& actions.len() == 1
            &&& actions[0] is Enqueue
            &&& actions[0]->record == Ok::<Vec<u8>, String>(json)
            &&& jsonl_after == jsonl
        },
        gz.emits(Ok(json), &gz_after, actions) ==> {
            &&& actions.len() == 1
            &&& actions[0] is Enqueue
            &&& actions[0]->record == Ok::<Vec<u8>, String>(json)
            &&& gz_after == gz
        },
{
    assert(json@.push(10).drop_last() =~= json@);
}

/// Whether `actions` is a single warning: `words`, followed by `error`.
pub open spec fn warns_of(actions: Seq<SinkAction>, words: Seq<char>, error: Seq<char>) -> bool {
    &&& actions.len() == 1
    &&& actions[0] is Warn
    &&& actions[0]->message@.len() == words.len() + error.len()
    &&& actions[0]->message@.take(words.len() as int) == words
    &&& actions[0]->message@.skip(words.len() as int) == error
}

/// A record that could not be encoded sends nothing out: stderr and NATS only warn,
/// with the reason at the end, and the file sinks leave it to the writer of the file,
/// who gets the reason.
pub proof fn law_an_unencoded_record_sends_nothing_out(
    error: String,
    stderr: StderrRequestTraceSink,
    stderr_after: StderrRequestTraceSink,
    nats: NatsRequestTraceSink,
    nats_after: NatsRequestTraceSink,
    jsonl: JsonlRequestTraceSink,
    jsonl_after: JsonlRequestTraceSink,
    gz: JsonlGzipRequestTraceSink,
    gz_after: JsonlGzipRequestTraceSink,
    actions: Seq<SinkAction>,
)
    ensures
        stderr.emits(Err(error), &stderr_after, actions) ==> warns_of(
            actions,
            "request trace serialization failed: "@,
            error@,
        ),
        nats.emits(Err(error), &nats_after, actions) ==> {
            &&& warns_of(actions, "request trace nats: serialize failed: "@, error@)
            &&& nats_after == nats
        },
        jsonl.emits(Err(error), &jsonl_after, actions) ==> {
            &&& actions.len() == 1
            &&& actions[0] is Enqueue
            &&& actions[0]->record == Err::<Vec<u8>, String>(error)
            &&& jsonl_after == jsonl
        },
        gz.emits(Err(error), &gz_after, actions) ==> {
            &&& actions.len() == 1
            &&& actions[0] is Enqueue
            &&& actions[0]->record == Err::<Vec<u8>, String>(error)
            &&& gz_after == gz
        },
{
    let a = "request trace serialization failed: "@;
    let b = "request trace nats: serialize failed: "@;
    assert((a + error@).take(a.len() as int) =~= a);
    assert((a + error@).skip(a.len() as int) =~= error@);
    assert((b + error@).take(b.len() as int) =~= b);
    assert((b + error@).skip(b.len() as int) =~= error@);
}

/// Whatever fails on the way out is warned of and goes no further. The reason is not
/// lost: it stands beside the words for stderr and at their end for NATS. A closed
/// file writer has none to give. An upload is reported on elsewhere, and a warning
/// does not fail.
pub proof fn law_a_failed_action_is_warned_of(action: SinkAction, error: Seq<char>)
    ensures
        action.spec_failure(error) is Some <==> {
            ||| action is WriteStderr
            ||| action is Publish
            ||| action is Enqueue
        },
        action.spec_failure(error) matches Some((words, reason)) ==> {
            &&& action is WriteStderr ==> {
                &&& words == "request trace stderr write failed"@
                &&& reason == Some(error)
            }
            &&& action is Publish ==> {
                &&& words == "request trace nats: publish failed: "@ + error
                &&& reason is None
            }
            &&& action is Enqueue ==> {
                &&& words == "request trace file sink closed; dropping record"@
                &&& reason is None
            }
        },
{
}

/// A file that cannot be opened is named by the error, at its end, whatever its path.
pub proof fn law_a_file_that_cannot_be_opened_is_named(
    jsonl: JsonlRequestTraceSink,
    gz: JsonlGzipRequestTraceSink,
)
    ensures
        jsonl.spec_open_context().len() >= jsonl.path@.len(),
        jsonl.spec_open_context().skip(jsonl.spec_open_context().len() - jsonl.path@.len())
            == jsonl.path@,
        gz.spec_open_context().len() >= gz.path@.len(),
        gz.spec_open_context().skip(gz.spec_open_context().len() - gz.path@.len()) == gz.path@,
        jsonl.path@ == gz.path@ ==> jsonl.spec_open_context() != gz.spec_open_context(),
{
    reveal_strlit("opening jsonl request trace sink at ");
    reveal_strlit("opening gzip jsonl request trace sink at ");
    let a = jsonl.spec_open_context();
    let b = gz.spec_open_context();
    assert(a.skip(a.len() - jsonl.path@.len()) =~= jsonl.path@);
    assert(b.skip(b.len() - gz.path@.len()) =~= gz.path@);
}

} // verus!
