//! What an operator configures of request tracing.

use vstd::prelude::*;

verus! {

/// The variable that lists the sinks.
pub const DYN_REQUEST_TRACE_SINKS: &'static str = "DYN_REQUEST_TRACE_SINKS";

/// The variable that holds the path of the file sink.
pub const DYN_REQUEST_TRACE_FILE_PATH: &'static str = "DYN_REQUEST_TRACE_FILE_PATH";

/// The variable that holds the bucket of the S3 sink.
pub const DYN_REQUEST_TRACE_S3_BUCKET: &'static str = "DYN_REQUEST_TRACE_S3_BUCKET";

/// A kind of sink that can be selected.
#[derive(Clone, Copy, Debug, PartialEq, Eq, Structural)]
pub enum RequestTraceSinkKind {
    Stderr,
    Nats,
    Otel,
    File,
    S3,
}

/// How the file sink writes.
#[derive(Clone, Copy, Debug, PartialEq, Eq, Structural)]
pub enum RequestTraceFileFormat {
    Jsonl,
    JsonlGz,
}

/// The settings of request tracing.
#[derive(Debug)]
pub struct RequestTracePolicy {
    /// The selected sinks, in order.
    pub sinks: Vec<RequestTraceSinkKind>,
    pub file_format: RequestTraceFileFormat,
    pub file_path: Option<String>,
    pub file_buffer_bytes: usize,
    pub file_flush_interval_ms: u64,
    pub file_roll_bytes: u64,
    pub file_roll_lines: Option<u64>,
    pub nats_subject: String,
    pub s3_bucket: Option<String>,
    pub s3_prefix: String,
    pub s3_region: Option<String>,
}

impl RequestTracePolicy {
    /// The flush interval: the configured one, but never zero.
    pub open spec fn spec_flush_interval_ms(&self) -> u64 {
        if self.file_flush_interval_ms < 1 {
            1
        } else {
            self.file_flush_interval_ms
        }
    }

    /// The flush interval: the configured one, but never zero.
    pub fn flush_interval_ms(&self) -> (r: u64)
        ensures
            r == self.spec_flush_interval_ms(),
            self.file_flush_interval_ms > 0 ==> r == self.file_flush_interval_ms,
            self.file_flush_interval_ms == 0 ==> r == 1,
    {
        if self.file_flush_interval_ms < 1 {
            1
        } else {
            self.file_flush_interval_ms
        }
    }
}

/// A selected sink lacks a setting that it cannot do without.
#[derive(Clone, Copy, Debug, PartialEq, Eq, Structural)]
pub enum SinkConfigError {
    /// The file sink has no path.
    MissingFilePath,
    /// The S3 sink has no bucket.
    MissingS3Bucket,
}

impl SinkConfigError {
    /// The variable that is not set.
    pub open spec fn spec_variable(self) -> Seq<char> {
        match self {
            SinkConfigError::MissingFilePath => DYN_REQUEST_TRACE_FILE_PATH@,
            SinkConfigError::MissingS3Bucket => DYN_REQUEST_TRACE_S3_BUCKET@,
        }
    }

    /// The sink that needs it, as it is written in the list of sinks.
    pub open spec fn spec_sink(self) -> Seq<char> {
        match self {
            SinkConfigError::MissingFilePath => "file"@,
            SinkConfigError::MissingS3Bucket => "s3"@,
        }
    }

    /// The error in words:
    /// `{variable} must be set when DYN_REQUEST_TRACE_SINKS includes {sink}`.
    pub open spec fn spec_message(self) -> Seq<char> {
        self.spec_variable() + " must be set when "@ + DYN_REQUEST_TRACE_SINKS@ + " includes "@
            + self.spec_sink()
    }

    /// The error in words:
    /// `{variable} must be set when DYN_REQUEST_TRACE_SINKS includes {sink}`.
    pub fn message(self) -> (r: String)
        ensures
            r@ == self.spec_message(),
            r@ == self.spec_variable() + " must be set when "@ + DYN_REQUEST_TRACE_SINKS@
                + " includes "@ + self.spec_sink(),
    {
        let variable = match self {
            SinkConfigError::MissingFilePath => DYN_REQUEST_TRACE_FILE_PATH,
            SinkConfigError::MissingS3Bucket => DYN_REQUEST_TRACE_S3_BUCKET,
        };
        let sink = match self {
            SinkConfigError::MissingFilePath => "file",
            SinkConfigError::MissingS3Bucket => "s3",
        };
        let mut r = variable.to_owned();
        r.append(" must be set when ");
        r.append(DYN_REQUEST_TRACE_SINKS);
        r.append(" includes ");
        r.append(sink);
        r
    }
}

/// Whether `part` stands in `whole`, from its character `at` on.
pub open spec fn stands_at(part: Seq<char>, whole: Seq<char>, at: int) -> bool {
    &&& 0 <= at
    &&& at + part.len() <= whole.len()
    &&& whole.subrange(at, at + part.len()) == part
}

/// The interval between two flushes is what is configured, and never zero: a
/// configured zero counts as one.
pub proof fn law_the_flush_interval_is_never_zero(policy: RequestTracePolicy)
    ensures
        policy.spec_flush_interval_ms() > 0,
        policy.file_flush_interval_ms > 0 ==> policy.spec_flush_interval_ms()
            == policy.file_flush_interval_ms,
        policy.file_flush_interval_ms == 0 ==> policy.spec_flush_interval_ms() == 1,
{
}

/// An error names the variable that the operator forgot, at its beginning, the
/// variable that lists the sinks, and, at its end, the sink that needs the setting.
pub proof fn law_an_error_names_what_is_missing(error: SinkConfigError) -> (at: int)
    ensures
        error is MissingFilePath ==> stands_at(
            "DYN_REQUEST_TRACE_FILE_PATH"@,
            error.spec_message(),
            0,
        ),
        error is MissingS3Bucket ==> stands_at(
            "DYN_REQUEST_TRACE_S3_BUCKET"@,
            error.spec_message(),
            0,
        ),
        stands_at("DYN_REQUEST_TRACE_SINKS"@, error.spec_message(), at),
        error is MissingFilePath ==> stands_at(
            "file"@,
            error.spec_message(),
            error.spec_message().len() - "file"@.len(),
        ),
        error is MissingS3Bucket ==> stands_at(
            "s3"@,
            error.spec_message(),
            error.spec_message().len() - "s3"@.len(),
        ),
{
    let message = error.spec_message();
    let at = (error.spec_variable() + " must be set when "@).len() as int;
    let list = "DYN_REQUEST_TRACE_SINKS"@;
    let variable = error.spec_variable();
    let sink = error.spec_sink();
    assert(message.subrange(0, variable.len() as int) =~= variable);
    assert(message.subrange(at, at + list.len()) =~= list);
    assert(message.subrange(message.len() - sink.len(), message.len() as int) =~= sink);
    at
}

} // verus!
