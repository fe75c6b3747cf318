//! The decision core of a request-trace pipeline.
//!
//! Records leave a serving process through *sinks*: stderr, NATS, local files
//! and S3. Everything a sink decides (what to write where, when a segment is
//! full, under which key an object is stored, when a worker stops) is an
//! ordinary value here, with a contract. Performing those decisions is left to
//! the caller.

pub mod jsonl_gz;
pub mod object_key;
pub mod policy;
pub mod s3_request_trace_sink;
pub mod s3_segment_sink;
pub mod sink;
pub mod text;
pub mod worker;
