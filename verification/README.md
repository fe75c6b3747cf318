# request_trace

The decision core of a request-trace pipeline, verified with Verus. Trace records
leave a serving process through sinks: stderr, NATS, files of JSON lines,
gzip-compressed segments of such files, and S3.

- `src/` is the verified library. It takes encoded records and answers with the
  actions that are due; it performs no I/O.
  - `text`: decimal numbers and trimming.
  - `object_key`: the keys that segments are stored under.
  - `jsonl_gz`: lines into gzip members, members into segments.
  - `s3_segment_sink`: segments into objects, and who writes them.
  - `s3_request_trace_sink`: records into objects.
  - `policy`, `sink`: the settings, and the other sinks.
  - `worker`: opening sinks, starting workers, and what a worker does.
- `tests/` runs the library.
- `app/` is the runtime around it: tokio, NATS, S3 and files.

Functions named `law_*` are proofs about several functions at once, such as that
no emitted record is lost, doubled or reordered (`law_every_record_is_stored`), and
that each uploaded object holds the whole lines of consecutive calls
(`law_an_object_holds_whole_lines`).
