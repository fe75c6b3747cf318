//! The sink that stores records in S3: lines are compressed into segments, and
//! each closed segment is uploaded as one object.
//!
//! Records below every threshold wait in memory. Shutting the sink down closes
//! the last segment, so that they are uploaded too.

use crate::jsonl_gz;
use crate::jsonl_gz::{
    JsonlGzipSinkOptions, SegmentOp, SegmentStep, SegmentWriter, WriterState,
};
use crate::object_key;
use crate::object_key::ObjectTime;
use crate::policy::{RequestTracePolicy, SinkConfigError};
use crate::s3_segment_sink;
use crate::s3_segment_sink::{S3SegmentIdentity, S3SegmentSink, S3SegmentSinkConfig};
use crate::sink;
use crate::sink::{segment_options, warn, EncodedRecord, RequestTraceSink, SinkAction};
use vstd::prelude::*;

verus! {

/// The pending segments after `steps`.
pub open spec fn applied(pending: Map<u64, Seq<u8>>, steps: Seq<SegmentStep>) -> Map<u64, Seq<u8>>
    decreases steps.len(),
{
    if steps.len() == 0 {
        pending
    } else {
        let before = applied(pending, steps.drop_last());
        match steps.last() {
            SegmentStep::Append { seq, gz_bytes } => s3_segment_sink::appended(
                before,
                seq,
                gz_bytes,
            ),
            SegmentStep::Close { seq } => before.remove(seq),
        }
    }
}

/// The segments that `steps` closes and that hold something: their numbers and
/// their bytes, in order.
pub open spec fn closed_segments(pending: Map<u64, Seq<u8>>, steps: Seq<SegmentStep>) -> Seq<
    (u64, Seq<u8>),
>
    decreases steps.len(),
{
    if steps.len() == 0 {
        Seq::empty()
    } else {
        let before = applied(pending, steps.drop_last());
        let closed = closed_segments(pending, steps.drop_last());
        match steps.last() {
            SegmentStep::Close { seq } if s3_segment_sink::has_body(before, seq) => closed.push(
                (seq, before[seq]),
            ),
            _ => closed,
        }
    }
}

/// Whether a segment is closed in the hour `t`: the hour `now`, where one is given,
/// else the hour of the second `shown`, which the clock showed.
pub open spec fn closes_in(now: Option<ObjectTime>, shown: i64, t: ObjectTime) -> bool {
    match now {
        Some(now) => t == now,
        None => {
            &&& t.can_be_now()
            &&& object_key::clock_showed(shown)
            &&& t.holds_second(shown as int)
        },
    }
}

/// Whether `action` uploads `segment`.
pub open spec fn uploads_segment(
    action: SinkAction,
    segment: (u64, Seq<u8>),
    config: S3SegmentSinkConfig,
    now: Option<ObjectTime>,
    shown: i64,
) -> bool {
    action matches SinkAction::Upload { object } && exists|t: ObjectTime| #[trigger]
        closes_in(now, shown, t) && object.stores(config, segment.0, t, segment.1)
}

/// Whether `actions` uploads `segments`, one after the other, and does nothing
/// else. Where no hour is given, the clock is read once for each of them, and shows
/// the seconds `shown`; else it is not read.
pub open spec fn uploads(
    actions: Seq<SinkAction>,
    segments: Seq<(u64, Seq<u8>)>,
    config: S3SegmentSinkConfig,
    now: Option<ObjectTime>,
    shown: Seq<i64>,
) -> bool {
    &&& actions.len() == segments.len()
    &&& shown.len() == if now is None {
        actions.len()
    } else {
        0
    }
    &&& forall|i: int|
        0 <= i < actions.len() ==> uploads_segment(
            #[trigger] actions[i],
            segments[i],
            config,
            now,
            shown[i],
        )
}

/// What the uploaded objects hold, uncompressed, one after the other.
pub open spec fn stored_text(actions: Seq<SinkAction>) -> Seq<u8>
    decreases actions.len(),
{
    if actions.len() == 0 {
        Seq::empty()
    } else {
        match actions.last() {
            SinkAction::Upload { object } => stored_text(actions.drop_last())
                + jsonl_gz::gunzipped(object.body@)->0,
            _ => stored_text(actions.drop_last()),
        }
    }
}

/// Whether every uploaded object is a gzip file.
pub open spec fn stores_gzip_files(actions: Seq<SinkAction>) -> bool {
    forall|i: int|
        0 <= i < actions.len() ==> (#[trigger] actions[i] matches SinkAction::Upload { object }
            ==> jsonl_gz::gunzipped(object.body@) is Some)
}

/// What the sink holds.
#[verifier::ext_equal]
pub struct S3SinkState {
    pub options: JsonlGzipSinkOptions,
    pub writer: WriterState,
    /// The bytes of each segment that has taken some and is not closed.
    pub pending: Map<u64, Seq<u8>>,
    /// What the clock showed, each time that it was read.
    pub clock: Seq<i64>,
}

impl S3SinkState {
    /// Whether nothing is pending but the current segment, and that one is a gzip
    /// file so far, with some text in it.
    pub open spec fn in_order(self) -> bool {
        &&& forall|seq: u64| #[trigger] self.pending.contains_key(seq) ==> seq == self.writer.seq
        &&& self.pending.contains_key(self.writer.seq) ==> {
            &&& self.pending[self.writer.seq].len() > 0
            &&& jsonl_gz::gunzipped(self.pending[self.writer.seq]) is Some
            &&& jsonl_gz::gunzipped(self.pending[self.writer.seq])->0.len() > 0
        }
    }

    /// The lines that no object holds yet, uncompressed.
    pub open spec fn unsent(self) -> Seq<u8> {
        if self.pending.contains_key(self.writer.seq) {
            jsonl_gz::gunzipped(self.pending[self.writer.seq])->0 + self.writer.buffer
        } else {
            self.writer.buffer
        }
    }

    /// Whether `actions` is what `steps` asks for, and `after` is the state with
    /// the writer at `writer` that follows. Nothing is lost, added or reordered:
    /// what was unsent, with `text` after it, is what is stored now, with what is
    /// still unsent after it.
    pub open spec fn moves(
        self,
        after: S3SinkState,
        writer: WriterState,
        steps: Seq<SegmentStep>,
        text: Seq<u8>,
        config: S3SegmentSinkConfig,
        now: Option<ObjectTime>,
        actions: Seq<SinkAction>,
    ) -> bool {
        &&& after.options == self.options
        &&& after.writer == writer
        &&& after.pending == applied(self.pending, steps)
        &&& after.clock.len() >= self.clock.len()
        &&& after.clock.take(self.clock.len() as int) == self.clock
        &&& uploads(
            actions,
            closed_segments(self.pending, steps),
            config,
            now,
            after.clock.skip(self.clock.len() as int),
        )
        &&& self.in_order()
        &&& after.in_order()
        &&& stores_gzip_files(actions)
        &&& self.unsent() + text == stored_text(actions) + after.unsent()
    }

    /// Whether the sink takes the line `line` this way.
    pub open spec fn takes_line(
        self,
        after: S3SinkState,
        line: Seq<u8>,
        config: S3SegmentSinkConfig,
        now: Option<ObjectTime>,
        actions: Seq<SinkAction>,
    ) -> bool {
        self.moves(
            after,
            self.writer.after_line(self.options, line),
            self.writer.line_steps(self.options, line),
            line.push(10),
            config,
            now,
            actions,
        )
    }

    /// Whether the sink takes `record` this way.
    pub open spec fn takes_record(
        self,
        after: S3SinkState,
        record: EncodedRecord,
        config: S3SegmentSinkConfig,
        now: Option<ObjectTime>,
        actions: Seq<SinkAction>,
    ) -> bool {
        match record {
            Ok(json) => self.takes_line(after, json@, config, now, actions),
            Err(error) => {
                &&& self.in_order()
                &&& after == self
                &&& sink::only_warns(actions, "request trace serialization failed: "@ + error@)
            },
        }
    }

    /// Whether the sink compresses what is buffered this way.
    pub open spec fn flushes(self, after: S3SinkState) -> bool {
        &&& after.options == self.options
        &&& after.writer == self.writer.flushed()
        &&& after.pending == applied(self.pending, self.writer.flush_steps())
        &&& after.clock == self.clock
        &&& self.in_order()
        &&& after.in_order()
        &&& after.unsent() == self.unsent()
    }

    /// Whether the sink ends its segment this way.
    pub open spec fn finishes(
        self,
        after: S3SinkState,
        config: S3SegmentSinkConfig,
        now: Option<ObjectTime>,
        actions: Seq<SinkAction>,
    ) -> bool {
        &&& self.moves(
            after,
            WriterState::at_start_of(self.writer.next_seq()),
            self.writer.finish_steps(),
            Seq::empty(),
            config,
            now,
            actions,
        )
        &&& after.pending == Map::<u64, Seq<u8>>::empty()
        &&& after.unsent() == Seq::<u8>::empty()
    }
}

/// What the segments hold, uncompressed, one after the other.
spec fn segments_text(segments: Seq<(u64, Seq<u8>)>) -> Seq<u8>
    decreases segments.len(),
{
    if segments.len() == 0 {
        Seq::empty()
    } else {
        segments_text(segments.drop_last()) + jsonl_gz::gunzipped(segments.last().1)->0
    }
}

proof fn lemma_stored_text(
    actions: Seq<SinkAction>,
    segments: Seq<(u64, Seq<u8>)>,
    config: S3SegmentSinkConfig,
    now: Option<ObjectTime>,
    shown: Seq<i64>,
)
    requires
        uploads(actions, segments, config, now, shown),
    ensures
        stored_text(actions) == segments_text(segments),
    decreases actions.len(),
{
    if actions.len() > 0 {
        let n = actions.len() - 1;
        let shown0 = if now is None {
            shown.drop_last()
        } else {
            shown
        };
        assert(uploads_segment(actions[n], segments[n], config, now, shown[n]));
        assert forall|i: int| 0 <= i < actions.drop_last().len() implies uploads_segment(
            #[trigger] actions.drop_last()[i],
            segments.drop_last()[i],
            config,
            now,
            shown0[i],
        ) by {
            assert(uploads_segment(actions[i], segments[i], config, now, shown[i]));
        }
        lemma_stored_text(actions.drop_last(), segments.drop_last(), config, now, shown0);
    }
}

proof fn lemma_stores_gzip_files(
    actions: Seq<SinkAction>,
    segments: Seq<(u64, Seq<u8>)>,
    config: S3SegmentSinkConfig,
    now: Option<ObjectTime>,
    shown: Seq<i64>,
)
    requires
        uploads(actions, segments, config, now, shown),
        forall|i: int|
            0 <= i < segments.len() ==> jsonl_gz::gunzipped((#[trigger] segments[i]).1) is Some,
    ensures
        stores_gzip_files(actions),
{
    assert forall|i: int| 0 <= i < actions.len() implies (
    #[trigger] actions[i] matches SinkAction::Upload { object } ==> jsonl_gz::gunzipped(
        object.body@,
    ) is Some) by {
        assert(uploads_segment(actions[i], segments[i], config, now, shown[i]));
    }
}

/// Adding the buffer to the current segment as a member keeps the order and the
/// unsent lines.
proof fn lemma_flush(s: S3SinkState)
    requires
        s.in_order(),
        s.writer.buffer.len() > 0 ==> jsonl_gz::reads_back(s.writer.buffer),
    ensures
        ({
            let steps = s.writer.flush_steps();
            let after = S3SinkState {
                writer: s.writer.flushed(),
                pending: applied(s.pending, steps),
                ..s
            };
            &&& after.in_order()
            &&& after.unsent() == s.unsent()
            &&& closed_segments(s.pending, steps) == Seq::<(u64, Seq<u8>)>::empty()
        }),
{
    let steps = s.writer.flush_steps();
    let seq = s.writer.seq;
    let buffer = s.writer.buffer;
    if buffer.len() == 0 {
        let after = S3SinkState { writer: s.writer.flushed(), ..s };
        assert(after.unsent() =~= s.unsent());
    } else {
        let gz_bytes = jsonl_gz::gzip_member(buffer);
        assert(steps.drop_last() =~= Seq::<SegmentStep>::empty());
        assert(applied(s.pending, steps.drop_last()) == s.pending);
        assert(closed_segments(s.pending, steps.drop_last()) == Seq::<(u64, Seq<u8>)>::empty());
        assert(applied(s.pending, steps) == s3_segment_sink::appended(s.pending, seq, gz_bytes));
        let after = S3SinkState {
            writer: s.writer.flushed(),
            pending: applied(s.pending, steps),
            ..s
        };
        if s.pending.contains_key(seq) {
            assert(jsonl_gz::gunzipped(s.pending[seq]) is Some);
            assert(after.pending[seq] == s.pending[seq] + gz_bytes);
        } else {
            assert(after.pending[seq] == gz_bytes);
        }
        assert(after.unsent() =~= s.unsent());
    }
}

/// Ending the current segment uploads all that is unsent.
proof fn lemma_finish(s: S3SinkState)
    requires
        s.in_order(),
        s.writer.buffer.len() > 0 ==> jsonl_gz::reads_back(s.writer.buffer),
    ensures
        ({
            let steps = s.writer.finish_steps();
            let closed = closed_segments(s.pending, steps);
            &&& applied(s.pending, steps) == Map::<u64, Seq<u8>>::empty()
            &&& segments_text(closed) == s.unsent()
            &&& closed.len() <= 1
            &&& closed.len() == 1 ==> closed[0].0 == s.writer.seq && jsonl_gz::gunzipped(
                closed[0].1,
            ) == Some(s.unsent())
            &&& s.writer.buffer.len() > 0 ==> closed.len() == 1
        }),
{
    let steps = s.writer.finish_steps();
    let seq = s.writer.seq;
    lemma_flush(s);
    assert(steps.drop_last() =~= s.writer.flush_steps());
    let flushed = S3SinkState {
        writer: s.writer.flushed(),
        pending: applied(s.pending, s.writer.flush_steps()),
        ..s
    };
    assert(flushed.in_order());
    let closed = closed_segments(s.pending, steps);
    assert(applied(s.pending, steps) == flushed.pending.remove(seq));
    assert(applied(s.pending, steps) =~= Map::<u64, Seq<u8>>::empty());
    if s.writer.buffer.len() > 0 {
        let one = s.writer.flush_steps();
        assert(one.drop_last() =~= Seq::<SegmentStep>::empty());
        assert(applied(s.pending, one.drop_last()) == s.pending);
        assert(flushed.pending.contains_key(seq));
    }
    if s3_segment_sink::has_body(flushed.pending, seq) {
        let body = flushed.pending[seq];
        assert(closed == Seq::<(u64, Seq<u8>)>::empty().push((seq, body)));
        assert(closed.drop_last() =~= Seq::<(u64, Seq<u8>)>::empty());
        assert(jsonl_gz::gunzipped(body)->0 + Seq::<u8>::empty() =~= jsonl_gz::gunzipped(body)->0);
        assert(segments_text(closed.drop_last()) == Seq::<u8>::empty());
        assert(segments_text(closed) =~= jsonl_gz::gunzipped(body)->0);
    } else {
        assert(closed == Seq::<(u64, Seq<u8>)>::empty());
        assert(!flushed.pending.contains_key(seq));
        assert(flushed.unsent() == Seq::<u8>::empty());
    }
}

/// A line goes into the buffer before anything else happens.
proof fn lemma_with_line(s: S3SinkState, line: Seq<u8>)
    requires
        s.in_order(),
    ensures
        ({
            let t = S3SinkState { writer: s.writer.with_line(line), ..s };
            &&& t.in_order()
            &&& t.unsent() == s.unsent() + line.push(10)
            &&& t.writer.buffer.len() > 0
        }),
{
    let t = S3SinkState { writer: s.writer.with_line(line), ..s };
    assert(t.unsent() =~= s.unsent() + line.push(10));
}

proof fn lemma_takes_line(
    s: S3SinkState,
    after: S3SinkState,
    line: Seq<u8>,
    config: S3SegmentSinkConfig,
    now: Option<ObjectTime>,
    actions: Seq<SinkAction>,
)
    requires
        s.in_order(),
        after.options == s.options,
        after.writer == s.writer.after_line(s.options, line),
        after.pending == applied(s.pending, s.writer.line_steps(s.options, line)),
        after.clock.len() >= s.clock.len(),
        after.clock.take(s.clock.len() as int) == s.clock,
        uploads(
            actions,
            closed_segments(s.pending, s.writer.line_steps(s.options, line)),
            config,
            now,
            after.clock.skip(s.clock.len() as int),
        ),
        s.writer.line_steps(s.options, line).len() > 0 ==> jsonl_gz::reads_back(
            s.writer.with_line(line).buffer,
        ),
    ensures
        s.takes_line(after, line, config, now, actions),
{
    let steps = s.writer.line_steps(s.options, line);
    let closed = closed_segments(s.pending, steps);
    let shown = after.clock.skip(s.clock.len() as int);
    lemma_stored_text(actions, closed, config, now, shown);
    let t = S3SinkState { writer: s.writer.with_line(line), ..s };
    lemma_with_line(s, line);
    if t.writer.is_full(s.options) {
        lemma_finish(t);
        assert(after.unsent() == Seq::<u8>::empty());
        assert(segments_text(closed) + Seq::<u8>::empty() =~= segments_text(closed));
    } else if t.writer.buffer.len() >= s.options.buffer_bytes {
        lemma_flush(t);
        assert(Seq::<u8>::empty() + t.unsent() =~= t.unsent());
    } else {
        assert(closed == Seq::<(u64, Seq<u8>)>::empty());
        assert(Seq::<u8>::empty() + t.unsent() =~= t.unsent());
    }
    lemma_stores_gzip_files(actions, closed, config, now, shown);
}

/// Where the hour is given, it does not matter what a clock would have shown.
proof fn lemma_hour_given(
    action: SinkAction,
    segment: (u64, Seq<u8>),
    config: S3SegmentSinkConfig,
    now: Option<ObjectTime>,
    shown1: i64,
    shown2: i64,
)
    requires
        now is Some,
        uploads_segment(action, segment, config, now, shown1),
    ensures
        uploads_segment(action, segment, config, now, shown2),
{
    assert(closes_in(now, shown2, now->0));
}

/// One segment more is closed and uploaded.
proof fn lemma_one_more_upload(
    before: Seq<SinkAction>,
    actions: Seq<SinkAction>,
    closed: Seq<(u64, Seq<u8>)>,
    segment: (u64, Seq<u8>),
    config: S3SegmentSinkConfig,
    now: Option<ObjectTime>,
    clock: Seq<i64>,
    clock_before: Seq<i64>,
    clock_after: Seq<i64>,
)
    requires
        clock_before.len() >= clock.len(),
        clock_before.take(clock.len() as int) == clock,
        uploads(before, closed, config, now, clock_before.skip(clock.len() as int)),
        actions.len() == before.len() + 1,
        actions.drop_last() == before,
        uploads_segment(actions.last(), segment, config, now, clock_after.last()),
        match now {
            Some(_) => clock_after == clock_before,
            None => {
                &&& clock_after.len() == clock_before.len() + 1
                &&& clock_after.drop_last() == clock_before
            },
        },
    ensures
        clock_after.take(clock.len() as int) == clock,
        uploads(actions, closed.push(segment), config, now, clock_after.skip(clock.len() as int)),
{
    let n = clock.len() as int;
    let shown = clock_after.skip(n);
    assert(clock_after.take(n) =~= clock);
    let after = closed.push(segment);
    assert forall|i: int| 0 <= i < actions.len() implies uploads_segment(
        #[trigger] actions[i],
        after[i],
        config,
        now,
        shown[i],
    ) by {
        if i < before.len() {
            assert(before[i] == actions[i]);
            assert(uploads_segment(before[i], closed[i], config, now, clock_before.skip(n)[i]));
            if now is None {
                assert(shown[i] == clock_before[n + i]);
            } else {
                let unread = clock_before.skip(n)[i];
                lemma_hour_given(before[i], closed[i], config, now, unread, shown[i]);
            }
        } else if now is None {
            assert(shown[i] == clock_after.last());
        } else {
            lemma_hour_given(actions[i], segment, config, now, clock_after.last(), shown[i]);
        }
    }
}

/// Performs `ops` on the segments. A closed segment is filed under the hour `now`,
/// where one is given, else under the hour that the clock shows then.
fn perform(segments: &mut S3SegmentSink, ops: Vec<SegmentOp>, now: Option<ObjectTime>) -> (actions:
    Vec<SinkAction>)
    ensures
        final(segments)@ == applied(old(segments)@, jsonl_gz::steps(ops@)),
        final(segments).spec_config() == old(segments).spec_config(),
        final(segments).spec_clock().len() >= old(segments).spec_clock().len(),
        final(segments).spec_clock().take(old(segments).spec_clock().len() as int) == old(
            segments,
        ).spec_clock(),
        uploads(
            actions@,
            closed_segments(old(segments)@, jsonl_gz::steps(ops@)),
            old(segments).spec_config(),
            now,
            final(segments).spec_clock().skip(old(segments).spec_clock().len() as int),
        ),
{
    let ghost all = jsonl_gz::steps(ops@);
    let ghost start = segments@;
    let ghost config = segments.spec_config();
    let ghost clock = segments.spec_clock();
    let mut ops = ops;
    let mut actions: Vec<SinkAction> = Vec::new();
    let ghost mut done: int = 0;
    assert(all.take(0) =~= Seq::<SegmentStep>::empty());
    assert(clock.take(clock.len() as int) =~= clock);
    while ops.len() > 0
        invariant
            0 <= done <= all.len(),
            jsonl_gz::steps(ops@) == all.skip(done),
            segments@ == applied(start, all.take(done)),
            segments.spec_config() == config,
            segments.spec_clock().len() >= clock.len(),
            segments.spec_clock().take(clock.len() as int) == clock,
            uploads(
                actions@,
                closed_segments(start, all.take(done)),
                config,
                now,
                segments.spec_clock().skip(clock.len() as int),
            ),
        decreases ops.len(),
    {
        let ghost before = ops@;
        let ghost closed = closed_segments(start, all.take(done));
        let ghost actions_before = actions@;
        let ghost clock_before = segments.spec_clock();
        let op = ops.remove(0);
        proof {
            assert(jsonl_gz::steps(before)[0] == op@);
            assert(all.skip(done).len() > 0);
            assert(all.skip(done)[0] == all[done]);
            assert(jsonl_gz::steps(ops@) =~= all.skip(done).skip(1));
            assert(all.skip(done).skip(1) =~= all.skip(done + 1));
            assert(all.take(done + 1).drop_last() =~= all.take(done));
            assert(all.take(done + 1).last() == op@);
            done = done + 1;
        }
        match op {
            SegmentOp::Append { seq, gz_bytes } => {
                segments.append_to_segment(seq, gz_bytes);
            },
            SegmentOp::Close { seq } => {
                let ghost held = segments@;
                let closing = match now {
                    Some(t) => segments.close_segment_at(seq, t),
                    None => segments.close_segment(seq),
                };
                match closing {
                    Some(object) => {
                        actions.push(SinkAction::Upload { object });
                        proof {
                            let after = closed.push((seq, held[seq]));
                            assert(closed_segments(start, all.take(done)) == after);
                            assert(actions@.drop_last() =~= actions_before);
                            let shown = segments.spec_clock().last();
                            let put = actions@.last()->object;
                            let t = match now {
                                Some(t) => t,
                                None => choose|t: ObjectTime| #[trigger]
                                    t.can_be_now() && t.holds_second(shown as int) && put.stores(
                                        config,
                                        seq,
                                        t,
                                        held[seq],
                                    ),
                            };
                            assert(closes_in(now, shown, t));
                            lemma_one_more_upload(
                                actions_before,
                                actions@,
                                closed,
                                (seq, held[seq]),
                                config,
                                now,
                                clock,
                                clock_before,
                                segments.spec_clock(),
                            );
                        }
                    },
                    None => {},
                }
            },
        }
    }
    assert(all.take(done) =~= all);
    actions
}

/// The parts of an [`S3RequestTraceSink`].
struct S3SinkParts {
    writer: SegmentWriter,
    segments: S3SegmentSink,
}

impl S3SinkParts {
    spec fn state(self) -> S3SinkState {
        S3SinkState {
            options: self.writer.spec_options(),
            writer: self.writer@,
            pending: self.segments@,
            clock: self.segments.spec_clock(),
        }
    }

    fn new(config: S3SegmentSinkConfig, options: JsonlGzipSinkOptions) -> (r: S3SinkParts)
        ensures
            r.state() == (S3SinkState {
                options,
                writer: WriterState::at_start_of(0),
                pending: Map::empty(),
                clock: Seq::empty(),
            }),
            r.segments.spec_config() == config,
    {
        S3SinkParts { writer: SegmentWriter::new(options), segments: S3SegmentSink::new(config) }
    }

    fn take(&mut self, record: EncodedRecord, now: Option<ObjectTime>) -> (actions: Vec<SinkAction>)
        requires
            old(self).state().in_order(),
        ensures
            old(self).state().takes_record(
                final(self).state(),
                record,
                old(self).segments.spec_config(),
                now,
                actions@,
            ),
            final(self).segments.spec_config() == old(self).segments.spec_config(),
    {
        match record {
            Ok(json) => {
                let ops = self.writer.push_line(json.as_slice());
                let actions = perform(&mut self.segments, ops, now);
                proof {
                    lemma_takes_line(
                        old(self).state(),
                        self.state(),
                        json@,
                        self.segments.spec_config(),
                        now,
                        actions@,
                    );
                }
                actions
            },
            Err(error) => warn("request trace serialization failed: ", error),
        }
    }

    fn close(&mut self, now: Option<ObjectTime>) -> (actions: Vec<SinkAction>)
        requires
            old(self).state().in_order(),
        ensures
            old(self).state().finishes(
                final(self).state(),
                old(self).segments.spec_config(),
                now,
                actions@,
            ),
            final(self).segments.spec_config() == old(self).segments.spec_config(),
    {
        let ops = self.writer.finish();
        let actions = perform(&mut self.segments, ops, now);
        proof {
            let s = old(self).state();
            let config = self.segments.spec_config();
            let closed = closed_segments(s.pending, s.writer.finish_steps());
            let shown = self.state().clock.skip(s.clock.len() as int);
            lemma_stored_text(actions@, closed, config, now, shown);
            lemma_finish(s);
            lemma_stores_gzip_files(actions@, closed, config, now, shown);
            assert(stored_text(actions@) + self.state().unsent() =~= s.unsent()
                + Seq::<u8>::empty());
        }
        actions
    }

    fn flush(&mut self)
        requires
            old(self).state().in_order(),
        ensures
            old(self).state().flushes(final(self).state()),
            final(self).segments.spec_config() == old(self).segments.spec_config(),
    {
        let ops = self.writer.flush();
        perform(&mut self.segments, ops, None);
        proof {
            lemma_flush(old(self).state());
            let clock = self.segments.spec_clock();
            assert(clock.take(clock.len() as int) =~= clock);
        }
    }
}

/// Stores records in S3.
pub struct S3RequestTraceSink {
    parts: S3SinkParts,
}

impl View for S3RequestTraceSink {
    type V = S3SinkState;

    closed spec fn view(&self) -> S3SinkState {
        self.parts.state()
    }
}

impl S3RequestTraceSink {
    #[verifier::type_invariant]
    spec fn is_in_order(self) -> bool {
        self.parts.state().in_order()
    }

    /// Where the segments go.
    pub closed spec fn spec_config(&self) -> S3SegmentSinkConfig {
        self.parts.segments.spec_config()
    }

    /// A sink that holds nothing.
    pub fn new(config: S3SegmentSinkConfig, options: JsonlGzipSinkOptions) -> (r:
        S3RequestTraceSink)
        ensures
            r@ == (S3SinkState {
                options,
                writer: WriterState::at_start_of(0),
                pending: Map::empty(),
                clock: Seq::empty(),
            }),
            r@.unsent() == Seq::<u8>::empty(),
            r.spec_config() == config,
    {
        S3RequestTraceSink { parts: S3SinkParts::new(config, options) }
    }

    /// The sink that the policy describes, if it names a bucket.
    pub fn from_policy(policy: &RequestTracePolicy, identity: S3SegmentIdentity) -> (r: Result<
        S3RequestTraceSink,
        SinkConfigError,
    >)
        ensures
            match policy.s3_bucket {
                None => r == Err::<S3RequestTraceSink, SinkConfigError>(
                    SinkConfigError::MissingS3Bucket,
                ),
                Some(bucket) => r matches Ok(sink) && {
                    &&& sink.spec_config().bucket@ == bucket@
                    &&& sink.spec_config().prefix@ == policy.s3_prefix@
                    &&& sink.spec_config().identity == identity
                    &&& sink@.options.buffer_bytes == policy.file_buffer_bytes
                    &&& sink@.options.roll_uncompressed_bytes == policy.file_roll_bytes
                    &&& sink@.options.roll_lines == policy.file_roll_lines
                    &&& sink::options_are_the_policys(sink@.options, *policy)
                    &&& sink.spec_config() == (S3SegmentSinkConfig {
                        bucket,
                        prefix: policy.s3_prefix,
                        identity,
                    })
                    &&& sink@ == (S3SinkState {
                        options: sink::spec_segment_options(*policy),
                        writer: WriterState::at_start_of(0),
                        pending: Map::empty(),
                        clock: Seq::empty(),
                    })
                },
            },
    {
        match &policy.s3_bucket {
            None => Err(SinkConfigError::MissingS3Bucket),
            Some(bucket) => {
                let config = S3SegmentSinkConfig {
                    bucket: bucket.clone(),
                    prefix: policy.s3_prefix.clone(),
                    identity,
                };
                Ok(S3RequestTraceSink::new(config, segment_options(policy)))
            },
        }
    }

    /// Parts that hold nothing, to stand in for those of a sink while they change.
    fn no_parts(&self) -> (r: S3SinkParts)
        ensures
            r.state().in_order(),
    {
        let identity = S3SegmentIdentity { instance: String::new(), startup: String::new() };
        let config = S3SegmentSinkConfig {
            bucket: String::new(),
            prefix: String::new(),
            identity,
        };
        S3SinkParts::new(config, self.parts.writer.options())
    }

    fn take(&mut self, record: EncodedRecord, now: Option<ObjectTime>) -> (actions: Vec<SinkAction>)
        ensures
            old(self)@.takes_record(final(self)@, record, old(self).spec_config(), now, actions@),
            final(self).spec_config() == old(self).spec_config(),
    {
        proof {
            use_type_invariant(&*self);
        }
        let mut parts = self.no_parts();
        std::mem::swap(&mut parts, &mut self.parts);
        let actions = parts.take(record, now);
        self.parts = parts;
        actions
    }

    fn close(&mut self, now: Option<ObjectTime>) -> (actions: Vec<SinkAction>)
        ensures
            old(self)@.finishes(final(self)@, old(self).spec_config(), now, actions@),
            final(self).spec_config() == old(self).spec_config(),
    {
        proof {
            use_type_invariant(&*self);
        }
        let mut parts = self.no_parts();
        std::mem::swap(&mut parts, &mut self.parts);
        let actions = parts.close(now);
        self.parts = parts;
        actions
    }

    /// [`RequestTraceSink::emit`] in the hour `now`.
    pub fn emit_at(&mut self, record: EncodedRecord, now: ObjectTime) -> (actions: Vec<SinkAction>)
        ensures
            old(self)@.takes_record(
                final(self)@,
                record,
                old(self).spec_config(),
                Some(now),
                actions@,
            ),
            final(self).spec_config() == old(self).spec_config(),
    {
        self.take(record, Some(now))
    }

    /// [`RequestTraceSink::shutdown`] in the hour `now`.
    pub fn shutdown_at(&mut self, now: ObjectTime) -> (actions: Vec<SinkAction>)
        ensures
            old(self)@.finishes(final(self)@, old(self).spec_config(), Some(now), actions@),
            final(self).spec_config() == old(self).spec_config(),
    {
        self.close(Some(now))
    }

    /// Compresses what is buffered. Nothing is uploaded before the segment ends.
    pub fn flush(&mut self)
        ensures
            old(self)@.flushes(final(self)@),
            final(self).spec_config() == old(self).spec_config(),
    {
        proof {
            use_type_invariant(&*self);
        }
        let mut parts = self.no_parts();
        std::mem::swap(&mut parts, &mut self.parts);
        parts.flush();
        self.parts = parts;
    }
}

impl RequestTraceSink for S3RequestTraceSink {
    open spec fn spec_name(&self) -> Seq<char> {
        "s3"@
    }

    open spec fn emits(
        &self,
        record: EncodedRecord,
        after: &Self,
        actions: Seq<SinkAction>,
    ) -> bool {
        &&& self@.takes_record(after@, record, self.spec_config(), None, actions)
        &&& after.spec_config() == self.spec_config()
    }

    fn name(&self) -> (r: &'static str) {
        "s3"
    }

    fn emit(&mut self, record: EncodedRecord) -> (actions: Vec<SinkAction>) {
        self.take(record, None)
    }

    fn shutdown(&mut self) -> (actions: Vec<SinkAction>)
        ensures
            old(self)@.finishes(final(self)@, old(self).spec_config(), None, actions@),
            final(self).spec_config() == old(self).spec_config(),
    {
        self.close(None)
    }
}

/// A call of the sink.
pub enum S3Call {
    /// [`RequestTraceSink::emit`].
    Emit(EncodedRecord),
    /// [`S3RequestTraceSink::flush`].
    Flush,
    /// [`RequestTraceSink::shutdown`].
    Shutdown,
}

impl S3Call {
    /// The line that the call brings, with its line break; nothing where it brings
    /// none.
    pub open spec fn text(self) -> Seq<u8> {
        match self {
            S3Call::Emit(Ok(json)) => json@.push(10),
            _ => Seq::empty(),
        }
    }

    /// Whether the call, made of a sink at `before`, may leave it at `after` and
    /// ask for `actions`.
    pub open spec fn may_do(
        self,
        before: S3SinkState,
        after: S3SinkState,
        config: S3SegmentSinkConfig,
        actions: Seq<SinkAction>,
    ) -> bool {
        match self {
            S3Call::Emit(record) => before.takes_record(after, record, config, None, actions),
            S3Call::Flush => before.flushes(after) && actions.len() == 0,
            S3Call::Shutdown => before.finishes(after, config, None, actions),
        }
    }
}

/// To emit a record is a call that works by the configuration and the limits that the
/// sink was made with, and leaves both as they are.
pub proof fn law_emitting_keeps_the_configuration(
    before: S3RequestTraceSink,
    after: S3RequestTraceSink,
    record: EncodedRecord,
    actions: Seq<SinkAction>,
)
    requires
        before.emits(record, &after, actions),
    ensures
        S3Call::Emit(record).may_do(before@, after@, before.spec_config(), actions),
        after.spec_config() == before.spec_config(),
        after@.options == before@.options,
{
}

/// The lines that `calls` brings, one after the other.
pub open spec fn calls_text(calls: Seq<S3Call>) -> Seq<u8>
    decreases calls.len(),
{
    if calls.len() == 0 {
        Seq::empty()
    } else {
        calls_text(calls.drop_last()) + calls.last().text()
    }
}

/// What all the uploaded objects hold, uncompressed, one after the other.
pub open spec fn all_stored_text(actions: Seq<Seq<SinkAction>>) -> Seq<u8>
    decreases actions.len(),
{
    if actions.len() == 0 {
        Seq::empty()
    } else {
        all_stored_text(actions.drop_last()) + stored_text(actions.last())
    }
}

/// Whether `calls`, made one after the other of one sink, may take it through
/// `states` and ask for `actions`.
pub open spec fn may_run(
    states: Seq<S3SinkState>,
    calls: Seq<S3Call>,
    config: S3SegmentSinkConfig,
    actions: Seq<Seq<SinkAction>>,
) -> bool {
    &&& states.len() == calls.len() + 1
    &&& actions.len() == calls.len()
    &&& forall|i: int|
        0 <= i < calls.len() ==> (#[trigger] calls[i]).may_do(
            states[i],
            states[i + 1],
            config,
            actions[i],
        )
}

proof fn lemma_call(
    call: S3Call,
    before: S3SinkState,
    after: S3SinkState,
    config: S3SegmentSinkConfig,
    actions: Seq<SinkAction>,
)
    requires
        call.may_do(before, after, config, actions),
    ensures
        stores_gzip_files(actions),
        before.unsent() + call.text() == stored_text(actions) + after.unsent(),
{
    if let S3Call::Emit(Err(_)) = call {
        assert(stored_text(actions.drop_last()) == Seq::<u8>::empty());
        assert(stored_text(actions) == Seq::<u8>::empty());
        assert(before.unsent() + call.text() =~= stored_text(actions) + after.unsent());
    }
    if call is Flush {
        assert(before.unsent() + call.text() =~= stored_text(actions) + after.unsent());
    }
}

/// What was stored and held before a call, joined with what the call brings, is
/// what is stored and held after it.
proof fn lemma_join(
    stored: Seq<u8>,
    held: Seq<u8>,
    first: Seq<u8>,
    lines: Seq<u8>,
    line: Seq<u8>,
    stored_now: Seq<u8>,
    held_now: Seq<u8>,
)
    requires
        stored + held == first + lines,
        held + line == stored_now + held_now,
    ensures
        stored + stored_now + held_now == first + (lines + line),
{
    assert(stored + stored_now + held_now =~= stored + (stored_now + held_now));
    assert(stored + (held + line) =~= stored + held + line);
    assert(first + lines + line =~= first + (lines + line));
}

proof fn lemma_append_nothing(s: Seq<u8>)
    ensures
        s + Seq::<u8>::empty() == s,
{
    assert(s + Seq::<u8>::empty() =~= s);
}

/// No record is lost, doubled or reordered: whatever calls are made of a sink, the
/// objects it asks to have uploaded are gzip files whose texts, one after the
/// other and followed by what the sink still holds, are what it held at first,
/// followed by the lines that were emitted. After a shutdown it holds nothing, so
/// every record that was emitted before is in an object.
#[verifier::spinoff_prover]
pub proof fn law_every_record_is_stored(
    states: Seq<S3SinkState>,
    calls: Seq<S3Call>,
    config: S3SegmentSinkConfig,
    actions: Seq<Seq<SinkAction>>,
)
    requires
        may_run(states, calls, config, actions),
    ensures
        forall|i: int| 0 <= i < actions.len() ==> stores_gzip_files(#[trigger] actions[i]),
        all_stored_text(actions) + states.last().unsent() == states[0].unsent() + calls_text(calls),
        calls.len() > 0 && calls.last() is Shutdown ==> {
            &&& states.last().unsent() == Seq::<u8>::empty()
            &&& all_stored_text(actions) == states[0].unsent() + calls_text(calls)
        },
    decreases calls.len(),
{
    if calls.len() == 0 {
        assert(all_stored_text(actions) + states[0].unsent() =~= states[0].unsent() + calls_text(
            calls,
        ));
    } else {
        let n = calls.len() as int;
        let states0 = states.drop_last();
        let calls0 = calls.drop_last();
        let actions0 = actions.drop_last();
        assert forall|i: int| 0 <= i < calls0.len() implies (#[trigger] calls0[i]).may_do(
            states0[i],
            states0[i + 1],
            config,
            actions0[i],
        ) by {
            assert(calls[i].may_do(states[i], states[i + 1], config, actions[i]));
        }
        law_every_record_is_stored(states0, calls0, config, actions0);
        assert(states0.last() == states[n - 1]);
        let call = calls[n - 1];
        assert(call.may_do(states[n - 1], states[n], config, actions[n - 1]));
        lemma_call(call, states[n - 1], states[n], config, actions[n - 1]);
        assert forall|i: int| 0 <= i < actions.len() implies stores_gzip_files(
            #[trigger] actions[i],
        ) by {
            if i < n - 1 {
                assert(stores_gzip_files(actions0[i]));
            }
        }
        lemma_join(
            all_stored_text(actions0),
            states[n - 1].unsent(),
            states[0].unsent(),
            calls_text(calls0),
            call.text(),
            stored_text(actions[n - 1]),
            states[n].unsent(),
        );
        if call is Shutdown {
            lemma_append_nothing(all_stored_text(actions));
        }
    }
}

/// The call whose line is the first that no upload before call `i` holds: the one
/// after the last call before `i` that uploaded.
pub open spec fn first_unsent_call(actions: Seq<Seq<SinkAction>>, i: int) -> int
    decreases i,
{
    if i <= 0 {
        0
    } else if actions[i - 1].len() > 0 && actions[i - 1][0] is Upload {
        i
    } else {
        first_unsent_call(actions, i - 1)
    }
}

proof fn lemma_call_empties(
    call: S3Call,
    before: S3SinkState,
    after: S3SinkState,
    config: S3SegmentSinkConfig,
    actions: Seq<SinkAction>,
)
    requires
        call.may_do(before, after, config, actions),
    ensures
        actions.len() <= 1,
        actions.len() == 1 && actions[0] is Upload ==> after.unsent() == Seq::<u8>::empty(),
        !(actions.len() == 1 && actions[0] is Upload) ==> stored_text(actions) == Seq::<u8>::empty(),
{
    match call {
        S3Call::Emit(Ok(json)) => {
            law_a_roll_uploads_the_segment_it_leaves(before, after, json@, config, None, actions);
        },
        S3Call::Emit(Err(_)) => {
            assert(stored_text(actions.drop_last()) == Seq::<u8>::empty());
        },
        S3Call::Flush => {},
        S3Call::Shutdown => {
            lemma_finish_closes(before.pending, before.writer);
            if actions.len() == 1 {
                let closed = closed_segments(before.pending, before.writer.finish_steps());
                let shown = after.clock.skip(before.clock.len() as int);
                assert(uploads_segment(actions[0], closed[0], config, None, shown[0]));
            }
        },
    }
}

proof fn lemma_one_more_line(calls: Seq<S3Call>, first: int, i: int)
    requires
        0 <= first <= i < calls.len(),
    ensures
        calls_text(calls.subrange(first, i + 1)) == calls_text(calls.subrange(first, i))
            + calls[i].text(),
{
    let lines = calls.subrange(first, i + 1);
    assert(lines.drop_last() =~= calls.subrange(first, i));
    assert(lines.last() == calls[i]);
}

proof fn lemma_one_upload(actions: Seq<SinkAction>)
    requires
        actions.len() == 1,
        actions[0] is Upload,
    ensures
        stored_text(actions) == jsonl_gz::gunzipped(actions[0]->object.body@)->0,
{
    assert(stored_text(actions.drop_last()) == Seq::<u8>::empty());
    assert(stored_text(actions) =~= jsonl_gz::gunzipped(actions[0]->object.body@)->0);
}

#[verifier::spinoff_prover]
proof fn lemma_unsent_lines(
    states: Seq<S3SinkState>,
    calls: Seq<S3Call>,
    config: S3SegmentSinkConfig,
    actions: Seq<Seq<SinkAction>>,
    i: int,
)
    requires
        may_run(states, calls, config, actions),
        states[0].unsent() == Seq::<u8>::empty(),
        0 <= i <= calls.len(),
    ensures
        0 <= first_unsent_call(actions, i) <= i,
        states[i].unsent() == calls_text(calls.subrange(first_unsent_call(actions, i), i)),
    decreases i,
{
    if i > 0 {
        lemma_unsent_lines(states, calls, config, actions, i - 1);
        let call = calls[i - 1];
        assert(call.may_do(states[i - 1], states[i], config, actions[i - 1]));
        lemma_call(call, states[i - 1], states[i], config, actions[i - 1]);
        lemma_call_empties(call, states[i - 1], states[i], config, actions[i - 1]);
        let first = first_unsent_call(actions, i);
        if first == i {
            assert(calls.subrange(i, i) =~= Seq::<S3Call>::empty());
        } else {
            lemma_one_more_line(calls, first, i - 1);
            assert(stored_text(actions[i - 1]) + states[i].unsent() =~= states[i].unsent());
        }
    } else {
        assert(calls.subrange(0, 0) =~= Seq::<S3Call>::empty());
    }
}

/// An object is made of whole lines: one call uploads at most one object, and the
/// text of that object is the lines of the calls since the last upload, this call
/// included. So a record is in exactly one object, and never cut in two.
#[verifier::spinoff_prover]
pub proof fn law_an_object_holds_whole_lines(
    states: Seq<S3SinkState>,
    calls: Seq<S3Call>,
    config: S3SegmentSinkConfig,
    actions: Seq<Seq<SinkAction>>,
    i: int,
    a: int,
)
    requires
        may_run(states, calls, config, actions),
        states[0].unsent() == Seq::<u8>::empty(),
        0 <= i < calls.len(),
        0 <= a < actions[i].len(),
        actions[i][a] is Upload,
    ensures
        actions[i].len() == 1,
        0 <= first_unsent_call(actions, i) <= i,
        jsonl_gz::gunzipped(actions[i][a]->object.body@) == Some(
            calls_text(calls.subrange(first_unsent_call(actions, i), i + 1)),
        ),
{
    lemma_unsent_lines(states, calls, config, actions, i);
    assert(calls[i].may_do(states[i], states[i + 1], config, actions[i]));
    lemma_call(calls[i], states[i], states[i + 1], config, actions[i]);
    lemma_call_empties(calls[i], states[i], states[i + 1], config, actions[i]);
    lemma_one_more_line(calls, first_unsent_call(actions, i), i);
    lemma_one_upload(actions[i]);
    lemma_append_nothing(stored_text(actions[i]));
}

proof fn lemma_line_closes(s: S3SinkState, line: Seq<u8>)
    ensures
        ({
            let closed = closed_segments(s.pending, s.writer.line_steps(s.options, line));
            let full = s.writer.with_line(line).is_full(s.options);
            &&& closed.len() <= if full {
                1int
            } else {
                0
            }
            &&& closed.len() == 1 ==> closed[0].0 == s.writer.seq
        }),
{
    let t = s.writer.with_line(line);
    lemma_finish_closes(s.pending, t);
}

proof fn lemma_finish_closes(pending: Map<u64, Seq<u8>>, w: WriterState)
    ensures
        closed_segments(pending, w.flush_steps()).len() == 0,
        closed_segments(pending, w.finish_steps()).len() <= 1,
        closed_segments(pending, w.finish_steps()).len() == 1 ==> closed_segments(
            pending,
            w.finish_steps(),
        )[0].0 == w.seq,
{
    let flush = w.flush_steps();
    assert(w.finish_steps().drop_last() =~= flush);
    if flush.len() > 0 {
        assert(flush.drop_last() =~= Seq::<SegmentStep>::empty());
        assert(closed_segments(pending, flush.drop_last()).len() == 0);
    }
    assert(closed_segments(pending, flush).len() == 0);
    assert(w.finish_steps().last() == SegmentStep::Close { seq: w.seq });
    assert(closed_segments(pending, w.finish_steps().drop_last()).len() == 0);
}

/// Every roll uploads the segment that it leaves behind, and nothing but a roll
/// uploads: a line that fills its segment has one object uploaded, under the
/// number of that segment, and the next line begins the next segment; any other
/// line has none.
pub proof fn law_a_roll_uploads_the_segment_it_leaves(
    before: S3SinkState,
    after: S3SinkState,
    line: Seq<u8>,
    config: S3SegmentSinkConfig,
    now: Option<ObjectTime>,
    actions: Seq<SinkAction>,
)
    requires
        before.takes_line(after, line, config, now, actions),
    ensures
        ({
            let full = before.writer.with_line(line).is_full(before.options);
            &&& full ==> {
                &&& actions.len() == 1
                &&& actions[0] matches SinkAction::Upload { object } && exists|t: ObjectTime|
                    #[trigger]
                    closes_in(now, after.clock.last(), t) && object.key@ == config.key_of(
                        before.writer.seq,
                        t,
                    )
                &&& stored_text(actions) == before.unsent() + line.push(10)
                &&& after.unsent() == Seq::<u8>::empty()
                &&& after.writer.seq == before.writer.seq + 1
            }
            &&& !full ==> {
                &&& actions.len() == 0
                &&& after.unsent() == before.unsent() + line.push(10)
                &&& after.writer.seq == before.writer.seq
            }
        }),
{
    let w = before.writer.with_line(line);
    let steps = before.writer.line_steps(before.options, line);
    let closed = closed_segments(before.pending, steps);
    let all = before.unsent() + line.push(10);
    lemma_line_closes(before, line);
    assert(all.len() > 0);
    if w.is_full(before.options) {
        assert(steps.last() == SegmentStep::Close { seq: before.writer.seq });
        let flushed = applied(before.pending, steps.drop_last());
        assert(steps.drop_last() =~= w.flush_steps());
        assert(w.flush_steps().drop_last() =~= Seq::<SegmentStep>::empty());
        assert(applied(before.pending, w.flush_steps().drop_last()) == before.pending);
        assert(after.pending == flushed.remove(before.writer.seq));
        assert(after.pending =~= Map::<u64, Seq<u8>>::empty());
        assert(after.unsent() == Seq::<u8>::empty());
        assert(stored_text(actions) + after.unsent() =~= stored_text(actions));
        if actions.len() == 0 {
            assert(stored_text(actions) == Seq::<u8>::empty());
        }
        let shown = after.clock.skip(before.clock.len() as int);
        assert(uploads_segment(actions[0], closed[0], config, now, shown[0]));
        if now is Some {
            lemma_hour_given(actions[0], closed[0], config, now, shown[0], after.clock.last());
        } else {
            assert(shown[0] == after.clock.last());
        }
    } else {
        assert(stored_text(actions) + after.unsent() =~= after.unsent());
    }
}

/// Whether `action` uploads an object under `key`.
pub open spec fn uploads_under(action: SinkAction, key: Seq<char>) -> bool {
    action matches SinkAction::Upload { object } && object.key@ == key
}

proof fn lemma_call_number(
    call: S3Call,
    before: S3SinkState,
    after: S3SinkState,
    config: S3SegmentSinkConfig,
    actions: Seq<SinkAction>,
    a: int,
    key: Seq<char>,
)
    requires
        before.writer.seq < u64::MAX,
        call.may_do(before, after, config, actions),
    ensures
        before.writer.seq <= after.writer.seq,
        0 <= a < actions.len() && uploads_under(actions[a], key) ==> {
            &&& after.writer.seq == before.writer.seq + 1
            &&& a == 0
            &&& exists|t: ObjectTime| key == #[trigger] config.key_of(before.writer.seq, t)
        },
{
    match call {
        S3Call::Emit(Ok(json)) => {
            lemma_line_closes(before, json@);
            let closed = closed_segments(
                before.pending,
                before.writer.line_steps(before.options, json@),
            );
            if 0 <= a < actions.len() {
                let shown = after.clock.skip(before.clock.len() as int);
                assert(uploads_segment(actions[a], closed[a], config, None, shown[a]));
            }
        },
        S3Call::Shutdown => {
            lemma_finish_closes(before.pending, before.writer);
            let closed = closed_segments(before.pending, before.writer.finish_steps());
            if 0 <= a < actions.len() {
                let shown = after.clock.skip(before.clock.len() as int);
                assert(uploads_segment(actions[a], closed[a], config, None, shown[a]));
            }
        },
        _ => {},
    }
}

/// What a call uploads, and what it reads of the clock for that.
proof fn lemma_call_uploads(
    call: S3Call,
    before: S3SinkState,
    after: S3SinkState,
    config: S3SegmentSinkConfig,
    actions: Seq<SinkAction>,
)
    requires
        call.may_do(before, after, config, actions),
    ensures
        !(actions.len() == 1 && actions[0] is Upload) ==> after.clock == before.clock,
        actions.len() == 1 && actions[0] is Upload ==> {
            let object = actions[0]->object;
            &&& after.clock.len() == before.clock.len() + 1
            &&& after.clock.drop_last() == before.clock
            &&& object.bucket@ == config.bucket@
            &&& object.content_type@ == s3_segment_sink::SEGMENT_CONTENT_TYPE@
            &&& exists|t: ObjectTime| #[trigger]
                closes_in(None, after.clock.last(), t) && object.key@ == config.key_of(
                    before.writer.seq,
                    t,
                )
        },
{
    lemma_call_empties(call, before, after, config, actions);
    let n = before.clock.len() as int;
    let shown = after.clock.skip(n);
    let closed = match call {
        S3Call::Emit(Ok(json)) => {
            lemma_line_closes(before, json@);
            closed_segments(before.pending, before.writer.line_steps(before.options, json@))
        },
        S3Call::Shutdown => {
            lemma_finish_closes(before.pending, before.writer);
            closed_segments(before.pending, before.writer.finish_steps())
        },
        _ => Seq::empty(),
    };
    if actions.len() == 1 && actions[0] is Upload {
        assert(uploads_segment(actions[0], closed[0], config, None, shown[0]));
        assert(shown[0] == after.clock.last());
        assert(after.clock.drop_last() =~= after.clock.take(n));
    } else if call is Shutdown || (call is Emit && call->Emit_0 is Ok) {
        if actions.len() == 1 {
            assert(uploads_segment(actions[0], closed[0], config, None, shown[0]));
        }
        assert(after.clock.take(n) =~= after.clock);
    }
}

/// An object is filed under the hour in which it is closed: a call that uploads one
/// reads the clock once, while it is made, and the key names the hour of the second
/// that the clock then showed. A call that uploads nothing does not read the clock,
/// so no hour is kept from an earlier call.
pub proof fn law_an_object_is_filed_under_the_hour_it_is_closed_in(
    states: Seq<S3SinkState>,
    calls: Seq<S3Call>,
    config: S3SegmentSinkConfig,
    actions: Seq<Seq<SinkAction>>,
    i: int,
    key: Seq<char>,
    hour: ObjectTime,
)
    requires
        may_run(states, calls, config, actions),
        0 <= i < calls.len(),
    ensures
        (forall|a: int| 0 <= a < actions[i].len() ==> !(#[trigger] actions[i][a] is Upload))
            ==> states[i + 1].clock == states[i].clock,
        forall|a: int|
            #![trigger actions[i][a]]
            0 <= a < actions[i].len() && uploads_under(actions[i][a], key) ==> {
                let shown = states[i + 1].clock.last();
                &&& states[i + 1].clock == states[i].clock.push(shown)
                &&& object_key::clock_showed(shown)
                &&& hour.holds_second(shown as int) ==> key == object_key::object_key(
                    config.prefix@,
                    hour,
                    config.identity.instance@,
                    config.identity.startup@,
                    states[i].writer.seq,
                )
                &&& exists|t: ObjectTime| #[trigger] t.holds_second(shown as int)
            },
{
    assert(calls[i].may_do(states[i], states[i + 1], config, actions[i]));
    lemma_call_empties(calls[i], states[i], states[i + 1], config, actions[i]);
    lemma_call_uploads(calls[i], states[i], states[i + 1], config, actions[i]);
    if actions[i].len() == 1 && uploads_under(actions[i][0], key) {
        let shown = states[i + 1].clock.last();
        let t = choose|t: ObjectTime| #[trigger]
            closes_in(None, shown, t) && key == config.key_of(states[i].writer.seq, t);
        assert(t.holds_second(shown as int));
        assert(states[i + 1].clock =~= states[i].clock.push(shown));
        if hour.holds_second(shown as int) {
            object_key::law_objects_are_filed_by_the_hour(shown as int, shown as int, hour, t);
        }
    } else if actions[i].len() == 1 && actions[i][0] is Upload {
        assert(!uploads_under(actions[i][0], key));
    } else {
        assert forall|a: int|
            #![trigger actions[i][a]]
            0 <= a < actions[i].len() implies !uploads_under(actions[i][a], key) by {}
    }
}

/// Where the hour is given, an object is filed under that hour, and the clock is not
/// read.
pub proof fn law_a_given_hour_is_kept(
    before: S3SinkState,
    after: S3SinkState,
    line: Option<Seq<u8>>,
    config: S3SegmentSinkConfig,
    now: ObjectTime,
    actions: Seq<SinkAction>,
    a: int,
)
    requires
        match line {
            Some(line) => before.takes_line(after, line, config, Some(now), actions),
            None => before.finishes(after, config, Some(now), actions),
        },
    ensures
        after.clock == before.clock,
        0 <= a < actions.len() ==> {
            &&& a == 0
            &&& uploads_under(
                actions[a],
                object_key::object_key(
                    config.prefix@,
                    now,
                    config.identity.instance@,
                    config.identity.startup@,
                    before.writer.seq,
                ),
            )
        },
{
    let n = before.clock.len() as int;
    let shown = after.clock.skip(n);
    assert(after.clock.take(n) =~= after.clock);
    let closed = match line {
        Some(line) => {
            lemma_line_closes(before, line);
            closed_segments(before.pending, before.writer.line_steps(before.options, line))
        },
        None => {
            lemma_finish_closes(before.pending, before.writer);
            closed_segments(before.pending, before.writer.finish_steps())
        },
    };
    if 0 <= a < actions.len() {
        assert(uploads_segment(actions[a], closed[a], config, Some(now), shown[a]));
    }
}

/// A shutdown uploads what is unsent as one object, and where nothing is unsent it
/// uploads nothing.
pub proof fn law_a_shutdown_uploads_what_is_unsent(
    before: S3SinkState,
    after: S3SinkState,
    config: S3SegmentSinkConfig,
    now: Option<ObjectTime>,
    actions: Seq<SinkAction>,
)
    requires
        before.finishes(after, config, now, actions),
    ensures
        actions.len() == if before.unsent().len() > 0 {
            1int
        } else {
            0
        },
        actions.len() == 1 ==> actions[0] is Upload && jsonl_gz::gunzipped(
            actions[0]->object.body@,
        ) == Some(before.unsent()),
        after.unsent().len() == 0,
{
    lemma_finish_closes(before.pending, before.writer);
    let closed = closed_segments(before.pending, before.writer.finish_steps());
    lemma_append_nothing(before.unsent());
    lemma_append_nothing(stored_text(actions));
    assert(stored_text(actions) == before.unsent());
    if actions.len() == 1 {
        let shown = after.clock.skip(before.clock.len() as int);
        assert(uploads_segment(actions[0], closed[0], config, now, shown[0]));
        lemma_one_upload(actions);
        lemma_a_closed_segment_has_text(before);
    }
}

/// A segment that is uploaded at the end has some text in it.
proof fn lemma_a_closed_segment_has_text(s: S3SinkState)
    requires
        s.in_order(),
        closed_segments(s.pending, s.writer.finish_steps()).len() == 1,
    ensures
        s.unsent().len() > 0,
{
    let flush = s.writer.flush_steps();
    lemma_finish_closes(s.pending, s.writer);
    assert(s.writer.finish_steps().drop_last() =~= flush);
    assert(s.writer.finish_steps().last() == SegmentStep::Close { seq: s.writer.seq });
    if s.writer.buffer.len() == 0 {
        assert(applied(s.pending, flush) == s.pending);
        assert(s3_segment_sink::has_body(s.pending, s.writer.seq));
    }
}

/// A record that could not be encoded is only warned of, with the reason at the end:
/// nothing is uploaded for it, and the sink holds what it held.
pub proof fn law_an_unencoded_record_is_only_warned_of(
    before: S3SinkState,
    after: S3SinkState,
    error: String,
    config: S3SegmentSinkConfig,
    now: Option<ObjectTime>,
    actions: Seq<SinkAction>,
)
    requires
        before.takes_record(after, Err(error), config, now, actions),
    ensures
        sink::warns_of(actions, "request trace serialization failed: "@, error@),
        after == before,
{
    let words = "request trace serialization failed: "@;
    assert((words + error@).take(words.len() as int) =~= words);
    assert((words + error@).skip(words.len() as int) =~= error@);
}

/// After a flush nothing is left uncompressed: every line that no object holds yet
/// is in the members of the current segment.
pub proof fn law_a_flush_leaves_nothing_uncompressed(before: S3SinkState, after: S3SinkState)
    requires
        before.flushes(after),
    ensures
        after.writer.buffer.len() == 0,
        after.unsent() == before.unsent(),
        before.unsent().len() > 0 ==> {
            &&& after.pending.contains_key(after.writer.seq)
            &&& jsonl_gz::gunzipped(after.pending[after.writer.seq]) == Some(before.unsent())
        },
        after.clock == before.clock,
{
    if after.pending.contains_key(after.writer.seq) {
        lemma_append_nothing(jsonl_gz::gunzipped(after.pending[after.writer.seq])->0);
        assert(after.writer.buffer =~= Seq::<u8>::empty());
    }
}

/// Every object goes to the bucket of the configuration, is declared a gzip file and
/// is one, and holds something.
pub proof fn law_objects_are_gzip_files_in_the_bucket(
    states: Seq<S3SinkState>,
    calls: Seq<S3Call>,
    config: S3SegmentSinkConfig,
    actions: Seq<Seq<SinkAction>>,
    i: int,
    a: int,
)
    requires
        may_run(states, calls, config, actions),
        0 <= i < calls.len(),
        0 <= a < actions[i].len(),
        actions[i][a] is Upload,
    ensures
        actions[i][a]->object.bucket@ == config.bucket@,
        actions[i][a]->object.content_type@ == "application/gzip"@,
        jsonl_gz::gunzipped(actions[i][a]->object.body@) is Some,
{
    assert(calls[i].may_do(states[i], states[i + 1], config, actions[i]));
    lemma_call(calls[i], states[i], states[i + 1], config, actions[i]);
    lemma_call_empties(calls[i], states[i], states[i + 1], config, actions[i]);
    lemma_call_uploads(calls[i], states[i], states[i + 1], config, actions[i]);
}

/// How many lines `calls` brings.
pub open spec fn lines_brought(calls: Seq<S3Call>) -> nat
    decreases calls.len(),
{
    if calls.len() == 0 {
        0
    } else {
        lines_brought(calls.drop_last()) + if calls.last() is Emit && calls.last()->Emit_0 is Ok {
            1nat
        } else {
            0
        }
    }
}

proof fn lemma_one_more_line_brought(calls: Seq<S3Call>, first: int, i: int)
    requires
        0 <= first <= i < calls.len(),
    ensures
        lines_brought(calls.subrange(first, i + 1)) == lines_brought(calls.subrange(first, i)) + if
            calls[i] is Emit && calls[i]->Emit_0 is Ok {
            1nat
        } else {
            0
        },
{
    let lines = calls.subrange(first, i + 1);
    assert(lines.drop_last() =~= calls.subrange(first, i));
    assert(lines.last() == calls[i]);
}

/// What the writer counts is what came since the last upload.
#[verifier::spinoff_prover]
proof fn lemma_counts(
    states: Seq<S3SinkState>,
    calls: Seq<S3Call>,
    config: S3SegmentSinkConfig,
    actions: Seq<Seq<SinkAction>>,
    i: int,
)
    requires
        may_run(states, calls, config, actions),
        states[0].unsent() == Seq::<u8>::empty(),
        states[0].writer.lines == 0,
        states[0].writer.bytes == 0,
        0 <= i <= calls.len(),
        forall|k: int| 0 <= k < i ==> (#[trigger] states[k]).writer.seq < u64::MAX,
    ensures
        states[i].options == states[0].options,
        states[i].writer.bytes == jsonl_gz::counted(0, states[i].unsent().len()),
        states[i].writer.lines == jsonl_gz::counted(
            0,
            lines_brought(calls.subrange(first_unsent_call(actions, i), i)),
        ),
    decreases i,
{
    if i > 0 {
        lemma_counts(states, calls, config, actions, i - 1);
        let call = calls[i - 1];
        let before = states[i - 1];
        let after = states[i];
        assert(call.may_do(before, after, config, actions[i - 1]));
        lemma_call(call, before, after, config, actions[i - 1]);
        lemma_call_empties(call, before, after, config, actions[i - 1]);
        lemma_unsent_lines(states, calls, config, actions, i - 1);
        lemma_unsent_lines(states, calls, config, actions, i);
        let first = first_unsent_call(actions, i);
        if first == i {
            assert(calls.subrange(i, i) =~= Seq::<S3Call>::empty());
        } else {
            lemma_one_more_line_brought(calls, first, i - 1);
        }
        match call {
            S3Call::Emit(Ok(json)) => {
                law_a_roll_uploads_the_segment_it_leaves(
                    before,
                    after,
                    json@,
                    config,
                    None,
                    actions[i - 1],
                );
            },
            S3Call::Emit(Err(_)) => {},
            S3Call::Flush => {},
            S3Call::Shutdown => {
                if first < i {
                    lemma_nothing_unsent(calls, first, i);
                }
            },
        }
    } else {
        assert(calls.subrange(0, 0) =~= Seq::<S3Call>::empty());
    }
}

/// Calls that bring no text bring no line.
proof fn lemma_nothing_unsent(calls: Seq<S3Call>, first: int, i: int)
    requires
        0 <= first <= i <= calls.len(),
        calls_text(calls.subrange(first, i)) == Seq::<u8>::empty(),
    ensures
        lines_brought(calls.subrange(first, i)) == 0,
    decreases i - first,
{
    if first < i {
        lemma_one_more_line(calls, first, i - 1);
        lemma_one_more_line_brought(calls, first, i - 1);
        let whole = calls_text(calls.subrange(first, i));
        assert(whole.len() == calls_text(calls.subrange(first, i - 1)).len() + calls[i
            - 1].text().len());
        assert(calls_text(calls.subrange(first, i - 1)) =~= Seq::<u8>::empty());
        lemma_nothing_unsent(calls, first, i - 1);
    } else {
        assert(calls.subrange(first, i) =~= Seq::<S3Call>::empty());
    }
}

/// A record has the objects' lines uploaded when they reach a limit, and not before:
/// the call that emits it uploads exactly where the lines since the last upload,
/// this one included, are as many bytes as the byte limit or more, or as many lines
/// as the line limit or more, where there is one. Segment numbers are not used up by
/// then.
pub proof fn law_an_upload_is_due_at_the_limits(
    states: Seq<S3SinkState>,
    calls: Seq<S3Call>,
    config: S3SegmentSinkConfig,
    actions: Seq<Seq<SinkAction>>,
    i: int,
)
    requires
        may_run(states, calls, config, actions),
        states[0].unsent() == Seq::<u8>::empty(),
        states[0].writer.lines == 0,
        states[0].writer.bytes == 0,
        0 <= i < calls.len(),
        calls[i] is Emit && calls[i]->Emit_0 is Ok,
        forall|k: int| 0 <= k <= i ==> (#[trigger] states[k]).writer.seq < u64::MAX,
    ensures
        ({
            let lines = calls.subrange(first_unsent_call(actions, i), i + 1);
            let options = states[0].options;
            actions[i].len() > 0 <==> {
                ||| calls_text(lines).len() >= options.roll_uncompressed_bytes
                ||| options.roll_lines is Some && lines_brought(lines) >= options.roll_lines->0
            }
        }),
{
    let json = calls[i]->Emit_0->Ok_0;
    let first = first_unsent_call(actions, i);
    assert(calls[i].may_do(states[i], states[i + 1], config, actions[i]));
    lemma_counts(states, calls, config, actions, i);
    lemma_unsent_lines(states, calls, config, actions, i);
    lemma_one_more_line(calls, first, i);
    lemma_one_more_line_brought(calls, first, i);
    law_a_roll_uploads_the_segment_it_leaves(
        states[i],
        states[i + 1],
        json@,
        config,
        None,
        actions[i],
    );
}

proof fn lemma_numbers_grow(
    states: Seq<S3SinkState>,
    calls: Seq<S3Call>,
    config: S3SegmentSinkConfig,
    actions: Seq<Seq<SinkAction>>,
    i: int,
    j: int,
)
    requires
        may_run(states, calls, config, actions),
        forall|k: int| 0 <= k < calls.len() ==> (#[trigger] states[k]).writer.seq < u64::MAX,
        0 <= i <= j <= calls.len(),
    ensures
        states[i].writer.seq <= states[j].writer.seq,
    decreases j - i,
{
    if i < j {
        lemma_numbers_grow(states, calls, config, actions, i, j - 1);
        let call = calls[j - 1];
        assert(call.may_do(states[j - 1], states[j], config, actions[j - 1]));
        lemma_call_number(call, states[j - 1], states[j], config, actions[j - 1], -1, Seq::empty());
    }
}

/// A sink never overwrites an object of its own: no two uploads of a run go under
/// the same key. Segment numbers are not used up by then.
pub proof fn law_a_sink_never_reuses_a_key(
    states: Seq<S3SinkState>,
    calls: Seq<S3Call>,
    config: S3SegmentSinkConfig,
    actions: Seq<Seq<SinkAction>>,
    i: int,
    a: int,
    j: int,
    b: int,
    key: Seq<char>,
)
    requires
        may_run(states, calls, config, actions),
        forall|k: int| 0 <= k < calls.len() ==> (#[trigger] states[k]).writer.seq < u64::MAX,
        0 <= i < calls.len(),
        0 <= j < calls.len(),
        0 <= a < actions[i].len(),
        0 <= b < actions[j].len(),
        uploads_under(actions[i][a], key),
        uploads_under(actions[j][b], key),
    ensures
        i == j,
        a == b,
    decreases if i > j { 1int } else { 0 },
{
    if i > j {
        law_a_sink_never_reuses_a_key(states, calls, config, actions, j, b, i, a, key);
    } else {
        assert(calls[i].may_do(states[i], states[i + 1], config, actions[i]));
        assert(calls[j].may_do(states[j], states[j + 1], config, actions[j]));
        lemma_call_number(calls[i], states[i], states[i + 1], config, actions[i], a, key);
        lemma_call_number(calls[j], states[j], states[j + 1], config, actions[j], b, key);
        if i < j {
            lemma_numbers_grow(states, calls, config, actions, i + 1, j);
            let s = states[i].writer.seq;
            let t = states[j].writer.seq;
            let t1 = choose|t1: ObjectTime| key == #[trigger] config.key_of(s, t1);
            let t2 = choose|t2: ObjectTime| key == #[trigger] config.key_of(t, t2);
            object_key::law_object_keys_do_not_collide(
                config.prefix@,
                t1,
                config.identity.instance@,
                config.identity.startup@,
                s,
                t2,
                config.identity.instance@,
                config.identity.startup@,
                t,
            );
        }
    }
}

} // verus!
