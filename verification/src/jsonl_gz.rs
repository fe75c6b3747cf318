//! Gzip-compressed JSON lines, cut into numbered segments.
//!
//! Lines are gathered in a buffer. A buffer that is large enough becomes one
//! self-contained gzip member of the current segment; a segment that has taken
//! enough lines or bytes is closed, and the next one begins.

use crate::text;
use vstd::prelude::*;

verus! {

/// When buffered lines are compressed, and when a segment is full.
#[derive(Clone, Copy, Debug)]
pub struct JsonlGzipSinkOptions {
    /// Buffered bytes from which on the buffer becomes a gzip member.
    pub buffer_bytes: usize,
    /// The longest time that lines stay in the buffer, in milliseconds.
    pub flush_interval_ms: u64,
    /// Uncompressed bytes from which on a segment is full.
    pub roll_uncompressed_bytes: u64,
    /// Lines from which on a segment is full; `None` for no such limit.
    pub roll_lines: Option<u64>,
    /// A limit on the number of segments, for a store that has one; `None` for no
    /// limit. Where a segment ends does not depend on it.
    pub max_segments: Option<u64>,
}

/// The parts one after the other.
pub open spec fn concat(parts: Seq<Seq<u8>>) -> Seq<u8>
    decreases parts.len(),
{
    if parts.len() == 0 {
        Seq::empty()
    } else {
        concat(parts.drop_last()) + parts.last()
    }
}

/// The gzip member that `flate2::write::GzEncoder` writes for `data` at the
/// default compression level.
pub uninterp spec fn gzip_member(data: Seq<u8>) -> Seq<u8>;

/// What `flate2::read::MultiGzDecoder` reads from `gz_bytes` to the end; `None`
/// where it fails.
pub uninterp spec fn gunzipped(gz_bytes: Seq<u8>) -> Option<Seq<u8>>;

/// `flate2::write::GzEncoder`, with the default compression level and into
/// memory, on the whole of `data`. Claimed: the bytes are a function of `data`
/// alone (the header carries neither a time nor the operating system), they are
/// at least a header and a trailer, and `MultiGzDecoder` reads `data` back from
/// them, alone or after any bytes that it can read by themselves. Writing into a
/// `Vec` does not fail.
#[verifier::external_body]
fn compress_member(data: &[u8]) -> (r: Vec<u8>)
    ensures
        r@ == gzip_member(data@),
        r@.len() >= 18,
        gunzipped(r@) == Some(data@),
        forall|before: Seq<u8>|
            gunzipped(before) is Some ==> #[trigger] gunzipped(before + r@) == Some(
                gunzipped(before)->0 + data@,
            ),
{
    let mut encoder = flate2::write::GzEncoder::new(Vec::new(), flate2::Compression::default());
    std::io::Write::write_all(&mut encoder, data).expect("writing into memory");
    encoder.finish().expect("writing into memory")
}

/// `flate2::read::MultiGzDecoder`, read to the end. Claimed: what it reads is a
/// function of the bytes alone.
#[verifier::external_body]
fn decompress_members(gz_bytes: &[u8]) -> (r: Option<Vec<u8>>)
    ensures
        r matches Some(text) ==> gunzipped(gz_bytes@) == Some(text@),
        r is None ==> gunzipped(gz_bytes@) is None,
{
    let mut text: Vec<u8> = Vec::new();
    let mut decoder = flate2::read::MultiGzDecoder::new(gz_bytes);
    std::io::Read::read_to_end(&mut decoder, &mut text).ok()?;
    Some(text)
}

/// The text of a stored segment; `None` where the bytes are no gzip file.
pub fn gunzip(gz_bytes: &[u8]) -> (r: Option<Vec<u8>>)
    ensures
        r matches Some(text) ==> gunzipped(gz_bytes@) == Some(text@),
        r is None ==> gunzipped(gz_bytes@) is None,
{
    decompress_members(gz_bytes)
}

/// What is to be done with a segment.
pub enum SegmentOp {
    /// Add bytes at the end of segment `seq`.
    Append { seq: u64, gz_bytes: Vec<u8> },
    /// Nothing more comes for segment `seq`.
    Close { seq: u64 },
}

/// A [`SegmentOp`] as a mathematical value.
pub enum SegmentStep {
    Append { seq: u64, gz_bytes: Seq<u8> },
    Close { seq: u64 },
}

impl View for SegmentOp {
    type V = SegmentStep;

    open spec fn view(&self) -> SegmentStep {
        match self {
            SegmentOp::Append { seq, gz_bytes } => SegmentStep::Append {
                seq: *seq,
                gz_bytes: gz_bytes@,
            },
            SegmentOp::Close { seq } => SegmentStep::Close { seq: *seq },
        }
    }
}

/// The operations as mathematical values.
pub open spec fn steps(ops: Seq<SegmentOp>) -> Seq<SegmentStep> {
    ops.map_values(|op: SegmentOp| op@)
}

/// Whether the member made of `data` can be read: alone, and after any bytes that
/// can be read by themselves.
pub open spec fn reads_back(data: Seq<u8>) -> bool {
    &&& gzip_member(data).len() > 0
    &&& gunzipped(gzip_member(data)) == Some(data)
    &&& forall|before: Seq<u8>|
        gunzipped(before) is Some ==> #[trigger] gunzipped(before + gzip_member(data)) == Some(
            gunzipped(before)->0 + data,
        )
}

/// `n + more`, or the largest `u64` where that is less. No limit of
/// [`JsonlGzipSinkOptions`] lies above it.
pub open spec fn counted(n: nat, more: nat) -> nat {
    if n + more < u64::MAX {
        n + more
    } else {
        u64::MAX as nat
    }
}

/// Where a writer stands.
#[verifier::ext_equal]
pub struct WriterState {
    /// The number of the current segment.
    pub seq: u64,
    /// Lines of the current segment that no member holds yet.
    pub buffer: Seq<u8>,
    /// The lines of the current segment, the buffered ones included.
    pub lines: nat,
    /// The uncompressed bytes of the current segment, the buffered ones included.
    pub bytes: nat,
}

impl WriterState {
    /// A writer at the beginning of segment `seq`.
    pub open spec fn at_start_of(seq: u64) -> WriterState {
        WriterState { seq, buffer: Seq::empty(), lines: 0, bytes: 0 }
    }

    /// One more line in the buffer.
    pub open spec fn with_line(self, line: Seq<u8>) -> WriterState {
        WriterState {
            seq: self.seq,
            buffer: self.buffer + line.push(10),
            lines: counted(self.lines, 1),
            bytes: counted(self.bytes, line.len() + 1),
        }
    }

    /// Whether the current segment has taken all that it is to take. The last
    /// segment number is never left.
    pub open spec fn is_full(self, options: JsonlGzipSinkOptions) -> bool {
        &&& self.seq < u64::MAX
        &&& {
            ||| self.bytes >= options.roll_uncompressed_bytes
            ||| options.roll_lines matches Some(limit) && self.lines >= limit
        }
    }

    /// The number of the segment that follows.
    pub open spec fn next_seq(self) -> u64 {
        if self.seq < u64::MAX {
            (self.seq + 1) as u64
        } else {
            self.seq
        }
    }

    /// The state after the buffer became a member.
    pub open spec fn flushed(self) -> WriterState {
        WriterState { buffer: Seq::empty(), ..self }
    }

    /// What is done to make the buffer a member.
    pub open spec fn flush_steps(self) -> Seq<SegmentStep> {
        if self.buffer.len() == 0 {
            Seq::empty()
        } else {
            seq![SegmentStep::Append { seq: self.seq, gz_bytes: gzip_member(self.buffer) }]
        }
    }

    /// What is done to end the current segment.
    pub open spec fn finish_steps(self) -> Seq<SegmentStep> {
        self.flush_steps().push(SegmentStep::Close { seq: self.seq })
    }

    /// The state after one more line.
    pub open spec fn after_line(self, options: JsonlGzipSinkOptions, line: Seq<u8>) -> WriterState {
        let s = self.with_line(line);
        if s.is_full(options) {
            WriterState::at_start_of(s.next_seq())
        } else if s.buffer.len() >= options.buffer_bytes {
            s.flushed()
        } else {
            s
        }
    }

    /// What is done on one more line.
    pub open spec fn line_steps(self, options: JsonlGzipSinkOptions, line: Seq<u8>) -> Seq<
        SegmentStep,
    > {
        let s = self.with_line(line);
        if s.is_full(options) {
            s.finish_steps()
        } else if s.buffer.len() >= options.buffer_bytes {
            s.flush_steps()
        } else {
            Seq::empty()
        }
    }
}

/// Gathers lines and cuts them into members and segments.
pub struct SegmentWriter {
    options: JsonlGzipSinkOptions,
    seq: u64,
    buffer: Vec<u8>,
    lines: u64,
    bytes: u64,
}

impl View for SegmentWriter {
    type V = WriterState;

    closed spec fn view(&self) -> WriterState {
        WriterState {
            seq: self.seq,
            buffer: self.buffer@,
            lines: self.lines as nat,
            bytes: self.bytes as nat,
        }
    }
}

impl SegmentWriter {
    /// The limits that the writer goes by.
    pub closed spec fn spec_options(&self) -> JsonlGzipSinkOptions {
        self.options
    }

    /// A writer at the beginning of segment 0.
    pub fn new(options: JsonlGzipSinkOptions) -> (r: SegmentWriter)
        ensures
            r@ == WriterState::at_start_of(0),
            r.spec_options() == options,
    {
        SegmentWriter { options, seq: 0, buffer: Vec::new(), lines: 0, bytes: 0 }
    }

    /// The limits that the writer goes by.
    pub fn options(&self) -> (r: JsonlGzipSinkOptions)
        ensures
            r == self.spec_options(),
    {
        self.options
    }

    /// Takes one line, without its line break.
    pub fn push_line(&mut self, line: &[u8]) -> (ops: Vec<SegmentOp>)
        ensures
            final(self)@ == old(self)@.after_line(old(self).spec_options(), line@),
            steps(ops@) == old(self)@.line_steps(old(self).spec_options(), line@),
            steps(ops@).len() > 0 ==> reads_back(old(self)@.with_line(line@).buffer),
            final(self).spec_options() == old(self).spec_options(),
    {
        self.buffer.extend_from_slice(line);
        self.buffer.push(10);
        self.lines = self.lines.saturating_add(1);
        self.bytes = self.bytes.saturating_add(line.len() as u64).saturating_add(1);
        assert(self@ =~= old(self)@.with_line(line@));
        let lines_full = match self.options.roll_lines {
            Some(limit) => self.lines >= limit,
            None => false,
        };
        if self.seq < u64::MAX && (self.bytes >= self.options.roll_uncompressed_bytes || lines_full) {
            self.finish()
        } else if self.buffer.len() >= self.options.buffer_bytes {
            self.flush()
        } else {
            let ops: Vec<SegmentOp> = Vec::new();
            assert(steps(ops@) =~= Seq::empty());
            ops
        }
    }

    /// Makes what is buffered a member of the current segment.
    pub fn flush(&mut self) -> (ops: Vec<SegmentOp>)
        ensures
            final(self)@ == old(self)@.flushed(),
            steps(ops@) == old(self)@.flush_steps(),
            old(self)@.buffer.len() > 0 ==> reads_back(old(self)@.buffer),
            final(self).spec_options() == old(self).spec_options(),
    {
        let mut ops: Vec<SegmentOp> = Vec::new();
        if self.buffer.len() > 0 {
            let gz_bytes = compress_member(self.buffer.as_slice());
            self.buffer.clear();
            ops.push(SegmentOp::Append { seq: self.seq, gz_bytes });
        }
        assert(self@ =~= old(self)@.flushed());
        assert(steps(ops@) =~= old(self)@.flush_steps());
        ops
    }

    /// Ends the current segment with what is buffered, and begins the next.
    pub fn finish(&mut self) -> (ops: Vec<SegmentOp>)
        ensures
            final(self)@ == WriterState::at_start_of(old(self)@.next_seq()),
            steps(ops@) == old(self)@.finish_steps(),
            old(self)@.buffer.len() > 0 ==> reads_back(old(self)@.buffer),
            final(self).spec_options() == old(self).spec_options(),
    {
        let mut ops = self.flush();
        let ghost flushed = ops@;
        ops.push(SegmentOp::Close { seq: self.seq });
        assert(steps(ops@) =~= steps(flushed).push(SegmentStep::Close { seq: self.seq }));
        if self.seq < u64::MAX {
            self.seq = self.seq + 1;
        }
        self.lines = 0;
        self.bytes = 0;
        ops
    }
}

/// A call of a writer.
pub enum WriterCall {
    /// [`SegmentWriter::push_line`].
    Line(Seq<u8>),
    /// [`SegmentWriter::flush`].
    Flush,
    /// [`SegmentWriter::finish`].
    Finish,
}

impl WriterCall {
    /// Where the call leaves a writer that stands at `state`.
    pub open spec fn after(
        self,
        options: JsonlGzipSinkOptions,
        state: WriterState,
    ) -> WriterState {
        match self {
            WriterCall::Line(line) => state.after_line(options, line),
            WriterCall::Flush => state.flushed(),
            WriterCall::Finish => WriterState::at_start_of(state.next_seq()),
        }
    }

    /// What the call asks for.
    pub open spec fn steps(
        self,
        options: JsonlGzipSinkOptions,
        state: WriterState,
    ) -> Seq<SegmentStep> {
        match self {
            WriterCall::Line(line) => state.line_steps(options, line),
            WriterCall::Flush => state.flush_steps(),
            WriterCall::Finish => state.finish_steps(),
        }
    }
}

/// Where a new writer stands after `calls`.
pub open spec fn state_after(options: JsonlGzipSinkOptions, calls: Seq<WriterCall>) -> WriterState
    decreases calls.len(),
{
    if calls.len() == 0 {
        WriterState::at_start_of(0)
    } else {
        calls.last().after(options, state_after(options, calls.drop_last()))
    }
}

/// What the call `next` asks for after `calls`.
pub open spec fn steps_of(
    options: JsonlGzipSinkOptions,
    calls: Seq<WriterCall>,
    next: WriterCall,
) -> Seq<SegmentStep> {
    next.steps(options, state_after(options, calls))
}

/// Whether `steps` ends a segment.
pub open spec fn ends_a_segment(steps: Seq<SegmentStep>) -> bool {
    exists|i: int| 0 <= i < steps.len() && #[trigger] steps[i] is Close
}

/// How many segments `calls` ended.
pub open spec fn segments_ended(options: JsonlGzipSinkOptions, calls: Seq<WriterCall>) -> nat
    decreases calls.len(),
{
    if calls.len() == 0 {
        0
    } else {
        let before = calls.drop_last();
        segments_ended(options, before) + if ends_a_segment(
            steps_of(options, before, calls.last()),
        ) {
            1nat
        } else {
            0
        }
    }
}

/// The lines that came since a segment was ended last.
pub open spec fn open_lines(options: JsonlGzipSinkOptions, calls: Seq<WriterCall>) -> Seq<Seq<u8>>
    decreases calls.len(),
{
    if calls.len() == 0 {
        Seq::empty()
    } else {
        let before = calls.drop_last();
        if ends_a_segment(steps_of(options, before, calls.last())) {
            Seq::empty()
        } else {
            match calls.last() {
                WriterCall::Line(line) => open_lines(options, before).push(line),
                _ => open_lines(options, before),
            }
        }
    }
}

/// The lines that came since the writer asked for something last.
pub open spec fn waiting_lines(options: JsonlGzipSinkOptions, calls: Seq<WriterCall>) -> Seq<
    Seq<u8>,
>
    decreases calls.len(),
{
    if calls.len() == 0 {
        Seq::empty()
    } else {
        let before = calls.drop_last();
        if steps_of(options, before, calls.last()).len() > 0 {
            Seq::empty()
        } else {
            match calls.last() {
                WriterCall::Line(line) => waiting_lines(options, before).push(line),
                _ => waiting_lines(options, before),
            }
        }
    }
}

/// The lines one after the other, each with a line break behind it.
pub open spec fn lines_text(lines: Seq<Seq<u8>>) -> Seq<u8>
    decreases lines.len(),
{
    if lines.len() == 0 {
        Seq::empty()
    } else {
        lines_text(lines.drop_last()) + lines.last().push(10)
    }
}

proof fn lemma_one_more(lines: Seq<Seq<u8>>, line: Seq<u8>)
    ensures
        lines_text(lines.push(line)) == lines_text(lines) + line.push(10),
        lines_text(lines.push(line)).len() == lines_text(lines).len() + line.len() + 1,
{
    assert(lines.push(line).drop_last() =~= lines);
}

proof fn lemma_ends(state: WriterState)
    ensures
        !ends_a_segment(state.flush_steps()),
        ends_a_segment(state.finish_steps()),
        !ends_a_segment(Seq::empty()),
{
    let steps = state.finish_steps();
    assert(steps[steps.len() - 1] is Close);
}

/// What a writer knows of its past is what its callers know of it.
#[verifier::spinoff_prover]
proof fn lemma_run(options: JsonlGzipSinkOptions, calls: Seq<WriterCall>)
    ensures
        ({
            let s = state_after(options, calls);
            let open = open_lines(options, calls);
            &&& s.buffer == lines_text(waiting_lines(options, calls))
            &&& s.lines == counted(0, open.len())
            &&& s.bytes == counted(0, lines_text(open).len())
            &&& s.seq == counted(0, segments_ended(options, calls))
            &&& s.seq < u64::MAX && open.len() > 0 ==> {
                &&& lines_text(open).len() < options.roll_uncompressed_bytes
                &&& options.roll_lines matches Some(limit) ==> open.len() < limit
            }
        }),
    decreases calls.len(),
{
    if calls.len() > 0 {
        let before = calls.drop_last();
        lemma_run(options, before);
        let s = state_after(options, before);
        lemma_ends(s);
        match calls.last() {
            WriterCall::Line(line) => {
                lemma_ends(s.with_line(line));
                lemma_one_more(open_lines(options, before), line);
                lemma_one_more(waiting_lines(options, before), line);
                assert(s.with_line(line).buffer.len() > 0);
            },
            _ => {},
        }
    }
}

/// A segment ends with the line that brings it to a limit, and with no other: the
/// line after which the lines since the last end, with their line breaks, are as
/// many bytes as the byte limit or more, or as many lines as the line limit or more,
/// where there is one. Either limit ends a segment, whatever the other is. Segment
/// numbers are not used up by then.
pub proof fn law_a_segment_ends_at_its_limits(
    options: JsonlGzipSinkOptions,
    calls: Seq<WriterCall>,
    line: Seq<u8>,
)
    requires
        segments_ended(options, calls) < u64::MAX,
    ensures
        ({
            let lines = open_lines(options, calls).push(line);
            ends_a_segment(steps_of(options, calls, WriterCall::Line(line))) <==> {
                ||| lines_text(lines).len() >= options.roll_uncompressed_bytes
                ||| options.roll_lines is Some && lines.len() >= options.roll_lines->0
            }
        }),
{
    lemma_run(options, calls);
    let s = state_after(options, calls);
    lemma_ends(s.with_line(line));
    lemma_one_more(open_lines(options, calls), line);
}

/// A segment that has taken lines and goes on is below both of its limits: without
/// its last line every segment is smaller than the byte limit and has fewer lines
/// than the line limit.
pub proof fn law_an_open_segment_is_below_its_limits(
    options: JsonlGzipSinkOptions,
    calls: Seq<WriterCall>,
)
    requires
        segments_ended(options, calls) < u64::MAX,
        open_lines(options, calls).len() > 0,
    ensures
        lines_text(open_lines(options, calls)).len() < options.roll_uncompressed_bytes,
        options.roll_lines is Some ==> open_lines(options, calls).len() < options.roll_lines->0,
{
    lemma_run(options, calls);
}

/// Lines wait until there are enough of them for a member, or until their segment
/// ends or the writer is told: then all the lines that wait become one member, and
/// what is asked for names the segment by the number of segments that were ended
/// before it. Segment numbers are not used up by then.
#[verifier::spinoff_prover]
pub proof fn law_waiting_lines_become_one_member(
    options: JsonlGzipSinkOptions,
    calls: Seq<WriterCall>,
    next: WriterCall,
)
    requires
        segments_ended(options, calls) < u64::MAX,
    ensures
        ({
            let steps = steps_of(options, calls, next);
            let seq = segments_ended(options, calls) as u64;
            let before = waiting_lines(options, calls);
            let lines = match next {
                WriterCall::Line(line) => before.push(line),
                _ => before,
            };
            let member = SegmentStep::Append { seq, gz_bytes: gzip_member(lines_text(lines)) };
            let end = SegmentStep::Close { seq };
            let due = match next {
                WriterCall::Line(_) => lines_text(lines).len() >= options.buffer_bytes,
                WriterCall::Flush => true,
                WriterCall::Finish => true,
            };
            &&& next is Finish ==> ends_a_segment(steps)
            &&& next is Flush ==> !ends_a_segment(steps)
            &&& steps == if ends_a_segment(steps) {
                if lines.len() > 0 {
                    seq![member, end]
                } else {
                    seq![end]
                }
            } else if due && lines.len() > 0 {
                seq![member]
            } else {
                Seq::empty()
            }
        }),
{
    lemma_run(options, calls);
    let s = state_after(options, calls);
    let before = waiting_lines(options, calls);
    lemma_ends(s);
    if before.len() > 0 {
        lemma_one_more(before.drop_last(), before.last());
        assert(before.drop_last().push(before.last()) =~= before);
    }
    match next {
        WriterCall::Line(line) => {
            let w = s.with_line(line);
            lemma_ends(w);
            lemma_one_more(before, line);
            if ends_a_segment(steps_of(options, calls, next)) {
                assert(w.finish_steps() =~= seq![
                    SegmentStep::Append { seq: s.seq, gz_bytes: gzip_member(w.buffer) },
                    SegmentStep::Close { seq: s.seq },
                ]);
            }
        },
        WriterCall::Flush => {},
        WriterCall::Finish => {
            if before.len() > 0 {
                assert(s.finish_steps() =~= seq![
                    SegmentStep::Append { seq: s.seq, gz_bytes: gzip_member(s.buffer) },
                    SegmentStep::Close { seq: s.seq },
                ]);
            } else {
                assert(s.finish_steps() =~= seq![SegmentStep::Close { seq: s.seq }]);
            }
        },
    }
}

/// The path of segment `seq` of the file at `path`: `{path}.{seq:06}.jsonl.gz`.
pub open spec fn spec_segment_path(path: Seq<char>, seq: u64) -> Seq<char> {
    path + "."@ + text::zero_padded(seq as nat, 6) + ".jsonl.gz"@
}

/// A segment lies beside the file it belongs to: its path is that of the file, with
/// the number of the segment and an extension behind it.
pub proof fn law_a_segment_lies_beside_its_file(path: Seq<char>, seq: u64) -> (number: Seq<char>)
    ensures
        text::writes_number(number, seq as int, 6),
        spec_segment_path(path, seq) == path + seq!['.'] + number + seq![
            '.',
            'j',
            's',
            'o',
            'n',
            'l',
            '.',
            'g',
            'z',
        ],
{
    reveal_strlit(".");
    reveal_strlit(".jsonl.gz");
    assert("."@ =~= seq!['.']);
    assert(".jsonl.gz"@ =~= seq!['.', 'j', 's', 'o', 'n', 'l', '.', 'g', 'z']);
    text::law_numbers_are_written_in_full(seq as nat, 6);
    text::zero_padded(seq as nat, 6)
}

/// The path of segment `seq` of the file at `path`: `{path}.{seq:06}.jsonl.gz`.
pub fn segment_path(path: &str, seq: u64) -> (r: String)
    ensures
        r@ == spec_segment_path(path@, seq),
        r@ == path@ + "."@ + text::zero_padded(seq as nat, 6) + ".jsonl.gz"@,
{
    let mut r = path.to_owned();
    r.append(".");
    r.append(text::to_zero_padded(seq, 6).as_str());
    r.append(".jsonl.gz");
    r
}

} // verus!
