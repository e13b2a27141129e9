//! The decoder: from the bytes of a stream to readings and diagnostics.
//!
//! The decoder takes the stream in chunks of any size. What it hands out
//! depends on the bytes alone, not on where one chunk ends and the next
//! begins.

use vstd::prelude::*;
use crate::builder::{build_record, build_spec, lemma_no_groups_no_variant};
use crate::diagnostic::{diagnostic_views, Diagnostic, DiagnosticView, Framing};
use crate::frame::{assembled, next_state, Assembled, AssembledView, FrameAssembler, FrameState};
use crate::group::{
    line_of, parse_frame, parse_frame_spec, parse_lines, split_lines, write_groups, GroupView,
};
use crate::models::{Record, RecordView};
use crate::wire::{ETX, STX};

verus! {

/// What the decoder hands out.
#[derive(Clone, Debug, PartialEq, Eq)]
pub enum Event {
    /// A frame was decoded in full.
    Record(Record),
    /// Something was met on the way.
    Diagnostic(Diagnostic),
}

/// The mathematical model of an [`Event`].
pub enum EventView {
    Record(RecordView),
    Diagnostic(DiagnosticView),
}

impl View for Event {
    type V = EventView;

    open spec fn view(&self) -> EventView {
        match self {
            Event::Record(r) => EventView::Record(r@),
            Event::Diagnostic(d) => EventView::Diagnostic(d@),
        }
    }
}

/// The models of a sequence of events.
pub open spec fn event_views(s: Seq<Event>) -> Seq<EventView> {
    Seq::new(s.len(), |i: int| s[i]@)
}

/// The diagnostics `s` as events.
pub open spec fn as_events(s: Seq<DiagnosticView>) -> Seq<EventView> {
    Seq::new(s.len(), |i: int| EventView::Diagnostic(s[i]))
}

/// The events of one completed frame with the given payload: a diagnostic
/// for each malformed line and each checksum mismatch, in the order of the
/// lines, and then either the reading, stamped with the capture time, or
/// the diagnostic that rejects the frame.
pub open spec fn frame_events(payload: Seq<u8>, strict: bool, dt_utc: i64) -> Seq<EventView> {
    let parsed = parse_frame_spec(payload);
    as_events(parsed.diagnostics).push(
        match build_spec(parsed.groups, strict) {
            Ok(reading) => EventView::Record(RecordView { dt_utc, reading }),
            Err(d) => EventView::Diagnostic(d),
        },
    )
}

/// The events that `byte` gives when it arrives in state `s`.
pub open spec fn byte_events(s: FrameState, byte: u8, strict: bool, dt_utc: i64) -> Seq<EventView> {
    match assembled(s, byte) {
        AssembledView::Pending => Seq::empty(),
        AssembledView::Frame(payload) => frame_events(payload, strict, dt_utc),
        AssembledView::Fault(f) => seq![EventView::Diagnostic(DiagnosticView::Framing(f))],
    }
}

/// The state after `bytes` arrived, one after the other, in state `s`.
pub open spec fn state_after(s: FrameState, bytes: Seq<u8>) -> FrameState
    decreases bytes.len(),
{
    if bytes.len() == 0 {
        s
    } else {
        next_state(state_after(s, bytes.drop_last()), bytes.last())
    }
}

/// The events that `bytes` give when they arrive, one after the other, in
/// state `s`.
pub open spec fn events_of(s: FrameState, bytes: Seq<u8>, strict: bool, dt_utc: i64) -> Seq<
    EventView,
>
    decreases bytes.len(),
{
    if bytes.len() == 0 {
        Seq::empty()
    } else {
        events_of(s, bytes.drop_last(), strict, dt_utc) + byte_events(
            state_after(s, bytes.drop_last()),
            bytes.last(),
            strict,
            dt_utc,
        )
    }
}

/// The bytes of a sequence of reads, in the order in which they arrived.
pub open spec fn joined(reads: Seq<Seq<u8>>) -> Seq<u8>
    decreases reads.len(),
{
    if reads.len() == 0 {
        Seq::empty()
    } else {
        joined(reads.drop_last()) + reads.last()
    }
}

/// The state after a sequence of reads was fed, one read after the other.
pub open spec fn state_after_reads(s: FrameState, reads: Seq<Seq<u8>>) -> FrameState
    decreases reads.len(),
{
    if reads.len() == 0 {
        s
    } else {
        state_after(state_after_reads(s, reads.drop_last()), reads.last())
    }
}

/// The events that a sequence of reads gives, fed one read after the other.
pub open spec fn events_of_reads(
    s: FrameState,
    reads: Seq<Seq<u8>>,
    strict: bool,
    dt_utc: i64,
) -> Seq<EventView>
    decreases reads.len(),
{
    if reads.len() == 0 {
        Seq::empty()
    } else {
        events_of_reads(s, reads.drop_last(), strict, dt_utc) + events_of(
            state_after_reads(s, reads.drop_last()),
            reads.last(),
            strict,
            dt_utc,
        )
    }
}

/// The readings among `events`, in order.
pub open spec fn records_of(events: Seq<EventView>) -> Seq<RecordView>
    decreases events.len(),
{
    if events.len() == 0 {
        Seq::empty()
    } else {
        match events.last() {
            EventView::Record(r) => records_of(events.drop_last()).push(r),
            EventView::Diagnostic(_) => records_of(events.drop_last()),
        }
    }
}

/// Whether `bytes` holds neither a start marker nor an end marker.
pub open spec fn marker_free(bytes: Seq<u8>) -> bool {
    forall|i: int| 0 <= i < bytes.len() ==> #[trigger] bytes[i] != STX && bytes[i] != ETX
}

/// Feeding `a` and then `b` is the same as feeding `a + b` at once: the
/// decoder ends in the same state and has handed out the same events.
pub proof fn lemma_split_in_two(s: FrameState, a: Seq<u8>, b: Seq<u8>, strict: bool, dt_utc: i64)
    ensures
        state_after(s, a + b) == state_after(state_after(s, a), b),
        events_of(s, a + b, strict, dt_utc) == events_of(s, a, strict, dt_utc) + events_of(
            state_after(s, a),
            b,
            strict,
            dt_utc,
        ),
    decreases b.len(),
{
    if b.len() == 0 {
        assert(a + b =~= a);
    } else {
        assert((a + b).drop_last() =~= a + b.drop_last());
        lemma_split_in_two(s, a, b.drop_last(), strict, dt_utc);
    }
}

/// Chunk independence: however a byte sequence is split into reads, feeding
/// the reads one after the other gives the state and the events that the
/// whole sequence gives when fed at once.
pub proof fn lemma_chunk_independence(
    s: FrameState,
    reads: Seq<Seq<u8>>,
    strict: bool,
    dt_utc: i64,
)
    ensures
        state_after_reads(s, reads) == state_after(s, joined(reads)),
        events_of_reads(s, reads, strict, dt_utc) == events_of(s, joined(reads), strict, dt_utc),
    decreases reads.len(),
{
    if reads.len() > 0 {
        lemma_chunk_independence(s, reads.drop_last(), strict, dt_utc);
        lemma_split_in_two(s, joined(reads.drop_last()), reads.last(), strict, dt_utc);
    }
}

/// Two ways of splitting the same bytes into reads give the same state and
/// the same events.
pub proof fn lemma_same_bytes_same_events(
    s: FrameState,
    reads: Seq<Seq<u8>>,
    other: Seq<Seq<u8>>,
    strict: bool,
    dt_utc: i64,
)
    requires
        joined(reads) == joined(other),
    ensures
        state_after_reads(s, reads) == state_after_reads(s, other),
        events_of_reads(s, reads, strict, dt_utc) == events_of_reads(s, other, strict, dt_utc),
{
    lemma_chunk_independence(s, reads, strict, dt_utc);
    lemma_chunk_independence(s, other, strict, dt_utc);
}

/// A reading comes from a frame that a start marker opened: an idle
/// decoder that sees no start marker stays idle and hands out no reading.
pub proof fn lemma_no_start_no_record(bytes: Seq<u8>, strict: bool, dt_utc: i64)
    requires
        forall|i: int| 0 <= i < bytes.len() ==> #[trigger] bytes[i] != STX,
    ensures
        state_after(FrameState::Idle, bytes) == FrameState::Idle,
        records_of(events_of(FrameState::Idle, bytes, strict, dt_utc)) == Seq::<
            RecordView,
        >::empty(),
    decreases bytes.len(),
{
    if bytes.len() > 0 {
        let init = bytes.drop_last();
        assert forall|i: int| 0 <= i < init.len() implies #[trigger] init[i] != STX by {
            assert(init[i] == bytes[i]);
        }
        lemma_no_start_no_record(init, strict, dt_utc);
        assert(bytes[bytes.len() - 1] != STX);
        let last = byte_events(FrameState::Idle, bytes.last(), strict, dt_utc);
        assert(records_of(last) =~= Seq::<RecordView>::empty()) by {
            reveal_with_fuel(records_of, 2);
        }
        lemma_records_of_concat(events_of(FrameState::Idle, init, strict, dt_utc), last);
    }
}

/// Inside a frame, bytes that are no markers are buffered and give no
/// event.
pub proof fn lemma_payload_is_buffered(
    buffered: Seq<u8>,
    bytes: Seq<u8>,
    strict: bool,
    dt_utc: i64,
)
    requires
        marker_free(bytes),
    ensures
        state_after(FrameState::InFrame(buffered), bytes) == FrameState::InFrame(buffered + bytes),
        events_of(FrameState::InFrame(buffered), bytes, strict, dt_utc) == Seq::<
            EventView,
        >::empty(),
    decreases bytes.len(),
{
    if bytes.len() == 0 {
        assert(buffered + bytes =~= buffered);
    } else {
        lemma_payload_is_buffered(buffered, bytes.drop_last(), strict, dt_utc);
        assert(bytes[bytes.len() - 1] != STX && bytes[bytes.len() - 1] != ETX);
        assert((buffered + bytes.drop_last()).push(bytes.last()) =~= buffered + bytes);
    }
}

/// The events that a start marker gives in state `s`: a framing diagnostic
/// if it interrupts a frame, nothing otherwise.
pub open spec fn start_events(s: FrameState) -> Seq<EventView> {
    match s {
        FrameState::Idle => Seq::empty(),
        FrameState::InFrame(_) => seq![
            EventView::Diagnostic(DiagnosticView::Framing(Framing::Interrupted)),
        ],
    }
}

/// A start marker, a payload free of markers and an end marker give the
/// events of that payload, whatever came before, and leave the decoder idle.
pub proof fn lemma_whole_frame(s: FrameState, payload: Seq<u8>, strict: bool, dt_utc: i64)
    requires
        marker_free(payload),
    ensures
        state_after(s, seq![STX] + payload + seq![ETX]) == FrameState::Idle,
        events_of(s, seq![STX] + payload + seq![ETX], strict, dt_utc) == start_events(s)
            + frame_events(payload, strict, dt_utc),
{
    let open = seq![STX];
    let opened = FrameState::InFrame(Seq::empty());
    assert(open.drop_last() =~= Seq::empty());
    assert(state_after(s, open) == opened) by {
        reveal_with_fuel(state_after, 2);
    }
    assert(events_of(s, open, strict, dt_utc) =~= start_events(s)) by {
        reveal_with_fuel(events_of, 2);
        reveal_with_fuel(state_after, 2);
    }
    lemma_payload_is_buffered(Seq::empty(), payload, strict, dt_utc);
    lemma_split_in_two(s, open, payload, strict, dt_utc);
    assert(Seq::<u8>::empty() + payload =~= payload);
    let body = open + payload;
    assert(state_after(s, body) == FrameState::InFrame(payload));
    assert(events_of(s, body, strict, dt_utc) =~= start_events(s));
    let all = body + seq![ETX];
    assert(all.drop_last() =~= body);
    assert(all.last() == ETX);
}

/// Resynchronization: a frame that a second start marker interrupts is
/// dropped. The bytes `START a START b END`, with `a` and `b` free of
/// markers, give a framing diagnostic and then the events of the frame `b`
/// alone. Nothing of `a` is left in them.
pub proof fn lemma_resync(s: FrameState, a: Seq<u8>, b: Seq<u8>, strict: bool, dt_utc: i64)
    requires
        marker_free(a),
        marker_free(b),
    ensures
        state_after(s, seq![STX] + a + (seq![STX] + b + seq![ETX])) == FrameState::Idle,
        events_of(s, seq![STX] + a + (seq![STX] + b + seq![ETX]), strict, dt_utc)
            == start_events(s) + seq![
            EventView::Diagnostic(DiagnosticView::Framing(Framing::Interrupted)),
        ] + frame_events(b, strict, dt_utc),
{
    let open = seq![STX];
    let opened = FrameState::InFrame(Seq::empty());
    assert(open.drop_last() =~= Seq::empty());
    assert(state_after(s, open) == opened) by {
        reveal_with_fuel(state_after, 2);
    }
    assert(events_of(s, open, strict, dt_utc) =~= start_events(s)) by {
        reveal_with_fuel(events_of, 2);
        reveal_with_fuel(state_after, 2);
    }
    lemma_payload_is_buffered(Seq::empty(), a, strict, dt_utc);
    lemma_split_in_two(s, open, a, strict, dt_utc);
    assert(Seq::<u8>::empty() + a =~= a);
    let first = open + a;
    let second = seq![STX] + b + seq![ETX];
    lemma_whole_frame(FrameState::InFrame(a), b, strict, dt_utc);
    lemma_split_in_two(s, first, second, strict, dt_utc);
    assert(events_of(s, first, strict, dt_utc) =~= start_events(s));
}

/// The readings among the events of one frame: the one reading that the
/// frame gives, or none if the frame is rejected.
pub proof fn lemma_frame_records(payload: Seq<u8>, strict: bool, dt_utc: i64)
    ensures
        records_of(frame_events(payload, strict, dt_utc)) == match build_spec(
            parse_frame_spec(payload).groups,
            strict,
        ) {
            Ok(reading) => seq![RecordView { dt_utc, reading }],
            Err(_) => Seq::empty(),
        },
{
    let diagnostics = as_events(parse_frame_spec(payload).diagnostics);
    lemma_diagnostics_hold_no_record(parse_frame_spec(payload).diagnostics);
    let events = frame_events(payload, strict, dt_utc);
    assert(events.drop_last() =~= diagnostics);
}

/// Diagnostics hold no reading.
pub proof fn lemma_diagnostics_hold_no_record(diagnostics: Seq<DiagnosticView>)
    ensures
        records_of(as_events(diagnostics)) == Seq::<RecordView>::empty(),
    decreases diagnostics.len(),
{
    if diagnostics.len() > 0 {
        lemma_diagnostics_hold_no_record(diagnostics.drop_last());
        assert(as_events(diagnostics).drop_last() =~= as_events(diagnostics.drop_last()));
    }
}

/// The readings of two runs of events, one after the other.
pub proof fn lemma_records_of_concat(a: Seq<EventView>, b: Seq<EventView>)
    ensures
        records_of(a + b) == records_of(a) + records_of(b),
    decreases b.len(),
{
    if b.len() == 0 {
        assert(a + b =~= a);
    } else {
        assert((a + b).drop_last() =~= a + b.drop_last());
        lemma_records_of_concat(a, b.drop_last());
    }
}

/// Resynchronization, in readings: `START a START b END` gives exactly the
/// reading of the frame `b` if `b` is complete, and no reading otherwise.
pub proof fn lemma_resync_records(a: Seq<u8>, b: Seq<u8>, strict: bool, dt_utc: i64)
    requires
        marker_free(a),
        marker_free(b),
    ensures
        records_of(
            events_of(
                FrameState::Idle,
                seq![STX] + a + (seq![STX] + b + seq![ETX]),
                strict,
                dt_utc,
            ),
        ) == match build_spec(parse_frame_spec(b).groups, strict) {
            Ok(reading) => seq![RecordView { dt_utc, reading }],
            Err(_) => Seq::empty(),
        },
{
    lemma_resync(FrameState::Idle, a, b, strict, dt_utc);
    lemma_frame_records(b, strict, dt_utc);
    let fault = seq![EventView::Diagnostic(DiagnosticView::Framing(Framing::Interrupted))];
    assert(records_of(fault) =~= Seq::<RecordView>::empty()) by {
        reveal_with_fuel(records_of, 2);
    }
    lemma_records_of_concat(start_events(FrameState::Idle) + fault, frame_events(b, strict, dt_utc));
    lemma_records_of_concat(start_events(FrameState::Idle), fault);
}

/// A frame without groups: a start marker that an end marker follows at
/// once gives one diagnostic, of unknown variant, and no reading.
pub proof fn lemma_empty_frame(s: FrameState, strict: bool, dt_utc: i64)
    ensures
        frame_events(Seq::empty(), strict, dt_utc) == seq![
            EventView::Diagnostic(DiagnosticView::UnknownVariant),
        ],
        events_of(s, seq![STX, ETX], strict, dt_utc) == start_events(s) + seq![
            EventView::Diagnostic(DiagnosticView::UnknownVariant),
        ],
        state_after(s, seq![STX, ETX]) == FrameState::Idle,
{
    let empty = Seq::<u8>::empty();
    let parsed = parse_frame_spec(empty);
    assert(parsed.groups =~= Seq::empty() && parsed.diagnostics =~= Seq::empty()) by {
        reveal_with_fuel(parse_lines, 2);
        assert(split_lines(empty).drop_last() =~= Seq::empty());
    }
    lemma_no_groups_no_variant(strict);
    assert(frame_events(empty, strict, dt_utc) =~= seq![
        EventView::Diagnostic(DiagnosticView::UnknownVariant),
    ]);
    lemma_whole_frame(s, empty, strict, dt_utc);
    assert(seq![STX] + empty + seq![ETX] =~= seq![STX, ETX]);
}

/// Groups that hold no marker are written without a marker.
pub proof fn lemma_written_is_marker_free(groups: Seq<GroupView>)
    requires
        forall|i: int|
            0 <= i < groups.len() ==> marker_free((#[trigger] groups[i]).label) && marker_free(
                groups[i].value,
            ) && groups[i].checksum != STX && groups[i].checksum != ETX,
    ensures
        marker_free(write_groups(groups)),
    decreases groups.len(),
{
    if groups.len() > 0 {
        let init = groups.drop_last();
        let g = groups.last();
        assert forall|i: int| 0 <= i < init.len() implies marker_free((#[trigger] init[i]).label)
            && marker_free(init[i].value) && init[i].checksum != STX && init[i].checksum
            != ETX by {
            assert(init[i] == groups[i]);
        }
        lemma_written_is_marker_free(init);
        assert(marker_free(g.label) && marker_free(g.value));
        let line = line_of(g.label, g.value, true, g.checksum);
        assert forall|j: int| 0 <= j < line.len() implies #[trigger] line[j] != STX && line[j]
            != ETX by {
            if j < g.label.len() {
                assert(line[j] == g.label[j]);
            } else if g.label.len() < j <= g.label.len() + g.value.len() {
                assert(line[j] == g.value[j - g.label.len() - 1]);
            }
        }
        let written = write_groups(groups);
        let before = write_groups(init);
        assert forall|j: int| 0 <= j < written.len() implies #[trigger] written[j] != STX
            && written[j] != ETX by {
            if j < before.len() {
                assert(written[j] == before[j]);
            } else if j > before.len() {
                assert(written[j] == line[j - before.len() - 1]);
            }
        }
    }
}

/// Decodes the payload of one completed frame.
pub fn decode_frame(payload: &[u8], strict: bool, dt_utc: i64) -> (events: Vec<Event>)
    ensures
        event_views(events@) == frame_events(payload@, strict, dt_utc),
{
    let parsed = parse_frame(payload);
    let outcome = match build_record(parsed.groups.as_slice(), strict) {
        Ok(reading) => Event::Record(Record { dt_utc, reading }),
        Err(d) => Event::Diagnostic(d),
    };
    let ghost items = parsed.diagnostics@;
    let mut events: Vec<Event> = Vec::new();
    for d in it: parsed.diagnostics
        invariant
            it.seq() == items,
            event_views(events@) == as_events(diagnostic_views(items.take(it.index() as int))),
    {
        proof {
            let before = as_events(diagnostic_views(items.take(it.index() as int)));
            let after = as_events(diagnostic_views(items.take(it.index() + 1)));
            assert(after =~= before.push(EventView::Diagnostic(d@)));
        }
        events.push(Event::Diagnostic(d));
    }
    assert(items.take(items.len() as int) == items);
    events.push(outcome);
    events
}

/// An unrecoverable fault of the byte source, with what the source said of
/// it. It is the one condition that halts decoding.
#[derive(Debug, PartialEq, Eq)]
pub struct StreamError<E> {
    pub cause: E,
}

/// What one read on the byte source gave.
#[derive(Debug)]
pub enum Read<'a, E> {
    /// These bytes arrived.
    Data(&'a [u8]),
    /// No data was available in time.
    NoData,
    /// The source failed for good.
    Failed(StreamError<E>),
}

/// The state of a decoder.
pub struct DecoderState {
    /// The state of its frame assembler.
    pub frame: FrameState,
    /// Whether a checksum mismatch makes a group unusable.
    pub strict: bool,
}

/// Decodes one stream. Each stream gets a decoder of its own.
#[derive(Debug)]
pub struct Decoder {
    assembler: FrameAssembler,
    strict: bool,
}

impl View for Decoder {
    type V = DecoderState;

    closed spec fn view(&self) -> DecoderState {
        DecoderState { frame: self.assembler@, strict: self.strict }
    }
}

impl Decoder {
    /// A decoder that waits for a start marker.
    ///
    /// Checksums are advisory unless `strict` is set: a mismatch is
    /// reported, and the group is used all the same. With `strict` set, a
    /// group whose checksum does not match gives no usable value.
    pub fn new(strict: bool) -> (d: Decoder)
        ensures
            d@ == (DecoderState { frame: FrameState::Idle, strict }),
    {
        Decoder { assembler: FrameAssembler::new(), strict }
    }

    /// Whether the decoder enforces checksums.
    pub fn is_strict(&self) -> (r: bool)
        ensures
            r == self@.strict,
    {
        self.strict
    }

    /// Whether a frame is open.
    pub fn in_frame(&self) -> (r: bool)
        ensures
            r == (self@.frame is InFrame),
    {
        self.assembler.in_frame()
    }

    /// Takes in the bytes of one read and hands out what they completed.
    ///
    /// A reading is stamped with `dt_utc`, the capture time that the caller
    /// supplies. An empty chunk, which is what a read that timed out
    /// delivers, changes nothing.
    pub fn feed(&mut self, chunk: &[u8], dt_utc: i64) -> (events: Vec<Event>)
        ensures
            final(self)@.strict == old(self)@.strict,
            final(self)@.frame == state_after(old(self)@.frame, chunk@),
            event_views(events@) == events_of(
                old(self)@.frame,
                chunk@,
                old(self)@.strict,
                dt_utc,
            ),
    {
        let ghost start = self@.frame;
        let strict = self.strict;
        let mut events: Vec<Event> = Vec::new();
        let mut i: usize = 0;
        assert(event_views(events@) =~= Seq::empty());
        while i < chunk.len()
            invariant
                i <= chunk.len(),
                self.strict == strict,
                self.assembler@ == state_after(start, chunk@.take(i as int)),
                event_views(events@) == events_of(start, chunk@.take(i as int), strict, dt_utc),
            decreases chunk.len() - i,
        {
            let byte: u8 = chunk[i];
            let ghost before = event_views(events@);
            proof {
                assert(chunk@.take(i + 1).drop_last() == chunk@.take(i as int));
                assert(chunk@.take(i + 1).last() == byte);
            }
            match self.assembler.push(byte) {
                Assembled::Pending => {
                    assert(event_views(events@) =~= before + Seq::empty());
                },
                Assembled::Frame(payload) => {
                    let mut decoded = decode_frame(payload.as_slice(), strict, dt_utc);
                    let ghost added = event_views(decoded@);
                    events.append(&mut decoded);
                    assert(event_views(events@) =~= before + added);
                },
                Assembled::Fault(f) => {
                    events.push(Event::Diagnostic(Diagnostic::Framing(f)));
                    assert(event_views(events@) =~= before + seq![
                        EventView::Diagnostic(DiagnosticView::Framing(f)),
                    ]);
                },
            }
            i += 1;
        }
        assert(chunk@.take(chunk.len() as int) == chunk@);
        events
    }

    /// Takes in what one read on the byte source gave.
    ///
    /// Bytes are decoded as [`Decoder::feed`] does. A read that gave no data
    /// leaves the decoder as it is, waiting for the next byte. A failure of
    /// the source is handed back unchanged: it is not retried here, and it is
    /// the only thing that halts decoding.
    pub fn accept<E>(&mut self, read: Read<'_, E>, dt_utc: i64) -> (r: Result<
        Vec<Event>,
        StreamError<E>,
    >)
        ensures
            final(self)@.strict == old(self)@.strict,
            match read {
                Read::Data(chunk) => r is Ok && final(self)@.frame == state_after(
                    old(self)@.frame,
                    chunk@,
                ) && event_views(r->Ok_0@) == events_of(
                    old(self)@.frame,
                    chunk@,
                    old(self)@.strict,
                    dt_utc,
                ),
                Read::NoData => r is Ok && final(self)@ == old(self)@ && r->Ok_0@.len() == 0,
                Read::Failed(e) => r == Err::<Vec<Event>, StreamError<E>>(e) && final(self)@
                    == old(self)@,
            },
    {
        match read {
            Read::Data(chunk) => Ok(self.feed(chunk, dt_utc)),
            Read::NoData => Ok(Vec::new()),
            Read::Failed(e) => Err(e),
        }
    }

    /// Drops the frame that is open, if any. To be called when the stream
    /// ends: a frame that was never completed gives no diagnostic.
    pub fn reset(&mut self)
        ensures
            final(self)@ == (DecoderState { frame: FrameState::Idle, strict: old(self)@.strict }),
    {
        self.assembler.reset();
    }
}

} // verus!
