//! The chunk reader: where one burst of remote output ends.
//!
//! The reader is a state machine. The host waits for the next byte as the
//! reader asks, with or without the idle timeout, and feeds back what
//! happened. A chunk ends when as many idle signals as the debounce count
//! have come in a row; a byte in between starts the count anew.
//!
//! An idle signal is a read that the idle timeout cut short, or one that the
//! endpoint failed: an endpoint that has closed ends the chunk like one that
//! has fallen silent. Only the wait for the first byte of a full chunk knows
//! no idle signal: it has no timeout, and a failure there fails the read.

use crate::error::EngineError;
use crate::policy::TimingPolicy;
use std::string::FromUtf8Error;
use vstd::prelude::*;
use vstd::utf8::{decode_utf8, valid_utf8};

verus! {

/// `std::string::FromUtf8Error`, the error of `String::from_utf8`. Nothing is
/// known of what it holds.
#[verifier::external_type_specification]
#[verifier::external_body]
pub struct ExFromUtf8Error(std::string::FromUtf8Error);

/// `String::from_utf8`: succeeds exactly on valid UTF-8, and the string then
/// holds the text that the bytes encode.
pub assume_specification[ String::from_utf8 ](bytes: Vec<u8>) -> (text: Result<
    String,
    FromUtf8Error,
>)
    ensures
        text is Ok <==> valid_utf8(bytes@),
        text matches Ok(s) ==> s@ == decode_utf8(bytes@),
;

/// What one attempt to read a byte brought.
#[derive(Clone, Copy, Debug, PartialEq, Eq, Structural)]
pub enum ReadEvent {
    /// The endpoint produced this byte.
    Byte(u8),
    /// The idle timeout passed without a byte.
    TimedOut,
    /// The endpoint reported a failure.
    Failed,
}

/// How the host is to wait for the next byte.
#[derive(Clone, Copy, Debug, PartialEq, Eq, Structural)]
pub enum ReadRequest {
    /// Wait for a byte however long it takes.
    Untimed,
    /// Wait for a byte no longer than the idle timeout.
    Timed,
}

/// The reader as a mathematical value.
pub struct ReaderState {
    /// The bytes received so far.
    pub bytes: Seq<u8>,
    /// The idle signals received since the last byte.
    pub idle_hits: nat,
    /// The idle signals in a row that end the chunk.
    pub debounce: nat,
    /// Whether the chunk starts with a byte that is awaited without timeout.
    pub full: bool,
}

/// A step of the reader as a mathematical value.
pub enum StepView {
    /// The chunk goes on.
    Pending(ReaderState),
    /// The chunk has ended, with its text or with an error.
    Done(Result<Seq<char>, EngineError>),
}

impl ReaderState {
    /// The reader of a full chunk, before anything has arrived.
    pub open spec fn full(debounce: nat) -> ReaderState {
        ReaderState { bytes: Seq::empty(), idle_hits: 0, debounce, full: true }
    }

    /// The reader that drains what the endpoint still has to say.
    pub open spec fn drain(debounce: nat) -> ReaderState {
        ReaderState { bytes: Seq::empty(), idle_hits: 0, debounce, full: false }
    }

    /// The reader is waiting for the first byte of a full chunk.
    pub open spec fn awaits_first(self) -> bool {
        self.full && self.bytes.len() == 0
    }

    /// How the host is to wait for the next byte.
    pub open spec fn request(self) -> ReadRequest {
        if self.awaits_first() {
            ReadRequest::Untimed
        } else {
            ReadRequest::Timed
        }
    }

    /// The reader after one more idle signal.
    pub open spec fn idle(self) -> StepView {
        if self.idle_hits + 1 >= self.debounce {
            StepView::Done(decoded(self.bytes))
        } else {
            StepView::Pending(ReaderState { idle_hits: self.idle_hits + 1, ..self })
        }
    }

    /// The reader after the events of `events`, one after the other. Once the
    /// chunk has ended, further events change nothing.
    pub open spec fn run(self, events: Seq<ReadEvent>) -> StepView
        decreases events.len(),
    {
        if events.len() == 0 {
            StepView::Pending(self)
        } else {
            match self.run(events.drop_last()) {
                StepView::Pending(reader) => reader.feed(events.last()),
                StepView::Done(result) => StepView::Done(result),
            }
        }
    }

    /// The reader after `event`.
    pub open spec fn feed(self, event: ReadEvent) -> StepView {
        match event {
            ReadEvent::Byte(b) => StepView::Pending(
                ReaderState { bytes: self.bytes.push(b), idle_hits: 0, ..self },
            ),
            ReadEvent::TimedOut => if self.awaits_first() {
                StepView::Pending(self)
            } else {
                self.idle()
            },
            ReadEvent::Failed => if self.awaits_first() {
                StepView::Done(Err(EngineError::Transport))
            } else {
                self.idle()
            },
        }
    }
}

/// The text that `bytes` encode, or the decoding error.
pub open spec fn decoded(bytes: Seq<u8>) -> Result<Seq<char>, EngineError> {
    if valid_utf8(bytes) {
        Ok(decode_utf8(bytes))
    } else {
        Err(EngineError::InvalidUtf8)
    }
}

/// Decodes the bytes of a chunk.
pub fn decode(bytes: Vec<u8>) -> (text: Result<String, EngineError>)
    ensures
        text is Ok <==> valid_utf8(bytes@),
        text matches Ok(s) ==> s@ == decode_utf8(bytes@),
        text matches Err(e) ==> e == EngineError::InvalidUtf8,
{
    match String::from_utf8(bytes) {
        Ok(s) => Ok(s),
        Err(_) => Err(EngineError::InvalidUtf8),
    }
}

/// A chunk that is being read.
pub struct ChunkReader {
    buf: Vec<u8>,
    idle_hits: usize,
    debounce: usize,
    full: bool,
}

/// What a reader has become after an event.
pub enum ReadStep {
    /// The chunk goes on: ask the reader how to wait, and feed it again.
    Pending(ChunkReader),
    /// The chunk has ended.
    Done(Result<String, EngineError>),
}

impl View for ChunkReader {
    type V = ReaderState;

    closed spec fn view(&self) -> ReaderState {
        ReaderState {
            bytes: self.buf@,
            idle_hits: self.idle_hits as nat,
            debounce: self.debounce as nat,
            full: self.full,
        }
    }
}

impl View for ReadStep {
    type V = StepView;

    open spec fn view(&self) -> StepView {
        match self {
            ReadStep::Pending(reader) => StepView::Pending(reader@),
            ReadStep::Done(Ok(text)) => StepView::Done(Ok(text@)),
            ReadStep::Done(Err(e)) => StepView::Done(Err(*e)),
        }
    }
}

impl ChunkReader {
    #[verifier::type_invariant]
    spec fn well_formed(self) -> bool {
        self.idle_hits < self.debounce
    }

    /// A reader for a full chunk: the first byte is awaited without timeout.
    pub fn full(policy: &TimingPolicy) -> (reader: ChunkReader)
        ensures
            reader@ == ReaderState::full(policy.count()),
    {
        ChunkReader { buf: Vec::new(), idle_hits: 0, debounce: policy.debounce(), full: true }
    }

    /// A reader that drains the endpoint: every byte is awaited under the
    /// idle timeout, and the chunk may come out empty.
    pub fn drain(policy: &TimingPolicy) -> (reader: ChunkReader)
        ensures
            reader@ == ReaderState::drain(policy.count()),
    {
        ChunkReader { buf: Vec::new(), idle_hits: 0, debounce: policy.debounce(), full: false }
    }

    /// How the host is to wait for the next byte.
    pub fn request(&self) -> (request: ReadRequest)
        ensures
            request == self@.request(),
    {
        if self.full && self.buf.len() == 0 {
            ReadRequest::Untimed
        } else {
            ReadRequest::Timed
        }
    }

    /// Takes in what the last read brought.
    pub fn feed(self, event: ReadEvent) -> (step: ReadStep)
        ensures
            step@ == self@.feed(event),
            self@.full ==> (step matches ReadStep::Done(Ok(text)) ==> text@.len() >= 1),
    {
        proof {
            use_type_invariant(&self);
            if self@.full {
                lemma_full_chunk_has_text(self@, event);
            }
        }
        let ChunkReader { buf, idle_hits, debounce, full } = self;
        let mut buf = buf;
        match event {
            ReadEvent::Byte(b) => {
                buf.push(b);
                ReadStep::Pending(ChunkReader { buf, idle_hits: 0, debounce, full })
            },
            ReadEvent::TimedOut | ReadEvent::Failed => {
                if full && buf.len() == 0 {
                    match event {
                        ReadEvent::Failed => ReadStep::Done(Err(EngineError::Transport)),
                        _ => ReadStep::Pending(ChunkReader { buf, idle_hits, debounce, full }),
                    }
                } else if idle_hits + 1 >= debounce {
                    ReadStep::Done(decode(buf))
                } else {
                    ReadStep::Pending(ChunkReader { buf, idle_hits: idle_hits + 1, debounce, full })
                }
            },
        }
    }
}

/// The bytes among `events`, in the order in which they came.
pub open spec fn arrived(events: Seq<ReadEvent>) -> Seq<u8>
    decreases events.len(),
{
    if events.len() == 0 {
        Seq::empty()
    } else {
        match events.last() {
            ReadEvent::Byte(b) => arrived(events.drop_last()).push(b),
            _ => arrived(events.drop_last()),
        }
    }
}

/// The number of idle signals, timeouts and failures alike, at the end of
/// `events`.
pub open spec fn trailing_idle(events: Seq<ReadEvent>) -> nat
    decreases events.len(),
{
    if events.len() == 0 {
        0
    } else {
        match events.last() {
            ReadEvent::Byte(_) => 0,
            _ => trailing_idle(events.drop_last()) + 1,
        }
    }
}

/// No part of `events` holds `debounce` idle signals in a row.
pub open spec fn calm(events: Seq<ReadEvent>, debounce: nat) -> bool {
    forall|k: int| 0 <= k <= events.len() ==> #[trigger] trailing_idle(events.take(k)) < debounce
}

/// `events` holds idle signals only.
pub open spec fn silent(events: Seq<ReadEvent>) -> bool {
    forall|i: int| 0 <= i < events.len() ==> !(#[trigger] events[i] is Byte)
}

/// A non-empty chunk decodes to a non-empty text.
pub proof fn lemma_decoded_text_is_not_empty(bytes: Seq<u8>)
    requires
        valid_utf8(bytes),
        bytes.len() > 0,
    ensures
        decode_utf8(bytes).len() >= 1,
{
}

/// A full chunk never ends with an empty text: whenever the reader of a
/// full chunk ends the chunk successfully, the text has a character.
pub proof fn lemma_full_chunk_has_text(reader: ReaderState, event: ReadEvent)
    requires
        reader.full,
    ensures
        reader.feed(event) matches StepView::Done(Ok(text)) ==> text.len() >= 1,
{
    if reader.feed(event) matches StepView::Done(Ok(text)) {
        assert(!reader.awaits_first());
        lemma_decoded_text_is_not_empty(reader.bytes);
    }
}

/// Running a reader over `first` and then `second` is running it over
/// `first` and, if the chunk has not ended, going on over `second`.
pub proof fn lemma_run_in_two_parts(
    reader: ReaderState,
    first: Seq<ReadEvent>,
    second: Seq<ReadEvent>,
)
    ensures
        reader.run(first + second) == (match reader.run(first) {
            StepView::Pending(next) => next.run(second),
            StepView::Done(result) => StepView::Done(result),
        }),
    decreases second.len(),
{
    if second.len() == 0 {
        assert(first + second == first);
    } else {
        lemma_run_in_two_parts(reader, first, second.drop_last());
        assert((first + second).drop_last() == first + second.drop_last());
        assert((first + second).last() == second.last());
    }
}

/// A reader that is past the wait for a first byte, and has counted no idle
/// signal, goes on reading while no `debounce` idle signals come in a row: it
/// adds every byte that arrives to what it holds.
proof fn lemma_keeps_reading(start: ReaderState, events: Seq<ReadEvent>)
    requires
        !start.awaits_first(),
        start.idle_hits == 0,
        calm(events, start.debounce),
    ensures
        start.run(events) == StepView::Pending(
            ReaderState {
                bytes: start.bytes + arrived(events),
                idle_hits: trailing_idle(events),
                ..start
            },
        ),
    decreases events.len(),
{
    if events.len() > 0 {
        let before = events.drop_last();
        assert forall|k: int| 0 <= k <= before.len() implies #[trigger] trailing_idle(
            before.take(k),
        ) < start.debounce by {
            assert(before.take(k) == events.take(k));
        }
        lemma_keeps_reading(start, before);
        assert(events.take(events.len() as int) == events);
        match events.last() {
            ReadEvent::Byte(b) => {
                assert((start.bytes + arrived(before)).push(b) == start.bytes + arrived(events));
            },
            _ => {},
        }
    } else {
        assert(events.take(0) == events);
        assert(start.bytes + arrived(events) == start.bytes);
    }
}

/// Such a reader ends the chunk, with all it holds by then, at the idle
/// signal that completes a run of `debounce`.
proof fn lemma_reads_through_silence(
    start: ReaderState,
    events: Seq<ReadEvent>,
    silence: Seq<ReadEvent>,
    upto: nat,
)
    requires
        !start.awaits_first(),
        start.idle_hits == 0,
        calm(events, start.debounce),
        silent(silence),
        upto <= silence.len(),
    ensures
        start.run(events + silence.take(upto as int)) == (if trailing_idle(events) + upto
            < start.debounce {
            StepView::Pending(
                ReaderState {
                    bytes: start.bytes + arrived(events),
                    idle_hits: trailing_idle(events) + upto,
                    ..start
                },
            )
        } else {
            StepView::Done(decoded(start.bytes + arrived(events)))
        }),
    decreases upto,
{
    if upto == 0 {
        assert(events + silence.take(0) == events);
        lemma_keeps_reading(start, events);
        assert(events.take(events.len() as int) == events);
    } else {
        let shorter = events + silence.take(upto - 1);
        let longer = events + silence.take(upto as int);
        lemma_reads_through_silence(start, events, silence, (upto - 1) as nat);
        assert(longer.drop_last() == shorter);
        assert(longer.last() == silence[upto - 1]);
        assert(events.take(events.len() as int) == events);
    }
}

/// While no `debounce` idle signals have come in a row, a draining reader
/// is still reading, it holds every byte that has arrived, and it has
/// counted the idle signals since the last byte.
pub proof fn lemma_drain_keeps_reading(events: Seq<ReadEvent>, debounce: nat)
    requires
        calm(events, debounce),
    ensures
        ReaderState::drain(debounce).run(events) == StepView::Pending(
            ReaderState {
                bytes: arrived(events),
                idle_hits: trailing_idle(events),
                debounce,
                full: false,
            },
        ),
{
    lemma_keeps_reading(ReaderState::drain(debounce), events);
    assert(Seq::<u8>::empty() + arrived(events) == arrived(events));
}

/// The boundary: when `debounce` idle signals follow events that held no
/// such run, a draining reader ends the chunk with every byte that arrived
/// before them, decoded as UTF-8.
pub proof fn lemma_drain_returns_all_bytes(
    events: Seq<ReadEvent>,
    silence: Seq<ReadEvent>,
    debounce: nat,
)
    requires
        debounce >= 1,
        calm(events, debounce),
        silent(silence),
        silence.len() == debounce,
    ensures
        ReaderState::drain(debounce).run(events + silence) == StepView::Done(
            decoded(arrived(events)),
        ),
{
    lemma_reads_through_silence(ReaderState::drain(debounce), events, silence, debounce);
    assert(silence.take(debounce as int) == silence);
    assert(Seq::<u8>::empty() + arrived(events) == arrived(events));
}

/// A full chunk is its first byte and then a drain. However many timeouts
/// the reader of a full chunk is fed while it waits, once the first byte has
/// come it reads on as a draining reader does, and ends the chunk at the
/// boundary with the first byte and every byte that arrived after it.
pub proof fn lemma_full_chunk_returns_all_bytes(
    waiting: Seq<ReadEvent>,
    first: u8,
    events: Seq<ReadEvent>,
    silence: Seq<ReadEvent>,
    debounce: nat,
)
    requires
        debounce >= 1,
        forall|i: int| 0 <= i < waiting.len() ==> waiting[i] == ReadEvent::TimedOut,
        calm(events, debounce),
        silent(silence),
        silence.len() == debounce,
    ensures
        ReaderState::full(debounce).run(waiting.push(ReadEvent::Byte(first)) + events + silence)
            == StepView::Done(decoded(seq![first] + arrived(events))),
{
    let started = ReaderState { bytes: seq![first], ..ReaderState::full(debounce) };
    let lead = waiting.push(ReadEvent::Byte(first));
    lemma_full_chunk_waits_for_first_byte(waiting, debounce);
    assert(lead.drop_last() == waiting);
    assert(Seq::<u8>::empty().push(first) == seq![first]);
    assert(ReaderState::full(debounce).run(lead) == StepView::Pending(started));
    assert(lead + events + silence == lead + (events + silence));
    lemma_run_in_two_parts(ReaderState::full(debounce), lead, events + silence);
    lemma_reads_through_silence(started, events, silence, debounce);
    assert(silence.take(debounce as int) == silence);
}

/// A full chunk waits for its first byte: however many timeouts are fed to
/// the reader of a full chunk, it goes on waiting, with nothing read.
pub proof fn lemma_full_chunk_waits_for_first_byte(events: Seq<ReadEvent>, debounce: nat)
    requires
        forall|i: int| 0 <= i < events.len() ==> events[i] == ReadEvent::TimedOut,
    ensures
        ReaderState::full(debounce).run(events) == StepView::Pending(ReaderState::full(debounce)),
    decreases events.len(),
{
    if events.len() > 0 {
        lemma_full_chunk_waits_for_first_byte(events.drop_last(), debounce);
    }
}

/// Whatever the events, a full chunk that ends successfully has a text of
/// at least one character.
pub proof fn lemma_full_run_has_text(events: Seq<ReadEvent>, debounce: nat)
    ensures
        ReaderState::full(debounce).run(events) matches StepView::Done(Ok(text)) ==> text.len()
            >= 1,
        ReaderState::full(debounce).run(events) matches StepView::Pending(reader) ==> reader.full,
    decreases events.len(),
{
    if events.len() > 0 {
        lemma_full_run_has_text(events.drop_last(), debounce);
        match ReaderState::full(debounce).run(events.drop_last()) {
            StepView::Pending(reader) => {
                lemma_full_chunk_has_text(reader, events.last());
            },
            StepView::Done(_) => {},
        }
    }
}

} // verus!
