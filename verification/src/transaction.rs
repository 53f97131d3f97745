//! The transaction driver: a scripted exchange with the endpoint.
//!
//! For each payload of the plan the driver waits for a chunk of remote
//! output, has it written to the local sink, and has the payload written to
//! the endpoint and, with a line terminator, to the local sink. When the plan
//! is exhausted it drains what the endpoint still has to say. Every chunk is
//! offered line by line to the consumer, if there is one.
//!
//! The driver is a state machine and does nothing by itself: the host gives
//! it an event, performs the action it answers with, and reports what came of
//! it as the next event.

use crate::chunk::{ChunkReader, ReadEvent, ReadRequest, ReadStep, ReaderState, StepView};
use crate::error::EngineError;
use crate::fanout::FanOut;
use crate::lines::split_lines;
use crate::policy::TimingPolicy;
use tokio::sync::mpsc::UnboundedReceiver;
use vstd::prelude::*;

verus! {

/// What the host reports to the driver.
#[derive(Clone, Copy, Debug, PartialEq, Eq, Structural)]
pub enum Event {
    /// The host is ready to run the transaction.
    Start,
    /// What the read that the driver asked for brought.
    Read(ReadEvent),
    /// The write of a chunk to the local sink has ended.
    Echoed { ok: bool },
    /// Both writes of a payload have ended: the one to the endpoint and the
    /// one to the local sink.
    Sent { remote_ok: bool, echo_ok: bool },
}

/// What the driver asks of the host.
#[derive(Debug, PartialEq, Eq)]
pub enum Action {
    /// Wait for the next byte of the endpoint, and report it with
    /// `Event::Read`.
    Read(ReadRequest),
    /// Write this chunk to the local sink, and report with `Event::Echoed`.
    Echo(String),
    /// Write `payload` to the endpoint and `echo` to the local sink, the two
    /// side by side, and report with `Event::Sent` when both have ended.
    Send { payload: Vec<u8>, echo: Vec<u8> },
    /// The transaction is over.
    Finish(Result<(), EngineError>),
}

/// An action as a mathematical value.
pub enum ActionView {
    Read(ReadRequest),
    Echo(Seq<char>),
    Send { payload: Seq<u8>, echo: Seq<u8> },
    Finish(Result<(), EngineError>),
}

impl View for Action {
    type V = ActionView;

    open spec fn view(&self) -> ActionView {
        match self {
            Action::Read(request) => ActionView::Read(*request),
            Action::Echo(text) => ActionView::Echo(text@),
            Action::Send { payload, echo } => ActionView::Send { payload: payload@, echo: echo@ },
            Action::Finish(outcome) => ActionView::Finish(*outcome),
        }
    }
}

/// Where a transaction stands, as a mathematical value.
pub enum PhaseView {
    /// Nothing has been done yet.
    Cold,
    /// A chunk is being read.
    Reading(ReaderState),
    /// A chunk is being written to the local sink.
    Echoing,
    /// A payload is being written to the endpoint and to the local sink.
    Sending,
    /// The transaction is over, with this outcome.
    Finished(Result<(), EngineError>),
}

/// A transaction as a mathematical value.
pub struct TxState {
    /// The payloads to send, in order.
    pub plan: Seq<Seq<u8>>,
    /// How many payloads have been sent.
    pub sent: nat,
    /// The debounce count of the endpoint.
    pub debounce: nat,
    /// Whether lines are offered to a consumer.
    pub consumer: bool,
    /// Where the transaction stands.
    pub phase: PhaseView,
}

/// The line terminator.
pub const LINE_TERMINATOR: u8 = 10;

impl TxState {
    /// A transaction on which no work has been done.
    pub open spec fn cold(plan: Seq<Seq<u8>>, debounce: nat, consumer: bool) -> TxState {
        TxState { plan, sent: 0, debounce, consumer, phase: PhaseView::Cold }
    }

    /// This transaction with `sent` payloads sent.
    pub open spec fn at(self, sent: nat) -> TxState {
        TxState { sent, ..self }
    }

    /// The reader for the next chunk: a full chunk before each payload, a
    /// drain once the plan is exhausted.
    pub open spec fn next_reader(self) -> ReaderState {
        if self.sent < self.plan.len() {
            ReaderState::full(self.debounce)
        } else {
            ReaderState::drain(self.debounce)
        }
    }

    /// The transaction turns to reading the next chunk.
    pub open spec fn read_next(self) -> (TxState, ActionView) {
        (
            TxState { phase: PhaseView::Reading(self.next_reader()), ..self },
            ActionView::Read(self.next_reader().request()),
        )
    }

    /// The transaction ends with `outcome`.
    pub open spec fn finish(self, outcome: Result<(), EngineError>) -> (TxState, ActionView) {
        (TxState { phase: PhaseView::Finished(outcome), ..self }, ActionView::Finish(outcome))
    }

    /// The transaction after `event`, and the action it asks for.
    ///
    /// An event that does not answer the pending action ends the transaction
    /// with `EngineError::OutOfTurn`. A finished transaction answers every
    /// event with its outcome.
    pub open spec fn step(self, event: Event) -> (TxState, ActionView) {
        match (self.phase, event) {
            (PhaseView::Finished(outcome), _) => self.finish(outcome),
            (PhaseView::Cold, Event::Start) => self.read_next(),
            (PhaseView::Reading(reader), Event::Read(read)) => match reader.feed(read) {
                StepView::Pending(next) => (
                    TxState { phase: PhaseView::Reading(next), ..self },
                    ActionView::Read(next.request()),
                ),
                StepView::Done(Ok(text)) => (
                    TxState { phase: PhaseView::Echoing, ..self },
                    ActionView::Echo(text),
                ),
                StepView::Done(Err(e)) => self.finish(Err(e)),
            },
            (PhaseView::Echoing, Event::Echoed { ok }) => if !ok {
                self.finish(Err(EngineError::LocalSink))
            } else if self.sent < self.plan.len() {
                (
                    TxState { phase: PhaseView::Sending, ..self },
                    ActionView::Send {
                        payload: self.plan[self.sent as int],
                        echo: self.plan[self.sent as int].push(LINE_TERMINATOR),
                    },
                )
            } else {
                self.finish(Ok(()))
            },
            (PhaseView::Sending, Event::Sent { remote_ok, echo_ok }) => if !remote_ok {
                self.finish(Err(EngineError::Transport))
            } else if !echo_ok {
                self.finish(Err(EngineError::LocalSink))
            } else {
                TxState { sent: self.sent + 1, ..self }.read_next()
            },
            _ => self.finish(Err(EngineError::OutOfTurn)),
        }
    }

    /// The transaction after `events`, and the actions it asked for, one for
    /// each event.
    pub open spec fn run(self, events: Seq<Event>) -> (TxState, Seq<ActionView>)
        decreases events.len(),
    {
        if events.len() == 0 {
            (self, Seq::empty())
        } else {
            let (before, actions) = self.run(events.drop_last());
            let (after, action) = before.step(events.last());
            (after, actions.push(action))
        }
    }
}

/// The payloads that a plan holds.
pub open spec fn payloads(plan: Seq<Vec<u8>>) -> Seq<Seq<u8>> {
    Seq::new(plan.len(), |i: int| plan[i]@)
}

/// `after` is `before` and then some of the lines of `text`: the first few,
/// in order.
pub open spec fn offered(before: Seq<Seq<char>>, after: Seq<Seq<char>>, text: Seq<char>) -> bool {
    exists|count: int|
        0 <= count <= split_lines(text).len() && after == before + #[trigger] split_lines(
            text,
        ).take(count)
}

enum Phase {
    Cold,
    Reading(ChunkReader),
    Echoing,
    Sending,
    Finished(Result<(), EngineError>),
}

impl View for Phase {
    type V = PhaseView;

    closed spec fn view(&self) -> PhaseView {
        match self {
            Phase::Cold => PhaseView::Cold,
            Phase::Reading(reader) => PhaseView::Reading(reader@),
            Phase::Echoing => PhaseView::Echoing,
            Phase::Sending => PhaseView::Sending,
            Phase::Finished(outcome) => PhaseView::Finished(*outcome),
        }
    }
}

/// A transaction: the plan, how far it has come, and the consumer's queue.
pub struct Transaction {
    plan: Vec<Vec<u8>>,
    sent: usize,
    policy: TimingPolicy,
    sink: Option<FanOut>,
    phase: Phase,
}

impl View for Transaction {
    type V = TxState;

    closed spec fn view(&self) -> TxState {
        TxState {
            plan: payloads(self.plan@),
            sent: self.sent as nat,
            debounce: self.policy.count(),
            consumer: self.sink is Some,
            phase: self.phase@,
        }
    }
}

/// A copy of `payload` with a line terminator after it.
fn terminated(payload: &Vec<u8>) -> (echo: Vec<u8>)
    ensures
        echo@ == payload@.push(LINE_TERMINATOR),
{
    let mut echo = payload.clone();
    echo.push(LINE_TERMINATOR);
    echo
}

impl Transaction {
    #[verifier::type_invariant]
    spec fn well_formed(self) -> bool {
        &&& self.sent <= self.plan.len()
        &&& self.phase is Sending ==> self.sent < self.plan.len()
    }

    /// The lines that the consumer's queue has accepted so far, oldest
    /// first; none where there is no consumer.
    pub closed spec fn delivered(&self) -> Seq<Seq<char>> {
        match self.sink {
            Some(sink) => sink.delivered(),
            None => Seq::empty(),
        }
    }

    /// A transaction without a consumer. It is cold: nothing happens until
    /// the host reports `Event::Start`.
    pub fn new(plan: Vec<Vec<u8>>, policy: TimingPolicy) -> (transaction: Transaction)
        ensures
            transaction@ == TxState::cold(payloads(plan@), policy.count(), false),
            transaction.delivered() == Seq::<Seq<char>>::empty(),
    {
        Transaction { plan, sent: 0, policy, sink: None, phase: Phase::Cold }
    }

    /// A transaction whose chunks are offered, line by line, to a consumer,
    /// and the handle with which the consumer reads them. The handle is
    /// there at once; the transaction is cold, and nothing happens until the
    /// host reports `Event::Start`.
    pub fn with_channel(plan: Vec<Vec<u8>>, policy: TimingPolicy) -> (ends: (
        UnboundedReceiver<String>,
        Transaction,
    ))
        ensures
            ends.1@ == TxState::cold(payloads(plan@), policy.count(), true),
            ends.1.delivered() == Seq::<Seq<char>>::empty(),
    {
        let (sink, receiver) = FanOut::channel();
        (receiver, Transaction { plan, sent: 0, policy, sink: Some(sink), phase: Phase::Cold })
    }

    /// Takes in `event` and answers with the action that the host is to
    /// perform next.
    ///
    /// The transaction and the action are those of `TxState::step`: the
    /// consumer has no say in them. When a chunk has been read, its lines
    /// have been offered to the consumer by the time the action to echo it
    /// is returned.
    pub fn step(self, event: Event) -> (next: (Transaction, Action))
        ensures
            (next.0@, next.1@) == self@.step(event),
            match next.1@ {
                ActionView::Echo(text) => offered(self.delivered(), next.0.delivered(), text),
                _ => next.0.delivered() == self.delivered(),
            },
    {
        proof {
            use_type_invariant(&self);
        }
        let Transaction { plan, sent, policy, sink, phase } = self;
        let mut sink = sink;
        match phase {
            Phase::Finished(outcome) => (
                Transaction { plan, sent, policy, sink, phase: Phase::Finished(outcome) },
                Action::Finish(outcome),
            ),
            Phase::Cold => match event {
                Event::Start => Self::read_next(plan, sent, policy, sink),
                _ => Self::finish(plan, sent, policy, sink, Err(EngineError::OutOfTurn)),
            },
            Phase::Reading(reader) => match event {
                Event::Read(read) => match reader.feed(read) {
                    ReadStep::Pending(reader) => {
                        let request = reader.request();
                        (
                            Transaction { plan, sent, policy, sink, phase: Phase::Reading(reader) },
                            Action::Read(request),
                        )
                    },
                    ReadStep::Done(Ok(text)) => {
                        let ghost before = self.delivered();
                        match &mut sink {
                            Some(fan_out) => {
                                let _ = fan_out.forward(text.as_str());
                            },
                            None => {
                                assert(before + split_lines(text@).take(0) == before);
                            },
                        }
                        (
                            Transaction { plan, sent, policy, sink, phase: Phase::Echoing },
                            Action::Echo(text),
                        )
                    },
                    ReadStep::Done(Err(e)) => Self::finish(plan, sent, policy, sink, Err(e)),
                },
                _ => Self::finish(plan, sent, policy, sink, Err(EngineError::OutOfTurn)),
            },
            Phase::Echoing => match event {
                Event::Echoed { ok } => {
                    if !ok {
                        Self::finish(plan, sent, policy, sink, Err(EngineError::LocalSink))
                    } else if sent < plan.len() {
                        let payload = plan[sent].clone();
                        let echo = terminated(&plan[sent]);
                        (
                            Transaction { plan, sent, policy, sink, phase: Phase::Sending },
                            Action::Send { payload, echo },
                        )
                    } else {
                        Self::finish(plan, sent, policy, sink, Ok(()))
                    }
                },
                _ => Self::finish(plan, sent, policy, sink, Err(EngineError::OutOfTurn)),
            },
            Phase::Sending => match event {
                Event::Sent { remote_ok, echo_ok } => {
                    if !remote_ok {
                        Self::finish(plan, sent, policy, sink, Err(EngineError::Transport))
                    } else if !echo_ok {
                        Self::finish(plan, sent, policy, sink, Err(EngineError::LocalSink))
                    } else {
                        Self::read_next(plan, sent + 1, policy, sink)
                    }
                },
                _ => Self::finish(plan, sent, policy, sink, Err(EngineError::OutOfTurn)),
            },
        }
    }

    fn read_next(
        plan: Vec<Vec<u8>>,
        sent: usize,
        policy: TimingPolicy,
        sink: Option<FanOut>,
    ) -> (next: (Transaction, Action))
        requires
            sent <= plan.len(),
        ensures
            (next.0@, next.1@) == TxState::cold(
                payloads(plan@),
                policy.count(),
                sink is Some,
            ).at(sent as nat).read_next(),
            next.0.sink == sink,
    {
        let reader = if sent < plan.len() {
            ChunkReader::full(&policy)
        } else {
            ChunkReader::drain(&policy)
        };
        let request = reader.request();
        (
            Transaction { plan, sent, policy, sink, phase: Phase::Reading(reader) },
            Action::Read(request),
        )
    }

    fn finish(
        plan: Vec<Vec<u8>>,
        sent: usize,
        policy: TimingPolicy,
        sink: Option<FanOut>,
        outcome: Result<(), EngineError>,
    ) -> (next: (Transaction, Action))
        requires
            sent <= plan.len(),
        ensures
            (next.0@, next.1@) == TxState::cold(
                payloads(plan@),
                policy.count(),
                sink is Some,
            ).at(sent as nat).finish(outcome),
            next.0.sink == sink,
    {
        (
            Transaction { plan, sent, policy, sink, phase: Phase::Finished(outcome) },
            Action::Finish(outcome),
        )
    }
}

/// The actions among `actions` that write to the local sink, in order: the
/// echo of a chunk that was received and the sending of a payload.
pub open spec fn sink_writes(actions: Seq<ActionView>) -> Seq<ActionView>
    decreases actions.len(),
{
    if actions.len() == 0 {
        Seq::empty()
    } else {
        let before = sink_writes(actions.drop_last());
        match actions.last() {
            ActionView::Echo(_) => before.push(actions.last()),
            ActionView::Send { .. } => before.push(actions.last()),
            _ => before,
        }
    }
}

/// `writes` takes turns: a received chunk, a sent payload, a received
/// chunk and so on, and the payloads are those of `plan`, in order, each
/// echoed with a line terminator after it.
pub open spec fn takes_turns(writes: Seq<ActionView>, plan: Seq<Seq<u8>>) -> bool {
    forall|i: int|
        0 <= i < writes.len() ==> if i % 2 == 0 {
            #[trigger] writes[i] is Echo
        } else {
            i / 2 < plan.len() && writes[i] == (ActionView::Send {
                payload: plan[i / 2],
                echo: plan[i / 2].push(LINE_TERMINATOR),
            })
        }
}

/// How many writes the local sink has seen when a transaction stands at
/// `state`; `None` where the transaction has failed.
spec fn writes_at(state: TxState) -> Option<nat> {
    match state.phase {
        PhaseView::Cold => Some(0),
        PhaseView::Reading(_) => Some(2 * state.sent),
        PhaseView::Echoing => Some(2 * state.sent + 1),
        PhaseView::Sending => Some(2 * state.sent + 2),
        PhaseView::Finished(Ok(_)) => Some(2 * state.plan.len() + 1),
        PhaseView::Finished(Err(_)) => None,
    }
}

proof fn lemma_run_keeps_turns(start: TxState, events: Seq<Event>)
    requires
        start.phase is Cold,
        start.sent == 0,
    ensures
        ({
            let (end, actions) = start.run(events);
            &&& end.plan == start.plan
            &&& end.sent <= end.plan.len()
            &&& end.phase is Cold ==> end.sent == 0
            &&& end.phase is Sending ==> end.sent < end.plan.len()
            &&& takes_turns(sink_writes(actions), start.plan)
            &&& writes_at(end) matches Some(count) ==> sink_writes(actions).len() == count
        }),
    decreases events.len(),
{
    if events.len() > 0 {
        lemma_run_keeps_turns(start, events.drop_last());
        let (before, earlier) = start.run(events.drop_last());
        let (end, action) = before.step(events.last());
        let actions = earlier.push(action);
        assert(actions.drop_last() == earlier);
        assert(start.run(events) == (end, actions));
    }
}

/// The local sink sees the turns of a transaction in order. Whatever the
/// host reports, the writes to the local sink alternate, beginning with a
/// received chunk, and the payloads among them are those of the plan, in
/// order. A transaction of `k` payloads that has ended well has made
/// `2k + 1` of them: `k + 1` received chunks with `k` sent payloads between
/// them.
pub proof fn lemma_sink_sees_turns_in_order(
    plan: Seq<Seq<u8>>,
    debounce: nat,
    consumer: bool,
    events: Seq<Event>,
)
    ensures
        ({
            let (end, actions) = TxState::cold(plan, debounce, consumer).run(events);
            &&& takes_turns(sink_writes(actions), plan)
            &&& end.phase == PhaseView::Finished(Ok(())) ==> sink_writes(actions).len() == 2
                * plan.len() + 1
        }),
{
    lemma_run_keeps_turns(TxState::cold(plan, debounce, consumer), events);
}

/// `actions` keeps to the sequence of a transaction: a chunk is echoed only
/// after a read, a payload is sent only after the echo of the chunk before
/// it, and a read follows only the start, another read, or the sending of a
/// payload.
pub open spec fn in_sequence(actions: Seq<ActionView>) -> bool {
    forall|i: int|
        0 <= i < actions.len() ==> match #[trigger] actions[i] {
            ActionView::Read(_) => i == 0 || actions[i - 1] is Read || actions[i - 1] is Send,
            ActionView::Echo(_) => i > 0 && actions[i - 1] is Read,
            ActionView::Send { .. } => i > 0 && actions[i - 1] is Echo,
            ActionView::Finish(_) => true,
        }
}

/// The action that a transaction in `phase` has asked for last.
spec fn asked_last(phase: PhaseView, actions: Seq<ActionView>) -> bool {
    match phase {
        PhaseView::Cold => actions.len() == 0,
        PhaseView::Reading(_) => actions.len() > 0 && actions.last() is Read,
        PhaseView::Echoing => actions.len() > 0 && actions.last() is Echo,
        PhaseView::Sending => actions.len() > 0 && actions.last() is Send,
        PhaseView::Finished(_) => actions.len() > 0 && actions.last() is Finish,
    }
}

proof fn lemma_run_keeps_sequence(start: TxState, events: Seq<Event>)
    requires
        start.phase is Cold,
    ensures
        in_sequence(start.run(events).1),
        asked_last(start.run(events).0.phase, start.run(events).1),
    decreases events.len(),
{
    if events.len() > 0 {
        lemma_run_keeps_sequence(start, events.drop_last());
        let (before, earlier) = start.run(events.drop_last());
        let (end, action) = before.step(events.last());
        let actions = earlier.push(action);
        assert(start.run(events) == (end, actions));
        assert forall|i: int| 0 <= i < actions.len() implies match #[trigger] actions[i] {
            ActionView::Read(_) => i == 0 || actions[i - 1] is Read || actions[i - 1] is Send,
            ActionView::Echo(_) => i > 0 && actions[i - 1] is Read,
            ActionView::Send { .. } => i > 0 && actions[i - 1] is Echo,
            ActionView::Finish(_) => true,
        } by {
            if i < earlier.len() {
                assert(actions[i] == earlier[i]);
                if i > 0 {
                    assert(actions[i - 1] == earlier[i - 1]);
                }
            }
        }
    }
}

/// Reads and writes are strictly sequenced. Whatever the host reports, a
/// transaction never asks to send a payload before the chunk before it has
/// been read and echoed, and never asks for the next read before both writes
/// of the payload before it have ended.
pub proof fn lemma_reads_and_writes_in_sequence(
    plan: Seq<Seq<u8>>,
    debounce: nat,
    consumer: bool,
    events: Seq<Event>,
)
    ensures
        in_sequence(TxState::cold(plan, debounce, consumer).run(events).1),
{
    lemma_run_keeps_sequence(TxState::cold(plan, debounce, consumer), events);
}

/// The consumer has no say in a transaction: with a consumer or without,
/// the same events lead through the same phases and ask for the same
/// actions, so that the local sink and the endpoint get the same writes.
pub proof fn lemma_consumer_has_no_say(start: TxState, events: Seq<Event>)
    ensures
        ({
            let (with, asked_with) = TxState { consumer: true, ..start }.run(events);
            let (without, asked_without) = TxState { consumer: false, ..start }.run(events);
            &&& asked_with == asked_without
            &&& with == TxState { consumer: true, ..without }
        }),
    decreases events.len(),
{
    if events.len() > 0 {
        lemma_consumer_has_no_say(start, events.drop_last());
    }
}

/// A transaction without a consumer delivers no line.
pub proof fn lemma_no_consumer_no_delivery(transaction: Transaction)
    requires
        !transaction@.consumer,
    ensures
        transaction.delivered() == Seq::<Seq<char>>::empty(),
{
}

} // verus!
