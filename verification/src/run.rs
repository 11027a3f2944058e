//! The course of one run.
//!
//! A run scans once, then streams: workers decode the candidates and hand
//! the documents over to one consumer, which calls the handler for each.
//! Only so many documents are in flight at a time, handed over but not yet
//! taken by the consumer; a worker with one more waits, and holds it while it
//! waits. The run drains when the
//! workers are through, and is done when nothing is left in flight. The
//! first fatal error aborts it.
//!
//! Here stand the decisions of a run, and the documents in flight. Whoever
//! drives it tells what happened and is told what to do; a worker hands its
//! document to the run, and the consumer gets the oldest from it.

use crate::walker::{Processed, ReadError};
use std::collections::VecDeque;
use vstd::prelude::*;

verus! {

/// Where a run stands.
#[derive(Debug, Clone, Copy, PartialEq, Eq, Structural)]
pub enum Phase {
    /// The candidates are not listed yet.
    Scanning,
    /// Workers are decoding candidates.
    Streaming,
    /// The workers are through; documents are still in flight or in the
    /// handler's hands.
    Draining,
    /// The run has ended and every document was handled.
    Done,
    /// A fatal error has ended the run.
    Aborted,
}

/// What happened in a run.
#[derive(Debug, Clone, Copy, PartialEq, Eq, Structural)]
pub enum Event {
    /// The scanner has listed this many candidates.
    Scanned { candidates: usize },
    /// The directory could not be listed.
    ScanFailed,
    /// A worker has decoded a candidate and offers the document.
    Offered,
    /// A worker could not decode its candidate.
    DecodeFailed,
    /// A worker could not read or unpack its candidate.
    ReadFailed,
    /// The consumer asks for the next document.
    Taken,
    /// The handler has returned from a document, with success or not.
    Handled { ok: bool },
}

/// What to do next.
#[derive(Debug, Clone, Copy, PartialEq, Eq, Structural)]
pub enum Action {
    /// Start the workers.
    Start,
    /// Hand the offered document over: it is in flight now.
    Accept,
    /// Too many documents are in flight: wait, then offer again.
    Wait,
    /// Report the candidate that did not decode, and go on.
    Warn,
    /// Call the handler with the oldest document in flight.
    Invoke,
    /// Nothing is in flight: wait, then ask again.
    Idle,
    /// Go on.
    Continue,
    /// The run is done: report how many documents were processed.
    Finish,
    /// The run is aborted: report the error.
    Abort,
    /// This cannot happen where the run stands; nothing has changed.
    Refuse,
}

/// The numbers of a run.
#[derive(Debug, Clone, Copy)]
struct Counts {
    phase: Phase,
    capacity: usize,
    candidates: usize,
    forwarded: usize,
    skipped: usize,
    queued: usize,
    handling: bool,
    processed: usize,
}

/// The state of a run, with the documents in flight.
pub struct Pipeline<T> {
    counts: Counts,
    queue: VecDeque<T>,
}

/// What a `Pipeline` is.
pub struct PipelineView {
    pub phase: Phase,
    /// The most documents that may be in flight.
    pub capacity: nat,
    /// The number of candidates that the scanner listed.
    pub candidates: nat,
    /// The number of documents that workers have handed over.
    pub forwarded: nat,
    /// The number of candidates that did not decode.
    pub skipped: nat,
    /// The number of documents in flight.
    pub queued: nat,
    /// Whether the handler is at work on a document.
    pub handling: bool,
    /// The number of documents from which the handler has returned with
    /// success.
    pub processed: nat,
}

impl PipelineView {
    /// The number of calls of the handler so far.
    pub open spec fn invoked(self) -> nat {
        if self.handling {
            self.processed + 1
        } else {
            self.processed
        }
    }

    /// Whether every candidate has come to its end with a worker.
    pub open spec fn workers_through(self) -> bool {
        self.forwarded + self.skipped == self.candidates
    }

    /// What always holds of a run.
    pub open spec fn wf(self) -> bool {
        &&& self.capacity > 0
        &&& self.queued <= self.capacity
        &&& self.forwarded + self.skipped <= self.candidates
        &&& self.invoked() + self.queued == self.forwarded
        &&& self.phase == Phase::Scanning ==> self.candidates == 0 && self.forwarded == 0
        &&& self.phase == Phase::Streaming ==> !self.workers_through()
        &&& self.phase == Phase::Draining ==> self.workers_through() && (self.queued > 0
            || self.handling)
        &&& self.phase == Phase::Done ==> self.workers_through() && self.queued == 0
            && !self.handling
    }

    /// The phase of a run that is under way, by what is left to do.
    pub open spec fn settled(self) -> PipelineView {
        PipelineView {
            phase: if !self.workers_through() {
                Phase::Streaming
            } else if self.queued > 0 || self.handling {
                Phase::Draining
            } else {
                Phase::Done
            },
            ..self
        }
    }

    /// The run aborted.
    pub open spec fn aborted(self) -> PipelineView {
        PipelineView { phase: Phase::Aborted, ..self }
    }
}

/// A run before its scan.
pub open spec fn initial(capacity: nat) -> PipelineView {
    PipelineView {
        phase: Phase::Scanning,
        capacity,
        candidates: 0,
        forwarded: 0,
        skipped: 0,
        queued: 0,
        handling: false,
        processed: 0,
    }
}

/// The state after an event, and what to do.
pub open spec fn next(state: PipelineView, event: Event) -> (PipelineView, Action) {
    match state.phase {
        Phase::Scanning => match event {
            Event::Scanned { candidates } => {
                let listed = PipelineView { candidates: candidates as nat, ..state }.settled();
                (
                    listed,
                    if candidates == 0 {
                        Action::Finish
                    } else {
                        Action::Start
                    },
                )
            },
            Event::ScanFailed => (state.aborted(), Action::Abort),
            _ => (state, Action::Refuse),
        },
        Phase::Streaming | Phase::Draining => match event {
            Event::Offered => if state.phase != Phase::Streaming {
                (state, Action::Refuse)
            } else if state.queued < state.capacity {
                (
                    PipelineView {
                        queued: state.queued + 1,
                        forwarded: state.forwarded + 1,
                        ..state
                    }.settled(),
                    Action::Accept,
                )
            } else {
                (state, Action::Wait)
            },
            Event::DecodeFailed => if state.phase != Phase::Streaming {
                (state, Action::Refuse)
            } else {
                (PipelineView { skipped: state.skipped + 1, ..state }.settled(), Action::Warn)
            },
            Event::ReadFailed => if state.phase != Phase::Streaming {
                (state, Action::Refuse)
            } else {
                (state.aborted(), Action::Abort)
            },
            Event::Taken => if state.handling {
                (state, Action::Refuse)
            } else if state.queued > 0 {
                (
                    PipelineView { queued: (state.queued - 1) as nat, handling: true, ..state },
                    Action::Invoke,
                )
            } else {
                (state, Action::Idle)
            },
            Event::Handled { ok } => if !state.handling {
                (state, Action::Refuse)
            } else if ok {
                let handled = PipelineView {
                    processed: state.processed + 1,
                    handling: false,
                    ..state
                }.settled();
                (
                    handled,
                    if handled.phase == Phase::Done {
                        Action::Finish
                    } else {
                        Action::Continue
                    },
                )
            } else {
                (state.aborted(), Action::Abort)
            },
            _ => (state, Action::Refuse),
        },
        Phase::Done | Phase::Aborted => (state, Action::Refuse),
    }
}

/// The state after a list of events, one after the other.
pub open spec fn run(start: PipelineView, events: Seq<Event>) -> PipelineView
    decreases events.len(),
{
    if events.len() == 0 {
        start
    } else {
        next(run(start, events.drop_last()), events.last()).0
    }
}

/// How often a list of events was answered with `action`.
pub open spec fn answers(start: PipelineView, events: Seq<Event>, action: Action) -> nat
    decreases events.len(),
{
    if events.len() == 0 {
        0
    } else {
        let before = answers(start, events.drop_last(), action);
        if next(run(start, events.drop_last()), events.last()).1 == action {
            before + 1
        } else {
            before
        }
    }
}

/// A run that is under way can go on: the handler is at work, or a document
/// is there for the consumer to take, or the offer of a worker is accepted.
pub proof fn lemma_can_go_on(state: PipelineView)
    requires
        state.wf(),
        state.phase == Phase::Streaming || state.phase == Phase::Draining,
    ensures
        state.handling || next(state, Event::Taken).1 == Action::Invoke || next(
            state,
            Event::Offered,
        ).1 == Action::Accept,
{
}

/// No event breaks what always holds of a run.
pub proof fn lemma_next_keeps_wf(state: PipelineView, event: Event)
    requires
        state.wf(),
    ensures
        next(state, event).0.wf(),
        next(state, event).0.capacity == state.capacity,
{
}

/// Whatever happens in a run from its start: what always holds of a run
/// holds, the handler was called as often as the run said so, and as many
/// candidates were reported as did not decode.
pub proof fn lemma_run_keeps_count(capacity: nat, events: Seq<Event>)
    requires
        capacity > 0,
    ensures
        run(initial(capacity), events).wf(),
        run(initial(capacity), events).capacity == capacity,
        answers(initial(capacity), events, Action::Invoke) == run(
            initial(capacity),
            events,
        ).invoked(),
        answers(initial(capacity), events, Action::Warn) == run(initial(capacity), events).skipped,
    decreases events.len(),
{
    if events.len() > 0 {
        lemma_run_keeps_count(capacity, events.drop_last());
        lemma_next_keeps_wf(run(initial(capacity), events.drop_last()), events.last());
    }
}

/// Never are more documents in flight than the capacity allows, whatever
/// happens and however fast workers and consumer are.
pub proof fn lemma_in_flight_bounded(capacity: nat, events: Seq<Event>)
    requires
        capacity > 0,
    ensures
        run(initial(capacity), events).queued <= capacity,
{
    lemma_run_keeps_count(capacity, events);
}

/// When a run is done, the handler was called once for each candidate that
/// decoded, all these calls are processed, and each candidate that did not
/// decode was reported once.
pub proof fn lemma_done_counts(capacity: nat, events: Seq<Event>)
    requires
        capacity > 0,
        run(initial(capacity), events).phase == Phase::Done,
    ensures
        ({
            let end = run(initial(capacity), events);
            &&& answers(initial(capacity), events, Action::Invoke) == end.candidates - end.skipped
            &&& answers(initial(capacity), events, Action::Warn) == end.skipped
            &&& end.processed == end.candidates - end.skipped
        }),
{
    lemma_run_keeps_count(capacity, events);
}

impl View for Counts {
    type V = PipelineView;

    closed spec fn view(&self) -> PipelineView {
        PipelineView {
            phase: self.phase,
            capacity: self.capacity as nat,
            candidates: self.candidates as nat,
            forwarded: self.forwarded as nat,
            skipped: self.skipped as nat,
            queued: self.queued as nat,
            handling: self.handling,
            processed: self.processed as nat,
        }
    }
}

impl Counts {
    /// The phase of a run that is under way, by what is left to do.
    fn settle(
        candidates: usize,
        forwarded: usize,
        skipped: usize,
        queued: usize,
        handling: bool,
    ) -> (phase: Phase)
        requires
            forwarded + skipped <= candidates,
        ensures
            phase == if forwarded + skipped != candidates {
                Phase::Streaming
            } else if queued > 0 || handling {
                Phase::Draining
            } else {
                Phase::Done
            },
    {
        if forwarded + skipped != candidates {
            Phase::Streaming
        } else if queued > 0 || handling {
            Phase::Draining
        } else {
            Phase::Done
        }
    }

    /// The numbers after an event, and what to do.
    fn advance(self, event: Event) -> (after: (Counts, Action))
        requires
            self@.wf(),
        ensures
            (after.0@, after.1) == next(self@, event),
            after.0@.wf(),
    {
        proof {
            lemma_next_keeps_wf(self@, event);
        }
        let mut after = self;
        let streaming = match self.phase {
            Phase::Streaming => true,
            _ => false,
        };
        let action = match self.phase {
            Phase::Scanning => match event {
                Event::Scanned { candidates } => {
                    if candidates == 0 {
                        after = Counts { phase: Phase::Done, ..after };
                        Action::Finish
                    } else {
                        after = Counts { phase: Phase::Streaming, candidates, ..after };
                        Action::Start
                    }
                },
                Event::ScanFailed => {
                    after = Counts { phase: Phase::Aborted, ..after };
                    Action::Abort
                },
                _ => Action::Refuse,
            },
            Phase::Streaming | Phase::Draining => match event {
                Event::Offered => {
                    if !streaming {
                        Action::Refuse
                    } else if self.queued < self.capacity {
                        let queued = self.queued + 1;
                        let forwarded = self.forwarded + 1;
                        let phase = Counts::settle(
                            self.candidates,
                            forwarded,
                            self.skipped,
                            queued,
                            self.handling,
                        );
                        after = Counts { phase, queued, forwarded, ..after };
                        Action::Accept
                    } else {
                        Action::Wait
                    }
                },
                Event::DecodeFailed => {
                    if !streaming {
                        Action::Refuse
                    } else {
                        let skipped = self.skipped + 1;
                        let phase = Counts::settle(
                            self.candidates,
                            self.forwarded,
                            skipped,
                            self.queued,
                            self.handling,
                        );
                        after = Counts { phase, skipped, ..after };
                        Action::Warn
                    }
                },
                Event::ReadFailed => {
                    if !streaming {
                        Action::Refuse
                    } else {
                        after = Counts { phase: Phase::Aborted, ..after };
                        Action::Abort
                    }
                },
                Event::Taken => {
                    if self.handling {
                        Action::Refuse
                    } else if self.queued > 0 {
                        after = Counts { queued: self.queued - 1, handling: true, ..after };
                        Action::Invoke
                    } else {
                        Action::Idle
                    }
                },
                Event::Handled { ok } => {
                    if !self.handling {
                        Action::Refuse
                    } else if ok {
                        let processed = self.processed + 1;
                        let phase = Counts::settle(
                            self.candidates,
                            self.forwarded,
                            self.skipped,
                            self.queued,
                            false,
                        );
                        after = Counts { phase, processed, handling: false, ..after };
                        match phase {
                            Phase::Done => Action::Finish,
                            _ => Action::Continue,
                        }
                    } else {
                        after = Counts { phase: Phase::Aborted, ..after };
                        Action::Abort
                    }
                },
                _ => Action::Refuse,
            },
            Phase::Done | Phase::Aborted => Action::Refuse,
        };
        (after, action)
    }
}

impl<T> View for Pipeline<T> {
    type V = PipelineView;

    closed spec fn view(&self) -> PipelineView {
        self.counts@
    }
}

/// Whether an event is told to a run by `step`. A document that is offered
/// or taken goes through `offer` and `take`.
pub open spec fn is_told(event: Event) -> bool {
    event != Event::Offered && event != Event::Taken
}

impl<T> Pipeline<T> {
    /// What always holds of a run holds of this one, and the run counts the
    /// documents that it holds.
    #[verifier::type_invariant]
    spec fn sound(self) -> bool {
        self.counts@.wf() && self.queue@.len() == self.counts.queued
    }

    /// The documents in flight, the oldest first.
    pub closed spec fn documents(&self) -> Seq<T> {
        self.queue@
    }

    /// A run before its scan, in which at most `capacity` documents may be in
    /// flight. There must be room for one at least: with none, no document
    /// could ever be handed over.
    pub fn new(capacity: usize) -> (pipeline: Pipeline<T>)
        requires
            capacity > 0,
        ensures
            pipeline@ == initial(capacity as nat),
            pipeline.documents() == Seq::<T>::empty(),
    {
        Pipeline {
            counts: Counts {
                phase: Phase::Scanning,
                capacity,
                candidates: 0,
                forwarded: 0,
                skipped: 0,
                queued: 0,
                handling: false,
                processed: 0,
            },
            queue: VecDeque::new(),
        }
    }

    /// Where the run stands.
    pub fn phase(&self) -> (phase: Phase)
        ensures
            phase == self@.phase,
            self@.wf(),
    {
        proof {
            use_type_invariant(self);
        }
        self.counts.phase
    }

    /// The number of documents from which the handler has returned with
    /// success.
    pub fn processed(&self) -> (processed: usize)
        ensures
            processed == self@.processed,
    {
        self.counts.processed
    }

    /// The number of candidates that did not decode.
    pub fn skipped(&self) -> (skipped: usize)
        ensures
            skipped == self@.skipped,
    {
        self.counts.skipped
    }

    /// The number of documents in flight.
    pub fn in_flight(&self) -> (queued: usize)
        ensures
            queued == self@.queued,
            queued == self.documents().len(),
            queued <= self@.capacity,
    {
        proof {
            use_type_invariant(self);
        }
        self.counts.queued
    }

    /// Takes the run apart, and leaves a run before its scan in its place.
    fn take_apart(&mut self) -> (parts: (Counts, VecDeque<T>))
        ensures
            parts.0@ == old(self)@,
            parts.0@.wf(),
            parts.1@ == old(self).documents(),
            parts.1@.len() == parts.0.queued,
    {
        proof {
            use_type_invariant(&*self);
        }
        let mut held = Pipeline {
            counts: Counts {
                phase: Phase::Scanning,
                capacity: self.counts.capacity,
                candidates: 0,
                forwarded: 0,
                skipped: 0,
                queued: 0,
                handling: false,
                processed: 0,
            },
            queue: VecDeque::new(),
        };
        core::mem::swap(self, &mut held);
        (held.counts, held.queue)
    }

    /// Takes note of what happened, and says what to do. That a document is
    /// offered or taken is not told this way: it is refused.
    pub fn step(&mut self, event: Event) -> (action: Action)
        ensures
            is_told(event) ==> (final(self)@, action) == next(old(self)@, event),
            !is_told(event) ==> final(self)@ == old(self)@ && action == Action::Refuse,
            final(self)@.wf(),
            final(self).documents() == old(self).documents(),
    {
        let (counts, queue) = self.take_apart();
        let told = match event {
            Event::Offered => false,
            Event::Taken => false,
            _ => true,
        };
        if told {
            let (after, action) = counts.advance(event);
            *self = Pipeline { counts: after, queue };
            action
        } else {
            *self = Pipeline { counts, queue };
            Action::Refuse
        }
    }

    /// Offers a document that a worker has decoded. Where the run accepts it,
    /// it is in flight as the youngest; else it is handed back.
    pub fn offer(&mut self, document: T) -> (answer: (Action, Option<T>))
        ensures
            (final(self)@, answer.0) == next(old(self)@, Event::Offered),
            final(self)@.wf(),
            answer.0 == Action::Accept ==> answer.1 is None && final(self).documents() == old(
                self,
            ).documents().push(document),
            answer.0 != Action::Accept ==> answer.1 == Some(document) && final(self).documents()
                == old(self).documents(),
            answer.0 == Action::Wait ==> final(self)@.handling || next(
                final(self)@,
                Event::Taken,
            ).1 == Action::Invoke,
    {
        let (counts, mut queue) = self.take_apart();
        proof {
            if next(counts@, Event::Offered).1 == Action::Wait {
                lemma_can_go_on(counts@);
            }
        }
        let (after, action) = counts.advance(Event::Offered);
        match action {
            Action::Accept => {
                queue.push_back(document);
                *self = Pipeline { counts: after, queue };
                (action, None)
            },
            _ => {
                *self = Pipeline { counts: after, queue };
                (action, Some(document))
            },
        }
    }

    /// Asks for the next document. Where one is in flight and the handler is
    /// free, the oldest is handed out.
    pub fn take(&mut self) -> (answer: (Action, Option<T>))
        ensures
            (final(self)@, answer.0) == next(old(self)@, Event::Taken),
            final(self)@.wf(),
            answer.0 == Action::Invoke ==> old(self).documents().len() > 0 && answer.1 == Some(
                old(self).documents()[0],
            ) && final(self).documents() == old(self).documents().drop_first(),
            answer.0 != Action::Invoke ==> answer.1 is None && final(self).documents() == old(
                self,
            ).documents(),
    {
        let (counts, mut queue) = self.take_apart();
        let (after, action) = counts.advance(Event::Taken);
        match action {
            Action::Invoke => {
                let ghost before = queue@;
                let document = queue.pop_front();
                assert(queue@ =~= before.drop_first());
                *self = Pipeline { counts: after, queue };
                (action, document)
            },
            _ => {
                *self = Pipeline { counts: after, queue };
                (action, None)
            },
        }
    }
}

/// What a worker tells the run of the outcome of one candidate.
pub fn event_of(outcome: &Result<Processed, ReadError>) -> (event: Event)
    ensures
        event == match outcome {
            Ok(Processed::Document(_)) => Event::Offered,
            Ok(Processed::Skipped(_)) => Event::DecodeFailed,
            Err(_) => Event::ReadFailed,
        },
{
    match outcome {
        Ok(Processed::Document(_)) => Event::Offered,
        Ok(Processed::Skipped(_)) => Event::DecodeFailed,
        Err(_) => Event::ReadFailed,
    }
}

} // verus!
