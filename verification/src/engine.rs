//! The decisions of the submission loop: when the next request may be
//! sent, when a summary is due, and when the loop ends.
//!
//! The loop itself, with its requests and its clock, is run by the caller:
//! it asks [`Engine::next_action`] what to do, does it, and reports each
//! finished request with [`Engine::complete`].

use vstd::prelude::*;
use vstd::string::*;
use crate::text::{decimal, push_decimal};

verus! {

/// How one request ended.
#[derive(Debug, Clone, Copy, PartialEq, Eq, Structural)]
pub enum Outcome {
    /// The target answered with a status between 200 and 299.
    Succeeded,
    /// The target answered otherwise, or not at all.
    Failed,
}

/// What the loop does next.
#[derive(Debug, Clone, Copy, PartialEq, Eq, Structural)]
pub enum Action {
    /// Print the final summary and end.
    Finish,
    /// Wait until a request in flight has ended.
    Wait,
    /// Send one more request.
    Spawn,
    /// Print a summary, then send one more request.
    ReportAndSpawn,
}

/// The state of the loop, as mathematical values.
pub ghost struct EngineState {
    /// How many requests may be in flight at once.
    pub max_open: nat,
    /// How many requests are in flight.
    pub in_flight: nat,
    /// How many requests succeeded.
    pub sent: nat,
    /// How many requests failed.
    pub failed: nat,
    /// Whether the loop was told to stop.
    pub cancelled: bool,
    /// The second at which the last summary was due.
    pub last_report: nat,
}

/// After how many seconds a summary is due again.
pub open spec fn report_every() -> nat {
    10
}

/// The largest count that a counter holds.
pub open spec fn counter_max() -> nat {
    usize::MAX as nat
}

/// One more, up to the largest count.
pub open spec fn counted(count: nat) -> nat {
    if count < counter_max() {
        count + 1
    } else {
        count
    }
}

/// The decision at one turn of the loop, at the second `now`: the state
/// after it, and what to do.
pub open spec fn step(state: EngineState, now: nat) -> (EngineState, Action) {
    if state.cancelled {
        (state, Action::Finish)
    } else if state.in_flight >= state.max_open {
        (state, Action::Wait)
    } else if now > state.last_report + report_every() {
        (
            EngineState { in_flight: state.in_flight + 1, last_report: now, ..state },
            Action::ReportAndSpawn,
        )
    } else {
        (EngineState { in_flight: state.in_flight + 1, ..state }, Action::Spawn)
    }
}

/// The state after a request in flight has ended. Without a request in
/// flight nothing ends.
pub open spec fn completed(state: EngineState, outcome: Outcome) -> EngineState {
    if state.in_flight == 0 {
        state
    } else {
        match outcome {
            Outcome::Succeeded => EngineState {
                in_flight: (state.in_flight - 1) as nat,
                sent: counted(state.sent),
                ..state
            },
            Outcome::Failed => EngineState {
                in_flight: (state.in_flight - 1) as nat,
                failed: counted(state.failed),
                ..state
            },
        }
    }
}

/// How a request ended, by the status of the answer, if there was one.
pub open spec fn outcome_of(status: Option<u16>) -> Outcome {
    match status {
        Some(code) => if 200 <= code <= 299 {
            Outcome::Succeeded
        } else {
            Outcome::Failed
        },
        None => Outcome::Failed,
    }
}

/// The requests sent in a second, rounded down; zero where no second has
/// passed.
pub open spec fn rate(sent: nat, elapsed_seconds: nat) -> nat {
    if elapsed_seconds == 0 {
        0
    } else {
        sent / elapsed_seconds
    }
}

/// The summary line.
pub open spec fn summary_text(sent: nat, failed: nat, elapsed_seconds: nat) -> Seq<char> {
    decimal(sent) + " requests sent, "@ + decimal(failed) + " failed, "@ + decimal(
        rate(sent, elapsed_seconds),
    ) + " avg req/s"@
}

/// The decisions of the submission loop.
#[derive(Debug, Clone)]
pub struct Engine {
    max_open: usize,
    in_flight: usize,
    sent: usize,
    failed: usize,
    cancelled: bool,
    last_report: u64,
}

impl View for Engine {
    type V = EngineState;

    closed spec fn view(&self) -> EngineState {
        EngineState {
            max_open: self.max_open as nat,
            in_flight: self.in_flight as nat,
            sent: self.sent as nat,
            failed: self.failed as nat,
            cancelled: self.cancelled,
            last_report: self.last_report as nat,
        }
    }
}

impl Engine {
    /// The invariant of the type: no more requests are in flight than may
    /// be.
    pub open spec fn wf(&self) -> bool {
        self@.in_flight <= self@.max_open
    }

    /// An engine that lets `max_open` requests be in flight at once,
    /// started at the second `now`.
    pub fn new(max_open: usize, now: u64) -> (engine: Engine)
        ensures
            engine.wf(),
            engine@ == (EngineState {
                max_open: max_open as nat,
                in_flight: 0,
                sent: 0,
                failed: 0,
                cancelled: false,
                last_report: now as nat,
            }),
    {
        Engine { max_open, in_flight: 0, sent: 0, failed: 0, cancelled: false, last_report: now }
    }

    /// Tells the loop to stop.
    pub fn cancel(&mut self)
        ensures
            final(self)@ == (EngineState { cancelled: true, ..old(self)@ }),
            old(self).wf() ==> final(self).wf(),
    {
        self.cancelled = true;
    }

    /// Decides what the loop does at this turn, at the second `now`.
    pub fn next_action(&mut self, now: u64) -> (action: Action)
        requires
            old(self).wf(),
        ensures
            final(self).wf(),
            (final(self)@, action) == step(old(self)@, now as nat),
    {
        if self.cancelled {
            Action::Finish
        } else if self.in_flight >= self.max_open {
            Action::Wait
        } else {
            self.in_flight += 1;
            if now > self.last_report && now - self.last_report > 10 {
                self.last_report = now;
                Action::ReportAndSpawn
            } else {
                Action::Spawn
            }
        }
    }

    /// Records that a request in flight has ended. Returns whether one
    /// was in flight.
    pub fn complete(&mut self, outcome: Outcome) -> (counted: bool)
        requires
            old(self).wf(),
        ensures
            final(self).wf(),
            final(self)@ == completed(old(self)@, outcome),
            counted == (old(self)@.in_flight > 0),
    {
        if self.in_flight == 0 {
            return false;
        }
        self.in_flight -= 1;
        match outcome {
            Outcome::Succeeded => {
                if self.sent < usize::MAX {
                    self.sent += 1;
                }
            },
            Outcome::Failed => {
                if self.failed < usize::MAX {
                    self.failed += 1;
                }
            },
        }
        true
    }

    /// How many requests succeeded.
    pub fn sent(&self) -> (count: usize)
        ensures
            count == self@.sent,
    {
        self.sent
    }

    /// How many requests failed.
    pub fn failed(&self) -> (count: usize)
        ensures
            count == self@.failed,
    {
        self.failed
    }

    /// How many requests are in flight.
    pub fn in_flight(&self) -> (count: usize)
        ensures
            count == self@.in_flight,
    {
        self.in_flight
    }

    /// Whether the loop was told to stop.
    pub fn is_cancelled(&self) -> (cancelled: bool)
        ensures
            cancelled == self@.cancelled,
    {
        self.cancelled
    }

    /// The summary of the requests so far, `elapsed_seconds` after the
    /// start.
    pub fn summary(&self, elapsed_seconds: usize) -> (line: String)
        ensures
            line@ == summary_text(self@.sent, self@.failed, elapsed_seconds as nat),
    {
        summary(self.sent, self.failed, elapsed_seconds)
    }
}

/// How a request ended, by the status of the answer, if there was one.
pub fn classify(status: Option<u16>) -> (outcome: Outcome)
    ensures
        outcome == outcome_of(status),
{
    match status {
        Some(code) => if 200 <= code && code <= 299 {
            Outcome::Succeeded
        } else {
            Outcome::Failed
        },
        None => Outcome::Failed,
    }
}

/// Writes the summary line. Where no second has passed the rate is zero.
pub fn summary(sent: usize, failed: usize, elapsed_seconds: usize) -> (line: String)
    ensures
        line@ == summary_text(sent as nat, failed as nat, elapsed_seconds as nat),
{
    let per_second: usize = if elapsed_seconds == 0 {
        0
    } else {
        sent / elapsed_seconds
    };
    let mut line: String = String::new();
    push_decimal(&mut line, sent);
    line.append(" requests sent, ");
    push_decimal(&mut line, failed);
    line.append(" failed, ");
    push_decimal(&mut line, per_second);
    line.append(" avg req/s");
    assert(line@ =~= summary_text(sent as nat, failed as nat, elapsed_seconds as nat));
    line
}

/// A turn of the loop never lets more requests be in flight than may be.
pub proof fn lemma_step_keeps_limit(state: EngineState, now: nat)
    requires
        state.in_flight <= state.max_open,
    ensures
        step(state, now).0.in_flight <= step(state, now).0.max_open,
        step(state, now).0.max_open == state.max_open,
{
}

/// The end of a request never lets more requests be in flight than may
/// be, and never lowers a counter.
pub proof fn lemma_completed_keeps_limit(state: EngineState, outcome: Outcome)
    requires
        state.in_flight <= state.max_open,
    ensures
        completed(state, outcome).in_flight <= completed(state, outcome).max_open,
        completed(state, outcome).max_open == state.max_open,
        completed(state, outcome).sent >= state.sent,
        completed(state, outcome).failed >= state.failed,
{
}

/// A request is sent only where one more may be in flight.
pub proof fn lemma_spawn_needs_room(state: EngineState, now: nat)
    ensures
        (step(state, now).1 == Action::Spawn || step(state, now).1 == Action::ReportAndSpawn)
            ==> state.in_flight < state.max_open && step(state, now).0.in_flight
            == state.in_flight + 1,
{
}

/// Once the loop was told to stop, no turn sends a request: each ends the
/// loop and leaves the state, its counters among it, as it is.
pub proof fn lemma_cancelled_never_spawns(state: EngineState, now: nat)
    requires
        state.cancelled,
    ensures
        step(state, now) == (state, Action::Finish),
{
}

/// A turn of the loop changes no counter and never takes a stop back.
pub proof fn lemma_step_keeps_counters(state: EngineState, now: nat)
    ensures
        step(state, now).0.sent == state.sent,
        step(state, now).0.failed == state.failed,
        step(state, now).0.cancelled == state.cancelled,
{
}

/// The end of a request never takes a stop back.
pub proof fn lemma_completed_keeps_stop(state: EngineState, outcome: Outcome)
    ensures
        completed(state, outcome).cancelled == state.cancelled,
{
}

/// What happens to the loop: a turn of it, the end of a request, or the
/// order to stop.
pub ghost enum Event {
    Turn { now: nat },
    Done { outcome: Outcome },
    Stop,
}

/// The state after one event.
pub open spec fn after(state: EngineState, event: Event) -> EngineState {
    match event {
        Event::Turn { now } => step(state, now).0,
        Event::Done { outcome } => completed(state, outcome),
        Event::Stop => EngineState { cancelled: true, ..state },
    }
}

/// The state after a run of events.
pub open spec fn after_all(state: EngineState, events: Seq<Event>) -> EngineState
    decreases events.len(),
{
    if events.len() == 0 {
        state
    } else {
        after(after_all(state, events.drop_last()), events.last())
    }
}

/// Whatever happens, in whatever order, no more requests are in flight
/// than may be.
pub proof fn lemma_limit_always_holds(state: EngineState, events: Seq<Event>)
    requires
        state.in_flight <= state.max_open,
    ensures
        after_all(state, events).in_flight <= state.max_open,
        after_all(state, events).max_open == state.max_open,
    decreases events.len(),
{
    if events.len() > 0 {
        lemma_limit_always_holds(state, events.drop_last());
    }
}

/// Whatever happens, no counter ever falls.
pub proof fn lemma_counters_never_fall(state: EngineState, events: Seq<Event>)
    ensures
        after_all(state, events).sent >= state.sent,
        after_all(state, events).failed >= state.failed,
    decreases events.len(),
{
    if events.len() > 0 {
        lemma_counters_never_fall(state, events.drop_last());
    }
}

/// Once the loop was told to stop, then whatever happens afterwards, no
/// turn sends a request, and no more requests are in flight than were.
pub proof fn lemma_stop_is_final(state: EngineState, events: Seq<Event>, now: nat)
    requires
        state.cancelled,
    ensures
        after_all(state, events).cancelled,
        after_all(state, events).in_flight <= state.in_flight,
        step(after_all(state, events), now).1 == Action::Finish,
    decreases events.len(),
{
    if events.len() > 0 {
        lemma_stop_is_final(state, events.drop_last(), now);
    }
}

} // verus!
