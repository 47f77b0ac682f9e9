//! One request from start to finish: the `ArtfulStart` event, the plugin
//! chain (with the core action at its end), the `ArtfulEnd` event, and the
//! destination handed back.
//!
//! Running the chain and notifying listeners happen outside;
//! [`ArtfulRun::step`] decides what comes next. With listeners registered,
//! `ArtfulStart` comes before the chain and `ArtfulEnd` after it, and only
//! when the chain succeeded; a listener's failure ends the request with
//! that failure. The destination handed back is the carrier's, or nothing
//! when no plugin set one.

use vstd::prelude::*;
use crate::direction::Destination;
use crate::error::ArtfulError;
use crate::rocket::Rocket;

verus! {

/// Where a request stands.
#[derive(Debug, Clone, Copy, PartialEq, Eq, Structural)]
pub enum RunState {
    /// Not begun.
    Ready,
    /// Waiting for the `ArtfulStart` listeners.
    Starting,
    /// Waiting for the plugin chain.
    Running,
    /// Waiting for the `ArtfulEnd` listeners.
    Ending,
    /// Done.
    Finished,
}

/// What the last outside step gave.
#[derive(Debug)]
pub enum RunInput {
    /// Start the request.
    Begin,
    /// The listeners have run on the event asked for.
    Dispatched(Result<(), ArtfulError>),
    /// The plugin chain has run.
    ChainDone(Result<(), ArtfulError>),
}

/// What to do next.
#[derive(Debug)]
pub enum RunAction {
    /// Dispatch `ArtfulStart` with the parameters and the plugins.
    DispatchArtfulStart,
    /// Run the plugin chain, with the core action at its end.
    RunChain,
    /// Dispatch `ArtfulEnd` on the carrier.
    DispatchArtfulEnd,
    /// The request is over, with this outcome.
    Finish(Result<Destination, ArtfulError>),
}

/// The model of a request's progress.
pub struct RunView {
    pub state: RunState,
    pub has_events: bool,
}

/// The progress of one request.
pub struct ArtfulRun {
    state: RunState,
    has_events: bool,
}

/// Whether `input` is what the request waits for in `state`.
pub open spec fn run_accepts(state: RunState, input: RunInput) -> bool {
    match state {
        RunState::Ready => input is Begin,
        RunState::Starting => input is Dispatched,
        RunState::Running => input is ChainDone,
        RunState::Ending => input is Dispatched,
        RunState::Finished => false,
    }
}

/// The request in another state.
pub open spec fn run_moved(s: RunView, state: RunState) -> RunView {
    RunView { state, has_events: s.has_events }
}

/// Ending with an error; the carrier is untouched.
pub open spec fn run_fail(s: RunView, r: Rocket, e: ArtfulError) -> (RunView, Rocket, RunAction) {
    (run_moved(s, RunState::Finished), r, RunAction::Finish(Err(e)))
}

/// Ending with the carrier's destination, taken out of it.
pub open spec fn run_succeed(s: RunView, r: Rocket) -> (RunView, Rocket, RunAction) {
    (
        run_moved(s, RunState::Finished),
        Rocket { destination: None, ..r },
        RunAction::Finish(
            Ok(
                match r.destination {
                    Some(d) => d,
                    None => Destination::Nothing,
                },
            ),
        ),
    )
}

/// One step of a request: the new state, the carrier after it, and what to
/// do next.
pub open spec fn run_spec(s: RunView, r: Rocket, input: RunInput) -> (RunView, Rocket, RunAction) {
    match input {
        RunInput::Begin => if s.has_events {
            (run_moved(s, RunState::Starting), r, RunAction::DispatchArtfulStart)
        } else {
            (run_moved(s, RunState::Running), r, RunAction::RunChain)
        },
        RunInput::Dispatched(outcome) => match outcome {
            Err(e) => run_fail(s, r, e),
            Ok(()) => if s.state == RunState::Starting {
                (run_moved(s, RunState::Running), r, RunAction::RunChain)
            } else {
                run_succeed(s, r)
            },
        },
        RunInput::ChainDone(outcome) => match outcome {
            Err(e) => run_fail(s, r, e),
            Ok(()) => if s.has_events {
                (run_moved(s, RunState::Ending), r, RunAction::DispatchArtfulEnd)
            } else {
                run_succeed(s, r)
            },
        },
    }
}

/// A failed chain ends the request with its error: `ArtfulEnd` is not
/// dispatched and the carrier is left as the chain left it.
pub proof fn law_failed_chain_skips_artful_end(s: RunView, r: Rocket, e: ArtfulError)
    requires
        s.state == RunState::Running,
    ensures
        run_spec(s, r, RunInput::ChainDone(Err(e))) == run_fail(s, r, e),
{
}

/// A listener failing on `ArtfulStart` ends the request before the chain
/// runs, with the listener's error.
pub proof fn law_failed_artful_start_skips_chain(s: RunView, r: Rocket, e: ArtfulError)
    requires
        s.state == RunState::Starting,
    ensures
        run_spec(s, r, RunInput::Dispatched(Err(e))) == run_fail(s, r, e),
{
}

/// Without listeners a request is the chain and nothing else: it begins
/// with the chain and, once the chain succeeded, hands back the carrier's
/// destination (nothing when none was set).
pub proof fn law_no_listeners_runs_the_chain_only(s: RunView, r: Rocket)
    requires
        s.state == RunState::Ready,
        !s.has_events,
    ensures
        run_spec(s, r, RunInput::Begin) == (run_moved(s, RunState::Running), r, RunAction::RunChain),
        run_spec(run_moved(s, RunState::Running), r, RunInput::ChainDone(Ok(()))) == run_succeed(
            run_moved(s, RunState::Running),
            r,
        ),
{
}

impl ArtfulRun {
    pub closed spec fn view(&self) -> RunView {
        RunView { state: self.state, has_events: self.has_events }
    }

    /// A request that has not begun; `has_events` says whether listeners
    /// are registered.
    pub fn new(has_events: bool) -> (run: ArtfulRun)
        ensures
            run@ == (RunView { state: RunState::Ready, has_events }),
    {
        ArtfulRun { state: RunState::Ready, has_events }
    }

    /// Where the request stands.
    pub fn state(&self) -> (s: RunState)
        ensures
            s == self@.state,
    {
        self.state
    }

    fn succeed(&mut self, rocket: &mut Rocket) -> (a: RunAction)
        ensures
            (final(self)@, *final(rocket), a) == run_succeed(old(self)@, *old(rocket)),
    {
        self.state = RunState::Finished;
        let d = match rocket.destination.take() {
            Some(d) => d,
            None => Destination::Nothing,
        };
        RunAction::Finish(Ok(d))
    }

    /// Takes one step; see [`run_spec`]. The input must be the one the
    /// request waits for.
    pub fn step(&mut self, rocket: &mut Rocket, input: RunInput) -> (a: RunAction)
        requires
            run_accepts(old(self)@.state, input),
        ensures
            (final(self)@, *final(rocket), a) == run_spec(old(self)@, *old(rocket), input),
    {
        match input {
            RunInput::Begin => {
                if self.has_events {
                    self.state = RunState::Starting;
                    RunAction::DispatchArtfulStart
                } else {
                    self.state = RunState::Running;
                    RunAction::RunChain
                }
            },
            RunInput::Dispatched(outcome) => match outcome {
                Err(e) => {
                    self.state = RunState::Finished;
                    RunAction::Finish(Err(e))
                },
                Ok(()) => {
                    if self.state == RunState::Starting {
                        self.state = RunState::Running;
                        RunAction::RunChain
                    } else {
                        self.succeed(rocket)
                    }
                },
            },
            RunInput::ChainDone(outcome) => match outcome {
                Err(e) => {
                    self.state = RunState::Finished;
                    RunAction::Finish(Err(e))
                },
                Ok(()) => {
                    if self.has_events {
                        self.state = RunState::Ending;
                        RunAction::DispatchArtfulEnd
                    } else {
                        self.succeed(rocket)
                    }
                },
            },
        }
    }
}

} // verus!
