//! The core action at the end of the plugin chain: send the request.
//!
//! Sending, awaiting the response and notifying event listeners happen
//! outside; [`IgniteCore::step`] decides, from where the action stands and
//! what the last outside step gave, what to do next. Parsing the response
//! is not the core action's: a parser plugin does it on the way back.
//!
//! In order: a request whose direction is "no request" ends at once, with
//! no event. Otherwise `HttpStart` is dispatched (when listeners are
//! registered), the built request is taken (its absence ends the action
//! with a missing-request error and no further event) and executed. A
//! response is stored as the raw response and `HttpEnd` is dispatched. A
//! failure of the execution dispatches `HttpError` and ends with that
//! failure; should a listener fail there, its error ends the action with
//! the failure attached as the displaced original. A listener's failure at
//! any other point ends the action with that error.

use vstd::prelude::*;
use crate::direction::DirectionKind;
use crate::error::{ArtfulError, attach_original, with_original};
use crate::rocket::Rocket;

verus! {

/// Where the core action stands.
#[derive(Debug)]
pub enum IgniteState {
    /// Not begun.
    Ready,
    /// Waiting for the `HttpStart` listeners.
    Starting,
    /// Waiting for the response.
    Sending,
    /// Waiting for the `HttpEnd` listeners.
    Received,
    /// Waiting for the `HttpError` listeners; holds the execution's error.
    Failing(ArtfulError),
    /// Done.
    Finished,
}

/// What the last outside step gave.
#[derive(Debug)]
pub enum IgniteInput {
    /// Start the action.
    Begin,
    /// The listeners have run on the event asked for.
    Dispatched(Result<(), ArtfulError>),
    /// The request was executed.
    Executed(Result<reqwest::Response, ArtfulError>),
}

/// What to do next.
#[derive(Debug)]
pub enum IgniteAction {
    /// Dispatch `HttpStart` on the carrier.
    DispatchHttpStart,
    /// Execute this request.
    Execute(reqwest::Request),
    /// Dispatch `HttpEnd` on the carrier.
    DispatchHttpEnd,
    /// Dispatch `HttpError` with [`IgniteCore::failure`].
    DispatchHttpError,
    /// The action is over, with this outcome.
    Finish(Result<(), ArtfulError>),
}

/// The model of the core action.
pub struct IgniteView {
    pub state: IgniteState,
    pub has_events: bool,
}

/// The core action at the end of the chain.
pub struct IgniteCore {
    state: IgniteState,
    has_events: bool,
}

/// Whether `input` is what the action waits for in `state`.
pub open spec fn accepts(state: IgniteState, input: IgniteInput) -> bool {
    match state {
        IgniteState::Ready => input is Begin,
        IgniteState::Starting => input is Dispatched,
        IgniteState::Sending => input is Executed,
        IgniteState::Received => input is Dispatched,
        IgniteState::Failing(_) => input is Dispatched,
        IgniteState::Finished => false,
    }
}

/// The action in another state.
pub open spec fn moved(s: IgniteView, state: IgniteState) -> IgniteView {
    IgniteView { state, has_events: s.has_events }
}

/// A step that ends the action.
pub open spec fn finish(s: IgniteView, r: Rocket, outcome: Result<(), ArtfulError>) -> (IgniteView, Rocket, IgniteAction) {
    (moved(s, IgniteState::Finished), r, IgniteAction::Finish(outcome))
}

/// Taking the built request to execute it.
pub open spec fn send(s: IgniteView, r: Rocket) -> (IgniteView, Rocket, IgniteAction) {
    match r.radar {
        Some(req) => (
            moved(s, IgniteState::Sending),
            Rocket { radar: None, ..r },
            IgniteAction::Execute(req.inner()),
        ),
        None => finish(s, r, Err(ArtfulError::MissingRequest)),
    }
}

/// One step of the core action: the new state, the carrier after it, and
/// what to do next.
pub open spec fn ignite_spec(s: IgniteView, r: Rocket, input: IgniteInput) -> (IgniteView, Rocket, IgniteAction) {
    match input {
        IgniteInput::Begin => if r.config.direction == DirectionKind::NoRequest {
            finish(s, r, Ok(()))
        } else if s.has_events {
            (moved(s, IgniteState::Starting), r, IgniteAction::DispatchHttpStart)
        } else {
            send(s, r)
        },
        IgniteInput::Dispatched(outcome) => match s.state {
            IgniteState::Starting => match outcome {
                Ok(()) => send(s, r),
                Err(e) => finish(s, r, Err(e)),
            },
            IgniteState::Received => match outcome {
                Ok(()) => finish(s, r, Ok(())),
                Err(e) => finish(s, r, Err(e)),
            },
            IgniteState::Failing(err) => match outcome {
                Ok(()) => finish(s, r, Err(err)),
                Err(le) => finish(s, r, Err(attach_original(le, err))),
            },
            _ => finish(s, r, Ok(())),
        },
        IgniteInput::Executed(outcome) => match outcome {
            Ok(resp) => {
                let r2 = Rocket { destination_origin: Some(resp), ..r };
                if s.has_events {
                    (moved(s, IgniteState::Received), r2, IgniteAction::DispatchHttpEnd)
                } else {
                    finish(s, r2, Ok(()))
                }
            },
            Err(e) => if s.has_events {
                (moved(s, IgniteState::Failing(e)), r, IgniteAction::DispatchHttpError)
            } else {
                finish(s, r, Err(e))
            },
        },
    }
}

/// A request whose direction is "no request" ends as it begins: no event is
/// dispatched, nothing is sent or parsed and the carrier is untouched.
pub proof fn law_no_request_sends_nothing(s: IgniteView, r: Rocket)
    requires
        s.state is Ready,
        r.config.direction == DirectionKind::NoRequest,
    ensures
        ignite_spec(s, r, IgniteInput::Begin) == (moved(s, IgniteState::Finished), r, IgniteAction::Finish(
            Ok(()),
        )),
{
}

/// Without a built request the action ends with a missing-request error
/// right where the request would be taken, untouched carrier included; no
/// `HttpError` is dispatched for it.
pub proof fn law_missing_request_is_not_http_error(s: IgniteView, r: Rocket)
    requires
        r.radar is None,
        r.config.direction != DirectionKind::NoRequest,
    ensures
        (s.state is Ready && !s.has_events) ==> ignite_spec(s, r, IgniteInput::Begin) == finish(
            s,
            r,
            Err(ArtfulError::MissingRequest),
        ),
        s.state is Starting ==> ignite_spec(s, r, IgniteInput::Dispatched(Ok(()))) == finish(
            s,
            r,
            Err(ArtfulError::MissingRequest),
        ),
{
}

/// A listener that fails on `HttpError` ends the action with its own error,
/// and the failed execution's error is kept in it as the displaced original.
pub proof fn law_http_error_listener_keeps_original(
    s: IgniteView,
    r: Rocket,
    err: ArtfulError,
    listener_name: String,
    message: String,
    source: Option<Box<ArtfulError>>,
)
    requires
        s.state == IgniteState::Failing(err),
    ensures
        ignite_spec(
            s,
            r,
            IgniteInput::Dispatched(
                Err(ArtfulError::EventListenerError { listener_name, message, source, original: None }),
            ),
        ) == finish(
            s,
            r,
            Err(
                ArtfulError::EventListenerError {
                    listener_name,
                    message,
                    source,
                    original: Some(Box::new(err)),
                },
            ),
        ),
{
}

/// The core action never parses: no step sets or clears the destination,
/// so a chain without a parser plugin ends with the destination it had.
pub proof fn law_core_leaves_destination(s: IgniteView, r: Rocket, input: IgniteInput)
    requires
        accepts(s.state, input),
    ensures
        ignite_spec(s, r, input).1.destination == r.destination,
{
}

/// A response, once the listeners (if any) have seen it, ends the action
/// successfully with the response stored as the raw response.
pub proof fn law_response_is_stored(s: IgniteView, r: Rocket, resp: reqwest::Response)
    requires
        s.state is Sending,
        !s.has_events,
    ensures
        ignite_spec(s, r, IgniteInput::Executed(Ok(resp))) == finish(
            s,
            (Rocket { destination_origin: Some(resp), ..r }),
            Ok(()),
        ),
{
}

/// A failed execution with no listener registered ends the action with that
/// very failure.
pub proof fn law_execution_failure_propagates(s: IgniteView, r: Rocket, err: ArtfulError)
    requires
        s.state is Sending,
        !s.has_events,
    ensures
        ignite_spec(s, r, IgniteInput::Executed(Err(err))) == finish(s, r, Err(err)),
{
}

impl IgniteCore {
    pub closed spec fn view(&self) -> IgniteView {
        IgniteView { state: self.state, has_events: self.has_events }
    }

    /// A core action that has not begun; `has_events` says whether event
    /// listeners are registered.
    pub fn new(has_events: bool) -> (c: IgniteCore)
        ensures
            c@ == (IgniteView { state: IgniteState::Ready, has_events }),
    {
        IgniteCore { state: IgniteState::Ready, has_events }
    }

    /// Whether the action is over.
    pub fn is_finished(&self) -> (b: bool)
        ensures
            b == (self@.state is Finished),
    {
        match self.state {
            IgniteState::Finished => true,
            _ => false,
        }
    }

    /// The failed execution's error, while `HttpError` is being dispatched.
    pub fn failure(&self) -> (r: Option<&ArtfulError>)
        ensures
            match r {
                Some(e) => self@.state == IgniteState::Failing(*e),
                None => !(self@.state is Failing),
            },
    {
        match &self.state {
            IgniteState::Failing(e) => Some(e),
            _ => None,
        }
    }

    fn finish_with(&mut self, outcome: Result<(), ArtfulError>) -> (a: IgniteAction)
        ensures
            final(self)@ == moved(old(self)@, IgniteState::Finished),
            a == IgniteAction::Finish(outcome),
    {
        self.state = IgniteState::Finished;
        IgniteAction::Finish(outcome)
    }

    fn send_step(&mut self, rocket: &mut Rocket) -> (a: IgniteAction)
        ensures
            (final(self)@, *final(rocket), a) == send(old(self)@, *old(rocket)),
    {
        match rocket.radar.take() {
            Some(req) => {
                self.state = IgniteState::Sending;
                IgniteAction::Execute(req.into_request())
            },
            None => self.finish_with(Err(ArtfulError::MissingRequest)),
        }
    }

    /// Takes one step; see [`ignite_spec`]. The input must be the one the
    /// action waits for.
    pub fn step(&mut self, rocket: &mut Rocket, input: IgniteInput) -> (a: IgniteAction)
        requires
            accepts(old(self)@.state, input),
        ensures
            (final(self)@, *final(rocket), a) == ignite_spec(old(self)@, *old(rocket), input),
    {
        match input {
            IgniteInput::Begin => {
                if rocket.config.direction == DirectionKind::NoRequest {
                    self.finish_with(Ok(()))
                } else if self.has_events {
                    self.state = IgniteState::Starting;
                    IgniteAction::DispatchHttpStart
                } else {
                    self.send_step(rocket)
                }
            },
            IgniteInput::Dispatched(outcome) => {
                let mut state = IgniteState::Finished;
                std::mem::swap(&mut state, &mut self.state);
                match state {
                    IgniteState::Starting => match outcome {
                        Ok(()) => self.send_step(rocket),
                        Err(e) => self.finish_with(Err(e)),
                    },
                    IgniteState::Received => match outcome {
                        Ok(()) => self.finish_with(Ok(())),
                        Err(e) => self.finish_with(Err(e)),
                    },
                    IgniteState::Failing(err) => match outcome {
                        Ok(()) => self.finish_with(Err(err)),
                        Err(le) => {
                            let e = with_original(le, err);
                            self.finish_with(Err(e))
                        },
                    },
                    _ => self.finish_with(Ok(())),
                }
            },
            IgniteInput::Executed(outcome) => match outcome {
                Ok(resp) => {
                    rocket.destination_origin = Some(resp);
                    if self.has_events {
                        self.state = IgniteState::Received;
                        IgniteAction::DispatchHttpEnd
                    } else {
                        self.finish_with(Ok(()))
                    }
                },
                Err(e) => {
                    if self.has_events {
                        self.state = IgniteState::Failing(e);
                        IgniteAction::DispatchHttpError
                    } else {
                        self.finish_with(Err(e))
                    }
                },
            },
        }
    }
}

} // verus!
