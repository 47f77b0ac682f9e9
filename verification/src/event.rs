//! Observation points of a request's life, and their listeners.
//!
//! Listeners are notified in the order they were registered. The first one
//! that fails stops the others; its failure becomes a listener error that
//! names it and ends the request.

use vstd::prelude::*;
use std::sync::Arc;
use crate::error::{ArtfulError, error_text, listener_failure};
use crate::json::JsonMap;
use crate::rocket::Rocket;

verus! {

/// A point of a request's life, with what a listener may see there; `P` is
/// the type of the plugins.
pub enum Event<'a, P> {
    /// Before the chain runs.
    ArtfulStart { params: &'a JsonMap, plugins: &'a [P] },
    /// Right before the request is sent; the request may still be changed.
    HttpStart { rocket: &'a mut Rocket },
    /// The response came back (its body is not read yet).
    HttpEnd { rocket: &'a Rocket },
    /// Sending the request failed.
    HttpError { rocket: &'a Rocket, error: &'a ArtfulError },
    /// After the chain ran; the destination may still be changed.
    ArtfulEnd { rocket: &'a mut Rocket },
}

/// Something notified at each point of a request's life.
pub trait EventListener<P>: Send + Sync {
    /// The listener's name, reported when it fails.
    fn name(&self) -> (r: &'static str)
        default_ensures
            r@ == "UnknownEventListener"@,
    {
        "UnknownEventListener"
    }

    /// Called at each point; an error aborts the request.
    fn on_event(&self, event: &mut Event<'_, P>) -> Result<(), ArtfulError>;
}

/// The registered listeners, in registration order; `L` is the listeners'
/// type, most often a trait object of `EventListener`.
pub struct EventDispatcher<L: ?Sized> {
    listeners: Vec<Arc<L>>,
}

impl<L: ?Sized> EventDispatcher<L> {
    /// The listeners, in registration order.
    pub closed spec fn listeners(&self) -> Seq<Arc<L>> {
        self.listeners@
    }

    /// No listeners.
    pub fn new() -> (d: EventDispatcher<L>)
        ensures
            d.listeners() == Seq::<Arc<L>>::empty(),
    {
        EventDispatcher { listeners: Vec::new() }
    }

    /// Registers a listener after those already registered.
    pub fn add_listener(&mut self, listener: Arc<L>)
        ensures
            final(self).listeners().len() == old(self).listeners().len() + 1,
            final(self).listeners().drop_last() == old(self).listeners(),
    {
        self.listeners.push(listener);
    }

    /// Number of listeners.
    pub fn len(&self) -> (n: usize)
        ensures
            n == self.listeners().len(),
    {
        self.listeners.len()
    }

    /// Whether no listener is registered.
    pub fn is_empty(&self) -> (b: bool)
        ensures
            b == (self.listeners().len() == 0),
    {
        self.listeners.len() == 0
    }

    /// Notifies the listeners in order. The first failure stops the others
    /// and comes back as a listener error naming the listener (with no
    /// displaced request error); without listeners nothing fails.
    pub fn dispatch<P>(&self, event: Event<'_, P>) -> (r: Result<(), ArtfulError>)
        where
            L: EventListener<P>,
        ensures
            r matches Err(e) ==> e matches ArtfulError::EventListenerError { message, source: Some(s), original: None, .. }
                && message@ == error_text(*s),
            self.listeners().len() == 0 ==> r is Ok,
    {
        let mut event = event;
        let mut round = ListenerRound::new(self.listeners.len());
        let mut action = round.start();
        loop
            invariant
                round@.total == self.listeners@.len(),
                action matches RoundAction::Notify(i) ==> i == round@.next && i < round@.total && !round@.finished,
                action matches RoundAction::Finish(r) ==> {
                    &&& r matches Err(e) ==> e matches ArtfulError::EventListenerError {
                        message,
                        source: Some(s),
                        original: None,
                        ..
                    } && message@ == error_text(*s)
                    &&& self.listeners@.len() == 0 ==> r is Ok
                },
            decreases round@.total - round@.next, if action is Notify { 1int } else { 0int },
        {
            match action {
                RoundAction::Finish(r) => {
                    return r;
                },
                RoundAction::Notify(i) => {
                    let listener = &self.listeners[i];
                    let outcome = listener.on_event(&mut event);
                    action = round.heard(listener.name(), outcome);
                },
            }
        }
    }
}

/// Where a round of notifications stands: the next listener to notify, how
/// many there are, and whether the round is over.
pub struct RoundView {
    pub next: nat,
    pub total: nat,
    pub finished: bool,
}

/// What a round asks for next.
#[derive(Debug)]
pub enum RoundAction {
    /// Notify the listener at this position.
    Notify(usize),
    /// The round is over, with this outcome.
    Finish(Result<(), ArtfulError>),
}

/// One round of notifications over `total` listeners: each is notified in
/// registration order, once, until one fails; that failure ends the round.
pub struct ListenerRound {
    next: usize,
    total: usize,
    finished: bool,
}

/// The round after the listener at `v.next` answered, successfully or not.
pub open spec fn round_heard(v: RoundView, ok: bool) -> RoundView {
    if ok {
        RoundView { next: v.next + 1, total: v.total, finished: v.next + 1 == v.total }
    } else {
        RoundView { next: v.next, total: v.total, finished: true }
    }
}

/// A fresh round over `total` listeners after `k` of them answered
/// successfully.
pub open spec fn round_after_successes(total: nat, k: nat) -> RoundView
    decreases k,
{
    if k == 0 {
        RoundView { next: 0, total, finished: total == 0 }
    } else {
        round_heard(round_after_successes(total, (k - 1) as nat), true)
    }
}

impl View for ListenerRound {
    type V = RoundView;

    closed spec fn view(&self) -> RoundView {
        RoundView { next: self.next as nat, total: self.total as nat, finished: self.finished }
    }
}

impl ListenerRound {
    /// A round over `total` listeners, none notified yet.
    pub fn new(total: usize) -> (r: ListenerRound)
        ensures
            r@ == (RoundView { next: 0, total: total as nat, finished: false }),
    {
        ListenerRound { next: 0, total, finished: false }
    }

    /// Starts the round: the first listener is notified, or, without
    /// listeners, the round is over at once and succeeds.
    pub fn start(&mut self) -> (a: RoundAction)
        requires
            old(self)@.next == 0,
            !old(self)@.finished,
        ensures
            old(self)@.total == 0 ==> (a matches RoundAction::Finish(Ok(())) && final(self)@ == (RoundView {
                finished: true,
                ..old(self)@
            })),
            old(self)@.total > 0 ==> (a matches RoundAction::Notify(0) && final(self)@ == old(self)@),
    {
        if self.total == 0 {
            self.finished = true;
            RoundAction::Finish(Ok(()))
        } else {
            RoundAction::Notify(0)
        }
    }

    /// The listener at the current position answered `outcome`; `name` is
    /// its name. A failure ends the round with the listener error built from
    /// it (see [`listener_failure`]); a success moves on to the next
    /// listener, or ends the round successfully after the last one.
    pub fn heard(&mut self, name: &str, outcome: Result<(), ArtfulError>) -> (a: RoundAction)
        requires
            !old(self)@.finished,
            old(self)@.next < old(self)@.total,
        ensures
            final(self)@ == round_heard(old(self)@, outcome is Ok),
            match outcome {
                Err(e) => a matches RoundAction::Finish(Err(ArtfulError::EventListenerError {
                    listener_name: n,
                    message,
                    source: Some(s),
                    original: None,
                })) && n@ == name@ && message@ == error_text(e) && *s == e,
                Ok(()) => if final(self)@.finished {
                    a matches RoundAction::Finish(Ok(()))
                } else {
                    a matches RoundAction::Notify(i) && i == final(self)@.next
                },
            },
    {
        match outcome {
            Err(err) => {
                self.finished = true;
                RoundAction::Finish(Err(listener_failure(name, err)))
            },
            Ok(()) => {
                self.next = self.next + 1;
                if self.next == self.total {
                    self.finished = true;
                    RoundAction::Finish(Ok(()))
                } else {
                    RoundAction::Notify(self.next)
                }
            },
        }
    }
}

/// Listeners are notified in registration order, each once: in a round
/// over `total` listeners, after `k` successful answers (`k` below `total`)
/// the listener notified next is the one at position `k`, and the round is
/// not over; after all `total` answered successfully it is over.
pub proof fn law_round_in_order(total: nat, k: nat)
    requires
        k <= total,
    ensures
        round_after_successes(total, k).next == k,
        round_after_successes(total, k).total == total,
        round_after_successes(total, k).finished <==> k == total,
    decreases k,
{
    if k > 0 {
        law_round_in_order(total, (k - 1) as nat);
    }
}

/// The first failure ends the round: after a failed answer the round is
/// over, no further listener is notified, and the position stays at the
/// listener that failed.
pub proof fn law_round_stops_at_first_failure(v: RoundView)
    ensures
        round_heard(v, false).finished,
        round_heard(v, false).next == v.next,
        round_heard(v, false).total == v.total,
{
}

impl<L: ?Sized> Clone for EventDispatcher<L> {
    fn clone(&self) -> (d: EventDispatcher<L>)
        ensures
            d.listeners().len() == self.listeners().len(),
    {
        EventDispatcher { listeners: self.listeners.clone() }
    }
}

impl<L: ?Sized> Default for EventDispatcher<L> {
    fn default() -> (d: EventDispatcher<L>)
        ensures
            d.listeners() == Seq::<Arc<L>>::empty(),
    {
        EventDispatcher::new()
    }
}

} // verus!
