//! Onion-model flow control.
//!
//! A [`FlowCtrl`] walks a list of plugins in order. Each plugin receives a
//! [`Next`] and decides whether to go on to the next layer; when the plugins
//! run out, the tail core action (if one was set) runs exactly once.
//! The controller only decides what runs next; running a plugin is left to
//! its caller, which hands back control through [`Next::advance`].

use vstd::prelude::*;

verus! {

/// The abstract state of a flow controller.
pub struct FlowState {
    pub cursor: nat,
    pub plugins: nat,
    pub core_pending: bool,
    pub ceased: bool,
}

/// What the controller asks its caller to run next.
#[derive(PartialEq, Eq, Structural, Clone, Copy, Debug)]
pub enum FlowStep {
    /// Run the plugin with this index, handing it a [`Next`].
    Plugin(usize),
    /// Run the tail core action.
    Core,
    /// Nothing is left to run.
    Finished,
}

/// The onion-model flow controller.
#[derive(Debug)]
pub struct FlowCtrl<P> {
    cursor: usize,
    plugins_count: usize,
    plugins: Vec<P>,
    core_pending: bool,
    is_ceased: bool,
}

/// The successor state and the step that `advance` takes from `s`.
pub open spec fn advance_spec(s: FlowState) -> (FlowState, FlowStep) {
    if s.ceased {
        (s, FlowStep::Finished)
    } else if s.cursor >= s.plugins {
        if s.core_pending {
            (FlowState { core_pending: false, ..s }, FlowStep::Core)
        } else {
            (s, FlowStep::Finished)
        }
    } else {
        (FlowState { cursor: s.cursor + 1, ..s }, FlowStep::Plugin(s.cursor as usize))
    }
}

/// The state after `skip_rest`.
pub open spec fn skip_rest_spec(s: FlowState) -> FlowState {
    FlowState { cursor: s.plugins, ceased: true, ..s }
}

/// Whether a state is reachable: the cursor never passes the plugin count.
pub open spec fn flow_wf(s: FlowState) -> bool {
    s.cursor <= s.plugins
}

impl<P> FlowCtrl<P> {
    pub closed spec fn view(&self) -> FlowState {
        FlowState {
            cursor: self.cursor as nat,
            plugins: self.plugins@.len(),
            core_pending: self.core_pending,
            ceased: self.is_ceased,
        }
    }

    /// The plugins, in running order.
    pub closed spec fn plugin_seq(&self) -> Seq<P> {
        self.plugins@
    }

    #[verifier::type_invariant]
    closed spec fn inv(&self) -> bool {
        &&& self.cursor <= self.plugins@.len()
        &&& self.plugins_count == self.plugins@.len()
    }

    /// A controller at the first plugin, with no core action and not ceased.
    pub fn new(plugins: Vec<P>) -> (c: FlowCtrl<P>)
        ensures
            c@ == (FlowState { cursor: 0, plugins: plugins@.len(), core_pending: false, ceased: false }),
            c.plugin_seq() == plugins@,
    {
        let n = plugins.len();
        FlowCtrl { cursor: 0, plugins_count: n, plugins, core_pending: false, is_ceased: false }
    }

    /// Mounts the tail core action.
    pub fn set_core(&mut self)
        ensures
            final(self)@ == (FlowState { core_pending: true, ..old(self)@ }),
            final(self).plugin_seq() == old(self).plugin_seq(),
    {
        proof {
            use_type_invariant(&*self);
        }
        self.core_pending = true;
    }

    /// Whether a plugin is left to run.
    pub fn has_next(&self) -> (b: bool)
        ensures
            b == (self@.cursor < self@.plugins),
            flow_wf(self@),
    {
        proof {
            use_type_invariant(self);
        }
        self.cursor < self.plugins_count
    }

    /// Skips all remaining plugins and the core action.
    pub fn skip_rest(&mut self)
        ensures
            final(self)@ == skip_rest_spec(old(self)@),
            final(self).plugin_seq() == old(self).plugin_seq(),
    {
        proof {
            use_type_invariant(&*self);
        }
        self.cursor = self.plugins_count;
        self.is_ceased = true;
    }

    /// Whether the flow was ceased by `skip_rest`.
    pub fn is_ceased(&self) -> (b: bool)
        ensures
            b == self@.ceased,
    {
        self.is_ceased
    }

    /// Number of plugins.
    pub fn plugins_count(&self) -> (n: usize)
        ensures
            n == self@.plugins,
    {
        proof {
            use_type_invariant(self);
        }
        self.plugins_count
    }

    /// The plugin with index `i`.
    pub fn plugin(&self, i: usize) -> (p: &P)
        requires
            i < self@.plugins,
        ensures
            *p == self.plugin_seq()[i as int],
    {
        &self.plugins[i]
    }

    /// Decides what runs next and moves the controller past it.
    pub fn advance(&mut self) -> (step: FlowStep)
        ensures
            (final(self)@, step) == advance_spec(old(self)@),
            final(self).plugin_seq() == old(self).plugin_seq(),
            flow_wf(final(self)@),
    {
        proof {
            use_type_invariant(&*self);
        }
        if self.is_ceased {
            return FlowStep::Finished;
        }
        if self.cursor >= self.plugins_count {
            if self.core_pending {
                self.core_pending = false;
                return FlowStep::Core;
            }
            return FlowStep::Finished;
        }
        let i = self.cursor;
        self.cursor = i + 1;
        FlowStep::Plugin(i)
    }
}

/// The handle a plugin receives to pass control to the next layer.
pub struct Next<'a, P> {
    pub ctrl: &'a mut FlowCtrl<P>,
}

impl<'a, P> Next<'a, P> {
    /// Decides what the next layer is; see [`FlowCtrl::advance`].
    pub fn advance(self) -> (step: FlowStep)
        ensures
            (final(self.ctrl)@, step) == advance_spec(old(self.ctrl)@),
    {
        self.ctrl.advance()
    }
}

/// After `skip_rest`, the flow is over: nothing more runs, the core action
/// included, however often the controller is advanced.
pub proof fn law_skip_rest_is_terminal(s: FlowState)
    ensures
        advance_spec(skip_rest_spec(s)).1 == FlowStep::Finished,
        advance_spec(skip_rest_spec(s)).0 == skip_rest_spec(s),
        !(skip_rest_spec(s).cursor < skip_rest_spec(s).plugins),
        skip_rest_spec(s).ceased,
{
}

/// The core action runs at most once: once it has been handed out, further
/// advances never hand it out again.
pub proof fn law_core_runs_once(s: FlowState)
    requires
        advance_spec(s).1 == FlowStep::Core,
    ensures
        !advance_spec(s).0.core_pending,
        advance_spec(advance_spec(s).0).1 == FlowStep::Finished,
        advance_spec(advance_spec(s).0).0 == advance_spec(s).0,
{
}

/// The state after advancing `k` times, and the steps handed out.
pub open spec fn advance_n(s: FlowState, k: nat) -> (FlowState, Seq<FlowStep>)
    decreases k,
{
    if k == 0 {
        (s, Seq::empty())
    } else {
        let (t, steps) = advance_n(s, (k - 1) as nat);
        let (u, step) = advance_spec(t);
        (u, steps.push(step))
    }
}

/// Plugins are handed out in order, each exactly once: from a fresh
/// controller, advancing `k` times (k at most the plugin count) hands out
/// plugins 0, 1, ..., k-1 and leaves the cursor at k.
pub proof fn law_plugins_in_order(s: FlowState, k: nat)
    requires
        !s.ceased,
        s.cursor == 0,
        k <= s.plugins,
    ensures
        advance_n(s, k).0.cursor == k,
        advance_n(s, k).0.core_pending == s.core_pending,
        !advance_n(s, k).0.ceased,
        advance_n(s, k).0.plugins == s.plugins,
        advance_n(s, k).1.len() == k,
        forall|i: int| 0 <= i < k ==> advance_n(s, k).1[i] == FlowStep::Plugin(i as usize),
    decreases k,
{
    if k > 0 {
        law_plugins_in_order(s, (k - 1) as nat);
        let (t, steps) = advance_n(s, (k - 1) as nat);
        assert(advance_n(s, k).1 == steps.push(FlowStep::Plugin(t.cursor as usize)));
    }
}

} // verus!
