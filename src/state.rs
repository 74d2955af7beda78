use std::collections::VecDeque;
use vstd::prelude::*;

use crate::history::{pushed, HistoricalNode, StateHistory};

use crate::on_transition::{ExitTransitionBehavior, StateTransitionStrategy};

verus! {

broadcast use crate::history::HistoricalNode::lemma_new_fields;

/// An opaque handle of a state or of a state machine, owned by the host.
pub type StateId = u64;

/// The lifecycle phase of a state machine's current state.
#[derive(Debug, Clone, Copy, PartialEq, Eq, Hash, Structural)]
pub enum HsmOnState {
    /// The state's enter callback is due.
    Enter,
    /// The state is running.
    Update,
    /// The state's exit callback is due.
    Exit,
}

impl Default for HsmOnState {
    fn default() -> (r: Self)
        ensures
            r == HsmOnState::Enter,
    {
        HsmOnState::Enter
    }
}

/// A state's settings: the machine it belongs to, how its children's
/// lifecycles relate to its own, and what happens to it when a child exits.
#[derive(Debug, Clone, Copy, PartialEq, Eq, Hash, Structural)]
pub struct HsmState {
    pub state_machine: StateId,
    pub strategy: StateTransitionStrategy,
    pub behavior: ExitTransitionBehavior,
}

impl HsmState {
    /// A state of `state_machine` with the default strategy (`Parallel`)
    /// and behavior (`Death`).
    pub fn with_id(state_machine: StateId) -> (r: Self)
        ensures
            r.state_machine == state_machine,
            r.strategy == StateTransitionStrategy::Parallel,
            r.behavior == ExitTransitionBehavior::Death,
    {
        Self {
            state_machine,
            strategy: StateTransitionStrategy::Parallel,
            behavior: ExitTransitionBehavior::Death,
        }
    }

    pub fn with(
        state_machine: StateId,
        strategy: StateTransitionStrategy,
        behavior: ExitTransitionBehavior,
    ) -> (r: Self)
        ensures
            r.state_machine == state_machine,
            r.strategy == strategy,
            r.behavior == behavior,
    {
        Self { state_machine, strategy, behavior }
    }

    pub fn set_strategy(self, strategy: StateTransitionStrategy) -> (r: Self)
        ensures
            r == (Self { strategy, ..self }),
    {
        Self { strategy, ..self }
    }

    pub fn set_behavior(self, behavior: ExitTransitionBehavior) -> (r: Self)
        ensures
            r == (Self { behavior, ..self }),
    {
        Self { behavior, ..self }
    }
}

/// An entry of a machine's pending-transition queue.
#[derive(Debug, Clone, Copy, PartialEq, Eq, Structural)]
pub enum NextState {
    /// Move to this state, in this phase.
    Next(StateId, HsmOnState),
    /// Nothing follows: the machine terminates.
    End,
}

/// What the host does once a state's exit callback has run.
#[derive(Debug, Clone, Copy, PartialEq, Eq, Structural)]
pub enum LifecycleStep {
    /// Set the machine's phase to this one.
    Phase(HsmOnState),
    /// Mark the machine terminated.
    Terminate,
}

/// The record of one state machine: its bounded history (whose last entry
/// is the current state), its queue of pending transitions, and the state it
/// starts from.
#[derive(Debug, Clone, PartialEq, Eq)]
pub struct StateMachine {
    history: StateHistory,
    next_state: VecDeque<NextState>,
    initial_state: StateId,
}

/// The entry that the history records for `state` in phase `on_state`.
pub open spec fn entry(state: StateId, on_state: HsmOnState) -> HistoricalNode {
    HistoricalNode::new_spec(state, on_state)
}

impl StateMachine {
    /// The pending transitions, front first.
    pub closed spec fn pending(&self) -> Seq<NextState> {
        self.next_state@
    }

    pub closed spec fn initial(&self) -> StateId {
        self.initial_state
    }

    /// The history entries, oldest first.
    pub closed spec fn entries(&self) -> Seq<HistoricalNode> {
        self.history.view()
    }

    /// The capacity of the history.
    pub closed spec fn capacity(&self) -> nat {
        self.history.capacity()
    }

    /// The current state: the state of the latest history entry.
    pub open spec fn current(&self) -> Option<StateId> {
        if self.entries().len() == 0 {
            None
        } else {
            Some(self.entries().last().spec_id())
        }
    }

    /// A machine that starts in `current_state`, in its enter phase, with
    /// room for `history_len` history entries.
    pub fn new(history_len: usize, current_state: StateId) -> (r: Self)
        ensures
            r.entries() == seq![entry(current_state, HsmOnState::Enter)],
            r.capacity() == history_len,
            r.pending() == Seq::<NextState>::empty(),
            r.initial() == current_state,
            r.current() == Some(current_state),
    {
        let mut history = StateHistory::new(history_len);
        history.push(HistoricalNode::new(current_state, HsmOnState::Enter));
        proof {
            assert(history.view() =~= seq![entry(current_state, HsmOnState::Enter)]);
        }
        Self { history, next_state: VecDeque::new(), initial_state: current_state }
    }

    /// The id of the current state.
    pub fn curr_state_id(&self) -> (r: Option<StateId>)
        ensures
            r == self.current(),
    {
        match self.history.get_current() {
            Some(node) => Some(node.id()),
            None => None,
        }
    }

    /// The first pending transition.
    pub fn next_state_id(&self) -> (r: Option<NextState>)
        ensures
            self.pending().len() == 0 ==> r is None,
            self.pending().len() > 0 ==> r == Some(self.pending()[0]),
    {
        if self.next_state.len() == 0 {
            None
        } else {
            Some(self.next_state[0])
        }
    }

    pub fn set_initial_state(&mut self, state: StateId)
        ensures
            final(self).initial() == state,
            final(self).entries() == old(self).entries(),
            final(self).capacity() == old(self).capacity(),
            final(self).pending() == old(self).pending(),
    {
        self.initial_state = state;
    }

    /// Records `state` in phase `on_state` as the latest history entry.
    pub fn push_history(&mut self, state: StateId, on_state: HsmOnState)
        ensures
            final(self).entries() == pushed(
                old(self).entries(),
                old(self).capacity(),
                entry(state, on_state),
            ),
            final(self).capacity() == old(self).capacity(),
            final(self).current() == Some(state),
            final(self).pending() == old(self).pending(),
            final(self).initial() == old(self).initial(),
    {
        self.history.push(HistoricalNode::new(state, on_state));
    }

    /// Enqueues a transition at the back of the pending queue.
    pub fn push_next_state(&mut self, next_state: NextState)
        ensures
            final(self).pending() == old(self).pending().push(next_state),
            final(self).entries() == old(self).entries(),
            final(self).capacity() == old(self).capacity(),
            final(self).initial() == old(self).initial(),
    {
        self.next_state.push_back(next_state);
    }

    /// Appends transitions, in order, at the back of the pending queue.
    pub fn push_next_states(&mut self, next_states: Vec<NextState>)
        ensures
            final(self).pending() == old(self).pending() + next_states@,
            final(self).entries() == old(self).entries(),
            final(self).capacity() == old(self).capacity(),
            final(self).initial() == old(self).initial(),
    {
        let n = next_states.len();
        let mut i: usize = 0;
        while i < n
            invariant
                n == next_states@.len(),
                i <= n,
                self.next_state@ == old(self).next_state@ + next_states@.subrange(0, i as int),
                self.history == old(self).history,
                self.initial_state == old(self).initial_state,
            decreases n - i,
        {
            self.next_state.push_back(next_states[i]);
            i += 1;
            proof {
                assert(self.next_state@ =~= old(self).next_state@ + next_states@.subrange(
                    0,
                    i as int,
                ));
            }
        }
        proof {
            assert(next_states@.subrange(0, n as int) =~= next_states@);
        }
    }

    /// The state of the first pending transition, if it names one.
    pub fn get_next_state(&self) -> (r: Option<StateId>)
        ensures
            r == (if self.pending().len() > 0 {
                match self.pending()[0] {
                    NextState::Next(id, _) => Some(id),
                    NextState::End => None,
                }
            } else {
                None
            }),
    {
        if self.next_state.len() == 0 {
            return None;
        }
        match self.next_state[0] {
            NextState::Next(id, _) => Some(id),
            NextState::End => None,
        }
    }

    /// The phase of the first pending transition, if it names one.
    pub fn get_next_state_on_state(&self) -> (r: Option<HsmOnState>)
        ensures
            r == (if self.pending().len() > 0 {
                match self.pending()[0] {
                    NextState::Next(_, on_state) => Some(on_state),
                    NextState::End => None,
                }
            } else {
                None
            }),
    {
        if self.next_state.len() == 0 {
            return None;
        }
        match self.next_state[0] {
            NextState::Next(_, on_state) => Some(on_state),
            NextState::End => None,
        }
    }

    /// Removes and returns the first pending transition.
    pub fn pop_next_state(&mut self) -> (r: Option<NextState>)
        ensures
            old(self).pending().len() == 0 ==> r is None && final(self).pending() == old(self).pending(),
            old(self).pending().len() > 0 ==> r == Some(old(self).pending()[0]) && final(self).pending() == old(self).pending().drop_first(),
            final(self).entries() == old(self).entries(),
            final(self).capacity() == old(self).capacity(),
            final(self).initial() == old(self).initial(),
    {
        self.next_state.pop_front()
    }

    /// Moves to the first pending transition when it names a state: it is
    /// removed from the queue and recorded in the history. Any other front
    /// entry is removed and nothing is recorded.
    pub fn update(&mut self)
        ensures
            old(self).pending().len() == 0 ==> *final(self) == *old(self),
            old(self).pending().len() > 0 ==> final(self).pending() == old(self).pending().drop_first(),
            old(self).pending().len() > 0 ==> match old(self).pending()[0] {
                NextState::Next(s, on_state) => final(self).entries() == pushed(
                    old(self).entries(),
                    old(self).capacity(),
                    entry(s, on_state),
                ),
                NextState::End => final(self).entries() == old(self).entries(),
            },
            final(self).capacity() == old(self).capacity(),
            final(self).initial() == old(self).initial(),
    {
        if self.next_state.len() == 0 {
            return;
        }
        match self.next_state.pop_front() {
            Some(NextState::Next(s, on_state)) => self.push_history(s, on_state),
            _ => {},
        }
    }

    /// The state recorded just before the current one.
    pub fn prev_state_id(&self) -> (r: Option<StateId>)
        ensures
            self.entries().len() < 2 ==> r is None,
            self.entries().len() >= 2 ==> r == Some(
                self.entries()[self.entries().len() - 2].spec_id(),
            ),
    {
        if self.history.len() < 2 {
            return None;
        }
        match self.history.get_at(2) {
            Some(node) => Some(node.id()),
            None => None,
        }
    }

    pub fn has_prev_state(&self) -> (r: bool)
        ensures
            r == (self.entries().len() >= 2),
    {
        self.history.len() >= 2
    }

    /// The history entries, oldest first.
    pub fn get_history(&self) -> (r: Vec<HistoricalNode>)
        ensures
            r@ == self.entries(),
    {
        self.history.to_vec()
    }

    /// The step the host takes once the current state's exit callback has
    /// run: an exhausted queue or a pending end terminates the machine; a
    /// pending state is recorded and its phase is set.
    pub fn on_exit_complete(&mut self) -> (r: LifecycleStep)
        ensures
            old(self).pending().len() == 0 ==> r == LifecycleStep::Terminate
                && final(self).entries() == old(self).entries()
                && final(self).pending() == old(self).pending(),
            old(self).pending().len() > 0 ==> final(self).pending() == old(self).pending().drop_first(),
            old(self).pending().len() > 0 ==> match old(self).pending()[0] {
                NextState::Next(s, on_state) => r == LifecycleStep::Phase(on_state)
                    && final(self).entries() == pushed(
                    old(self).entries(),
                    old(self).capacity(),
                    entry(s, on_state),
                ),
                NextState::End => r == LifecycleStep::Terminate && final(self).entries() == old(self).entries(),
            },
            final(self).capacity() == old(self).capacity(),
            final(self).initial() == old(self).initial(),
    {
        match self.pop_next_state() {
            None => LifecycleStep::Terminate,
            Some(NextState::End) => LifecycleStep::Terminate,
            Some(NextState::Next(s, on_state)) => {
                self.push_history(s, on_state);
                LifecycleStep::Phase(on_state)
            },
        }
    }

    /// The step the host takes when the machine enters its enter phase:
    /// the first pending transition, if it names a state, becomes current.
    /// Returns the state whose enter callback is to run.
    pub fn on_enter(&mut self) -> (r: Option<StateId>)
        ensures
            old(self).pending().len() == 0 ==> final(self).entries() == old(self).entries()
                && final(self).pending() == old(self).pending(),
            old(self).pending().len() > 0 ==> final(self).pending() == old(self).pending().drop_first(),
            old(self).pending().len() > 0 ==> match old(self).pending()[0] {
                NextState::Next(s, on_state) => final(self).entries() == pushed(
                    old(self).entries(),
                    old(self).capacity(),
                    entry(s, on_state),
                ),
                NextState::End => final(self).entries() == old(self).entries(),
            },
            r == final(self).current(),
            final(self).capacity() == old(self).capacity(),
            final(self).initial() == old(self).initial(),
    {
        self.update();
        self.curr_state_id()
    }

    /// Clears a terminated machine: the pending queue and the history are
    /// emptied and the machine starts over from its initial state.
    pub fn reset(&mut self)
        ensures
            final(self).pending() == Seq::<NextState>::empty(),
            final(self).entries() == pushed(
                Seq::empty(),
                old(self).capacity(),
                entry(old(self).initial(), HsmOnState::Enter),
            ),
            final(self).capacity() == old(self).capacity(),
            final(self).current() == Some(old(self).initial()),
            final(self).initial() == old(self).initial(),
    {
        self.next_state.clear();
        self.history.clear();
        let initial = self.initial_state;
        self.push_history(initial, HsmOnState::Enter);
    }
}

/// The states that belong to one machine, kept sorted and without repeats.
#[derive(Debug, Clone, PartialEq, Eq, Default)]
pub struct HsmStateGroup {
    states: Vec<StateId>,
}

impl HsmStateGroup {
    /// The states of the group, in increasing order.
    pub closed spec fn view(&self) -> Seq<StateId> {
        self.states@
    }

    pub open spec fn wf(&self) -> bool {
        forall|i: int, j: int| 0 <= i < j < self@.len() ==> self@[i] < self@[j]
    }

    pub fn new() -> (r: Self)
        ensures
            r.wf(),
            r@ == Seq::<StateId>::empty(),
    {
        Self { states: Vec::new() }
    }

    /// `Ok` with the position of `state`, or `Err` with the position where
    /// it would be inserted.
    fn search(&self, state: StateId) -> (r: Result<usize, usize>)
        requires
            self.wf(),
        ensures
            r matches Ok(i) ==> i < self@.len() && self@[i as int] == state,
            r matches Err(i) ==> i <= self@.len() && !self@.contains(state) && (forall|j: int|
                0 <= j < i ==> self@[j] < state) && (forall|j: int|
                i <= j < self@.len() ==> self@[j] > state),
    {
        let mut lo: usize = 0;
        let mut hi: usize = self.states.len();
        while lo < hi
            invariant
                self.wf(),
                hi <= self@.len(),
                lo <= hi,
                forall|j: int| 0 <= j < lo ==> self@[j] < state,
                forall|j: int| hi <= j < self@.len() ==> self@[j] > state,
            decreases hi - lo,
        {
            let mid = lo + (hi - lo) / 2;
            let v = self.states[mid];
            if v == state {
                return Ok(mid);
            } else if v < state {
                lo = mid + 1;
            } else {
                hi = mid;
            }
        }
        Err(lo)
    }

    pub fn contains(&self, state: StateId) -> (r: bool)
        requires
            self.wf(),
        ensures
            r == self@.contains(state),
    {
        match self.search(state) {
            Ok(_) => true,
            Err(_) => false,
        }
    }

    /// Adds `state`, keeping the order; nothing changes if it is there.
    pub fn add(&mut self, state: StateId)
        requires
            old(self).wf(),
        ensures
            final(self).wf(),
            final(self)@.to_set() == old(self)@.to_set().insert(state),
            final(self)@.len() == old(self)@.len() + if old(self)@.contains(state) {
                0int
            } else {
                1int
            },
    {
        match self.search(state) {
            Ok(_) => {},
            Err(i) => {
                self.states.insert(i, state);
                proof {
                    let o = old(self)@;
                    assert(self@ =~= o.subrange(0, i as int).push(state) + o.subrange(i as int, o.len() as int));
                    assert forall|x: StateId| self@.contains(x) <==> (o.contains(x) || x == state) by {
                        if o.contains(x) {
                            let k = choose|k: int| 0 <= k < o.len() && o[k] == x;
                            if k < i {
                                assert(self@[k] == x);
                            } else {
                                assert(self@[k + 1] == x);
                            }
                        }
                        if x == state {
                            assert(self@[i as int] == x);
                        }
                        if self@.contains(x) {
                            let k = choose|k: int| 0 <= k < self@.len() && self@[k] == x;
                            if k < i {
                                assert(o[k] == x);
                            } else if k > i {
                                assert(o[k - 1] == x);
                            }
                        }
                    }
                    assert(self@.to_set() =~= o.to_set().insert(state));
                }
            },
        }
        proof {
            assert(self@.to_set() =~= old(self)@.to_set().insert(state));
        }
    }

    /// Removes `state` and returns the position it had.
    pub fn remove(&mut self, state: StateId) -> (r: Option<usize>)
        requires
            old(self).wf(),
        ensures
            final(self).wf(),
            r matches Some(i) ==> i < old(self)@.len() && old(self)@[i as int] == state
                && final(self)@ == old(self)@.remove(i as int),
            r is None ==> !old(self)@.contains(state) && final(self)@ == old(self)@,
            !final(self)@.contains(state),
    {
        match self.search(state) {
            Ok(i) => {
                self.states.remove(i);
                proof {
                    let o = old(self)@;
                    assert forall|a: int, b: int| 0 <= a < b < self@.len() implies self@[a] < self@[b] by {
                        let oa = if a < i { a } else { a + 1 };
                        let ob = if b < i { b } else { b + 1 };
                        assert(self@[a] == o[oa]);
                        assert(self@[b] == o[ob]);
                    }
                    if self@.contains(state) {
                        let k = choose|k: int| 0 <= k < self@.len() && self@[k] == state;
                        let ok = if k < i { k } else { k + 1 };
                        assert(o[ok] == state);
                        assert(ok != i);
                        if ok < i {
                            assert(o[ok] < o[i as int]);
                        } else {
                            assert(o[i as int] < o[ok]);
                        }
                    }
                }
                Some(i)
            },
            Err(_) => None,
        }
    }

    pub fn len(&self) -> (r: usize)
        ensures
            r == self@.len(),
    {
        self.states.len()
    }

    pub fn is_empty(&self) -> (r: bool)
        ensures
            r == (self@.len() == 0),
    {
        self.states.len() == 0
    }
}

/// Names the enter callback of a state.
#[derive(Debug, PartialEq, Eq, Default)]
pub struct HsmOnEnterSystem(pub String);

impl HsmOnEnterSystem {
    pub fn new(name: &str) -> (r: Self)
        ensures
            r.0@ == name@,
    {
        HsmOnEnterSystem(name.to_owned())
    }
}

/// Names the action of a state while it updates: `"Schedule:action"`, or
/// `"Schedule"` for an anchor.
#[derive(Debug, PartialEq, Eq, Default)]
pub struct HsmOnUpdateSystem(pub String);

impl HsmOnUpdateSystem {
    pub fn new(name: &str) -> (r: Self)
        ensures
            r.0@ == name@,
    {
        HsmOnUpdateSystem(name.to_owned())
    }
}

/// Names the exit callback of a state.
#[derive(Debug, PartialEq, Eq, Default)]
pub struct HsmOnExitSystem(pub String);

impl HsmOnExitSystem {
    pub fn new(name: &str) -> (r: Self)
        ensures
            r.0@ == name@,
    {
        HsmOnExitSystem(name.to_owned())
    }
}

} // verus!
