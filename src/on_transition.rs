use std::collections::{HashMap, HashSet};
use vstd::prelude::*;

use crate::history::pushed;
use crate::state::{entry, HsmOnState, HsmState, NextState, StateId, StateMachine};
use crate::hook_system::HsmStateContext;
use crate::state_condition::CallbackError;
use crate::system_state::{added, HsmActionSystemBuffer};
use crate::state_tree::StateTree;

verus! {

broadcast use vstd::std_specs::hash::group_hash_axioms;

/// How a child's lifecycle relates to its parent's.
#[derive(Debug, Clone, Copy, PartialEq, Eq, Hash, Structural)]
pub enum StateTransitionStrategy {
    /// The parent stays active; the child enters and exits inside it.
    Nested,
    /// The parent exits before the child enters.
    Parallel,
}

impl StateTransitionStrategy {
    pub fn is_nested(&self) -> (r: bool)
        ensures
            r == (*self == StateTransitionStrategy::Nested),
    {
        match self {
            StateTransitionStrategy::Nested => true,
            StateTransitionStrategy::Parallel => false,
        }
    }

    pub fn is_parallel(&self) -> (r: bool)
        ensures
            r == (*self == StateTransitionStrategy::Parallel),
    {
        match self {
            StateTransitionStrategy::Nested => false,
            StateTransitionStrategy::Parallel => true,
        }
    }
}

impl Default for StateTransitionStrategy {
    fn default() -> (r: Self)
        ensures
            r == StateTransitionStrategy::Parallel,
    {
        StateTransitionStrategy::Parallel
    }
}

/// What happens to a parent when one of its children exits.
#[derive(Debug, Clone, Copy, PartialEq, Eq, Hash, Structural)]
pub enum ExitTransitionBehavior {
    /// The parent runs its enter phase again.
    Rebirth,
    /// The parent resumes at its update phase.
    Resurrection,
    /// The parent exits too, and the decision passes on to its own parent.
    Death,
}

impl Default for ExitTransitionBehavior {
    fn default() -> (r: Self)
        ensures
            r == ExitTransitionBehavior::Death,
    {
        ExitTransitionBehavior::Death
    }
}

/// The phase that an exit behavior leads to.
pub open spec fn phase_of(b: ExitTransitionBehavior) -> HsmOnState {
    match b {
        ExitTransitionBehavior::Rebirth => HsmOnState::Enter,
        ExitTransitionBehavior::Resurrection => HsmOnState::Update,
        ExitTransitionBehavior::Death => HsmOnState::Exit,
    }
}

/// The exit behavior that corresponds to a phase.
pub open spec fn behavior_of(p: HsmOnState) -> ExitTransitionBehavior {
    match p {
        HsmOnState::Enter => ExitTransitionBehavior::Rebirth,
        HsmOnState::Update => ExitTransitionBehavior::Resurrection,
        HsmOnState::Exit => ExitTransitionBehavior::Death,
    }
}

impl From<ExitTransitionBehavior> for HsmOnState {
    fn from(value: ExitTransitionBehavior) -> (r: Self)
        ensures
            r == phase_of(value),
    {
        match value {
            ExitTransitionBehavior::Rebirth => HsmOnState::Enter,
            ExitTransitionBehavior::Resurrection => HsmOnState::Update,
            ExitTransitionBehavior::Death => HsmOnState::Exit,
        }
    }
}

impl vstd::std_specs::convert::FromSpecImpl<ExitTransitionBehavior> for HsmOnState {
    open spec fn obeys_from_spec() -> bool {
        true
    }

    open spec fn from_spec(v: ExitTransitionBehavior) -> Self {
        phase_of(v)
    }
}

impl From<HsmOnState> for ExitTransitionBehavior {
    fn from(value: HsmOnState) -> (r: Self)
        ensures
            r == behavior_of(value),
    {
        match value {
            HsmOnState::Enter => ExitTransitionBehavior::Rebirth,
            HsmOnState::Update => ExitTransitionBehavior::Resurrection,
            HsmOnState::Exit => ExitTransitionBehavior::Death,
        }
    }
}

impl vstd::std_specs::convert::FromSpecImpl<HsmOnState> for ExitTransitionBehavior {
    open spec fn obeys_from_spec() -> bool {
        true
    }

    open spec fn from_spec(v: HsmOnState) -> Self {
        behavior_of(v)
    }
}

/// The parent of `id` together with its settings, when both are known.
pub open spec fn parent_info(tree: StateTree, states: Map<StateId, HsmState>, id: StateId) -> Option<
    (StateId, HsmState),
> {
    match tree.parent_of(id) {
        Some(p) => if states.contains_key(p) {
            Some((p, states[p]))
        } else {
            None
        },
        None => None,
    }
}

/// The transitions that follow the exit of a child of `id`, where `id` has
/// the given strategy and behavior. At most `fuel` parent links are followed;
/// a walk that would go further ends the machine.
pub open spec fn exit_plan(
    tree: StateTree,
    states: Map<StateId, HsmState>,
    id: StateId,
    strategy: StateTransitionStrategy,
    behavior: ExitTransitionBehavior,
    fuel: nat,
) -> Seq<NextState>
    decreases fuel, 1nat,
{
    match behavior {
        ExitTransitionBehavior::Resurrection => seq![NextState::Next(id, HsmOnState::Update)],
        ExitTransitionBehavior::Rebirth => seq![NextState::Next(id, HsmOnState::Enter)],
        ExitTransitionBehavior::Death => match strategy {
            StateTransitionStrategy::Nested => seq![NextState::Next(id, HsmOnState::Exit)]
                + nested_exit_chain(tree, states, id, fuel),
            StateTransitionStrategy::Parallel => parallel_exit_chain(tree, states, id, fuel),
        },
    }
}

/// The walk above a `(Nested, Death)` state `cur`: each `(Nested, Death)`
/// ancestor exits in turn; the root exits if its behavior is `Death` and
/// otherwise ends the machine; any other ancestor is resolved by its own settings.
pub open spec fn nested_exit_chain(
    tree: StateTree,
    states: Map<StateId, HsmState>,
    cur: StateId,
    fuel: nat,
) -> Seq<NextState>
    decreases fuel, 0nat,
{
    if fuel == 0 {
        seq![NextState::End]
    } else {
        match parent_info(tree, states, cur) {
            None => Seq::empty(),
            Some((p, info)) => if tree.parent_of(p) is None {
                if info.behavior == ExitTransitionBehavior::Death {
                    seq![NextState::Next(p, HsmOnState::Exit)]
                } else {
                    seq![NextState::End]
                }
            } else if !(info.strategy == StateTransitionStrategy::Nested && info.behavior
                == ExitTransitionBehavior::Death) {
                exit_plan(tree, states, p, info.strategy, info.behavior, (fuel - 1) as nat)
            } else {
                seq![NextState::Next(p, HsmOnState::Exit)] + nested_exit_chain(
                    tree,
                    states,
                    p,
                    (fuel - 1) as nat,
                )
            },
        }
    }
}

/// The walk above a `(Parallel, Death)` state `cur`: `(Parallel, Death)`
/// ancestors are passed over; the first other ancestor is resolved by its own
/// settings; reaching the top ends the machine.
pub open spec fn parallel_exit_chain(
    tree: StateTree,
    states: Map<StateId, HsmState>,
    cur: StateId,
    fuel: nat,
) -> Seq<NextState>
    decreases fuel, 0nat,
{
    if fuel == 0 {
        seq![NextState::End]
    } else {
        match parent_info(tree, states, cur) {
            None => seq![NextState::End],
            Some((p, info)) => if !(info.strategy == StateTransitionStrategy::Parallel
                && info.behavior == ExitTransitionBehavior::Death) {
                exit_plan(tree, states, p, info.strategy, info.behavior, (fuel - 1) as nat)
            } else {
                parallel_exit_chain(tree, states, p, (fuel - 1) as nat)
            },
        }
    }
}

fn parent_info_of(tree: &StateTree, states: &HashMap<StateId, HsmState>, id: StateId) -> (r:
    Option<(StateId, HsmState)>)
    ensures
        r == parent_info(*tree, states@, id),
{
    match tree.get_super_state(id) {
        Some(p) => match states.get(&p) {
            Some(info) => Some((p, *info)),
            None => None,
        },
        None => None,
    }
}

fn exit_plan_into(
    tree: &StateTree,
    states: &HashMap<StateId, HsmState>,
    id: StateId,
    strategy: StateTransitionStrategy,
    behavior: ExitTransitionBehavior,
    fuel: usize,
    out: &mut Vec<NextState>,
)
    ensures
        final(out)@ == old(out)@ + exit_plan(*tree, states@, id, strategy, behavior, fuel as nat),
    decreases fuel, 1nat,
{
    match behavior {
        ExitTransitionBehavior::Resurrection => {
            out.push(NextState::Next(id, HsmOnState::Update));
        },
        ExitTransitionBehavior::Rebirth => {
            out.push(NextState::Next(id, HsmOnState::Enter));
        },
        ExitTransitionBehavior::Death => match strategy {
            StateTransitionStrategy::Nested => {
                out.push(NextState::Next(id, HsmOnState::Exit));
                nested_chain_into(tree, states, id, fuel, out);
                proof {
                    assert(final(out)@ =~= old(out)@ + exit_plan(
                        *tree,
                        states@,
                        id,
                        strategy,
                        behavior,
                        fuel as nat,
                    ));
                }
            },
            StateTransitionStrategy::Parallel => {
                parallel_chain_into(tree, states, id, fuel, out);
            },
        },
    }
    proof {
        assert(final(out)@ =~= old(out)@ + exit_plan(*tree, states@, id, strategy, behavior, fuel as nat));
    }
}

fn nested_chain_into(
    tree: &StateTree,
    states: &HashMap<StateId, HsmState>,
    cur: StateId,
    fuel: usize,
    out: &mut Vec<NextState>,
)
    ensures
        final(out)@ == old(out)@ + nested_exit_chain(*tree, states@, cur, fuel as nat),
    decreases fuel, 0nat,
{
    if fuel == 0 {
        out.push(NextState::End);
    } else {
        match parent_info_of(tree, states, cur) {
            None => {},
            Some((p, info)) => {
                if tree.get_super_state(p).is_none() {
                    if info.behavior == ExitTransitionBehavior::Death {
                        out.push(NextState::Next(p, HsmOnState::Exit));
                    } else {
                        out.push(NextState::End);
                    }
                } else if !(info.strategy == StateTransitionStrategy::Nested && info.behavior
                    == ExitTransitionBehavior::Death) {
                    exit_plan_into(tree, states, p, info.strategy, info.behavior, fuel - 1, out);
                } else {
                    out.push(NextState::Next(p, HsmOnState::Exit));
                    nested_chain_into(tree, states, p, fuel - 1, out);
                }
            },
        }
    }
    proof {
        assert(final(out)@ =~= old(out)@ + nested_exit_chain(*tree, states@, cur, fuel as nat));
    }
}

fn parallel_chain_into(
    tree: &StateTree,
    states: &HashMap<StateId, HsmState>,
    cur: StateId,
    fuel: usize,
    out: &mut Vec<NextState>,
)
    ensures
        final(out)@ == old(out)@ + parallel_exit_chain(*tree, states@, cur, fuel as nat),
    decreases fuel, 0nat,
{
    if fuel == 0 {
        out.push(NextState::End);
    } else {
        match parent_info_of(tree, states, cur) {
            None => {
                out.push(NextState::End);
            },
            Some((p, info)) => {
                if !(info.strategy == StateTransitionStrategy::Parallel && info.behavior
                    == ExitTransitionBehavior::Death) {
                    exit_plan_into(tree, states, p, info.strategy, info.behavior, fuel - 1, out);
                } else {
                    parallel_chain_into(tree, states, p, fuel - 1, out);
                }
            },
        }
    }
    proof {
        assert(final(out)@ =~= old(out)@ + parallel_exit_chain(*tree, states@, cur, fuel as nat));
    }
}

/// The pending transitions that follow the exit of a child of `state_id`,
/// a state with the given strategy and behavior: the exit-resolution walk up
/// the tree, bounded by the number of states in the tree.
pub fn get_on_exit_next_states(
    tree: &StateTree,
    states: &HashMap<StateId, HsmState>,
    state_id: StateId,
    strategy: StateTransitionStrategy,
    behavior: ExitTransitionBehavior,
) -> (r: Vec<NextState>)
    ensures
        r@ == exit_plan(*tree, states@, state_id, strategy, behavior, tree.nodes().len()),
{
    let mut out: Vec<NextState> = Vec::new();
    exit_plan_into(tree, states, state_id, strategy, behavior, tree.len(), &mut out);
    proof {
        assert(out@ =~= exit_plan(*tree, states@, state_id, strategy, behavior, tree.nodes().len()));
    }
    out
}

/// The index of the first candidate whose enter guard came out `true`; a
/// guard that failed to run counts as no match.
pub fn first_match(outcomes: &Vec<Result<bool, CallbackError>>) -> (r: Option<usize>)
    ensures
        r matches Some(i) ==> i < outcomes@.len() && outcomes@[i as int] == Ok::<
            bool,
            CallbackError,
        >(true) && forall|j: int| 0 <= j < i ==> outcomes@[j] != Ok::<bool, CallbackError>(true),
        r is None ==> forall|j: int|
            0 <= j < outcomes@.len() ==> outcomes@[j] != Ok::<bool, CallbackError>(true),
{
    let n = outcomes.len();
    let mut i: usize = 0;
    while i < n
        invariant
            n == outcomes@.len(),
            i <= n,
            forall|j: int| 0 <= j < i ==> outcomes@[j] != Ok::<bool, CallbackError>(true),
        decreases n - i,
    {
        match outcomes[i] {
            Ok(true) => {
                return Some(i);
            },
            _ => {},
        }
        i += 1;
    }
    None
}

/// Records the entry into `child`, whose enter guard passed, from
/// `curr_state`, a state with the given strategy, and returns the phase the
/// machine moves to. `Nested`: the child is recorded and enters at once.
/// `Parallel`: the parent is recorded as exiting, the child is enqueued at
/// the back of the pending transitions, and the machine exits first.
pub fn apply_enter_transition(
    machine: &mut StateMachine,
    curr_state: StateId,
    strategy: StateTransitionStrategy,
    child: StateId,
) -> (r: HsmOnState)
    ensures
        final(machine).capacity() == old(machine).capacity(),
        final(machine).initial() == old(machine).initial(),
        strategy == StateTransitionStrategy::Nested ==> r == HsmOnState::Enter && final(machine).entries() == pushed(
            old(machine).entries(),
            old(machine).capacity(),
            entry(child, HsmOnState::Enter),
        ) && final(machine).pending() == old(machine).pending(),
        strategy == StateTransitionStrategy::Parallel ==> r == HsmOnState::Exit && final(machine).entries() == pushed(
            old(machine).entries(),
            old(machine).capacity(),
            entry(curr_state, HsmOnState::Exit),
        ) && final(machine).pending() == old(machine).pending().push(NextState::Next(child, HsmOnState::Enter)),
{
    match strategy {
        StateTransitionStrategy::Nested => {
            machine.push_history(child, HsmOnState::Enter);
            HsmOnState::Enter
        },
        StateTransitionStrategy::Parallel => {
            machine.push_history(curr_state, HsmOnState::Exit);
            machine.push_next_state(NextState::Next(child, HsmOnState::Enter));
            HsmOnState::Exit
        },
    }
}

/// Records the exit of `curr_state`, whose exit guard passed: the
/// transitions that the exit resolution gives for its parent are queued,
/// the state is recorded as exiting, and the machine moves to its exit
/// phase. Nothing changes when the parent or its settings are unknown.
pub fn apply_exit_transition(
    machine: &mut StateMachine,
    tree: &StateTree,
    states: &HashMap<StateId, HsmState>,
    curr_state: StateId,
) -> (r: Option<HsmOnState>)
    ensures
        final(machine).capacity() == old(machine).capacity(),
        final(machine).initial() == old(machine).initial(),
        match parent_info(*tree, states@, curr_state) {
            None => r is None && final(machine).entries() == old(machine).entries() && final(machine).pending() == old(machine).pending(),
            Some((p, info)) => r == Some(HsmOnState::Exit) && final(machine).pending() == old(machine).pending() + exit_plan(
                *tree,
                states@,
                p,
                info.strategy,
                info.behavior,
                tree.nodes().len(),
            ) && final(machine).entries() == pushed(
                old(machine).entries(),
                old(machine).capacity(),
                entry(curr_state, HsmOnState::Exit),
            ),
        },
{
    match parent_info_of(tree, states, curr_state) {
        None => None,
        Some((p, info)) => {
            let next_states = get_on_exit_next_states(tree, states, p, info.strategy, info.behavior);
            machine.push_next_states(next_states);
            machine.push_history(curr_state, HsmOnState::Exit);
            Some(HsmOnState::Exit)
        },
    }
}

/// The machines whose guards are to be checked in the next pass.
#[derive(Debug, PartialEq, Eq, Default)]
pub struct CheckOnTransitionStates {
    machines: HashSet<StateId>,
}

impl CheckOnTransitionStates {
    pub closed spec fn view(&self) -> Set<StateId> {
        self.machines@
    }

    pub fn new() -> (r: Self)
        ensures
            r@ == Set::<StateId>::empty(),
    {
        Self { machines: HashSet::new() }
    }

    /// Flags `machine`; returns whether it was not flagged before.
    pub fn insert(&mut self, machine: StateId) -> (r: bool)
        ensures
            final(self)@ == old(self)@.insert(machine),
            r == !old(self)@.contains(machine),
    {
        self.machines.insert(machine)
    }

    /// Un-flags `machine`; returns whether it was flagged.
    pub fn remove(&mut self, machine: StateId) -> (r: bool)
        ensures
            final(self)@ == old(self)@.remove(machine),
            r == old(self)@.contains(machine),
    {
        self.machines.remove(&machine)
    }

    pub fn contains(&self, machine: StateId) -> (r: bool)
        ensures
            r == self@.contains(machine),
    {
        self.machines.contains(&machine)
    }

    pub fn is_empty(&self) -> (r: bool)
        ensures
            r == (self@ == Set::<StateId>::empty()),
    {
        let r = self.machines.is_empty();
        proof {
            if !r {
                let x = choose|x: StateId| self.machines@.contains(x);
                assert(!Set::<StateId>::empty().contains(x));
            } else {
                assert(self.machines@ =~= Set::<StateId>::empty());
            }
        }
        r
    }
}

/// `i` is the first position of `outs` holding `Ok(true)`.
pub open spec fn first_true_at(outs: Seq<Result<bool, CallbackError>>, i: int) -> bool {
    0 <= i < outs.len() && outs[i] == Ok::<bool, CallbackError>(true) && forall|j: int|
        0 <= j < i ==> outs[j] != Ok::<bool, CallbackError>(true)
}

/// What a state's exit guard came to in a pass.
#[derive(Debug, Clone, Copy, PartialEq, Eq)]
pub enum GuardOutcome {
    /// The state has no exit guard.
    Absent,
    /// A name of the guard is not registered.
    Unresolved,
    /// The guard ran, with this result.
    Ran(Result<bool, CallbackError>),
}

/// One machine's share of the enter-evaluation pass. `candidates` are the
/// children of the current state that have a resolvable enter guard, in
/// visiting order; `outcomes` the results of their guards, in the same
/// order, as far as they were run. With no candidate the machine is
/// un-flagged. The first candidate whose guard came out `true` is entered
/// by the current state's strategy, the machine is un-flagged, and the
/// candidate and the new phase are returned. Otherwise nothing changes.
pub fn enter_pass(
    checkable: &mut CheckOnTransitionStates,
    machine_id: StateId,
    machine: &mut StateMachine,
    curr_state: StateId,
    strategy: StateTransitionStrategy,
    candidates: &Vec<StateId>,
    outcomes: &Vec<Result<bool, CallbackError>>,
) -> (r: Option<(StateId, HsmOnState)>)
    requires
        outcomes@.len() <= candidates@.len(),
    ensures
        final(machine).capacity() == old(machine).capacity(),
        final(machine).initial() == old(machine).initial(),
        r is None ==> final(machine).entries() == old(machine).entries()
            && final(machine).pending() == old(machine).pending(),
        candidates@.len() == 0 ==> r is None && final(checkable)@ == old(checkable)@.remove(
            machine_id,
        ),
        candidates@.len() > 0 && r is None ==> final(checkable)@ == old(checkable)@
            && forall|j: int| 0 <= j < outcomes@.len() ==> outcomes@[j] != Ok::<bool, CallbackError>(true),
        r matches Some((child, phase)) ==> final(checkable)@ == old(checkable)@.remove(machine_id)
            && exists|i: int| first_true_at(outcomes@, i) && candidates@[i] == child,
        r matches Some((child, phase)) ==> (strategy == StateTransitionStrategy::Nested ==> phase
            == HsmOnState::Enter && final(machine).entries() == pushed(
            old(machine).entries(),
            old(machine).capacity(),
            entry(child, HsmOnState::Enter),
        ) && final(machine).pending() == old(machine).pending()),
        r matches Some((child, phase)) ==> (strategy == StateTransitionStrategy::Parallel ==> phase
            == HsmOnState::Exit && final(machine).entries() == pushed(
            old(machine).entries(),
            old(machine).capacity(),
            entry(curr_state, HsmOnState::Exit),
        ) && final(machine).pending() == old(machine).pending().push(
            NextState::Next(child, HsmOnState::Enter),
        )),
{
    if candidates.len() == 0 {
        checkable.remove(machine_id);
        return None;
    }
    match first_match(outcomes) {
        None => None,
        Some(i) => {
            let child = candidates[i];
            checkable.remove(machine_id);
            let phase = apply_enter_transition(machine, curr_state, strategy, child);
            proof {
                assert(first_true_at(outcomes@, i as int));
            }
            Some((child, phase))
        },
    }
}

/// One machine's share of the exit-evaluation pass. With no exit guard the
/// machine is un-flagged; with a guard that came out `true` it is
/// un-flagged and the exit is recorded as [`apply_exit_transition`] does;
/// with an unresolved, false or failed guard nothing changes.
pub fn exit_pass(
    checkable: &mut CheckOnTransitionStates,
    machine_id: StateId,
    machine: &mut StateMachine,
    tree: &StateTree,
    states: &HashMap<StateId, HsmState>,
    curr_state: StateId,
    guard: GuardOutcome,
) -> (r: Option<HsmOnState>)
    ensures
        final(machine).capacity() == old(machine).capacity(),
        final(machine).initial() == old(machine).initial(),
        guard != GuardOutcome::Ran(Ok(true)) ==> r is None && final(machine).entries() == old(machine).entries() && final(machine).pending() == old(machine).pending(),
        guard == GuardOutcome::Absent ==> final(checkable)@ == old(checkable)@.remove(machine_id),
        guard != GuardOutcome::Absent && guard != GuardOutcome::Ran(Ok(true)) ==> final(checkable)@ == old(checkable)@,
        guard == GuardOutcome::Ran(Ok(true)) ==> final(checkable)@ == old(checkable)@.remove(
            machine_id,
        ) && match parent_info(*tree, states@, curr_state) {
            None => r is None && final(machine).entries() == old(machine).entries() && final(machine).pending() == old(machine).pending(),
            Some((p, info)) => r == Some(HsmOnState::Exit) && final(machine).pending() == old(machine).pending() + exit_plan(
                *tree,
                states@,
                p,
                info.strategy,
                info.behavior,
                tree.nodes().len(),
            ) && final(machine).entries() == pushed(
                old(machine).entries(),
                old(machine).capacity(),
                entry(curr_state, HsmOnState::Exit),
            ),
        },
{
    match guard {
        GuardOutcome::Absent => {
            checkable.remove(machine_id);
            None
        },
        GuardOutcome::Ran(Ok(true)) => {
            checkable.remove(machine_id);
            apply_exit_transition(machine, tree, states, curr_state)
        },
        _ => None,
    }
}

/// What the enter pass does next for one machine.
#[derive(Debug, Clone, Copy, PartialEq, Eq)]
pub enum EnterStep {
    /// Run the enter guard of this candidate.
    Evaluate(usize),
    /// Stop: the candidate to enter, if any.
    Decide(Option<usize>),
}

/// The next step of the enter pass over `n_candidates` candidates whose
/// guards, in visiting order, gave `outcomes` so far. The guards run one by
/// one in order, and the pass stops at the first that comes out `true`:
/// no guard after it runs.
pub fn next_enter_step(n_candidates: usize, outcomes: &Vec<Result<bool, CallbackError>>) -> (r:
    EnterStep)
    requires
        outcomes@.len() <= n_candidates,
    ensures
        match r {
            EnterStep::Decide(Some(i)) => first_true_at(outcomes@, i as int),
            EnterStep::Decide(None) => outcomes@.len() == n_candidates && forall|j: int|
                0 <= j < outcomes@.len() ==> outcomes@[j] != Ok::<bool, CallbackError>(true),
            EnterStep::Evaluate(i) => i == outcomes@.len() && i < n_candidates && forall|j: int|
                0 <= j < outcomes@.len() ==> outcomes@[j] != Ok::<bool, CallbackError>(true),
        },
{
    match first_match(outcomes) {
        Some(i) => {
            proof {
                assert(first_true_at(outcomes@, i as int));
            }
            EnterStep::Decide(Some(i))
        },
        None => {
            if outcomes.len() < n_candidates {
                EnterStep::Evaluate(outcomes.len())
            } else {
                EnterStep::Decide(None)
            }
        },
    }
}

/// The step the host takes when a machine enters its update phase: the
/// machine is flagged for the transition passes when its current state has
/// both an enter and an exit callback, and the state's context is queued in
/// the buffer of its update action.
pub fn on_update_phase(
    checkable: &mut CheckOnTransitionStates,
    machine_id: StateId,
    has_enter_system: bool,
    has_exit_system: bool,
    buffer: &mut HsmActionSystemBuffer,
    context: HsmStateContext,
)
    ensures
        final(checkable)@ == if has_enter_system && has_exit_system {
            old(checkable)@.insert(machine_id)
        } else {
            old(checkable)@
        },
        final(buffer)@ == added(old(buffer)@, context),
{
    if has_enter_system && has_exit_system {
        checkable.insert(machine_id);
    }
    buffer.add(context);
}

} // verus!
