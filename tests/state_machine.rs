use bevy_hsm::state::HsmStateGroup;
use bevy_hsm::on_transition::{
    enter_pass, exit_pass, next_enter_step, on_update_phase, CheckOnTransitionStates, EnterStep,
    GuardOutcome,
};
use bevy_hsm::hook_system::HsmStateContext;
use bevy_hsm::system_state::HsmActionSystemBuffer;
use std::collections::HashMap;

use bevy_hsm::history::{HistoricalNode, StateHistory};
use bevy_hsm::on_transition::{
    apply_enter_transition, apply_exit_transition, first_match, get_on_exit_next_states,
    ExitTransitionBehavior, StateTransitionStrategy,
};
use bevy_hsm::state::{HsmOnState, HsmState, LifecycleStep, NextState, StateId, StateMachine};
use bevy_hsm::state_condition::CallbackError;
use bevy_hsm::state_tree::StateTree;
use bevy_hsm::state_traversal::TraversalStrategy;

use ExitTransitionBehavior::{Death, Rebirth, Resurrection};
use StateTransitionStrategy::{Nested, Parallel};

#[test]
fn queue_is_first_in_first_out() {
    let mut m = StateMachine::new(4, 0);
    m.push_next_state(NextState::Next(1, HsmOnState::Enter));
    m.push_next_state(NextState::Next(2, HsmOnState::Exit));
    assert_eq!(m.pop_next_state(), Some(NextState::Next(1, HsmOnState::Enter)));
    assert_eq!(m.pop_next_state(), Some(NextState::Next(2, HsmOnState::Exit)));
    assert_eq!(m.pop_next_state(), None);
}

fn node(id: StateId) -> HistoricalNode {
    HistoricalNode::new(id, HsmOnState::Update)
}

#[test]
fn history_keeps_last_entries_in_push_order() {
    let mut h = StateHistory::new(3);
    for i in 0..5 {
        h.push(node(i));
    }
    assert_eq!(h.len(), 3);
    assert_eq!(h.to_vec(), vec![node(2), node(3), node(4)]);
    assert_eq!(h.get_current(), Some(node(4)));
    assert_eq!(h.get_at(1), Some(node(4)));
    assert_eq!(h.get_at(3), Some(node(2)));
    assert_eq!(h.get_at(0), None);
    assert_eq!(h.get_at(4), None);
    assert_eq!(h.get(0), Some(node(2)));
    assert_eq!(h.get(3), None);
    h.clear();
    assert!(h.is_empty());
    assert_eq!(h.get_current(), None);
}

#[test]
fn history_under_capacity_keeps_everything() {
    let mut h = StateHistory::default();
    for i in 0..4 {
        h.push(node(i));
    }
    assert_eq!(h.to_vec(), vec![node(0), node(1), node(2), node(3)]);
}

#[test]
fn history_of_capacity_zero_holds_the_latest() {
    let mut h = StateHistory::new(0);
    h.push(node(1));
    h.push(node(2));
    assert_eq!(h.to_vec(), vec![node(2)]);
}

#[test]
fn machine_queue_and_lifecycle_steps() {
    let mut m = StateMachine::new(10, 1);
    assert_eq!(m.curr_state_id(), Some(1));
    assert_eq!(m.next_state_id(), None);
    assert!(!m.has_prev_state());

    m.push_next_state(NextState::Next(3, HsmOnState::Enter));
    m.push_next_states(vec![NextState::Next(2, HsmOnState::Exit), NextState::End]);
    assert_eq!(m.get_next_state(), Some(3));
    assert_eq!(m.get_next_state_on_state(), Some(HsmOnState::Enter));

    m.update();
    assert_eq!(m.curr_state_id(), Some(3));
    assert_eq!(m.prev_state_id(), Some(1));

    assert_eq!(m.on_exit_complete(), LifecycleStep::Phase(HsmOnState::Exit));
    assert_eq!(m.curr_state_id(), Some(2));
    assert_eq!(m.on_exit_complete(), LifecycleStep::Terminate);
    // An exhausted queue terminates the machine too.
    assert_eq!(m.on_exit_complete(), LifecycleStep::Terminate);
    assert_eq!(m.get_history().len(), 3);

    m.push_next_state(NextState::Next(7, HsmOnState::Enter));
    m.reset();
    assert_eq!(m.curr_state_id(), Some(1));
    assert_eq!(m.next_state_id(), None);
    assert_eq!(m.get_history(), vec![HistoricalNode::new(1, HsmOnState::Enter)]);
    m.set_initial_state(4);
    m.reset();
    assert_eq!(m.curr_state_id(), Some(4));
}

#[test]
fn behavior_phase_conversions() {
    assert_eq!(HsmOnState::from(Rebirth), HsmOnState::Enter);
    assert_eq!(HsmOnState::from(Resurrection), HsmOnState::Update);
    assert_eq!(HsmOnState::from(Death), HsmOnState::Exit);
    assert_eq!(ExitTransitionBehavior::from(HsmOnState::Update), Resurrection);
    assert!(Nested.is_nested() && !Nested.is_parallel());
    assert_eq!(StateTransitionStrategy::default(), Parallel);
    assert_eq!(ExitTransitionBehavior::default(), Death);
    let s = HsmState::with_id(9).set_strategy(Nested).set_behavior(Rebirth);
    assert_eq!(s, HsmState::with(9, Nested, Rebirth));
}

/// A chain `0 -> 1 -> 2` (OFF, ON0, ON1) of one machine `100`.
fn chain(settings: [(StateTransitionStrategy, ExitTransitionBehavior); 3]) -> (StateTree, HashMap<StateId, HsmState>) {
    let t = TraversalStrategy::default();
    let mut tree = StateTree::new(0, t);
    assert!(tree.add(0, 1, t));
    assert!(tree.add(1, 2, t));
    let mut states = HashMap::new();
    for (i, (s, b)) in settings.iter().enumerate() {
        states.insert(i as StateId, HsmState::with(100, *s, *b));
    }
    (tree, states)
}

#[test]
fn exit_resolution_by_settings() {
    let (tree, states) = chain([(Nested, Death); 3]);
    assert_eq!(
        get_on_exit_next_states(&tree, &states, 1, Nested, Death),
        vec![NextState::Next(1, HsmOnState::Exit), NextState::Next(0, HsmOnState::Exit)]
    );
    assert_eq!(
        get_on_exit_next_states(&tree, &states, 1, Parallel, Rebirth),
        vec![NextState::Next(1, HsmOnState::Enter)]
    );
    assert_eq!(
        get_on_exit_next_states(&tree, &states, 1, Nested, Resurrection),
        vec![NextState::Next(1, HsmOnState::Update)]
    );

    let (tree, states) = chain([(Nested, Rebirth), (Nested, Death), (Nested, Death)]);
    assert_eq!(
        get_on_exit_next_states(&tree, &states, 1, Nested, Death),
        vec![NextState::Next(1, HsmOnState::Exit), NextState::End]
    );

    let (tree, states) = chain([(Parallel, Death); 3]);
    assert_eq!(
        get_on_exit_next_states(&tree, &states, 1, Parallel, Death),
        vec![NextState::End]
    );

    let (tree, states) = chain([(Nested, Resurrection), (Parallel, Death), (Parallel, Death)]);
    assert_eq!(
        get_on_exit_next_states(&tree, &states, 1, Parallel, Death),
        vec![NextState::Next(0, HsmOnState::Update)]
    );
}

#[test]
fn first_match_skips_false_and_failed_guards() {
    let e = Err(CallbackError { condition: 3 });
    assert_eq!(first_match(&vec![Ok(false), e, Ok(true), Ok(true)]), Some(2));
    assert_eq!(first_match(&vec![Ok(false), e]), None);
    assert_eq!(first_match(&vec![]), None);
}

#[test]
fn enter_transition_by_strategy() {
    let mut m = StateMachine::new(10, 0);
    assert_eq!(apply_enter_transition(&mut m, 0, Nested, 1), HsmOnState::Enter);
    assert_eq!(m.curr_state_id(), Some(1));
    assert_eq!(m.next_state_id(), None);

    let mut m = StateMachine::new(10, 0);
    assert_eq!(apply_enter_transition(&mut m, 0, Parallel, 1), HsmOnState::Exit);
    assert_eq!(m.curr_state_id(), Some(0));
    assert_eq!(m.next_state_id(), Some(NextState::Next(1, HsmOnState::Enter)));
}

/// Drives a machine over the chain with the enter guards true and then
/// the exit guards true, recording each enter and exit callback.
#[test]
fn nested_death_chain_lifecycle_log() {
    let names = ["OFF", "ON0", "ON1"];
    let (tree, states) = chain([(Nested, Death); 3]);
    let mut m = StateMachine::new(10, 0);
    let mut log: Vec<String> = Vec::new();
    log.push(format!("{}: Enter", names[0]));

    // Enter passes: the only child of the current state enters.
    for _ in 0..2 {
        let cur = m.curr_state_id().unwrap();
        let children = tree.traversal_iter(cur);
        let pick = first_match(&vec![Ok(true); children.len()]).unwrap();
        let phase = apply_enter_transition(&mut m, cur, states[&cur].strategy, children[pick]);
        assert_eq!(phase, HsmOnState::Enter);
        log.push(format!("{}: Enter", names[m.curr_state_id().unwrap() as usize]));
    }

    // Exit pass on the leaf, then the queued exits.
    let leaf = m.curr_state_id().unwrap();
    assert_eq!(apply_exit_transition(&mut m, &tree, &states, leaf), Some(HsmOnState::Exit));
    log.push(format!("{}: Exit", names[leaf as usize]));
    loop {
        match m.on_exit_complete() {
            LifecycleStep::Phase(HsmOnState::Exit) => {
                log.push(format!("{}: Exit", names[m.curr_state_id().unwrap() as usize]));
            }
            LifecycleStep::Phase(HsmOnState::Enter) => {
                log.push(format!("{}: Enter", names[m.curr_state_id().unwrap() as usize]));
            }
            _ => break,
        }
    }
    assert_eq!(
        log,
        vec!["OFF: Enter", "ON0: Enter", "ON1: Enter", "ON1: Exit", "ON0: Exit", "OFF: Exit"]
    );
}

#[test]
fn exit_transition_without_parent_changes_nothing() {
    let (tree, states) = chain([(Nested, Death); 3]);
    let mut m = StateMachine::new(10, 0);
    assert_eq!(apply_exit_transition(&mut m, &tree, &states, 0), None);
    assert_eq!(m.get_history(), vec![HistoricalNode::new(0, HsmOnState::Enter)]);
}

#[test]
fn state_group_stays_sorted() {
    let mut g = HsmStateGroup::new();
    g.add(5);
    g.add(1);
    g.add(3);
    g.add(3);
    assert_eq!(g.len(), 3);
    assert!(g.contains(3) && !g.contains(2));
    assert_eq!(g.remove(3), Some(1));
    assert_eq!(g.remove(3), None);
    assert!(g.contains(1) && g.contains(5));
    assert!(!g.is_empty());
}

#[test]
fn passes_flag_and_unflag_machines() {
    let (tree, states) = chain([(Nested, Death); 3]);
    let mut flags = CheckOnTransitionStates::new();
    assert!(flags.insert(100));
    assert!(!flags.insert(100));

    let mut m = StateMachine::new(10, 0);
    assert_eq!(enter_pass(&mut flags, 100, &mut m, 0, Nested, &vec![1], &vec![Ok(false)]), None);
    assert!(flags.contains(100));
    assert_eq!(
        enter_pass(&mut flags, 100, &mut m, 0, Nested, &vec![1], &vec![Ok(true)]),
        Some((1, HsmOnState::Enter))
    );
    assert!(!flags.contains(100));
    assert_eq!(m.curr_state_id(), Some(1));

    flags.insert(100);
    assert_eq!(enter_pass(&mut flags, 100, &mut m, 1, Nested, &vec![], &vec![]), None);
    assert!(flags.is_empty());

    flags.insert(100);
    assert_eq!(exit_pass(&mut flags, 100, &mut m, &tree, &states, 1, GuardOutcome::Unresolved), None);
    assert!(flags.contains(100));
    assert_eq!(
        exit_pass(&mut flags, 100, &mut m, &tree, &states, 1, GuardOutcome::Ran(Ok(true))),
        Some(HsmOnState::Exit)
    );
    assert!(!flags.contains(100));
    assert_eq!(m.next_state_id(), Some(NextState::Next(0, HsmOnState::Exit)));
    flags.insert(100);
    assert_eq!(exit_pass(&mut flags, 100, &mut m, &tree, &states, 1, GuardOutcome::Absent), None);
    assert!(!flags.remove(100));
}

#[test]
fn on_enter_moves_to_pending_state() {
    let mut m = StateMachine::new(4, 0);
    assert_eq!(m.on_enter(), Some(0));
    m.push_next_state(NextState::Next(2, HsmOnState::Enter));
    assert_eq!(m.on_enter(), Some(2));
    assert_eq!(m.prev_state_id(), Some(0));
}

fn settings_from_code(code: &str) -> Vec<(StateTransitionStrategy, ExitTransitionBehavior)> {
    code.split('_')
        .map(|c| {
            let chars: Vec<char> = c.chars().collect();
            let strategy = match chars[0] {
                '0' => Nested,
                _ => Parallel,
            };
            let behavior = match chars[1] {
                '0' => Rebirth,
                '1' => Resurrection,
                _ => Death,
            };
            (strategy, behavior)
        })
        .collect()
}

/// Drives one machine over the chain OFF -> ON0 -> ON1 the way the host
/// does: enter guards hold until the deepest state runs, then exit guards
/// hold. Each enter and exit callback is logged.
fn drive_chain(code: &str) -> Vec<String> {
    let names = ["OFF", "ON0", "ON1"];
    let settings = settings_from_code(code);
    let (tree, states) = chain([settings[0], settings[1], settings[2]]);
    let mut m = StateMachine::new(10, 0);
    let mut phase = HsmOnState::Enter;
    let mut condition = true;
    let mut log: Vec<String> = Vec::new();
    for _ in 0..64 {
        match phase {
            HsmOnState::Enter => {
                let cur = m.on_enter().unwrap();
                log.push(format!("{}: Enter", names[cur as usize]));
                phase = HsmOnState::Update;
            }
            HsmOnState::Exit => {
                let cur = m.curr_state_id().unwrap();
                log.push(format!("{}: Exit", names[cur as usize]));
                match m.on_exit_complete() {
                    LifecycleStep::Phase(p) => phase = p,
                    LifecycleStep::Terminate => break,
                }
            }
            HsmOnState::Update => {
                let cur = m.curr_state_id().unwrap();
                let children = tree.traversal_iter(cur);
                if children.is_empty() {
                    condition = false;
                }
                let outcomes: Vec<_> = children.iter().map(|_| Ok(condition)).collect();
                if let Some(i) = first_match(&outcomes) {
                    phase = apply_enter_transition(&mut m, cur, states[&cur].strategy, children[i]);
                } else if !condition && cur != 0 {
                    phase = apply_exit_transition(&mut m, &tree, &states, cur).unwrap();
                } else {
                    break;
                }
            }
        }
    }
    log
}

#[test]
fn test_transition_strategies() {
    let table: Vec<(&str, Vec<&str>)> = vec![
        (
            "00_00_00",
            vec!["OFF: Enter", "ON0: Enter", "ON1: Enter", "ON1: Exit", "ON0: Enter", "ON0: Exit", "OFF: Enter"],
        ),
        (
            "00_00_01",
            vec!["OFF: Enter", "ON0: Enter", "ON1: Enter", "ON1: Exit", "ON0: Enter", "ON0: Exit", "OFF: Enter"],
        ),
        (
            "00_01_00",
            vec!["OFF: Enter", "ON0: Enter", "ON1: Enter", "ON1: Exit", "ON0: Exit", "OFF: Enter"],
        ),
        (
            "00_01_01",
            vec!["OFF: Enter", "ON0: Enter", "ON1: Enter", "ON1: Exit", "ON0: Exit", "OFF: Enter"],
        ),
        (
            "01_00_00",
            vec!["OFF: Enter", "ON0: Enter", "ON1: Enter", "ON1: Exit", "ON0: Enter", "ON0: Exit"],
        ),
        (
            "01_00_01",
            vec!["OFF: Enter", "ON0: Enter", "ON1: Enter", "ON1: Exit", "ON0: Enter", "ON0: Exit"],
        ),
        (
            "01_01_00",
            vec!["OFF: Enter", "ON0: Enter", "ON1: Enter", "ON1: Exit", "ON0: Exit"],
        ),
        (
            "01_01_01",
            vec!["OFF: Enter", "ON0: Enter", "ON1: Enter", "ON1: Exit", "ON0: Exit"],
        ),
        (
            "01_01_02",
            vec!["OFF: Enter", "ON0: Enter", "ON1: Enter", "ON1: Exit", "ON0: Exit"],
        ),
        (
            "01_02_01",
            vec!["OFF: Enter", "ON0: Enter", "ON1: Enter", "ON1: Exit", "ON0: Exit"],
        ),
        (
            "01_02_02",
            vec!["OFF: Enter", "ON0: Enter", "ON1: Enter", "ON1: Exit", "ON0: Exit"],
        ),
        (
            "02_01_01",
            vec!["OFF: Enter", "ON0: Enter", "ON1: Enter", "ON1: Exit", "ON0: Exit", "OFF: Exit"],
        ),
        (
            "02_01_02",
            vec!["OFF: Enter", "ON0: Enter", "ON1: Enter", "ON1: Exit", "ON0: Exit", "OFF: Exit"],
        ),
        (
            "02_02_01",
            vec!["OFF: Enter", "ON0: Enter", "ON1: Enter", "ON1: Exit", "ON0: Exit", "OFF: Exit"],
        ),
        (
            "02_02_02",
            vec!["OFF: Enter", "ON0: Enter", "ON1: Enter", "ON1: Exit", "ON0: Exit", "OFF: Exit"],
        ),
        (
            "10_10_10",
            vec!["OFF: Enter", "OFF: Exit", "ON0: Enter", "ON0: Exit", "ON1: Enter", "ON1: Exit", "ON0: Enter", "ON0: Exit", "OFF: Enter"],
        ),
        (
            "10_10_11",
            vec!["OFF: Enter", "OFF: Exit", "ON0: Enter", "ON0: Exit", "ON1: Enter", "ON1: Exit", "ON0: Enter", "ON0: Exit", "OFF: Enter"],
        ),
        (
            "10_11_10",
            vec!["OFF: Enter", "OFF: Exit", "ON0: Enter", "ON0: Exit", "ON1: Enter", "ON1: Exit", "ON0: Exit", "OFF: Enter"],
        ),
        (
            "10_11_11",
            vec!["OFF: Enter", "OFF: Exit", "ON0: Enter", "ON0: Exit", "ON1: Enter", "ON1: Exit", "ON0: Exit", "OFF: Enter"],
        ),
        (
            "11_10_10",
            vec!["OFF: Enter", "OFF: Exit", "ON0: Enter", "ON0: Exit", "ON1: Enter", "ON1: Exit", "ON0: Enter", "ON0: Exit"],
        ),
        (
            "11_10_11",
            vec!["OFF: Enter", "OFF: Exit", "ON0: Enter", "ON0: Exit", "ON1: Enter", "ON1: Exit", "ON0: Enter", "ON0: Exit"],
        ),
        (
            "11_11_10",
            vec!["OFF: Enter", "OFF: Exit", "ON0: Enter", "ON0: Exit", "ON1: Enter", "ON1: Exit", "ON0: Exit"],
        ),
        (
            "11_11_11",
            vec!["OFF: Enter", "OFF: Exit", "ON0: Enter", "ON0: Exit", "ON1: Enter", "ON1: Exit", "ON0: Exit"],
        ),
        (
            "11_11_12",
            vec!["OFF: Enter", "OFF: Exit", "ON0: Enter", "ON0: Exit", "ON1: Enter", "ON1: Exit", "ON0: Exit"],
        ),
        (
            "11_12_11",
            vec!["OFF: Enter", "OFF: Exit", "ON0: Enter", "ON0: Exit", "ON1: Enter", "ON1: Exit"],
        ),
        (
            "11_12_12",
            vec!["OFF: Enter", "OFF: Exit", "ON0: Enter", "ON0: Exit", "ON1: Enter", "ON1: Exit"],
        ),
        (
            "12_11_11",
            vec!["OFF: Enter", "OFF: Exit", "ON0: Enter", "ON0: Exit", "ON1: Enter", "ON1: Exit", "ON0: Exit"],
        ),
        (
            "12_11_12",
            vec!["OFF: Enter", "OFF: Exit", "ON0: Enter", "ON0: Exit", "ON1: Enter", "ON1: Exit", "ON0: Exit"],
        ),
        (
            "12_12_11",
            vec!["OFF: Enter", "OFF: Exit", "ON0: Enter", "ON0: Exit", "ON1: Enter", "ON1: Exit"],
        ),
        (
            "12_12_12",
            vec!["OFF: Enter", "OFF: Exit", "ON0: Enter", "ON0: Exit", "ON1: Enter", "ON1: Exit"],
        ),

    ];
    for (code, expected) in table {
        assert_eq!(drive_chain(code), expected, "settings {}", code);
    }
}

#[test]
fn enter_steps_stop_at_first_true() {
    let e = Err(CallbackError { condition: 1 });
    assert_eq!(next_enter_step(3, &vec![]), EnterStep::Evaluate(0));
    assert_eq!(next_enter_step(3, &vec![e]), EnterStep::Evaluate(1));
    assert_eq!(next_enter_step(3, &vec![e, Ok(true)]), EnterStep::Decide(Some(1)));
    assert_eq!(next_enter_step(2, &vec![Ok(false), Ok(false)]), EnterStep::Decide(None));
    assert_eq!(next_enter_step(0, &vec![]), EnterStep::Decide(None));
}

#[test]
fn update_phase_flags_and_queues() {
    let mut flags = CheckOnTransitionStates::new();
    let mut b = HsmActionSystemBuffer::new();
    let c = HsmStateContext::new(9, 9, 1);
    on_update_phase(&mut flags, 9, true, false, &mut b, c);
    assert!(!flags.contains(9));
    on_update_phase(&mut flags, 9, true, true, &mut b, c);
    assert!(flags.contains(9));
    assert_eq!(b.next, vec![c, c]);
    b.retire(c);
    b.update();
    assert!(b.get_curr().is_empty());
}
