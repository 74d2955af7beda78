use bevy_hsm::system_state::action_key;
use bevy_hsm::hook_system::{HsmStateContext, ServiceTarget};
use bevy_hsm::system_state::{HsmActionSystemBuffer, HsmActionSystemBuffers};

fn ctx(i: u64) -> HsmStateContext {
    HsmStateContext::new(i, 100 + i, 200 + i)
}

#[test]
fn swap_moves_next_into_curr() {
    let mut b = HsmActionSystemBuffer::new();
    b.add(ctx(1));
    b.add(ctx(2));
    assert!(b.is_empty());
    b.update();
    assert_eq!(b.get_curr(), vec![ctx(1), ctx(2)]);
    assert!(b.next.is_empty());
}

#[test]
fn two_swaps_without_adds_leave_curr_empty() {
    let mut b = HsmActionSystemBuffer::new();
    b.update();
    assert!(b.get_curr().is_empty());
    b.update();
    assert!(b.get_curr().is_empty());

    let mut b = HsmActionSystemBuffer::new();
    b.add(ctx(1));
    b.update();
    assert_eq!(b.get_curr(), vec![ctx(1)]);
    b.update();
    assert!(b.get_curr().is_empty());
}

#[test]
fn filter_applies_to_one_swap_only() {
    let mut b = HsmActionSystemBuffer::new();
    b.add(ctx(1));
    b.add(ctx(2));
    b.add_filter(ctx(1));
    b.update();
    assert_eq!(b.get_curr(), vec![ctx(2)]);
    b.add(ctx(1));
    b.update();
    assert_eq!(b.get_curr(), vec![ctx(1)]);
}

#[test]
fn interceptor_blocks_until_removed() {
    let mut b = HsmActionSystemBuffer::new();
    b.add_interceptor(ctx(1));
    b.add(ctx(1));
    b.adds(vec![ctx(1), ctx(2), ctx(3)]);
    assert_eq!(b.next, vec![ctx(2), ctx(3)]);
    b.remove_interceptor(ctx(1));
    b.add(ctx(1));
    assert_eq!(b.next, vec![ctx(2), ctx(3), ctx(1)]);
}

#[test]
fn update_interceptor_catches_dropped_contexts() {
    let mut b = HsmActionSystemBuffer::new();
    b.adds(vec![ctx(1), ctx(2)]);
    b.update();
    b.add(ctx(2));
    b.update_interceptor();
    b.add(ctx(1));
    b.add(ctx(2));
    assert_eq!(b.next, vec![ctx(2), ctx(2)]);
}

#[test]
fn reflow_carries_curr_over() {
    let mut b = HsmActionSystemBuffer::new();
    b.adds(vec![ctx(1), ctx(2)]);
    b.update();
    b.reflow();
    b.update();
    assert_eq!(b.get_curr(), vec![ctx(1), ctx(2)]);
}

#[test]
fn action_result_requeues_and_intercepts() {
    let mut b = HsmActionSystemBuffer::new();
    b.adds(vec![ctx(1), ctx(2)]);
    b.update();
    b.apply_action_result(Some(vec![ctx(2)]));
    assert_eq!(b.next, vec![ctx(2)]);
    b.add(ctx(1));
    assert_eq!(b.next, vec![ctx(2)]);
    b.apply_action_result(None);
    assert_eq!(b.next, vec![ctx(2)]);
    assert_eq!(action_key("Update", Some("add")), "Update:add");
    assert_eq!(action_key("Update", None), "Update");
}

#[test]
fn context_acts_for_service_target_or_machine() {
    let c = HsmStateContext::of_machine(Some(ServiceTarget(7)), 1, 2);
    assert_eq!(c, HsmStateContext::new(7, 1, 2));
    let c = HsmStateContext::of_machine(None, 1, 2);
    assert_eq!(c, HsmStateContext::new(1, 1, 2));
}

#[test]
fn buffers_by_action_key() {
    let mut buffers = HsmActionSystemBuffers::new();
    let mut b = HsmActionSystemBuffer::new();
    b.add(ctx(1));
    buffers.insert_buffer("Update:add", b);
    buffers.insert_buffer("Last", HsmActionSystemBuffer::new());
    assert_eq!(buffers.get_buffer("Update:add").unwrap().next, vec![ctx(1)]);
    assert!(buffers.get_buffer("Last").unwrap().next.is_empty());
    assert!(buffers.get_buffer("Update").is_none());
    buffers.insert_buffer("Update:add", HsmActionSystemBuffer::new());
    assert!(buffers.get_buffer("Update:add").unwrap().next.is_empty());
}
