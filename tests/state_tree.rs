use bevy_hsm::state::StateId;
use bevy_hsm::state_traversal::{
    ReverseTraversal, SequentialTraversal, StateTraversalStrategy, TraversalStrategy,
};
use bevy_hsm::state_tree::StateTree;

fn ids(n: u64) -> Vec<StateId> {
    (0..n).collect()
}

#[test]
fn test_state_tree() {
    let v = ids(8);
    let traversal = TraversalStrategy::default();
    let mut tree = StateTree::new(v[0], traversal);

    assert!(tree.add(v[0], v[1], traversal));
    assert!(tree.add(v[0], v[1], traversal));
    assert!(tree.add(v[0], v[1], traversal));
    assert_eq!(tree.get(v[0]), Some([v[1]].as_slice()));

    assert!(!tree.add(v[2], v[1], traversal));

    assert!(!tree.add(v[1], v[0], traversal));

    assert!(tree.add(v[0], v[2], traversal));
    assert!(tree.add(v[1], v[3], traversal));
    assert!(tree.add(v[2], v[4], traversal));
    assert!(tree.add(v[3], v[6], traversal));
    assert!(tree.add(v[4], v[7], traversal));

    let new_tree = tree.remove(v[2], v[4]);
    assert_eq!(
        new_tree,
        Some(StateTree::new(v[4], traversal).with_add(v[4], v[7], traversal))
    );
}

#[test]
fn test_state_tree_iter() {
    let v = ids(8);
    let traversal = TraversalStrategy::default();
    let mut tree = StateTree::new(v[0], traversal);

    for i in 1..8 {
        tree.add(v[0], v[i], traversal);
    }

    let mut iter = tree.traversal_iter(v[0]).into_iter();
    assert_eq!(iter.next(), Some(v[1]));
    assert_eq!(iter.next_back(), Some(v[7]));
    assert_eq!(iter.next(), Some(v[2]));
    assert_eq!(iter.next_back(), Some(v[6]));
    assert_eq!(iter.next(), Some(v[3]));
    assert_eq!(iter.next_back(), Some(v[5]));
    assert_eq!(iter.next(), Some(v[4]));
    assert_eq!(iter.next_back(), None);

    tree.add(v[0], v[3], traversal);

    assert_eq!(
        tree.get_sub_states(v[0]),
        Some([v[1], v[2], v[4], v[5], v[6], v[7], v[3]].as_slice())
    );
}

#[test]
fn test_has_link() {
    let v = ids(3);
    let traversal = TraversalStrategy::default();
    let mut tree = StateTree::new(v[0], traversal);

    assert!(tree.add(v[0], v[1], traversal));
    assert!(tree.add(v[1], v[2], traversal));

    assert!(!tree.has_link(v[1], v[0]));
    assert!(!tree.has_link(v[2], v[1]));
    assert!(tree.has_link(v[1], v[2]));
}

#[test]
fn test_path_iter() {
    let v = ids(3);
    let traversal = TraversalStrategy::default();
    let mut tree = StateTree::new(v[0], traversal);

    assert!(tree.add(v[0], v[1], traversal));
    assert!(tree.add(v[1], v[2], traversal));

    assert_eq!(tree.path_iter(v[2]), vec![v[1], v[0]]);
}

#[test]
fn reversed_link_is_rejected_and_tree_unchanged() {
    let t = TraversalStrategy::default();
    let mut tree = StateTree::new(0, t);
    assert!(tree.add(0, 1, t));
    assert!(tree.add(1, 2, t));
    let before = tree.clone();
    assert!(!tree.add(2, 1, t));
    assert_eq!(tree, before);
    assert!(!tree.add(9, 3, t));
    assert_eq!(tree, before);
}

#[test]
fn reverse_traversal_and_strategy_order() {
    let t = TraversalStrategy::Reverse;
    let mut tree = StateTree::new(0, t);
    for i in 1..4 {
        assert!(tree.add(0, i, TraversalStrategy::Sequential));
    }
    assert_eq!(tree.traversal_iter(0), vec![3, 2, 1]);
    assert_eq!(tree.traversal_iter(1), Vec::<StateId>::new());
    assert_eq!(tree.traversal_iter(42), Vec::<StateId>::new());
    assert_eq!(ReverseTraversal.traverse(&vec![1, 2, 3]), vec![3, 2, 1]);
    assert_eq!(SequentialTraversal.traverse(&vec![1, 2, 3]), vec![1, 2, 3]);
    assert_eq!(TraversalStrategy::Reverse.name(), "ReverseTraversal");
}

#[test]
fn remove_detaches_whole_subtree() {
    let t = TraversalStrategy::default();
    let mut tree = StateTree::new(0, t);
    assert!(tree.add(0, 1, t));
    assert!(tree.add(1, 2, t));
    assert!(tree.add(2, 3, t));
    assert!(tree.add(0, 4, t));
    let sub = tree.remove(0, 1).unwrap();
    assert_eq!(sub.get_root(), 1);
    assert_eq!(sub.len(), 3);
    assert!(sub.contains(1) && sub.contains(2) && sub.contains(3));
    assert_eq!(sub.get_super_state(1), None);
    assert_eq!(sub.get_super_state(3), Some(2));
    assert_eq!(tree.len(), 2);
    assert_eq!(tree.get(0), Some([4].as_slice()));
    assert!(!tree.contains(2));
    assert_eq!(tree.remove(7, 1), None);
    assert_eq!(tree.remove(0, 9), None);
}

#[test]
fn path_of_root_is_empty() {
    let t = TraversalStrategy::default();
    let tree = StateTree::new(5, t);
    assert_eq!(tree.path_iter(5), Vec::<StateId>::new());
    assert!(!tree.is_empty());
    assert_eq!(tree.get_super_state(5), None);
}

#[test]
fn cycles_and_self_links_are_rejected() {
    let t = TraversalStrategy::default();
    let mut tree = StateTree::new(0, t);
    assert!(tree.add(0, 1, t));
    assert!(tree.add(1, 2, t));
    let before = tree.clone();
    // 2 is a grandchild of 0: adding 0 under 2 would close a cycle.
    assert!(!tree.add(2, 0, t));
    assert!(!tree.add(1, 1, t));
    assert_eq!(tree, before);
}

#[test]
fn reparenting_moves_the_child_with_its_subtree() {
    let t = TraversalStrategy::default();
    let mut tree = StateTree::new(0, t);
    assert!(tree.add(0, 1, t));
    assert!(tree.add(0, 2, t));
    assert!(tree.add(1, 3, t));
    assert!(tree.add(2, 1, TraversalStrategy::Reverse));
    assert_eq!(tree.get(0), Some([2].as_slice()));
    assert_eq!(tree.get(2), Some([1].as_slice()));
    assert_eq!(tree.get_super_state(1), Some(2));
    assert_eq!(tree.get(1), Some([3].as_slice()));
    assert_eq!(tree.path_iter(3), vec![1, 2, 0]);
    // Re-adding the same pair only moves the child to the end.
    assert!(tree.add(1, 4, t));
    assert!(tree.add(1, 3, t));
    assert_eq!(tree.get(1), Some([4, 3].as_slice()));
}
