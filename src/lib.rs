//! A hierarchical state-machine runtime: a tree of named states, guard
//! conditions over named callbacks, per-machine history and pending
//! transitions, the exit-resolution rules, and double-buffered action
//! dispatch.
pub mod condition_parser;
pub mod history;
pub mod hook_system;
pub mod on_transition;
pub mod registry;
pub mod state;
pub mod state_condition;
pub mod state_traversal;
pub mod state_tree;
pub mod system_state;
