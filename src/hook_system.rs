use vstd::prelude::*;

use crate::registry::NamedHandles;
use crate::state::StateId;

verus! {

/// What a lifecycle or action callback is called with: the entity the
/// machine serves, the machine, and the state concerned.
#[derive(Debug, Clone, Copy, PartialEq, Eq, Hash, Structural)]
pub struct HsmStateContext {
    pub service_target: StateId,
    pub state_machine: StateId,
    pub state: StateId,
}

impl HsmStateContext {
    pub fn new(service_target: StateId, state_machine: StateId, state: StateId) -> (r: Self)
        ensures
            r.service_target == service_target,
            r.state_machine == state_machine,
            r.state == state,
    {
        Self { service_target, state_machine, state }
    }
}

/// The enter callbacks, by the names that states give in
/// [`crate::state::HsmOnEnterSystem`].
pub type HsmOnEnterDisposableSystems = NamedHandles;

/// The exit callbacks, by the names that states give in
/// [`crate::state::HsmOnExitSystem`].
pub type HsmOnExitDisposableSystems = NamedHandles;

/// The entity that a machine acts for, when it is not the machine itself.
#[derive(Debug, Clone, Copy, PartialEq, Eq, Hash, Structural)]
pub struct ServiceTarget(pub StateId);

impl HsmStateContext {
    /// The context of `state` in `state_machine`, acting for the service
    /// target if there is one and for the machine otherwise.
    pub fn of_machine(target: Option<ServiceTarget>, state_machine: StateId, state: StateId) -> (r:
        Self)
        ensures
            r.service_target == (match target {
                Some(t) => t.0,
                None => state_machine,
            }),
            r.state_machine == state_machine,
            r.state == state,
    {
        let service_target = match target {
            Some(t) => t.0,
            None => state_machine,
        };
        Self::new(service_target, state_machine, state)
    }
}

} // verus!
