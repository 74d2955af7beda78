use vstd::prelude::*;

use crate::state::StateId;

verus! {

/// Decides the order in which the children of a state are visited.
pub trait StateTraversalStrategy {
    /// The visiting order of `children`.
    spec fn order(&self, children: Seq<StateId>) -> Seq<StateId>;

    /// Returns the children in visiting order.
    fn traverse(&self, children: &Vec<StateId>) -> (r: Vec<StateId>)
        ensures
            r@ == self.order(children@),
    ;
}

/// Visits the children in the order in which they were added.
#[derive(Debug, Clone, Copy, PartialEq, Eq, Default)]
pub struct SequentialTraversal;

impl StateTraversalStrategy for SequentialTraversal {
    open spec fn order(&self, children: Seq<StateId>) -> Seq<StateId> {
        children
    }

    fn traverse(&self, children: &Vec<StateId>) -> (r: Vec<StateId>) {
        children.clone()
    }
}

/// Visits the children from the last added to the first.
#[derive(Debug, Clone, Copy, PartialEq, Eq, Default)]
pub struct ReverseTraversal;

impl StateTraversalStrategy for ReverseTraversal {
    open spec fn order(&self, children: Seq<StateId>) -> Seq<StateId> {
        children.reverse()
    }

    fn traverse(&self, children: &Vec<StateId>) -> (r: Vec<StateId>) {
        let mut r: Vec<StateId> = Vec::new();
        let n = children.len();
        let mut i: usize = n;
        while i > 0
            invariant
                n == children@.len(),
                i <= n,
                r@.len() == n - i,
                forall|k: int| 0 <= k < n - i ==> r@[k] == children@[n - 1 - k],
            decreases i,
        {
            i -= 1;
            r.push(children[i]);
        }
        proof {
            assert(r@ =~= children@.reverse());
        }
        r
    }
}

/// The traversal order configured on a node of a state tree.
#[derive(Debug, Clone, Copy, PartialEq, Eq, Structural)]
pub enum TraversalStrategy {
    /// See [`SequentialTraversal`].
    Sequential,
    /// See [`ReverseTraversal`].
    Reverse,
}

impl TraversalStrategy {
    /// The visiting order of `children` under this strategy.
    pub open spec fn order(self, children: Seq<StateId>) -> Seq<StateId> {
        match self {
            TraversalStrategy::Sequential => SequentialTraversal.order(children),
            TraversalStrategy::Reverse => ReverseTraversal.order(children),
        }
    }

    /// Returns the children in the visiting order of this strategy.
    pub fn traverse(&self, children: &Vec<StateId>) -> (r: Vec<StateId>)
        ensures
            r@ == self.order(children@),
    {
        match self {
            TraversalStrategy::Sequential => SequentialTraversal.traverse(children),
            TraversalStrategy::Reverse => ReverseTraversal.traverse(children),
        }
    }

    /// The name of the strategy.
    pub fn name(&self) -> (r: &'static str)
        ensures
            *self == TraversalStrategy::Sequential ==> r@ == "SequentialTraversal"@,
            *self == TraversalStrategy::Reverse ==> r@ == "ReverseTraversal"@,
    {
        match self {
            TraversalStrategy::Sequential => "SequentialTraversal",
            TraversalStrategy::Reverse => "ReverseTraversal",
        }
    }
}

impl Default for TraversalStrategy {
    fn default() -> (r: Self)
        ensures
            r == TraversalStrategy::Sequential,
    {
        TraversalStrategy::Sequential
    }
}

} // verus!
