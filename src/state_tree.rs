use std::collections::HashMap;
use vstd::prelude::*;

use crate::state::StateId;
use crate::state_traversal::TraversalStrategy;

verus! {

broadcast use vstd::std_specs::hash::group_hash_axioms;

/// One node of a [`StateTree`]: its parent, the order in which its children
/// are visited, and its children in insertion order.
#[derive(Debug, Clone, PartialEq, Eq)]
pub struct StateTreeNode {
    pub super_state: Option<StateId>,
    pub traversal: TraversalStrategy,
    pub sub_states: Vec<StateId>,
}

/// `children` after `state` is pushed with de-duplication: an earlier
/// occurrence is removed and `state` goes to the end.
pub open spec fn pushed_child(children: Seq<StateId>, state: StateId) -> Seq<StateId> {
    children.remove_value(state).push(state)
}

impl StateTreeNode {
    pub fn new(super_state: Option<StateId>, traversal: TraversalStrategy) -> (r: Self)
        ensures
            r.super_state == super_state,
            r.traversal == traversal,
            r.sub_states@ == Seq::<StateId>::empty(),
    {
        Self { super_state, traversal, sub_states: Vec::new() }
    }

    pub fn get_sub_states(&self) -> (r: &[StateId])
        ensures
            r@ == self.sub_states@,
    {
        self.sub_states.as_slice()
    }

    /// Appends `state` to the children, removing an earlier occurrence.
    pub fn push(&mut self, state: StateId)
        ensures
            final(self).sub_states@ == pushed_child(old(self).sub_states@, state),
            final(self).super_state == old(self).super_state,
            final(self).traversal == old(self).traversal,
    {
        let ghost s = self.sub_states@;
        proof {
            s.index_of_first_ensures(state);
        }
        let n = self.sub_states.len();
        let mut i: usize = 0;
        while i < n && self.sub_states[i] != state
            invariant
                n == s.len(),
                self.sub_states@ == s,
                i <= n,
                forall|j: int| 0 <= j < i ==> s[j] != state,
            decreases n - i,
        {
            i += 1;
        }
        if i < n {
            self.sub_states.remove(i);
        }
        self.sub_states.push(state);
    }
}

impl StateTreeNode {
    /// Removes the first occurrence of `state` from the children.
    pub fn remove_child(&mut self, state: StateId)
        ensures
            final(self).sub_states@ == old(self).sub_states@.remove_value(state),
            final(self).super_state == old(self).super_state,
            final(self).traversal == old(self).traversal,
    {
        let ghost s = self.sub_states@;
        proof {
            s.index_of_first_ensures(state);
        }
        let n = self.sub_states.len();
        let mut i: usize = 0;
        while i < n && self.sub_states[i] != state
            invariant
                n == s.len(),
                self.sub_states@ == s,
                i <= n,
                forall|j: int| 0 <= j < i ==> s[j] != state,
            decreases n - i,
        {
            i += 1;
        }
        if i < n {
            self.sub_states.remove(i);
        }
    }
}

fn contains_id(v: &Vec<StateId>, x: StateId) -> (r: bool)
    ensures
        r == v@.contains(x),
{
    let n = v.len();
    let mut i: usize = 0;
    while i < n
        invariant
            n == v@.len(),
            i <= n,
            forall|j: int| 0 <= j < i ==> v@[j] != x,
        decreases n - i,
    {
        if v[i] == x {
            proof {
                assert(v@[i as int] == x);
            }
            return true;
        }
        i += 1;
    }
    false
}

fn copy_ids(v: &Vec<StateId>) -> (r: Vec<StateId>)
    ensures
        r@ == v@,
{
    let mut r: Vec<StateId> = Vec::new();
    let n = v.len();
    let mut i: usize = 0;
    while i < n
        invariant
            n == v@.len(),
            i <= n,
            r@ == v@.subrange(0, i as int),
        decreases n - i,
    {
        r.push(v[i]);
        i += 1;
        proof {
            assert(r@ =~= v@.subrange(0, i as int));
        }
    }
    proof {
        assert(r@ =~= v@);
    }
    r
}

/// The children of `k` once `to` has been detached from `from`.
pub open spec fn detached_kids(
    m: Map<StateId, StateTreeNode>,
    from: StateId,
    to: StateId,
    k: StateId,
) -> Seq<StateId> {
    if k == from {
        m[k].sub_states@.remove_value(to)
    } else {
        m[k].sub_states@
    }
}

/// `b` is reached from `to` in at most `n` child links, once `to` has been
/// detached from `from`.
pub open spec fn reaches(
    m: Map<StateId, StateTreeNode>,
    from: StateId,
    to: StateId,
    b: StateId,
    n: nat,
) -> bool
    decreases n,
{
    b == to || (n > 0 && exists|p: StateId|
        reaches(m, from, to, p, (n - 1) as nat) && #[trigger] child_link(m, from, to, p, b))
}

/// `b` is a child of `p` once `to` has been detached from `from`.
pub open spec fn child_link(
    m: Map<StateId, StateTreeNode>,
    from: StateId,
    to: StateId,
    p: StateId,
    b: StateId,
) -> bool {
    m.contains_key(p) && detached_kids(m, from, to, p).contains(b)
}

/// `b` is reached from `to` in some number of child links.
pub open spec fn reachable(m: Map<StateId, StateTreeNode>, from: StateId, to: StateId, b: StateId) -> bool {
    exists|n: nat| reaches(m, from, to, b, n)
}

/// The states of `m` under `to`, `to` included, once `to` has been detached from `from`.
pub open spec fn subtree(m: Map<StateId, StateTreeNode>, from: StateId, to: StateId) -> Set<
    StateId,
> {
    Set::new(|k: StateId| m.contains_key(k) && reachable(m, from, to, k))
}

/// Identifies a state within the tree it belongs to.
#[derive(Debug, Clone, Copy, PartialEq, Eq, Hash, Structural)]
pub struct TreeStateId {
    tree: StateId,
    state: StateId,
}

impl TreeStateId {
    pub fn new(tree: StateId, state: StateId) -> (r: Self)
        ensures
            r.spec_tree() == tree,
            r.spec_state() == state,
    {
        Self { tree, state }
    }

    pub closed spec fn spec_tree(&self) -> StateId {
        self.tree
    }

    pub closed spec fn spec_state(&self) -> StateId {
        self.state
    }

    pub fn tree(&self) -> (r: StateId)
        ensures
            r == self.spec_tree(),
    {
        self.tree
    }

    pub fn state(&self) -> (r: StateId)
        ensures
            r == self.spec_state(),
    {
        self.state
    }
}

/// Whether `to` is among the children of `from`.
pub open spec fn links(nodes: Map<StateId, StateTreeNode>, from: StateId, to: StateId) -> bool {
    nodes.contains_key(from) && nodes[from].sub_states@.contains(to)
}

/// The ancestors of `state`, nearest first, following at most `fuel` parent links.
pub open spec fn ancestors(nodes: Map<StateId, StateTreeNode>, state: StateId, fuel: nat) -> Seq<
    StateId,
>
    decreases fuel,
{
    if fuel == 0 || !nodes.contains_key(state) {
        Seq::empty()
    } else {
        match nodes[state].super_state {
            Some(p) => seq![p] + ancestors(nodes, p, (fuel - 1) as nat),
            None => Seq::empty(),
        }
    }
}

/// Whether adding the edge `from -> to` is accepted: `from` is in the tree,
/// the link is not to itself, `from` is not a child of `to`, and `to` is not
/// an ancestor of `from` (which would close a cycle).
pub open spec fn add_accepts(nodes: Map<StateId, StateTreeNode>, from: StateId, to: StateId) -> bool {
    &&& nodes.contains_key(from)
    &&& from != to
    &&& !links(nodes, to, from)
    &&& !ancestors(nodes, from, nodes.len()).contains(to)
}

/// The former parent of `to` whose child list loses `to` when `to` is
/// re-parented under `from`.
pub open spec fn former_parent(nodes: Map<StateId, StateTreeNode>, from: StateId, to: StateId) -> Option<
    StateId,
> {
    if nodes.contains_key(to) {
        match nodes[to].super_state {
            Some(p) => if p != from && p != to && nodes.contains_key(p) {
                Some(p)
            } else {
                None
            },
            None => None,
        }
    } else {
        None
    }
}

/// `new` is `old` after the accepted edge `from -> to` was added: `to` goes
/// to the end of the children of `from` (leaving any earlier place there),
/// leaves the child list of its former parent, and has `from` as parent;
/// a `to` already in the tree keeps its children and traversal, a new one
/// gets `traversal` and no children. No other node changes.
pub open spec fn add_effect(
    old: Map<StateId, StateTreeNode>,
    new: Map<StateId, StateTreeNode>,
    from: StateId,
    to: StateId,
    traversal: TraversalStrategy,
) -> bool {
    &&& new.dom() == old.dom().insert(to)
    &&& new[from].sub_states@ == pushed_child(old[from].sub_states@, to)
    &&& new[from].super_state == old[from].super_state
    &&& new[from].traversal == old[from].traversal
    &&& new[to].super_state == Some(from)
    &&& old.contains_key(to) ==> new[to].sub_states@ == old[to].sub_states@ && new[to].traversal
        == old[to].traversal
    &&& !old.contains_key(to) ==> new[to].sub_states@ == Seq::<StateId>::empty() && new[to].traversal
        == traversal
    &&& match former_parent(old, from, to) {
        Some(p) => new[p].sub_states@ == old[p].sub_states@.remove_value(to) && new[p].super_state
            == old[p].super_state && new[p].traversal == old[p].traversal,
        None => true,
    }
    &&& forall|k: StateId|
        k != from && k != to && former_parent(old, from, to) != Some(k) && old.contains_key(k)
            ==> #[trigger] new[k] == old[k]
}

/// A hierarchy of states: each state's parent, its ordered children and
/// the traversal order of those children.
#[derive(Debug, Clone, PartialEq, Eq)]
pub struct StateTree {
    root: StateId,
    tree: HashMap<StateId, StateTreeNode>,
}

impl StateTree {
    /// The nodes of the tree, by state.
    pub closed spec fn nodes(&self) -> Map<StateId, StateTreeNode> {
        self.tree@
    }

    pub closed spec fn spec_root(&self) -> StateId {
        self.root
    }

    /// The parent of `state`, if it is in the tree and has one.
    pub open spec fn parent_of(&self, state: StateId) -> Option<StateId> {
        if self.nodes().contains_key(state) {
            self.nodes()[state].super_state
        } else {
            None
        }
    }

    pub fn new(root: StateId, traversal: TraversalStrategy) -> (r: Self)
        ensures
            r.spec_root() == root,
            r.nodes().dom() == set![root],
            r.nodes()[root].super_state is None,
            r.nodes()[root].traversal == traversal,
            r.nodes()[root].sub_states@ == Seq::<StateId>::empty(),
            consistent(r.nodes()),
    {
        let mut tree: HashMap<StateId, StateTreeNode> = HashMap::new();
        tree.insert(root, StateTreeNode::new(None, traversal));
        proof {
            assert(tree@.dom() =~= set![root]);
            assert(tree@[root].sub_states@.no_duplicates());
        }
        Self { root, tree }
    }

    /// Adds `to` as the last child of `from`, moving it from a former
    /// parent if it had one. Refused, with the tree unchanged, when
    /// [`add_accepts`] does not hold.
    pub fn add(&mut self, from: StateId, to: StateId, traversal: TraversalStrategy) -> (r: bool)
        ensures
            r == add_accepts(old(self).nodes(), from, to),
            final(self).spec_root() == old(self).spec_root(),
            !r ==> final(self).nodes() == old(self).nodes(),
            r ==> add_effect(old(self).nodes(), final(self).nodes(), from, to, traversal),
    {
        if from == to || !self.tree.contains_key(&from) || self.has_link(to, from) {
            return false;
        }
        let path = self.path_iter(from);
        if contains_id(&path, to) {
            return false;
        }
        let ghost m = self.tree@;
        let old_parent = self.get_super_state(to);
        match old_parent {
            Some(p) => {
                if p != from && p != to {
                    match self.tree.remove(&p) {
                        Some(pnode) => {
                            let mut pnode = pnode;
                            pnode.remove_child(to);
                            self.tree.insert(p, pnode);
                        },
                        None => {},
                    }
                }
            },
            None => {},
        }
        let ghost m2 = self.tree@;
        match self.tree.remove(&from) {
            Some(fnode) => {
                let mut fnode = fnode;
                fnode.push(to);
                self.tree.insert(from, fnode);
            },
            None => {},
        }
        match self.tree.remove(&to) {
            Some(tnode) => {
                let mut tnode = tnode;
                tnode.super_state = Some(from);
                self.tree.insert(to, tnode);
            },
            None => {
                self.tree.insert(to, StateTreeNode::new(Some(from), traversal));
            },
        }
        proof {
            assert(self.tree@.dom() =~= m.dom().insert(to));
            assert(m2[from] == m[from]);
        }
        true
    }

    /// [`StateTree::add`], by value.
    pub fn with_add(self, from: StateId, to: StateId, traversal: TraversalStrategy) -> (r: Self)
        ensures
            r.spec_root() == self.spec_root(),
            !add_accepts(self.nodes(), from, to) ==> r.nodes() == self.nodes(),
            add_accepts(self.nodes(), from, to) ==> add_effect(self.nodes(), r.nodes(), from, to, traversal),
    {
        let mut t = self;
        t.add(from, to, traversal);
        t
    }

    /// Detaches `to` from the children of `from` and moves the subtree under
    /// `to` into a new tree rooted at `to`, whose parent link is cleared.
    /// None, with the tree unchanged, when `from` or `to` is not in the tree.
    pub fn remove(&mut self, from: StateId, to: StateId) -> (r: Option<StateTree>)
        ensures
            final(self).spec_root() == old(self).spec_root(),
            !(old(self).nodes().contains_key(from) && old(self).nodes().contains_key(to)) ==> r is None
                && final(self).nodes() == old(self).nodes(),
            old(self).nodes().contains_key(from) && old(self).nodes().contains_key(to) ==> (r matches Some(t) && {
                let m = old(self).nodes();
                let sub = subtree(m, from, to);
                &&& t.spec_root() == to
                &&& t.nodes().dom() == sub
                &&& final(self).nodes().dom() == m.dom().difference(sub)
                &&& forall|k: StateId|
                    #[trigger] t.nodes().contains_key(k) ==> t.nodes()[k].sub_states@
                        == detached_kids(m, from, to, k) && t.nodes()[k].traversal == m[k].traversal
                        && t.nodes()[k].super_state == (if k == to {
                        None
                    } else {
                        m[k].super_state
                    })
                &&& forall|k: StateId|
                    #[trigger] final(self).nodes().contains_key(k) ==> final(self).nodes()[k].sub_states@ == detached_kids(m, from, to, k) && final(self).nodes()[k].traversal == m[k].traversal && final(self).nodes()[k].super_state
                        == m[k].super_state
            }),
    {
        if !self.tree.contains_key(&from) || !self.tree.contains_key(&to) {
            return None;
        }
        let ghost m = self.tree@;
        let mut from_node = match self.tree.remove(&from) {
            Some(node) => node,
            None => {
                return None;
            },
        };
        from_node.remove_child(to);
        self.tree.insert(from, from_node);
        let ghost m1 = self.tree@;
        proof {
            assert(m1.dom() =~= m.dom());
            assert forall|k: StateId| #[trigger] m1.contains_key(k) implies m1[k].sub_states@
                == detached_kids(m, from, to, k) && m1[k].traversal == m[k].traversal
                && m1[k].super_state == m[k].super_state by {}
        }
        let mut moved: HashMap<StateId, StateTreeNode> = HashMap::new();
        let mut stack: Vec<StateId> = Vec::new();
        stack.push(to);
        proof {
            assert(stack@[0] == to);
            assert(reaches(m, from, to, stack@[0], 0));
            assert(reachable(m, from, to, stack@[0]));
            assert(stack@.contains(to));
        }
        while stack.len() > 0
            invariant
                m1.dom() == m.dom(),
                m1.contains_key(to),
                self.root == old(self).root,
                forall|k: StateId| #[trigger] m1.contains_key(k) ==> m1[k].sub_states@
                    == detached_kids(m, from, to, k),
                forall|k: StateId|
                    #[trigger] self.tree@.contains_key(k) ==> m1.contains_key(k) && self.tree@[k]
                        == m1[k],
                forall|k: StateId|
                    #[trigger] moved@.contains_key(k) ==> m1.contains_key(k) && moved@[k] == m1[k]
                        && !self.tree@.contains_key(k) && reachable(m, from, to, k),
                forall|k: StateId|
                    #[trigger] m1.contains_key(k) ==> self.tree@.contains_key(k)
                        || moved@.contains_key(k),
                forall|j: int| 0 <= j < stack@.len() ==> reachable(m, from, to, #[trigger] stack@[j]),
                forall|k: StateId, c: StateId|
                    #[trigger] moved@.contains_key(k) && #[trigger] m1[k].sub_states@.contains(c)
                        ==> moved@.contains_key(c) || stack@.contains(c) || !m1.contains_key(c),
                moved@.contains_key(to) || stack@.contains(to),
            decreases self.tree@.len(), stack@.len(),
        {
            let ghost before_stack = stack@;
            let k = stack[stack.len() - 1];
            let _ = stack.pop();
            proof {
                assert(before_stack[before_stack.len() - 1] == k);
                assert(reachable(m, from, to, k));
            }
            match self.tree.remove(&k) {
                Some(node) => {
                    let ghost n0 = choose|n: nat| reaches(m, from, to, k, n);
                    assert(reaches(m, from, to, k, n0));
                    let mut kids = copy_ids(&node.sub_states);
                    let ghost popped = stack@;
                    stack.append(&mut kids);
                    moved.insert(k, node);
                    proof {
                        assert forall|j: int| 0 <= j < stack@.len() implies reachable(
                            m,
                            from,
                            to,
                            #[trigger] stack@[j],
                        ) by {
                            if j >= popped.len() {
                                let c = stack@[j];
                                assert(m1[k].sub_states@[j - popped.len()] == c);
                                assert(detached_kids(m, from, to, k).contains(c));
                                assert(child_link(m, from, to, k, c));
                                assert(reaches(m, from, to, k, ((n0 + 1) - 1) as nat));
                                assert(reaches(m, from, to, c, n0 + 1));
                            } else {
                                assert(stack@[j] == before_stack[j]);
                                assert(reachable(m, from, to, before_stack[j]));
                            }
                        }
                        assert forall|k2: StateId, c: StateId|
                            #[trigger] moved@.contains_key(k2) && #[trigger] m1[k2].sub_states@.contains(c)
                            implies moved@.contains_key(c) || stack@.contains(c) || !m1.contains_key(c) by {
                            if k2 == k {
                                let i = choose|i: int| 0 <= i < m1[k].sub_states@.len() && m1[k].sub_states@[i] == c;
                                assert(stack@[popped.len() + i] == c);
                            } else if before_stack.contains(c) && c != k {
                                let i = choose|i: int| 0 <= i < before_stack.len() && before_stack[i] == c;
                                assert(i != before_stack.len() - 1);
                                assert(stack@[i] == c);
                            }
                        }
                        if !moved@.contains_key(to) {
                            let i = choose|i: int| 0 <= i < before_stack.len() && before_stack[i] == to;
                            assert(stack@[i] == to);
                        }
                    }
                },
                None => {
                    proof {
                        assert forall|k2: StateId, c: StateId|
                            #[trigger] moved@.contains_key(k2) && #[trigger] m1[k2].sub_states@.contains(c)
                            implies moved@.contains_key(c) || stack@.contains(c) || !m1.contains_key(c) by {
                            if before_stack.contains(c) && c != k {
                                let i = choose|i: int| 0 <= i < before_stack.len() && before_stack[i] == c;
                                assert(i != before_stack.len() - 1);
                                assert(stack@[i] == c);
                            }
                        }
                        if !moved@.contains_key(to) && to != k {
                            let i = choose|i: int| 0 <= i < before_stack.len() && before_stack[i] == to;
                            assert(stack@[i] == to);
                        }
                        assert forall|j: int| 0 <= j < stack@.len() implies reachable(
                            m,
                            from,
                            to,
                            #[trigger] stack@[j],
                        ) by {
                            assert(stack@[j] == before_stack[j]);
                            assert(reachable(m, from, to, before_stack[j]));
                        }
                    }
                },
            }
        }
        proof {
            assert forall|k: StateId| #[trigger] subtree(m, from, to).contains(k) implies moved@.contains_key(k) by {
                let n = choose|n: nat| reaches(m, from, to, k, n);
                assert(stack@.len() == 0);
                lemma_closed_reach(m, m1, moved@, from, to, k, n);
            }
            assert(moved@.dom() =~= subtree(m, from, to));
            assert(self.tree@.dom() =~= m.dom().difference(subtree(m, from, to)));
        }
        let mut root_node = match moved.remove(&to) {
            Some(node) => node,
            None => {
                return Some(StateTree { root: to, tree: moved });
            },
        };
        root_node.super_state = None;
        moved.insert(to, root_node);
        proof {
            assert(moved@.dom() =~= subtree(m, from, to));
        }
        Some(StateTree { root: to, tree: moved })
    }

    /// The children of `state`, in insertion order.
    pub fn get(&self, state: StateId) -> (r: Option<&[StateId]>)
        ensures
            !self.nodes().contains_key(state) ==> r is None,
            self.nodes().contains_key(state) ==> r is Some && r->0@ == self.nodes()[state].sub_states@,
    {
        match self.tree.get(&state) {
            Some(node) => Some(node.get_sub_states()),
            None => None,
        }
    }

    pub fn get_root(&self) -> (r: StateId)
        ensures
            r == self.spec_root(),
    {
        self.root
    }

    pub fn contains(&self, state: StateId) -> (r: bool)
        ensures
            r == self.nodes().contains_key(state),
    {
        self.tree.contains_key(&state)
    }

    /// Whether `to` is a child of `from`.
    pub fn has_link(&self, from: StateId, to: StateId) -> (r: bool)
        ensures
            r == links(self.nodes(), from, to),
    {
        match self.tree.get(&from) {
            Some(node) => {
                let n = node.sub_states.len();
                let mut i: usize = 0;
                proof {
                    assert(self.tree@.contains_key(from) && self.tree@[from] == *node);
                }
                while i < n
                    invariant
                        self.tree@.contains_key(from),
                        self.tree@[from] == *node,
                        n == node.sub_states@.len(),
                        i <= n,
                        forall|j: int| 0 <= j < i ==> node.sub_states@[j] != to,
                    decreases n - i,
                {
                    if node.sub_states[i] == to {
                        proof {
                            assert(node.sub_states@[i as int] == to);
                            assert(self.tree@[from].sub_states@.contains(to));
                        }
                        return true;
                    }
                    i += 1;
                }
                false
            },
            None => false,
        }
    }

    pub fn len(&self) -> (r: usize)
        ensures
            r == self.nodes().len(),
    {
        self.tree.len()
    }

    pub fn is_empty(&self) -> (r: bool)
        ensures
            r == (self.nodes().len() == 0),
    {
        self.tree.len() == 0
    }

    /// The ancestors of `target`, nearest first, up to the root. The walk
    /// follows at most as many parent links as the tree has nodes.
    pub fn path_iter(&self, target: StateId) -> (r: Vec<StateId>)
        ensures
            r@ == ancestors(self.nodes(), target, self.nodes().len()),
    {
        let mut r: Vec<StateId> = Vec::new();
        let fuel = self.tree.len();
        let mut k: usize = 0;
        let mut cur = target;
        while k < fuel
            invariant
                fuel == self.nodes().len(),
                k <= fuel,
                r@ + ancestors(self.nodes(), cur, (fuel - k) as nat) == ancestors(
                    self.nodes(),
                    target,
                    fuel as nat,
                ),
            decreases fuel - k,
        {
            match self.get_super_state(cur) {
                Some(p) => {
                    proof {
                        assert(r@.push(p) + ancestors(self.nodes(), p, (fuel - k - 1) as nat)
                            =~= r@ + ancestors(self.nodes(), cur, (fuel - k) as nat));
                    }
                    r.push(p);
                    cur = p;
                    k += 1;
                },
                None => {
                    proof {
                        assert(r@ + ancestors(self.nodes(), cur, (fuel - k) as nat) =~= r@);
                    }
                    return r;
                },
            }
        }
        proof {
            assert(r@ + ancestors(self.nodes(), cur, 0) =~= r@);
        }
        r
    }

    /// The children of `state`, in insertion order.
    pub fn get_sub_states(&self, state: StateId) -> (r: Option<&[StateId]>)
        ensures
            !self.nodes().contains_key(state) ==> r is None,
            self.nodes().contains_key(state) ==> r is Some && r->0@ == self.nodes()[state].sub_states@,
    {
        self.get(state)
    }

    /// The parent of `state`.
    pub fn get_super_state(&self, state: StateId) -> (r: Option<StateId>)
        ensures
            r == self.parent_of(state),
    {
        match self.tree.get(&state) {
            Some(node) => node.super_state,
            None => None,
        }
    }

    /// The children of `state` in the order of the traversal strategy of its
    /// node; none when `state` is not in the tree.
    pub fn traversal_iter(&self, state: StateId) -> (r: Vec<StateId>)
        ensures
            !self.nodes().contains_key(state) ==> r@ == Seq::<StateId>::empty(),
            self.nodes().contains_key(state) ==> r@ == self.nodes()[state].traversal.order(
                self.nodes()[state].sub_states@,
            ),
    {
        match self.tree.get(&state) {
            Some(node) => node.traversal.traverse(&node.sub_states),
            None => Vec::new(),
        }
    }
}

/// Every state reached from `to` is in `moved`, when `moved` holds `to`
/// and is closed under the child links of the states of `m1`.
proof fn lemma_closed_reach(
    m: Map<StateId, StateTreeNode>,
    m1: Map<StateId, StateTreeNode>,
    moved: Map<StateId, StateTreeNode>,
    from: StateId,
    to: StateId,
    k: StateId,
    n: nat,
)
    requires
        m1.dom() == m.dom(),
        forall|k: StateId| #[trigger] m1.contains_key(k) ==> m1[k].sub_states@
            == detached_kids(m, from, to, k),
        forall|k: StateId, c: StateId|
            #[trigger] moved.contains_key(k) && #[trigger] m1[k].sub_states@.contains(c)
                ==> moved.contains_key(c) || !m1.contains_key(c),
        moved.contains_key(to),
        forall|k: StateId| #[trigger] moved.contains_key(k) ==> m1.contains_key(k),
        m.contains_key(k),
        reaches(m, from, to, k, n),
    ensures
        moved.contains_key(k),
    decreases n,
{
    if k != to {
        assert(n > 0);
        let p = choose|p: StateId|
            reaches(m, from, to, p, (n - 1) as nat) && #[trigger] child_link(m, from, to, p, k);
        lemma_closed_reach(m, m1, moved, from, to, p, (n - 1) as nat);
        assert(m1[p].sub_states@.contains(k));
    }
}

/// The parent links and the child lists of `m` agree: a state lists `s` as
/// a child exactly when `s` is in the tree with that state as parent; no
/// child list repeats a state, and no state is its own parent.
pub open spec fn consistent(m: Map<StateId, StateTreeNode>) -> bool {
    &&& forall|s: StateId, p: StateId|
        m.contains_key(s) && m[s].super_state == Some(p) ==> #[trigger] links(m, p, s)
    &&& forall|p: StateId, s: StateId|
        #[trigger] links(m, p, s) ==> m.contains_key(s) && m[s].super_state == Some(p)
    &&& forall|p: StateId| #[trigger] m.contains_key(p) ==> m[p].sub_states@.no_duplicates()
    &&& forall|s: StateId| #[trigger] m.contains_key(s) ==> m[s].super_state != Some(s)
}

proof fn lemma_remove_value_contains(s: Seq<StateId>, x: StateId)
    requires
        s.no_duplicates(),
    ensures
        s.remove_value(x).no_duplicates(),
        forall|y: StateId| #[trigger] s.remove_value(x).contains(y) <==> (s.contains(y) && y != x),
{
    s.index_of_first_ensures(x);
    match s.index_of_first(x) {
        Some(i) => {
            let r = s.remove(i);
            assert forall|y: StateId| #[trigger] r.contains(y) <==> (s.contains(y) && y != x) by {
                if r.contains(y) {
                    let k = choose|k: int| 0 <= k < r.len() && r[k] == y;
                    let ok = if k < i { k } else { k + 1 };
                    assert(s[ok] == y);
                    assert(ok != i);
                }
                if s.contains(y) && y != x {
                    let k = choose|k: int| 0 <= k < s.len() && s[k] == y;
                    assert(k != i);
                    if k < i {
                        assert(r[k] == y);
                    } else {
                        assert(r[k - 1] == y);
                    }
                }
            }
            assert forall|a: int, b: int| 0 <= a < r.len() && 0 <= b < r.len() && a != b implies r[a]
                != r[b] by {
                let oa = if a < i { a } else { a + 1 };
                let ob = if b < i { b } else { b + 1 };
                assert(r[a] == s[oa]);
                assert(r[b] == s[ob]);
            }
        },
        None => {},
    }
}

proof fn lemma_pushed_child_contains(s: Seq<StateId>, x: StateId)
    requires
        s.no_duplicates(),
    ensures
        pushed_child(s, x).no_duplicates(),
        forall|y: StateId| #[trigger] pushed_child(s, x).contains(y) <==> ((s.contains(y) && y != x) || y
            == x),
{
    lemma_remove_value_contains(s, x);
    let r = s.remove_value(x);
    let q = r.push(x);
    assert forall|y: StateId| #[trigger] q.contains(y) <==> (r.contains(y) || y == x) by {
        if q.contains(y) {
            let k = choose|k: int| 0 <= k < q.len() && q[k] == y;
            if k < r.len() {
                assert(r[k] == y);
            }
        }
        if r.contains(y) {
            let k = choose|k: int| 0 <= k < r.len() && r[k] == y;
            assert(q[k] == y);
        }
        if y == x {
            assert(q[r.len() as int] == x);
        }
    }
    assert forall|a: int, b: int| 0 <= a < q.len() && 0 <= b < q.len() && a != b implies q[a] != q[b] by {
        if a == r.len() {
            assert(!r.contains(x));
            assert(r[b] == q[b]);
        } else if b == r.len() {
            assert(!r.contains(x));
            assert(r[a] == q[a]);
        }
    }
}

/// Adding an accepted edge keeps the tree consistent: the moved state
/// leaves its former parent's list, and every list agrees with the parent
/// links afterwards.
pub proof fn lemma_add_keeps_consistent(
    old: Map<StateId, StateTreeNode>,
    new: Map<StateId, StateTreeNode>,
    from: StateId,
    to: StateId,
    traversal: TraversalStrategy,
)
    requires
        consistent(old),
        add_accepts(old, from, to),
        add_effect(old, new, from, to, traversal),
    ensures
        consistent(new),
{
    let fp = former_parent(old, from, to);
    lemma_pushed_child_contains(old[from].sub_states@, to);
    if let Some(q) = fp {
        lemma_remove_value_contains(old[q].sub_states@, to);
    }
    if old.contains_key(to) {
        if let Some(q) = old[to].super_state {
            assert(links(old, q, to));
        }
    }
    assert forall|s: StateId, p: StateId| new.contains_key(s) && new[s].super_state == Some(p) implies #[trigger] links(
        new,
        p,
        s,
    ) by {
        if s == to {
            assert(new[from].sub_states@.contains(to));
        } else {
            assert(old.contains_key(s));
            assert(old[s].super_state == Some(p));
            assert(links(old, p, s));
            if p == from {
                assert(new[from].sub_states@.contains(s));
            } else if p == to {
                assert(s != from);
                assert(new[to].sub_states@ == old[to].sub_states@);
            } else if fp == Some(p) {
                assert(new[p].sub_states@.contains(s));
            } else {
                assert(new[p] == old[p]);
            }
        }
    }
    assert forall|p: StateId, s: StateId| #[trigger] links(new, p, s) implies new.contains_key(s)
        && new[s].super_state == Some(p) by {
        if p == from {
            if s != to {
                assert(old[from].sub_states@.contains(s));
                assert(links(old, from, s));
            }
        } else if p == to {
            if old.contains_key(to) {
                assert(old[to].sub_states@.contains(s));
                assert(links(old, to, s));
                assert(s != to);
            }
        } else if fp == Some(p) {
            assert(old[p].sub_states@.contains(s));
            assert(links(old, p, s));
        } else {
            assert(old.contains_key(p));
            assert(new[p] == old[p]);
            assert(links(old, p, s));
            if s == to {
                assert(old[to].super_state == Some(p));
            }
        }
    }
    assert forall|p: StateId| #[trigger] new.contains_key(p) implies new[p].sub_states@.no_duplicates() by {
        if p != from && p != to && fp != Some(p) {
            assert(new[p] == old[p]);
        }
        if p == to && !old.contains_key(to) {
            assert(new[to].sub_states@.no_duplicates());
        }
    }
    assert forall|s: StateId| #[trigger] new.contains_key(s) implies new[s].super_state != Some(s) by {
        if s != from && s != to && fp != Some(s) {
            assert(new[s] == old[s]);
        }
    }
}

/// Adding an edge that would close a cycle is refused: when `b` is `a`
/// itself, a child of `a`, or has `a` among its ancestors, adding `a` under
/// `b` is not accepted, so [`StateTree::add`] returns `false` and leaves the
/// tree as it was.
pub proof fn lemma_cycle_rejected(nodes: Map<StateId, StateTreeNode>, a: StateId, b: StateId)
    requires
        a == b || links(nodes, a, b) || ancestors(nodes, b, nodes.len()).contains(a),
    ensures
        !add_accepts(nodes, b, a),
{
}

} // verus!
