use std::collections::VecDeque;
use vstd::prelude::*;

use crate::state::{HsmOnState, StateId};

verus! {

/// One entry of a machine's history: a state and the phase it was recorded in.
#[derive(Debug, Clone, Copy, PartialEq, Eq, Structural)]
pub struct HistoricalNode {
    id: StateId,
    on_state: HsmOnState,
}

impl HistoricalNode {
    pub closed spec fn new_spec(id: StateId, on_state: HsmOnState) -> Self {
        Self { id, on_state }
    }

    pub fn new(id: StateId, on_state: HsmOnState) -> (r: Self)
        ensures
            r == Self::new_spec(id, on_state),
            r.spec_id() == id,
            r.spec_on_state() == on_state,
    {
        Self { id, on_state }
    }

    pub closed spec fn spec_id(&self) -> StateId {
        self.id
    }

    pub broadcast proof fn lemma_new_fields(id: StateId, on_state: HsmOnState)
        ensures
            #[trigger] Self::new_spec(id, on_state).spec_id() == id,
            Self::new_spec(id, on_state).spec_on_state() == on_state,
    {
    }

    pub closed spec fn spec_on_state(&self) -> HsmOnState {
        self.on_state
    }

    pub fn id(&self) -> (r: StateId)
        ensures
            r == self.spec_id(),
    {
        self.id
    }

    pub fn on_state(&self) -> (r: HsmOnState)
        ensures
            r == self.spec_on_state(),
    {
        self.on_state
    }
}

/// The entries kept after pushing `x` onto `h` with room for `max` entries:
/// the oldest entry is dropped when the history is full.
pub open spec fn pushed(h: Seq<HistoricalNode>, max: nat, x: HistoricalNode) -> Seq<HistoricalNode> {
    if h.len() >= max && h.len() > 0 {
        h.drop_first().push(x)
    } else {
        h.push(x)
    }
}

/// The entries kept after pushing every entry of `xs`, in order.
pub open spec fn pushed_all(h: Seq<HistoricalNode>, max: nat, xs: Seq<HistoricalNode>) -> Seq<
    HistoricalNode,
>
    decreases xs.len(),
{
    if xs.len() == 0 {
        h
    } else {
        pushed_all(pushed(h, max, xs[0]), max, xs.drop_first())
    }
}

/// The last `n` entries of `s` (all of them when it holds fewer).
pub open spec fn last_n(s: Seq<HistoricalNode>, n: nat) -> Seq<HistoricalNode> {
    if s.len() <= n {
        s
    } else {
        s.subrange(s.len() - n, s.len() as int)
    }
}

/// A bounded history of states, oldest first, that drops its oldest entry
/// when a push would exceed its capacity.
#[derive(Debug, Clone, PartialEq, Eq)]
pub struct StateHistory {
    history: VecDeque<HistoricalNode>,
    max_size: usize,
}

impl StateHistory {
    /// The entries, oldest first.
    pub closed spec fn view(&self) -> Seq<HistoricalNode> {
        self.history@
    }

    /// The history never holds more than its capacity (at least one entry,
    /// since the latest push is always kept).
    pub open spec fn wf(&self) -> bool {
        self.view().len() <= if self.capacity() == 0 {
            1
        } else {
            self.capacity()
        }
    }

    /// The capacity given at construction.
    pub closed spec fn capacity(&self) -> nat {
        self.max_size as nat
    }

    pub fn new(max_size: usize) -> (r: Self)
        ensures
            r.view() == Seq::<HistoricalNode>::empty(),
            r.capacity() == max_size,
            r.wf(),
    {
        Self { history: VecDeque::new(), max_size }
    }

    /// Pushes an entry, dropping the oldest one when the history is full.
    pub fn push(&mut self, node: HistoricalNode)
        ensures
            final(self).view() == pushed(old(self).view(), old(self).capacity(), node),
            final(self).capacity() == old(self).capacity(),
            old(self).wf() ==> final(self).wf(),
    {
        if self.history.len() >= self.max_size && self.history.len() > 0 {
            let _ = self.history.pop_front();
        }
        self.history.push_back(node);
        proof {
            assert(self.history@ =~= pushed(old(self).history@, old(self).max_size as nat, node));
        }
    }

    /// The most recent entry.
    pub fn get_current(&self) -> (r: Option<HistoricalNode>)
        ensures
            self.view().len() == 0 ==> r is None,
            self.view().len() > 0 ==> r == Some(self.view().last()),
    {
        let n = self.history.len();
        if n == 0 {
            None
        } else {
            Some(self.history[n - 1])
        }
    }

    /// The entry `index` steps back from the end: `get_at(1)` is the most
    /// recent one; none for `0` or beyond the oldest.
    pub fn get_at(&self, index: usize) -> (r: Option<HistoricalNode>)
        ensures
            1 <= index <= self.view().len() ==> r == Some(self.view()[self.view().len() - index]),
            !(1 <= index <= self.view().len()) ==> r is None,
    {
        let n = self.history.len();
        if index == 0 || index > n {
            None
        } else {
            Some(self.history[n - index])
        }
    }

    /// The entry at position `i`, counted from the oldest.
    pub fn get(&self, i: usize) -> (r: Option<HistoricalNode>)
        ensures
            i < self.view().len() ==> r == Some(self.view()[i as int]),
            i >= self.view().len() ==> r is None,
    {
        if i < self.history.len() {
            Some(self.history[i])
        } else {
            None
        }
    }

    /// All entries, oldest first.
    pub fn to_vec(&self) -> (r: Vec<HistoricalNode>)
        ensures
            r@ == self.view(),
    {
        let mut r: Vec<HistoricalNode> = Vec::new();
        let n = self.history.len();
        let mut i: usize = 0;
        while i < n
            invariant
                n == self.history@.len(),
                i <= n,
                r@ == self.history@.subrange(0, i as int),
            decreases n - i,
        {
            r.push(self.history[i]);
            i += 1;
            proof {
                assert(r@ =~= self.history@.subrange(0, i as int));
            }
        }
        proof {
            assert(r@ =~= self.history@);
        }
        r
    }

    pub fn clear(&mut self)
        ensures
            final(self).view() == Seq::<HistoricalNode>::empty(),
            final(self).capacity() == old(self).capacity(),
            final(self).wf(),
    {
        self.history.clear();
    }

    pub fn len(&self) -> (r: usize)
        ensures
            r == self.view().len(),
    {
        self.history.len()
    }

    pub fn is_empty(&self) -> (r: bool)
        ensures
            r == (self.view().len() == 0),
    {
        self.history.len() == 0
    }
}

impl Default for StateHistory {
    fn default() -> (r: Self)
        ensures
            r.view() == Seq::<HistoricalNode>::empty(),
            r.capacity() == 10,
    {
        Self::new(10)
    }
}

/// A history of capacity `max` (at least one) that already holds at most
/// `max` entries, after further pushes, holds the last `max` entries of
/// everything pushed, oldest first.
pub proof fn lemma_pushed_all_keeps_last(h: Seq<HistoricalNode>, max: nat, xs: Seq<HistoricalNode>)
    requires
        max >= 1,
        h.len() <= max,
    ensures
        pushed_all(h, max, xs) == last_n(h + xs, max),
    decreases xs.len(),
{
    if xs.len() == 0 {
        assert(h + xs =~= h);
    } else {
        let h2 = pushed(h, max, xs[0]);
        assert(h2 == last_n(h.push(xs[0]), max)) by {
            if h.len() >= max {
                assert(h.drop_first().push(xs[0]) =~= h.push(xs[0]).subrange(
                    (h.len() + 1 - max) as int,
                    (h.len() + 1) as int,
                ));
            }
        }
        lemma_pushed_all_keeps_last(h2, max, xs.drop_first());
        let all = h + xs;
        assert(h.push(xs[0]) + xs.drop_first() =~= all);
        if h.len() + 1 <= max {
            assert(h2 + xs.drop_first() =~= all);
        } else {
            let k = (h.len() + 1 - max) as int;
            assert(h2 + xs.drop_first() =~= all.subrange(k, all.len() as int));
            assert(last_n(h2 + xs.drop_first(), max) =~= last_n(all, max));
        }
    }
}

/// Pushing any number of entries into an empty history of capacity `max`
/// (at least one) keeps exactly the last `max` of them, in push order.
pub proof fn lemma_history_bounded(max: nat, xs: Seq<HistoricalNode>)
    requires
        max >= 1,
    ensures
        pushed_all(Seq::empty(), max, xs) == last_n(xs, max),
        pushed_all(Seq::empty(), max, xs).len() == if xs.len() <= max { xs.len() } else { max },
{
    lemma_pushed_all_keeps_last(Seq::empty(), max, xs);
    assert(Seq::<HistoricalNode>::empty() + xs =~= xs);
}

} // verus!
