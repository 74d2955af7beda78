use vstd::prelude::*;

use crate::hook_system::HsmStateContext;

verus! {

/// The contents of an action buffer.
pub struct BufferView {
    /// The contexts the action runs on in the present tick.
    pub curr: Seq<HsmStateContext>,
    /// The contexts gathered for the next tick.
    pub next: Seq<HsmStateContext>,
    /// Contexts to drop from the next swap.
    pub filter: Set<HsmStateContext>,
    /// Contexts that are not queued while they stay here.
    pub interceptor: Set<HsmStateContext>,
}

/// The buffer after a swap: the next tick's contexts become current, less
/// those under the filter; the filter and the next set are emptied.
pub open spec fn updated(v: BufferView) -> BufferView {
    BufferView {
        curr: v.next.filter(|x: HsmStateContext| !v.filter.contains(x)),
        next: Seq::empty(),
        filter: Set::empty(),
        interceptor: v.interceptor,
    }
}

/// The buffer after `c` is offered for the next tick.
pub open spec fn added(v: BufferView, c: HsmStateContext) -> BufferView {
    if v.interceptor.contains(c) {
        v
    } else {
        BufferView { next: v.next.push(c), ..v }
    }
}

/// The buffer after `c` is put under the filter.
pub open spec fn filtered(v: BufferView, c: HsmStateContext) -> BufferView {
    BufferView { filter: v.filter.insert(c), ..v }
}

proof fn lemma_push_contains(s: Seq<HsmStateContext>, c: HsmStateContext)
    ensures
        forall|x: HsmStateContext| #[trigger] s.push(c).contains(x) <==> (s.contains(x) || x == c),
        s.push(c).to_set() == s.to_set().insert(c),
{
    assert forall|x: HsmStateContext| #[trigger] s.push(c).contains(x) <==> (s.contains(x) || x == c) by {
        if s.contains(x) {
            let k = choose|k: int| 0 <= k < s.len() && s[k] == x;
            assert(s.push(c)[k] == x);
        }
        if x == c {
            assert(s.push(c)[s.len() as int] == c);
        }
        if s.push(c).contains(x) {
            let k = choose|k: int| 0 <= k < s.len() + 1 && s.push(c)[k] == x;
            if k < s.len() {
                assert(s[k] == x);
            }
        }
    }
    assert(s.push(c).to_set() =~= s.to_set().insert(c));
}

fn contains(v: &Vec<HsmStateContext>, c: HsmStateContext) -> (r: bool)
    ensures
        r == v@.contains(c),
{
    let n = v.len();
    let mut i: usize = 0;
    while i < n
        invariant
            n == v@.len(),
            i <= n,
            forall|j: int| 0 <= j < i ==> v@[j] != c,
        decreases n - i,
    {
        if v[i] == c {
            return true;
        }
        i += 1;
    }
    false
}

fn copy_of(v: &Vec<HsmStateContext>) -> (r: Vec<HsmStateContext>)
    ensures
        r@ == v@,
{
    let mut r: Vec<HsmStateContext> = Vec::new();
    let n = v.len();
    let mut i: usize = 0;
    while i < n
        invariant
            n == v@.len(),
            i <= n,
            r@ == v@.subrange(0, i as int),
        decreases n - i,
    {
        r.push(v[i]);
        i += 1;
        proof {
            assert(r@ =~= v@.subrange(0, i as int));
        }
    }
    proof {
        assert(r@ =~= v@);
    }
    r
}

/// The double buffer of one named action: the contexts it runs on in the
/// present tick, those gathered for the next one, and the filter and
/// interceptor sets that shape the next swap.
#[derive(Debug, Clone, PartialEq, Eq, Default)]
pub struct HsmActionSystemBuffer {
    pub curr: Vec<HsmStateContext>,
    pub next: Vec<HsmStateContext>,
    filter: Vec<HsmStateContext>,
    interceptor: Vec<HsmStateContext>,
}

impl HsmActionSystemBuffer {
    pub closed spec fn view(&self) -> BufferView {
        BufferView {
            curr: self.curr@,
            next: self.next@,
            filter: self.filter@.to_set(),
            interceptor: self.interceptor@.to_set(),
        }
    }

    pub fn new() -> (r: Self)
        ensures
            r@.curr == Seq::<HsmStateContext>::empty(),
            r@.next == Seq::<HsmStateContext>::empty(),
            r@.filter == Set::<HsmStateContext>::empty(),
            r@.interceptor == Set::<HsmStateContext>::empty(),
    {
        let r = Self {
            curr: Vec::new(),
            next: Vec::new(),
            filter: Vec::new(),
            interceptor: Vec::new(),
        };
        proof {
            assert(r.filter@.to_set() =~= Set::<HsmStateContext>::empty());
            assert(r.interceptor@.to_set() =~= Set::<HsmStateContext>::empty());
        }
        r
    }

    /// The contexts of the present tick.
    pub fn get_curr(&self) -> (r: Vec<HsmStateContext>)
        ensures
            r@ == self@.curr,
    {
        copy_of(&self.curr)
    }

    /// Swaps in the next tick: its contexts become current, less those
    /// under the filter, and the filter and the next set are emptied.
    pub fn update(&mut self)
        ensures
            final(self)@ == updated(old(self)@),
    {
        std::mem::swap(&mut self.curr, &mut self.next);
        let ghost pending = self.curr@;
        let ghost fset = self.filter@.to_set();
        let mut kept: Vec<HsmStateContext> = Vec::new();
        let n = self.curr.len();
        let mut i: usize = 0;
        while i < n
            invariant
                n == self.curr@.len(),
                pending == self.curr@,
                fset == self.filter@.to_set(),
                i <= n,
                kept@ == pending.subrange(0, i as int).filter(
                    |x: HsmStateContext| !fset.contains(x),
                ),
            decreases n - i,
        {
            let c = self.curr[i];
            proof {
                assert(pending.subrange(0, i + 1) =~= pending.subrange(0, i as int).push(c));
                pending.subrange(0, i as int).lemma_filter_push(
                    c,
                    |x: HsmStateContext| !fset.contains(x),
                );
            }
            if !contains(&self.filter, c) {
                kept.push(c);
            }
            i += 1;
        }
        proof {
            assert(pending.subrange(0, n as int) =~= pending);
        }
        self.curr = kept;
        self.filter.clear();
        self.next.clear();
        proof {
            assert(self.filter@.to_set() =~= Set::<HsmStateContext>::empty());
            assert(self@.curr =~= updated(old(self)@).curr);
        }
    }

    /// Adds to the interceptor every current context that the next tick no
    /// longer holds, so that it is not queued again until released.
    pub fn update_interceptor(&mut self)
        ensures
            final(self)@.curr == old(self)@.curr,
            final(self)@.next == old(self)@.next,
            final(self)@.filter == old(self)@.filter,
            final(self)@.interceptor == old(self)@.interceptor.union(
                Set::new(|x: HsmStateContext| old(self)@.curr.contains(x) && !old(self)@.next.contains(x)),
            ),
    {
        let n = self.curr.len();
        let mut i: usize = 0;
        while i < n
            invariant
                n == self.curr@.len(),
                i <= n,
                self.curr@ == old(self).curr@,
                self.next@ == old(self).next@,
                self@.filter == old(self)@.filter,
                forall|x: HsmStateContext|
                    #[trigger] self@.interceptor.contains(x) <==> (old(self)@.interceptor.contains(x)
                        || (!self.next@.contains(x) && exists|k: int|
                        0 <= k < i && #[trigger] self.curr@[k] == x)),
            decreases n - i,
        {
            let c = self.curr[i];
            if !contains(&self.next, c) {
                self.add_interceptor(c);
            }
            i += 1;
            proof {
                assert forall|x: HsmStateContext|
                    #[trigger] self@.interceptor.contains(x) <==> (old(self)@.interceptor.contains(x)
                        || (!self.next@.contains(x) && exists|k: int|
                        0 <= k < i && #[trigger] self.curr@[k] == x)) by {
                    if x == c {
                        assert(self.curr@[i - 1] == x);
                    }
                }
            }
        }
        proof {
            assert(self@.interceptor =~= old(self)@.interceptor.union(
                Set::new(|x: HsmStateContext| old(self)@.curr.contains(x) && !old(self)@.next.contains(x)),
            ));
        }
    }

    /// Queues `context` for the next tick unless it is intercepted.
    pub fn add(&mut self, context: HsmStateContext)
        ensures
            final(self)@ == added(old(self)@, context),
    {
        if contains(&self.interceptor, context) {
            return;
        }
        self.next.push(context);
    }

    /// Queues each context, in order, unless it is intercepted.
    pub fn adds(&mut self, contexts: Vec<HsmStateContext>)
        ensures
            final(self)@.next == old(self)@.next + contexts@.filter(
                |c: HsmStateContext| !old(self)@.interceptor.contains(c),
            ),
            final(self)@.curr == old(self)@.curr,
            final(self)@.filter == old(self)@.filter,
            final(self)@.interceptor == old(self)@.interceptor,
    {
        let ghost iset = self.interceptor@.to_set();
        let n = contexts.len();
        let mut i: usize = 0;
        while i < n
            invariant
                n == contexts@.len(),
                i <= n,
                iset == old(self)@.interceptor,
                self@.interceptor == old(self)@.interceptor,
                self@.curr == old(self)@.curr,
                self@.filter == old(self)@.filter,
                self.next@ == old(self).next@ + contexts@.subrange(0, i as int).filter(
                    |c: HsmStateContext| !iset.contains(c),
                ),
            decreases n - i,
        {
            let c = contexts[i];
            proof {
                assert(contexts@.subrange(0, i + 1) =~= contexts@.subrange(0, i as int).push(c));
                contexts@.subrange(0, i as int).lemma_filter_push(
                    c,
                    |x: HsmStateContext| !iset.contains(x),
                );
            }
            self.add(c);
            i += 1;
            proof {
                assert(self.next@ =~= old(self).next@ + contexts@.subrange(0, i as int).filter(
                    |c: HsmStateContext| !iset.contains(c),
                ));
            }
        }
        proof {
            assert(contexts@.subrange(0, n as int) =~= contexts@);
        }
    }

    /// Drops `context` from the next swap.
    pub fn add_filter(&mut self, context: HsmStateContext)
        ensures
            final(self)@ == filtered(old(self)@, context),
    {
        if !contains(&self.filter, context) {
            proof {
                lemma_push_contains(self.filter@, context);
            }
            self.filter.push(context);
        }
        proof {
            assert(self@.filter =~= old(self)@.filter.insert(context));
            assert(self@ == filtered(old(self)@, context));
        }
    }

    /// Stops `context` from being queued until it is released.
    pub fn add_interceptor(&mut self, context: HsmStateContext)
        ensures
            final(self)@.interceptor == old(self)@.interceptor.insert(context),
            final(self)@.curr == old(self)@.curr,
            final(self)@.next == old(self)@.next,
            final(self)@.filter == old(self)@.filter,
    {
        if !contains(&self.interceptor, context) {
            proof {
                lemma_push_contains(self.interceptor@, context);
            }
            self.interceptor.push(context);
        }
        proof {
            assert(self@.interceptor =~= old(self)@.interceptor.insert(context));
        }
    }

    /// Lets `context` be queued again.
    pub fn remove_interceptor(&mut self, context: HsmStateContext)
        ensures
            final(self)@.interceptor == old(self)@.interceptor.remove(context),
            final(self)@.curr == old(self)@.curr,
            final(self)@.next == old(self)@.next,
            final(self)@.filter == old(self)@.filter,
    {
        let mut kept: Vec<HsmStateContext> = Vec::new();
        let n = self.interceptor.len();
        let mut i: usize = 0;
        while i < n
            invariant
                n == self.interceptor@.len(),
                i <= n,
                self.interceptor@ == old(self).interceptor@,
                self.curr@ == old(self).curr@,
                self.next@ == old(self).next@,
                self.filter@ == old(self).filter@,
                forall|x: HsmStateContext| #[trigger] kept@.contains(x) <==> (x != context
                    && self.interceptor@.subrange(0, i as int).contains(x)),
            decreases n - i,
        {
            let c = self.interceptor[i];
            proof {
                assert(self.interceptor@.subrange(0, i + 1) =~= self.interceptor@.subrange(
                    0,
                    i as int,
                ).push(c));
            }
            proof {
                lemma_push_contains(self.interceptor@.subrange(0, i as int), c);
                lemma_push_contains(kept@, c);
            }
            if c != context {
                kept.push(c);
            }
            i += 1;
        }
        proof {
            assert(self.interceptor@.subrange(0, n as int) =~= self.interceptor@);
        }
        self.interceptor = kept;
        proof {
            assert(self@.interceptor =~= old(self)@.interceptor.remove(context));
        }
    }

    /// Carries the present tick's contexts over to the next one.
    pub fn reflow(&mut self)
        ensures
            final(self)@.next == old(self)@.next + old(self)@.curr,
            final(self)@.curr == old(self)@.curr,
            final(self)@.filter == old(self)@.filter,
            final(self)@.interceptor == old(self)@.interceptor,
    {
        let n = self.curr.len();
        let mut i: usize = 0;
        while i < n
            invariant
                n == self.curr@.len(),
                i <= n,
                self.curr@ == old(self).curr@,
                self.filter@ == old(self).filter@,
                self.interceptor@ == old(self).interceptor@,
                self.next@ == old(self).next@ + self.curr@.subrange(0, i as int),
            decreases n - i,
        {
            let c = self.curr[i];
            self.next.push(c);
            i += 1;
            proof {
                assert(self.next@ =~= old(self).next@ + self.curr@.subrange(0, i as int));
            }
        }
        proof {
            assert(self.curr@.subrange(0, n as int) =~= self.curr@);
        }
    }

    /// Takes what an action returned for the present tick: the contexts it
    /// asks to keep running are queued (unless intercepted), then every
    /// current context that is not queued for the next tick is intercepted.
    pub fn apply_action_result(&mut self, result: Option<Vec<HsmStateContext>>)
        ensures
            final(self)@.curr == old(self)@.curr,
            final(self)@.filter == old(self)@.filter,
            final(self)@.next == (match result {
                Some(v) => old(self)@.next + v@.filter(
                    |c: HsmStateContext| !old(self)@.interceptor.contains(c),
                ),
                None => old(self)@.next,
            }),
            final(self)@.interceptor == old(self)@.interceptor.union(
                Set::new(|x: HsmStateContext| old(self)@.curr.contains(x) && !final(self)@.next.contains(x)),
            ),
    {
        match result {
            Some(v) => {
                if v.len() > 0 {
                    self.adds(v);
                } else {
                    proof {
                        assert(v@.filter(|c: HsmStateContext| !old(self)@.interceptor.contains(c))
                            =~= Seq::<HsmStateContext>::empty()) by {
                            v@.lemma_filter_len(|c: HsmStateContext| !old(self)@.interceptor.contains(c));
                        }
                        assert(old(self)@.next + Seq::<HsmStateContext>::empty() =~= old(self)@.next);
                    }
                }
            },
            None => {},
        }
        self.update_interceptor();
    }

    /// The step the host takes when the state of `context` enters its exit
    /// phase: the context is released from the interceptor and put under
    /// the filter, so the next swap drops it.
    pub fn retire(&mut self, context: HsmStateContext)
        ensures
            final(self)@.interceptor == old(self)@.interceptor.remove(context),
            final(self)@.filter == old(self)@.filter.insert(context),
            final(self)@.curr == old(self)@.curr,
            final(self)@.next == old(self)@.next,
    {
        self.remove_interceptor(context);
        self.add_filter(context);
    }

    /// Whether the present tick has no context.
    pub fn is_empty(&self) -> (r: bool)
        ensures
            r == (self@.curr.len() == 0),
    {
        self.curr.len() == 0
    }
}

/// Two swaps in a row with nothing queued in between leave no current
/// context after the second; when nothing was queued for the next tick
/// either, none after the first.
pub proof fn lemma_update_twice_empties(v: BufferView)
    ensures
        updated(updated(v)).curr == Seq::<HsmStateContext>::empty(),
        updated(updated(v)).next == Seq::<HsmStateContext>::empty(),
        v.next.len() == 0 ==> updated(v).curr == Seq::<HsmStateContext>::empty(),
{
    let f1 = |x: HsmStateContext| !v.filter.contains(x);
    let f2 = |x: HsmStateContext| !updated(v).filter.contains(x);
    assert(Seq::<HsmStateContext>::empty().filter(f2) =~= Seq::<HsmStateContext>::empty()) by {
        Seq::<HsmStateContext>::empty().lemma_filter_len(f2);
    }
    if v.next.len() == 0 {
        assert(v.next =~= Seq::<HsmStateContext>::empty());
        v.next.lemma_filter_len(f1);
    }
}

/// A filtered context is removed by the next swap, once: the swap clears
/// the filter, so the same context queued again survives the swap after.
pub proof fn lemma_filter_applies_once(v: BufferView, c: HsmStateContext)
    ensures
        !updated(filtered(v, c)).curr.contains(c),
        updated(filtered(v, c)).filter == Set::<HsmStateContext>::empty(),
        !updated(filtered(v, c)).interceptor.contains(c) ==> updated(
            added(updated(filtered(v, c)), c),
        ).curr.contains(c),
{
    let v1 = filtered(v, c);
    let kept_v1 = |x: HsmStateContext| !v1.filter.contains(x);
    if updated(v1).curr.contains(c) {
        let k = choose|k: int| 0 <= k < updated(v1).curr.len() && updated(v1).curr[k] == c;
        v1.next.lemma_filter_pred(kept_v1, k);
        assert(kept_v1(updated(v1).curr[k]));
    }
    let v2 = updated(v1);
    if !v2.interceptor.contains(c) {
        let v3 = added(v2, c);
        assert(v3.next == seq![c]);
        let kept_v3 = |x: HsmStateContext| !v3.filter.contains(x);
        assert(seq![c].filter(kept_v3) =~= seq![c]) by {
            Seq::<HsmStateContext>::empty().lemma_filter_push(c, kept_v3);
            assert(Seq::<HsmStateContext>::empty().push(c) =~= seq![c]);
            assert(Seq::<HsmStateContext>::empty().filter(kept_v3).len() == 0) by {
                Seq::<HsmStateContext>::empty().lemma_filter_len(kept_v3);
            }
        }
        assert(updated(v3).curr[0] == c);
    }
}

/// The key of the buffer of an action registered for a schedule:
/// `"schedule:action"`, or `"schedule"` for an anchor without an action.
pub fn action_key(schedule: &str, action_name: Option<&str>) -> (r: String)
    ensures
        action_name matches Some(a) ==> r@ == schedule@ + seq![':'] + a@,
        action_name is None ==> r@ == schedule@,
{
    let mut key = String::from_str(schedule);
    match action_name {
        Some(a) => {
            proof {
                reveal_strlit(":");
            }
            key.append(":");
            key.append(a);
        },
        None => {},
    }
    key
}

/// The action buffers, by the key their action was registered under
/// (see [`action_key`]). Each key has at most one buffer.
#[derive(Debug, Default)]
pub struct HsmActionSystemBuffers {
    buffers: Vec<(String, HsmActionSystemBuffer)>,
}

impl HsmActionSystemBuffers {
    /// The keys in use.
    pub closed spec fn keys(&self) -> Set<Seq<char>> {
        Set::new(|k: Seq<char>| exists|i: int| 0 <= i < self.buffers@.len() && #[trigger] self.buffers@[i].0@ == k)
    }

    /// The contents of the buffer registered under `k`, a key in use.
    pub closed spec fn buffer_at(&self, k: Seq<char>) -> BufferView {
        self.buffers@[choose|i: int| 0 <= i < self.buffers@.len() && #[trigger] self.buffers@[i].0@ == k].1@
    }

    pub closed spec fn wf(&self) -> bool {
        forall|i: int, j: int|
            0 <= i < self.buffers@.len() && 0 <= j < self.buffers@.len() && i != j
                ==> #[trigger] self.buffers@[i].0@ != #[trigger] self.buffers@[j].0@
    }

    pub fn new() -> (r: Self)
        ensures
            r.wf(),
            r.keys() == Set::<Seq<char>>::empty(),
    {
        let r = Self { buffers: Vec::new() };
        proof {
            assert(r.keys() =~= Set::<Seq<char>>::empty());
        }
        r
    }

    fn find(&self, name: &str) -> (r: Option<usize>)
        requires
            self.wf(),
        ensures
            r matches Some(i) ==> i < self.buffers@.len() && self.buffers@[i as int].0@ == name@
                && self.keys().contains(name@) && self.buffer_at(name@) == self.buffers@[i as int].1@,
            r is None ==> !self.keys().contains(name@),
    {
        let key = String::from_str(name);
        let n = self.buffers.len();
        let mut i: usize = 0;
        while i < n
            invariant
                self.wf(),
                n == self.buffers@.len(),
                i <= n,
                key@ == name@,
                forall|j: int| 0 <= j < i ==> self.buffers@[j].0@ != name@,
            decreases n - i,
        {
            if self.buffers[i].0 == key {
                proof {
                    assert(self.buffers@[i as int].0@ == name@);
                    assert(self.keys().contains(name@));
                    let c = choose|c: int| 0 <= c < self.buffers@.len() && #[trigger] self.buffers@[c].0@ == name@;
                    assert(c == i);
                }
                return Some(i);
            }
            i += 1;
        }
        None
    }

    /// Registers `buffer` under `name`, in place of any buffer there.
    pub fn insert_buffer(&mut self, name: &str, buffer: HsmActionSystemBuffer)
        requires
            old(self).wf(),
        ensures
            final(self).wf(),
            final(self).keys() == old(self).keys().insert(name@),
            final(self).buffer_at(name@) == buffer@,
            forall|k: Seq<char>| k != name@ && old(self).keys().contains(k) ==> #[trigger] final(self).buffer_at(k)
                == old(self).buffer_at(k),
    {
        let ghost bv = buffer@;
        match self.find(name) {
            Some(i) => {
                let key = String::from_str(name);
                self.buffers[i] = (key, buffer);
                proof {
                    let o = old(self).buffers@;
                    assert forall|j: int| 0 <= j < self.buffers@.len() implies #[trigger] self.buffers@[j].0@
                        == o[j].0@ by {}
                    Self::lemma_same_keys(&*old(self), &*self);
                    assert(old(self).keys().insert(name@) =~= old(self).keys());
                    assert(self.buffers@[i as int].0@ == name@);
                    let c = choose|c: int| 0 <= c < self.buffers@.len() && #[trigger] self.buffers@[c].0@ == name@;
                    assert(c == i);
                    assert forall|k: Seq<char>| k != name@ && old(self).keys().contains(k) implies #[trigger] self.buffer_at(k)
                        == old(self).buffer_at(k) by {
                        let c0 = choose|c: int| 0 <= c < o.len() && #[trigger] o[c].0@ == k;
                        assert(self.buffers@[c0].0@ == k);
                        let c1 = choose|c: int| 0 <= c < self.buffers@.len() && #[trigger] self.buffers@[c].0@ == k;
                        assert(o[c1].0@ == k);
                        assert(c1 == c0);
                    }
                }
            },
            None => {
                let key = String::from_str(name);
                self.buffers.push((key, buffer));
                proof {
                    let o = old(self).buffers@;
                    let n = o.len() as int;
                    assert(self.buffers@[n].0@ == name@);
                    assert forall|j: int| 0 <= j < n implies #[trigger] self.buffers@[j] == o[j] by {}
                    assert forall|j: int| 0 <= j < n implies o[j].0@ != name@ by {
                        assert(!old(self).keys().contains(name@));
                        if o[j].0@ == name@ {
                            assert(old(self).keys().contains(o[j].0@));
                        }
                    }
                    assert(self.keys() =~= old(self).keys().insert(name@)) by {
                        assert forall|k: Seq<char>| old(self).keys().contains(k) implies self.keys().contains(k) by {
                            let c = choose|c: int| 0 <= c < o.len() && #[trigger] o[c].0@ == k;
                            assert(self.buffers@[c].0@ == k);
                        }
                        assert forall|k: Seq<char>| self.keys().contains(k) implies old(self).keys().insert(name@).contains(k) by {
                            let c = choose|c: int| 0 <= c < self.buffers@.len() && #[trigger] self.buffers@[c].0@ == k;
                            if c < n {
                                assert(o[c].0@ == k);
                            }
                        }
                    }
                    assert forall|a: int, b: int|
                        0 <= a < self.buffers@.len() && 0 <= b < self.buffers@.len() && a != b
                            implies #[trigger] self.buffers@[a].0@ != #[trigger] self.buffers@[b].0@ by {
                        if a < n && b < n {
                            assert(self.buffers@[a] == o[a]);
                            assert(self.buffers@[b] == o[b]);
                        } else if a < n {
                            assert(self.buffers@[a] == o[a]);
                        } else if b < n {
                            assert(self.buffers@[b] == o[b]);
                        }
                    }
                    let c = choose|c: int| 0 <= c < self.buffers@.len() && #[trigger] self.buffers@[c].0@ == name@;
                    assert(c == n);
                    assert forall|k: Seq<char>| k != name@ && old(self).keys().contains(k) implies #[trigger] self.buffer_at(k)
                        == old(self).buffer_at(k) by {
                        let c0 = choose|c: int| 0 <= c < o.len() && #[trigger] o[c].0@ == k;
                        assert(self.buffers@[c0].0@ == k);
                        let c1 = choose|c: int| 0 <= c < self.buffers@.len() && #[trigger] self.buffers@[c].0@ == k;
                        assert(c1 == c0);
                    }
                }
            },
        }
    }

    proof fn lemma_same_keys(a: &Self, b: &Self)
        requires
            a.buffers@.len() == b.buffers@.len(),
            forall|j: int| 0 <= j < a.buffers@.len() ==> #[trigger] a.buffers@[j].0@ == b.buffers@[j].0@,
        ensures
            a.keys() == b.keys(),
    {
        assert forall|k: Seq<char>| a.keys().contains(k) implies b.keys().contains(k) by {
            let c = choose|c: int| 0 <= c < a.buffers@.len() && #[trigger] a.buffers@[c].0@ == k;
            assert(b.buffers@[c].0@ == k);
        }
        assert forall|k: Seq<char>| b.keys().contains(k) implies a.keys().contains(k) by {
            let c = choose|c: int| 0 <= c < b.buffers@.len() && #[trigger] b.buffers@[c].0@ == k;
            assert(a.buffers@[c].0@ == k);
        }
        assert(a.keys() =~= b.keys());
    }

    /// The buffer registered under `name`.
    pub fn get_buffer(&self, name: &str) -> (r: Option<&HsmActionSystemBuffer>)
        requires
            self.wf(),
        ensures
            !self.keys().contains(name@) ==> r is None,
            self.keys().contains(name@) ==> (r matches Some(b) && b@ == self.buffer_at(name@)),
    {
        match self.find(name) {
            Some(i) => Some(&self.buffers[i].1),
            None => None,
        }
    }
}

} // verus!
