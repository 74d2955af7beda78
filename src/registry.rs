use vstd::prelude::*;

verus! {

/// The handle of a registered callback.
pub type Handle = u64;

/// Handles registered under names: guard callbacks, enter and exit
/// callbacks. Each name has at most one handle.
pub struct NamedHandles {
    entries: Vec<(String, Handle)>,
    map: Ghost<Map<Seq<char>, Handle>>,
}

impl NamedHandles {
    /// The handle registered under each name.
    pub closed spec fn view(&self) -> Map<Seq<char>, Handle> {
        self.map@
    }

    pub closed spec fn wf(&self) -> bool {
        &&& forall|i: int|
            0 <= i < self.entries@.len() ==> #[trigger] self.map@.contains_key(
                self.entries@[i].0@,
            ) && self.map@[self.entries@[i].0@] == self.entries@[i].1
        &&& forall|k: Seq<char>|
            #[trigger] self.map@.contains_key(k) ==> exists|i: int|
                0 <= i < self.entries@.len() && #[trigger] self.entries@[i].0@ == k
        &&& forall|i: int, j: int|
            0 <= i < self.entries@.len() && 0 <= j < self.entries@.len() && i != j
                ==> #[trigger] self.entries@[i].0@ != #[trigger] self.entries@[j].0@
    }

    pub fn new() -> (r: Self)
        ensures
            r.wf(),
            r@ == Map::<Seq<char>, Handle>::empty(),
    {
        Self { entries: Vec::new(), map: Ghost(Map::empty()) }
    }

    fn find(&self, key: &String) -> (r: Option<usize>)
        requires
            self.wf(),
        ensures
            r matches Some(i) ==> i < self.entries@.len() && self.entries@[i as int].0@ == key@,
            r is None ==> !self@.contains_key(key@),
    {
        let n = self.entries.len();
        let mut i: usize = 0;
        while i < n
            invariant
                n == self.entries@.len(),
                i <= n,
                forall|j: int| 0 <= j < i ==> self.entries@[j].0@ != key@,
            decreases n - i,
        {
            if self.entries[i].0 == *key {
                return Some(i);
            }
            i += 1;
        }
        proof {
            if self@.contains_key(key@) {
                let i = choose|i: int| 0 <= i < self.entries@.len() && self.entries@[i].0@ == key@;
                assert(self.entries@[i].0@ == key@);
            }
        }
        None
    }

    /// The handle registered under `name`.
    pub fn get(&self, name: &str) -> (r: Option<Handle>)
        requires
            self.wf(),
        ensures
            r == (if self@.contains_key(name@) {
                Some(self@[name@])
            } else {
                None
            }),
    {
        let key = String::from_str(name);
        match self.find(&key) {
            Some(i) => {
                proof {
                    assert(self.map@.contains_key(self.entries@[i as int].0@));
                }
                Some(self.entries[i].1)
            },
            None => None,
        }
    }

    /// Registers `handle` under `name`, returning the handle it replaces.
    pub fn insert(&mut self, name: &str, handle: Handle) -> (r: Option<
        Handle,
    >)
        requires
            old(self).wf(),
        ensures
            final(self).wf(),
            final(self)@ == old(self)@.insert(name@, handle),
            r == (if old(self)@.contains_key(name@) {
                Some(old(self)@[name@])
            } else {
                None
            }),
    {
        let key = String::from_str(name);
        match self.find(&key) {
            Some(i) => {
                proof {
                    assert(self.map@.contains_key(self.entries@[i as int].0@));
                }
                let prev = self.entries[i].1;
                self.entries[i] = (key, handle);
                self.map = Ghost(self.map@.insert(name@, handle));
                proof {
                    assert forall|k: Seq<char>| #[trigger] self.map@.contains_key(k) implies exists|
                        j: int,
                    |
                        0 <= j < self.entries@.len() && #[trigger] self.entries@[j].0@ == k by {
                        if k == name@ {
                            assert(self.entries@[i as int].0@ == k);
                        } else {
                            let j = choose|j: int|
                                0 <= j < old(self).entries@.len() && old(self).entries@[j].0@ == k;
                            assert(self.entries@[j].0@ == k);
                        }
                    }
                    assert forall|j: int| 0 <= j < self.entries@.len() implies #[trigger] self.entries@[j].0@
                        == old(self).entries@[j].0@ by {}
                    assert forall|j: int| 0 <= j < self.entries@.len() implies #[trigger] self.map@.contains_key(
                        self.entries@[j].0@,
                    ) && self.map@[self.entries@[j].0@] == self.entries@[j].1 by {
                        if j != i {
                            assert(old(self).entries@[j].0@ != name@);
                            assert(old(self).map@.contains_key(old(self).entries@[j].0@));
                        }
                    }
                }
                Some(prev)
            },
            None => {
                self.entries.push((key, handle));
                self.map = Ghost(self.map@.insert(name@, handle));
                proof {
                    let n = old(self).entries@.len() as int;
                    assert(self.entries@[n].0@ == name@);
                    assert forall|k: Seq<char>| #[trigger] self.map@.contains_key(k) implies exists|
                        j: int,
                    |
                        0 <= j < self.entries@.len() && #[trigger] self.entries@[j].0@ == k by {
                        if k == name@ {
                            assert(self.entries@[n].0@ == k);
                        } else {
                            let j = choose|j: int|
                                0 <= j < old(self).entries@.len() && old(self).entries@[j].0@ == k;
                            assert(self.entries@[j].0@ == k);
                        }
                    }
                    assert forall|i: int| 0 <= i < n implies self.entries@[i].0@ != name@ by {
                        assert(old(self).map@.contains_key(old(self).entries@[i].0@));
                    }
                }
                None
            },
        }
    }

    /// Removes the handle registered under `name` and returns it.
    pub fn remove(&mut self, name: &str) -> (r: Option<Handle>)
        requires
            old(self).wf(),
        ensures
            final(self).wf(),
            final(self)@ == old(self)@.remove(name@),
            r == (if old(self)@.contains_key(name@) {
                Some(old(self)@[name@])
            } else {
                None
            }),
    {
        let key = String::from_str(name);
        match self.find(&key) {
            Some(i) => {
                proof {
                    assert(self.map@.contains_key(self.entries@[i as int].0@));
                }
                let (_, prev) = self.entries.remove(i);
                self.map = Ghost(self.map@.remove(name@));
                proof {
                    let oe = old(self).entries@;
                    assert forall|j: int| 0 <= j < self.entries@.len() implies #[trigger] self.map@.contains_key(
                        self.entries@[j].0@,
                    ) && self.map@[self.entries@[j].0@] == self.entries@[j].1 by {
                        let oj = if j < i { j } else { j + 1 };
                        assert(self.entries@[j] == oe[oj]);
                        assert(oe[oj].0@ != oe[i as int].0@);
                        assert(old(self).map@.contains_key(oe[oj].0@));
                    }
                    assert forall|k: Seq<char>| #[trigger] self.map@.contains_key(k) implies exists|
                        j: int,
                    |
                        0 <= j < self.entries@.len() && #[trigger] self.entries@[j].0@ == k by {
                        let oj = choose|j: int| 0 <= j < oe.len() && oe[j].0@ == k;
                        assert(oe[oj].0@ == k);
                        assert(oj != i);
                        let j = if oj < i { oj } else { oj - 1 };
                        assert(self.entries@[j] == oe[oj]);
                    }
                    assert forall|a: int, b: int|
                        0 <= a < self.entries@.len() && 0 <= b < self.entries@.len() && a != b
                            implies #[trigger] self.entries@[a].0@ != #[trigger] self.entries@[b].0@ by {
                        let oa = if a < i { a } else { a + 1 };
                        let ob = if b < i { b } else { b + 1 };
                        assert(self.entries@[a] == oe[oa]);
                        assert(self.entries@[b] == oe[ob]);
                    }
                }
                Some(prev)
            },
            None => {
                proof {
                    assert(self.map@.remove(name@) =~= self.map@);
                }
                None
            },
        }
    }

    /// The number of registered names.
    pub fn len(&self) -> (r: usize)
        requires
            self.wf(),
        ensures
            r == self@.dom().len(),
    {
        proof {
            let keys = self.entries@.map_values(|e: (String, Handle)| e.0@);
            assert forall|i: int, j: int| 0 <= i < keys.len() && 0 <= j < keys.len() && i != j
                implies keys[i] != keys[j] by {
                assert(self.entries@[i].0@ != self.entries@[j].0@);
            }
            assert(keys.no_duplicates());
            keys.unique_seq_to_set();
            assert forall|k: Seq<char>| #[trigger] self.map@.dom().contains(k) <==> keys.to_set().contains(k) by {
                if self.map@.contains_key(k) {
                    let i = choose|i: int| 0 <= i < self.entries@.len() && self.entries@[i].0@ == k;
                    assert(keys[i] == k);
                }
                if keys.to_set().contains(k) {
                    let i = choose|i: int| 0 <= i < keys.len() && keys[i] == k;
                    assert(self.map@.contains_key(self.entries@[i].0@));
                }
            }
            assert(self.map@.dom() =~= keys.to_set());
        }
        self.entries.len()
    }

    pub fn is_empty(&self) -> (r: bool)
        requires
            self.wf(),
        ensures
            r == (self@ == Map::<Seq<char>, Handle>::empty()),
    {
        proof {
            if self.entries@.len() > 0 {
                assert(self.map@.contains_key(self.entries@[0].0@));
            } else {
                assert(self.map@ =~= Map::<Seq<char>, Handle>::empty());
            }
        }
        self.entries.len() == 0
    }
}

impl Default for NamedHandles {
    fn default() -> (r: Self)
        ensures
            r.wf(),
            r@ == Map::<Seq<char>, Handle>::empty(),
    {
        Self::new()
    }
}

} // verus!
