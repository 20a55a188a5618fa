//! A small set of 128-bit identifiers, kept as a vector without repeats.

use vstd::prelude::*;

verus! {

/// A copy of `ids`.
pub fn copy_ids(ids: &Vec<u128>) -> (v: Vec<u128>)
    ensures
        v@ == ids@,
{
    let mut v: Vec<u128> = Vec::new();
    let mut i: usize = 0;
    while i < ids.len()
        invariant
            i <= ids@.len(),
            v@ == ids@.take(i as int),
        decreases ids@.len() - i,
    {
        v.push(ids[i]);
        assert(ids@.take(i as int).push(ids@[i as int]) =~= ids@.take(i + 1));
        i += 1;
    }
    assert(ids@.take(i as int) =~= ids@);
    v
}

/// A finite set of identifiers.
#[derive(Debug)]
pub struct IdSet {
    pub items: Vec<u128>,
}

impl View for IdSet {
    type V = Set<u128>;

    open spec fn view(&self) -> Set<u128> {
        self.items@.to_set()
    }
}

impl IdSet {
    /// No identifier is stored twice.
    pub open spec fn wf(&self) -> bool {
        self.items@.no_duplicates()
    }

    pub fn new() -> (s: IdSet)
        ensures
            s.wf(),
            s@ == Set::<u128>::empty(),
    {
        let s = IdSet { items: Vec::new() };
        assert(s.items@.to_set() =~= Set::<u128>::empty());
        s
    }

    pub fn len(&self) -> (n: usize)
        ensures
            n == self.items@.len(),
    {
        self.items.len()
    }

    /// The position of `id`, if it is a member.
    pub fn position(&self, id: u128) -> (r: Option<usize>)
        ensures
            match r {
                Some(i) => i < self.items@.len() && self.items@[i as int] == id && self@.contains(id),
                None => !self@.contains(id),
            },
    {
        let mut i: usize = 0;
        while i < self.items.len()
            invariant
                i <= self.items@.len(),
                forall|j: int| 0 <= j < i ==> self.items@[j] != id,
            decreases self.items@.len() - i,
        {
            if self.items[i] == id {
                return Some(i);
            }
            i += 1;
        }
        None
    }

    pub fn contains(&self, id: u128) -> (b: bool)
        ensures
            b == self@.contains(id),
    {
        self.position(id).is_some()
    }

    /// Adds `id`; returns whether the set changed.
    pub fn insert(&mut self, id: u128) -> (added: bool)
        requires
            old(self).wf(),
        ensures
            final(self).wf(),
            final(self)@ == old(self)@.insert(id),
            added == !old(self)@.contains(id),
    {
        if self.contains(id) {
            assert(self@.insert(id) =~= self@);
            false
        } else {
            let ghost before = self.items@;
            self.items.push(id);
            proof {
                assert(self.items@ == before.push(id));
                assert forall|a: u128| self.items@.contains(a) <==> (before.contains(a) || a == id) by {
                    if before.contains(a) {
                        let j = choose|j: int| 0 <= j < before.len() && before[j] == a;
                        assert(self.items@[j] == a);
                    }
                    if a == id {
                        assert(self.items@[before.len() as int] == a);
                    }
                }
                assert(self.items@.to_set() =~= before.to_set().insert(id));
            }
            true
        }
    }

    /// Takes `id` out; returns whether the set changed.
    pub fn remove(&mut self, id: u128) -> (removed: bool)
        requires
            old(self).wf(),
        ensures
            final(self).wf(),
            final(self)@ == old(self)@.remove(id),
            removed == old(self)@.contains(id),
    {
        match self.position(id) {
            None => {
                assert(self@.remove(id) =~= self@);
                false
            },
            Some(i) => {
                let ghost before = self.items@;
                self.items.remove(i);
                proof {
                    assert(self.items@ == before.remove(i as int));
                    assert forall|a: u128| self.items@.contains(a) <==> (before.contains(a) && a != id) by {
                        if self.items@.contains(a) {
                            let j = choose|j: int| 0 <= j < self.items@.len() && self.items@[j] == a;
                            if j < i {
                                assert(before[j] == a);
                            } else {
                                assert(before[j + 1] == a);
                            }
                        }
                        if before.contains(a) && a != id {
                            let j = choose|j: int| 0 <= j < before.len() && before[j] == a;
                            if j < i {
                                assert(self.items@[j] == a);
                            } else {
                                assert(self.items@[j - 1] == a);
                            }
                        }
                    }
                    assert(self.items@.to_set() =~= before.to_set().remove(id));
                }
                true
            },
        }
    }

    /// The members, each once.
    pub fn to_vec(&self) -> (v: Vec<u128>)
        ensures
            v@ == self.items@,
    {
        copy_ids(&self.items)
    }
}

impl Clone for IdSet {
    fn clone(&self) -> (r: IdSet)
        ensures
            r.items@ == self.items@,
    {
        IdSet { items: self.to_vec() }
    }
}

} // verus!
