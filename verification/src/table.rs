//! A keyed table: records found by a 128-bit key, kept as two parallel
//! vectors. Its view is the map from each key to the view of its record.

use vstd::prelude::*;

verus! {

/// The map that parallel sequences of keys and records stand for.
pub open spec fn table_map<V: View>(keys: Seq<u128>, vals: Seq<V>) -> Map<u128, V::V> {
    Map::new(|k: u128| keys.contains(k), |k: u128| vals[keys.index_of(k)]@)
}

/// With distinct keys, the key at position `i` is found at `i`.
pub proof fn lemma_table_lookup<V: View>(keys: Seq<u128>, vals: Seq<V>, i: int)
    requires
        keys.no_duplicates(),
        keys.len() == vals.len(),
        0 <= i < keys.len(),
    ensures
        keys.contains(keys[i]),
        keys.index_of(keys[i]) == i,
        table_map(keys, vals).contains_key(keys[i]),
        table_map(keys, vals)[keys[i]] == vals[i]@,
{
    assert(keys.contains(keys[i]));
    let j = keys.index_of(keys[i]);
    assert(0 <= j < keys.len() && keys[j] == keys[i]);
}

/// Appending a fresh key inserts it into the map.
pub proof fn lemma_table_push<V: View>(keys: Seq<u128>, vals: Seq<V>, k: u128, v: V)
    requires
        keys.no_duplicates(),
        keys.len() == vals.len(),
        !keys.contains(k),
    ensures
        keys.push(k).no_duplicates(),
        table_map(keys.push(k), vals.push(v)) == table_map(keys, vals).insert(k, v@),
{
    let keys2 = keys.push(k);
    let vals2 = vals.push(v);
    assert forall|i: int, j: int| 0 <= i < keys2.len() && 0 <= j < keys2.len() && i != j implies keys2[i]
        != keys2[j] by {
        if i < keys.len() && j < keys.len() {
        } else if i < keys.len() {
            assert(keys.contains(keys[i]));
        } else if j < keys.len() {
            assert(keys.contains(keys[j]));
        }
    }
    assert forall|a: u128| keys2.contains(a) <==> (keys.contains(a) || a == k) by {
        if keys.contains(a) {
            let j = choose|j: int| 0 <= j < keys.len() && keys[j] == a;
            assert(keys2[j] == a);
        }
        if a == k {
            assert(keys2[keys.len() as int] == a);
        }
    }
    assert forall|a: u128| keys2.contains(a) implies #[trigger] table_map(keys2, vals2)[a]
        == table_map(keys, vals).insert(k, v@)[a] by {
        let j = keys2.index_of(a);
        if a == k {
            lemma_table_lookup(keys2, vals2, keys.len() as int);
        } else {
            let i = keys.index_of(a);
            lemma_table_lookup(keys2, vals2, i);
        }
    }
    assert(table_map(keys2, vals2) =~= table_map(keys, vals).insert(k, v@));
}

/// Replacing the record at position `i` overwrites its key in the map.
pub proof fn lemma_table_update<V: View>(keys: Seq<u128>, vals: Seq<V>, i: int, v: V)
    requires
        keys.no_duplicates(),
        keys.len() == vals.len(),
        0 <= i < keys.len(),
    ensures
        table_map(keys, vals.update(i, v)) == table_map(keys, vals).insert(keys[i], v@),
{
    let vals2 = vals.update(i, v);
    lemma_table_lookup(keys, vals, i);
    assert forall|a: u128| keys.contains(a) implies #[trigger] table_map(keys, vals2)[a]
        == table_map(keys, vals).insert(keys[i], v@)[a] by {
        let j = keys.index_of(a);
        lemma_table_lookup(keys, vals, j);
    }
    assert(table_map(keys, vals2) =~= table_map(keys, vals).insert(keys[i], v@));
}

/// Taking position `i` out removes its key from the map.
pub proof fn lemma_table_remove<V: View>(keys: Seq<u128>, vals: Seq<V>, i: int)
    requires
        keys.no_duplicates(),
        keys.len() == vals.len(),
        0 <= i < keys.len(),
    ensures
        keys.remove(i).no_duplicates(),
        table_map(keys.remove(i), vals.remove(i)) == table_map(keys, vals).remove(keys[i]),
{
    let keys2 = keys.remove(i);
    let vals2 = vals.remove(i);
    assert(keys2.no_duplicates());
    assert forall|a: u128| keys2.contains(a) <==> (keys.contains(a) && a != keys[i]) by {
        if keys2.contains(a) {
            let j = choose|j: int| 0 <= j < keys2.len() && keys2[j] == a;
            if j < i {
                assert(keys[j] == a);
            } else {
                assert(keys[j + 1] == a);
            }
        }
        if keys.contains(a) && a != keys[i] {
            let j = choose|j: int| 0 <= j < keys.len() && keys[j] == a;
            if j < i {
                assert(keys2[j] == a);
            } else {
                assert(keys2[j - 1] == a);
            }
        }
    }
    assert forall|a: u128| keys2.contains(a) implies #[trigger] table_map(keys2, vals2)[a]
        == table_map(keys, vals).remove(keys[i])[a] by {
        let j = keys2.index_of(a);
        lemma_table_lookup(keys2, vals2, j);
        if j < i {
            lemma_table_lookup(keys, vals, j);
        } else {
            lemma_table_lookup(keys, vals, j + 1);
        }
    }
    assert(table_map(keys2, vals2) =~= table_map(keys, vals).remove(keys[i]));
}

/// Tables with the same keys and records of equal views stand for one map.
pub proof fn lemma_table_views_agree<V: View>(keys: Seq<u128>, a: Seq<V>, b: Seq<V>)
    requires
        keys.len() == a.len(),
        a.len() == b.len(),
        forall|i: int| 0 <= i < a.len() ==> (#[trigger] a[i])@ == b[i]@,
    ensures
        table_map(keys, a) == table_map(keys, b),
{
    assert forall|k: u128| keys.contains(k) implies #[trigger] table_map(keys, a)[k] == table_map(
        keys,
        b,
    )[k] by {
        let j = keys.index_of(k);
        assert(a[j]@ == b[j]@);
    }
    assert(table_map(keys, a) =~= table_map(keys, b));
}

/// The keys of a table are as many as its rows.
pub proof fn lemma_table_dom<V: View>(keys: Seq<u128>, vals: Seq<V>)
    requires
        keys.no_duplicates(),
    ensures
        table_map(keys, vals).dom() == keys.to_set(),
        table_map(keys, vals).dom().finite(),
        table_map(keys, vals).dom().len() == keys.len(),
{
    assert(table_map(keys, vals).dom() =~= keys.to_set());
    keys.unique_seq_to_set();
    vstd::seq_lib::seq_to_set_is_finite(keys);
}

/// Records found by key.
pub struct Table<V> {
    pub keys: Vec<u128>,
    pub vals: Vec<V>,
}

impl<V: View> View for Table<V> {
    type V = Map<u128, V::V>;

    open spec fn view(&self) -> Map<u128, V::V> {
        table_map(self.keys@, self.vals@)
    }
}

impl<V: View> Table<V> {
    /// One record per key, and no key twice.
    pub open spec fn wf(&self) -> bool {
        &&& self.keys@.len() == self.vals@.len()
        &&& self.keys@.no_duplicates()
    }

    pub fn new() -> (t: Table<V>)
        ensures
            t.wf(),
            t@ == Map::<u128, V::V>::empty(),
            t.keys@.len() == 0,
    {
        let t = Table { keys: Vec::new(), vals: Vec::new() };
        assert(t@ =~= Map::<u128, V::V>::empty());
        t
    }

    pub fn len(&self) -> (n: usize)
        requires
            self.wf(),
        ensures
            n == self.keys@.len(),
            n == self.vals@.len(),
    {
        self.keys.len()
    }

    /// The position of `key`, if the table holds it.
    pub fn find(&self, key: u128) -> (r: Option<usize>)
        requires
            self.wf(),
        ensures
            match r {
                Some(i) => {
                    &&& i < self.keys@.len()
                    &&& self.keys@[i as int] == key
                    &&& self@.contains_key(key)
                    &&& self@[key] == self.vals@[i as int]@
                },
                None => !self@.contains_key(key) && !self.keys@.contains(key),
            },
    {
        let mut i: usize = 0;
        while i < self.keys.len()
            invariant
                self.wf(),
                i <= self.keys@.len(),
                forall|j: int| 0 <= j < i ==> self.keys@[j] != key,
            decreases self.keys@.len() - i,
        {
            if self.keys[i] == key {
                proof {
                    lemma_table_lookup(self.keys@, self.vals@, i as int);
                }
                return Some(i);
            }
            i += 1;
        }
        None
    }

    pub fn contains_key(&self, key: u128) -> (b: bool)
        requires
            self.wf(),
        ensures
            b == self@.contains_key(key),
    {
        self.find(key).is_some()
    }

    /// The record under `key`.
    pub fn get(&self, key: u128) -> (r: Option<&V>)
        requires
            self.wf(),
        ensures
            match r {
                Some(v) => self@.contains_key(key) && self@[key] == v@ && self.vals@.contains(*v),
                None => !self@.contains_key(key),
            },
    {
        match self.find(key) {
            Some(i) => {
                assert(self.vals@[i as int] == self.vals@[i as int]);
                Some(&self.vals[i])
            },
            None => None,
        }
    }

    /// Adds a record under a key that the table does not hold yet.
    pub fn insert_new(&mut self, key: u128, value: V)
        requires
            old(self).wf(),
            !old(self)@.contains_key(key),
        ensures
            final(self).wf(),
            final(self)@ == old(self)@.insert(key, value@),
            final(self).keys@ == old(self).keys@.push(key),
            final(self).vals@ == old(self).vals@.push(value),
    {
        proof {
            lemma_table_push(self.keys@, self.vals@, key, value);
        }
        self.keys.push(key);
        self.vals.push(value);
    }

    /// Puts a record under `key`, in place of the one that was there, if any.
    pub fn insert(&mut self, key: u128, value: V)
        requires
            old(self).wf(),
        ensures
            final(self).wf(),
            final(self)@ == old(self)@.insert(key, value@),
            final(self).keys@.len() >= old(self).keys@.len(),
            forall|j: int|
                0 <= j < old(self).keys@.len() ==> final(self).keys@[j] == old(self).keys@[j],
            forall|j: int|
                old(self).keys@.len() <= j < final(self).keys@.len() ==> final(self).keys@[j] == key,
            forall|j: int|
                0 <= j < old(self).keys@.len() && old(self).keys@[j] != key ==> final(self).vals@[j]
                    == old(self).vals@[j],
            forall|j: int|
                0 <= j < final(self).keys@.len() && final(self).keys@[j] == key
                    ==> final(self).vals@[j] == value,
    {
        match self.find(key) {
            Some(i) => {
                proof {
                    lemma_table_update(self.keys@, self.vals@, i as int, value);
                }
                self.vals[i] = value;
            },
            None => {
                self.insert_new(key, value);
            },
        }
    }

    /// Takes out the record at position `i`.
    pub fn remove_at(&mut self, i: usize) -> (value: V)
        requires
            old(self).wf(),
            i < old(self).keys@.len(),
        ensures
            final(self).wf(),
            value == old(self).vals@[i as int],
            final(self)@ == old(self)@.remove(old(self).keys@[i as int]),
            final(self).keys@ == old(self).keys@.remove(i as int),
            final(self).vals@ == old(self).vals@.remove(i as int),
    {
        proof {
            lemma_table_remove(self.keys@, self.vals@, i as int);
        }
        self.keys.remove(i);
        self.vals.remove(i)
    }
}

} // verus!
