//! A map keyed by strings, kept as two parallel vectors so that the order in
//! which keys were first inserted is part of its model.

use vstd::prelude::*;
use crate::text::str_eq;

verus! {

/// The position of the first pair whose key is `k`, or -1 when there is none.
pub open spec fn index_of_key<V>(e: Seq<(Seq<char>, V)>, k: Seq<char>) -> int
    decreases e.len(),
{
    if e.len() == 0 {
        -1
    } else if e[0].0 == k {
        0
    } else {
        let r = index_of_key(e.drop_first(), k);
        if r < 0 {
            -1
        } else {
            r + 1
        }
    }
}

/// The value of the first pair whose key is `k`.
pub open spec fn lookup<V>(e: Seq<(Seq<char>, V)>, k: Seq<char>) -> Option<V> {
    let i = index_of_key(e, k);
    if i >= 0 {
        Some(e[i].1)
    } else {
        None
    }
}

/// `HashMap::insert` on the model: the value of an existing key is
/// replaced in place, a new key is added at the end.
pub open spec fn insert_entry<V>(e: Seq<(Seq<char>, V)>, k: Seq<char>, v: V) -> Seq<
    (Seq<char>, V),
> {
    let i = index_of_key(e, k);
    if i >= 0 {
        e.update(i, (k, v))
    } else {
        e.push((k, v))
    }
}

/// No key occurs twice.
pub open spec fn keys_distinct<V>(e: Seq<(Seq<char>, V)>) -> bool {
    forall|i: int, j: int| 0 <= i < j < e.len() ==> e[i].0 != e[j].0
}

/// `index_of_key` finds the first pair with the key, and -1 exactly when no
/// pair has it.
pub proof fn lemma_index_of_key<V>(e: Seq<(Seq<char>, V)>, k: Seq<char>)
    ensures
        -1 <= index_of_key(e, k) < e.len(),
        index_of_key(e, k) >= 0 ==> e[index_of_key(e, k)].0 == k,
        forall|j: int| 0 <= j < index_of_key(e, k) ==> e[j].0 != k,
        index_of_key(e, k) == -1 <==> forall|j: int| 0 <= j < e.len() ==> e[j].0 != k,
    decreases e.len(),
{
    if e.len() > 0 && e[0].0 != k {
        let t = e.drop_first();
        lemma_index_of_key(t, k);
        assert forall|j: int| 0 < j < e.len() implies e[j].0 == t[j - 1].0 by {}
    }
}

/// After an insertion the key has the inserted value.
pub proof fn lemma_insert_lookup_same<V>(e: Seq<(Seq<char>, V)>, k: Seq<char>, v: V)
    ensures
        lookup(insert_entry(e, k, v), k) == Some(v),
{
    let e2 = insert_entry(e, k, v);
    lemma_index_of_key(e, k);
    lemma_index_of_key(e2, k);
    let i = index_of_key(e, k);
    if i >= 0 {
        assert(e2[i].0 == k);
        assert(index_of_key(e2, k) == i);
    } else {
        assert(e2[e.len() as int].0 == k);
        assert(index_of_key(e2, k) == e.len());
    }
}

/// An insertion leaves the values of the other keys as they were.
pub proof fn lemma_insert_lookup_other<V>(e: Seq<(Seq<char>, V)>, k: Seq<char>, v: V, k2: Seq<char>)
    requires
        k2 != k,
    ensures
        lookup(insert_entry(e, k, v), k2) == lookup(e, k2),
{
    let e2 = insert_entry(e, k, v);
    lemma_index_of_key(e, k);
    lemma_index_of_key(e, k2);
    lemma_index_of_key(e2, k2);
    let i2 = index_of_key(e, k2);
    if i2 >= 0 {
        assert(e2[i2].0 == k2);
        assert forall|j: int| 0 <= j < i2 implies e2[j].0 != k2 by {}
        assert(index_of_key(e2, k2) == i2) by {
            let r = index_of_key(e2, k2);
            if r < i2 {
                assert(r >= 0 ==> e2[r].0 == k2);
            }
        }
    } else {
        assert forall|j: int| 0 <= j < e2.len() implies e2[j].0 != k2 by {
            if j < e.len() {
            }
        }
    }
}

/// An insertion keeps the keys distinct.
pub proof fn lemma_insert_keeps_distinct<V>(e: Seq<(Seq<char>, V)>, k: Seq<char>, v: V)
    requires
        keys_distinct(e),
    ensures
        keys_distinct(insert_entry(e, k, v)),
{
    lemma_index_of_key(e, k);
}

/// The entries with each value replaced by its image under `f`.
pub open spec fn map_entry_values<V, W>(e: Seq<(Seq<char>, V)>, f: spec_fn(V) -> W) -> Seq<
    (Seq<char>, W),
> {
    Seq::new(e.len(), |i: int| (e[i].0, f(e[i].1)))
}

/// Mapping the values does not move any key.
pub proof fn lemma_index_of_key_map<V, W>(e: Seq<(Seq<char>, V)>, f: spec_fn(V) -> W, k: Seq<char>)
    ensures
        index_of_key(map_entry_values(e, f), k) == index_of_key(e, k),
    decreases e.len(),
{
    if e.len() > 0 {
        assert(map_entry_values(e, f).drop_first() =~= map_entry_values(e.drop_first(), f));
        lemma_index_of_key_map(e.drop_first(), f, k);
    }
}

/// Inserting and then mapping the values is mapping and then inserting the
/// image of the value.
pub proof fn lemma_insert_map_values<V, W>(
    e: Seq<(Seq<char>, V)>,
    k: Seq<char>,
    v: V,
    f: spec_fn(V) -> W,
)
    ensures
        map_entry_values(insert_entry(e, k, v), f) == insert_entry(map_entry_values(e, f), k, f(v)),
{
    lemma_index_of_key_map(e, f, k);
    lemma_index_of_key(e, k);
    let i = index_of_key(e, k);
    let m = map_entry_values(e, f);
    if i >= 0 {
        assert(map_entry_values(e.update(i, (k, v)), f) =~= m.update(i, (k, f(v))));
    } else {
        assert(map_entry_values(e.push((k, v)), f) =~= m.push((k, f(v))));
    }
    assert(map_entry_values(insert_entry(e, k, v), f) =~= insert_entry(
        map_entry_values(e, f),
        k,
        f(v),
    ));
}

/// Mapping the values keeps the keys distinct.
pub proof fn lemma_map_values_distinct<V, W>(e: Seq<(Seq<char>, V)>, f: spec_fn(V) -> W)
    requires
        keys_distinct(e),
    ensures
        keys_distinct(map_entry_values(e, f)),
{
}

/// A map from strings to values. Its keys are distinct; its entries keep the
/// order in which their keys were first inserted.
pub struct StringMap<V> {
    keys: Vec<String>,
    values: Vec<V>,
}

impl<V> StringMap<V> {
    /// The entries, in order: each key with its value.
    pub closed spec fn entries(&self) -> Seq<(Seq<char>, V)> {
        Seq::new(self.keys@.len(), |i: int| (self.keys@[i]@, self.values@[i]))
    }

    #[verifier::type_invariant]
    closed spec fn well_formed(&self) -> bool {
        &&& self.keys@.len() == self.values@.len()
        &&& keys_distinct(self.entries())
    }

    /// An empty map.
    pub fn new() -> (r: Self)
        ensures
            r.entries() == Seq::<(Seq<char>, V)>::empty(),
    {
        let r = StringMap { keys: Vec::new(), values: Vec::new() };
        assert(r.entries() =~= Seq::<(Seq<char>, V)>::empty());
        r
    }

    /// The number of entries.
    pub fn len(&self) -> (r: usize)
        ensures
            r == self.entries().len(),
            keys_distinct(self.entries()),
    {
        proof {
            use_type_invariant(self);
        }
        self.keys.len()
    }

    /// The position of a key.
    fn position(&self, key: &str) -> (r: Option<usize>)
        ensures
            r matches Some(i) ==> index_of_key(self.entries(), key@) == i && i < self.entries().len(),
            r is None ==> index_of_key(self.entries(), key@) == -1,
    {
        proof {
            use_type_invariant(self);
            lemma_index_of_key(self.entries(), key@);
        }
        let mut i: usize = 0;
        while i < self.keys.len()
            invariant
                i <= self.keys@.len(),
                self.keys@.len() == self.values@.len(),
                forall|j: int| 0 <= j < i ==> self.entries()[j].0 != key@,
            decreases self.keys@.len() - i,
        {
            if str_eq(self.keys[i].as_str(), key) {
                proof {
                    let e = self.entries();
                    lemma_index_of_key(e, key@);
                    assert(e[i as int].0 == key@);
                    let r = index_of_key(e, key@);
                    if r < 0 {
                        assert(e[i as int].0 != key@);
                    } else if r < i {
                        assert(e[r].0 == key@);
                    } else if r > i {
                        assert(e[i as int].0 != key@);
                    }
                }
                return Some(i);
            }
            i = i + 1;
        }
        None
    }

    /// The value of a key.
    pub fn get(&self, key: &str) -> (r: Option<&V>)
        ensures
            r matches Some(v) ==> lookup(self.entries(), key@) == Some(*v),
            r is None ==> lookup(self.entries(), key@) is None,
            keys_distinct(self.entries()),
    {
        proof {
            use_type_invariant(self);
        }
        match self.position(key) {
            Some(i) => Some(&self.values[i]),
            None => None,
        }
    }

    /// The entry at a position.
    pub fn entry_at(&self, i: usize) -> (r: (&String, &V))
        requires
            i < self.entries().len(),
        ensures
            keys_distinct(self.entries()),
            r.0@ == self.entries()[i as int].0,
            *r.1 == self.entries()[i as int].1,
    {
        proof {
            use_type_invariant(self);
        }
        (&self.keys[i], &self.values[i])
    }

    /// Inserts a key with its value, replacing the value of an existing key.
    pub fn insert(&mut self, key: String, value: V)
        ensures
            final(self).entries() == insert_entry(old(self).entries(), key@, value),
            keys_distinct(final(self).entries()),
    {
        proof {
            use_type_invariant(&*self);
            lemma_index_of_key(self.entries(), key@);
        }
        let pos = self.position(key.as_str());
        let mut taken = StringMap::new();
        std::mem::swap(&mut taken, self);
        let ghost before = taken.entries();
        proof {
            use_type_invariant(&taken);
        }
        let StringMap { mut keys, mut values } = taken;
        match pos {
            Some(i) => {
                values.set(i, value);
            },
            None => {
                keys.push(key);
                values.push(value);
            },
        }
        proof {
            let e = Seq::new(keys@.len(), |i: int| (keys@[i]@, values@[i]));
            assert(e =~= insert_entry(before, key@, value));
            lemma_insert_keeps_distinct(before, key@, value);
        }
        let updated = StringMap { keys, values };
        assert(updated.entries() =~= insert_entry(before, key@, value));
        *self = updated;
    }

    /// The values, in the order of the entries.
    pub fn into_values(self) -> (r: Vec<V>)
        ensures
            r@ == self.entries().map_values(|p: (Seq<char>, V)| p.1),
    {
        proof {
            use_type_invariant(&self);
        }
        let StringMap { keys, values } = self;
        assert(values@ =~= self.entries().map_values(|p: (Seq<char>, V)| p.1));
        values
    }
}

} // verus!
