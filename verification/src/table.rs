use vstd::prelude::*;

verus! {

/// Whether no key occurs twice among `entries`.
pub open spec fn distinct_keys<V>(entries: Seq<(u128, V)>) -> bool {
    forall|i: int, j: int|
        0 <= i < entries.len() && 0 <= j < entries.len() && i != j ==> (#[trigger] entries[i]).0
            != (#[trigger] entries[j]).0
}

/// Whether some entry of `entries` has the key `key`.
pub open spec fn has_key<V>(entries: Seq<(u128, V)>, key: u128) -> bool {
    exists|i: int| 0 <= i < entries.len() && (#[trigger] entries[i]).0 == key
}

/// The keys of `entries`.
pub open spec fn key_set<V>(entries: Seq<(u128, V)>) -> Set<u128> {
    Set::new(|key: u128| has_key(entries, key))
}

/// The index of the first entry with the key `key`, or the length of
/// `entries` if there is none.
pub open spec fn index_of<V>(entries: Seq<(u128, V)>, key: u128) -> int
    decreases entries.len(),
{
    if entries.len() == 0 {
        0
    } else if entries[0].0 == key {
        0
    } else {
        1 + index_of(entries.drop_first(), key)
    }
}

/// `entries` with `value` stored under `key`: in the place of the entry that
/// had the key, or at the end if none had it.
pub open spec fn with_entry<V>(entries: Seq<(u128, V)>, key: u128, value: V) -> Seq<(u128, V)> {
    let i = index_of(entries, key);
    if i < entries.len() {
        entries.update(i, (key, value))
    } else {
        entries.push((key, value))
    }
}

/// `entries` without the first entry that has the key `key`.
pub open spec fn without_key<V>(entries: Seq<(u128, V)>, key: u128) -> Seq<(u128, V)> {
    let i = index_of(entries, key);
    if i < entries.len() {
        entries.remove(i)
    } else {
        entries
    }
}

/// The values of `entries`, in order.
pub open spec fn values_of<V>(entries: Seq<(u128, V)>) -> Seq<V> {
    Seq::new(entries.len(), |i: int| entries[i].1)
}

/// `index_of` finds the first entry with the key, and only such an entry.
pub proof fn lemma_index_of<V>(entries: Seq<(u128, V)>, key: u128)
    ensures
        0 <= index_of(entries, key) <= entries.len(),
        index_of(entries, key) < entries.len() ==> entries[index_of(entries, key)].0 == key,
        forall|i: int| 0 <= i < index_of(entries, key) ==> (#[trigger] entries[i]).0 != key,
        index_of(entries, key) < entries.len() <==> has_key(entries, key),
    decreases entries.len(),
{
    if entries.len() == 0 {
    } else if entries[0].0 == key {
    } else {
        let rest = entries.drop_first();
        lemma_index_of(rest, key);
        let k = index_of(rest, key);
        assert forall|i: int| 0 <= i < 1 + k implies (#[trigger] entries[i]).0 != key by {
            if i > 0 {
                assert(rest[i - 1] == entries[i]);
            }
        }
        if k < rest.len() {
            assert(rest[k] == entries[k + 1]);
        }
        if has_key(entries, key) {
            let w = choose|i: int| 0 <= i < entries.len() && (#[trigger] entries[i]).0 == key;
            assert(rest[w - 1] == entries[w]);
        }
    }
}

/// With distinct keys, the one entry that has a key is the one that
/// `index_of` finds.
pub proof fn lemma_index_of_unique<V>(entries: Seq<(u128, V)>, i: int)
    requires
        distinct_keys(entries),
        0 <= i < entries.len(),
    ensures
        index_of(entries, entries[i].0) == i,
{
    lemma_index_of(entries, entries[i].0);
}

/// Storing under a key keeps the keys distinct and adds at most that key.
pub proof fn lemma_with_entry<V>(entries: Seq<(u128, V)>, key: u128, value: V)
    requires
        distinct_keys(entries),
    ensures
        distinct_keys(with_entry(entries, key, value)),
        key_set(with_entry(entries, key, value)) == key_set(entries).insert(key),
{
    lemma_index_of(entries, key);
    let after = with_entry(entries, key, value);
    let i = index_of(entries, key);
    assert forall|k: u128| has_key(after, k) <==> (k == key || has_key(entries, k)) by {
        if has_key(after, k) {
            let w = choose|j: int| 0 <= j < after.len() && (#[trigger] after[j]).0 == k;
            if k != key {
                assert(entries[w].0 == k);
            }
        }
        if k == key {
            if i < entries.len() {
                assert(after[i].0 == key);
            } else {
                assert(after[entries.len() as int].0 == key);
            }
        } else if has_key(entries, k) {
            let w = choose|j: int| 0 <= j < entries.len() && (#[trigger] entries[j]).0 == k;
            assert(after[w].0 == k);
        }
    }
    assert(key_set(after) =~= key_set(entries).insert(key));
}

/// Removing a key keeps the keys distinct and takes away that key alone.
pub proof fn lemma_without_key<V>(entries: Seq<(u128, V)>, key: u128)
    requires
        distinct_keys(entries),
    ensures
        distinct_keys(without_key(entries, key)),
        key_set(without_key(entries, key)) == key_set(entries).remove(key),
{
    lemma_index_of(entries, key);
    let after = without_key(entries, key);
    let i = index_of(entries, key);
    assert forall|k: u128| has_key(after, k) <==> (k != key && has_key(entries, k)) by {
        if has_key(after, k) {
            let w = choose|j: int| 0 <= j < after.len() && (#[trigger] after[j]).0 == k;
            if i < entries.len() {
                if w < i {
                    assert(entries[w].0 == k);
                } else {
                    assert(entries[w + 1].0 == k);
                }
            } else {
                assert(entries[w].0 == k);
            }
        }
        if k != key && has_key(entries, k) {
            let w = choose|j: int| 0 <= j < entries.len() && (#[trigger] entries[j]).0 == k;
            if i < entries.len() {
                if w < i {
                    assert(after[w].0 == k);
                } else {
                    assert(after[w - 1].0 == k);
                }
            } else {
                assert(after[w].0 == k);
            }
        }
    }
    assert(key_set(after) =~= key_set(entries).remove(key));
}

/// Storing under a key that no entry has adds an entry at the end.
pub proof fn lemma_with_new_entry<V>(entries: Seq<(u128, V)>, key: u128, value: V)
    requires
        !has_key(entries, key),
    ensures
        with_entry(entries, key, value) == entries.push((key, value)),
{
    lemma_index_of(entries, key);
}

/// Changing the value of an entry changes no key.
pub proof fn lemma_update_keeps_keys<V>(entries: Seq<(u128, V)>, index: int, value: V)
    requires
        0 <= index < entries.len(),
    ensures
        distinct_keys(entries) ==> distinct_keys(
            entries.update(index, (entries[index].0, value)),
        ),
        key_set(entries.update(index, (entries[index].0, value))) == key_set(entries),
        forall|key: u128|
            index_of(entries.update(index, (entries[index].0, value)), key) == index_of(
                entries,
                key,
            ),
{
    let after = entries.update(index, (entries[index].0, value));
    assert forall|k: u128| has_key(after, k) <==> has_key(entries, k) by {
        if has_key(after, k) {
            let w = choose|j: int| 0 <= j < after.len() && (#[trigger] after[j]).0 == k;
            assert(entries[w].0 == k);
        }
        if has_key(entries, k) {
            let w = choose|j: int| 0 <= j < entries.len() && (#[trigger] entries[j]).0 == k;
            assert(after[w].0 == k);
        }
    }
    assert(key_set(after) =~= key_set(entries));
    assert forall|key: u128| index_of(after, key) == index_of(entries, key) by {
        lemma_index_of(after, key);
        lemma_index_of(entries, key);
        let a = index_of(after, key);
        let b = index_of(entries, key);
        if a < b {
            assert(entries[a].0 == after[a].0);
        }
        if b < a {
            assert(entries[b].0 == after[b].0);
        }
    }
}

/// A map from 128-bit identities to values that keeps its entries in the
/// order in which their keys first came, so that walking it always gives the
/// same order. No key occurs twice.
#[derive(Debug, PartialEq, Eq, Clone)]
pub struct Table<V> {
    entries: Vec<(u128, V)>,
}

impl<V> View for Table<V> {
    type V = Seq<(u128, V)>;

    closed spec fn view(&self) -> Seq<(u128, V)> {
        self.entries@
    }
}

impl<V> Table<V> {
    /// No key occurs twice.
    pub open spec fn wf(&self) -> bool {
        distinct_keys(self@)
    }

    /// The keys of the table.
    pub open spec fn keys(&self) -> Set<u128> {
        key_set(self@)
    }

    /// A table without entries.
    pub fn new() -> (table: Table<V>)
        ensures
            table@ == Seq::<(u128, V)>::empty(),
            table.wf(),
    {
        Table { entries: Vec::new() }
    }

    /// The number of entries.
    pub fn len(&self) -> (n: usize)
        ensures
            n == self@.len(),
    {
        self.entries.len()
    }

    /// Whether the table has no entry.
    pub fn is_empty(&self) -> (empty: bool)
        ensures
            empty == (self@.len() == 0),
    {
        self.entries.len() == 0
    }

    /// The place of the entry with the key `key`, if there is one.
    pub fn position(&self, key: u128) -> (found: Option<usize>)
        ensures
            match found {
                Some(i) => i < self@.len() && i == index_of(self@, key),
                None => index_of(self@, key) == self@.len(),
            },
            found.is_some() == has_key(self@, key),
    {
        let mut i: usize = 0;
        while i < self.entries.len()
            invariant
                i <= self.entries.len(),
                forall|j: int| 0 <= j < i ==> (#[trigger] self@[j]).0 != key,
            decreases self.entries.len() - i,
        {
            if self.entries[i].0 == key {
                proof {
                    lemma_index_of(self@, key);
                }
                return Some(i);
            }
            i += 1;
        }
        proof {
            lemma_index_of(self@, key);
        }
        None
    }

    /// Whether some entry has the key `key`.
    pub fn contains_key(&self, key: u128) -> (found: bool)
        ensures
            found == has_key(self@, key),
    {
        self.position(key).is_some()
    }

    /// The key of the entry at `index`.
    pub fn key_at(&self, index: usize) -> (key: u128)
        requires
            index < self@.len(),
        ensures
            key == self@[index as int].0,
    {
        self.entries[index].0
    }

    /// The value of the entry at `index`.
    pub fn value_at(&self, index: usize) -> (value: &V)
        requires
            index < self@.len(),
        ensures
            *value == self@[index as int].1,
    {
        &self.entries[index].1
    }

    /// The value stored under `key`, if there is one.
    pub fn get(&self, key: u128) -> (value: Option<&V>)
        ensures
            match value {
                Some(v) => has_key(self@, key) && *v == self@[index_of(self@, key)].1,
                None => !has_key(self@, key),
            },
    {
        match self.position(key) {
            Some(i) => Some(&self.entries[i].1),
            None => None,
        }
    }

    /// The value of the entry at `index`, to be changed in place.
    pub fn value_mut(&mut self, index: usize) -> (value: &mut V)
        requires
            index < old(self)@.len(),
        ensures
            *value == old(self)@[index as int].1,
            final(self)@ == old(self)@.update(
                index as int,
                (old(self)@[index as int].0, *final(value)),
            ),
    {
        &mut self.entries[index].1
    }

    /// Puts `value` in the place of the value at `index`.
    pub fn set_value(&mut self, index: usize, value: V)
        requires
            index < old(self)@.len(),
        ensures
            final(self)@ == old(self)@.update(index as int, (old(self)@[index as int].0, value)),
            old(self).wf() ==> final(self).wf(),
            final(self).keys() == old(self).keys(),
    {
        proof {
            lemma_update_keeps_keys(self@, index as int, value);
        }
        let key: u128 = self.entries[index].0;
        self.entries[index] = (key, value);
    }

    /// Adds an entry at the end, under a key that the table does not have.
    pub fn push_entry(&mut self, key: u128, value: V)
        requires
            old(self).wf(),
            !has_key(old(self)@, key),
        ensures
            final(self)@ == old(self)@.push((key, value)),
            final(self).wf(),
            final(self).keys() == old(self).keys().insert(key),
    {
        proof {
            lemma_with_new_entry(self@, key, value);
            lemma_with_entry(self@, key, value);
        }
        self.entries.push((key, value));
    }

    /// Stores `value` under `key`. A key that the table already has keeps
    /// its place; a new key goes to the end.
    pub fn insert(&mut self, key: u128, value: V)
        requires
            old(self).wf(),
        ensures
            final(self)@ == with_entry(old(self)@, key, value),
            final(self).wf(),
            final(self).keys() == old(self).keys().insert(key),
    {
        proof {
            lemma_with_entry(self@, key, value);
        }
        match self.position(key) {
            Some(i) => {
                self.entries[i] = (key, value);
            },
            None => {
                self.entries.push((key, value));
            },
        }
    }

    /// Takes the entry with the key `key` out of the table, if there is one,
    /// and says whether there was. The other entries keep their order.
    pub fn remove(&mut self, key: u128) -> (removed: bool)
        requires
            old(self).wf(),
        ensures
            final(self)@ == without_key(old(self)@, key),
            final(self).wf(),
            final(self).keys() == old(self).keys().remove(key),
            removed == has_key(old(self)@, key),
    {
        proof {
            lemma_without_key(self@, key);
        }
        match self.position(key) {
            Some(i) => {
                self.entries.remove(i);
                true
            },
            None => false,
        }
    }
}

impl<V: Copy> Table<V> {
    /// The values of the table, in the order of its entries.
    pub fn values(&self) -> (values: Vec<V>)
        ensures
            values@ == values_of(self@),
    {
        let mut values: Vec<V> = Vec::new();
        let mut i: usize = 0;
        while i < self.entries.len()
            invariant
                i <= self.entries.len(),
                values@.len() == i,
                forall|j: int| 0 <= j < i ==> values@[j] == (#[trigger] self@[j]).1,
            decreases self.entries.len() - i,
        {
            values.push(self.entries[i].1);
            i += 1;
        }
        assert(values@ =~= values_of(self@));
        values
    }

    /// A copy of the table.
    pub fn duplicate(&self) -> (copy: Table<V>)
        ensures
            copy@ == self@,
    {
        let mut entries: Vec<(u128, V)> = Vec::new();
        let mut i: usize = 0;
        while i < self.entries.len()
            invariant
                i <= self.entries.len(),
                entries@.len() == i,
                forall|j: int| 0 <= j < i ==> entries@[j] == #[trigger] self@[j],
            decreases self.entries.len() - i,
        {
            entries.push((self.entries[i].0, self.entries[i].1));
            i += 1;
        }
        assert(entries@ =~= self@);
        Table { entries }
    }
}

} // verus!
