//! A map from texts to values, kept as a list of entries with distinct keys.
use vstd::prelude::*;

verus! {

/// A key of a [`Table`]: compared by what it stands for.
pub trait TableKey: View + Sized {
    fn same(&self, other: &Self) -> (same: bool)
        ensures
            same == (self@ == other@),
    ;
}

impl TableKey for String {
    fn same(&self, other: &Self) -> (same: bool) {
        *self == *other
    }
}

impl TableKey for (String, String) {
    fn same(&self, other: &Self) -> (same: bool) {
        self.0 == other.0 && self.1 == other.1
    }
}

/// A map whose keys are compared by their views.
#[derive(Clone, Debug)]
pub struct Table<K, V> {
    entries: Vec<(K, V)>,
}

impl<K: TableKey, V: View> View for Table<K, V> {
    type V = Map<K::V, V::V>;

    closed spec fn view(&self) -> Map<K::V, V::V> {
        entries_map(self.entries@)
    }
}

/// Whether some entry has the key `key`.
spec fn has_key<K: View, V>(entries: Seq<(K, V)>, key: K::V) -> bool {
    exists|i: int| 0 <= i < entries.len() && (#[trigger] entries[i]).0@ == key
}

/// Where the key `key` stands.
spec fn place<K: View, V>(entries: Seq<(K, V)>, key: K::V) -> int {
    choose|i: int| 0 <= i < entries.len() && (#[trigger] entries[i]).0@ == key
}

/// The map that the entries list.
spec fn entries_map<K: View, V: View>(entries: Seq<(K, V)>) -> Map<K::V, V::V> {
    Map::new(|key: K::V| has_key(entries, key), |key: K::V| entries[place(entries, key)].1@)
}

spec fn distinct<K: View, V>(entries: Seq<(K, V)>) -> bool {
    forall|i: int, j: int|
        0 <= i < entries.len() && 0 <= j < entries.len() && i != j ==> (#[trigger] entries[i]).0@ != (
        #[trigger] entries[j]).0@
}

proof fn lemma_entry<K: View, V: View>(entries: Seq<(K, V)>, i: int)
    requires
        distinct(entries),
        0 <= i < entries.len(),
    ensures
        entries_map(entries).contains_key(entries[i].0@),
        entries_map(entries)[entries[i].0@] == entries[i].1@,
{
    assert(has_key(entries, entries[i].0@));
    assert(place(entries, entries[i].0@) == i);
}

proof fn lemma_len<K: View, V: View>(entries: Seq<(K, V)>)
    requires
        distinct(entries),
    ensures
        entries_map(entries).dom().finite(),
        entries_map(entries).len() == entries.len(),
    decreases entries.len(),
{
    if entries.len() == 0 {
        assert(entries_map(entries).dom() =~= Set::empty());
    } else {
        let rest = entries.drop_last();
        let key = entries.last().0@;
        lemma_len(rest);
        assert(!has_key(rest, key)) by {
            if has_key(rest, key) {
                let i = place(rest, key);
                assert(entries[i].0@ == entries[entries.len() - 1].0@);
            }
        }
        assert(entries_map(entries).dom() =~= entries_map(rest).dom().insert(key)) by {
            assert forall|k: K::V| has_key(entries, k) <==> has_key(rest, k) || k == key by {
                if has_key(entries, k) && k != key {
                    let i = place(entries, k);
                    assert(rest[i].0@ == k);
                }
                if has_key(rest, k) {
                    let i = place(rest, k);
                    assert(entries[i].0@ == k);
                }
                if k == key {
                    assert(entries[entries.len() - 1].0@ == k);
                }
            }
        }
    }
}

impl<K: TableKey, V: View> Table<K, V> {
    /// No key is listed twice.
    pub closed spec fn wf(&self) -> bool {
        distinct(self.entries@)
    }

    /// Whether a property holds of every value.
    pub closed spec fn every(&self, property: spec_fn(V) -> bool) -> bool {
        forall|i: int| 0 <= i < self.entries@.len() ==> property((#[trigger] self.entries@[i]).1)
    }

    pub fn new() -> (table: Self)
        ensures
            table.wf(),
            table@ == Map::<K::V, V::V>::empty(),
            forall|property: spec_fn(V) -> bool| #[trigger] table.every(property),
    {
        let table = Table { entries: Vec::new() };
        assert(table@ =~= Map::<K::V, V::V>::empty());
        table
    }

    /// The number of keys.
    pub fn len(&self) -> (len: usize)
        requires
            self.wf(),
        ensures
            len == self@.len(),
            self@.dom().finite(),
    {
        proof {
            lemma_len(self.entries@);
        }
        self.entries.len()
    }

    fn find(&self, key: &K) -> (found: Option<usize>)
        ensures
            match found {
                Some(i) => i < self.entries.len() && self.entries@[i as int].0@ == key@,
                None => !has_key(self.entries@, key@),
            },
    {
        let mut i: usize = 0;
        while i < self.entries.len()
            invariant
                i <= self.entries.len(),
                forall|j: int| 0 <= j < i ==> (#[trigger] self.entries@[j]).0@ != key@,
            decreases self.entries.len() - i,
        {
            if self.entries[i].0.same(key) {
                return Some(i);
            }
            i = i + 1;
        }
        None
    }

    pub fn contains_key(&self, key: &K) -> (found: bool)
        ensures
            found == self@.contains_key(key@),
    {
        self.find(key).is_some()
    }

    pub fn get(&self, key: &K) -> (found: Option<&V>)
        requires
            self.wf(),
        ensures
            match found {
                Some(value) => {
                    &&& self@.contains_key(key@)
                    &&& value@ == self@[key@]
                    &&& forall|property: spec_fn(V) -> bool| #[trigger]
                        self.every(property) ==> property(*value)
                },
                None => !self@.contains_key(key@),
            },
    {
        match self.find(key) {
            Some(i) => {
                proof {
                    lemma_entry(self.entries@, i as int);
                }
                Some(&self.entries[i].1)
            },
            None => None,
        }
    }

    /// The value under `key`, to be changed in place.
    pub fn get_mut(&mut self, key: &K) -> (found: Option<&mut V>)
        requires
            old(self).wf(),
        ensures
            match found {
                Some(value) => {
                    &&& old(self)@.contains_key(key@)
                    &&& (*value)@ == old(self)@[key@]
                    &&& final(self)@ == old(self)@.insert(key@, (*final(value))@)
                    &&& final(self).wf()
                    &&& forall|property: spec_fn(V) -> bool| #[trigger]
                        old(self).every(property) ==> property(*value)
                    &&& forall|property: spec_fn(V) -> bool|
                        old(self).every(property) && property(*final(value)) ==> #[trigger] final(self).every(
                            property,
                        )
                },
                None => !old(self)@.contains_key(key@) && *final(self) == *old(self),
            },
    {
        match self.find(key) {
            Some(i) => {
                proof {
                    lemma_entry(self.entries@, i as int);
                }
                let ghost before = self.entries@;
                let value = &mut self.entries[i].1;
                proof {
                    let after = before.update(i as int, (before[i as int].0, *final(value)));
                    assert(distinct(after));
                    lemma_update(before, i as int, *final(value));
                }
                Some(value)
            },
            None => None,
        }
    }

    /// Puts `value` under `key`, in place of what was there.
    pub fn insert(&mut self, key: K, value: V)
        requires
            old(self).wf(),
        ensures
            final(self).wf(),
            final(self)@ == old(self)@.insert(key@, value@),
            forall|property: spec_fn(V) -> bool|
                old(self).every(property) && property(value) ==> #[trigger] final(self).every(
                    property,
                ),
    {
        let ghost before = self.entries@;
        match self.find(&key) {
            Some(i) => {
                proof {
                    lemma_update(before, i as int, value);
                }
                self.entries[i].1 = value;
            },
            None => {
                self.entries.push((key, value));
                proof {
                    lemma_push(before, (key, value));
                }
            },
        }
    }

    /// Removes `key` and what is under it.
    pub fn remove(&mut self, key: &K)
        requires
            old(self).wf(),
        ensures
            final(self).wf(),
            final(self)@ == old(self)@.remove(key@),
    {
        let ghost before = self.entries@;
        match self.find(key) {
            Some(i) => {
                self.entries.remove(i);
                proof {
                    lemma_remove(before, i as int);
                }
            },
            None => {
                assert(self@.remove(key@) =~= self@);
            },
        }
    }
}

proof fn lemma_update<K: View, V: View>(entries: Seq<(K, V)>, i: int, value: V)
    requires
        distinct(entries),
        0 <= i < entries.len(),
    ensures
        distinct(entries.update(i, (entries[i].0, value))),
        entries_map(entries.update(i, (entries[i].0, value))) == entries_map(entries).insert(
            entries[i].0@,
            value@,
        ),
{
    let after = entries.update(i, (entries[i].0, value));
    assert forall|key: K::V| has_key(after, key) == has_key(entries, key) by {
        if has_key(after, key) {
            assert(entries[place(after, key)].0@ == key);
        }
        if has_key(entries, key) {
            assert(after[place(entries, key)].0@ == key);
        }
    }
    assert forall|key: K::V| has_key(after, key) implies entries_map(after)[key]
        == entries_map(entries).insert(entries[i].0@, value@)[key] by {
        let j = place(entries, key);
        assert(after[j].0@ == key);
        lemma_entry(after, j);
        lemma_entry(entries, j);
    }
    assert(has_key(entries, entries[i].0@));
    assert(entries_map(after) =~= entries_map(entries).insert(entries[i].0@, value@));
}

proof fn lemma_push<K: View, V: View>(entries: Seq<(K, V)>, entry: (K, V))
    requires
        distinct(entries),
        !has_key(entries, entry.0@),
    ensures
        distinct(entries.push(entry)),
        entries_map(entries.push(entry)) == entries_map(entries).insert(entry.0@, entry.1@),
{
    let after = entries.push(entry);
    assert(distinct(after));
    assert forall|key: K::V| has_key(after, key) == (has_key(entries, key) || key == entry.0@) by {
        if has_key(after, key) && key != entry.0@ {
            assert(entries[place(after, key)].0@ == key);
        }
        if has_key(entries, key) {
            assert(after[place(entries, key)].0@ == key);
        }
        if key == entry.0@ {
            assert(after[entries.len() as int].0@ == key);
        }
    }
    assert forall|key: K::V| has_key(after, key) implies entries_map(after)[key]
        == entries_map(entries).insert(entry.0@, entry.1@)[key] by {
        if key == entry.0@ {
            lemma_entry(after, entries.len() as int);
        } else {
            let j = place(entries, key);
            lemma_entry(entries, j);
            lemma_entry(after, j);
        }
    }
    assert(entries_map(after) =~= entries_map(entries).insert(entry.0@, entry.1@));
}

proof fn lemma_remove<K: View, V: View>(entries: Seq<(K, V)>, i: int)
    requires
        distinct(entries),
        0 <= i < entries.len(),
    ensures
        distinct(entries.remove(i)),
        entries_map(entries.remove(i)) == entries_map(entries).remove(entries[i].0@),
{
    let after = entries.remove(i);
    assert(distinct(after));
    assert forall|key: K::V| has_key(after, key) == (has_key(entries, key) && key != entries[i].0@) by {
        if has_key(after, key) {
            let j = place(after, key);
            let before = if j < i { j } else { j + 1 };
            assert(entries[before].0@ == key);
        }
        if has_key(entries, key) && key != entries[i].0@ {
            let j = place(entries, key);
            let now = if j < i { j } else { j - 1 };
            assert(after[now].0@ == key);
        }
    }
    assert forall|key: K::V| has_key(after, key) implies entries_map(after)[key]
        == entries_map(entries)[key] by {
        let j = place(after, key);
        let before = if j < i { j } else { j + 1 };
        lemma_entry(after, j);
        lemma_entry(entries, before);
    }
    assert(entries_map(after) =~= entries_map(entries).remove(entries[i].0@));
}

} // verus!
