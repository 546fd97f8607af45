//! The map from keys to values that the scheduler keeps its state in.
use vstd::prelude::*;

verus! {

/// A key of a [`StorageMap`]: a value that is told apart from others by its view.
pub trait StorageKey: View + Sized {
    /// Whether two keys are the same key.
    fn same_key(&self, other: &Self) -> (same: bool)
        ensures
            same == (self@ == other@),
    ;
}

impl StorageKey for u64 {
    fn same_key(&self, other: &Self) -> (same: bool) {
        *self == *other
    }
}

impl StorageKey for Vec<u8> {
    fn same_key(&self, other: &Self) -> (same: bool) {
        let same: bool = *self == *other;
        proof {
            if same {
                assert(self@ =~= other@);
            }
        }
        same
    }
}

/// A map that holds one value at most for each key.
pub struct StorageMap<K: StorageKey, V> {
    entries: Vec<(K, V)>,
}

/// No two entries have the same key.
spec fn distinct_keys<K: StorageKey, V>(entries: Seq<(K, V)>) -> bool {
    forall|i: int, j: int|
        0 <= i < j < entries.len() ==> #[trigger] entries[i].0@ != #[trigger] entries[j].0@
}

/// The entry at `i` has the key `key`.
spec fn holds_key<K: StorageKey, V>(entries: Seq<(K, V)>, i: int, key: K::V) -> bool {
    0 <= i < entries.len() && entries[i].0@ == key
}

/// Some entry has the key `key`.
spec fn has_key<K: StorageKey, V>(entries: Seq<(K, V)>, key: K::V) -> bool {
    exists|i: int| holds_key(entries, i, key)
}

/// The map that the entries spell out.
spec fn entries_map<K: StorageKey, V>(entries: Seq<(K, V)>) -> Map<K::V, V> {
    Map::new(
        |key: K::V| has_key(entries, key),
        |key: K::V| entries[choose|i: int| holds_key(entries, i, key)].1,
    )
}

/// An entry is what the map holds under its key.
proof fn lemma_entry<K: StorageKey, V>(entries: Seq<(K, V)>, i: int)
    requires
        distinct_keys(entries),
        0 <= i < entries.len(),
    ensures
        entries_map(entries).contains_pair(entries[i].0@, entries[i].1),
{
    let key = entries[i].0@;
    assert(holds_key(entries, i, key));
    let j = choose|j: int| holds_key(entries, j, key);
    assert(holds_key(entries, j, key));
    if i < j {
        assert(entries[i].0@ != entries[j].0@);
    } else if j < i {
        assert(entries[j].0@ != entries[i].0@);
    }
}

/// A map that holds every entry and no other key is the map of the entries.
proof fn lemma_is_map<K: StorageKey, V>(entries: Seq<(K, V)>, map: Map<K::V, V>)
    requires
        distinct_keys(entries),
        forall|i: int|
            0 <= i < entries.len() ==> map.contains_pair(
                (#[trigger] entries[i]).0@,
                entries[i].1,
            ),
        forall|key: K::V| #[trigger] map.contains_key(key) ==> has_key(entries, key),
    ensures
        entries_map(entries) == map,
{
    assert forall|key: K::V| #[trigger] entries_map(entries).contains_key(key) implies map.contains_pair(
        key,
        entries_map(entries)[key],
    ) by {
        let i = choose|i: int| holds_key(entries, i, key);
        assert(holds_key(entries, i, key));
        assert(map.contains_pair(entries[i].0@, entries[i].1));
    }
    assert(entries_map(entries) =~= map);
}

proof fn lemma_push<K: StorageKey, V>(entries: Seq<(K, V)>, key: K, value: V)
    requires
        distinct_keys(entries),
        !has_key(entries, key@),
    ensures
        distinct_keys(entries.push((key, value))),
        entries_map(entries.push((key, value))) == entries_map(entries).insert(key@, value),
{
    let after = entries.push((key, value));
    let map = entries_map(entries).insert(key@, value);
    assert forall|i: int, j: int| 0 <= i < j < after.len() implies #[trigger] after[i].0@
        != #[trigger] after[j].0@ by {
        if j == entries.len() {
            assert(!holds_key(entries, i, key@));
        } else {
            assert(entries[i].0@ != entries[j].0@);
        }
    }
    assert forall|i: int| 0 <= i < after.len() implies map.contains_pair(
        (#[trigger] after[i]).0@,
        after[i].1,
    ) by {
        if i < entries.len() {
            assert(!holds_key(entries, i, key@));
            lemma_entry(entries, i);
        }
    }
    assert forall|k: K::V| #[trigger] map.contains_key(k) implies has_key(after, k) by {
        if k == key@ {
            assert(holds_key(after, entries.len() as int, k));
        } else {
            let i = choose|i: int| holds_key(entries, i, k);
            assert(holds_key(entries, i, k));
            assert(holds_key(after, i, k));
        }
    }
    lemma_is_map(after, map);
}

proof fn lemma_remove<K: StorageKey, V>(entries: Seq<(K, V)>, at: int)
    requires
        distinct_keys(entries),
        0 <= at < entries.len(),
    ensures
        distinct_keys(entries.remove(at)),
        entries_map(entries.remove(at)) == entries_map(entries).remove(entries[at].0@),
{
    let after = entries.remove(at);
    let map = entries_map(entries).remove(entries[at].0@);
    assert forall|i: int, j: int| 0 <= i < j < after.len() implies #[trigger] after[i].0@
        != #[trigger] after[j].0@ by {
        let i2 = if i < at { i } else { i + 1 };
        let j2 = if j < at { j } else { j + 1 };
        assert(entries[i2].0@ != entries[j2].0@);
    }
    assert forall|i: int| 0 <= i < after.len() implies map.contains_pair(
        (#[trigger] after[i]).0@,
        after[i].1,
    ) by {
        let i2 = if i < at { i } else { i + 1 };
        lemma_entry(entries, i2);
        if i2 < at {
            assert(entries[i2].0@ != entries[at].0@);
        } else {
            assert(entries[at].0@ != entries[i2].0@);
        }
    }
    assert forall|k: K::V| #[trigger] map.contains_key(k) implies has_key(after, k) by {
        assert(entries_map(entries).contains_key(k));
        let i = choose|i: int| holds_key(entries, i, k);
        assert(holds_key(entries, i, k));
        assert(holds_key(after, if i < at { i } else { i - 1 }, k));
    }
    lemma_is_map(after, map);
}

impl<K: StorageKey, V> View for StorageMap<K, V> {
    type V = Map<K::V, V>;

    closed spec fn view(&self) -> Map<K::V, V> {
        entries_map(self.entries@)
    }
}

impl<K: StorageKey, V> StorageMap<K, V> {
    #[verifier::type_invariant]
    spec fn well_formed(&self) -> bool {
        distinct_keys(self.entries@)
    }

    /// How many keys the map holds a value for.
    pub closed spec fn size(&self) -> nat {
        self.entries@.len()
    }

    /// The map that holds nothing.
    pub fn new() -> (map: Self)
        ensures
            map@ == Map::<K::V, V>::empty(),
            map.size() == 0,
    {
        let map = StorageMap { entries: Vec::new() };
        proof {
            lemma_is_map(map.entries@, Map::empty());
        }
        map
    }

    /// Where the entry with the key stands.
    fn position(&self, key: &K) -> (at: Option<usize>)
        ensures
            match at {
                Some(i) => holds_key(self.entries@, i as int, key@),
                None => !has_key(self.entries@, key@),
            },
    {
        let mut i: usize = 0;
        while i < self.entries.len()
            invariant
                i <= self.entries@.len(),
                forall|j: int| 0 <= j < i ==> !holds_key(self.entries@, j, key@),
            decreases self.entries@.len() - i,
        {
            if self.entries[i].0.same_key(key) {
                return Some(i);
            }
            i += 1;
        }
        None
    }

    /// Whether the map holds a value for the key.
    pub fn contains_key(&self, key: &K) -> (found: bool)
        ensures
            found == self@.contains_key(key@),
    {
        self.position(key).is_some()
    }

    /// The value for the key.
    pub fn get(&self, key: &K) -> (value: Option<&V>)
        ensures
            match value {
                Some(v) => self@.contains_pair(key@, *v),
                None => !self@.contains_key(key@),
            },
    {
        match self.position(key) {
            Some(i) => {
                proof {
                    use_type_invariant(self);
                    lemma_entry(self.entries@, i as int);
                }
                Some(&self.entries[i].1)
            },
            None => None,
        }
    }

    /// Takes the value for the key out of the map.
    pub fn take(&mut self, key: &K) -> (value: Option<V>)
        ensures
            match value {
                Some(v) => old(self)@.contains_pair(key@, v),
                None => !old(self)@.contains_key(key@),
            },
            final(self)@ == old(self)@.remove(key@),
    {
        proof {
            use_type_invariant(&*self);
        }
        match self.position(key) {
            Some(i) => {
                let mut entries: Vec<(K, V)> = Vec::new();
                proof {
                    lemma_entry(self.entries@, i as int);
                    lemma_remove(self.entries@, i as int);
                }
                std::mem::swap(&mut entries, &mut self.entries);
                let (_, value) = entries.remove(i);
                self.entries = entries;
                Some(value)
            },
            None => {
                assert(self@.remove(key@) =~= self@);
                None
            },
        }
    }

    /// Puts the value under the key, in place of the value that stood there.
    pub fn insert(&mut self, key: K, value: V)
        ensures
            final(self)@ == old(self)@.insert(key@, value),
    {
        self.take(&key);
        proof {
            use_type_invariant(&*self);
            assert(!self@.contains_key(key@));
            lemma_push(self.entries@, key, value);
            assert(old(self)@.remove(key@).insert(key@, value) =~= old(self)@.insert(key@, value));
        }
        let mut entries: Vec<(K, V)> = Vec::new();
        std::mem::swap(&mut entries, &mut self.entries);
        entries.push((key, value));
        self.entries = entries;
    }

    /// Takes some key and its value out of the map.
    pub fn pop(&mut self) -> (entry: Option<(K, V)>)
        ensures
            match entry {
                Some((k, v)) => {
                    &&& old(self)@.contains_pair(k@, v)
                    &&& final(self)@ == old(self)@.remove(k@)
                    &&& final(self).size() == old(self).size() - 1
                },
                None => {
                    &&& old(self)@ == Map::<K::V, V>::empty()
                    &&& final(self)@ == old(self)@
                },
            },
    {
        proof {
            use_type_invariant(&*self);
        }
        let mut entries: Vec<(K, V)> = Vec::new();
        proof {
            if self.entries@.len() > 0 {
                let last = self.entries@.len() - 1;
                lemma_entry(self.entries@, last);
                lemma_remove(self.entries@, last);
                assert(self.entries@.remove(last) =~= self.entries@.drop_last());
            } else {
                lemma_is_map(self.entries@, Map::empty());
            }
        }
        std::mem::swap(&mut entries, &mut self.entries);
        let entry = entries.pop();
        self.entries = entries;
        entry
    }
}

} // verus!
