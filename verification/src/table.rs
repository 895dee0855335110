//! A small keyed table: what is stored under each key, with every key stored once.

use vstd::prelude::*;

verus! {

/// A key of a [`Table`]: two keys are the same entry exactly if their views are equal.
pub trait MapKey: View + Sized {
    /// Whether `self` and `other` name the same entry.
    fn same_key(&self, other: &Self) -> (b: bool)
        ensures
            b == (self@ == other@),
    ;
}

impl MapKey for String {
    fn same_key(&self, other: &Self) -> (b: bool) {
        *self == *other
    }
}

impl MapKey for usize {
    fn same_key(&self, other: &Self) -> (b: bool) {
        *self == *other
    }
}

/// A value that can be copied without changing what it means.
pub trait Duplicate: View + Sized {
    /// A value with the same view.
    fn duplicate(&self) -> (copy: Self)
        ensures
            copy@ == self@,
    ;
}

impl Duplicate for String {
    fn duplicate(&self) -> (copy: Self) {
        self.clone()
    }
}

impl Duplicate for usize {
    fn duplicate(&self) -> (copy: Self) {
        *self
    }
}

/// A map that keeps its entries in the order in which their keys first came.
#[derive(Debug)]
pub struct Table<K: MapKey, V: View> {
    entries: Vec<(K, V)>,
}

/// No key occurs twice.
pub open spec fn distinct_keys<K: MapKey, V: View>(entries: Seq<(K, V)>) -> bool {
    forall|i: int, j: int|
        #![trigger entries[i], entries[j]]
        0 <= i < j < entries.len() ==> entries[i].0@ != entries[j].0@
}

/// The entry at `i` is stored under `key`.
pub open spec fn key_at<K: MapKey, V: View>(entries: Seq<(K, V)>, i: int, key: K::V) -> bool {
    0 <= i < entries.len() && entries[i].0@ == key
}

/// What `entries` says of each key.
pub open spec fn as_map<K: MapKey, V: View>(entries: Seq<(K, V)>) -> Map<K::V, V::V> {
    Map::new(
        |key: K::V| exists|i: int| key_at(entries, i, key),
        |key: K::V| entries[choose|i: int| key_at(entries, i, key)].1@,
    )
}

impl<K: MapKey, V: View> View for Table<K, V> {
    type V = Map<K::V, V::V>;

    closed spec fn view(&self) -> Map<K::V, V::V> {
        as_map(self.entries@)
    }
}

/// A key is in the map of `entries` exactly if an entry holds it, and an entry that holds it
/// holds its value.
pub proof fn lemma_entry<K: MapKey, V: View>(entries: Seq<(K, V)>, i: int)
    requires
        distinct_keys(entries),
        0 <= i < entries.len(),
    ensures
        as_map(entries).contains_key(entries[i].0@),
        as_map(entries)[entries[i].0@] == entries[i].1@,
{
    let key = entries[i].0@;
    assert(key_at(entries, i, key));
    let j = choose|j: int| key_at(entries, j, key);
    assert(key_at(entries, j, key));
    assert(entries[i].0@ == entries[j].0@);
}

/// Every key of the map of `entries` is held by an entry.
pub proof fn lemma_key<K: MapKey, V: View>(entries: Seq<(K, V)>, key: K::V) -> (i: int)
    requires
        distinct_keys(entries),
        as_map(entries).contains_key(key),
    ensures
        0 <= i < entries.len(),
        entries[i].0@ == key,
        as_map(entries)[key] == entries[i].1@,
{
    let i = choose|i: int| key_at(entries, i, key);
    assert(key_at(entries, i, key));
    i
}

/// One entry more is one key more.
pub proof fn lemma_next_entry<K: MapKey, V: View>(entries: Seq<(K, V)>, i: int)
    requires
        distinct_keys(entries),
        0 <= i < entries.len(),
    ensures
        distinct_keys(entries.take(i)),
        !as_map(entries.take(i)).contains_key(entries[i].0@),
        as_map(entries.take(i + 1)) == as_map(entries.take(i)).insert(
            entries[i].0@,
            entries[i].1@,
        ),
{
    let before = entries.take(i);
    let after = entries.take(i + 1);
    let new_key = entries[i].0@;
    assert forall|a: int, b: int|
        #![trigger before[a], before[b]]
        0 <= a < b < before.len() implies before[a].0@ != before[b].0@ by {
        assert(entries[a].0@ != entries[b].0@);
    }
    assert forall|a: int, b: int|
        #![trigger after[a], after[b]]
        0 <= a < b < after.len() implies after[a].0@ != after[b].0@ by {
        assert(entries[a].0@ != entries[b].0@);
    }
    if as_map(before).contains_key(new_key) {
        let j = lemma_key(before, new_key);
        assert(entries[j].0@ != entries[i].0@);
    }
    assert forall|k: K::V| #[trigger]
        as_map(after).contains_key(k) == as_map(before).insert(
            new_key,
            entries[i].1@,
        ).contains_key(k) by {
        if as_map(after).contains_key(k) {
            let j = lemma_key(after, k);
            if j < i {
                assert(before[j] == after[j]);
                lemma_entry(before, j);
            }
        }
        if as_map(before).contains_key(k) {
            let j = lemma_key(before, k);
            assert(before[j] == after[j]);
            lemma_entry(after, j);
        }
        assert(after[i] == entries[i]);
        lemma_entry(after, i);
    }
    assert forall|k: K::V| #[trigger] as_map(after).contains_key(k) implies as_map(after)[k]
        == as_map(before).insert(new_key, entries[i].1@)[k] by {
        let j = lemma_key(after, k);
        if j < i {
            assert(before[j] == after[j]);
            lemma_entry(before, j);
            assert(entries[j].0@ != entries[i].0@);
        } else {
            assert(after[i] == entries[i]);
        }
    }
    assert(as_map(after) =~= as_map(before).insert(new_key, entries[i].1@));
}

/// `keys` are the keys of `map`, each once.
pub open spec fn lists_keys<A, B>(map: Map<A, B>, keys: Seq<A>) -> bool {
    &&& keys.no_duplicates()
    &&& forall|key: A| #[trigger] keys.contains(key) <==> map.contains_key(key)
}

/// `values` are the values of `map`, one for each key.
pub open spec fn lists_values<A, B>(map: Map<A, B>, values: Seq<B>) -> bool {
    exists|keys: Seq<A>| #[trigger]
        lists_keys(map, keys) && values == keys.map_values(|key: A| map[key])
}

impl<K: MapKey, V: View> Table<K, V> {
    #[verifier::type_invariant]
    spec fn inv(&self) -> bool {
        distinct_keys(self.entries@)
    }

    /// The keys in the order in which they first came.
    pub closed spec fn order(&self) -> Seq<K::V> {
        entry_keys(self.entries@)
    }

    /// The table with nothing in it.
    pub fn new() -> (table: Self)
        ensures
            table@ == Map::<K::V, V::V>::empty(),
            table.order() == Seq::<K::V>::empty(),
    {
        let table = Table { entries: Vec::new() };
        assert(table.order() =~= Seq::<K::V>::empty());
        assert(table@ =~= Map::<K::V, V::V>::empty());
        table
    }

    /// The entries, each key once and in order.
    pub fn entries(&self) -> (entries: &Vec<(K, V)>)
        ensures
            distinct_keys(entries@),
            self@ == as_map(entries@),
            entry_keys(entries@) == self.order(),
            lists_keys(self@, self.order()),
    {
        proof {
            use_type_invariant(self);
            lemma_entry_keys(self.entries@);
        }
        &self.entries
    }

    /// Where the entry of `key` stands.
    fn position(&self, key: &K) -> (found: Option<usize>)
        ensures
            match found {
                Some(i) => key_at(self.entries@, i as int, key@),
                None => forall|i: int| !key_at(self.entries@, i, key@),
            },
    {
        let n = self.entries.len();
        let mut i: usize = 0;
        while i < n
            invariant
                n == self.entries@.len(),
                i <= n,
                forall|j: int| j < i ==> !key_at(self.entries@, j, key@),
            decreases n - i,
        {
            if self.entries[i].0.same_key(key) {
                return Some(i);
            }
            i += 1;
        }
        None
    }

    /// The value under `key`, if there is one.
    pub fn get(&self, key: &K) -> (value: Option<&V>)
        ensures
            match value {
                Some(v) => self@.contains_key(key@) && v@ == self@[key@],
                None => !self@.contains_key(key@),
            },
    {
        proof {
            use_type_invariant(self);
        }
        match self.position(key) {
            Some(i) => {
                proof {
                    lemma_entry(self.entries@, i as int);
                }
                Some(&self.entries[i].1)
            },
            None => None,
        }
    }

    /// Whether there is a value under `key`.
    pub fn contains_key(&self, key: &K) -> (found: bool)
        ensures
            found == self@.contains_key(key@),
    {
        match self.position(key) {
            Some(i) => {
                assert(key_at(self.entries@, i as int, key@));
                true
            },
            None => false,
        }
    }

    /// Puts `value` under `key`, in place of what was there. A new key comes last.
    pub fn insert(&mut self, key: K, value: V)
        ensures
            final(self)@ == old(self)@.insert(key@, value@),
            final(self).order() == if old(self)@.contains_key(key@) {
                old(self).order()
            } else {
                old(self).order().push(key@)
            },
    {
        proof {
            use_type_invariant(&*self);
        }
        let ghost before = self.entries@;
        let ghost new_key = key@;
        let ghost new_value = value@;
        let found = self.position(&key);
        let mut entries: Vec<(K, V)> = Vec::new();
        std::mem::swap(&mut entries, &mut self.entries);
        match found {
            Some(i) => {
                entries.set(i, (key, value));
            },
            None => {
                entries.push((key, value));
            },
        }
        let ghost after = entries@;
        let ghost at: int = match found {
            Some(i) => i as int,
            None => before.len() as int,
        };
        proof {
            assert(after.len() > at);
            assert(after[at].0@ == new_key && after[at].1@ == new_value);
            assert(distinct_keys(after)) by {
                assert forall|i: int, j: int|
                    #![trigger after[i], after[j]]
                    0 <= i < j < after.len() implies after[i].0@ != after[j].0@ by {
                    if i != at && j != at {
                        assert(before[i].0@ != before[j].0@);
                    } else {
                        let other = if i == at {
                            j
                        } else {
                            i
                        };
                        assert(after[other] == before[other]);
                        match found {
                            Some(_) => {
                                assert(before[other].0@ != before[at].0@);
                            },
                            None => {
                                assert(!key_at(before, other, new_key));
                            },
                        }
                    }
                }
            }
            assert(as_map(after) =~= as_map(before).insert(new_key, new_value)) by {
                assert forall|k: K::V| #[trigger]
                    as_map(after).contains_key(k) == as_map(before).insert(
                        new_key,
                        new_value,
                    ).contains_key(k) by {
                    if as_map(after).contains_key(k) {
                        let i = lemma_key(after, k);
                        if i != at {
                            lemma_entry(before, i);
                        }
                    }
                    if as_map(before).contains_key(k) {
                        let i = lemma_key(before, k);
                        lemma_entry(after, i);
                    }
                    lemma_entry(after, at);
                }
                assert forall|k: K::V| #[trigger]
                    as_map(after).contains_key(k) implies as_map(after)[k] == as_map(
                    before,
                ).insert(new_key, new_value)[k] by {
                    let i = lemma_key(after, k);
                    lemma_entry(after, at);
                    if i != at {
                        lemma_entry(before, i);
                        assert(k != new_key);
                    }
                }
            }
        }
        proof {
            match found {
                Some(_) => {
                    lemma_entry(before, at);
                    assert(entry_keys(after) =~= entry_keys(before));
                },
                None => {
                    assert(entry_keys(after) =~= entry_keys(before).push(new_key));
                },
            }
        }
        self.entries = entries;
    }

    /// Takes away what is under `key` and hands it out. The other keys keep their order.
    pub fn remove(&mut self, key: &K) -> (removed: Option<V>)
        ensures
            final(self)@ == old(self)@.remove(key@),
            final(self).order() == old(self).order().remove_value(key@),
            match removed {
                Some(v) => old(self)@.contains_key(key@) && v@ == old(self)@[key@],
                None => !old(self)@.contains_key(key@),
            },
    {
        proof {
            use_type_invariant(&*self);
        }
        let ghost before = self.entries@;
        match self.position(key) {
            Some(at) => {
                let mut entries: Vec<(K, V)> = Vec::new();
                std::mem::swap(&mut entries, &mut self.entries);
                let removed = entries.remove(at);
                proof {
                    lemma_entry(before, at as int);
                    lemma_entry_keys(before);
                    let keys = entry_keys(before);
                    keys.index_of_first_ensures(key@);
                    assert(keys[at as int] == key@);
                    assert(entry_keys(entries@) =~= keys.remove(at as int));
                }
                let ghost after = entries@;
                proof {
                    assert(after == before.remove(at as int));
                    assert forall|i: int| 0 <= i < after.len() implies after[i] == before[if i < at {
                        i
                    } else {
                        i + 1
                    }] by {}
                    assert(distinct_keys(after));
                    assert(as_map(after) =~= as_map(before).remove(key@)) by {
                        assert forall|k: K::V| #[trigger]
                            as_map(after).contains_key(k) == as_map(before).remove(
                                key@,
                            ).contains_key(k) by {
                            if as_map(after).contains_key(k) {
                                let i = lemma_key(after, k);
                                let j = if i < at {
                                    i
                                } else {
                                    i + 1
                                };
                                lemma_entry(before, j);
                                assert(before[j].0@ != before[at as int].0@);
                            }
                            if as_map(before).remove(key@).contains_key(k) {
                                let j = lemma_key(before, k);
                                let i = if j < at {
                                    j
                                } else {
                                    j - 1
                                };
                                lemma_entry(after, i);
                            }
                        }
                        assert forall|k: K::V| #[trigger]
                            as_map(after).contains_key(k) implies as_map(after)[k] == as_map(
                            before,
                        ).remove(key@)[k] by {
                            let i = lemma_key(after, k);
                            lemma_entry(
                                before,
                                if i < at {
                                    i
                                } else {
                                    i + 1
                                },
                            );
                        }
                    }
                }
                self.entries = entries;
                Some(removed.1)
            },
            None => {
                proof {
                    assert(as_map(before).remove(key@) =~= as_map(before));
                    let keys = entry_keys(before);
                    keys.index_of_first_ensures(key@);
                    if keys.contains(key@) {
                        let i = choose|i: int| 0 <= i < keys.len() && keys[i] == key@;
                        assert(key_at(before, i, key@));
                    }
                }
                None
            },
        }
    }
}

/// The views of a list of keys or values.
pub open spec fn views<T: View>(list: Seq<T>) -> Seq<T::V> {
    list.map_values(|item: T| item@)
}

/// The keys of `entries`.
pub open spec fn entry_keys<K: MapKey, V: View>(entries: Seq<(K, V)>) -> Seq<K::V> {
    entries.map_values(|entry: (K, V)| entry.0@)
}

/// The keys of `entries` are the keys of its map.
proof fn lemma_entry_keys<K: MapKey, V: View>(entries: Seq<(K, V)>)
    requires
        distinct_keys(entries),
    ensures
        lists_keys(as_map(entries), entry_keys(entries)),
        entry_keys(entries).map_values(|key: K::V| as_map(entries)[key]) == entries.map_values(
            |entry: (K, V)| entry.1@,
        ),
{
    let keys = entry_keys(entries);
    assert forall|i: int, j: int|
        0 <= i < keys.len() && 0 <= j < keys.len() && i != j implies keys[i] != keys[j] by {
        assert(entries[i].0@ != entries[j].0@);
    }
    assert forall|key: K::V| #[trigger] keys.contains(key) <==> as_map(entries).contains_key(
        key,
    ) by {
        if keys.contains(key) {
            let i = choose|i: int| 0 <= i < keys.len() && keys[i] == key;
            lemma_entry(entries, i);
        }
        if as_map(entries).contains_key(key) {
            let i = lemma_key(entries, key);
            assert(keys[i] == key);
        }
    }
    let values = keys.map_values(|key: K::V| as_map(entries)[key]);
    assert forall|i: int| 0 <= i < entries.len() implies values[i] == entries[i].1@ by {
        lemma_entry(entries, i);
    }
    assert(values =~= entries.map_values(|entry: (K, V)| entry.1@));
}

impl<K: MapKey + Duplicate, V: View> Table<K, V> {
    /// All keys, in order.
    pub fn keys(&self) -> (keys: Vec<K>)
        ensures
            lists_keys(self@, views(keys@)),
            views(keys@) == self.order(),
    {
        proof {
            use_type_invariant(self);
            lemma_entry_keys(self.entries@);
        }
        let mut keys: Vec<K> = Vec::new();
        let n = self.entries.len();
        let mut i: usize = 0;
        while i < n
            invariant
                n == self.entries@.len(),
                i <= n,
                keys@.len() == i,
                forall|j: int| 0 <= j < i ==> (#[trigger] keys@[j])@ == self.entries@[j].0@,
            decreases n - i,
        {
            keys.push(self.entries[i].0.duplicate());
            i += 1;
        }
        assert(views(keys@) =~= entry_keys(self.entries@));
        keys
    }
}

impl<K: MapKey, V: Duplicate> Table<K, V> {
    /// All values, in the order of their keys.
    pub fn values(&self) -> (values: Vec<V>)
        ensures
            lists_values(self@, views(values@)),
            views(values@) == self.order().map_values(|key: K::V| self@[key]),
    {
        proof {
            use_type_invariant(self);
            lemma_entry_keys(self.entries@);
        }
        let mut values: Vec<V> = Vec::new();
        let n = self.entries.len();
        let mut i: usize = 0;
        while i < n
            invariant
                n == self.entries@.len(),
                i <= n,
                values@.len() == i,
                forall|j: int| 0 <= j < i ==> (#[trigger] values@[j])@ == self.entries@[j].1@,
            decreases n - i,
        {
            values.push(self.entries[i].1.duplicate());
            i += 1;
        }
        assert(views(values@) =~= self.entries@.map_values(|entry: (K, V)| entry.1@));
        assert(lists_keys(self@, entry_keys(self.entries@)));
        values
    }
}

impl<K: MapKey + Duplicate, V: Duplicate> Duplicate for Table<K, V> {
    fn duplicate(&self) -> (copy: Self)
        ensures
            copy.order() == self.order(),
    {
        proof {
            use_type_invariant(self);
        }
        let n = self.entries.len();
        let mut entries: Vec<(K, V)> = Vec::new();
        let mut i: usize = 0;
        while i < n
            invariant
                n == self.entries@.len(),
                i <= n,
                entries@.len() == i,
                forall|j: int|
                    #![trigger entries@[j]]
                    0 <= j < i ==> entries@[j].0@ == self.entries@[j].0@ && entries@[j].1@
                        == self.entries@[j].1@,
            decreases n - i,
        {
            let key = self.entries[i].0.duplicate();
            let value = self.entries[i].1.duplicate();
            entries.push((key, value));
            i += 1;
        }
        proof {
            let old_entries = self.entries@;
            assert(distinct_keys(entries@)) by {
                assert forall|i: int, j: int|
                    #![trigger entries@[i], entries@[j]]
                    0 <= i < j < entries@.len() implies entries@[i].0@ != entries@[j].0@ by {
                    assert(old_entries[i].0@ != old_entries[j].0@);
                }
            }
            assert(as_map(entries@) =~= as_map(old_entries)) by {
                assert forall|k: K::V| #[trigger]
                    as_map(entries@).contains_key(k) == as_map(old_entries).contains_key(k) by {
                    if as_map(entries@).contains_key(k) {
                        let i = lemma_key(entries@, k);
                        lemma_entry(old_entries, i);
                    }
                    if as_map(old_entries).contains_key(k) {
                        let i = lemma_key(old_entries, k);
                        lemma_entry(entries@, i);
                    }
                }
                assert forall|k: K::V| #[trigger]
                    as_map(entries@).contains_key(k) implies as_map(entries@)[k] == as_map(
                    old_entries,
                )[k] by {
                    let i = lemma_key(entries@, k);
                    lemma_entry(old_entries, i);
                }
            }
        }
        assert(entry_keys(entries@) =~= entry_keys(self.entries@));
        Table { entries }
    }
}

/// Keys are listed exactly if each stands in the list once and nothing else does.
pub proof fn law_lists_keys<A, B>(map: Map<A, B>, keys: Seq<A>, key: A, i: int, j: int)
    requires
        lists_keys(map, keys),
    ensures
        keys.contains(key) <==> map.contains_key(key),
        0 <= i < j < keys.len() ==> keys[i] != keys[j],
{
}

/// Values are listed exactly if the value of each key stands in the list, and nothing else does.
pub proof fn law_lists_values<A, B>(map: Map<A, B>, values: Seq<B>, key: A, i: int)
    requires
        lists_values(map, values),
    ensures
        map.contains_key(key) ==> values.contains(map[key]),
        0 <= i < values.len() ==> exists|k: A| #[trigger] map.contains_key(k) && map[k] == values[i],
{
    let keys = choose|keys: Seq<A>| #[trigger]
        lists_keys(map, keys) && values == keys.map_values(|key: A| map[key]);
    if map.contains_key(key) {
        assert(keys.contains(key));
        let n = choose|n: int| 0 <= n < keys.len() && keys[n] == key;
        assert(values[n] == map[key]);
    }
    if 0 <= i < values.len() {
        assert(keys.contains(keys[i]));
        assert(map.contains_key(keys[i]));
    }
}

} // verus!
