//! Small tables: values under keys, each key once.

use vstd::prelude::*;
use crate::text_set::TextSet;

verus! {

/// A key of a [`Table`]: what it stands for, and how two are told apart.
pub trait TableKey: Sized {
    type Id;

    spec fn id(&self) -> Self::Id;

    fn same(&self, other: &Self) -> (out: bool)
        ensures
            out == (self.id() == other.id()),
    ;
}

impl TableKey for String {
    type Id = Seq<char>;

    open spec fn id(&self) -> Seq<char> {
        self@
    }

    fn same(&self, other: &Self) -> (out: bool) {
        *self == *other
    }
}

impl TableKey for u32 {
    type Id = u32;

    open spec fn id(&self) -> u32 {
        *self
    }

    fn same(&self, other: &Self) -> (out: bool) {
        *self == *other
    }
}

/// A table of values under keys, in the order in which the keys came.
#[derive(Debug)]
pub struct Table<K, V> {
    pub entries: Vec<(K, V)>,
}

/// What the keys of a list of entries stand for.
pub open spec fn ids<K: TableKey, V>(entries: Seq<(K, V)>) -> Seq<K::Id> {
    entries.map_values(|e: (K, V)| e.0.id())
}

/// The map that a list of entries with distinct keys makes.
pub open spec fn map_of<K: TableKey, V>(entries: Seq<(K, V)>) -> Map<K::Id, V> {
    Map::new(
        |id: K::Id| ids(entries).contains(id),
        |id: K::Id| entries[ids(entries).index_of(id)].1,
    )
}

/// An entry's key is in the map, with the entry's value.
pub proof fn entry_in_map<K: TableKey, V>(entries: Seq<(K, V)>, i: int)
    requires
        ids(entries).no_duplicates(),
        0 <= i < entries.len(),
    ensures
        map_of(entries).contains_key(entries[i].0.id()),
        map_of(entries)[entries[i].0.id()] == entries[i].1,
{
    let id = entries[i].0.id();
    assert(ids(entries)[i] == id);
    assert(ids(entries).contains(id));
    let j = ids(entries).index_of(id);
    assert(0 <= j < entries.len() && ids(entries)[j] == id);
    assert(i == j);
}

/// A key of the map stands in an entry.
pub proof fn key_has_entry<K: TableKey, V>(entries: Seq<(K, V)>, id: K::Id) -> (i: int)
    requires
        map_of(entries).contains_key(id),
    ensures
        0 <= i < entries.len(),
        entries[i].0.id() == id,
        map_of(entries)[id] == entries[i].1,
{
    assert(ids(entries).contains(id));
    let i = ids(entries).index_of(id);
    assert(ids(entries)[i] == id);
    i
}

/// The map's keys are as many as the entries.
pub proof fn map_len<K: TableKey, V>(entries: Seq<(K, V)>)
    requires
        ids(entries).no_duplicates(),
    ensures
        map_of(entries).dom().finite(),
        map_of(entries).len() == entries.len(),
{
    ids(entries).unique_seq_to_set();
    assert(map_of(entries).dom() =~= ids(entries).to_set());
    vstd::seq_lib::seq_to_set_is_finite(ids(entries));
}

impl<K: TableKey, V> Table<K, V> {
    /// No key occurs twice.
    pub open spec fn wf(&self) -> bool {
        ids(self.entries@).no_duplicates()
    }

    /// The values by key.
    pub open spec fn map(&self) -> Map<K::Id, V> {
        map_of(self.entries@)
    }

    /// A table without entries.
    pub fn new() -> (out: Self)
        ensures
            out.wf(),
            out.map() == Map::<K::Id, V>::empty(),
            out.entries@.len() == 0,
    {
        let out = Table { entries: Vec::new() };
        assert(out.map() =~= Map::<K::Id, V>::empty());
        out
    }

    /// How many keys there are.
    pub fn len(&self) -> (out: usize)
        requires
            self.wf(),
        ensures
            out == self.map().len(),
            out == self.entries@.len(),
            self.map().dom().finite(),
    {
        proof {
            map_len(self.entries@);
        }
        self.entries.len()
    }

    /// The position of a key.
    pub fn position(&self, key: &K) -> (out: Option<usize>)
        requires
            self.wf(),
        ensures
            match out {
                Some(i) => i < self.entries@.len() && self.entries@[i as int].0.id() == key.id()
                    && self.map().contains_key(key.id()) && self.map()[key.id()]
                    == self.entries@[i as int].1,
                None => !self.map().contains_key(key.id()),
            },
    {
        let mut i: usize = 0;
        while i < self.entries.len()
            invariant
                i <= self.entries@.len(),
                self.wf(),
                forall|j: int| 0 <= j < i ==> (#[trigger] self.entries@[j]).0.id() != key.id(),
            decreases self.entries@.len() - i,
        {
            if self.entries[i].0.same(key) {
                proof {
                    entry_in_map(self.entries@, i as int);
                }
                return Some(i);
            }
            i = i + 1;
        }
        proof {
            if self.map().contains_key(key.id()) {
                let j = key_has_entry(self.entries@, key.id());
                assert(self.entries@[j].0.id() != key.id());
            }
        }
        None
    }

    /// The value under a key.
    pub fn get(&self, key: &K) -> (out: Option<&V>)
        requires
            self.wf(),
        ensures
            match out {
                Some(value) => self.map().contains_key(key.id()) && *value == self.map()[key.id()],
                None => !self.map().contains_key(key.id()),
            },
    {
        match self.position(key) {
            Some(i) => Some(&self.entries[i].1),
            None => None,
        }
    }

    /// Whether there is a value under a key.
    pub fn contains(&self, key: &K) -> (out: bool)
        requires
            self.wf(),
        ensures
            out == self.map().contains_key(key.id()),
    {
        self.position(key).is_some()
    }

    /// Takes the value under a key out of the table.
    pub fn remove(&mut self, key: &K) -> (out: Option<V>)
        requires
            old(self).wf(),
        ensures
            final(self).wf(),
            final(self).map() == old(self).map().remove(key.id()),
            match out {
                Some(value) => old(self).map().contains_key(key.id()) && value
                    == old(self).map()[key.id()],
                None => !old(self).map().contains_key(key.id()) && *final(self) == *old(self),
            },
    {
        match self.position(key) {
            Some(i) => {
                let ghost before = self.entries@;
                let entry = self.entries.remove(i);
                proof {
                    removed_entry(before, i as int);
                }
                Some(entry.1)
            },
            None => {
                assert(self.map() =~= self.map().remove(key.id()));
                None
            },
        }
    }

    /// Puts a value under a key, in place of any that was there.
    pub fn insert(&mut self, key: K, value: V)
        requires
            old(self).wf(),
        ensures
            final(self).wf(),
            final(self).map() == old(self).map().insert(key.id(), value),
    {
        let ghost id = key.id();
        let ghost all = self.map();
        let _ = self.remove(&key);
        let ghost before = self.entries@;
        self.entries.push((key, value));
        proof {
            pushed_entry(before, (key, value));
            assert(all.remove(id).insert(id, value) =~= all.insert(id, value));
        }
    }
}

/// Taking an entry out takes its key out of the map.
pub proof fn removed_entry<K: TableKey, V>(entries: Seq<(K, V)>, i: int)
    requires
        ids(entries).no_duplicates(),
        0 <= i < entries.len(),
    ensures
        ids(entries.remove(i)).no_duplicates(),
        map_of(entries.remove(i)) == map_of(entries).remove(entries[i].0.id()),
{
    let after = entries.remove(i);
    let id = entries[i].0.id();
    assert forall|a: int, b: int| 0 <= a < after.len() && 0 <= b < after.len() && a != b implies ids(
        after,
    )[a] != ids(after)[b] by {
        let a0 = if a < i { a } else { a + 1 };
        let b0 = if b < i { b } else { b + 1 };
        assert(ids(entries)[a0] != ids(entries)[b0]);
    }
    assert forall|k: K::Id|
        map_of(after).contains_key(k) <==> map_of(entries).remove(id).contains_key(k) by {
        if map_of(after).contains_key(k) {
            let a = key_has_entry(after, k);
            let a0 = if a < i { a } else { a + 1 };
            entry_in_map(entries, a0);
            assert(ids(entries)[a0] != ids(entries)[i]);
        }
        if map_of(entries).contains_key(k) && k != id {
            let b = key_has_entry(entries, k);
            let b0 = if b < i { b } else { b - 1 };
            assert(after[b0] == entries[b]);
            entry_in_map(after, b0);
        }
    }
    assert forall|k: K::Id| #[trigger] map_of(after).contains_key(k) implies map_of(after)[k] == map_of(
        entries,
    ).remove(id)[k] by {
        let a = key_has_entry(after, k);
        let a0 = if a < i { a } else { a + 1 };
        entry_in_map(entries, a0);
        assert(ids(entries)[a0] != ids(entries)[i]);
    }
    assert(map_of(after) =~= map_of(entries).remove(id));
}

/// A new entry at the end puts its key into the map.
pub proof fn pushed_entry<K: TableKey, V>(entries: Seq<(K, V)>, entry: (K, V))
    requires
        ids(entries).no_duplicates(),
        !map_of(entries).contains_key(entry.0.id()),
    ensures
        ids(entries.push(entry)).no_duplicates(),
        map_of(entries.push(entry)) == map_of(entries).insert(entry.0.id(), entry.1),
{
    let after = entries.push(entry);
    let n = entries.len() as int;
    assert forall|a: int, b: int| 0 <= a < after.len() && 0 <= b < after.len() && a != b implies ids(
        after,
    )[a] != ids(after)[b] by {
        if a < n {
            entry_in_map(entries, a);
            assert(ids(entries)[a] == entries[a].0.id());
        }
        if b < n {
            entry_in_map(entries, b);
            assert(ids(entries)[b] == entries[b].0.id());
        }
    }
    assert forall|k: K::Id|
        map_of(after).contains_key(k) <==> map_of(entries).insert(
            entry.0.id(),
            entry.1,
        ).contains_key(k) by {
        if map_of(after).contains_key(k) {
            let a = key_has_entry(after, k);
            if a < n {
                entry_in_map(entries, a);
            }
        }
        if map_of(entries).contains_key(k) {
            let b = key_has_entry(entries, k);
            assert(after[b] == entries[b]);
            entry_in_map(after, b);
        }
        assert(after[n] == entry);
        entry_in_map(after, n);
    }
    assert forall|k: K::Id| #[trigger] map_of(after).contains_key(k) implies map_of(after)[k] == map_of(
        entries,
    ).insert(entry.0.id(), entry.1)[k] by {
        let a = key_has_entry(after, k);
        if a < n {
            entry_in_map(entries, a);
        }
    }
    assert(map_of(after) =~= map_of(entries).insert(entry.0.id(), entry.1));
}

/// A value that belongs to one generation of a package.
pub trait Owned: Sized {
    spec fn owner(&self) -> (Seq<char>, u64);

    fn owned_by(&self, id: &str, generation: u64) -> (out: bool)
        ensures
            out == (self.owner() == (id@, generation)),
    ;
}

/// What is left of a map without the values of one generation.
pub open spec fn kept<I, V: Owned>(map: Map<I, V>, owner: (Seq<char>, u64)) -> Map<I, V> {
    Map::new(|k: I| map.contains_key(k) && map[k].owner() != owner, |k: I| map[k])
}

/// The values of one generation in a map.
pub open spec fn taken<I, V: Owned>(map: Map<I, V>, owner: (Seq<char>, u64)) -> Map<I, V> {
    Map::new(|k: I| map.contains_key(k) && map[k].owner() == owner, |k: I| map[k])
}

impl<K: TableKey, V: Owned> Table<K, V> {
    /// Takes the values of one generation out of the table.
    pub fn take_generation(&mut self, id: &str, generation: u64) -> (out: Table<K, V>)
        requires
            old(self).wf(),
        ensures
            final(self).wf(),
            out.wf(),
            final(self).map() == kept(old(self).map(), (id@, generation)),
            out.map() == taken(old(self).map(), (id@, generation)),
    {
        let mut out: Table<K, V> = Table::new();
        let mut i: usize = 0;
        let ghost before = self.map();
        while i < self.entries.len()
            invariant
                i <= self.entries@.len(),
                self.wf(),
                out.wf(),
                before == old(self).map(),
                forall|j: int|
                    0 <= j < i ==> (#[trigger] self.entries@[j]).1.owner() != (id@, generation),
                forall|k: K::Id| #[trigger] self.map().contains_key(k) ==> before.contains_key(k)
                    && before[k] == self.map()[k],
                forall|k: K::Id| #[trigger] out.map().contains_key(k) ==> before.contains_key(k)
                    && before[k] == out.map()[k] && before[k].owner() == (id@, generation)
                    && !self.map().contains_key(k),
                forall|k: K::Id| #[trigger] before.contains_key(k) ==> self.map().contains_key(k)
                    || out.map().contains_key(k),
            decreases self.entries@.len() - i,
        {
            if self.entries[i].1.owned_by(id, generation) {
                let ghost entries = self.entries@;
                let ghost given = out.entries@;
                let ghost left = self.map();
                let ghost moved = out.map();
                let ghost key = entries[i as int].0.id();
                proof {
                    entry_in_map(entries, i as int);
                    assert(left.contains_key(key));
                    assert(!moved.contains_key(key));
                    removed_entry(entries, i as int);
                    pushed_entry(given, entries[i as int]);
                }
                let entry = self.entries.remove(i);
                out.entries.push(entry);
                assert(self.map() == left.remove(key));
                assert(out.map() == moved.insert(key, entries[i as int].1));
            } else {
                i = i + 1;
            }
        }
        proof {
            assert forall|k: K::Id| #[trigger] self.map().contains_key(k) implies self.map()[k].owner()
                != (id@, generation) by {
                let j = key_has_entry(self.entries@, k);
                assert(self.entries@[j].1.owner() != (id@, generation));
            }
            assert(self.map() =~= kept(before, (id@, generation)));
            assert(out.map() =~= taken(before, (id@, generation)));
        }
        out
    }

    /// Drops the values of one generation.
    pub fn drop_generation(&mut self, id: &str, generation: u64)
        requires
            old(self).wf(),
        ensures
            final(self).wf(),
            final(self).map() == kept(old(self).map(), (id@, generation)),
    {
        let _ = self.take_generation(id, generation);
    }
}

impl<V> Table<String, V> {
    /// The keys, in ascending order.
    pub fn keys(&self) -> (out: TextSet)
        requires
            self.wf(),
        ensures
            out.wf(),
            out.set() == self.map().dom(),
    {
        let mut out = TextSet::new();
        let mut i: usize = 0;
        while i < self.entries.len()
            invariant
                i <= self.entries@.len(),
                self.wf(),
                out.wf(),
                forall|k: Seq<char>| #[trigger] out.set().contains(k) ==> self.map().contains_key(k),
                forall|j: int| 0 <= j < i ==> out.set().contains((#[trigger] self.entries@[j]).0@),
            decreases self.entries@.len() - i,
        {
            proof {
                entry_in_map(self.entries@, i as int);
            }
            out.insert(&self.entries[i].0);
            i = i + 1;
        }
        proof {
            assert forall|k: Seq<char>| self.map().contains_key(k) implies out.set().contains(k) by {
                let j = key_has_entry(self.entries@, k);
                assert(out.set().contains(self.entries@[j].0@));
            }
            assert(out.set() =~= self.map().dom());
        }
        out
    }
}

impl<K: TableKey, V: Owned> Table<K, V> {
    /// How many values one generation has in the table.
    pub fn count_generation(&self, id: &str, generation: u64) -> (out: usize)
        requires
            self.wf(),
        ensures
            taken(self.map(), (id@, generation)).dom().finite(),
            out == taken(self.map(), (id@, generation)).len(),
            out <= self.entries@.len(),
    {
        let ghost owner = (id@, generation);
        let ghost mut chosen: Seq<(K, V)> = Seq::empty();
        let mut count: usize = 0;
        let mut i: usize = 0;
        while i < self.entries.len()
            invariant
                i <= self.entries@.len(),
                count <= i,
                self.wf(),
                owner == (id@, generation),
                chosen.len() == count,
                ids(chosen).no_duplicates(),
                forall|k: K::Id| #[trigger] map_of(chosen).contains_key(k) ==> exists|j: int|
                    0 <= j < i && (#[trigger] self.entries@[j]).0.id() == k
                        && self.entries@[j].1.owner() == owner,
                forall|j: int|
                    0 <= j < i && (#[trigger] self.entries@[j]).1.owner() == owner
                        ==> map_of(chosen).contains_key(self.entries@[j].0.id()),
            decreases self.entries@.len() - i,
        {
            if self.entries[i].1.owned_by(id, generation) {
                proof {
                    let entry = self.entries@[i as int];
                    let before = chosen;
                    if map_of(before).contains_key(entry.0.id()) {
                        let j = choose|j: int|
                            0 <= j < i && (#[trigger] self.entries@[j]).0.id() == entry.0.id()
                                && self.entries@[j].1.owner() == owner;
                        assert(ids(self.entries@)[j] == ids(self.entries@)[i as int]);
                    }
                    pushed_entry(before, entry);
                    chosen = before.push(entry);
                    assert(map_of(chosen) == map_of(before).insert(entry.0.id(), entry.1));
                }
                count = count + 1;
            }
            i = i + 1;
        }
        proof {
            map_len(chosen);
            assert forall|k: K::Id| map_of(chosen).contains_key(k) <==> taken(
                self.map(),
                owner,
            ).contains_key(k) by {
                if map_of(chosen).contains_key(k) {
                    let j = choose|j: int|
                        0 <= j < i && (#[trigger] self.entries@[j]).0.id() == k
                            && self.entries@[j].1.owner() == owner;
                    entry_in_map(self.entries@, j);
                }
                if taken(self.map(), owner).contains_key(k) {
                    let j = key_has_entry(self.entries@, k);
                    assert(self.entries@[j].1.owner() == owner);
                }
            }
            assert(map_of(chosen).dom() =~= taken(self.map(), owner).dom());
        }
        count
    }
}

/// A value that can be copied.
pub trait Duplicate: Sized {
    fn duplicate(&self) -> (out: Self)
        ensures
            out == *self,
    ;
}

impl Duplicate for String {
    fn duplicate(&self) -> (out: Self) {
        self.clone()
    }
}

impl<K: TableKey + Duplicate, V: Owned + Duplicate> Table<K, V> {
    /// A copy of the values of one generation.
    pub fn copy_generation(&self, id: &str, generation: u64) -> (out: Table<K, V>)
        requires
            self.wf(),
        ensures
            out.wf(),
            out.map() == taken(self.map(), (id@, generation)),
    {
        let ghost owner = (id@, generation);
        let mut out: Table<K, V> = Table::new();
        let mut i: usize = 0;
        while i < self.entries.len()
            invariant
                i <= self.entries@.len(),
                self.wf(),
                out.wf(),
                owner == (id@, generation),
                forall|k: K::Id| #[trigger] out.map().contains_key(k) ==> self.map().contains_key(k)
                    && out.map()[k] == self.map()[k] && self.map()[k].owner() == owner,
                forall|j: int|
                    0 <= j < i && (#[trigger] self.entries@[j]).1.owner() == owner
                        ==> out.map().contains_key(self.entries@[j].0.id()),
            decreases self.entries@.len() - i,
        {
            proof {
                entry_in_map(self.entries@, i as int);
            }
            if self.entries[i].1.owned_by(id, generation) {
                let key = self.entries[i].0.duplicate();
                let value = self.entries[i].1.duplicate();
                out.insert(key, value);
            }
            i = i + 1;
        }
        proof {
            assert forall|k: K::Id| taken(self.map(), owner).contains_key(k) implies out.map().contains_key(k) by {
                let j = key_has_entry(self.entries@, k);
                assert(self.entries@[j].1.owner() == owner);
            }
            assert(out.map() =~= taken(self.map(), owner));
        }
        out
    }
}

}
