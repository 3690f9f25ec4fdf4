use crate::arrays::bytes32_eq;
use vstd::prelude::*;

verus! {

/// The map that a list of entries stands for: each key with its value, a later
/// entry before an earlier one under the same key.
pub open spec fn entries_map<V>(entries: Seq<([u8; 32], V)>) -> Map<[u8; 32], V>
    decreases entries.len(),
{
    if entries.len() == 0 {
        Map::empty()
    } else {
        entries_map(entries.drop_last()).insert(entries.last().0, entries.last().1)
    }
}

/// No key occurs twice in `entries`.
pub open spec fn keys_distinct<V>(entries: Seq<([u8; 32], V)>) -> bool {
    forall|i: int, j: int| 0 <= i < j < entries.len() ==> entries[i].0 != entries[j].0
}

/// Whether some entry of `entries` is under `key`.
pub open spec fn has_key<V>(entries: Seq<([u8; 32], V)>, key: [u8; 32]) -> bool {
    exists|i: int| 0 <= i < entries.len() && entries[i].0 == key
}

/// The keys of the map are the keys of the entries.
pub proof fn lemma_map_keys<V>(entries: Seq<([u8; 32], V)>, key: [u8; 32])
    ensures
        entries_map(entries).contains_key(key) <==> has_key(entries, key),
    decreases entries.len(),
{
    if entries.len() > 0 {
        let earlier = entries.drop_last();
        lemma_map_keys(earlier, key);
        if has_key(earlier, key) {
            let i = choose|i: int| 0 <= i < earlier.len() && earlier[i].0 == key;
            assert(entries[i].0 == key);
        }
        if has_key(entries, key) {
            let i = choose|i: int| 0 <= i < entries.len() && entries[i].0 == key;
            if i < earlier.len() {
                assert(earlier[i].0 == key);
            }
        }
    }
}

/// Where no key occurs twice, the map gives each key the value of its entry.
pub proof fn lemma_map_value<V>(entries: Seq<([u8; 32], V)>, i: int)
    requires
        keys_distinct(entries),
        0 <= i < entries.len(),
    ensures
        entries_map(entries).contains_key(entries[i].0),
        entries_map(entries)[entries[i].0] == entries[i].1,
    decreases entries.len(),
{
    let earlier = entries.drop_last();
    if i < entries.len() - 1 {
        assert forall|a: int, b: int| 0 <= a < b < earlier.len() implies earlier[a].0
            != earlier[b].0 by {
            assert(earlier[a] == entries[a] && earlier[b] == entries[b]);
        }
        lemma_map_value(earlier, i);
        assert(earlier[i] == entries[i]);
        assert(entries[i].0 != entries[entries.len() - 1].0);
    }
}

/// Where no key occurs twice, taking an entry out takes its key out of the map
/// and leaves the rest as it was.
pub proof fn lemma_map_remove<V>(entries: Seq<([u8; 32], V)>, i: int)
    requires
        keys_distinct(entries),
        0 <= i < entries.len(),
    ensures
        keys_distinct(entries.remove(i)),
        entries_map(entries.remove(i)) == entries_map(entries).remove(entries[i].0),
    decreases entries.len(),
{
    let rest = entries.remove(i);
    assert forall|a: int, b: int| 0 <= a < b < rest.len() implies rest[a].0 != rest[b].0 by {
        let a0 = if a < i {
            a
        } else {
            a + 1
        };
        let b0 = if b < i {
            b
        } else {
            b + 1
        };
        assert(rest[a] == entries[a0] && rest[b] == entries[b0]);
    }
    let earlier = entries.drop_last();
    if i == entries.len() - 1 {
        assert(rest == earlier);
        lemma_map_keys(earlier, entries[i].0);
        if has_key(earlier, entries[i].0) {
            let j = choose|j: int| 0 <= j < earlier.len() && earlier[j].0 == entries[i].0;
            assert(earlier[j] == entries[j]);
        }
        assert(entries_map(earlier) == entries_map(entries).remove(entries[i].0));
    } else {
        assert forall|a: int, b: int| 0 <= a < b < earlier.len() implies earlier[a].0
            != earlier[b].0 by {
            assert(earlier[a] == entries[a] && earlier[b] == entries[b]);
        }
        lemma_map_remove(earlier, i);
        assert(rest.drop_last() == earlier.remove(i));
        assert(rest.last() == entries.last());
        assert(earlier[i] == entries[i]);
        assert(entries[i].0 != entries[entries.len() - 1].0);
        assert(entries_map(rest) == entries_map(entries).remove(entries[i].0));
    }
}

/// A finite map from 32-byte identifiers to values, which keeps its entries in
/// the order in which they were last put in.
pub struct IdMap<V> {
    entries: Vec<([u8; 32], V)>,
}

impl<V> View for IdMap<V> {
    type V = Map<[u8; 32], V>;

    closed spec fn view(&self) -> Map<[u8; 32], V> {
        entries_map(self.entries@)
    }
}

impl<V> IdMap<V> {
    /// The entries of the map, in order.
    pub closed spec fn entries(&self) -> Seq<([u8; 32], V)> {
        self.entries@
    }

    /// No key occurs twice among the entries.
    pub closed spec fn wf(&self) -> bool {
        keys_distinct(self.entries@)
    }

    /// The view of the map is the map of its entries, which have distinct keys.
    pub proof fn lemma_entries(&self)
        requires
            self.wf(),
        ensures
            self@ == entries_map(self.entries()),
            keys_distinct(self.entries()),
            forall|key: [u8; 32]| self@.contains_key(key) <==> has_key(self.entries(), key),
            forall|i: int|
                0 <= i < self.entries().len() ==> self@.contains_key(
                    (#[trigger] self.entries()[i]).0,
                ) && self@[self.entries()[i].0] == self.entries()[i].1,
    {
        assert forall|key: [u8; 32]| self@.contains_key(key) <==> has_key(
            self.entries(),
            key,
        ) by {
            lemma_map_keys(self.entries@, key);
        }
        assert forall|i: int| 0 <= i < self.entries().len() implies self@.contains_key(
            (#[trigger] self.entries()[i]).0,
        ) && self@[self.entries()[i].0] == self.entries()[i].1 by {
            lemma_map_value(self.entries@, i);
        }
    }

    pub fn new() -> (map: Self)
        ensures
            map.wf(),
            map@ == Map::<[u8; 32], V>::empty(),
            map.entries() == Seq::<([u8; 32], V)>::empty(),
    {
        IdMap { entries: Vec::new() }
    }

    pub fn len(&self) -> (len: usize)
        ensures
            len == self.entries().len(),
    {
        self.entries.len()
    }

    /// The key of the entry at `index`.
    pub fn key_at(&self, index: usize) -> (key: [u8; 32])
        requires
            index < self.entries().len(),
        ensures
            key == self.entries()[index as int].0,
    {
        self.entries[index].0
    }

    /// The value of the entry at `index`.
    pub fn value_at(&self, index: usize) -> (value: &V)
        requires
            index < self.entries().len(),
        ensures
            *value == self.entries()[index as int].1,
    {
        &self.entries[index].1
    }

    /// The place of the entry under `key`.
    pub fn position(&self, key: &[u8; 32]) -> (place: Option<usize>)
        ensures
            match place {
                Some(index) => index < self.entries().len() && self.entries()[index as int].0
                    == *key,
                None => !has_key(self.entries(), *key),
            },
    {
        let mut i: usize = 0;
        while i < self.entries.len()
            invariant
                i <= self.entries.len(),
                forall|j: int| 0 <= j < i ==> self.entries[j].0 != *key,
            decreases self.entries.len() - i,
        {
            if bytes32_eq(&self.entries[i].0, key) {
                return Some(i);
            }
            i = i + 1;
        }
        None
    }

    pub fn contains_key(&self, key: &[u8; 32]) -> (found: bool)
        ensures
            found == self@.contains_key(*key),
    {
        proof {
            lemma_map_keys(self.entries@, *key);
        }
        self.position(key).is_some()
    }

    pub fn get(&self, key: &[u8; 32]) -> (value: Option<&V>)
        requires
            self.wf(),
        ensures
            match value {
                Some(value) => self@.contains_key(*key) && *value == self@[*key],
                None => !self@.contains_key(*key),
            },
    {
        proof {
            lemma_map_keys(self.entries@, *key);
        }
        match self.position(key) {
            Some(index) => {
                proof {
                    lemma_map_value(self.entries@, index as int);
                }
                Some(&self.entries[index].1)
            },
            None => None,
        }
    }

    /// Puts `value` under `key` and returns the value that was there.
    pub fn insert(&mut self, key: [u8; 32], value: V) -> (previous: Option<V>)
        requires
            old(self).wf(),
        ensures
            final(self).wf(),
            final(self)@ == old(self)@.insert(key, value),
            match previous {
                Some(previous) => old(self)@.contains_key(key) && previous == old(self)@[key],
                None => !old(self)@.contains_key(key) && final(self).entries() == old(
                    self,
                ).entries().push((key, value)),
            },
    {
        let previous = self.remove(&key);
        proof {
            lemma_map_keys(self.entries@, key);
            assert(self.entries@.push((key, value)).drop_last() == self.entries@);
            assert forall|i: int, j: int|
                0 <= i < j < self.entries@.push((key, value)).len() implies self.entries@.push(
                (key, value),
            )[i].0 != self.entries@.push((key, value))[j].0 by {
                if j == self.entries@.len() {
                    assert(self.entries@[i].0 != key);
                }
            }
            assert(old(self)@.remove(key).insert(key, value) == old(self)@.insert(key, value));
        }
        self.entries.push((key, value));
        previous
    }

    /// Takes the entry under `key` out and returns its value.
    pub fn remove(&mut self, key: &[u8; 32]) -> (previous: Option<V>)
        requires
            old(self).wf(),
        ensures
            final(self).wf(),
            final(self)@ == old(self)@.remove(*key),
            match previous {
                Some(previous) => old(self)@.contains_key(*key) && previous == old(self)@[*key],
                None => !old(self)@.contains_key(*key) && final(self).entries() == old(
                    self,
                ).entries(),
            },
    {
        proof {
            lemma_map_keys(self.entries@, *key);
        }
        match self.position(key) {
            Some(index) => {
                proof {
                    lemma_map_value(self.entries@, index as int);
                    lemma_map_remove(self.entries@, index as int);
                }
                let entry = self.entries.remove(index);
                Some(entry.1)
            },
            None => {
                assert(old(self)@.remove(*key) == old(self)@);
                None
            },
        }
    }
}

/// A finite set of 32-byte identifiers.
pub struct IdSet {
    members: IdMap<()>,
}

impl View for IdSet {
    type V = Set<[u8; 32]>;

    closed spec fn view(&self) -> Set<[u8; 32]> {
        self.members@.dom()
    }
}

impl IdSet {
    /// No identifier is held twice.
    pub closed spec fn wf(&self) -> bool {
        self.members.wf()
    }

    pub fn new() -> (set: Self)
        ensures
            set.wf(),
            set@ == Set::<[u8; 32]>::empty(),
    {
        IdSet { members: IdMap::new() }
    }

    pub fn len(&self) -> (len: usize)
        requires
            self.wf(),
        ensures
            len == self@.len(),
    {
        proof {
            self.lemma_len();
        }
        self.members.len()
    }

    proof fn lemma_len(&self)
        requires
            self.wf(),
        ensures
            self@.finite(),
            self@.len() == self.members.entries().len(),
    {
        self.members.lemma_entries();
        lemma_entries_dom_len(self.members.entries());
    }

    pub fn contains(&self, id: &[u8; 32]) -> (found: bool)
        ensures
            found == self@.contains(*id),
    {
        self.members.contains_key(id)
    }

    /// Adds `id` and says whether it was new.
    pub fn insert(&mut self, id: [u8; 32]) -> (fresh: bool)
        requires
            old(self).wf(),
        ensures
            final(self).wf(),
            final(self)@ == old(self)@.insert(id),
            fresh == !old(self)@.contains(id),
    {
        if self.members.contains_key(&id) {
            assert(old(self)@.insert(id) == old(self)@);
            false
        } else {
            self.members.insert(id, ());
            assert(self@ == old(self)@.insert(id));
            true
        }
    }
}

/// A list of entries with distinct keys stands for a map with as many keys.
pub proof fn lemma_entries_dom_len<V>(entries: Seq<([u8; 32], V)>)
    requires
        keys_distinct(entries),
    ensures
        entries_map(entries).dom().finite(),
        entries_map(entries).dom().len() == entries.len(),
    decreases entries.len(),
{
    if entries.len() > 0 {
        let earlier = entries.drop_last();
        assert forall|a: int, b: int| 0 <= a < b < earlier.len() implies earlier[a].0
            != earlier[b].0 by {
            assert(earlier[a] == entries[a] && earlier[b] == entries[b]);
        }
        lemma_entries_dom_len(earlier);
        lemma_map_keys(earlier, entries.last().0);
        if has_key(earlier, entries.last().0) {
            let j = choose|j: int| 0 <= j < earlier.len() && earlier[j].0 == entries.last().0;
            assert(earlier[j] == entries[j]);
        }
        assert(entries_map(entries).dom() == entries_map(earlier).dom().insert(entries.last().0));
    }
}

} // verus!
