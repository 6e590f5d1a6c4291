//! Maps from 32-byte identifiers and from names, kept as lists without
//! duplicate keys.
use crate::bytes::bytes32_eq;
use crate::text::str_eq;
use vstd::prelude::*;

verus! {

/// No key occurs twice.
pub open spec fn keys_distinct<K, V>(entries: Seq<(K, V)>) -> bool {
    forall|i: int, j: int|
        0 <= i < j < entries.len() ==> (#[trigger] entries[i]).0 != (#[trigger] entries[j]).0
}

/// `key` occurs at `i`.
pub open spec fn key_at<K, V>(entries: Seq<(K, V)>, key: K, i: int) -> bool {
    0 <= i < entries.len() && entries[i].0 == key
}

/// The map that a list of entries with distinct keys stands for.
pub open spec fn map_of<K, V>(entries: Seq<(K, V)>) -> Map<K, V> {
    Map::new(
        |key: K| exists|i: int| key_at(entries, key, i),
        |key: K| entries[choose|i: int| key_at(entries, key, i)].1,
    )
}

/// The map holds every entry of the list.
pub proof fn lemma_map_of_at<K, V>(entries: Seq<(K, V)>, i: int)
    requires
        keys_distinct(entries),
        0 <= i < entries.len(),
    ensures
        map_of(entries).dom().contains(entries[i].0),
        map_of(entries)[entries[i].0] == entries[i].1,
{
    let key = entries[i].0;
    assert(key_at(entries, key, i));
    let c = choose|c: int| key_at(entries, key, c);
    assert(key_at(entries, key, c));
    assert(c == i) by {
        if c < i {
            assert(entries[c].0 != entries[i].0);
        } else if i < c {
            assert(entries[i].0 != entries[c].0);
        }
    }
}

/// Adding an entry with a new key to the list adds it to the map.
pub proof fn lemma_push<K, V>(entries: Seq<(K, V)>, key: K, value: V)
    requires
        keys_distinct(entries),
        !map_of(entries).dom().contains(key),
    ensures
        keys_distinct(entries.push((key, value))),
        map_of(entries.push((key, value))) == map_of(entries).insert(key, value),
{
    let after = entries.push((key, value));
    assert forall|i: int| 0 <= i < entries.len() implies (#[trigger] entries[i]).0 != key by {
        assert(!key_at(entries, key, i));
    }
    assert(keys_distinct(after));
    lemma_map_of_at(after, entries.len() as int);
    assert forall|k: K| map_of(after).dom().contains(k) <==> map_of(entries).insert(
        key,
        value,
    ).dom().contains(k) by {
        if map_of(after).dom().contains(k) {
            let i = choose|i: int| key_at(after, k, i);
            if i < entries.len() {
                assert(key_at(entries, k, i));
            }
        }
        if map_of(entries).dom().contains(k) {
            let i = choose|i: int| key_at(entries, k, i);
            assert(key_at(after, k, i));
        }
    }
    assert forall|k: K| map_of(after).dom().contains(k) implies map_of(after)[k] == map_of(
        entries,
    ).insert(key, value)[k] by {
        let i = choose|i: int| key_at(after, k, i);
        lemma_map_of_at(after, i);
        if i < entries.len() {
            lemma_map_of_at(entries, i);
        }
    }
    assert(map_of(after) =~= map_of(entries).insert(key, value));
}

proof fn lemma_update<K, V>(entries: Seq<(K, V)>, at: int, value: V)
    requires
        keys_distinct(entries),
        0 <= at < entries.len(),
    ensures
        keys_distinct(entries.update(at, (entries[at].0, value))),
        map_of(entries.update(at, (entries[at].0, value))) == map_of(entries).insert(
            entries[at].0,
            value,
        ),
{
    let key = entries[at].0;
    let after = entries.update(at, (key, value));
    assert(forall|i: int| 0 <= i < after.len() ==> (#[trigger] after[i]).0 == entries[i].0);
    assert(keys_distinct(after));
    assert forall|k: K| map_of(after).dom().contains(k) <==> map_of(entries).dom().contains(k) by {
        if map_of(after).dom().contains(k) {
            let i = choose|i: int| key_at(after, k, i);
            assert(key_at(entries, k, i));
        }
        if map_of(entries).dom().contains(k) {
            let i = choose|i: int| key_at(entries, k, i);
            assert(key_at(after, k, i));
        }
    }
    lemma_map_of_at(entries, at);
    assert forall|k: K| map_of(after).dom().contains(k) implies map_of(after)[k] == map_of(
        entries,
    ).insert(key, value)[k] by {
        let i = choose|i: int| key_at(after, k, i);
        lemma_map_of_at(after, i);
        lemma_map_of_at(entries, i);
    }
    assert(map_of(after) =~= map_of(entries).insert(key, value));
}

proof fn lemma_remove<K, V>(entries: Seq<(K, V)>, at: int)
    requires
        keys_distinct(entries),
        0 <= at < entries.len(),
    ensures
        keys_distinct(entries.remove(at)),
        map_of(entries.remove(at)) == map_of(entries).remove(entries[at].0),
{
    let key = entries[at].0;
    let after = entries.remove(at);
    assert(forall|i: int|
        0 <= i < after.len() ==> #[trigger] after[i] == entries[if i < at {
            i
        } else {
            i + 1
        }]);
    assert(keys_distinct(after));
    assert forall|k: K| map_of(after).dom().contains(k) <==> map_of(entries).remove(
        key,
    ).dom().contains(k) by {
        if map_of(after).dom().contains(k) {
            let i = choose|i: int| key_at(after, k, i);
            let j = if i < at {
                i
            } else {
                i + 1
            };
            assert(key_at(entries, k, j));
            assert(entries[j].0 != entries[at].0);
        }
        if map_of(entries).remove(key).dom().contains(k) {
            let i = choose|i: int| key_at(entries, k, i);
            assert(i != at);
            assert(key_at(
                after,
                k,
                if i < at {
                    i
                } else {
                    i - 1
                },
            ));
        }
    }
    assert forall|k: K| map_of(after).dom().contains(k) implies map_of(after)[k] == map_of(
        entries,
    ).remove(key)[k] by {
        let i = choose|i: int| key_at(after, k, i);
        lemma_map_of_at(after, i);
        lemma_map_of_at(
            entries,
            if i < at {
                i
            } else {
                i + 1
            },
        );
    }
    assert(map_of(after) =~= map_of(entries).remove(key));
}

proof fn lemma_len<K, V>(entries: Seq<(K, V)>)
    requires
        keys_distinct(entries),
    ensures
        map_of(entries).dom().finite(),
        map_of(entries).len() == entries.len(),
    decreases entries.len(),
{
    if entries.len() == 0 {
        assert(map_of(entries).dom() =~= Set::empty());
    } else {
        let before = entries.drop_last();
        let last = entries.last();
        lemma_len(before);
        assert(before.push(last) =~= entries);
        assert(!map_of(before).dom().contains(last.0)) by {
            if map_of(before).dom().contains(last.0) {
                let i = choose|i: int| key_at(before, last.0, i);
                assert(entries[i].0 != entries[entries.len() - 1].0);
            }
        }
        lemma_push(before, last.0, last.1);
        assert(map_of(entries).dom() =~= map_of(before).dom().insert(last.0));
    }
}

/// A map from 32-byte identifiers.
#[derive(Debug)]
pub struct IdMap<V> {
    entries: Vec<([u8; 32], V)>,
}

impl<V> View for IdMap<V> {
    type V = Map<[u8; 32], V>;

    closed spec fn view(&self) -> Map<[u8; 32], V> {
        map_of(self.entries@)
    }
}

impl<V> IdMap<V> {
    /// No key occurs twice.
    pub closed spec fn wf(self) -> bool {
        keys_distinct(self.entries@)
    }

    /// The empty map.
    pub fn new() -> (map: Self)
        ensures
            map.wf(),
            map@ == Map::<[u8; 32], V>::empty(),
    {
        let map = IdMap { entries: Vec::new() };
        assert(map@ =~= Map::<[u8; 32], V>::empty());
        map
    }

    fn position(&self, key: &[u8; 32]) -> (r: Option<usize>)
        requires
            self.wf(),
        ensures
            r is Some <==> self@.dom().contains(*key),
            r matches Some(i) ==> i < self.entries@.len() && self.entries@[i as int].0 == *key
                && self@[*key] == self.entries@[i as int].1,
    {
        let mut i: usize = 0;
        while i < self.entries.len()
            invariant
                keys_distinct(self.entries@),
                i <= self.entries.len(),
                forall|j: int| 0 <= j < i ==> (#[trigger] self.entries@[j]).0 != *key,
            decreases self.entries.len() - i,
        {
            if bytes32_eq(&self.entries[i].0, key) {
                proof {
                    lemma_map_of_at(self.entries@, i as int);
                }
                return Some(i);
            }
            i += 1;
        }
        assert forall|j: int| !key_at(self.entries@, *key, j) by {
            if 0 <= j < self.entries.len() {
                assert(self.entries@[j].0 != *key);
            }
        }
        None
    }

    /// Whether `key` has a value.
    pub fn contains_key(&self, key: &[u8; 32]) -> (r: bool)
        requires
            self.wf(),
        ensures
            r == self@.dom().contains(*key),
    {
        self.position(key).is_some()
    }

    /// The value of `key`.
    pub fn get(&self, key: &[u8; 32]) -> (r: Option<&V>)
        requires
            self.wf(),
        ensures
            r is Some <==> self@.dom().contains(*key),
            r matches Some(v) ==> *v == self@[*key],
    {
        match self.position(key) {
            Some(i) => Some(&self.entries[i].1),
            None => None,
        }
    }

    /// Give `key` the value `value`.
    pub fn insert(&mut self, key: [u8; 32], value: V)
        requires
            old(self).wf(),
        ensures
            final(self).wf(),
            final(self)@ == old(self)@.insert(key, value),
    {
        match self.position(&key) {
            Some(i) => {
                proof {
                    lemma_update(self.entries@, i as int, value);
                }
                self.entries.set(i, (key, value));
            },
            None => {
                proof {
                    lemma_push(self.entries@, key, value);
                }
                self.entries.push((key, value));
            },
        }
    }

    /// Take the value of `key` out of the map.
    pub fn remove(&mut self, key: &[u8; 32]) -> (r: Option<V>)
        requires
            old(self).wf(),
        ensures
            final(self).wf(),
            final(self)@ == old(self)@.remove(*key),
            r is Some <==> old(self)@.dom().contains(*key),
            r matches Some(v) ==> v == old(self)@[*key],
    {
        match self.position(key) {
            Some(i) => {
                proof {
                    lemma_remove(self.entries@, i as int);
                }
                let removed = self.entries.remove(i);
                Some(removed.1)
            },
            None => {
                assert(self@.remove(*key) =~= self@);
                None
            },
        }
    }

    /// The number of keys.
    pub fn len(&self) -> (n: usize)
        requires
            self.wf(),
        ensures
            self@.dom().finite(),
            n == self@.len(),
    {
        proof {
            lemma_len(self.entries@);
        }
        self.entries.len()
    }

    /// All keys with their values; no key occurs twice.
    pub fn entries(&self) -> (r: &Vec<([u8; 32], V)>)
        requires
            self.wf(),
        ensures
            keys_distinct(r@),
            map_of(r@) == self@,
    {
        &self.entries
    }
}

/// The entries of a list with each key taken by its characters.
pub open spec fn named<V>(entries: Seq<(String, V)>) -> Seq<(Seq<char>, V)> {
    entries.map_values(|e: (String, V)| (e.0@, e.1))
}

/// A map from names.
#[derive(Debug)]
pub struct NameMap<V> {
    entries: Vec<(String, V)>,
}

impl<V> View for NameMap<V> {
    type V = Map<Seq<char>, V>;

    closed spec fn view(&self) -> Map<Seq<char>, V> {
        map_of(named(self.entries@))
    }
}

impl<V> NameMap<V> {
    /// No key occurs twice.
    pub closed spec fn wf(self) -> bool {
        keys_distinct(named(self.entries@))
    }

    /// The empty map.
    pub fn new() -> (map: Self)
        ensures
            map.wf(),
            map@ == Map::<Seq<char>, V>::empty(),
    {
        let map = NameMap { entries: Vec::new() };
        assert(map@ =~= Map::<Seq<char>, V>::empty());
        map
    }

    fn position(&self, key: &str) -> (r: Option<usize>)
        requires
            self.wf(),
        ensures
            r is Some <==> self@.dom().contains(key@),
            r matches Some(i) ==> i < self.entries@.len() && self.entries@[i as int].0@ == key@
                && self@[key@] == self.entries@[i as int].1,
    {
        let mut i: usize = 0;
        while i < self.entries.len()
            invariant
                keys_distinct(named(self.entries@)),
                i <= self.entries.len(),
                forall|j: int| 0 <= j < i ==> (#[trigger] self.entries@[j]).0@ != key@,
            decreases self.entries.len() - i,
        {
            if str_eq(self.entries[i].0.as_str(), key) {
                proof {
                    lemma_map_of_at(named(self.entries@), i as int);
                }
                return Some(i);
            }
            i += 1;
        }
        assert forall|j: int| !key_at(named(self.entries@), key@, j) by {
            if 0 <= j < self.entries.len() {
                assert(self.entries@[j].0@ != key@);
            }
        }
        None
    }

    /// Whether `key` has a value.
    pub fn contains_key(&self, key: &str) -> (r: bool)
        requires
            self.wf(),
        ensures
            r == self@.dom().contains(key@),
    {
        self.position(key).is_some()
    }

    /// The value of `key`.
    pub fn get(&self, key: &str) -> (r: Option<&V>)
        requires
            self.wf(),
        ensures
            r is Some <==> self@.dom().contains(key@),
            r matches Some(v) ==> *v == self@[key@],
    {
        match self.position(key) {
            Some(i) => Some(&self.entries[i].1),
            None => None,
        }
    }

    /// Give `key` the value `value`.
    pub fn insert(&mut self, key: String, value: V)
        requires
            old(self).wf(),
        ensures
            final(self).wf(),
            final(self)@ == old(self)@.insert(key@, value),
    {
        match self.position(key.as_str()) {
            Some(i) => {
                proof {
                    lemma_update(named(self.entries@), i as int, value);
                    assert(named(self.entries@.update(i as int, (key, value))) =~= named(self.entries@).update(i as int, (key@, value)));
                }
                self.entries.set(i, (key, value));
            },
            None => {
                proof {
                    lemma_push(named(self.entries@), key@, value);
                    assert(named(self.entries@.push((key, value))) =~= named(self.entries@).push((key@, value)));
                }
                self.entries.push((key, value));
            },
        }
    }

    /// Take the value of `key` out of the map.
    pub fn remove(&mut self, key: &str) -> (r: Option<V>)
        requires
            old(self).wf(),
        ensures
            final(self).wf(),
            final(self)@ == old(self)@.remove(key@),
            r is Some <==> old(self)@.dom().contains(key@),
            r matches Some(v) ==> v == old(self)@[key@],
    {
        match self.position(key) {
            Some(i) => {
                proof {
                    lemma_remove(named(self.entries@), i as int);
                    assert(named(self.entries@.remove(i as int)) =~= named(self.entries@).remove(i as int));
                }
                let removed = self.entries.remove(i);
                Some(removed.1)
            },
            None => {
                assert(self@.remove(key@) =~= self@);
                None
            },
        }
    }

    /// The number of keys.
    pub fn len(&self) -> (n: usize)
        requires
            self.wf(),
        ensures
            self@.dom().finite(),
            n == self@.len(),
    {
        proof {
            lemma_len(named(self.entries@));
        }
        self.entries.len()
    }

    /// All keys with their values; no key occurs twice.
    pub fn entries(&self) -> (r: &Vec<(String, V)>)
        requires
            self.wf(),
        ensures
            keys_distinct(named(r@)),
            map_of(named(r@)) == self@,
    {
        &self.entries
    }
}

/// Keys are distinct exactly where no key occurs at two places.
pub proof fn distinct_keys_occur_once<K, V>(entries: Seq<(K, V)>, i: int, j: int)
    requires
        0 <= i < entries.len(),
        0 <= j < entries.len(),
        i != j,
        entries[i].0 == entries[j].0,
    ensures
        !keys_distinct(entries),
{
    if i < j {
        assert(entries[i].0 == entries[j].0);
    } else {
        assert(entries[j].0 == entries[i].0);
    }
}

} // verus!
