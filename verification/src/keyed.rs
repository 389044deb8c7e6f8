//! A map from strings.

use crate::text::{starts_with, str_eq};
use vstd::prelude::*;
use vstd::string::*;

verus! {

/// A map from strings to values.
pub struct KeyedMap<V> {
    entries: Vec<(String, V)>,
}

/// Whether the entry at `i` is that of `key`.
spec fn entry_at<V>(entries: Seq<(String, V)>, key: Seq<char>, i: int) -> bool {
    0 <= i < entries.len() && entries[i].0@ == key
}

spec fn has_entry<V>(entries: Seq<(String, V)>, key: Seq<char>) -> bool {
    exists|i: int| entry_at(entries, key, i)
}

/// The map that a list of entries stands for.
spec fn entries_map<V>(entries: Seq<(String, V)>) -> Map<Seq<char>, V> {
    Map::new(
        |key: Seq<char>| has_entry(entries, key),
        |key: Seq<char>| entries[choose|i: int| entry_at(entries, key, i)].1,
    )
}

spec fn distinct<V>(entries: Seq<(String, V)>) -> bool {
    forall|i: int, j: int|
        0 <= i < j < entries.len() ==> (#[trigger] entries[i]).0@ != (#[trigger] entries[j]).0@
}

/// The part of a map that lies outside a prefix.
pub open spec fn without_prefix<V>(map: Map<Seq<char>, V>, prefix: Seq<char>) -> Map<Seq<char>, V> {
    Map::new(
        |key: Seq<char>| map.contains_key(key) && !prefix.is_prefix_of(key),
        |key: Seq<char>| map[key],
    )
}

/// The keys that begin with a prefix.
pub open spec fn keys_under<V>(map: Map<Seq<char>, V>, prefix: Seq<char>) -> Set<Seq<char>> {
    Set::new(|key: Seq<char>| map.contains_key(key) && prefix.is_prefix_of(key))
}

proof fn lemma_entry<V>(entries: Seq<(String, V)>, key: Seq<char>, i: int)
    requires
        distinct(entries),
        entry_at(entries, key, i),
    ensures
        entries_map(entries).contains_key(key),
        entries_map(entries)[key] == entries[i].1,
{
    let j = choose|j: int| entry_at(entries, key, j);
    assert(entry_at(entries, key, j));
    if i < j {
        assert(entries[i].0@ != entries[j].0@);
    } else if j < i {
        assert(entries[j].0@ != entries[i].0@);
    }
}

proof fn lemma_push<V>(entries: Seq<(String, V)>, key: String, value: V)
    requires
        distinct(entries),
        !has_entry(entries, key@),
    ensures
        distinct(entries.push((key, value))),
        entries_map(entries.push((key, value))) == entries_map(entries).insert(key@, value),
{
    let more = entries.push((key, value));
    assert(distinct(more)) by {
        assert forall|i: int, j: int| 0 <= i < j < more.len() implies (#[trigger] more[i]).0@ != (
        #[trigger] more[j]).0@ by {
            assert(more[i] == entries[i]);
            if j == entries.len() {
                assert(!entry_at(entries, key@, i));
            }
        }
    }
    assert forall|k: Seq<char>| #[trigger] entries_map(more).contains_key(k) == entries_map(
        entries,
    ).insert(key@, value).contains_key(k) by {
        if has_entry(entries, k) {
            let i = choose|i: int| entry_at(entries, k, i);
            assert(entry_at(more, k, i));
        }
        if k == key@ {
            assert(entry_at(more, k, entries.len() as int));
        }
        if has_entry(more, k) && k != key@ {
            let i = choose|i: int| entry_at(more, k, i);
            assert(entry_at(entries, k, i));
        }
    }
    assert forall|k: Seq<char>| entries_map(more).contains_key(k) implies #[trigger] entries_map(
        more,
    )[k] == entries_map(entries).insert(key@, value)[k] by {
        let i = choose|i: int| entry_at(more, k, i);
        assert(entry_at(more, k, i));
        lemma_entry(more, k, i);
        if k != key@ {
            assert(entry_at(entries, k, i));
            lemma_entry(entries, k, i);
        }
    }
    assert(entries_map(more) =~= entries_map(entries).insert(key@, value));
}

proof fn lemma_remove<V>(entries: Seq<(String, V)>, i: int)
    requires
        distinct(entries),
        0 <= i < entries.len(),
    ensures
        distinct(entries.remove(i)),
        entries_map(entries.remove(i)) == entries_map(entries).remove(entries[i].0@),
        !has_entry(entries.remove(i), entries[i].0@),
{
    let rest = entries.remove(i);
    let key = entries[i].0@;
    assert forall|a: int, b: int| 0 <= a < b < rest.len() implies (#[trigger] rest[a]).0@ != (
    #[trigger] rest[b]).0@ by {
        let a2 = if a < i {
            a
        } else {
            a + 1
        };
        let b2 = if b < i {
            b
        } else {
            b + 1
        };
        assert(rest[a] == entries[a2]);
        assert(rest[b] == entries[b2]);
    }
    assert forall|k: Seq<char>| #[trigger] entries_map(rest).contains_key(k) == entries_map(
        entries,
    ).remove(key).contains_key(k) by {
        if has_entry(rest, k) {
            let j = choose|j: int| entry_at(rest, k, j);
            let j2 = if j < i {
                j
            } else {
                j + 1
            };
            assert(rest[j] == entries[j2]);
            assert(entry_at(entries, k, j2));
            assert(entries[j2].0@ != entries[i].0@);
        }
        if has_entry(entries, k) && k != key {
            let j = choose|j: int| entry_at(entries, k, j);
            let j2 = if j < i {
                j
            } else {
                j - 1
            };
            assert(rest[j2] == entries[j]);
            assert(entry_at(rest, k, j2));
        }
    }
    assert forall|k: Seq<char>| entries_map(rest).contains_key(k) implies #[trigger] entries_map(
        rest,
    )[k] == entries_map(entries).remove(key)[k] by {
        let j = choose|j: int| entry_at(rest, k, j);
        let j2 = if j < i {
            j
        } else {
            j + 1
        };
        assert(entry_at(rest, k, j));
        assert(rest[j] == entries[j2]);
        assert(entry_at(entries, k, j2));
        lemma_entry(rest, k, j);
        lemma_entry(entries, k, j2);
    }
    assert(entries_map(rest) =~= entries_map(entries).remove(key));
    assert(!entries_map(rest).contains_key(key));
}

impl<V> View for KeyedMap<V> {
    type V = Map<Seq<char>, V>;

    closed spec fn view(&self) -> Map<Seq<char>, V> {
        entries_map(self.entries@)
    }
}

impl<V> KeyedMap<V> {
    #[verifier::type_invariant]
    spec fn inv(self) -> bool {
        distinct(self.entries@)
    }

    /// The empty map.
    pub fn new() -> (map: KeyedMap<V>)
        ensures
            map@ == Map::<Seq<char>, V>::empty(),
    {
        let map = KeyedMap { entries: Vec::new() };
        assert(map@ =~= Map::<Seq<char>, V>::empty());
        map
    }

    /// Where the entry of a key stands.
    fn position(&self, key: &str) -> (res: Option<usize>)
        ensures
            match res {
                Some(i) => entry_at(self.entries@, key@, i as int),
                None => !has_entry(self.entries@, key@),
            },
    {
        let mut i: usize = 0;
        while i < self.entries.len()
            invariant
                i <= self.entries@.len(),
                forall|k: int| 0 <= k < i ==> !entry_at(self.entries@, key@, k),
            decreases self.entries@.len() - i,
        {
            if str_eq(self.entries[i].0.as_str(), key) {
                return Some(i);
            }
            i += 1;
        }
        None
    }

    /// The value of a key.
    pub fn get(&self, key: &str) -> (res: Option<&V>)
        ensures
            match res {
                Some(value) => self@.contains_key(key@) && self@[key@] == *value,
                None => !self@.contains_key(key@),
            },
    {
        match self.position(key) {
            Some(i) => {
                proof {
                    use_type_invariant(self);
                    lemma_entry(self.entries@, key@, i as int);
                }
                Some(&self.entries[i].1)
            },
            None => None,
        }
    }

    /// Takes a key and its value out.
    pub fn remove(&mut self, key: &str) -> (res: Option<V>)
        ensures
            final(self)@ == old(self)@.remove(key@),
            match res {
                Some(value) => old(self)@.contains_key(key@) && old(self)@[key@] == value,
                None => !old(self)@.contains_key(key@),
            },
    {
        match self.position(key) {
            Some(i) => {
                proof {
                    use_type_invariant(&*self);
                    lemma_entry(self.entries@, key@, i as int);
                    lemma_remove(self.entries@, i as int);
                }
                let mut entries: Vec<(String, V)> = Vec::new();
                std::mem::swap(&mut entries, &mut self.entries);
                let (_, value) = entries.remove(i);
                self.entries = entries;
                Some(value)
            },
            None => {
                assert(self@.remove(key@) =~= self@);
                None
            },
        }
    }

    /// Gives a key a value.
    pub fn insert(&mut self, key: &str, value: V)
        ensures
            final(self)@ == old(self)@.insert(key@, value),
    {
        let _ = self.remove(key);
        let owned = key.to_owned();
        proof {
            use_type_invariant(&*self);
            assert(!self@.contains_key(key@));
            lemma_push(self.entries@, owned, value);
        }
        let mut entries: Vec<(String, V)> = Vec::new();
        std::mem::swap(&mut entries, &mut self.entries);
        entries.push((owned, value));
        self.entries = entries;
        assert(self@ =~= old(self)@.insert(key@, value));
    }

    /// Takes out every key that begins with a prefix.
    pub fn remove_prefix(&mut self, prefix: &str)
        ensures
            final(self)@ == without_prefix(old(self)@, prefix@),
    {
        proof {
            use_type_invariant(&*self);
        }
        let ghost before = self.entries@;
        let mut rest: Vec<(String, V)> = Vec::new();
        std::mem::swap(&mut rest, &mut self.entries);
        let mut kept: KeyedMap<V> = KeyedMap::new();
        while rest.len() > 0
            invariant
                distinct(before),
                rest@ == before.take(rest@.len() as int),
                rest@.len() <= before.len(),
                kept@.dom() =~= Set::new(
                    |key: Seq<char>|
                        exists|i: int|
                            rest@.len() <= i && entry_at(before, key, i) && !prefix@.is_prefix_of(
                                key,
                            ),
                ),
                forall|i: int|
                    rest@.len() <= i < before.len() && !prefix@.is_prefix_of(before[i].0@)
                        ==> kept@[(#[trigger] before[i]).0@] == before[i].1,
            decreases rest@.len(),
        {
            let ghost n = rest@.len() - 1;
            let ghost kept0 = kept@;
            if let Some((key, value)) = rest.pop() {
                assert(before[n] == (key, value));
                let under = starts_with(key.as_str(), prefix);
                if !under {
                    kept.insert(key.as_str(), value);
                }
                assert forall|k: Seq<char>| kept@.dom().contains(k) == (exists|i: int|
                    n <= i && entry_at(before, k, i) && !prefix@.is_prefix_of(k)) by {
                    if kept0.dom().contains(k) {
                        let i = choose|i: int|
                            n + 1 <= i && entry_at(before, k, i) && !prefix@.is_prefix_of(k);
                        assert(n <= i && entry_at(before, k, i));
                    }
                    if k == key@ {
                        assert(entry_at(before, k, n));
                    }
                }
            }
        }
        proof {
            assert forall|k: Seq<char>| #[trigger] kept@.dom().contains(k) == without_prefix(
                entries_map(before),
                prefix@,
            ).dom().contains(k) by {
                if without_prefix(entries_map(before), prefix@).dom().contains(k) {
                    let i = choose|i: int| entry_at(before, k, i);
                    assert(0 <= i && entry_at(before, k, i) && !prefix@.is_prefix_of(k));
                }
            }
            assert forall|k: Seq<char>| kept@.dom().contains(k) implies #[trigger] kept@[k]
                == without_prefix(entries_map(before), prefix@)[k] by {
                let i = choose|i: int|
                    0 <= i && entry_at(before, k, i) && !prefix@.is_prefix_of(k);
                assert(kept@[before[i].0@] == before[i].1);
                lemma_entry(before, k, i);
            }
            assert(kept@ =~= without_prefix(entries_map(before), prefix@));
        }
        *self = kept;
    }

    /// The keys that begin with a prefix, each once.
    pub fn keys_with_prefix(&self, prefix: &str) -> (keys: Vec<String>)
        ensures
            keys.deep_view().no_duplicates(),
            keys.deep_view().to_set() == keys_under(self@, prefix@),
    {
        proof {
            use_type_invariant(self);
        }
        let ghost entries = self.entries@;
        let mut keys: Vec<String> = Vec::new();
        let mut i: usize = 0;
        while i < self.entries.len()
            invariant
                entries == self.entries@,
                distinct(entries),
                i <= entries.len(),
                keys.deep_view().no_duplicates(),
                forall|k: Seq<char>| #[trigger]
                    keys.deep_view().contains(k) == (exists|j: int|
                        0 <= j < i && entry_at(entries, k, j) && prefix@.is_prefix_of(k)),
            decreases entries.len() - i,
        {
            let ghost before = keys.deep_view();
            if starts_with(self.entries[i].0.as_str(), prefix) {
                let key = self.entries[i].0.clone();
                proof {
                    if before.contains(key@) {
                        let j = choose|j: int|
                            0 <= j < i && entry_at(entries, key@, j) && prefix@.is_prefix_of(key@);
                        assert(entries[j].0@ != entries[i as int].0@);
                    }
                }
                keys.push(key);
                assert(keys.deep_view() =~= before.push(key@));
                assert(keys.deep_view()[before.len() as int] == key@);
                assert(entry_at(entries, key@, i as int));
            }
            assert forall|k: Seq<char>| #[trigger] keys.deep_view().contains(k) == (exists|j: int|
                0 <= j < i + 1 && entry_at(entries, k, j) && prefix@.is_prefix_of(k)) by {
                if before.contains(k) {
                    let j = choose|j: int|
                        0 <= j < i && entry_at(entries, k, j) && prefix@.is_prefix_of(k);
                    assert(0 <= j < i + 1 && entry_at(entries, k, j));
                    let m = choose|m: int| 0 <= m < before.len() && before[m] == k;
                    assert(keys.deep_view()[m] == k);
                }
                if exists|j: int|
                    0 <= j < i + 1 && entry_at(entries, k, j) && prefix@.is_prefix_of(k) {
                    let j = choose|j: int|
                        0 <= j < i + 1 && entry_at(entries, k, j) && prefix@.is_prefix_of(k);
                    if j < i {
                        assert(before.contains(k));
                    }
                }
            }
            i += 1;
        }
        assert forall|k: Seq<char>| keys.deep_view().to_set().contains(k) == keys_under(
            self@,
            prefix@,
        ).contains(k) by {
            if keys_under(self@, prefix@).contains(k) {
                let j = choose|j: int| entry_at(entries, k, j);
                assert(0 <= j < i && entry_at(entries, k, j) && prefix@.is_prefix_of(k));
                assert(keys.deep_view().contains(k));
            }
            if keys.deep_view().contains(k) {
                let j = choose|j: int|
                    0 <= j < i && entry_at(entries, k, j) && prefix@.is_prefix_of(k);
                assert(entry_at(entries, k, j));
            }
        }
        assert(keys.deep_view().to_set() =~= keys_under(self@, prefix@));
        keys
    }
}

} // verus!
