//! A small map kept as a list of entries in the order in which their keys
//! first came, for keys that are compared by content.

use vstd::prelude::*;

verus! {

/// A key that is compared by what it holds.
pub trait Key: View + Copy {
    /// Whether the two keys hold the same.
    fn same(&self, other: &Self) -> (same: bool)
        ensures
            same == (self@ == other@),
    ;
}

/// A map from keys to values in which no key occurs twice and the keys
/// stay in the order in which they were first inserted.
pub struct Table<K: Key, V> {
    entries: Vec<(K, V)>,
}

impl<K: Key, V> View for Table<K, V> {
    type V = Map<K::V, V>;

    closed spec fn view(&self) -> Map<K::V, V> {
        Map::new(
            |key: K::V| self.keys().contains(key),
            |key: K::V| self.entries@[self.position(key)].1,
        )
    }
}

impl<K: Key, V> Table<K, V> {
    /// The keys, in the order in which they were first inserted.
    pub closed spec fn keys(&self) -> Seq<K::V> {
        Seq::new(self.entries@.len(), |i: int| self.entries@[i].0@)
    }

    /// Where `key` stands among the keys.
    pub closed spec fn position(&self, key: K::V) -> int {
        choose|i: int| 0 <= i < self.entries@.len() && self.entries@[i].0@ == key
    }

    #[verifier::type_invariant]
    closed spec fn distinct(&self) -> bool {
        forall|i: int, j: int|
            0 <= i < j < self.entries@.len() ==> self.entries@[i].0@ != self.entries@[j].0@
    }

    /// The map holds exactly the keys of the list.
    pub proof fn lemma_keys(&self)
        ensures
            forall|key: K::V| self@.contains_key(key) <==> self.keys().contains(key),
            forall|i: int|
                0 <= i < self.keys().len() ==> self@.contains_key(#[trigger] self.keys()[i]),
    {
        assert forall|i: int| 0 <= i < self.keys().len() implies self@.contains_key(
            #[trigger] self.keys()[i],
        ) by {
            assert(self.keys().contains(self.keys()[i]));
        }
    }

    proof fn lemma_at(&self, i: int)
        requires
            self.distinct(),
            0 <= i < self.entries@.len(),
        ensures
            self.keys()[i] == self.entries@[i].0@,
            self@.contains_key(self.entries@[i].0@),
            self.position(self.entries@[i].0@) == i,
            self@[self.entries@[i].0@] == self.entries@[i].1,
    {
        let key = self.entries@[i].0@;
        assert(self.keys()[i] == key);
        assert(self.keys().contains(key));
    }

    proof fn lemma_absent(&self, key: K::V)
        requires
            forall|i: int| 0 <= i < self.entries@.len() ==> self.entries@[i].0@ != key,
        ensures
            !self@.contains_key(key),
            !self.keys().contains(key),
    {
        if self.keys().contains(key) {
            let i = choose|i: int| 0 <= i < self.keys().len() && self.keys()[i] == key;
            assert(self.entries@[i].0@ == key);
        }
    }

    /// An empty table.
    pub fn new() -> (table: Table<K, V>)
        ensures
            table@ == Map::<K::V, V>::empty(),
            table.keys() == Seq::<K::V>::empty(),
    {
        let table = Table { entries: Vec::new() };
        assert(table.keys() =~= Seq::<K::V>::empty());
        assert(table@ =~= Map::<K::V, V>::empty()) by {
            assert forall|key: K::V| !table@.contains_key(key) by {
                table.lemma_absent(key);
            }
        }
        table
    }

    /// How many keys the table holds.
    pub fn len(&self) -> (n: usize)
        ensures
            n == self.keys().len(),
            self.keys().no_duplicates(),
    {
        proof {
            use_type_invariant(self);
        }
        self.entries.len()
    }

    fn find(&self, key: &K) -> (at: Option<usize>)
        ensures
            match at {
                Some(i) => i < self.entries@.len() && self.entries@[i as int].0@ == key@
                    && self.keys()[i as int] == key@ && self@.contains_key(key@)
                    && self.position(key@) == i,
                None => !self@.contains_key(key@) && !self.keys().contains(key@) && forall|
                    i: int,
                | 0 <= i < self.entries@.len() ==> self.entries@[i].0@ != key@,
            },
    {
        proof {
            use_type_invariant(self);
        }
        let mut i: usize = 0;
        while i < self.entries.len()
            invariant
                self.distinct(),
                i <= self.entries@.len(),
                forall|j: int| 0 <= j < i ==> self.entries@[j].0@ != key@,
            decreases self.entries@.len() - i,
        {
            if self.entries[i].0.same(key) {
                proof {
                    self.lemma_at(i as int);
                }
                return Some(i);
            }
            i += 1;
        }
        proof {
            self.lemma_absent(key@);
        }
        None
    }

    /// Whether the table holds `key`.
    pub fn contains_key(&self, key: &K) -> (held: bool)
        ensures
            held == self@.contains_key(key@),
    {
        self.find(key).is_some()
    }

    /// The value at `key`, if the table holds the key.
    pub fn get(&self, key: &K) -> (value: Option<&V>)
        ensures
            match value {
                Some(v) => self@.contains_key(key@) && *v == self@[key@],
                None => !self@.contains_key(key@),
            },
    {
        proof {
            use_type_invariant(self);
        }
        match self.find(key) {
            Some(i) => {
                proof {
                    self.lemma_at(i as int);
                }
                Some(&self.entries[i].1)
            },
            None => None,
        }
    }

    /// The key and the value at place `i` of the list.
    pub fn entry_at(&self, i: usize) -> (entry: (&K, &V))
        requires
            i < self.keys().len(),
        ensures
            entry.0@ == self.keys()[i as int],
            self@.contains_key(entry.0@),
            *entry.1 == self@[entry.0@],
    {
        proof {
            use_type_invariant(self);
            self.lemma_at(i as int);
        }
        (&self.entries[i].0, &self.entries[i].1)
    }

    /// Puts `value` at `key`: in place where the table holds the key, at the
    /// end of the list where it does not. Returns what was there before.
    pub fn insert(&mut self, key: K, value: V) -> (before: Option<V>)
        ensures
            final(self)@ == old(self)@.insert(key@, value),
            old(self)@.contains_key(key@) ==> before == Some(old(self)@[key@]) && final(self).keys() == old(self).keys(),
            !old(self)@.contains_key(key@) ==> before.is_none() && final(self).keys() == old(self).keys().push(key@),
    {
        proof {
            use_type_invariant(&*self);
        }
        match self.find(&key) {
            Some(i) => {
                let mut entries: Vec<(K, V)> = Vec::new();
                core::mem::swap(&mut entries, &mut self.entries);
                let ghost was = entries@;
                let mut fresh = (key, value);
                let slot = &mut entries[i];
                core::mem::swap(slot, &mut fresh);
                self.entries = entries;
                proof {
                    assert(self.entries@ =~= was.update(i as int, (key, value)));
                    assert(self.keys() =~= old(self).keys());
                    assert forall|k: K::V| final(self)@.contains_key(k) <==> old(self)@.insert(
                        key@,
                        value,
                    ).contains_key(k) by {}
                    assert forall|k: K::V| final(self)@.contains_key(k) implies final(self)@[k]
                        == old(self)@.insert(key@, value)[k] by {
                        let j = choose|j: int| 0 <= j < self.keys().len() && self.keys()[j] == k;
                        self.lemma_at(j);
                        old(self).lemma_at(j);
                    }
                    assert(final(self)@ =~= old(self)@.insert(key@, value));
                    old(self).lemma_at(i as int);
                }
                Some(fresh.1)
            },
            None => {
                let mut entries: Vec<(K, V)> = Vec::new();
                core::mem::swap(&mut entries, &mut self.entries);
                entries.push((key, value));
                self.entries = entries;
                proof {
                    assert(self.entries@ =~= old(self).entries@.push((key, value)));
                    assert(self.keys() =~= old(self).keys().push(key@));
                    let last = old(self).entries@.len() as int;
                    assert forall|k: K::V| final(self)@.contains_key(k) <==> old(self)@.insert(
                        key@,
                        value,
                    ).contains_key(k) by {
                        if old(self).keys().contains(k) {
                            let j = choose|j: int|
                                0 <= j < old(self).keys().len() && old(self).keys()[j] == k;
                            assert(self.keys()[j] == k);
                        }
                        if k == key@ {
                            assert(self.keys()[last] == k);
                        }
                    }
                    assert forall|k: K::V| final(self)@.contains_key(k) implies final(self)@[k]
                        == old(self)@.insert(key@, value)[k] by {
                        let j = choose|j: int| 0 <= j < self.keys().len() && self.keys()[j] == k;
                        self.lemma_at(j);
                        if j < last {
                            old(self).lemma_at(j);
                        }
                    }
                    assert(final(self)@ =~= old(self)@.insert(key@, value));
                }
                None
            },
        }
    }

    /// Takes `key` and its value out of the table. Returns the value.
    pub fn remove(&mut self, key: &K) -> (before: Option<V>)
        ensures
            final(self)@ == old(self)@.remove(key@),
            final(self).keys() == old(self).keys().filter(|k: K::V| k != key@),
            old(self)@.contains_key(key@) ==> before == Some(old(self)@[key@]),
            !old(self)@.contains_key(key@) ==> before.is_none(),
    {
        proof {
            use_type_invariant(&*self);
        }
        match self.find(key) {
            Some(i) => {
                let mut entries: Vec<(K, V)> = Vec::new();
                core::mem::swap(&mut entries, &mut self.entries);
                let taken = entries.remove(i);
                self.entries = entries;
                proof {
                    old(self).lemma_at(i as int);
                    assert(self.entries@ =~= old(self).entries@.remove(i as int));
                    lemma_filter_out_one(old(self).keys(), i as int);
                    assert(self.keys() =~= old(self).keys().remove(i as int));
                    assert forall|k: K::V| final(self)@.contains_key(k) <==> old(self)@.remove(
                        key@,
                    ).contains_key(k) by {
                        if final(self).keys().contains(k) {
                            let j = choose|j: int|
                                0 <= j < self.keys().len() && self.keys()[j] == k;
                            let back = if j < i {
                                j
                            } else {
                                j + 1
                            };
                            assert(old(self).keys()[back] == k);
                        }
                        if old(self).keys().contains(k) && k != key@ {
                            let j = choose|j: int|
                                0 <= j < old(self).keys().len() && old(self).keys()[j] == k;
                            let to = if j < i {
                                j
                            } else {
                                j - 1
                            };
                            assert(self.keys()[to] == k);
                        }
                    }
                    assert forall|k: K::V| final(self)@.contains_key(k) implies final(self)@[k]
                        == old(self)@.remove(key@)[k] by {
                        let j = choose|j: int| 0 <= j < self.keys().len() && self.keys()[j] == k;
                        self.lemma_at(j);
                        let back = if j < i {
                            j
                        } else {
                            j + 1
                        };
                        old(self).lemma_at(back);
                    }
                    assert(final(self)@ =~= old(self)@.remove(key@));
                }
                Some(taken.1)
            },
            None => {
                proof {
                    lemma_filter_keeps_all(old(self).keys(), key@);
                    assert(final(self)@ =~= old(self)@.remove(key@));
                }
                None
            },
        }
    }
}

/// Filtering out a value that occurs once, at `i`, removes the item at `i`.
pub proof fn lemma_filter_out_one<A>(s: Seq<A>, i: int)
    requires
        0 <= i < s.len(),
        s.no_duplicates(),
    ensures
        s.filter(|a: A| a != s[i]) == s.remove(i),
    decreases s.len(),
{
    let gone = s[i];
    let keep = |a: A| a != gone;
    reveal(Seq::filter);
    if i == s.len() - 1 {
        assert(s.remove(i) =~= s.drop_last());
        lemma_filter_keeps_all(s.drop_last(), gone);
    } else {
        assert(s.drop_last()[i] == gone);
        lemma_filter_out_one(s.drop_last(), i);
        assert(s.drop_last().filter(keep) == s.drop_last().remove(i));
        assert(s.remove(i) =~= s.drop_last().remove(i).push(s.last()));
    }
}

/// Filtering out a value that does not occur changes nothing.
pub proof fn lemma_filter_keeps_all<A>(s: Seq<A>, gone: A)
    requires
        !s.contains(gone),
    ensures
        s.filter(|a: A| a != gone) == s,
    decreases s.len(),
{
    let keep = |a: A| a != gone;
    reveal(Seq::filter);
    if s.len() > 0 {
        assert(s.drop_last().len() < s.len());
        assert forall|j: int| 0 <= j < s.drop_last().len() implies s.drop_last()[j] != gone by {
            assert(s[j] == s.drop_last()[j]);
            assert(s.contains(s[j]));
        }
        assert(!s.drop_last().contains(gone));
        lemma_filter_keeps_all(s.drop_last(), gone);
        assert(s.contains(s.last()));
        assert(s.drop_last().push(s.last()) =~= s);
    } else {
        assert(s.filter(keep) =~= s);
    }
}

} // verus!
