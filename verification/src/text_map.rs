use vstd::prelude::*;
use vstd::string::*;

verus! {

/// A finite map keyed by text, kept as a list of entries in insertion order.
///
/// No two entries hold the same key, so the list stands for the mathematical
/// map that `view` gives. Keys are compared by their characters.
#[derive(Debug, Clone)]
pub struct TextMap<V> {
    entries: Vec<(String, V)>,
}

/// Whether position `i` of `entries` holds the key `key`.
pub open spec fn holds_key<V>(entries: Seq<(String, V)>, i: int, key: Seq<char>) -> bool {
    0 <= i < entries.len() && entries[i].0@ == key
}

/// Whether no key occurs at two positions of `entries`.
pub open spec fn distinct_keys<V>(entries: Seq<(String, V)>) -> bool {
    forall|i: int, j: int|
        0 <= i < j < entries.len() ==> #[trigger] entries[i].0@ != #[trigger] entries[j].0@
}

/// The map that a list of entries with distinct keys stands for.
pub open spec fn entries_map<V>(entries: Seq<(String, V)>) -> Map<Seq<char>, V> {
    Map::new(
        |k: Seq<char>| exists|i: int| holds_key(entries, i, k),
        |k: Seq<char>| entries[choose|i: int| holds_key(entries, i, k)].1,
    )
}

/// The sequence `s` without every occurrence of `k`.
pub open spec fn without(s: Seq<Seq<char>>, k: Seq<char>) -> Seq<Seq<char>> {
    s.filter(|q: Seq<char>| q != k)
}

/// The keys of `entries`, in order.
pub open spec fn entry_keys<V>(entries: Seq<(String, V)>) -> Seq<Seq<char>> {
    Seq::new(entries.len(), |i: int| entries[i].0@)
}

impl<V> View for TextMap<V> {
    type V = Map<Seq<char>, V>;

    closed spec fn view(&self) -> Map<Seq<char>, V> {
        entries_map(self.entries@)
    }
}

impl<V> TextMap<V> {
    /// Whether no key is stored twice. Every constructor gives a map for
    /// which this holds, and every method keeps it.
    pub closed spec fn wf(&self) -> bool {
        distinct_keys(self.entries@)
    }

    /// The keys in insertion order; each key of the map occurs exactly once.
    pub closed spec fn keys(&self) -> Seq<Seq<char>> {
        entry_keys(self.entries@)
    }

    /// The value stored at position `i` of the insertion order.
    pub closed spec fn value_at(&self, i: int) -> V {
        self.entries@[i].1
    }

    /// The empty map.
    pub fn new() -> (m: Self)
        ensures
            m.wf(),
            m@ == Map::<Seq<char>, V>::empty(),
            m.keys() == Seq::<Seq<char>>::empty(),
    {
        let m = TextMap { entries: Vec::new() };
        assert(m@ =~= Map::<Seq<char>, V>::empty());
        assert(m.keys() =~= Seq::<Seq<char>>::empty());
        m
    }

    /// The key order lists exactly the keys of the map, each once, and
    /// `value_at` agrees with the map.
    pub proof fn lemma_keys(&self)
        requires
            self.wf(),
        ensures
            self.keys().no_duplicates(),
            forall|k: Seq<char>| self@.contains_key(k) <==> self.keys().contains(k),
            forall|i: int|
                0 <= i < self.keys().len() ==> self@[#[trigger] self.keys()[i]] == self.value_at(i),
            self@.dom().finite(),
            self@.dom().len() == self.keys().len(),
    {
        let entries = self.entries@;
        let keys = self.keys();
        assert forall|k: Seq<char>| self@.contains_key(k) <==> keys.contains(k) by {
            if self@.contains_key(k) {
                let i = choose|i: int| holds_key(entries, i, k);
                assert(keys[i] == k);
            }
            if keys.contains(k) {
                let i = choose|i: int| 0 <= i < keys.len() && keys[i] == k;
                assert(holds_key(entries, i, k));
            }
        }
        assert forall|i: int| 0 <= i < keys.len() implies self@[#[trigger] keys[i]]
            == self.value_at(i) by {
            assert(holds_key(entries, i, keys[i]));
            let j = choose|j: int| holds_key(entries, j, keys[i]);
            assert(j == i);
        }
        assert(keys.no_duplicates());
        keys.unique_seq_to_set();
        assert(keys.to_set() =~= self@.dom());
    }

    /// The number of keys.
    pub fn len(&self) -> (n: usize)
        requires
            self.wf(),
        ensures
            n == self.keys().len(),
            self.keys().no_duplicates(),
            forall|k: Seq<char>| self@.contains_key(k) <==> self.keys().contains(k),
            forall|i: int|
                0 <= i < self.keys().len() ==> self@[#[trigger] self.keys()[i]] == self.value_at(i),
            self@.dom().finite(),
            self@.dom().len() == n,
    {
        proof {
            self.lemma_keys();
        }
        self.entries.len()
    }

    fn position(&self, key: &str) -> (r: Option<usize>)
        ensures
            match r {
                Some(i) => holds_key(self.entries@, i as int, key@),
                None => forall|i: int| !holds_key(self.entries@, i, key@),
            },
    {
        let probe = String::from_str(key);
        let mut i: usize = 0;
        while i < self.entries.len()
            invariant
                i <= self.entries@.len(),
                probe@ == key@,
                forall|j: int| 0 <= j < i ==> !holds_key(self.entries@, j, key@),
            decreases self.entries@.len() - i,
        {
            if self.entries[i].0 == probe {
                return Some(i);
            }
            i += 1;
        }
        None
    }

    /// Whether `key` has a value.
    pub fn contains_key(&self, key: &str) -> (r: bool)
        ensures
            r == self@.contains_key(key@),
    {
        self.position(key).is_some()
    }

    /// The value of `key`, if it has one.
    pub fn get(&self, key: &str) -> (r: Option<&V>)
        requires
            self.wf(),
        ensures
            match r {
                Some(v) => self@.contains_key(key@) && *v == self@[key@],
                None => !self@.contains_key(key@),
            },
    {
        match self.position(key) {
            Some(i) => {
                proof {
                    let j = choose|j: int| holds_key(self.entries@, j, key@);
                    assert(j == i);
                }
                Some(&self.entries[i].1)
            },
            None => None,
        }
    }

    /// Sets the value of `key`, which keeps its place in the key order if it
    /// had one and is appended otherwise.
    pub fn insert(&mut self, key: String, value: V)
        requires
            old(self).wf(),
        ensures
            final(self).wf(),
            final(self)@ == old(self)@.insert(key@, value),
            final(self).keys() == if old(self)@.contains_key(key@) {
                old(self).keys()
            } else {
                old(self).keys().push(key@)
            },
    {
        let ghost before = self.entries@;
        match self.position(key.as_str()) {
            Some(i) => {
                let ghost k = key@;
                self.entries.set(i, (key, value));
                proof {
                    let after = self.entries@;
                    assert forall|a: int, b: int| 0 <= a < b < after.len() implies after[a].0@
                        != after[b].0@ by {
                        assert(after[a].0@ == before[a].0@);
                        assert(after[b].0@ == before[b].0@);
                    }
                    assert forall|q: Seq<char>| #[trigger]
                        entries_map(after).contains_key(q) <==> entries_map(before).insert(
                        k,
                        value,
                    ).contains_key(q) by {
                        if entries_map(after).contains_key(q) {
                            let a = choose|a: int| holds_key(after, a, q);
                            assert(holds_key(before, a, q));
                        }
                        if entries_map(before).contains_key(q) {
                            let a = choose|a: int| holds_key(before, a, q);
                            assert(holds_key(after, a, q));
                        }
                        if q == k {
                            assert(holds_key(after, i as int, q));
                        }
                    }
                    assert forall|q: Seq<char>| #[trigger]
                        entries_map(after).contains_key(q) implies entries_map(after)[q]
                        == entries_map(before).insert(k, value)[q] by {
                        let a = choose|a: int| holds_key(after, a, q);
                        assert(holds_key(before, a, q));
                        let b = choose|b: int| holds_key(before, b, q);
                        assert(a == b);
                    }
                    assert(entries_map(after) =~= entries_map(before).insert(k, value));
                    assert(entry_keys(after) =~= entry_keys(before));
                }
            },
            None => {
                let ghost k = key@;
                self.entries.push((key, value));
                proof {
                    let after = self.entries@;
                    assert forall|a: int, b: int| 0 <= a < b < after.len() implies after[a].0@
                        != after[b].0@ by {
                        assert(after[a].0@ == before[a].0@);
                        if b < before.len() {
                            assert(after[b].0@ == before[b].0@);
                        } else {
                            assert(!holds_key(before, a, k));
                        }
                    }
                    assert forall|q: Seq<char>| #[trigger]
                        entries_map(after).contains_key(q) <==> entries_map(before).insert(
                        k,
                        value,
                    ).contains_key(q) by {
                        if entries_map(after).contains_key(q) {
                            let a = choose|a: int| holds_key(after, a, q);
                            if a < before.len() {
                                assert(holds_key(before, a, q));
                            }
                        }
                        if entries_map(before).contains_key(q) {
                            let a = choose|a: int| holds_key(before, a, q);
                            assert(holds_key(after, a, q));
                        }
                        if q == k {
                            assert(holds_key(after, before.len() as int, q));
                        }
                    }
                    assert forall|q: Seq<char>| #[trigger]
                        entries_map(after).contains_key(q) implies entries_map(after)[q]
                        == entries_map(before).insert(k, value)[q] by {
                        let a = choose|a: int| holds_key(after, a, q);
                        if a < before.len() {
                            assert(holds_key(before, a, q));
                            let b = choose|b: int| holds_key(before, b, q);
                            assert(a == b);
                        }
                    }
                    assert(entries_map(after) =~= entries_map(before).insert(k, value));
                    assert(entry_keys(after) =~= entry_keys(before).push(k));
                }
            },
        }
    }

    /// Takes `key` and its value out of the map; the other keys keep their
    /// order.
    pub fn remove(&mut self, key: &str) -> (r: Option<V>)
        requires
            old(self).wf(),
        ensures
            final(self).wf(),
            final(self)@ == old(self)@.remove(key@),
            r == if old(self)@.contains_key(key@) {
                Some(old(self)@[key@])
            } else {
                None
            },
            final(self).keys() == without(old(self).keys(), key@),
    {
        let ghost before = self.entries@;
        let ghost k = key@;
        match self.position(key) {
            Some(i) => {
                let entry = self.entries.remove(i);
                proof {
                    let after = self.entries@;
                    let j = choose|j: int| holds_key(before, j, k);
                    assert(j == i);
                    assert forall|a: int| 0 <= a < after.len() implies after[a] == before[if a
                        < i {
                        a
                    } else {
                        a + 1
                    }] by {}
                    assert forall|q: Seq<char>| #[trigger]
                        entries_map(after).contains_key(q) <==> entries_map(before).remove(
                        k,
                    ).contains_key(q) by {
                        if entries_map(after).contains_key(q) {
                            let a = choose|a: int| holds_key(after, a, q);
                            let b = if a < i {
                                a
                            } else {
                                a + 1
                            };
                            assert(holds_key(before, b, q));
                        }
                        if entries_map(before).contains_key(q) && q != k {
                            let b = choose|b: int| holds_key(before, b, q);
                            let a = if b < i {
                                b
                            } else {
                                b - 1
                            };
                            assert(holds_key(after, a, q));
                        }
                    }
                    assert forall|q: Seq<char>| #[trigger]
                        entries_map(after).contains_key(q) implies entries_map(after)[q]
                        == entries_map(before).remove(k)[q] by {
                        let a = choose|a: int| holds_key(after, a, q);
                        let b = if a < i {
                            a
                        } else {
                            a + 1
                        };
                        assert(holds_key(before, b, q));
                        let c = choose|c: int| holds_key(before, c, q);
                        assert(b == c);
                    }
                    assert(entries_map(after) =~= entries_map(before).remove(k));
                    assert(entry_keys(before).no_duplicates());
                    lemma_filter_one_out(entry_keys(before), i as int, k);
                    assert(entry_keys(after) =~= entry_keys(before).remove(i as int));
                }
                Some(entry.1)
            },
            None => {
                proof {
                    assert(entries_map(before) =~= entries_map(before).remove(k));
                    assert(!entry_keys(before).contains(k)) by {
                        if entry_keys(before).contains(k) {
                            let j = choose|j: int|
                                0 <= j < entry_keys(before).len() && entry_keys(before)[j] == k;
                            assert(holds_key(before, j, k));
                        }
                    }
                    lemma_filter_none_out(entry_keys(before), k);
                }
                None
            },
        }
    }

    /// The key at position `i` of the key order.
    pub fn key_at(&self, i: usize) -> (r: &String)
        requires
            self.wf(),
            i < self.keys().len(),
        ensures
            r@ == self.keys()[i as int],
            self@.contains_key(r@),
    {
        assert(holds_key(self.entries@, i as int, self.entries@[i as int].0@));
        &self.entries[i].0
    }

    /// The value at position `i` of the key order.
    pub fn value_at_index(&self, i: usize) -> (r: &V)
        requires
            self.wf(),
            i < self.keys().len(),
        ensures
            *r == self.value_at(i as int),
            *r == self@[self.keys()[i as int]],
    {
        proof {
            let k = self.entries@[i as int].0@;
            assert(holds_key(self.entries@, i as int, k));
            let j = choose|j: int| holds_key(self.entries@, j, k);
            assert(j == i);
        }
        &self.entries[i].1
    }
}

/// Filtering out a value that occurs nowhere in a sequence changes nothing.
pub proof fn lemma_filter_none_out(s: Seq<Seq<char>>, k: Seq<char>)
    requires
        !s.contains(k),
    ensures
        without(s, k) == s,
    decreases s.len(),
{
    reveal(Seq::filter);
    if s.len() > 0 {
        let front = s.drop_last();
        assert forall|q: Seq<char>| front.contains(q) implies s.contains(q) by {
            let i = choose|i: int| 0 <= i < front.len() && front[i] == q;
            assert(s[i] == q);
        }
        lemma_filter_none_out(front, k);
        assert(s[s.len() - 1] == s.last());
        assert(s.contains(s.last()));
        assert(front.push(s.last()) =~= s);
    }
}

/// Filtering out a value that occurs at one position only removes that
/// position.
pub proof fn lemma_filter_one_out(s: Seq<Seq<char>>, i: int, k: Seq<char>)
    requires
        0 <= i < s.len(),
        s[i] == k,
        s.no_duplicates(),
    ensures
        without(s, k) == s.remove(i),
    decreases s.len(),
{
    reveal(Seq::filter);
    let front = s.drop_last();
    if i == s.len() - 1 {
        assert(!front.contains(k)) by {
            if front.contains(k) {
                let j = choose|j: int| 0 <= j < front.len() && front[j] == k;
                assert(s[j] == s[i]);
            }
        }
        lemma_filter_none_out(front, k);
        assert(s.remove(i) =~= front);
    } else {
        lemma_filter_one_out(front, i, k);
        assert(s.last() != k) by {
            assert(s[s.len() - 1] != s[i]);
        }
        assert(s.remove(i) =~= front.remove(i).push(s.last()));
    }
}

} // verus!
