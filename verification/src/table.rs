//! A map from text keys to values, kept as a list of entries with
//! distinct keys in insertion order.

use vstd::prelude::*;

verus! {

/// Entries keyed by text, each key at most once.
pub struct Table<V> {
    entries: Vec<(String, V)>,
}

/// The keys of a list of entries.
pub open spec fn entry_keys<V>(e: Seq<(String, V)>) -> Seq<Seq<char>> {
    e.map_values(|p: (String, V)| p.0@)
}

/// The text of each string, in order.
pub open spec fn string_views(v: Seq<String>) -> Seq<Seq<char>> {
    Seq::new(v.len(), |i: int| v[i]@)
}

impl<V> Table<V> {
    /// The entries, in insertion order.
    pub closed spec fn entries(&self) -> Seq<(String, V)> {
        self.entries@
    }

    /// The keys, in insertion order.
    pub open spec fn keys(&self) -> Seq<Seq<char>> {
        entry_keys(self.entries())
    }

    /// The table as a map from keys to values.
    pub open spec fn map(&self) -> Map<Seq<char>, V> {
        Map::new(|k: Seq<char>| self.keys().contains(k), |k: Seq<char>| self.entries()[self.keys().index_of(k)].1)
    }

    /// The keys are distinct.
    pub open spec fn wf(&self) -> bool {
        self.keys().no_duplicates()
    }

    /// An empty table.
    pub fn new() -> (r: Self)
        ensures
            r.wf(),
            r.entries().len() == 0,
            r.map() == Map::<Seq<char>, V>::empty(),
    {
        let r = Table { entries: Vec::new() };
        assert(r.map() =~= Map::<Seq<char>, V>::empty());
        r
    }

    /// Number of entries.
    pub fn len(&self) -> (r: usize)
        ensures
            r == self.entries().len(),
    {
        self.entries.len()
    }

    /// Position of `key`, if present.
    pub fn position(&self, key: &String) -> (r: Option<usize>)
        requires
            self.wf(),
        ensures
            r is None <==> !self.keys().contains(key@),
            r matches Some(i) ==> i < self.entries().len() && self.keys()[i as int] == key@
                && self.keys().index_of(key@) == i,
    {
        let mut i: usize = 0;
        while i < self.entries.len()
            invariant
                self.wf(),
                i <= self.entries@.len(),
                forall|k: int| 0 <= k < i ==> self.keys()[k] != key@,
            decreases self.entries.len() - i,
        {
            if self.entries[i].0 == *key {
                proof {
                    assert(self.keys()[i as int] == key@);
                    self.keys().index_of_first_ensures(key@);
                    lemma_index_unique(self.keys(), key@, i as int);
                }
                return Some(i);
            }
            i = i + 1;
        }
        proof {
            assert forall|k: int| 0 <= k < self.keys().len() implies self.keys()[k] != key@ by {}
        }
        None
    }

    /// The key and value at position `i`.
    pub fn entry(&self, i: usize) -> (r: &(String, V))
        requires
            i < self.entries().len(),
        ensures
            *r == self.entries()[i as int],
    {
        &self.entries[i]
    }

    /// The value under `key`, if present.
    pub fn get(&self, key: &String) -> (r: Option<&V>)
        requires
            self.wf(),
        ensures
            r is Some <==> self.map().contains_key(key@),
            r matches Some(v) ==> *v == self.map()[key@],
    {
        match self.position(key) {
            Some(i) => Some(&self.entries[i].1),
            None => None,
        }
    }

    /// Put `value` under `key`, replacing what was there (in place) or
    /// appending a new entry.
    pub fn insert(&mut self, key: String, value: V)
        requires
            old(self).wf(),
        ensures
            final(self).wf(),
            final(self).map() == old(self).map().insert(key@, value),
            old(self).keys().contains(key@) ==> final(self).keys() == old(self).keys(),
            old(self).keys().contains(key@) ==> final(self).entries()
                == old(self).entries().update(old(self).keys().index_of(key@), (key, value)),
            !old(self).keys().contains(key@) ==> final(self).keys() == old(self).keys().push(key@),
            !old(self).keys().contains(key@) ==> final(self).entries() == old(self).entries().push((key, value)),
    {
        match self.position(&key) {
            Some(i) => {
                let ghost old_entries = self.entries@;
                let ghost k = key@;
                self.entries.set(i, (key, value));
                proof {
                    assert(entry_keys(self.entries@) =~= entry_keys(old_entries));
                    assert(self.map() =~= old(self).map().insert(k, value));
                }
            },
            None => {
                let ghost k = key@;
                self.entries.push((key, value));
                proof {
                    assert(entry_keys(self.entries@) =~= entry_keys(old(self).entries@).push(k));
                    assert(self.keys().no_duplicates()) by {
                        assert forall|a: int, b: int| 0 <= a < self.keys().len() && 0 <= b < self.keys().len() && a != b
                            implies self.keys()[a] != self.keys()[b] by {
                            if a == old(self).keys().len() as int {
                                assert(self.keys()[b] == old(self).keys()[b]);
                            } else if b == old(self).keys().len() as int {
                                assert(self.keys()[a] == old(self).keys()[a]);
                            }
                        }
                    }
                    assert forall|kk: Seq<char>| #[trigger] self.keys().contains(kk) <==> (old(self).keys().contains(kk) || kk == k) by {
                        if old(self).keys().contains(kk) {
                            let j = old(self).keys().index_of(kk);
                            old(self).keys().index_of_first_ensures(kk);
                            assert(self.keys()[j] == kk);
                        }
                        if kk == k {
                            assert(self.keys()[old(self).keys().len() as int] == kk);
                        }
                    }
                    assert forall|kk: Seq<char>| #[trigger] self.keys().contains(kk) && kk != k implies
                        self.keys().index_of(kk) == old(self).keys().index_of(kk) by {
                        let j = old(self).keys().index_of(kk);
                        old(self).keys().index_of_first_ensures(kk);
                        lemma_index_unique(self.keys(), kk, j);
                    }
                    self.keys().index_of_first_ensures(k);
                    lemma_index_unique(self.keys(), k, old(self).keys().len() as int);
                    assert(self.map() =~= old(self).map().insert(k, value));
                }
            },
        }
    }

    /// Take out the entry under `key`, if present; the others keep their
    /// order.
    pub fn remove(&mut self, key: &String) -> (r: Option<V>)
        requires
            old(self).wf(),
        ensures
            final(self).wf(),
            final(self).map() == old(self).map().remove(key@),
            r is Some <==> old(self).map().contains_key(key@),
            r matches Some(v) ==> v == old(self).map()[key@],
            r is Some ==> final(self).entries() == old(self).entries().remove(old(self).keys().index_of(key@)),
            r is None ==> final(self).entries() == old(self).entries(),
    {
        match self.position(key) {
            Some(i) => {
                let ghost old_keys = self.keys();
                let (_, v) = self.entries.remove(i);
                proof {
                    assert(self.keys() =~= old_keys.remove(i as int));
                    lemma_remove_keeps_distinct(old_keys, i as int);
                    assert forall|kk: Seq<char>| #[trigger] self.keys().contains(kk) implies
                        self.entries()[self.keys().index_of(kk)].1 == old(self).map()[kk] by {
                        let j = self.keys().index_of(kk);
                        self.keys().index_of_first_ensures(kk);
                        let oj = if j < i { j } else { j + 1 };
                        assert(old_keys[oj] == kk);
                        lemma_index_unique(old_keys, kk, oj);
                    }
                    assert forall|kk: Seq<char>| #[trigger] old(self).keys().contains(kk) && kk != key@ implies
                        self.keys().contains(kk) by {
                        let oj = old_keys.index_of(kk);
                        old_keys.index_of_first_ensures(kk);
                        if oj < i { assert(self.keys()[oj] == kk); } else { assert(oj != i); assert(self.keys()[oj - 1] == kk); }
                    }
                    assert(!self.keys().contains(key@)) by {
                        if self.keys().contains(key@) {
                            let j = self.keys().index_of(key@);
                            self.keys().index_of_first_ensures(key@);
                            let oj = if j < i { j } else { j + 1 };
                            assert(old_keys[oj] == key@);
                        }
                    }
                    assert(self.map() =~= old(self).map().remove(key@));
                }
                Some(v)
            },
            None => {
                assert(old(self).map().remove(key@) =~= old(self).map());
                None
            },
        }
    }
}

/// Position of `name` among the strings, if present.
pub fn find_text(v: &Vec<String>, name: &str) -> (r: Option<usize>)
    ensures
        r is None <==> !string_views(v@).contains(name@),
        r matches Some(i) ==> i < v@.len() && v@[i as int]@ == name@,
{
    let target = name.to_string();
    let mut i: usize = 0;
    while i < v.len()
        invariant
            i <= v@.len(),
            target@ == name@,
            forall|k: int| 0 <= k < i ==> v@[k]@ != name@,
        decreases v.len() - i,
    {
        if v[i] == target {
            proof {
                assert(string_views(v@)[i as int] == name@);
            }
            return Some(i);
        }
        i = i + 1;
    }
    proof {
        assert forall|k: int| 0 <= k < string_views(v@).len() implies string_views(v@)[k] != name@ by {
            assert(string_views(v@)[k] == v@[k]@);
        }
    }
    None
}

/// A copy of the strings.
pub fn clone_strings(v: &Vec<String>) -> (r: Vec<String>)
    ensures
        string_views(r@) == string_views(v@),
{
    let mut r: Vec<String> = Vec::new();
    let mut i: usize = 0;
    while i < v.len()
        invariant
            i <= v@.len(),
            string_views(r@) == string_views(v@).take(i as int),
        decreases v.len() - i,
    {
        let s = v[i].clone();
        let ghost prev = r@;
        r.push(s);
        assert(string_views(r@) =~= string_views(prev).push(v@[i as int]@));
        assert(string_views(v@).take(i + 1) =~= string_views(v@).take(i as int).push(v@[i as int]@));
        i = i + 1;
    }
    assert(string_views(v@).take(v@.len() as int) =~= string_views(v@));
    r
}

/// In a sequence without duplicates, the index of an element is the one
/// position that holds it.
pub proof fn lemma_index_unique<T>(s: Seq<T>, x: T, i: int)
    requires
        s.no_duplicates(),
        0 <= i < s.len(),
        s[i] == x,
    ensures
        s.index_of(x) == i,
{
    s.index_of_first_ensures(x);
    assert(s.contains(x));
}

/// Removing an element keeps the others distinct.
pub proof fn lemma_remove_keeps_distinct<T>(s: Seq<T>, i: int)
    requires
        s.no_duplicates(),
        0 <= i < s.len(),
    ensures
        s.remove(i).no_duplicates(),
{
    let r = s.remove(i);
    assert forall|a: int, b: int| 0 <= a < r.len() && 0 <= b < r.len() && a != b implies r[a] != r[b] by {
        let oa = if a < i { a } else { a + 1 };
        let ob = if b < i { b } else { b + 1 };
        assert(r[a] == s[oa]);
        assert(r[b] == s[ob]);
    }
}

} // verus!
