//! Tables keyed by text, kept in order of insertion with each key once.
use vstd::prelude::*;
use vstd::string::*;

verus! {

/// A map from text keys to values: each key stands at most once, and entries
/// keep the order in which their keys were first inserted.
#[derive(Debug)]
pub struct Table<V> {
    pub entries: Vec<(String, V)>,
}

/// Whether two texts hold the same characters.
pub fn text_eq(a: &str, b: &str) -> (r: bool)
    ensures
        r == (a@ == b@),
{
    let n = a.unicode_len();
    if n != b.unicode_len() {
        return false;
    }
    let mut i: usize = 0;
    while i < n
        invariant
            n == a@.len(),
            n == b@.len(),
            i <= n,
            forall|j: int| 0 <= j < i ==> a@[j] == b@[j],
        decreases n - i,
    {
        if a.get_char(i) != b.get_char(i) {
            return false;
        }
        i = i + 1;
    }
    assert(a@ =~= b@);
    true
}

impl<V: View> Table<V> {
    /// Each key stands at most once.
    pub open spec fn wf(self) -> bool {
        forall|i: int, j: int|
            0 <= i < self.entries@.len() && 0 <= j < self.entries@.len() && i != j
                ==> self.entries@[i].0@ != self.entries@[j].0@
    }

    pub open spec fn has(self, k: Seq<char>) -> bool {
        exists|i: int| 0 <= i < self.entries@.len() && self.entries@[i].0@ == k
    }

    pub open spec fn index_of(self, k: Seq<char>) -> int {
        choose|i: int| 0 <= i < self.entries@.len() && self.entries@[i].0@ == k
    }

    /// The table as a map from keys to values.
    pub open spec fn view(self) -> Map<Seq<char>, V::V> {
        Map::new(|k: Seq<char>| self.has(k), |k: Seq<char>| self.entries@[self.index_of(k)].1@)
    }

    /// The entries with keys and values as their views, in order.
    pub open spec fn entry_views(self) -> Seq<(Seq<char>, V::V)> {
        self.entries@.map_values(|e: (String, V)| (e.0@, e.1@))
    }

    /// The keys, in the order of the entries.
    pub open spec fn key_seq(self) -> Seq<Seq<char>> {
        self.entries@.map_values(|e: (String, V)| e.0@)
    }

    /// An empty table.
    pub fn new() -> (r: Table<V>)
        ensures
            r.wf(),
            r.entries@.len() == 0,
            r@ == Map::<Seq<char>, V::V>::empty(),
    {
        let r = Table { entries: Vec::new() };
        assert(r@ =~= Map::<Seq<char>, V::V>::empty());
        r
    }

    pub fn len(&self) -> (r: usize)
        ensures
            r == self.entries@.len(),
    {
        self.entries.len()
    }

    /// The position of the entry for `key`, if there is one.
    pub fn find(&self, key: &str) -> (r: Option<usize>)
        ensures
            r matches Some(i) ==> i < self.entries@.len() && self.entries@[i as int].0@ == key@,
            r is None ==> !self.has(key@),
    {
        let mut i: usize = 0;
        while i < self.entries.len()
            invariant
                i <= self.entries@.len(),
                forall|j: int| 0 <= j < i ==> self.entries@[j].0@ != key@,
            decreases self.entries@.len() - i,
        {
            if text_eq(self.entries[i].0.as_str(), key) {
                return Some(i);
            }
            i = i + 1;
        }
        None
    }

    /// The value for `key`, if there is one.
    pub fn get(&self, key: &str) -> (r: Option<&V>)
        requires
            self.wf(),
        ensures
            r matches Some(v) ==> self@.contains_key(key@) && self@[key@] == v@,
            r is None ==> !self@.contains_key(key@),
    {
        match self.find(key) {
            Some(i) => {
                proof {
                    self.lemma_view_at(i as int);
                }
                Some(&self.entries[i].1)
            },
            None => None,
        }
    }

    /// Sets the value for `key`, in place where the key stands already, else
    /// at the end.
    pub fn insert(&mut self, key: String, value: V)
        requires
            old(self).wf(),
        ensures
            final(self).wf(),
            final(self)@ == old(self)@.insert(key@, value@),
            final(self).entries@.len() == old(self).entries@.len() + if old(self)@.contains_key(
                key@,
            ) {
                0int
            } else {
                1int
            },
            old(self)@.contains_key(key@) ==> final(self).key_seq() == old(self).key_seq(),
            !old(self)@.contains_key(key@) ==> final(self).key_seq() == old(self).key_seq().push(
                key@,
            ),
    {
        let ghost k = key@;
        let ghost val = value@;
        let ghost before = *self;
        match self.find(key.as_str()) {
            Some(i) => {
                self.entries.set(i, (key, value));
                proof {
                    assert(self.entries@ == before.entries@.update(i as int, (self.entries@[i as int].0, value)));
                    assert forall|a: Seq<char>| #[trigger] self.has(a) == before.has(a) by {
                        if before.has(a) {
                            let j = before.index_of(a);
                            if j == i as int {
                                assert(self.entries@[i as int].0@ == a);
                            } else {
                                assert(self.entries@[j].0@ == a);
                            }
                        }
                        if self.has(a) {
                            let j = self.index_of(a);
                            assert(before.entries@[j].0@ == a);
                        }
                    }
                    assert forall|a: Seq<char>| self.has(a) implies #[trigger] self@[a] == before@.insert(k, val)[a] by {
                        self.lemma_view_at(self.index_of(a));
                        if a != k {
                            before.lemma_view_at(before.index_of(a));
                        }
                    }
                    self.lemma_view_at(i as int);
                    assert(self@ =~= before@.insert(k, val));
                    assert(self.key_seq() =~= before.key_seq());
                }
            },
            None => {
                self.entries.push((key, value));
                proof {
                    let n = before.entries@.len() as int;
                    assert(self.entries@ == before.entries@.push(self.entries@[n]));
                    assert forall|a: Seq<char>| #[trigger] self.has(a) == (before.has(a) || a == k) by {
                        if before.has(a) {
                            let j = before.index_of(a);
                            assert(self.entries@[j].0@ == a);
                        }
                        if a == k {
                            assert(self.entries@[n].0@ == a);
                        }
                        if self.has(a) {
                            let j = self.index_of(a);
                            if j < n {
                                assert(before.entries@[j].0@ == a);
                            }
                        }
                    }
                    assert forall|a: Seq<char>| self.has(a) implies #[trigger] self@[a] == before@.insert(k, val)[a] by {
                        self.lemma_view_at(self.index_of(a));
                        if a != k {
                            before.lemma_view_at(before.index_of(a));
                        }
                    }
                    self.lemma_view_at(n);
                    assert(self@ =~= before@.insert(k, val));
                    assert(self.key_seq() =~= before.key_seq().push(k));
                }
            },
        }
    }

    /// Tables with the same entries, seen through their views, are the same map.
    pub proof fn lemma_same_entries(a: Table<V>, b: Table<V>)
        requires
            a.entry_views() == b.entry_views(),
            b.wf(),
        ensures
            a.wf(),
            a@ == b@,
    {
        assert(a.entries@.len() == b.entry_views().len());
        assert forall|i: int| 0 <= i < a.entries@.len() implies a.entries@[i].0@ == b.entries@[i].0@
            && a.entries@[i].1@ == b.entries@[i].1@ by {
            assert(a.entry_views()[i] == b.entry_views()[i]);
        }
        assert forall|k: Seq<char>| #[trigger] a.has(k) == b.has(k) by {
            if a.has(k) {
                let i = a.index_of(k);
                assert(b.entries@[i].0@ == k);
            }
            if b.has(k) {
                let i = b.index_of(k);
                assert(a.entries@[i].0@ == k);
            }
        }
        assert forall|k: Seq<char>| a.has(k) implies #[trigger] a@[k] == b@[k] by {
            let i = a.index_of(k);
            b.lemma_view_at(i);
            a.lemma_view_at(i);
        }
        assert(a@ =~= b@);
    }

    /// The entry at position `i` gives the map's value for its key.
    pub proof fn lemma_view_at(self, i: int)
        requires
            self.wf(),
            0 <= i < self.entries@.len(),
        ensures
            self@.contains_key(self.entries@[i].0@),
            self@[self.entries@[i].0@] == self.entries@[i].1@,
            self.index_of(self.entries@[i].0@) == i,
    {
        let k = self.entries@[i].0@;
        assert(self.has(k));
        let j = self.index_of(k);
        assert(self.entries@[j].0@ == k);
    }
}

} // verus!
