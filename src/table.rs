use vstd::prelude::*;

verus! {

/// A table of entries keyed by strings, compared exactly (case-sensitive,
/// no normalisation). Each key has at most one value.
pub struct KeyedTable<V> {
    entries: Vec<(String, V)>,
    contents: Ghost<Map<Seq<char>, V>>,
}

impl<V> KeyedTable<V> {
    /// What the table holds, as a map from key text to value.
    pub closed spec fn view(&self) -> Map<Seq<char>, V> {
        self.contents@
    }

    /// Keys are unique, and the entries vector and the map agree.
    pub closed spec fn wf(&self) -> bool {
        &&& forall|i: int, j: int|
            0 <= i < self.entries@.len() && 0 <= j < self.entries@.len()
                && #[trigger] self.entries@[i].0@ == #[trigger] self.entries@[j].0@ ==> i == j
        &&& forall|i: int|
            0 <= i < self.entries@.len() ==> {
                &&& #[trigger] self.contents@.contains_key(self.entries@[i].0@)
                &&& self.contents@[self.entries@[i].0@] == self.entries@[i].1
            }
        &&& forall|k: Seq<char>|
            #[trigger] self.contents@.contains_key(k) ==> exists|i: int|
                0 <= i < self.entries@.len() && #[trigger] self.entries@[i].0@ == k
    }

    pub fn new() -> (r: KeyedTable<V>)
        ensures
            r.wf(),
            r@ == Map::<Seq<char>, V>::empty(),
    {
        KeyedTable { entries: Vec::new(), contents: Ghost(Map::empty()) }
    }

    /// Position of the entry for `key`, if there is one.
    fn position(&self, key: &String) -> (r: Option<usize>)
        requires
            self.wf(),
        ensures
            match r {
                Some(i) => i < self.entries@.len() && self.entries@[i as int].0@ == key@,
                None => !self@.contains_key(key@),
            },
    {
        let mut i: usize = 0;
        while i < self.entries.len()
            invariant
                self.wf(),
                i <= self.entries@.len(),
                forall|j: int| 0 <= j < i ==> self.entries@[j].0@ != key@,
            decreases self.entries@.len() - i,
        {
            if self.entries[i].0 == *key {
                return Some(i);
            }
            i = i + 1;
        }
        None
    }

    /// The value stored under `key`.
    pub fn get(&self, key: &String) -> (r: Option<&V>)
        requires
            self.wf(),
        ensures
            match r {
                Some(v) => self@.contains_key(key@) && *v == self@[key@],
                None => !self@.contains_key(key@),
            },
    {
        match self.position(key) {
            Some(i) => {
                assert(self.contents@.contains_key(self.entries@[i as int].0@));
                Some(&self.entries[i].1)
            },
            None => None,
        }
    }

    /// Stores `value` under `key`, replacing what was there.
    pub fn insert(&mut self, key: &String, value: V)
        requires
            old(self).wf(),
        ensures
            final(self).wf(),
            final(self)@ == old(self)@.insert(key@, value),
    {
        let pos = self.position(key);
        let ghost before = self.entries@;
        let ghost k = key@;
        let ghost m = self.contents@.insert(k, value);
        match pos {
            Some(i) => {
                self.entries.set(i, (key.clone(), value));
                self.contents = Ghost(m);
                assert forall|j: int| 0 <= j < self.entries@.len() implies {
                    &&& #[trigger] m.contains_key(self.entries@[j].0@)
                    &&& m[self.entries@[j].0@] == self.entries@[j].1
                } by {
                    if j != i {
                        assert(self.entries@[j] == before[j]);
                        assert(before[j].0@ != k);
                    }
                }
                assert forall|q: Seq<char>| #[trigger] m.contains_key(q) implies exists|j: int|
                    0 <= j < self.entries@.len() && #[trigger] self.entries@[j].0@ == q by {
                    if q == k {
                        assert(self.entries@[i as int].0@ == q);
                    } else {
                        let j = choose|j: int| 0 <= j < before.len() && #[trigger] before[j].0@ == q;
                        assert(self.entries@[j].0@ == q);
                    }
                }
            },
            None => {
                self.entries.push((key.clone(), value));
                self.contents = Ghost(m);
                let ghost n = before.len() as int;
                assert forall|j: int| 0 <= j < self.entries@.len() implies {
                    &&& #[trigger] m.contains_key(self.entries@[j].0@)
                    &&& m[self.entries@[j].0@] == self.entries@[j].1
                } by {
                    if j < n {
                        assert(self.entries@[j] == before[j]);
                    }
                }
                assert forall|q: Seq<char>| #[trigger] m.contains_key(q) implies exists|j: int|
                    0 <= j < self.entries@.len() && #[trigger] self.entries@[j].0@ == q by {
                    if q == k {
                        assert(self.entries@[n].0@ == q);
                    } else {
                        let j = choose|j: int| 0 <= j < before.len() && #[trigger] before[j].0@ == q;
                        assert(self.entries@[j] == before[j]);
                    }
                }
            },
        }
    }
}

} // verus!
