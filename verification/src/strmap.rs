//! A small map from text keys to values that remembers insertion order.
//! Keys never repeat; the view is a `Map` from the key's characters.

use vstd::prelude::*;

verus! {

/// A map keyed by `String`, stored as a list of distinct keys in insertion order.
#[derive(Debug)]
pub struct StrMap<T> {
    entries: Vec<(String, T)>,
}

impl<T> StrMap<T> {
    #[verifier::type_invariant]
    spec fn keys_distinct(self) -> bool {
        forall|i: int, j: int|
            0 <= i < j < self.entries@.len() ==> #[trigger] self.entries@[i].0@
                != #[trigger] self.entries@[j].0@
    }

    /// The keys in the order in which they were first inserted.
    pub closed spec fn keys(self) -> Seq<Seq<char>> {
        self.entries@.map_values(|e: (String, T)| e.0@)
    }

    spec fn slot_of(self, key: Seq<char>) -> int {
        choose|i: int| 0 <= i < self.entries@.len() && self.entries@[i].0@ == key
    }

    spec fn has_slot(self, key: Seq<char>) -> bool {
        exists|i: int| 0 <= i < self.entries@.len() && self.entries@[i].0@ == key
    }

    /// An empty map.
    pub fn new() -> (m: Self)
        ensures
            m@ == Map::<Seq<char>, T>::empty(),
            m.keys() == Seq::<Seq<char>>::empty(),
    {
        let m = StrMap { entries: Vec::new() };
        assert(m@ =~= Map::<Seq<char>, T>::empty());
        assert(m.keys() =~= Seq::<Seq<char>>::empty());
        m
    }

    /// Number of keys.
    pub fn len(&self) -> (n: usize)
        ensures
            n == self.keys().len(),
    {
        self.entries.len()
    }

    fn find(&self, key: &String) -> (r: Option<usize>)
        ensures
            match r {
                Some(i) => i < self.entries@.len() && self.entries@[i as int].0@ == key@,
                None => forall|i: int|
                    0 <= i < self.entries@.len() ==> #[trigger] self.entries@[i].0@ != key@,
            },
    {
        let n = self.entries.len();
        let mut i: usize = 0;
        while i < n
            invariant
                n == self.entries@.len(),
                i <= n,
                forall|j: int| 0 <= j < i ==> #[trigger] self.entries@[j].0@ != key@,
            decreases n - i,
        {
            if self.entries[i].0 == *key {
                return Some(i);
            }
            i = i + 1;
        }
        None
    }

    /// Whether `key` is present.
    pub fn contains_key(&self, key: &String) -> (b: bool)
        ensures
            b == self@.contains_key(key@),
    {
        match self.find(key) {
            Some(i) => {
                assert(self.has_slot(key@));
                true
            },
            None => false,
        }
    }

    /// The value stored under `key`, if any.
    pub fn get(&self, key: &String) -> (r: Option<&T>)
        ensures
            match r {
                Some(v) => self@.contains_key(key@) && *v == self@[key@],
                None => !self@.contains_key(key@),
            },
    {
        proof {
            use_type_invariant(self);
        }
        match self.find(key) {
            Some(i) => {
                assert(self.has_slot(key@));
                assert(self.slot_of(key@) == i);
                Some(&self.entries[i].1)
            },
            None => None,
        }
    }

    /// The key at position `i` in insertion order.
    pub fn key_at(&self, i: usize) -> (k: &String)
        requires
            i < self.keys().len(),
        ensures
            k@ == self.keys()[i as int],
            self@.contains_key(k@),
    {
        assert(self.has_slot(self.entries@[i as int].0@));
        &self.entries[i].0
    }

    /// The value stored under the key at position `i` in insertion order.
    pub fn value_at(&self, i: usize) -> (v: &T)
        requires
            i < self.keys().len(),
        ensures
            *v == self@[self.keys()[i as int]],
    {
        proof {
            use_type_invariant(self);
            let k = self.entries@[i as int].0@;
            assert(self.has_slot(k));
            assert(self.slot_of(k) == i);
        }
        &self.entries[i].1
    }

    /// Stores `value` under `key`, replacing any earlier value.
    pub fn insert(&mut self, key: String, value: T)
        ensures
            final(self)@ == old(self)@.insert(key@, value),
            old(self)@.contains_key(key@) ==> final(self).keys() == old(self).keys(),
            !old(self)@.contains_key(key@) ==> final(self).keys() == old(self).keys().push(key@),
    {
        proof {
            use_type_invariant(&*self);
        }
        let ghost k = key@;
        let ghost pre = *self;
        match self.find(&key) {
            Some(i) => {
                assert(pre.has_slot(k));
                let mut entries: Vec<(String, T)> = Vec::new();
                std::mem::swap(&mut entries, &mut self.entries);
                entries.set(i, (key, value));
                assert(forall|j: int| 0 <= j < entries@.len() ==> #[trigger] entries@[j].0@ == pre.entries@[j].0@);
                self.entries = entries;
                proof {
                    use_type_invariant(&*self);
                    assert forall|a: Seq<char>| #[trigger] self.has_slot(a) <==> pre.has_slot(a) by {
                        if self.has_slot(a) {
                            let j = choose|j: int| 0 <= j < self.entries@.len() && self.entries@[j].0@ == a;
                            assert(pre.entries@[j].0@ == a);
                        }
                        if pre.has_slot(a) {
                            let j = choose|j: int| 0 <= j < pre.entries@.len() && pre.entries@[j].0@ == a;
                            assert(self.entries@[j].0@ == a);
                        }
                    }
                    assert forall|a: Seq<char>| self.has_slot(a) && a != k implies
                        #[trigger] self.entries@[self.slot_of(a)].1 == pre.entries@[pre.slot_of(a)].1 by {
                        let s = self.slot_of(a);
                        let p = pre.slot_of(a);
                        assert(pre.entries@[s].0@ == a);
                    }
                    assert(self.entries@[i as int].0@ == k);
                    assert(self.has_slot(k));
                    let s = self.slot_of(k);
                    assert(self.entries@[s].0@ == k);
                    assert(s == i);
                    assert(self@ =~= pre@.insert(k, value));
                    assert(self.keys() =~= pre.keys());
                }
            },
            None => {
                let mut entries: Vec<(String, T)> = Vec::new();
                std::mem::swap(&mut entries, &mut self.entries);
                entries.push((key, value));
                assert(forall|j: int| 0 <= j < pre.entries@.len() ==> #[trigger] entries@[j] == pre.entries@[j]);
                self.entries = entries;
                proof {
                    use_type_invariant(&*self);
                    let n = pre.entries@.len() as int;
                    assert forall|a: Seq<char>| #[trigger] self.has_slot(a) <==> (pre.has_slot(a) || a == k) by {
                        if self.has_slot(a) {
                            let j = choose|j: int| 0 <= j < self.entries@.len() && self.entries@[j].0@ == a;
                            if j < n {
                                assert(pre.entries@[j].0@ == a);
                            }
                        }
                        if pre.has_slot(a) {
                            let j = choose|j: int| 0 <= j < pre.entries@.len() && pre.entries@[j].0@ == a;
                            assert(self.entries@[j].0@ == a);
                        }
                        if a == k {
                            assert(self.entries@[n].0@ == a);
                        }
                    }
                    assert forall|a: Seq<char>| pre.has_slot(a) implies
                        #[trigger] self.entries@[self.slot_of(a)].1 == pre.entries@[pre.slot_of(a)].1 by {
                        let s = self.slot_of(a);
                        let p = pre.slot_of(a);
                        assert(self.entries@[p].0@ == a);
                    }
                    assert(self.entries@[n].0@ == k);
                    assert(self.has_slot(k));
                    let s = self.slot_of(k);
                    assert(self.entries@[s].0@ == k);
                    assert(s == n);
                    assert(self@ =~= pre@.insert(k, value));
                    assert(self.keys() =~= pre.keys().push(k));
                }
            },
        }
    }
}

impl<T> View for StrMap<T> {
    type V = Map<Seq<char>, T>;

    closed spec fn view(&self) -> Map<Seq<char>, T> {
        Map::new(|k: Seq<char>| self.has_slot(k), |k: Seq<char>| self.entries@[self.slot_of(k)].1)
    }
}

impl<T: Copy> StrMap<T> {
    /// A copy of the map, keys and values alike.
    pub fn copied(&self) -> (m: Self)
        ensures
            m@ == self@,
            m.keys() == self.keys(),
    {
        proof {
            use_type_invariant(self);
        }
        let n = self.entries.len();
        let mut entries: Vec<(String, T)> = Vec::new();
        let mut i: usize = 0;
        while i < n
            invariant
                n == self.entries@.len(),
                i <= n,
                entries@.len() == i,
                forall|j: int| 0 <= j < i ==> #[trigger] entries@[j].0@ == self.entries@[j].0@ && entries@[j].1
                    == self.entries@[j].1,
            decreases n - i,
        {
            let k = self.entries[i].0.clone();
            let v = self.entries[i].1;
            entries.push((k, v));
            i = i + 1;
        }
        let m = StrMap { entries };
        proof {
            assert forall|a: Seq<char>| #[trigger] m.has_slot(a) <==> self.has_slot(a) by {
                if m.has_slot(a) {
                    let j = choose|j: int| 0 <= j < m.entries@.len() && m.entries@[j].0@ == a;
                    assert(self.entries@[j].0@ == a);
                }
                if self.has_slot(a) {
                    let j = choose|j: int| 0 <= j < self.entries@.len() && self.entries@[j].0@ == a;
                    assert(m.entries@[j].0@ == a);
                }
            }
            assert forall|a: Seq<char>| m.has_slot(a) implies #[trigger] m.entries@[m.slot_of(a)].1
                == self.entries@[self.slot_of(a)].1 by {
                let s = m.slot_of(a);
                let p = self.slot_of(a);
                assert(self.entries@[s].0@ == a);
            }
            assert(m@ =~= self@);
            assert(m.keys() =~= self.keys());
        }
        m
    }
}

} // verus!
