//! A small association table: a vector of key/value pairs with distinct keys,
//! viewed as a finite map from key views to value views.
use vstd::prelude::*;

verus! {

/// Keys whose equality can be decided at run time and agrees with their view.
pub trait KeyEq: View + Sized {
    fn key_eq(&self, other: &Self) -> (r: bool)
        ensures
            r == (self@ == other@),
    ;
}

impl KeyEq for String {
    fn key_eq(&self, other: &Self) -> (r: bool) {
        *self == *other
    }
}

pub struct Table<K: View, V: View> {
    pub entries: Vec<(K, V)>,
    pub model: Ghost<Map<K::V, V::V>>,
}

impl<K: KeyEq, V: View> View for Table<K, V> {
    type V = Map<K::V, V::V>;

    open spec fn view(&self) -> Map<K::V, V::V> {
        self.model@
    }
}

impl<K: KeyEq, V: View> Table<K, V> {
    /// The entries hold distinct keys, and they are exactly the map's entries.
    pub open spec fn wf(&self) -> bool {
        &&& forall|i: int, j: int|
            0 <= i < j < self.entries@.len() ==> (#[trigger] self.entries@[i]).0@
                != (#[trigger] self.entries@[j]).0@
        &&& forall|i: int|
            0 <= i < self.entries@.len() ==> self.model@.contains_key(
                (#[trigger] self.entries@[i]).0@,
            ) && self.model@[self.entries@[i].0@] == self.entries@[i].1@
        &&& forall|k: K::V| #[trigger]
            self.model@.contains_key(k) ==> exists|i: int|
                0 <= i < self.entries@.len() && (#[trigger] self.entries@[i]).0@ == k
    }

    pub fn new() -> (r: Self)
        ensures
            r.wf(),
            r@ == Map::<K::V, V::V>::empty(),
    {
        Table { entries: Vec::new(), model: Ghost(Map::empty()) }
    }

    pub fn len(&self) -> (r: usize)
        requires
            self.wf(),
        ensures
            r == self.entries@.len(),
    {
        self.entries.len()
    }

    /// The position of the entry with key `k`, if there is one.
    pub fn find(&self, k: &K) -> (r: Option<usize>)
        requires
            self.wf(),
        ensures
            r is None ==> !self@.contains_key(k@),
            r matches Some(i) ==> i < self.entries@.len() && self.entries@[i as int].0@ == k@
                && self@.contains_key(k@),
    {
        let mut i: usize = 0;
        while i < self.entries.len()
            invariant
                self.wf(),
                i <= self.entries@.len(),
                forall|j: int| 0 <= j < i ==> (#[trigger] self.entries@[j]).0@ != k@,
            decreases self.entries@.len() - i,
        {
            if self.entries[i].0.key_eq(k) {
                return Some(i);
            }
            i = i + 1;
        }
        proof {
            if self@.contains_key(k@) {
                let j = choose|j: int| 0 <= j < self.entries@.len() && (#[trigger] self.entries@[j]).0@ == k@;
                assert(self.entries@[j].0@ != k@);
            }
        }
        None
    }

    pub fn get(&self, k: &K) -> (r: Option<&V>)
        requires
            self.wf(),
        ensures
            r is None ==> !self@.contains_key(k@),
            r matches Some(v) ==> self@.contains_key(k@) && v@ == self@[k@],
    {
        match self.find(k) {
            Some(i) => Some(&self.entries[i].1),
            None => None,
        }
    }

    /// Takes the entry with key `k` out of the table.
    pub fn remove(&mut self, k: &K) -> (r: Option<V>)
        requires
            old(self).wf(),
        ensures
            final(self).wf(),
            final(self)@ == old(self)@.remove(k@),
            r is None <==> !old(self)@.contains_key(k@),
            r matches Some(v) ==> v@ == old(self)@[k@],
    {
        match self.find(k) {
            None => {
                proof {
                    assert(self@.remove(k@) =~= self@);
                }
                None
            },
            Some(i) => {
                let ghost old_entries = self.entries@;
                let ghost old_model = self.model@;
                let e = self.entries.remove(i);
                self.model = Ghost(old_model.remove(k@));
                proof {
                    assert forall|a: int, b: int|
                        0 <= a < b < self.entries@.len() implies (#[trigger] self.entries@[a]).0@
                            != (#[trigger] self.entries@[b]).0@ by {
                        let oa = if a < i { a } else { a + 1 };
                        let ob = if b < i { b } else { b + 1 };
                        assert(self.entries@[a] == old_entries[oa]);
                        assert(self.entries@[b] == old_entries[ob]);
                    }
                    assert forall|a: int| 0 <= a < self.entries@.len() implies self.model@.contains_key(
                        (#[trigger] self.entries@[a]).0@,
                    ) && self.model@[self.entries@[a].0@] == self.entries@[a].1@ by {
                        let oa = if a < i { a } else { a + 1 };
                        assert(self.entries@[a] == old_entries[oa]);
                        assert(old_entries[oa].0@ != old_entries[i as int].0@);
                    }
                    assert forall|kk: K::V| #[trigger] self.model@.contains_key(kk) implies exists|a: int|
                        0 <= a < self.entries@.len() && (#[trigger] self.entries@[a]).0@ == kk by {
                        let oa = choose|oa: int| 0 <= oa < old_entries.len() && (#[trigger] old_entries[oa]).0@ == kk;
                        assert(oa != i);
                        let a = if oa < i { oa } else { oa - 1 };
                        assert(self.entries@[a] == old_entries[oa]);
                    }
                }
                Some(e.1)
            },
        }
    }

    /// Sets the value under `k`, replacing any earlier one.
    pub fn insert(&mut self, k: K, v: V)
        requires
            old(self).wf(),
        ensures
            final(self).wf(),
            final(self)@ == old(self)@.insert(k@, v@),
    {
        let _ = self.remove(&k);
        let ghost mid_entries = self.entries@;
        let ghost mid_model = self.model@;
        let ghost kv = k@;
        let ghost vv = v@;
        self.entries.push((k, v));
        self.model = Ghost(mid_model.insert(kv, vv));
        proof {
            let n = mid_entries.len() as int;
            assert(self.entries@[n].0@ == kv);
            assert forall|a: int, b: int|
                0 <= a < b < self.entries@.len() implies (#[trigger] self.entries@[a]).0@
                    != (#[trigger] self.entries@[b]).0@ by {
                if b == n {
                    assert(mid_model.contains_key(mid_entries[a].0@));
                } else {
                    assert(self.entries@[a] == mid_entries[a]);
                    assert(self.entries@[b] == mid_entries[b]);
                }
            }
            assert forall|a: int| 0 <= a < self.entries@.len() implies self.model@.contains_key(
                (#[trigger] self.entries@[a]).0@,
            ) && self.model@[self.entries@[a].0@] == self.entries@[a].1@ by {
                if a < n {
                    assert(self.entries@[a] == mid_entries[a]);
                    assert(mid_model.contains_key(mid_entries[a].0@));
                }
            }
            assert forall|kk: K::V| #[trigger] self.model@.contains_key(kk) implies exists|a: int|
                0 <= a < self.entries@.len() && (#[trigger] self.entries@[a]).0@ == kk by {
                if kk == kv {
                    assert(self.entries@[n].0@ == kk);
                } else {
                    let a = choose|a: int| 0 <= a < mid_entries.len() && (#[trigger] mid_entries[a]).0@ == kk;
                    assert(self.entries@[a] == mid_entries[a]);
                }
            }
        }
    }
}

} // verus!
