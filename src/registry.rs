//! A table from text keys to values, each key at most once.

use vstd::prelude::*;

verus! {

pub struct Registry<V> {
    entries: Vec<(String, V)>,
}

impl<V> Registry<V> {
    pub closed spec fn entries(&self) -> Seq<(String, V)> {
        self.entries@
    }

    /// The value of `key`, if it has one.
    pub open spec fn get_spec(&self, key: Seq<char>) -> Option<V> {
        if exists|i: int| 0 <= i < self.entries().len() && (#[trigger] self.entries()[i]).0@ == key {
            let i = choose|i: int| 0 <= i < self.entries().len() && (#[trigger] self.entries()[i]).0@ == key;
            Some(self.entries()[i].1)
        } else {
            None
        }
    }

    pub open spec fn wf(&self) -> bool {
        forall|i: int, j: int|
            0 <= i < self.entries().len() && 0 <= j < self.entries().len() && i != j ==> (
            #[trigger] self.entries()[i]).0@ != (#[trigger] self.entries()[j]).0@
    }

    proof fn lemma_get(&self, key: Seq<char>, i: int)
        requires
            self.wf(),
            0 <= i < self.entries().len(),
            self.entries()[i].0@ == key,
        ensures
            self.get_spec(key) == Some(self.entries()[i].1),
    {
        let j = choose|j: int| 0 <= j < self.entries().len() && (#[trigger] self.entries()[j]).0@ == key;
        assert(j == i);
    }

    pub fn new() -> (r: Self)
        ensures
            r.wf(),
            forall|k: Seq<char>| r.get_spec(k) is None,
    {
        Registry { entries: Vec::new() }
    }

    fn find(&self, key: &String) -> (r: Option<usize>)
        requires
            self.wf(),
        ensures
            match r {
                Some(i) => i < self.entries().len() && self.entries()[i as int].0@ == key@
                    && self.get_spec(key@) == Some(self.entries()[i as int].1),
                None => self.get_spec(key@) is None,
            },
    {
        let mut i: usize = 0;
        while i < self.entries.len()
            invariant
                self.wf(),
                i <= self.entries.len(),
                forall|k: int| 0 <= k < i ==> (#[trigger] self.entries()[k]).0@ != key@,
            decreases self.entries.len() - i,
        {
            if self.entries[i].0 == *key {
                proof {
                    self.lemma_get(key@, i as int);
                }
                return Some(i);
            }
            i = i + 1;
        }
        None
    }

    /// Removes the value of `key` and returns it, if it had one.
    pub fn take(&mut self, key: &String) -> (r: Option<V>)
        requires
            old(self).wf(),
        ensures
            final(self).wf(),
            r == old(self).get_spec(key@),
            final(self).get_spec(key@) is None,
            forall|k: Seq<char>| k != key@ ==> final(self).get_spec(k) == old(self).get_spec(k),
    {
        match self.find(key) {
            None => None,
            Some(i) => {
                let ghost old_entries = self.entries@;
                let (_, v) = self.entries.remove(i);
                proof {
                    let e = self.entries();
                    assert forall|a: int| 0 <= a < e.len() implies #[trigger] e[a]
                        == old_entries[if a < i { a } else { a + 1 }] by {}
                    assert forall|a: int, b: int|
                        0 <= a < e.len() && 0 <= b < e.len() && a != b implies (
                        #[trigger] e[a]).0@ != (#[trigger] e[b]).0@ by {
                        let oa = if a < i { a } else { a + 1 };
                        let ob = if b < i { b } else { b + 1 };
                        assert(e[a] == old_entries[oa]);
                        assert(e[b] == old_entries[ob]);
                    }
                    if exists|a: int| 0 <= a < e.len() && (#[trigger] e[a]).0@ == key@ {
                        let a = choose|a: int| 0 <= a < e.len() && (#[trigger] e[a]).0@ == key@;
                        let oa = if a < i { a } else { a + 1 };
                        assert(old_entries[oa].0@ == key@);
                    }
                    assert forall|k: Seq<char>| k != key@ implies self.get_spec(k) == old(self).get_spec(k) by {
                        if exists|a: int| 0 <= a < old_entries.len() && (#[trigger] old_entries[a]).0@ == k {
                            let a = choose|a: int| 0 <= a < old_entries.len() && (#[trigger] old_entries[a]).0@ == k;
                            old(self).lemma_get(k, a);
                            let na = if a < i { a } else { a - 1 };
                            assert(e[na] == old_entries[a]);
                            self.lemma_get(k, na);
                        } else {
                            if exists|a: int| 0 <= a < e.len() && (#[trigger] e[a]).0@ == k {
                                let a = choose|a: int| 0 <= a < e.len() && (#[trigger] e[a]).0@ == k;
                                let oa = if a < i { a } else { a + 1 };
                                assert(old_entries[oa].0@ == k);
                            }
                        }
                    }
                }
                Some(v)
            },
        }
    }

    /// Sets the value of `key`, replacing any it had.
    pub fn put(&mut self, key: String, value: V)
        requires
            old(self).wf(),
        ensures
            final(self).wf(),
            final(self).get_spec(key@) == Some(value),
            forall|k: Seq<char>| k != key@ ==> final(self).get_spec(k) == old(self).get_spec(k),
    {
        let _ = self.take(&key);
        let ghost mid = *self;
        let ghost old_entries = self.entries@;
        let ghost kv = key@;
        self.entries.push((key, value));
        proof {
            let n = old_entries.len() as int;
            let e = self.entries();
            assert(old_entries == mid.entries());
            assert forall|a: int| 0 <= a < n implies (#[trigger] old_entries[a]).0@ != kv by {
                if old_entries[a].0@ == kv {
                    assert(0 <= a < mid.entries().len() && (mid.entries()[a]).0@ == kv);
                }
            }
            assert(e[n].0@ == kv);
            assert forall|a: int, b: int|
                0 <= a < e.len() && 0 <= b < e.len() && a != b implies (#[trigger] e[a]).0@ != (
                #[trigger] e[b]).0@ by {
                if a < n && b < n {
                    assert(e[a] == old_entries[a] && e[b] == old_entries[b]);
                } else if a < n {
                    assert(e[a] == old_entries[a]);
                } else {
                    assert(e[b] == old_entries[b]);
                }
            }
            self.lemma_get(kv, n);
            assert forall|k: Seq<char>| k != kv implies self.get_spec(k) == mid.get_spec(k) by {
                if exists|a: int| 0 <= a < old_entries.len() && (#[trigger] old_entries[a]).0@ == k {
                    let a = choose|a: int| 0 <= a < old_entries.len() && (#[trigger] old_entries[a]).0@ == k;
                    mid.lemma_get(k, a);
                    self.lemma_get(k, a);
                } else {
                    if exists|a: int| 0 <= a < e.len() && (#[trigger] e[a]).0@ == k {
                        let a = choose|a: int| 0 <= a < e.len() && (#[trigger] e[a]).0@ == k;
                        assert(a < n);
                        assert(old_entries[a].0@ == k);
                    }
                }
            }
        }
    }
}

} // verus!
