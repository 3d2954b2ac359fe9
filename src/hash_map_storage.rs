use crate::storage::{Record, Storage};
use vstd::prelude::*;
use vstd::string::StringExecFns;

verus! {

/// The process-wide store: records held with their keys, each key at most once.
#[derive(Debug)]
pub struct HashMapStorage {
    entries: Vec<(String, Record)>,
}

impl HashMapStorage {
    /// An empty store.
    pub fn new() -> (r: HashMapStorage)
        ensures
            r.wf(),
            r.records() == Map::<Seq<char>, Record>::empty(),
    {
        let r = HashMapStorage { entries: Vec::new() };
        assert(r.records() =~= Map::<Seq<char>, Record>::empty());
        r
    }

    spec fn has_key_at(&self, key: Seq<char>, i: int) -> bool {
        0 <= i < self.entries@.len() && self.entries@[i].0@ == key
    }

    /// The index of `key` among the entries, if it is held.
    fn position(&self, key: &String) -> (r: Option<usize>)
        requires
            self.wf(),
        ensures
            match r {
                Some(i) => self.has_key_at(key@, i as int),
                None => !self.records().contains_key(key@),
            },
    {
        let mut i: usize = 0;
        while i < self.entries.len()
            invariant
                i <= self.entries@.len(),
                forall|j: int| 0 <= j < i ==> self.entries@[j].0@ != key@,
            decreases self.entries@.len() - i,
        {
            if self.entries[i].0 == *key {
                return Some(i);
            }
            i = i + 1;
        }
        None
    }

    proof fn lemma_value_at(&self, key: Seq<char>, i: int)
        requires
            self.wf(),
            self.has_key_at(key, i),
        ensures
            self.records().contains_key(key),
            self.records()[key] == self.entries@[i].1,
    {
        let j = choose|j: int| self.has_key_at(key, j);
        assert(self.has_key_at(key, j));
    }
}

impl Storage for HashMapStorage {
    closed spec fn records(&self) -> Map<Seq<char>, Record> {
        Map::new(
            |k: Seq<char>| exists|i: int| self.has_key_at(k, i),
            |k: Seq<char>| self.entries@[choose|i: int| self.has_key_at(k, i)].1,
        )
    }

    closed spec fn wf(&self) -> bool {
        forall|i: int, j: int|
            0 <= i < self.entries@.len() && 0 <= j < self.entries@.len() && self.entries@[i].0@
                == self.entries@[j].0@ ==> i == j
    }

    fn store(&mut self, key: String, record: Record) {
        let ghost k = key@;
        let ghost before = old(self).records();
        match self.position(&key) {
            Some(i) => {
                self.entries.set(i, (key, record));
                proof {
                    assert forall|kk: Seq<char>| #[trigger] self.records().contains_key(kk) == before.insert(k, record).contains_key(kk) by {
                        if kk != k {
                            if before.contains_key(kk) {
                                let j = choose|j: int| old(self).has_key_at(kk, j);
                                assert(self.has_key_at(kk, j));
                            }
                            if self.records().contains_key(kk) {
                                let j = choose|j: int| self.has_key_at(kk, j);
                                assert(old(self).has_key_at(kk, j));
                            }
                        } else {
                            assert(self.has_key_at(kk, i as int));
                        }
                    }
                    assert forall|kk: Seq<char>| #[trigger] self.records().contains_key(kk) implies self.records()[kk] == before.insert(k, record)[kk] by {
                        let j = choose|j: int| self.has_key_at(kk, j);
                        assert(self.has_key_at(kk, j));
                        self.lemma_value_at(kk, j);
                        if kk != k {
                            assert(old(self).has_key_at(kk, j));
                            old(self).lemma_value_at(kk, j);
                        }
                    }
                    assert(self.records() =~= before.insert(k, record));
                }
            },
            None => {
                self.entries.push((key, record));
                proof {
                    let n = old(self).entries@.len() as int;
                    assert(self.has_key_at(k, n));
                    assert forall|j: int| 0 <= j < n implies old(self).entries@[j].0@ != k by {
                        if old(self).entries@[j].0@ == k {
                            assert(old(self).has_key_at(k, j));
                        }
                    }
                    assert(self.wf());
                    assert forall|kk: Seq<char>| #[trigger] self.records().contains_key(kk) == before.insert(k, record).contains_key(kk) by {
                        if kk != k {
                            if before.contains_key(kk) {
                                let j = choose|j: int| old(self).has_key_at(kk, j);
                                assert(self.has_key_at(kk, j));
                            }
                            if self.records().contains_key(kk) {
                                let j = choose|j: int| self.has_key_at(kk, j);
                                assert(old(self).has_key_at(kk, j));
                            }
                        }
                    }
                    assert forall|kk: Seq<char>| #[trigger] self.records().contains_key(kk) implies self.records()[kk] == before.insert(k, record)[kk] by {
                        let j = choose|j: int| self.has_key_at(kk, j);
                        assert(self.has_key_at(kk, j));
                        self.lemma_value_at(kk, j);
                        if kk != k {
                            assert(old(self).has_key_at(kk, j));
                            old(self).lemma_value_at(kk, j);
                        }
                    }
                    assert(self.records() =~= before.insert(k, record));
                }
            },
        }
    }

    fn remove(&mut self, key: &str) -> (r: Option<Record>) {
        let k = String::from_str(key);
        let ghost before = old(self).records();
        match self.position(&k) {
            Some(i) => {
                proof {
                    old(self).lemma_value_at(key@, i as int);
                }
                let (_, rec) = self.entries.remove(i);
                proof {
                    assert forall|kk: Seq<char>| #[trigger] self.records().contains_key(kk) == before.remove(key@).contains_key(kk) by {
                        if before.contains_key(kk) && kk != key@ {
                            let j = choose|j: int| old(self).has_key_at(kk, j);
                            if j < i {
                                assert(self.has_key_at(kk, j));
                            } else {
                                assert(self.has_key_at(kk, j - 1));
                            }
                        }
                        if self.records().contains_key(kk) {
                            let j = choose|j: int| self.has_key_at(kk, j);
                            if j < i {
                                assert(old(self).has_key_at(kk, j));
                            } else {
                                assert(old(self).has_key_at(kk, j + 1));
                            }
                        }
                    }
                    assert forall|kk: Seq<char>| #[trigger] self.records().contains_key(kk) implies self.records()[kk] == before.remove(key@)[kk] by {
                        let j = choose|j: int| self.has_key_at(kk, j);
                        assert(self.has_key_at(kk, j));
                        self.lemma_value_at(kk, j);
                        if j < i {
                            assert(old(self).has_key_at(kk, j));
                            old(self).lemma_value_at(kk, j);
                        } else {
                            assert(old(self).has_key_at(kk, j + 1));
                            old(self).lemma_value_at(kk, j + 1);
                        }
                    }
                    assert(self.records() =~= before.remove(key@));
                }
                Some(rec)
            },
            None => {
                assert(self.records() =~= before.remove(key@));
                None
            },
        }
    }

    fn find(&mut self, key: &str, now: i64) -> (r: Option<&Record>) {
        let k = String::from_str(key);
        match self.position(&k) {
            Some(i) => {
                proof {
                    self.lemma_value_at(key@, i as int);
                }
                if self.entries[i].1.is_expired(now) {
                    self.remove(key);
                    None
                } else {
                    Some(&self.entries[i].1)
                }
            },
            None => None,
        }
    }

    fn contains_live(&mut self, key: &str, now: i64) -> (r: bool) {
        let r = self.find(key, now);
        r.is_some()
    }
}

} // verus!
