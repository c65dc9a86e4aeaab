//! A map from names to values, kept as a list without repeated names.

use vstd::prelude::*;

verus! {

/// A map from names to values. A name occurs once at most; the entries keep
/// the order in which their names were first bound.
#[derive(Debug, PartialEq)]
pub struct Table<V> {
    pub entries: Vec<(String, V)>,
}

/// The names of the entries, in order.
pub open spec fn names<V>(entries: Seq<(String, V)>) -> Seq<Seq<char>> {
    Seq::new(entries.len(), |i: int| entries[i].0@)
}

/// No name occurs twice.
pub open spec fn distinct(keys: Seq<Seq<char>>) -> bool {
    forall|i: int, j: int| 0 <= i < j < keys.len() ==> keys[i] != keys[j]
}

/// A position at which `key` stands.
pub open spec fn position(keys: Seq<Seq<char>>, key: Seq<char>) -> int {
    choose|i: int| 0 <= i < keys.len() && keys[i] == key
}

impl<V> View for Table<V> {
    type V = Map<Seq<char>, V>;

    open spec fn view(&self) -> Map<Seq<char>, V> {
        Map::new(
            |key: Seq<char>| names(self.entries@).contains(key),
            |key: Seq<char>| self.entries@[position(names(self.entries@), key)].1,
        )
    }
}

impl<V> Table<V> {
    /// No name occurs twice.
    pub open spec fn wf(&self) -> bool {
        distinct(names(self.entries@))
    }

    /// The table without entries.
    pub fn new() -> (t: Table<V>)
        ensures
            t.wf(),
            t@ == Map::<Seq<char>, V>::empty(),
            t.entries@.len() == 0,
    {
        let t = Table { entries: Vec::new() };
        assert(t@ =~= Map::<Seq<char>, V>::empty());
        t
    }

    /// The number of entries.
    pub fn len(&self) -> (n: usize)
        ensures
            n == self.entries@.len(),
    {
        self.entries.len()
    }

    /// The position of the entry for `key`, if there is one.
    pub fn find(&self, key: &String) -> (r: Option<usize>)
        requires
            self.wf(),
        ensures
            match r {
                Some(i) => i < self.entries@.len() && self.entries@[i as int].0@ == key@
                    && self@.contains_key(key@) && self@[key@] == self.entries@[i as int].1,
                None => !self@.contains_key(key@),
            },
    {
        let ghost keys = names(self.entries@);
        let mut i: usize = 0;
        while i < self.entries.len()
            invariant
                i <= self.entries.len(),
                keys == names(self.entries@),
                distinct(keys),
                forall|j: int| 0 <= j < i ==> keys[j] != key@,
            decreases self.entries.len() - i,
        {
            if self.entries[i].0 == *key {
                proof {
                    assert(keys[i as int] == key@);
                    assert(keys.contains(key@));
                    let p = position(keys, key@);
                    assert(p == i) by {
                        if p < i {
                            assert(keys[p] != keys[i as int]);
                        } else if i < p {
                            assert(keys[i as int] != keys[p]);
                        }
                    }
                }
                return Some(i);
            }
            i = i + 1;
        }
        proof {
            if keys.contains(key@) {
                let p = choose|p: int| 0 <= p < keys.len() && keys[p] == key@;
                assert(keys[p] != key@);
            }
        }
        None
    }

    /// Whether `key` is bound.
    pub fn contains_key(&self, key: &str) -> (r: bool)
        requires
            self.wf(),
        ensures
            r == self@.contains_key(key@),
    {
        let name = String::from_str(key);
        self.find(&name).is_some()
    }

    /// The value that `key` is bound to, if it is bound.
    pub fn get(&self, key: &str) -> (r: Option<&V>)
        requires
            self.wf(),
        ensures
            match r {
                Some(v) => self@.contains_key(key@) && self@[key@] == *v,
                None => !self@.contains_key(key@),
            },
    {
        let name = String::from_str(key);
        match self.find(&name) {
            Some(i) => Some(&self.entries[i].1),
            None => None,
        }
    }

    /// Binds `key` to `value`, in place of an earlier binding if there is one.
    pub fn insert(&mut self, key: String, value: V)
        requires
            old(self).wf(),
        ensures
            final(self).wf(),
            final(self)@ == old(self)@.insert(key@, value),
    {
        let ghost before = self.entries@;
        let ghost keys = names(before);
        let ghost old_map = self@;
        match self.find(&key) {
            Some(i) => {
                self.entries.set(i, (key, value));
                proof {
                    let after = self.entries@;
                    assert(names(after) =~= keys);
                    let target = old_map.insert(key@, value);
                    assert(keys.contains(key@));
                    assert forall|k: Seq<char>| self@.dom().contains(k) == target.dom().contains(
                        k,
                    ) by {}
                    assert forall|k: Seq<char>| self@.dom().contains(k) implies #[trigger] self@[k]
                        == target[k] by {
                        let p = position(keys, k);
                        assert(keys.contains(k));
                        assert(0 <= p < keys.len() && keys[p] == k);
                        if k == key@ {
                            assert(p == i) by {
                                if p < i {
                                    assert(keys[p] != keys[i as int]);
                                } else if i < p {
                                    assert(keys[i as int] != keys[p]);
                                }
                            }
                        } else {
                            assert(p != i);
                        }
                    }
                    assert(self@ =~= old_map.insert(key@, value));
                }
            },
            None => {
                self.entries.push((key, value));
                proof {
                    let after = self.entries@;
                    let new_keys = names(after);
                    let n = before.len() as int;
                    assert(new_keys =~= keys.push(key@));
                    assert(distinct(new_keys)) by {
                        assert forall|a: int, b: int| 0 <= a < b < new_keys.len() implies new_keys[a]
                            != new_keys[b] by {
                            if b == n {
                                if keys[a] == key@ {
                                    assert(keys.contains(key@));
                                }
                            }
                        }
                    }
                    assert forall|k: Seq<char>| new_keys.contains(k) <==> (keys.contains(k) || k
                        == key@) by {
                        if new_keys.contains(k) {
                            let p = choose|p: int| 0 <= p < new_keys.len() && new_keys[p] == k;
                            if p < n {
                                assert(keys[p] == k);
                            }
                        }
                        if keys.contains(k) {
                            let p = choose|p: int| 0 <= p < keys.len() && keys[p] == k;
                            assert(new_keys[p] == k);
                        }
                        if k == key@ {
                            assert(new_keys[n] == k);
                        }
                    }
                    let target = old_map.insert(key@, value);
                    assert forall|k: Seq<char>| self@.dom().contains(k) == target.dom().contains(
                        k,
                    ) by {}
                    assert forall|k: Seq<char>| self@.dom().contains(k) implies #[trigger] self@[k]
                        == target[k] by {
                        let p = position(new_keys, k);
                        assert(new_keys.contains(k));
                        assert(0 <= p < new_keys.len() && new_keys[p] == k);
                        if k == key@ {
                            assert(new_keys[n] == k);
                            assert(p == n) by {
                                if p < n {
                                    assert(new_keys[p] != new_keys[n]);
                                }
                            }
                        } else {
                            assert(p < n);
                            let p0 = position(keys, k);
                            assert(keys[p] == k);
                            assert(0 <= p0 < keys.len() && keys[p0] == k);
                            assert(p0 == p) by {
                                if p0 < p {
                                    assert(keys[p0] != keys[p]);
                                } else if p < p0 {
                                    assert(keys[p] != keys[p0]);
                                }
                            }
                        }
                    }
                    assert(self@ =~= old_map.insert(key@, value));
                }
            },
        }
    }
}

} // verus!
