//! A table from string keys to values, each key at most once, kept in the
//! order the keys were first inserted.

use vstd::prelude::*;
use crate::text::str_equal;

verus! {

/// String keys mapped to values.
pub struct Table<V> {
    entries: Vec<(String, V)>,
}

/// No key occurs twice.
pub open spec fn keys_unique<V>(e: Seq<(String, V)>) -> bool {
    forall|i: int, j: int| 0 <= i < j < e.len() ==> (#[trigger] e[i]).0@ != (#[trigger] e[j]).0@
}

/// The map that an entry sequence with unique keys stands for.
pub open spec fn entries_map<V>(e: Seq<(String, V)>) -> Map<Seq<char>, V> {
    Map::new(
        |k: Seq<char>| exists|i: int| 0 <= i < e.len() && (#[trigger] e[i]).0@ == k,
        |k: Seq<char>| e[choose|i: int| 0 <= i < e.len() && (#[trigger] e[i]).0@ == k].1,
    )
}

/// The characters of the map's values.
pub open spec fn value_views(m: Map<Seq<char>, String>) -> Map<Seq<char>, Seq<char>> {
    m.map_values(|s: String| s@)
}

/// Setting the value at one position changes the map at that key alone.
pub proof fn lemma_entries_update<V>(e0: Seq<(String, V)>, i: int, v: V)
    requires
        keys_unique(e0),
        0 <= i < e0.len(),
    ensures
        keys_unique(e0.update(i, (e0[i].0, v))),
        entries_map(e0.update(i, (e0[i].0, v))) == entries_map(e0).insert(e0[i].0@, v),
{
    let e = e0.update(i, (e0[i].0, v));
    let k = e0[i].0@;
    assert(keys_unique(e)) by {
        assert forall|a: int, b: int| 0 <= a < b < e.len() implies (#[trigger] e[a]).0@
            != (#[trigger] e[b]).0@ by {
            assert(e0[a].0@ != e0[b].0@);
        }
    }
    assert forall|q: Seq<char>| #[trigger] entries_map(e).dom().contains(q) == entries_map(e0).insert(k, v).dom().contains(q) by {
        if q == k {
            assert(e[i].0@ == k);
            assert(e0[i].0@ == k);
        } else {
            if exists|j: int| 0 <= j < e0.len() && (#[trigger] e0[j]).0@ == q {
                let j = choose|j: int| 0 <= j < e0.len() && (#[trigger] e0[j]).0@ == q;
                assert(e[j].0@ == q);
            }
            if exists|j: int| 0 <= j < e.len() && (#[trigger] e[j]).0@ == q {
                let j = choose|j: int| 0 <= j < e.len() && (#[trigger] e[j]).0@ == q;
                assert(e0[j].0@ == q);
            }
        }
    }
    assert forall|q: Seq<char>| #[trigger] entries_map(e).dom().contains(q) implies entries_map(e)[q] == entries_map(e0).insert(k, v)[q] by {
        let c = choose|j: int| 0 <= j < e.len() && (#[trigger] e[j]).0@ == q;
        if q == k {
            assert(c == i);
        } else {
            let c0 = choose|j: int| 0 <= j < e0.len() && (#[trigger] e0[j]).0@ == q;
            assert(e0[c].0@ == q);
            assert(c0 == c);
        }
    }
    assert(entries_map(e) =~= entries_map(e0).insert(k, v));
}

/// Adding an entry with a new key adds that key to the map.
pub proof fn lemma_entries_push<V>(e0: Seq<(String, V)>, x: (String, V))
    requires
        keys_unique(e0.push(x)),
    ensures
        keys_unique(e0),
        entries_map(e0.push(x)) == entries_map(e0).insert(x.0@, x.1),
{
    let e = e0.push(x);
    let n = e0.len() as int;
    let k = x.0@;
    assert(keys_unique(e0)) by {
        assert forall|a: int, b: int| 0 <= a < b < e0.len() implies (#[trigger] e0[a]).0@
            != (#[trigger] e0[b]).0@ by {
            assert(e[a].0@ != e[b].0@);
        }
    }
    assert forall|q: Seq<char>| #[trigger] entries_map(e).dom().contains(q) == entries_map(e0).insert(k, x.1).dom().contains(q) by {
        if q == k {
            assert(e[n].0@ == k);
        } else {
            if exists|j: int| 0 <= j < e0.len() && (#[trigger] e0[j]).0@ == q {
                let j = choose|j: int| 0 <= j < e0.len() && (#[trigger] e0[j]).0@ == q;
                assert(e[j].0@ == q);
            }
            if exists|j: int| 0 <= j < e.len() && (#[trigger] e[j]).0@ == q {
                let j = choose|j: int| 0 <= j < e.len() && (#[trigger] e[j]).0@ == q;
                assert(e0[j].0@ == q);
            }
        }
    }
    assert forall|q: Seq<char>| #[trigger] entries_map(e).dom().contains(q) implies entries_map(e)[q] == entries_map(e0).insert(k, x.1)[q] by {
        let c = choose|j: int| 0 <= j < e.len() && (#[trigger] e[j]).0@ == q;
        if q == k {
            if c < n {
                assert(e[c].0@ != e[n].0@);
            }
            assert(c == n);
        } else {
            assert(c != n);
            let c0 = choose|j: int| 0 <= j < e0.len() && (#[trigger] e0[j]).0@ == q;
            assert(e0[c].0@ == q);
            assert(e[c0].0@ == q);
            assert(c0 == c);
        }
    }
    assert(entries_map(e) =~= entries_map(e0).insert(k, x.1));
}

impl<V> Table<V> {
    /// The entries in insertion order of their keys.
    pub closed spec fn entries(&self) -> Seq<(String, V)> {
        self.entries@
    }

    /// The keys held, each once.
    pub closed spec fn wf(&self) -> bool {
        keys_unique(self.entries@)
    }

    /// The table as a map.
    pub open spec fn map(&self) -> Map<Seq<char>, V> {
        entries_map(self.entries())
    }

    /// Each entry of a well-formed table is what the map holds for its key.
    pub proof fn lemma_entry_in_map(&self, i: int)
        requires
            self.wf(),
            0 <= i < self.entries().len(),
        ensures
            self.map().dom().contains(self.entries()[i].0@),
            self.map()[self.entries()[i].0@] == self.entries()[i].1,
    {
        let e = self.entries();
        let k = e[i].0@;
        assert(entries_map(e).dom().contains(k));
        let j = choose|j: int| 0 <= j < e.len() && (#[trigger] e[j]).0@ == k;
        if j < i {
            assert(e[j].0@ != e[i].0@);
        } else if j > i {
            assert(e[i].0@ != e[j].0@);
        }
    }

    /// An empty table.
    pub fn new() -> (r: Self)
        ensures
            r.wf(),
            r.map() == Map::<Seq<char>, V>::empty(),
            r.entries().len() == 0,
    {
        let r = Self { entries: Vec::new() };
        assert(r.map() =~= Map::<Seq<char>, V>::empty());
        r
    }

    /// The number of keys.
    pub fn len(&self) -> (r: usize)
        ensures
            r == self.entries().len(),
    {
        self.entries.len()
    }

    /// The key and value at position `i` in insertion order.
    pub fn entry_at(&self, i: usize) -> (r: (&String, &V))
        requires
            i < self.entries().len(),
        ensures
            *r.0 == self.entries()[i as int].0,
            *r.1 == self.entries()[i as int].1,
    {
        let e = &self.entries[i];
        (&e.0, &e.1)
    }

    /// The position of `key`, if it is held.
    pub fn position(&self, key: &str) -> (r: Option<usize>)
        requires
            self.wf(),
        ensures
            match r {
                Some(i) => i < self.entries().len() && self.entries()[i as int].0@ == key@
                    && self.map().dom().contains(key@) && self.map()[key@] == self.entries()[i as int].1,
                None => !self.map().dom().contains(key@),
            },
    {
        let mut i: usize = 0;
        while i < self.entries.len()
            invariant
                i <= self.entries@.len(),
                keys_unique(self.entries@),
                forall|j: int| 0 <= j < i ==> (#[trigger] self.entries@[j]).0@ != key@,
            decreases self.entries@.len() - i,
        {
            if str_equal(self.entries[i].0.as_str(), key) {
                proof {
                    assert(self.map().dom().contains(key@));
                    let c = choose|j: int| 0 <= j < self.entries@.len() && (#[trigger] self.entries@[j]).0@ == key@;
                    if c != i {
                        assert(self.entries@[c].0@ != self.entries@[i as int].0@);
                    }
                }
                return Some(i);
            }
            i += 1;
        }
        None
    }

    /// The value of `key`, if it is held.
    pub fn get(&self, key: &str) -> (r: Option<&V>)
        requires
            self.wf(),
        ensures
            match r {
                Some(v) => self.map().dom().contains(key@) && *v == self.map()[key@],
                None => !self.map().dom().contains(key@),
            },
    {
        match self.position(key) {
            Some(i) => Some(&self.entries[i].1),
            None => None,
        }
    }

    /// Puts `value` in place of the value at position `i`, keeping its key,
    /// and hands back the value that was there.
    pub fn replace_at(&mut self, i: usize, value: V) -> (r: V)
        requires
            old(self).wf(),
            i < old(self).entries().len(),
        ensures
            final(self).wf(),
            r == old(self).entries()[i as int].1,
            final(self).entries().len() == old(self).entries().len(),
            final(self).entries()[i as int].0 == old(self).entries()[i as int].0,
            final(self).map() == old(self).map().insert(old(self).entries()[i as int].0@, value),
    {
        let ghost e0 = self.entries@;
        let (k, v) = self.entries.remove(i);
        self.entries.insert(i, (k, value));
        proof {
            let e = self.entries@;
            assert(e =~= e0.update(i as int, (e0[i as int].0, value)));
            lemma_entries_update(e0, i as int, value);
        }
        v
    }

    /// Maps `key` to `value`, replacing any earlier value; a new key goes
    /// last.
    pub fn insert(&mut self, key: String, value: V)
        requires
            old(self).wf(),
        ensures
            final(self).wf(),
            final(self).map() == old(self).map().insert(key@, value),
    {
        let ghost k = key@;
        match self.position(key.as_str()) {
            Some(i) => {
                let ghost e0 = self.entries@;
                self.entries.set(i, (key, value));
                proof {
                    let e = self.entries@;
                    assert(keys_unique(e)) by {
                        assert forall|a: int, b: int| 0 <= a < b < e.len() implies (#[trigger] e[a]).0@
                            != (#[trigger] e[b]).0@ by {
                            assert(e0[a].0@ != e0[b].0@);
                        }
                    }
                    assert forall|q: Seq<char>| #[trigger] entries_map(e).dom().contains(q) == old(self).map().insert(k, value).dom().contains(q) by {
                        if q == k {
                            assert(e[i as int].0@ == k);
                        } else {
                            if exists|j: int| 0 <= j < e0.len() && (#[trigger] e0[j]).0@ == q {
                                let j = choose|j: int| 0 <= j < e0.len() && (#[trigger] e0[j]).0@ == q;
                                assert(e[j].0@ == q);
                            }
                            if exists|j: int| 0 <= j < e.len() && (#[trigger] e[j]).0@ == q {
                                let j = choose|j: int| 0 <= j < e.len() && (#[trigger] e[j]).0@ == q;
                                assert(e0[j].0@ == q);
                            }
                        }
                    }
                    assert forall|q: Seq<char>| #[trigger] entries_map(e).dom().contains(q) implies entries_map(e)[q] == old(self).map().insert(k, value)[q] by {
                        let c = choose|j: int| 0 <= j < e.len() && (#[trigger] e[j]).0@ == q;
                        if q == k {
                            assert(c == i);
                        } else {
                            let c0 = choose|j: int| 0 <= j < e0.len() && (#[trigger] e0[j]).0@ == q;
                            assert(e0[c].0@ == q);
                            assert(c0 == c);
                        }
                    }
                    assert(entries_map(e) =~= old(self).map().insert(k, value));
                }
            },
            None => {
                let ghost e0 = self.entries@;
                self.entries.push((key, value));
                proof {
                    let e = self.entries@;
                    let n = e0.len() as int;
                    assert(keys_unique(e)) by {
                        assert forall|a: int, b: int| 0 <= a < b < e.len() implies (#[trigger] e[a]).0@
                            != (#[trigger] e[b]).0@ by {
                            if b == n {
                                assert(!old(self).map().dom().contains(k));
                                assert(e0[a].0@ != k);
                            } else {
                                assert(e0[a].0@ != e0[b].0@);
                            }
                        }
                    }
                    assert forall|q: Seq<char>| #[trigger] entries_map(e).dom().contains(q) == old(self).map().insert(k, value).dom().contains(q) by {
                        if q == k {
                            assert(e[n].0@ == k);
                        } else {
                            if exists|j: int| 0 <= j < e0.len() && (#[trigger] e0[j]).0@ == q {
                                let j = choose|j: int| 0 <= j < e0.len() && (#[trigger] e0[j]).0@ == q;
                                assert(e[j].0@ == q);
                            }
                            if exists|j: int| 0 <= j < e.len() && (#[trigger] e[j]).0@ == q {
                                let j = choose|j: int| 0 <= j < e.len() && (#[trigger] e[j]).0@ == q;
                                assert(j < n);
                                assert(e0[j].0@ == q);
                            }
                        }
                    }
                    assert forall|q: Seq<char>| #[trigger] entries_map(e).dom().contains(q) implies entries_map(e)[q] == old(self).map().insert(k, value)[q] by {
                        let c = choose|j: int| 0 <= j < e.len() && (#[trigger] e[j]).0@ == q;
                        if q == k {
                            if c < n {
                                assert(e0[c].0@ == k);
                                assert(old(self).map().dom().contains(k));
                            }
                            assert(c == n);
                        } else {
                            assert(c != n);
                            let c0 = choose|j: int| 0 <= j < e0.len() && (#[trigger] e0[j]).0@ == q;
                            assert(e0[c].0@ == q);
                            assert(c0 == c);
                        }
                    }
                    assert(entries_map(e) =~= old(self).map().insert(k, value));
                }
            },
        }
    }
}

impl Table<String> {
    /// Copies every entry of `other` in, each replacing the value of an equal
    /// key.
    pub fn extend_from(&mut self, other: &Table<String>)
        requires
            old(self).wf(),
            other.wf(),
        ensures
            final(self).wf(),
            value_views(final(self).map()) == value_views(old(self).map()).union_prefer_right(
                value_views(other.map()),
            ),
    {
        let ghost m0 = value_views(self.map());
        let ghost e = other.entries@;
        let mut j: usize = 0;
        assert(entries_map(e.take(0)) =~= Map::<Seq<char>, String>::empty());
        assert(m0.union_prefer_right(value_views(entries_map(e.take(0)))) =~= m0);
        while j < other.entries.len()
            invariant
                j <= e.len(),
                e == other.entries@,
                keys_unique(e),
                self.wf(),
                value_views(self.map()) == m0.union_prefer_right(value_views(entries_map(e.take(j as int)))),
            decreases e.len() - j,
        {
            let k = other.entries[j].0.clone();
            let v = other.entries[j].1.clone();
            proof {
                let t = e.take(j + 1);
                assert(t =~= e.take(j as int).push(e[j as int]));
                assert(keys_unique(t)) by {
                    assert forall|a: int, b: int| 0 <= a < b < t.len() implies (#[trigger] t[a]).0@
                        != (#[trigger] t[b]).0@ by {
                        assert(e[a].0@ != e[b].0@);
                    }
                }
                lemma_entries_push(e.take(j as int), e[j as int]);
            }
            let ghost before = self.map();
            self.insert(k, v);
            proof {
                let p = entries_map(e.take(j as int));
                let q = entries_map(e.take(j + 1));
                assert(q == p.insert(e[j as int].0@, e[j as int].1));
                assert(value_views(before.insert(k@, v)) =~= value_views(before).insert(k@, v@));
                assert(value_views(q) =~= value_views(p).insert(k@, v@));
                assert(m0.union_prefer_right(value_views(q)) =~= m0.union_prefer_right(value_views(p)).insert(k@, v@));
            }
            j += 1;
        }
        assert(e.take(e.len() as int) =~= e);
    }
}

} // verus!
