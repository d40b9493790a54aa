//! A small verified association list from a `u128` id to a value, viewed
//! as a `Map<u128, V>`. It backs the presence store's two tables.

use vstd::prelude::*;

verus! {

/// Whether the keys of an association list are pairwise distinct.
pub open spec fn distinct_keys<V>(s: Seq<(u128, V)>) -> bool {
    forall|i: int, j: int| 0 <= i < j < s.len() ==> (#[trigger] s[i]).0 != (#[trigger] s[j]).0
}

/// Whether an association list holds key `k`.
pub open spec fn has_key<V>(s: Seq<(u128, V)>, k: u128) -> bool {
    exists|i: int| 0 <= i < s.len() && (#[trigger] s[i]).0 == k
}

/// The position of key `k` in an association list that holds it.
pub open spec fn index_of<V>(s: Seq<(u128, V)>, k: u128) -> int {
    choose|i: int| 0 <= i < s.len() && (#[trigger] s[i]).0 == k
}

/// The map an association list stands for.
pub open spec fn as_map<V>(s: Seq<(u128, V)>) -> Map<u128, V> {
    Map::new(|k: u128| has_key(s, k), |k: u128| s[index_of(s, k)].1)
}

proof fn lemma_index_of<V>(s: Seq<(u128, V)>, i: int)
    requires
        distinct_keys(s),
        0 <= i < s.len(),
    ensures
        index_of(s, s[i].0) == i,
        has_key(s, s[i].0),
        as_map(s)[s[i].0] == s[i].1,
{
    assert(has_key(s, s[i].0));
    let j = index_of(s, s[i].0);
    assert(0 <= j < s.len() && s[j].0 == s[i].0);
    if i != j {
        assert(false);
    }
}

proof fn lemma_map_update<V>(s: Seq<(u128, V)>, i: int, e: (u128, V))
    requires
        distinct_keys(s),
        0 <= i < s.len(),
        e.0 == s[i].0,
    ensures
        distinct_keys(s.update(i, e)),
        as_map(s.update(i, e)) == as_map(s).insert(e.0, e.1),
{
    let t = s.update(i, e);
    assert forall|a: int, b: int| 0 <= a < b < t.len() implies (#[trigger] t[a]).0
        != (#[trigger] t[b]).0 by {
        assert(s[a].0 != s[b].0);
    }
    assert forall|k: u128| has_key(t, k) implies has_key(s, k) by {
        let j = choose|j: int| 0 <= j < t.len() && (#[trigger] t[j]).0 == k;
        assert(s[j].0 == k);
    }
    assert forall|k: u128| has_key(s, k) implies has_key(t, k) by {
        let j = choose|j: int| 0 <= j < s.len() && (#[trigger] s[j]).0 == k;
        assert(t[j].0 == k);
    }
    assert forall|k: u128| has_key(t, k) implies #[trigger] as_map(t)[k] == as_map(s).insert(
        e.0,
        e.1,
    )[k] by {
        let j = index_of(t, k);
        assert(0 <= j < t.len() && t[j].0 == k);
        lemma_index_of(t, j);
        if k == e.0 {
            if j != i {
                assert(t[j].0 == t[i].0);
                assert(false);
            }
        } else {
            assert(j != i);
            assert(t[j] == s[j]);
            lemma_index_of(s, j);
        }
    }
    assert(as_map(t) =~= as_map(s).insert(e.0, e.1));
}

proof fn lemma_map_push<V>(s: Seq<(u128, V)>, e: (u128, V))
    requires
        distinct_keys(s),
        !has_key(s, e.0),
    ensures
        distinct_keys(s.push(e)),
        as_map(s.push(e)) == as_map(s).insert(e.0, e.1),
{
    let t = s.push(e);
    assert(t[s.len() as int].0 == e.0);
    assert forall|a: int, b: int| 0 <= a < b < t.len() implies (#[trigger] t[a]).0
        != (#[trigger] t[b]).0 by {
        if b == s.len() {
            if t[a].0 == e.0 {
                assert(s[a].0 == e.0);
                assert(has_key(s, e.0));
            }
        } else {
            assert(s[a].0 != s[b].0);
        }
    }
    assert forall|k: u128| has_key(t, k) implies (has_key(s, k) || k == e.0) by {
        let j = choose|j: int| 0 <= j < t.len() && (#[trigger] t[j]).0 == k;
        if j < s.len() {
            assert(s[j].0 == k);
        }
    }
    assert forall|k: u128| has_key(s, k) implies has_key(t, k) by {
        let j = choose|j: int| 0 <= j < s.len() && (#[trigger] s[j]).0 == k;
        assert(t[j].0 == k);
    }
    assert(has_key(t, e.0));
    assert forall|k: u128| has_key(t, k) implies #[trigger] as_map(t)[k] == as_map(s).insert(
        e.0,
        e.1,
    )[k] by {
        let j = index_of(t, k);
        assert(0 <= j < t.len() && t[j].0 == k);
        lemma_index_of(t, j);
        if k == e.0 {
            if j < s.len() {
                assert(s[j].0 == e.0);
                assert(false);
            }
            assert(t[j] == e);
        } else {
            assert(j < s.len());
            assert(t[j] == s[j]);
            lemma_index_of(s, j);
        }
    }
    assert(as_map(t) =~= as_map(s).insert(e.0, e.1));
}

proof fn lemma_map_remove<V>(s: Seq<(u128, V)>, i: int)
    requires
        distinct_keys(s),
        0 <= i < s.len(),
    ensures
        distinct_keys(s.remove(i)),
        as_map(s.remove(i)) == as_map(s).remove(s[i].0),
{
    let t = s.remove(i);
    assert forall|a: int, b: int| 0 <= a < b < t.len() implies (#[trigger] t[a]).0
        != (#[trigger] t[b]).0 by {
        let a2: int = if a < i {
            a
        } else {
            a + 1
        };
        let b2: int = if b < i {
            b
        } else {
            b + 1
        };
        assert(t[a] == s[a2]);
        assert(t[b] == s[b2]);
        assert(s[a2].0 != s[b2].0);
    }
    assert forall|k: u128| has_key(t, k) implies (has_key(s, k) && k != s[i].0) by {
        let j = choose|j: int| 0 <= j < t.len() && (#[trigger] t[j]).0 == k;
        let j2: int = if j < i {
            j
        } else {
            j + 1
        };
        assert(t[j] == s[j2]);
        if k == s[i].0 {
            assert(j2 != i);
            assert(s[j2].0 != s[i].0);
        }
    }
    assert forall|k: u128| has_key(s, k) && k != s[i].0 implies has_key(t, k) by {
        let j = choose|j: int| 0 <= j < s.len() && (#[trigger] s[j]).0 == k;
        assert(j != i);
        if j < i {
            assert(t[j].0 == k);
        } else {
            assert(t[j - 1].0 == k);
        }
    }
    assert forall|k: u128| has_key(t, k) implies #[trigger] as_map(t)[k] == as_map(s).remove(
        s[i].0,
    )[k] by {
        let j = index_of(t, k);
        assert(0 <= j < t.len() && t[j].0 == k);
        lemma_index_of(t, j);
        let j2: int = if j < i {
            j
        } else {
            j + 1
        };
        assert(t[j] == s[j2]);
        lemma_index_of(s, j2);
    }
    assert(as_map(t) =~= as_map(s).remove(s[i].0));
}

/// An association list from an id to a value, with unique keys.
pub struct AssocMap<V> {
    entries: Vec<(u128, V)>,
}

impl<V> View for AssocMap<V> {
    type V = Map<u128, V>;

    closed spec fn view(&self) -> Map<u128, V> {
        as_map(self.entries@)
    }
}

impl<V> AssocMap<V> {
    pub closed spec fn wf(self) -> bool {
        distinct_keys(self.entries@)
    }

    pub fn new() -> (r: AssocMap<V>)
        ensures
            r.wf(),
            r@ == Map::<u128, V>::empty(),
    {
        let r = AssocMap { entries: Vec::new() };
        proof {
            assert(r@ =~= Map::<u128, V>::empty());
        }
        r
    }

    fn find_index(&self, k: u128) -> (r: Option<usize>)
        ensures
            match r {
                Option::Some(i) => i < self.entries@.len() && self.entries@[i as int].0 == k,
                Option::None => !has_key(self.entries@, k),
            },
    {
        let n: usize = self.entries.len();
        let mut i: usize = 0;
        while i < n
            invariant
                i <= n,
                n == self.entries@.len(),
                forall|j: int| 0 <= j < i ==> (#[trigger] self.entries@[j]).0 != k,
            decreases n - i,
        {
            if self.entries[i].0 == k {
                return Option::Some(i);
            }
            i = i + 1;
        }
        Option::None
    }

    /// The value bound to `k`, when there is one.
    pub fn get(&self, k: u128) -> (r: Option<&V>)
        requires
            self.wf(),
        ensures
            match r {
                Option::Some(v) => self@.dom().contains(k) && self@[k] == *v,
                Option::None => !self@.dom().contains(k),
            },
    {
        match self.find_index(k) {
            Option::Some(i) => {
                proof {
                    lemma_index_of(self.entries@, i as int);
                }
                Option::Some(&self.entries[i].1)
            },
            Option::None => Option::None,
        }
    }

    /// Binds `k` to `v`, replacing any earlier binding.
    pub fn insert(&mut self, k: u128, v: V)
        requires
            old(self).wf(),
        ensures
            final(self).wf(),
            final(self)@ == old(self)@.insert(k, v),
    {
        let ghost s = old(self).entries@;
        match self.find_index(k) {
            Option::Some(i) => {
                self.entries.remove(i);
                self.entries.insert(i, (k, v));
                proof {
                    assert(self.entries@ =~= s.update(i as int, self.entries@[i as int]));
                    lemma_map_update(s, i as int, self.entries@[i as int]);
                }
            },
            Option::None => {
                self.entries.push((k, v));
                proof {
                    lemma_map_push(s, self.entries@[s.len() as int]);
                }
            },
        }
    }

    /// Drops any binding of `k`.
    pub fn remove(&mut self, k: u128)
        requires
            old(self).wf(),
        ensures
            final(self).wf(),
            final(self)@ == old(self)@.remove(k),
    {
        let ghost s = old(self).entries@;
        match self.find_index(k) {
            Option::Some(i) => {
                self.entries.remove(i);
                proof {
                    lemma_map_remove(s, i as int);
                }
            },
            Option::None => {
                proof {
                    assert(self@ =~= old(self)@.remove(k));
                }
            },
        }
    }
}

} // verus!
