//! Small verified collections over plain `u128` identifiers.
//!
//! `IdSet` is a duplicate-free vector of ids viewed as a `Set<u128>`;
//! `IdSetMap` is an association list from an id to a non-empty,
//! duplicate-free vector of ids, viewed as a `Map<u128, Set<u128>>`.
//! They back the hub's session, user and room state.

use vstd::prelude::*;

verus! {

broadcast use vstd::seq_lib::lemma_seq_contains_after_push, vstd::seq_lib::lemma_seq_subrange_elements;

/// A finite set of ids, stored without duplicates.
pub struct IdSet {
    items: Vec<u128>,
}

impl View for IdSet {
    type V = Set<u128>;

    closed spec fn view(&self) -> Set<u128> {
        self.items@.to_set()
    }
}

fn vec_contains(src: &Vec<u128>, v: u128) -> (r: bool)
    ensures
        r == src@.contains(v),
{
    let n: usize = src.len();
    let mut i: usize = 0;
    while i < n
        invariant
            i <= n,
            n == src@.len(),
            forall|j: int| 0 <= j < i ==> src@[j] != v,
        decreases n - i,
    {
        if src[i] == v {
            return true;
        }
        i = i + 1;
    }
    false
}

impl IdSet {
    pub closed spec fn wf(self) -> bool {
        self.items@.no_duplicates()
    }

    pub fn new() -> (r: IdSet)
        ensures
            r.wf(),
            r@ == Set::<u128>::empty(),
    {
        let r = IdSet { items: Vec::new() };
        proof {
            assert(r@ =~= Set::<u128>::empty());
        }
        r
    }

    pub fn contains(&self, v: u128) -> (r: bool)
        ensures
            r == self@.contains(v),
    {
        vec_contains(&self.items, v)
    }

    /// Adds `v`; a no-op when `v` is already present.
    pub fn insert(&mut self, v: u128)
        requires
            old(self).wf(),
        ensures
            final(self).wf(),
            final(self)@ == old(self)@.insert(v),
    {
        if !vec_contains(&self.items, v) {
            self.items.push(v);
        }
        proof {
            assert(self@ =~= old(self)@.insert(v));
        }
    }

    /// Removes `v`; a no-op when `v` is absent.
    pub fn remove(&mut self, v: u128)
        requires
            old(self).wf(),
        ensures
            final(self).wf(),
            final(self)@ == old(self)@.remove(v),
    {
        let n: usize = self.items.len();
        let mut i: usize = 0;
        while i < n
            invariant
                i <= n,
                n == self.items@.len(),
                self.items@ == old(self).items@,
                old(self).wf(),
                forall|j: int| 0 <= j < i ==> self.items@[j] != v,
            decreases n - i,
        {
            if self.items[i] == v {
                self.items.remove(i);
                proof {
                    lemma_remove_at_to_set(old(self).items@, i as int);
                    assert(self@ =~= old(self)@.remove(v));
                }
                return ;
            }
            i = i + 1;
        }
        proof {
            assert(!old(self)@.contains(v));
            assert(self@ =~= old(self)@.remove(v));
        }
    }

    pub fn len(&self) -> (r: usize)
        requires
            self.wf(),
        ensures
            r == self@.len(),
    {
        proof {
            self.items@.unique_seq_to_set();
        }
        self.items.len()
    }

    /// The members as a plain vector, without duplicates.
    pub fn elements(&self) -> (r: &Vec<u128>)
        requires
            self.wf(),
        ensures
            r@.no_duplicates(),
            r@.to_set() == self@,
    {
        &self.items
    }
}

/// Removing the element at a position of a duplicate-free sequence removes
/// exactly that element from the set of members.
proof fn lemma_remove_at_to_set(s: Seq<u128>, i: int)
    requires
        s.no_duplicates(),
        0 <= i < s.len(),
    ensures
        s.remove(i).to_set() == s.to_set().remove(s[i]),
        s.remove(i).no_duplicates(),
{
    let t = s.remove(i);
    assert forall|x: u128| t.to_set().contains(x) implies s.to_set().remove(s[i]).contains(x) by {
        let j = choose|j: int| 0 <= j < t.len() && t[j] == x;
        if j < i {
            assert(s[j] == x);
        } else {
            assert(s[j + 1] == x);
        }
    }
    assert forall|x: u128| s.to_set().remove(s[i]).contains(x) implies t.to_set().contains(x) by {
        let j = choose|j: int| 0 <= j < s.len() && s[j] == x;
        if j < i {
            assert(t[j] == x);
        } else {
            assert(j != i);
            assert(t[j - 1] == x);
        }
    }
    assert(t.to_set() =~= s.to_set().remove(s[i]));
}

/// The elements of `src` other than `v`, in order.
fn vec_without(src: &Vec<u128>, v: u128) -> (r: Vec<u128>)
    requires
        src@.no_duplicates(),
    ensures
        r@.no_duplicates(),
        r@.to_set() == src@.to_set().remove(v),
{
    let n: usize = src.len();
    let mut out: Vec<u128> = Vec::new();
    let mut i: usize = 0;
    while i < n
        invariant
            i <= n,
            n == src@.len(),
            src@.no_duplicates(),
            out@.no_duplicates(),
            forall|x: u128|
                out@.contains(x) <==> (src@.subrange(0, i as int).contains(x) && x != v),
        decreases n - i,
    {
        let x = src[i];
        if x != v {
            proof {
                assert(!src@.subrange(0, i as int).contains(x));
                assert(!out@.contains(x));
            }
            out.push(x);
        }
        proof {
            assert forall|y: u128| out@.contains(y) implies (src@.subrange(0, i + 1).contains(y)
                && y != v) by {
                if src@.subrange(0, i as int).contains(y) {
                    let j = choose|j: int| 0 <= j < i && src@.subrange(0, i as int)[j] == y;
                    assert(src@.subrange(0, i + 1)[j] == y);
                } else {
                    assert(src@.subrange(0, i + 1)[i as int] == y);
                }
            }
            assert forall|y: u128|
                src@.subrange(0, i + 1).contains(y) && y != v implies out@.contains(y) by {
                let j = choose|j: int| 0 <= j <= i && #[trigger] src@.subrange(0, i + 1)[j] == y;
                if j < i {
                    assert(src@.subrange(0, i as int)[j] == y);
                }
            }
        }
        i = i + 1;
    }
    proof {
        assert(src@.subrange(0, n as int) =~= src@);
        assert(out@.to_set() =~= src@.to_set().remove(v));
    }
    out
}

/// Whether the keys of an association list are pairwise distinct.
pub open spec fn unique_keys(s: Seq<(u128, Vec<u128>)>) -> bool {
    forall|i: int, j: int| 0 <= i < j < s.len() ==> (#[trigger] s[i]).0 != (#[trigger] s[j]).0
}

/// Whether an association list holds key `k`.
pub open spec fn seq_has_key(s: Seq<(u128, Vec<u128>)>, k: u128) -> bool {
    exists|i: int| 0 <= i < s.len() && (#[trigger] s[i]).0 == k
}

/// The position of key `k` in an association list that holds it.
pub open spec fn seq_index_of_key(s: Seq<(u128, Vec<u128>)>, k: u128) -> int {
    choose|i: int| 0 <= i < s.len() && (#[trigger] s[i]).0 == k
}

/// The map an association list stands for.
pub open spec fn seq_as_map(s: Seq<(u128, Vec<u128>)>) -> Map<u128, Set<u128>> {
    Map::new(|k: u128| seq_has_key(s, k), |k: u128| s[seq_index_of_key(s, k)].1@.to_set())
}

proof fn lemma_index_of_key(s: Seq<(u128, Vec<u128>)>, i: int)
    requires
        unique_keys(s),
        0 <= i < s.len(),
    ensures
        seq_index_of_key(s, s[i].0) == i,
        seq_has_key(s, s[i].0),
        seq_as_map(s)[s[i].0] == s[i].1@.to_set(),
{
    assert(seq_has_key(s, s[i].0));
    let j = seq_index_of_key(s, s[i].0);
    assert(0 <= j < s.len() && s[j].0 == s[i].0);
    if i != j {
        assert(false);
    }
}

/// Replacing the entry at `i` while keeping its key updates exactly that
/// key's binding in the represented map.
proof fn lemma_view_update(s: Seq<(u128, Vec<u128>)>, i: int, e: (u128, Vec<u128>))
    requires
        unique_keys(s),
        0 <= i < s.len(),
        e.0 == s[i].0,
    ensures
        unique_keys(s.update(i, e)),
        seq_as_map(s.update(i, e)) == seq_as_map(s).insert(e.0, e.1@.to_set()),
{
    let t = s.update(i, e);
    assert forall|a: int, b: int| 0 <= a < b < t.len() implies (#[trigger] t[a]).0
        != (#[trigger] t[b]).0 by {
        assert(s[a].0 != s[b].0);
    }
    assert forall|k: u128| seq_has_key(t, k) implies seq_has_key(s, k) by {
        let j = choose|j: int| 0 <= j < t.len() && (#[trigger] t[j]).0 == k;
        assert(s[j].0 == k);
    }
    assert forall|k: u128| seq_has_key(s, k) implies seq_has_key(t, k) by {
        let j = choose|j: int| 0 <= j < s.len() && (#[trigger] s[j]).0 == k;
        assert(t[j].0 == k);
    }
    assert forall|k: u128| seq_has_key(t, k) implies #[trigger] seq_as_map(t)[k] == seq_as_map(
        s,
    ).insert(e.0, e.1@.to_set())[k] by {
        let j = seq_index_of_key(t, k);
        assert(0 <= j < t.len() && t[j].0 == k);
        lemma_index_of_key(t, j);
        if k == e.0 {
            if j != i {
                assert(t[j].0 == t[i].0);
                assert(false);
            }
        } else {
            assert(j != i);
            assert(t[j] == s[j]);
            lemma_index_of_key(s, j);
        }
    }
    assert(seq_as_map(t) =~= seq_as_map(s).insert(e.0, e.1@.to_set()));
}

/// Appending an entry with a fresh key inserts exactly that binding into the
/// represented map.
proof fn lemma_view_push(s: Seq<(u128, Vec<u128>)>, e: (u128, Vec<u128>))
    requires
        unique_keys(s),
        !seq_has_key(s, e.0),
    ensures
        unique_keys(s.push(e)),
        seq_as_map(s.push(e)) == seq_as_map(s).insert(e.0, e.1@.to_set()),
{
    let t = s.push(e);
    assert(t[s.len() as int].0 == e.0);
    assert forall|a: int, b: int| 0 <= a < b < t.len() implies (#[trigger] t[a]).0
        != (#[trigger] t[b]).0 by {
        if b == s.len() {
            if t[a].0 == e.0 {
                assert(s[a].0 == e.0);
                assert(seq_has_key(s, e.0));
            }
        } else {
            assert(s[a].0 != s[b].0);
        }
    }
    assert forall|k: u128| seq_has_key(t, k) implies (seq_has_key(s, k) || k == e.0) by {
        let j = choose|j: int| 0 <= j < t.len() && (#[trigger] t[j]).0 == k;
        if j < s.len() {
            assert(s[j].0 == k);
        }
    }
    assert forall|k: u128| seq_has_key(s, k) implies seq_has_key(t, k) by {
        let j = choose|j: int| 0 <= j < s.len() && (#[trigger] s[j]).0 == k;
        assert(t[j].0 == k);
    }
    assert(seq_has_key(t, e.0));
    assert forall|k: u128| seq_has_key(t, k) implies #[trigger] seq_as_map(t)[k] == seq_as_map(
        s,
    ).insert(e.0, e.1@.to_set())[k] by {
        let j = seq_index_of_key(t, k);
        assert(0 <= j < t.len() && t[j].0 == k);
        lemma_index_of_key(t, j);
        if k == e.0 {
            if j < s.len() {
                assert(s[j].0 == e.0);
                assert(seq_has_key(s, e.0));
                assert(false);
            }
            assert(t[j] == e);
        } else {
            assert(j < s.len());
            assert(t[j] == s[j]);
            lemma_index_of_key(s, j);
        }
    }
    assert(seq_as_map(t) =~= seq_as_map(s).insert(e.0, e.1@.to_set()));
}

/// Removing the entry at `i` removes exactly its key from the represented
/// map.
proof fn lemma_view_remove_entry(s: Seq<(u128, Vec<u128>)>, i: int)
    requires
        unique_keys(s),
        0 <= i < s.len(),
    ensures
        unique_keys(s.remove(i)),
        seq_as_map(s.remove(i)) == seq_as_map(s).remove(s[i].0),
{
    let t = s.remove(i);
    assert forall|a: int, b: int| 0 <= a < b < t.len() implies (#[trigger] t[a]).0
        != (#[trigger] t[b]).0 by {
        let a2: int = if a < i {
            a
        } else {
            a + 1
        };
        let b2: int = if b < i {
            b
        } else {
            b + 1
        };
        assert(t[a] == s[a2]);
        assert(t[b] == s[b2]);
        assert(s[a2].0 != s[b2].0);
    }
    assert forall|k: u128| seq_has_key(t, k) implies (seq_has_key(s, k) && k != s[i].0) by {
        let j = choose|j: int| 0 <= j < t.len() && (#[trigger] t[j]).0 == k;
        let j2: int = if j < i {
            j
        } else {
            j + 1
        };
        assert(t[j] == s[j2]);
        if k == s[i].0 {
            assert(j2 != i);
            assert(s[j2].0 != s[i].0);
        }
    }
    assert forall|k: u128| seq_has_key(s, k) && k != s[i].0 implies seq_has_key(t, k) by {
        let j = choose|j: int| 0 <= j < s.len() && (#[trigger] s[j]).0 == k;
        assert(j != i);
        if j < i {
            assert(t[j].0 == k);
        } else {
            assert(t[j - 1].0 == k);
        }
    }
    assert forall|k: u128| seq_has_key(t, k) implies #[trigger] seq_as_map(t)[k] == seq_as_map(
        s,
    ).remove(s[i].0)[k] by {
        let j = seq_index_of_key(t, k);
        assert(0 <= j < t.len() && t[j].0 == k);
        lemma_index_of_key(t, j);
        let j2: int = if j < i {
            j
        } else {
            j + 1
        };
        assert(t[j] == s[j2]);
        lemma_index_of_key(s, j2);
    }
    assert(seq_as_map(t) =~= seq_as_map(s).remove(s[i].0));
}

/// The value bound to `k` after adding `v` to it, starting a fresh set when
/// `k` was absent.
pub open spec fn set_after_add(m: Map<u128, Set<u128>>, k: u128, v: u128) -> Set<u128> {
    if m.dom().contains(k) {
        m[k].insert(v)
    } else {
        Set::<u128>::empty().insert(v)
    }
}

/// The map after removing `v` from the set bound to `k`, dropping the entry
/// when its set becomes empty.
pub open spec fn map_remove_val(m: Map<u128, Set<u128>>, k: u128, v: u128) -> Map<
    u128,
    Set<u128>,
> {
    if m.dom().contains(k) {
        if m[k].remove(v).is_empty() {
            m.remove(k)
        } else {
            m.insert(k, m[k].remove(v))
        }
    } else {
        m
    }
}

/// The keys whose sets hold nothing but `v`, and so vanish when `v` is
/// removed everywhere.
pub open spec fn keys_emptied_by(m: Map<u128, Set<u128>>, v: u128) -> Set<u128> {
    Set::new(|k: u128| m.dom().contains(k) && m[k].remove(v).is_empty())
}

/// The map after removing `v` from every set, dropping entries whose sets
/// become empty.
pub open spec fn map_purge(m: Map<u128, Set<u128>>, v: u128) -> Map<u128, Set<u128>> {
    Map::new(
        |k: u128| m.dom().contains(k) && !m[k].remove(v).is_empty(),
        |k: u128| m[k].remove(v),
    )
}

/// An association list from an id to a non-empty set of ids, with unique
/// keys; the hub's user and room maps are instances of it.
pub struct IdSetMap {
    entries: Vec<(u128, Vec<u128>)>,
}

impl View for IdSetMap {
    type V = Map<u128, Set<u128>>;

    closed spec fn view(&self) -> Map<u128, Set<u128>> {
        seq_as_map(self.entries@)
    }
}

impl IdSetMap {
    pub closed spec fn wf(self) -> bool {
        &&& unique_keys(self.entries@)
        &&& forall|i: int|
            0 <= i < self.entries@.len() ==> (#[trigger] self.entries@[i]).1@.no_duplicates()
        &&& forall|i: int|
            0 <= i < self.entries@.len() ==> (#[trigger] self.entries@[i]).1@.len() > 0
    }

    pub fn new() -> (r: IdSetMap)
        ensures
            r.wf(),
            r@ == Map::<u128, Set<u128>>::empty(),
    {
        let r = IdSetMap { entries: Vec::new() };
        proof {
            assert(r@ =~= Map::<u128, Set<u128>>::empty());
        }
        r
    }

    /// Every set held by a well-formed map is non-empty.
    pub proof fn lemma_values_nonempty(&self)
        requires
            self.wf(),
        ensures
            forall|k: u128| self@.dom().contains(k) ==> !(#[trigger] self@[k]).is_empty(),
    {
        assert forall|k: u128| self@.dom().contains(k) implies !(#[trigger] self@[k]).is_empty() by {
            let i = seq_index_of_key(self.entries@, k);
            assert(0 <= i < self.entries@.len() && self.entries@[i].0 == k);
            assert(self@[k].contains(self.entries@[i].1@[0]));
        }
    }

    fn find_index(&self, k: u128) -> (r: Option<usize>)
        ensures
            match r {
                Option::Some(i) => i < self.entries@.len() && self.entries@[i as int].0 == k,
                Option::None => !seq_has_key(self.entries@, k),
            },
    {
        let n: usize = self.entries.len();
        let mut i: usize = 0;
        while i < n
            invariant
                i <= n,
                n == self.entries@.len(),
                forall|j: int| 0 <= j < i ==> (#[trigger] self.entries@[j]).0 != k,
            decreases n - i,
        {
            if self.entries[i].0 == k {
                return Option::Some(i);
            }
            i = i + 1;
        }
        Option::None
    }

    pub fn contains_key(&self, k: u128) -> (r: bool)
        ensures
            r == self@.dom().contains(k),
    {
        self.find_index(k).is_some()
    }

    /// The ids bound to `k`, when the entry exists.
    pub fn get(&self, k: u128) -> (r: Option<&Vec<u128>>)
        requires
            self.wf(),
        ensures
            match r {
                Option::Some(v) => self@.dom().contains(k) && v@.to_set() == self@[k]
                    && v@.no_duplicates() && v@.len() > 0,
                Option::None => !self@.dom().contains(k),
            },
    {
        match self.find_index(k) {
            Option::Some(i) => {
                proof {
                    lemma_index_of_key(self.entries@, i as int);
                }
                Option::Some(&self.entries[i].1)
            },
            Option::None => Option::None,
        }
    }

    /// Adds `v` to the set bound to `k`, creating the entry when absent.
    pub fn add_val(&mut self, k: u128, v: u128)
        requires
            old(self).wf(),
        ensures
            final(self).wf(),
            final(self)@ == old(self)@.insert(k, set_after_add(old(self)@, k, v)),
    {
        let ghost s = old(self).entries@;
        let ghost m = old(self)@;
        match self.find_index(k) {
            Option::Some(i) => {
                proof {
                    lemma_index_of_key(s, i as int);
                }
                let mut entry = self.entries.remove(i);
                if !vec_contains(&entry.1, v) {
                    entry.1.push(v);
                }
                proof {
                    assert(entry.1@.no_duplicates());
                    assert(entry.1@.to_set() =~= m[k].insert(v));
                }
                self.entries.insert(i, entry);
                proof {
                    assert(self.entries@ =~= s.update(i as int, entry));
                    lemma_view_update(s, i as int, entry);
                    assert(self@ =~= m.insert(k, set_after_add(m, k, v)));
                }
            },
            Option::None => {
                let mut fresh: Vec<u128> = Vec::new();
                fresh.push(v);
                let entry = (k, fresh);
                proof {
                    assert(entry.1@.to_set() =~= Set::<u128>::empty().insert(v));
                }
                self.entries.push(entry);
                proof {
                    lemma_view_push(s, entry);
                    assert(self@ =~= m.insert(k, set_after_add(m, k, v)));
                }
            },
        }
    }

    /// Removes `v` from the set bound to `k`, dropping the entry when it
    /// becomes empty; a no-op when `k` or `v` is absent.
    pub fn remove_val(&mut self, k: u128, v: u128)
        requires
            old(self).wf(),
        ensures
            final(self).wf(),
            final(self)@ == map_remove_val(old(self)@, k, v),
    {
        let ghost s = old(self).entries@;
        let ghost m = old(self)@;
        match self.find_index(k) {
            Option::Some(i) => {
                proof {
                    lemma_index_of_key(s, i as int);
                }
                let filtered = vec_without(&self.entries[i].1, v);
                proof {
                    assert(filtered@.to_set() =~= m[k].remove(v));
                }
                if filtered.len() == 0 {
                    self.entries.remove(i);
                    proof {
                        assert(m[k].remove(v) =~= Set::<u128>::empty());
                        lemma_view_remove_entry(s, i as int);
                        assert(self@ =~= map_remove_val(m, k, v));
                    }
                } else {
                    let mut entry = self.entries.remove(i);
                    entry.1 = filtered;
                    self.entries.insert(i, entry);
                    proof {
                        assert(self.entries@ =~= s.update(i as int, entry));
                        lemma_view_update(s, i as int, entry);
                        assert(!m[k].remove(v).is_empty()) by {
                            assert(entry.1@.to_set().contains(entry.1@[0]));
                        }
                        assert(self@ =~= map_remove_val(m, k, v));
                    }
                }
            },
            Option::None => {
                proof {
                    assert(self@ =~= map_remove_val(m, k, v));
                }
            },
        }
    }

    /// Removes `v` from every set, dropping entries that become empty, and
    /// returns the keys of the dropped entries.
    pub fn remove_val_everywhere(&mut self, v: u128) -> (gone: Vec<u128>)
        requires
            old(self).wf(),
        ensures
            final(self).wf(),
            final(self)@ == map_purge(old(self)@, v),
            gone@.no_duplicates(),
            gone@.to_set() == keys_emptied_by(old(self)@, v),
    {
        let ghost s = old(self).entries@;
        let mut kept: Vec<(u128, Vec<u128>)> = Vec::new();
        let mut gone: Vec<u128> = Vec::new();
        let n: usize = self.entries.len();
        let mut i: usize = 0;
        while i < n
            invariant
                i <= n,
                n == s.len(),
                self.entries@ == s,
                old(self).wf(),
                unique_keys(kept@),
                forall|a: int| 0 <= a < kept@.len() ==> (#[trigger] kept@[a]).1@.no_duplicates(),
                forall|a: int| 0 <= a < kept@.len() ==> (#[trigger] kept@[a]).1@.len() > 0,
                gone@.no_duplicates(),
                seq_as_map(kept@) =~= map_purge(seq_as_map(s.subrange(0, i as int)), v),
                gone@.to_set() =~= keys_emptied_by(seq_as_map(s.subrange(0, i as int)), v),
                forall|a: int|
                    0 <= a < kept@.len() ==> seq_has_key(
                        s.subrange(0, i as int),
                        (#[trigger] kept@[a]).0,
                    ),
                forall|a: int|
                    0 <= a < gone@.len() ==> seq_has_key(
                        s.subrange(0, i as int),
                        #[trigger] gone@[a],
                    ),
            decreases n - i,
        {
            let ghost prefix = s.subrange(0, i as int);
            let ghost pm = seq_as_map(prefix);
            proof {
                lemma_index_of_key(s, i as int);
                assert forall|j: int| 0 <= j < prefix.len() implies (#[trigger] prefix[j]).0
                    != s[i as int].0 by {
                    assert(prefix[j] == s[j]);
                }
                assert(!seq_has_key(prefix, s[i as int].0));
                assert(unique_keys(prefix));
                lemma_view_push(prefix, s[i as int]);
                assert(s.subrange(0, i + 1) =~= prefix.push(s[i as int]));
                assert(seq_as_map(s.subrange(0, i + 1)) == pm.insert(
                    s[i as int].0,
                    s[i as int].1@.to_set(),
                ));
            }
            let key: u128 = self.entries[i].0;
            let filtered = vec_without(&self.entries[i].1, v);
            proof {
                assert(filtered@.to_set() =~= seq_as_map(s)[key].remove(v));
            }
            if filtered.len() == 0 {
                let ghost gone0 = gone@;
                proof {
                    assert(seq_as_map(s)[key].remove(v) =~= Set::<u128>::empty());
                    assert(!pm.dom().contains(key));
                    assert(!gone@.contains(key));
                }
                gone.push(key);
                proof {
                    let m2 = seq_as_map(s.subrange(0, i + 1));
                    assert(m2 == pm.insert(key, s[i as int].1@.to_set()));
                    assert forall|k2: u128| gone@.to_set().contains(k2) implies keys_emptied_by(
                        m2,
                        v,
                    ).contains(k2) by {
                        assert(gone@.contains(k2));
                        if k2 == key {
                            assert(m2.dom().contains(key));
                            assert(m2[key] == s[i as int].1@.to_set());
                            assert(m2[key].remove(v).is_empty());
                        } else {
                            assert(gone0.contains(k2));
                            assert(gone0.to_set().contains(k2));
                            assert(keys_emptied_by(pm, v).contains(k2));
                            assert(m2[k2] == pm[k2]);
                        }
                    }
                    assert forall|k2: u128|
                        keys_emptied_by(m2, v).contains(k2) implies gone@.to_set().contains(
                        k2,
                    ) by {
                        if k2 == key {
                            assert(gone@[gone@.len() - 1] == key);
                            assert(gone@.contains(key));
                        } else {
                            assert(pm.dom().contains(k2) && pm[k2] == m2[k2]);
                            assert(keys_emptied_by(pm, v).contains(k2));
                            assert(gone0.to_set().contains(k2));
                            let a = choose|a: int| 0 <= a < gone0.len() && gone0[a] == k2;
                            assert(gone@[a] == k2);
                        }
                    }
                    assert(gone@.to_set() =~= keys_emptied_by(
                        seq_as_map(s.subrange(0, i + 1)),
                        v,
                    ));
                    assert(seq_as_map(kept@) =~= map_purge(seq_as_map(s.subrange(0, i + 1)), v));
                    assert forall|a: int| 0 <= a < gone@.len() implies seq_has_key(
                        s.subrange(0, i + 1),
                        #[trigger] gone@[a],
                    ) by {
                        if a < gone@.len() - 1 {
                            lemma_has_key_extend(s, i as int, gone@[a]);
                        } else {
                            assert(s.subrange(0, i + 1)[i as int].0 == key);
                        }
                    }
                    assert forall|a: int| 0 <= a < kept@.len() implies seq_has_key(
                        s.subrange(0, i + 1),
                        (#[trigger] kept@[a]).0,
                    ) by {
                        lemma_has_key_extend(s, i as int, kept@[a].0);
                    }
                }
            } else {
                let entry = (key, filtered);
                proof {
                    assert forall|a: int| 0 <= a < kept@.len() implies (#[trigger] kept@[a]).0
                        != key by {
                        assert(seq_has_key(prefix, kept@[a].0));
                    }
                    assert(!seq_has_key(kept@, key));
                    lemma_view_push(kept@, entry);
                    assert(entry.1@.to_set().contains(entry.1@[0]));
                    assert(!seq_as_map(s)[key].remove(v).is_empty());
                }
                kept.push(entry);
                proof {
                    assert(seq_as_map(kept@) =~= map_purge(seq_as_map(s.subrange(0, i + 1)), v));
                    assert(gone@.to_set() =~= keys_emptied_by(
                        seq_as_map(s.subrange(0, i + 1)),
                        v,
                    ));
                    assert forall|a: int| 0 <= a < gone@.len() implies seq_has_key(
                        s.subrange(0, i + 1),
                        #[trigger] gone@[a],
                    ) by {
                        lemma_has_key_extend(s, i as int, gone@[a]);
                    }
                    assert forall|a: int| 0 <= a < kept@.len() implies seq_has_key(
                        s.subrange(0, i + 1),
                        (#[trigger] kept@[a]).0,
                    ) by {
                        if a < kept@.len() - 1 {
                            lemma_has_key_extend(s, i as int, kept@[a].0);
                        } else {
                            assert(s.subrange(0, i + 1)[i as int].0 == key);
                        }
                    }
                }
            }
            i = i + 1;
        }
        proof {
            assert(s.subrange(0, n as int) =~= s);
        }
        self.entries = kept;
        gone
    }

    /// The keys, without duplicates.
    pub fn keys(&self) -> (r: Vec<u128>)
        requires
            self.wf(),
        ensures
            r@.no_duplicates(),
            r@.to_set() == self@.dom(),
    {
        let n: usize = self.entries.len();
        let mut out: Vec<u128> = Vec::new();
        let mut i: usize = 0;
        while i < n
            invariant
                i <= n,
                n == self.entries@.len(),
                self.wf(),
                out@.len() == i,
                forall|j: int| 0 <= j < i ==> out@[j] == (#[trigger] self.entries@[j]).0,
            decreases n - i,
        {
            out.push(self.entries[i].0);
            i = i + 1;
        }
        proof {
            assert forall|a: int, b: int| 0 <= a < b < out@.len() implies out@[a] != out@[b] by {
                assert(self.entries@[a].0 != self.entries@[b].0);
            }
            assert forall|k: u128| out@.to_set().contains(k) implies self@.dom().contains(k) by {
                let j = choose|j: int| 0 <= j < out@.len() && out@[j] == k;
                assert(self.entries@[j].0 == k);
            }
            assert forall|k: u128| self@.dom().contains(k) implies out@.to_set().contains(k) by {
                let j = seq_index_of_key(self.entries@, k);
                assert(0 <= j < self.entries@.len() && self.entries@[j].0 == k);
                assert(out@[j] == k);
            }
            assert(out@.to_set() =~= self@.dom());
        }
        out
    }

    /// The number of keys.
    pub fn len(&self) -> (r: usize)
        requires
            self.wf(),
        ensures
            r == self@.dom().len(),
    {
        let keys = self.keys();
        proof {
            keys@.unique_seq_to_set();
        }
        keys.len()
    }

}

/// A key found in a prefix is still found when the prefix grows by one.
proof fn lemma_has_key_extend(s: Seq<(u128, Vec<u128>)>, i: int, k: u128)
    requires
        0 <= i < s.len(),
        seq_has_key(s.subrange(0, i), k),
    ensures
        seq_has_key(s.subrange(0, i + 1), k),
{
    let j = choose|j: int| 0 <= j < i && (#[trigger] s.subrange(0, i)[j]).0 == k;
    assert(s.subrange(0, i + 1)[j].0 == k);
}

} // verus!
