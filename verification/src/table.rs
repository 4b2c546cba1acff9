//! A small association table: at most one value per key, looked up by the key's view.

use vstd::prelude::*;

verus! {

/// A key of a [`Table`]: two keys are the same when their views are.
pub trait Key: View + Sized {
    /// Whether the two keys have the same view.
    fn same(&self, other: &Self) -> (r: bool)
        ensures
            r == (self@ == other@),
    ;
}

impl Key for String {
    fn same(&self, other: &Self) -> (r: bool) {
        *self == *other
    }
}

impl Key for u16 {
    fn same(&self, other: &Self) -> (r: bool) {
        *self == *other
    }
}

impl Key for u64 {
    fn same(&self, other: &Self) -> (r: bool) {
        *self == *other
    }
}

/// A finite map from keys to values, kept as a list of pairs with distinct keys.
#[derive(Clone, Debug)]
pub struct Table<K: Key, T> {
    slots: Vec<(K, T)>,
}

/// The index of the pair of the key `k`, where there is one.
pub open spec fn slot_of<K: Key, T>(slots: Seq<(K, T)>, k: K::V) -> int {
    choose|i: int| 0 <= i < slots.len() && (#[trigger] slots[i]).0@ == k
}

/// Whether some pair is that of the key `k`.
pub open spec fn holds<K: Key, T>(slots: Seq<(K, T)>, k: K::V) -> bool {
    exists|i: int| 0 <= i < slots.len() && (#[trigger] slots[i]).0@ == k
}

/// Whether no two pairs are of the same key.
pub open spec fn distinct<K: Key, T>(slots: Seq<(K, T)>) -> bool {
    forall|i: int, j: int|
        0 <= i < slots.len() && 0 <= j < slots.len() && (#[trigger] slots[i]).0@ == (
        #[trigger] slots[j]).0@ ==> i == j
}

/// Whether the pairs are those of the map, each once.
pub open spec fn lists<K: Key, T>(pairs: Seq<(K, T)>, m: Map<K::V, T>) -> bool {
    &&& distinct(pairs)
    &&& forall|k: K::V| #[trigger] m.contains_key(k) <==> holds(pairs, k)
    &&& forall|i: int|
        0 <= i < pairs.len() ==> m.contains_key((#[trigger] pairs[i]).0@) && m[pairs[i].0@] == pairs[i].1
}

impl<K: Key, T> View for Table<K, T> {
    type V = Map<K::V, T>;

    closed spec fn view(&self) -> Map<K::V, T> {
        Map::new(
            |k: K::V| holds(self.slots@, k),
            |k: K::V| self.slots@[slot_of(self.slots@, k)].1,
        )
    }
}

impl<K: Key, T> Table<K, T> {
    /// No two slots hold the same key.
    pub closed spec fn wf(&self) -> bool {
        distinct(self.slots@)
    }

    /// The slot at `i` is what the map gives for its key.
    proof fn lemma_slot(&self, i: int)
        requires
            self.wf(),
            0 <= i < self.slots@.len(),
        ensures
            self@.contains_key(self.slots@[i].0@),
            self@[self.slots@[i].0@] == self.slots@[i].1,
    {
        let k = self.slots@[i].0@;
        assert(holds(self.slots@, k));
        let j = slot_of(self.slots@, k);
        assert(self.slots@[j].0@ == self.slots@[i].0@);
    }

    /// An empty table.
    pub fn new() -> (r: Self)
        ensures
            r.wf(),
            r@ == Map::<K::V, T>::empty(),
    {
        let r = Table { slots: Vec::new() };
        assert(r@ =~= Map::<K::V, T>::empty());
        r
    }

    /// The number of keys.
    pub fn len(&self) -> (n: usize)
        requires
            self.wf(),
        ensures
            n == self@.dom().len(),
            self@.dom().finite(),
    {
        proof {
            self.lemma_len();
        }
        self.slots.len()
    }

    proof fn lemma_len(&self)
        requires
            self.wf(),
        ensures
            self@.dom().len() == self.slots@.len(),
            self@.dom().finite(),
    {
        let keys = self.slots@.map_values(|s: (K, T)| s.0@);
        assert(keys.no_duplicates()) by {
            assert forall|i: int, j: int|
                0 <= i < keys.len() && 0 <= j < keys.len() && i != j implies keys[i] != keys[j] by {
                assert(self.slots@[i].0@ == keys[i]);
                assert(self.slots@[j].0@ == keys[j]);
            }
        }
        keys.unique_seq_to_set();
        assert(keys.to_set() =~= self@.dom()) by {
            assert forall|k: K::V| keys.to_set().contains(k) == #[trigger] self@.dom().contains(k) by {
                if keys.contains(k) {
                    let i = choose|i: int| 0 <= i < keys.len() && keys[i] == k;
                    assert(self.slots@[i].0@ == k);
                }
                if self@.dom().contains(k) {
                    let i = slot_of(self.slots@, k);
                    assert(keys[i] == k);
                }
            }
        }
        vstd::seq_lib::seq_to_set_is_finite(keys);
    }

    /// The slot of `k`, if there is one.
    fn find(&self, k: &K) -> (r: Option<usize>)
        requires
            self.wf(),
        ensures
            match r {
                Some(i) => i < self.slots@.len() && self.slots@[i as int].0@ == k@
                    && self@.contains_key(k@) && self@[k@] == self.slots@[i as int].1,
                None => !self@.contains_key(k@),
            },
    {
        let mut i: usize = 0;
        while i < self.slots.len()
            invariant
                i <= self.slots.len(),
                self.wf(),
                forall|j: int| 0 <= j < i ==> (#[trigger] self.slots@[j]).0@ != k@,
            decreases self.slots.len() - i,
        {
            if self.slots[i].0.same(k) {
                proof {
                    self.lemma_slot(i as int);
                }
                return Some(i);
            }
            i += 1;
        }
        None
    }

    /// Whether the table has the key.
    pub fn contains(&self, k: &K) -> (r: bool)
        requires
            self.wf(),
        ensures
            r == self@.contains_key(k@),
    {
        self.find(k).is_some()
    }

    /// The value of the key.
    pub fn get(&self, k: &K) -> (r: Option<&T>)
        requires
            self.wf(),
        ensures
            match r {
                Some(v) => self@.contains_key(k@) && *v == self@[k@],
                None => !self@.contains_key(k@),
            },
    {
        match self.find(k) {
            Some(i) => Some(&self.slots[i].1),
            None => None,
        }
    }

    /// Takes the key out, with its value.
    pub fn remove(&mut self, k: &K) -> (r: Option<T>)
        requires
            old(self).wf(),
        ensures
            final(self).wf(),
            final(self)@ == old(self)@.remove(k@),
            match r {
                Some(v) => old(self)@.contains_key(k@) && v == old(self)@[k@],
                None => !old(self)@.contains_key(k@),
            },
    {
        let ghost before = *self;
        match self.find(k) {
            Some(i) => {
                let slot = self.slots.swap_remove(i);
                proof {
                    let n = before.slots@.len();
                    assert forall|a: int, b: int|
                        0 <= a < self.slots@.len() && 0 <= b < self.slots@.len() && (
                        #[trigger] self.slots@[a]).0@ == (#[trigger] self.slots@[b]).0@ implies a
                        == b by {
                        let a0 = if a == i { n - 1 } else { a };
                        let b0 = if b == i { n - 1 } else { b };
                        assert(before.slots@[a0].0@ == before.slots@[b0].0@);
                    }
                    assert forall|j: int| 0 <= j < self.slots@.len() implies before@.contains_key(
                        (#[trigger] self.slots@[j]).0@,
                    ) && before@[self.slots@[j].0@] == self.slots@[j].1 && self.slots@[j].0@ != k@ by {
                        let j0 = if j == i { n - 1 } else { j };
                        assert(self.slots@[j] == before.slots@[j0]);
                        before.lemma_slot(j0);
                        assert(before.slots@[i as int].0@ == k@);
                    }
                    assert forall|q: K::V| #[trigger] before@.contains_key(q) && q != k@ implies holds(
                        self.slots@,
                        q,
                    ) by {
                        let j0 = slot_of(before.slots@, q);
                        assert(before.slots@[j0].0@ == q);
                        let j = if j0 == n - 1 { i as int } else { j0 };
                        assert(self.slots@[j] == before.slots@[j0]);
                    }
                    assert forall|q: K::V| #[trigger] holds(self.slots@, q) implies before@.contains_key(
                        q,
                    ) && q != k@ && self@[q] == before@[q] by {
                        let j = slot_of(self.slots@, q);
                        assert(self.slots@[j].0@ == q);
                        assert(before@.contains_key(self.slots@[j].0@));
                    }
                    assert(self@ =~= before@.remove(k@));
                }
                Some(slot.1)
            },
            None => {
                assert(self@ =~= before@.remove(k@));
                None
            },
        }
    }

    /// Sets the value of the key, in place of the one it had.
    pub fn insert(&mut self, k: K, v: T)
        requires
            old(self).wf(),
        ensures
            final(self).wf(),
            final(self)@ == old(self)@.insert(k@, v),
    {
        let ghost key = k@;
        let ghost start = self@;
        let _ = self.remove(&k);
        let ghost before = *self;
        assert(!before@.contains_key(key));
        self.slots.push((k, v));
        proof {
            let n = before.slots@.len() as int;
            assert forall|a: int| 0 <= a < n implies (#[trigger] self.slots@[a]).0@ != key by {
                before.lemma_slot(a);
                assert(self.slots@[a] == before.slots@[a]);
            }
            assert(self.slots@[n] == (k, v));
            assert(distinct(self.slots@)) by {
                assert forall|a: int, b: int|
                    0 <= a < self.slots@.len() && 0 <= b < self.slots@.len() && (
                    #[trigger] self.slots@[a]).0@ == (#[trigger] self.slots@[b]).0@ implies a == b by {
                    if a < n && b < n {
                        assert(before.slots@[a].0@ == before.slots@[b].0@);
                    }
                }
            }
            assert forall|q: K::V| holds(self.slots@, q) <==> (#[trigger] before@.contains_key(q) || q
                == key) by {
                if holds(self.slots@, q) {
                    let j = slot_of(self.slots@, q);
                    if j < n {
                        assert(before.slots@[j].0@ == q);
                    }
                }
                if before@.contains_key(q) {
                    let j = slot_of(before.slots@, q);
                    assert(self.slots@[j].0@ == q);
                }
                if q == key {
                    assert(self.slots@[n].0@ == q);
                }
            }
            assert forall|q: K::V| #[trigger] self@.contains_key(q) implies self@[q]
                == start.insert(key, v)[q] by {
                let j = slot_of(self.slots@, q);
                assert(self.slots@[j].0@ == q);
                if j < n {
                    before.lemma_slot(j);
                }
            }
            assert forall|q: K::V| self@.contains_key(q) == start.insert(key, v).contains_key(q) by {
                assert(before@.contains_key(q) == start.remove(key).contains_key(q));
            }
            assert(self@ =~= start.insert(key, v));
        }
    }

    /// Some entry on which `wanted` answers `true`.
    pub fn find_by<F: Fn(&K, &T) -> bool>(&self, wanted: F) -> (r: Option<(&K, &T)>)
        requires
            self.wf(),
            forall|k: &K, v: &T| #[trigger] wanted.requires((k, v)),
        ensures
            match r {
                Some((k, v)) => self@.contains_key(k@) && self@[k@] == *v && wanted.ensures(
                    (k, v),
                    true,
                ),
                None => forall|q: K::V| #[trigger]
                    self@.contains_key(q) ==> exists|k: K|
                        k@ == q && #[trigger] wanted.ensures((&k, &self@[q]), false),
            },
    {
        let mut i: usize = 0;
        while i < self.slots.len()
            invariant
                i <= self.slots@.len(),
                self.wf(),
                forall|k: &K, v: &T| #[trigger] wanted.requires((k, v)),
                forall|j: int|
                    0 <= j < i ==> wanted.ensures(
                        (&(#[trigger] self.slots@[j]).0, &self.slots@[j].1),
                        false,
                    ),
            decreases self.slots@.len() - i,
        {
            let k: &K = &self.slots[i].0;
            let v: &T = &self.slots[i].1;
            proof {
                self.lemma_slot(i as int);
            }
            if wanted(k, v) {
                return Some((k, v));
            }
            i += 1;
        }
        proof {
            assert forall|q: K::V| #[trigger] self@.contains_key(q) implies exists|k: K|
                k@ == q && #[trigger] wanted.ensures((&k, &self@[q]), false) by {
                let j = slot_of(self.slots@, q);
                assert(self.slots@[j].0@ == q);
                self.lemma_slot(j);
                let k = self.slots@[j].0;
                assert(wanted.ensures((&k, &self@[q]), false));
            }
        }
        None
    }

    /// Takes every entry out.
    pub fn drain(&mut self) -> (r: Vec<(K, T)>)
        requires
            old(self).wf(),
        ensures
            final(self).wf(),
            final(self)@ == Map::<K::V, T>::empty(),
            lists(r@, old(self)@),
    {
        let ghost before = *self;
        let mut out: Vec<(K, T)> = Vec::new();
        std::mem::swap(&mut out, &mut self.slots);
        proof {
            assert(self@ =~= Map::<K::V, T>::empty());
            assert forall|i: int| 0 <= i < out@.len() implies before@.contains_key(
                (#[trigger] out@[i]).0@,
            ) && before@[out@[i].0@] == out@[i].1 by {
                before.lemma_slot(i);
            }
        }
        out
    }

    /// Keeps the entries on which `keep` answers `true`.
    pub fn retain<F: Fn(&K, &T) -> bool>(&mut self, keep: F)
        requires
            old(self).wf(),
            forall|k: &K, v: &T| #[trigger] keep.requires((k, v)),
        ensures
            final(self).wf(),
            forall|q: K::V| #[trigger]
                final(self)@.contains_key(q) ==> old(self)@.contains_key(q) && final(self)@[q]
                    == old(self)@[q] && exists|k: K|
                    k@ == q && #[trigger] keep.ensures((&k, &old(self)@[q]), true),
            forall|q: K::V| #[trigger]
                old(self)@.contains_key(q) && !final(self)@.contains_key(q) ==> exists|k: K|
                    k@ == q && #[trigger] keep.ensures((&k, &old(self)@[q]), false),
    {
        let ghost before = *self;
        let mut kept: Vec<(K, T)> = Vec::new();
        let mut rest: Vec<(K, T)> = Vec::new();
        std::mem::swap(&mut rest, &mut self.slots);
        let ghost all = rest@;
        let ghost mut done: int = all.len() as int;
        while rest.len() > 0
            invariant
                distinct(all),
                all == before.slots@,
                before.wf(),
                done == rest@.len(),
                0 <= done <= all.len(),
                rest@ == all.subrange(0, done),
                forall|k: &K, v: &T| #[trigger] keep.requires((k, v)),
                distinct(kept@),
                forall|j: int|
                    0 <= j < kept@.len() ==> exists|i: int|
                        done <= i < all.len() && all[i] == #[trigger] kept@[j] && keep.ensures(
                            (&all[i].0, &all[i].1),
                            true,
                        ),
                forall|i: int|
                    done <= i < all.len() ==> holds(kept@, (#[trigger] all[i]).0@) || keep.ensures(
                        (&all[i].0, &all[i].1),
                        false,
                    ),
            decreases rest@.len(),
        {
            let slot = rest.pop().unwrap();
            proof {
                assert(slot == all[done - 1]);
            }
            let wanted: bool = keep(&slot.0, &slot.1);
            let ghost was = kept@;
            if wanted {
                proof {
                    assert forall|j: int| 0 <= j < was.len() implies (#[trigger] was[j]).0@ != slot.0@ by {
                        let i = choose|i: int|
                            done <= i < all.len() && all[i] == was[j] && keep.ensures(
                                (&all[i].0, &all[i].1),
                                true,
                            );
                        assert(all[i].0@ != all[done - 1].0@);
                    }
                }
                kept.push(slot);
                proof {
                    assert(kept@[was.len() as int] == slot);
                    assert forall|i: int| done - 1 <= i < all.len() implies holds(
                        kept@,
                        (#[trigger] all[i]).0@,
                    ) || keep.ensures((&all[i].0, &all[i].1), false) by {
                        if i >= done && holds(was, all[i].0@) {
                            let j = slot_of(was, all[i].0@);
                            assert(kept@[j].0@ == all[i].0@);
                        }
                    }
                    assert forall|j: int| 0 <= j < kept@.len() implies exists|i: int|
                        done - 1 <= i < all.len() && all[i] == #[trigger] kept@[j] && keep.ensures(
                            (&all[i].0, &all[i].1),
                            true,
                        ) by {
                        if j < was.len() {
                            assert(kept@[j] == was[j]);
                        }
                    }
                }
            }
            proof {
                done = done - 1;
                assert(rest@ =~= all.subrange(0, done));
            }
        }
        self.slots = kept;
        proof {
            assert forall|q: K::V| #[trigger] self@.contains_key(q) implies before@.contains_key(q)
                && self@[q] == before@[q] && exists|k: K|
                k@ == q && #[trigger] keep.ensures((&k, &before@[q]), true) by {
                let j = slot_of(self.slots@, q);
                assert(self.slots@[j].0@ == q);
                let i = choose|i: int|
                    0 <= i < all.len() && all[i] == self.slots@[j] && keep.ensures(
                        (&all[i].0, &all[i].1),
                        true,
                    );
                before.lemma_slot(i);
                let k = all[i].0;
                assert(keep.ensures((&k, &before@[q]), true));
            }
            assert forall|q: K::V| #[trigger] before@.contains_key(q) && !self@.contains_key(q) implies
                exists|k: K| k@ == q && #[trigger] keep.ensures((&k, &before@[q]), false) by {
                let i = slot_of(before.slots@, q);
                assert(all[i].0@ == q);
                before.lemma_slot(i);
                assert(!holds(self.slots@, q));
                let k = all[i].0;
                assert(keep.ensures((&k, &before@[q]), false));
            }
        }
    }

    /// Replaces every value by what `change` makes of it.
    pub fn update_all<F: Fn(T) -> T>(&mut self, change: F)
        requires
            old(self).wf(),
            forall|q: K::V| #[trigger]
                old(self)@.contains_key(q) ==> change.requires((old(self)@[q],)),
        ensures
            final(self).wf(),
            final(self)@.dom() == old(self)@.dom(),
            forall|q: K::V| #[trigger]
                old(self)@.contains_key(q) ==> change.ensures((old(self)@[q],), final(self)@[q]),
    {
        let ghost before = *self;
        let mut rest: Vec<(K, T)> = Vec::new();
        std::mem::swap(&mut rest, &mut self.slots);
        let ghost all = rest@;
        let mut out: Vec<(K, T)> = Vec::new();
        for slot in it: rest.into_iter()
            invariant
                it.seq() == all,
                all == before.slots@,
                before.wf(),
                forall|q: K::V| #[trigger]
                    before@.contains_key(q) ==> change.requires((before@[q],)),
                out@.len() == it.index(),
                forall|i: int|
                    0 <= i < out@.len() ==> (#[trigger] out@[i]).0@ == all[i].0@ && change.ensures(
                        (all[i].1,),
                        out@[i].1,
                    ),
        {
            let ghost i = it.index();
            assert(slot == all[i]);
            proof {
                before.lemma_slot(i);
            }
            let (k, v) = slot;
            let w: T = change(v);
            out.push((k, w));
        }
        self.slots = out;
        proof {
            assert forall|a: int, b: int|
                0 <= a < self.slots@.len() && 0 <= b < self.slots@.len() && (#[trigger] self.slots@[a]).0@
                    == (#[trigger] self.slots@[b]).0@ implies a == b by {
                assert(all[a].0@ == all[b].0@);
            }
            assert forall|q: K::V| #[trigger] self@.contains_key(q) == before@.contains_key(q) by {
                if holds(self.slots@, q) {
                    let i = slot_of(self.slots@, q);
                    assert(all[i].0@ == q);
                }
                if holds(all, q) {
                    let i = slot_of(all, q);
                    assert(self.slots@[i].0@ == q);
                }
            }
            assert(self@.dom() =~= before@.dom());
            assert forall|q: K::V| #[trigger] before@.contains_key(q) implies change.ensures(
                (before@[q],),
                self@[q],
            ) by {
                let i = slot_of(all, q);
                assert(all[i].0@ == q);
                assert(self.slots@[i].0@ == q);
                before.lemma_slot(i);
                self.lemma_slot(i);
            }
        }
    }
}

} // verus!
