//! A map kept as a sequence of key-value pairs in increasing key order, each key at most
//! once.
//!
//! Its keys are structs of this library (such as `ConnId`), ordered by a rank. vstd specifies
//! the order of a `BTreeMap` walk only when `key_obeys_cmp_spec` holds of the key type, and
//! Verus does not prove that for a type whose `Ord` is derived (an `Ord` written by hand, or
//! its spec counterpart, is not accepted here), so the order is kept here instead.

use vstd::prelude::*;

use crate::pubsub::timed_map::RankedKey;

verus! {

/// Strictly increasing keys.
pub open spec fn ordered<K: RankedKey, V>(s: Seq<(K, V)>) -> bool {
    forall|i: int, j: int| 0 <= i < j < s.len() ==> (#[trigger] s[i]).0.rank() < (#[trigger] s[j]).0.rank()
}

pub open spec fn contains_key<K: RankedKey, V>(s: Seq<(K, V)>, k: K) -> bool {
    exists|i: int| 0 <= i < s.len() && #[trigger] s[i].0 == k
}

pub open spec fn index_of_key<K: RankedKey, V>(s: Seq<(K, V)>, k: K) -> int {
    choose|i: int| 0 <= i < s.len() && #[trigger] s[i].0 == k
}

/// Whether `i` is where `k` goes among the keys of `s`: after the smaller ones, before the
/// others.
pub open spec fn is_place<K: RankedKey, V>(s: Seq<(K, V)>, k: K, i: int) -> bool {
    &&& 0 <= i <= s.len()
    &&& forall|j: int| 0 <= j < i ==> (#[trigger] s[j]).0.rank() < k.rank()
    &&& forall|j: int| i <= j < s.len() ==> k.rank() <= (#[trigger] s[j]).0.rank()
}

pub open spec fn place_of<K: RankedKey, V>(s: Seq<(K, V)>, k: K) -> int {
    choose|i: int| is_place(s, k, i)
}

/// `s` with `k` mapped to `v`: replaced in place, or added in order.
pub open spec fn ordered_insert<K: RankedKey, V>(s: Seq<(K, V)>, k: K, v: V) -> Seq<(K, V)> {
    if contains_key(s, k) {
        s.update(index_of_key(s, k), (k, v))
    } else {
        s.insert(place_of(s, k), (k, v))
    }
}

/// `s` without `k`.
pub open spec fn ordered_remove<K: RankedKey, V>(s: Seq<(K, V)>, k: K) -> Seq<(K, V)> {
    if contains_key(s, k) {
        s.remove(index_of_key(s, k))
    } else {
        s
    }
}

proof fn lemma_place_unique<K: RankedKey, V>(s: Seq<(K, V)>, k: K, i: int)
    requires
        is_place(s, k, i),
    ensures
        place_of(s, k) == i,
{
    let c = place_of(s, k);
    assert(is_place(s, k, c));
    if c < i {
        assert(s[c].0.rank() < k.rank());
    } else if c > i {
        assert(s[i].0.rank() < k.rank());
    }
}

/// In an ordered sequence, the key at `i` is found at `i`.
pub proof fn lemma_index_of_key<K: RankedKey, V>(s: Seq<(K, V)>, i: int)
    requires
        ordered(s),
        0 <= i < s.len(),
    ensures
        contains_key(s, s[i].0),
        index_of_key(s, s[i].0) == i,
{
    let k = s[i].0;
    assert(contains_key(s, k));
    let c = index_of_key(s, k);
    if c < i {
        assert(s[c].0.rank() < s[i].0.rank());
    } else if c > i {
        assert(s[i].0.rank() < s[c].0.rank());
    }
}

/// After `k` is mapped to `v`, the keys are still in order and `k` maps to `v`.
pub proof fn lemma_insert_then_find<K: RankedKey, V>(s: Seq<(K, V)>, k: K, v: V)
    requires
        ordered(s),
    ensures
        ordered(ordered_insert(s, k, v)),
        contains_key(ordered_insert(s, k, v), k),
        ordered_insert(s, k, v)[index_of_key(ordered_insert(s, k, v), k)] == (k, v),
{
    let r = ordered_insert(s, k, v);
    if contains_key(s, k) {
        let i = index_of_key(s, k);
        assert forall|a: int, b: int| 0 <= a < b < r.len() implies (#[trigger] r[a]).0.rank() < (#[trigger] r[b]).0.rank() by {
            assert(s[a].0.rank() < s[b].0.rank());
        }
        lemma_index_of_key(r, i);
    } else {
        let p = place_of(s, k);
        assert(is_place(s, k, p)) by {
            lemma_place_exists(s, k);
        }
        if p < s.len() {
            K::lemma_rank_injective(k, s[p].0);
            assert(s[p].0 != k);
        }
        assert forall|a: int, b: int| 0 <= a < b < r.len() implies (#[trigger] r[a]).0.rank() < (#[trigger] r[b]).0.rank() by {
            if b < p {
                assert(r[a] == s[a] && r[b] == s[b]);
            } else if b == p {
                assert(r[a] == s[a]);
            } else if a < p {
                assert(r[a] == s[a] && r[b] == s[b - 1]);
            } else if a == p {
                assert(r[b] == s[b - 1]);
                if b - 1 > p {
                    assert(s[p].0.rank() < s[b - 1].0.rank());
                }
            } else {
                assert(r[a] == s[a - 1] && r[b] == s[b - 1]);
            }
        }
        assert(r[p] == (k, v));
        lemma_index_of_key(r, p);
    }
}

proof fn lemma_place_exists<K: RankedKey, V>(s: Seq<(K, V)>, k: K)
    requires
        ordered(s),
    ensures
        exists|i: int| is_place(s, k, i),
    decreases s.len(),
{
    if s.len() == 0 {
        assert(is_place(s, k, 0));
    } else if s.last().0.rank() < k.rank() {
        assert(is_place(s, k, s.len() as int)) by {
            assert forall|j: int| 0 <= j < s.len() implies (#[trigger] s[j]).0.rank() < k.rank() by {
                if j < s.len() - 1 {
                    assert(s[j].0.rank() < s[s.len() - 1].0.rank());
                }
            }
        }
    } else {
        let d = s.drop_last();
        assert(ordered(d)) by {
            assert forall|a: int, b: int| 0 <= a < b < d.len() implies (#[trigger] d[a]).0.rank() < (#[trigger] d[b]).0.rank() by {
                assert(d[a] == s[a] && d[b] == s[b]);
            }
        }
        lemma_place_exists(d, k);
        let i = choose|i: int| is_place(d, k, i);
        assert(is_place(s, k, i)) by {
            assert forall|j: int| 0 <= j < i implies (#[trigger] s[j]).0.rank() < k.rank() by {
                assert(s[j] == d[j]);
            }
            assert forall|j: int| i <= j < s.len() implies k.rank() <= (#[trigger] s[j]).0.rank() by {
                if j < d.len() {
                    assert(s[j] == d[j]);
                }
            }
        }
    }
}

/// A map whose entries are kept in increasing key order.
pub struct SortedMap<K, V> {
    entries: Vec<(K, V)>,
}

impl<K: RankedKey, V> View for SortedMap<K, V> {
    type V = Seq<(K, V)>;

    closed spec fn view(&self) -> Seq<(K, V)> {
        self.entries@
    }
}

impl<K: RankedKey, V> SortedMap<K, V> {
    pub open spec fn wf(&self) -> bool {
        ordered(self@)
    }

    pub fn new() -> (m: Self)
        ensures
            m.wf(),
            m@ == Seq::<(K, V)>::empty(),
    {
        let m = SortedMap { entries: Vec::new() };
        assert(m@ =~= Seq::<(K, V)>::empty());
        m
    }

    pub fn len(&self) -> (r: usize)
        ensures
            r == self@.len(),
    {
        self.entries.len()
    }

    /// The entry at `i`.
    pub fn at(&self, i: usize) -> (r: &(K, V))
        requires
            i < self@.len(),
        ensures
            *r == self@[i as int],
    {
        &self.entries[i]
    }

    /// Where `k` is, or where it goes: the first place whose key is not smaller.
    fn place(&self, k: K) -> (i: usize)
        requires
            self.wf(),
        ensures
            is_place(self@, k, i as int),
            place_of(self@, k) == i,
    {
        let ghost s = self@;
        let mut i: usize = 0;
        while i < self.entries.len() && self.entries[i].0.rank_less(&k)
            invariant
                self@ == s,
                ordered(s),
                i <= s.len(),
                forall|j: int| 0 <= j < i ==> (#[trigger] s[j]).0.rank() < k.rank(),
            decreases s.len() - i,
        {
            i = i + 1;
        }
        proof {
            assert forall|j: int| i <= j < s.len() implies k.rank() <= (#[trigger] s[j]).0.rank() by {
                if j > i {
                    assert(s[i as int].0.rank() < s[j].0.rank());
                }
            }
            lemma_place_unique(s, k, i as int);
        }
        i
    }

    /// The place of `k`, if it is there.
    pub fn find(&self, k: K) -> (r: Option<usize>)
        requires
            self.wf(),
        ensures
            match r {
                Some(i) => contains_key(self@, k) && i == index_of_key(self@, k) && i < self@.len() && self@[i as int].0 == k,
                None => !contains_key(self@, k),
            },
    {
        let ghost s = self@;
        let i = self.place(k);
        if i < self.entries.len() && !k.rank_less(&self.entries[i].0) {
            proof {
                K::lemma_rank_injective(k, s[i as int].0);
                lemma_index_of_key(s, i as int);
            }
            Some(i)
        } else {
            proof {
                if contains_key(s, k) {
                    let c = index_of_key(s, k);
                    if c < i {
                        assert(s[c].0.rank() < k.rank());
                    } else if c > i {
                        assert(s[i as int].0.rank() < s[c].0.rank());
                    }
                }
            }
            None
        }
    }

    /// Maps `k` to `v`.
    pub fn insert(&mut self, k: K, v: V)
        requires
            old(self).wf(),
        ensures
            final(self).wf(),
            final(self)@ == ordered_insert(old(self)@, k, v),
    {
        let ghost s = self@;
        let i = self.place(k);
        if i < self.entries.len() && !k.rank_less(&self.entries[i].0) {
            proof {
                K::lemma_rank_injective(k, s[i as int].0);
                lemma_index_of_key(s, i as int);
            }
            self.entries.set(i, (k, v));
            proof {
                let r = self@;
                assert forall|a: int, b: int| 0 <= a < b < r.len() implies (#[trigger] r[a]).0.rank() < (#[trigger] r[b]).0.rank() by {
                    assert(s[a].0.rank() < s[b].0.rank());
                }
            }
        } else {
            proof {
                assert(!contains_key(s, k)) by {
                    if contains_key(s, k) {
                        let c = index_of_key(s, k);
                        if c < i {
                            assert(s[c].0.rank() < k.rank());
                        } else {
                            assert(k.rank() <= s[c].0.rank());
                            if c > i {
                                assert(s[i as int].0.rank() < s[c].0.rank());
                            }
                        }
                    }
                }
                if i < s.len() {
                    K::lemma_rank_injective(k, s[i as int].0);
                }
            }
            self.entries.insert(i, (k, v));
            proof {
                let r = self@;
                assert(r =~= s.insert(i as int, (k, v)));
                assert forall|a: int, b: int| 0 <= a < b < r.len() implies (#[trigger] r[a]).0.rank() < (#[trigger] r[b]).0.rank() by {
                    if b < i {
                        assert(r[a] == s[a] && r[b] == s[b]);
                    } else if b == i {
                        assert(r[a] == s[a]);
                    } else if a < i {
                        assert(r[a] == s[a] && r[b] == s[b - 1]);
                    } else if a == i {
                        assert(r[b] == s[b - 1]);
                        if b - 1 > i {
                            assert(s[i as int].0.rank() < s[b - 1].0.rank());
                        }
                    } else {
                        assert(r[a] == s[a - 1] && r[b] == s[b - 1]);
                    }
                }
            }
        }
    }

    /// Takes out the entry at `i`.
    pub fn remove_at(&mut self, i: usize) -> (r: (K, V))
        requires
            old(self).wf(),
            i < old(self)@.len(),
        ensures
            final(self).wf(),
            r == old(self)@[i as int],
            final(self)@ == old(self)@.remove(i as int),
            final(self)@ == ordered_remove(old(self)@, r.0),
    {
        let ghost s = self@;
        proof {
            lemma_index_of_key(s, i as int);
        }
        let r = self.entries.remove(i);
        proof {
            let t = self@;
            assert forall|a: int, b: int| 0 <= a < b < t.len() implies (#[trigger] t[a]).0.rank() < (#[trigger] t[b]).0.rank() by {
                let a2 = if a < i { a } else { a + 1 };
                let b2 = if b < i { b } else { b + 1 };
                assert(t[a] == s[a2] && t[b] == s[b2]);
            }
        }
        r
    }
}

} // verus!
