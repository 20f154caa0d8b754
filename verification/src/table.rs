//! Tables kept as sequences of pairs in arrival order with each key
//! at most once.
//!
//! The state machines walk their tables while they produce outputs (on a tick, or when a
//! connection closes), and their contracts state those outputs in order. vstd's `HashMap`
//! gives a walk no order, so with it the outputs could only be stated up to a permutation;
//! a table in arrival order fixes the order of every walk.

use vstd::prelude::*;

verus! {

pub open spec fn has_key<K, V>(s: Seq<(K, V)>, k: K) -> bool {
    exists|i: int| 0 <= i < s.len() && #[trigger] s[i].0 == k
}

pub open spec fn key_index<K, V>(s: Seq<(K, V)>, k: K) -> int {
    choose|i: int| 0 <= i < s.len() && #[trigger] s[i].0 == k
}

/// `s` with `k` mapped to `v`: replaced in place, or added at the end.
pub open spec fn upsert<K, V>(s: Seq<(K, V)>, k: K, v: V) -> Seq<(K, V)> {
    if has_key(s, k) {
        s.update(key_index(s, k), (k, v))
    } else {
        s.push((k, v))
    }
}

/// `s` without `k`.
pub open spec fn without_key<K, V>(s: Seq<(K, V)>, k: K) -> Seq<(K, V)> {
    if has_key(s, k) {
        s.remove(key_index(s, k))
    } else {
        s
    }
}

/// No key occurs twice.
pub open spec fn unique_keys<K, V>(s: Seq<(K, V)>) -> bool {
    forall|i: int, j: int| 0 <= i < s.len() && 0 <= j < s.len() && i != j ==> #[trigger] s[i].0 != #[trigger] s[j].0
}

/// The value of `k` in `s`.
pub open spec fn value_of<K, V>(s: Seq<(K, V)>, k: K) -> V {
    s[key_index(s, k)].1
}

pub proof fn lemma_key_index<K, V>(s: Seq<(K, V)>, k: K, i: int)
    requires
        unique_keys(s),
        0 <= i < s.len(),
        s[i].0 == k,
    ensures
        has_key(s, k),
        key_index(s, k) == i,
        value_of(s, k) == s[i].1,
{
    let c = key_index(s, k);
    assert(0 <= c < s.len() && s[c].0 == k);
}

pub proof fn lemma_push_unique<K, V>(s: Seq<(K, V)>, k: K, v: V)
    requires
        unique_keys(s),
        !has_key(s, k),
    ensures
        unique_keys(s.push((k, v))),
{
    let t = s.push((k, v));
    assert forall|i: int, j: int| 0 <= i < t.len() && 0 <= j < t.len() && i != j implies #[trigger] t[i].0 != #[trigger] t[j].0 by {
        if i < s.len() && j < s.len() {
            assert(t[i] == s[i] && t[j] == s[j]);
        } else if i < s.len() {
            assert(t[i] == s[i]);
        } else {
            assert(t[j] == s[j]);
        }
    }
}

pub proof fn lemma_remove_unique<K, V>(s: Seq<(K, V)>, i: int)
    requires
        unique_keys(s),
        0 <= i < s.len(),
    ensures
        unique_keys(s.remove(i)),
        forall|k: K| has_key(s.remove(i), k) ==> has_key(s, k) && k != s[i].0,
{
    let t = s.remove(i);
    assert forall|a: int, b: int| 0 <= a < t.len() && 0 <= b < t.len() && a != b implies #[trigger] t[a].0 != #[trigger] t[b].0 by {
        let a1 = if a < i { a } else { a + 1 };
        let b1 = if b < i { b } else { b + 1 };
        assert(t[a] == s[a1] && t[b] == s[b1]);
    }
    assert forall|k: K| has_key(t, k) implies has_key(s, k) && k != s[i].0 by {
        let a = choose|a: int| 0 <= a < t.len() && #[trigger] t[a].0 == k;
        let a1 = if a < i { a } else { a + 1 };
        assert(t[a] == s[a1]);
    }
}

pub proof fn lemma_update_unique<K, V>(s: Seq<(K, V)>, i: int, v: V)
    requires
        unique_keys(s),
        0 <= i < s.len(),
    ensures
        unique_keys(s.update(i, (s[i].0, v))),
{
    let t = s.update(i, (s[i].0, v));
    assert forall|a: int, b: int| 0 <= a < t.len() && 0 <= b < t.len() && a != b implies #[trigger] t[a].0 != #[trigger] t[b].0 by {
        assert(t[a].0 == s[a].0 && t[b].0 == s[b].0);
    }
}

/// The place of `k` among the keys of `v`, if it is there.
pub fn find_key<V>(v: &Vec<(u64, V)>, k: u64) -> (r: Option<usize>)
    requires
        unique_keys(v@),
    ensures
        match r {
            Some(i) => has_key(v@, k) && i == key_index(v@, k) && i < v@.len(),
            None => !has_key(v@, k),
        },
{
    let mut i: usize = 0;
    while i < v.len()
        invariant
            unique_keys(v@),
            i <= v@.len(),
            forall|j: int| 0 <= j < i ==> v@[j].0 != k,
        decreases v@.len() - i,
    {
        if v[i].0 == k {
            proof {
                lemma_key_index(v@, k, i as int);
            }
            return Some(i);
        }
        i = i + 1;
    }
    None
}

/// Maps `k` to `val` in `v`.
pub fn upsert_vec<V>(v: &mut Vec<(u64, V)>, k: u64, val: V)
    requires
        unique_keys(old(v)@),
    ensures
        unique_keys(final(v)@),
        final(v)@ == upsert(old(v)@, k, val),
{
    match find_key(v, k) {
        Some(i) => {
            proof {
                lemma_update_unique(v@, i as int, val);
            }
            v.set(i, (k, val));
        },
        None => {
            proof {
                lemma_push_unique(v@, k, val);
            }
            v.push((k, val));
        },
    }
}

/// Drops `k` from `v`.
pub fn remove_key<V>(v: &mut Vec<(u64, V)>, k: u64)
    requires
        unique_keys(old(v)@),
    ensures
        unique_keys(final(v)@),
        final(v)@ == without_key(old(v)@, k),
{
    if let Some(i) = find_key(v, k) {
        proof {
            lemma_remove_unique(v@, i as int);
        }
        v.remove(i);
    }
}

} // verus!
