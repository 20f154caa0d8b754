//! A map from keys to the time they were last seen, kept in increasing key order.
//!
//! Its keys are node ids and neighbour addresses (`PeerAddr`, an enum of this library).
//! vstd specifies the order of a `BTreeMap` walk only when `key_obeys_cmp_spec` holds of the
//! key type, and Verus does not prove that for `PeerAddr`, whose `Ord` is derived; nor does
//! it prove `obeys_key_model` for it, which vstd's `HashMap` contracts rest on. The map is
//! therefore kept as a sorted sequence, with its order stated.

use vstd::prelude::*;

use crate::types::{NodeId, PeerAddr};

verus! {

/// A key with a total order, given by an injective rank.
pub trait RankedKey: Copy + Sized {
    spec fn rank(self) -> int;

    proof fn lemma_rank_injective(a: Self, b: Self)
        ensures
            a.rank() == b.rank() ==> a == b,
    ;

    fn rank_less(&self, other: &Self) -> (r: bool)
        ensures
            r == (self.rank() < other.rank()),
    ;
}

impl RankedKey for NodeId {
    open spec fn rank(self) -> int {
        self as int
    }

    proof fn lemma_rank_injective(a: Self, b: Self) {
    }

    fn rank_less(&self, other: &Self) -> (r: bool) {
        *self < *other
    }
}

/// The rank of an address: IPv4 before IPv6, then by address, then by port.
pub open spec fn addr_rank(a: PeerAddr) -> int {
    match a {
        PeerAddr::V4(ip, port) => ip * 0x1_0000 + port,
        PeerAddr::V6(ip, port) => 0x1_0000_0000_0000 + ip * 0x1_0000 + port,
    }
}

impl RankedKey for PeerAddr {
    open spec fn rank(self) -> int {
        addr_rank(self)
    }

    proof fn lemma_rank_injective(a: Self, b: Self) {
        match (a, b) {
            (PeerAddr::V4(x, p), PeerAddr::V4(y, q)) => {
                if addr_rank(a) == addr_rank(b) {
                    assert(x == y && p == q) by (nonlinear_arith)
                        requires
                            x * 0x1_0000 + p == y * 0x1_0000 + q,
                            p < 0x1_0000,
                            q < 0x1_0000,
                    ;
                }
            },
            (PeerAddr::V6(x, p), PeerAddr::V6(y, q)) => {
                if addr_rank(a) == addr_rank(b) {
                    assert(x == y && p == q) by (nonlinear_arith)
                        requires
                            x * 0x1_0000 + p == y * 0x1_0000 + q,
                            p < 0x1_0000,
                            q < 0x1_0000,
                    ;
                }
            },
            (PeerAddr::V4(x, p), PeerAddr::V6(y, q)) => {
                assert(x * 0x1_0000 + p < 0x1_0000_0000_0000) by (nonlinear_arith)
                    requires
                        x < 0x1_0000_0000,
                        p < 0x1_0000,
                ;
            },
            (PeerAddr::V6(x, p), PeerAddr::V4(y, q)) => {
                assert(y * 0x1_0000 + q < 0x1_0000_0000_0000) by (nonlinear_arith)
                    requires
                        y < 0x1_0000_0000,
                        q < 0x1_0000,
                ;
            },
        }
    }

    fn rank_less(&self, other: &Self) -> (r: bool) {
        let r = crate::types::addr_less(*self, *other);
        proof {
            let (a, b) = (*self, *other);
            match (a, b) {
                (PeerAddr::V4(x, p), PeerAddr::V4(y, q)) => {
                    assert((x < y || (x == y && p < q)) == (addr_rank(a) < addr_rank(b))) by (nonlinear_arith)
                        requires
                            p < 0x1_0000,
                            q < 0x1_0000,
                            addr_rank(a) == x * 0x1_0000 + p,
                            addr_rank(b) == y * 0x1_0000 + q,
                    ;
                },
                (PeerAddr::V6(x, p), PeerAddr::V6(y, q)) => {
                    assert((x < y || (x == y && p < q)) == (addr_rank(a) < addr_rank(b))) by (nonlinear_arith)
                        requires
                            p < 0x1_0000,
                            q < 0x1_0000,
                            addr_rank(a) == 0x1_0000_0000_0000 + x * 0x1_0000 + p,
                            addr_rank(b) == 0x1_0000_0000_0000 + y * 0x1_0000 + q,
                    ;
                },
                (PeerAddr::V4(x, p), PeerAddr::V6(y, q)) => {
                    assert(x * 0x1_0000 + p < 0x1_0000_0000_0000) by (nonlinear_arith)
                        requires
                            x < 0x1_0000_0000,
                            p < 0x1_0000,
                    ;
                    assert(y * 0x1_0000 + q >= 0) by (nonlinear_arith)
                        requires
                            y >= 0,
                            q >= 0,
                    ;
                },
                (PeerAddr::V6(x, p), PeerAddr::V4(y, q)) => {
                    assert(y * 0x1_0000 + q < 0x1_0000_0000_0000) by (nonlinear_arith)
                        requires
                            y < 0x1_0000_0000,
                            q < 0x1_0000,
                    ;
                    assert(x * 0x1_0000 + p >= 0) by (nonlinear_arith)
                        requires
                            x >= 0,
                            p >= 0,
                    ;
                },
            }
        }
        r
    }
}

/// Strictly increasing keys.
pub open spec fn sorted<K: RankedKey>(s: Seq<(K, u64)>) -> bool {
    forall|i: int, j: int| 0 <= i < j < s.len() ==> (#[trigger] s[i]).0.rank() < (#[trigger] s[j]).0.rank()
}

pub open spec fn has_key<K: RankedKey>(s: Seq<(K, u64)>, k: K) -> bool {
    exists|i: int| 0 <= i < s.len() && #[trigger] s[i].0 == k
}

pub open spec fn key_index<K: RankedKey>(s: Seq<(K, u64)>, k: K) -> int {
    choose|i: int| 0 <= i < s.len() && #[trigger] s[i].0 == k
}

/// Where `k` goes among the keys: after the smaller ones, before the others.
pub open spec fn insert_pos<K: RankedKey>(s: Seq<(K, u64)>, k: K) -> int {
    choose|i: int| is_insert_pos(s, k, i)
}

pub open spec fn is_insert_pos<K: RankedKey>(s: Seq<(K, u64)>, k: K, i: int) -> bool {
    &&& 0 <= i <= s.len()
    &&& forall|j: int| 0 <= j < i ==> (#[trigger] s[j]).0.rank() < k.rank()
    &&& forall|j: int| i <= j < s.len() ==> k.rank() <= (#[trigger] s[j]).0.rank()
}

/// `s` with `k` seen at `t`: its time is replaced, or it is added in order.
pub open spec fn timed_insert<K: RankedKey>(s: Seq<(K, u64)>, k: K, t: u64) -> Seq<(K, u64)> {
    if has_key(s, k) {
        s.update(key_index(s, k), (k, t))
    } else {
        s.insert(insert_pos(s, k), (k, t))
    }
}

/// `s` without `k`.
pub open spec fn timed_remove<K: RankedKey>(s: Seq<(K, u64)>, k: K) -> Seq<(K, u64)> {
    if has_key(s, k) {
        s.remove(key_index(s, k))
    } else {
        s
    }
}

/// The entries seen less than `timeout` before `now`.
pub open spec fn live<K: RankedKey>(s: Seq<(K, u64)>, now: u64, timeout: u64) -> Seq<(K, u64)>
    decreases s.len(),
{
    if s.len() == 0 {
        Seq::empty()
    } else if now - s.last().1 >= timeout {
        live(s.drop_last(), now, timeout)
    } else {
        live(s.drop_last(), now, timeout).push(s.last())
    }
}

/// The keys seen `timeout` or more before `now`, in order.
pub open spec fn expired<K: RankedKey>(s: Seq<(K, u64)>, now: u64, timeout: u64) -> Seq<K>
    decreases s.len(),
{
    if s.len() == 0 {
        Seq::empty()
    } else if now - s.last().1 >= timeout {
        expired(s.drop_last(), now, timeout).push(s.last().0)
    } else {
        expired(s.drop_last(), now, timeout)
    }
}

/// The keys of `s`, in order.
pub open spec fn keys_of<K: RankedKey>(s: Seq<(K, u64)>) -> Seq<K> {
    s.map_values(|e: (K, u64)| e.0)
}

/// Every time is at most `now`.
pub open spec fn seen_by<K: RankedKey>(s: Seq<(K, u64)>, now: u64) -> bool {
    forall|i: int| 0 <= i < s.len() ==> (#[trigger] s[i]).1 <= now
}

proof fn lemma_insert_pos_unique<K: RankedKey>(s: Seq<(K, u64)>, k: K, i: int)
    requires
        is_insert_pos(s, k, i),
    ensures
        insert_pos(s, k) == i,
{
    let c = insert_pos(s, k);
    assert(is_insert_pos(s, k, c));
    if c < i {
        assert(s[c].0.rank() < k.rank());
    } else if c > i {
        assert(s[i].0.rank() < k.rank());
    }
}

proof fn lemma_live<K: RankedKey>(s: Seq<(K, u64)>, now: u64, timeout: u64)
    requires
        sorted(s),
    ensures
        sorted(live(s, now, timeout)),
        forall|k: int| 0 <= k < live(s, now, timeout).len() ==> exists|j: int| 0 <= j < s.len() && s[j] == #[trigger] live(s, now, timeout)[k],
        seen_by(s, now) ==> seen_by(live(s, now, timeout), now),
    decreases s.len(),
{
    if s.len() > 0 {
        let d = s.drop_last();
        assert(sorted(d)) by {
            assert forall|i: int, j: int| 0 <= i < j < d.len() implies (#[trigger] d[i]).0.rank() < (#[trigger] d[j]).0.rank() by {
                assert(d[i] == s[i] && d[j] == s[j]);
            }
        }
        lemma_live(d, now, timeout);
        let rest = live(d, now, timeout);
        let r = live(s, now, timeout);
        assert forall|k: int| 0 <= k < r.len() implies exists|j: int| 0 <= j < s.len() && s[j] == #[trigger] r[k] by {
            if k < rest.len() {
                let j = choose|j: int| 0 <= j < d.len() && d[j] == rest[k];
                assert(s[j] == r[k]);
            } else {
                assert(s[s.len() - 1] == r[k]);
            }
        }
        assert forall|i: int, j: int| 0 <= i < j < r.len() implies (#[trigger] r[i]).0.rank() < (#[trigger] r[j]).0.rank() by {
            if j >= rest.len() {
                let a = choose|a: int| 0 <= a < d.len() && d[a] == rest[i];
                assert(s[a] == r[i]);
                assert(r[j] == s[s.len() - 1]);
            } else {
                assert(r[i] == rest[i] && r[j] == rest[j]);
            }
        }
        if seen_by(s, now) {
            assert forall|i: int| 0 <= i < r.len() implies (#[trigger] r[i]).1 <= now by {
                let j = choose|j: int| 0 <= j < s.len() && s[j] == r[i];
            }
        }
    }
}

/// A map from keys to the time they were last seen.
pub struct TimedMap<K> {
    entries: Vec<(K, u64)>,
}

impl<K: RankedKey> View for TimedMap<K> {
    type V = Seq<(K, u64)>;

    closed spec fn view(&self) -> Seq<(K, u64)> {
        self.entries@
    }
}

impl<K: RankedKey> TimedMap<K> {
    pub closed spec fn wf(&self) -> bool {
        sorted(self@)
    }

    pub fn new() -> (m: Self)
        ensures
            m.wf(),
            m@ == Seq::<(K, u64)>::empty(),
    {
        let m = TimedMap { entries: Vec::new() };
        assert(m@ =~= Seq::<(K, u64)>::empty());
        m
    }

    pub fn len(&self) -> (r: usize)
        ensures
            r == self@.len(),
    {
        self.entries.len()
    }

    pub fn is_empty(&self) -> (r: bool)
        ensures
            r == (self@.len() == 0),
    {
        self.entries.len() == 0
    }

    /// The key of the `i`-th entry.
    pub fn key_at(&self, i: usize) -> (k: K)
        requires
            i < self@.len(),
        ensures
            k == self@[i as int].0,
    {
        self.entries[i].0
    }

    /// A valid map holds its keys in strictly ascending rank.
    pub proof fn lemma_sorted(&self)
        requires
            self.wf(),
        ensures
            sorted(self@),
    {
    }

    /// The keys, in order.
    pub fn keys(&self) -> (r: Vec<K>)
        ensures
            r@ == keys_of(self@),
    {
        let mut r: Vec<K> = Vec::new();
        let mut i: usize = 0;
        while i < self.entries.len()
            invariant
                i <= self@.len(),
                r@ == keys_of(self@.take(i as int)),
            decreases self@.len() - i,
        {
            r.push(self.entries[i].0);
            proof {
                assert(keys_of(self@.take(i + 1)) =~= keys_of(self@.take(i as int)).push(self@[i as int].0));
            }
            i = i + 1;
        }
        assert(self@.take(i as int) =~= self@);
        r
    }

    /// Records `k` as seen at `t`; whether it was new.
    pub fn insert(&mut self, k: K, t: u64) -> (added: bool)
        requires
            old(self).wf(),
        ensures
            final(self).wf(),
            final(self)@ == timed_insert(old(self)@, k, t),
            added == !has_key(old(self)@, k),
            final(self)@.len() == old(self)@.len() + if added { 1int } else { 0int },
    {
        let ghost s = self@;
        let mut i: usize = 0;
        while i < self.entries.len() && self.entries[i].0.rank_less(&k)
            invariant
                self@ == s,
                sorted(s),
                i <= s.len(),
                forall|j: int| 0 <= j < i ==> (#[trigger] s[j]).0.rank() < k.rank(),
            decreases s.len() - i,
        {
            i = i + 1;
        }
        proof {
            assert forall|j: int| i <= j < s.len() implies k.rank() <= (#[trigger] s[j]).0.rank() by {
                if j > i {
                    assert(s[i as int].0.rank() < s[j].0.rank());
                }
            }
            assert(is_insert_pos(s, k, i as int));
            lemma_insert_pos_unique(s, k, i as int);
        }
        if i < self.entries.len() && !k.rank_less(&self.entries[i].0) {
            proof {
                K::lemma_rank_injective(k, s[i as int].0);
                assert(has_key(s, k));
                let c = key_index(s, k);
                if c < i {
                    assert(s[c].0.rank() < k.rank());
                } else if c > i {
                    assert(s[i as int].0.rank() < s[c].0.rank());
                }
            }
            self.entries.set(i, (k, t));
            proof {
                let r = self@;
                assert forall|a: int, b: int| 0 <= a < b < r.len() implies (#[trigger] r[a]).0.rank() < (#[trigger] r[b]).0.rank() by {
                    assert(s[a].0.rank() < s[b].0.rank());
                }
            }
            false
        } else {
            proof {
                assert(!has_key(s, k)) by {
                    if has_key(s, k) {
                        let c = key_index(s, k);
                        if c < i {
                            assert(s[c].0.rank() < k.rank());
                        } else {
                            assert(k.rank() <= s[c].0.rank());
                            if c > i {
                                assert(s[i as int].0.rank() < s[c].0.rank());
                            }
                        }
                    }
                }
                if i < s.len() {
                    K::lemma_rank_injective(k, s[i as int].0);
                }
            }
            self.entries.insert(i, (k, t));
            proof {
                let r = self@;
                assert(r =~= s.insert(i as int, (k, t)));
                assert forall|a: int, b: int| 0 <= a < b < r.len() implies (#[trigger] r[a]).0.rank() < (#[trigger] r[b]).0.rank() by {
                    if b < i {
                        assert(r[a] == s[a] && r[b] == s[b]);
                    } else if b == i {
                        assert(r[a] == s[a]);
                    } else if a < i {
                        assert(r[a] == s[a] && r[b] == s[b - 1]);
                    } else if a == i {
                        assert(r[b] == s[b - 1]);
                        if b - 1 > i {
                            assert(s[i as int].0.rank() < s[b - 1].0.rank());
                        }
                    } else {
                        assert(r[a] == s[a - 1] && r[b] == s[b - 1]);
                    }
                }
            }
            true
        }
    }

    /// Forgets `k`; whether it was there.
    pub fn remove(&mut self, k: K) -> (removed: bool)
        requires
            old(self).wf(),
        ensures
            final(self).wf(),
            final(self)@ == timed_remove(old(self)@, k),
            removed == has_key(old(self)@, k),
            final(self)@.len() == old(self)@.len() - if removed { 1int } else { 0int },
    {
        let ghost s = self@;
        let mut i: usize = 0;
        while i < self.entries.len()
            invariant
                self@ == s,
                s == old(self)@,
                sorted(s),
                i <= s.len(),
                forall|j: int| 0 <= j < i ==> (#[trigger] s[j]).0 != k,
            decreases s.len() - i,
        {
            let e = self.entries[i].0;
            if !e.rank_less(&k) && !k.rank_less(&e) {
                proof {
                    K::lemma_rank_injective(e, k);
                    assert(has_key(s, k));
                    let c = key_index(s, k);
                    if c > i {
                        assert(s[i as int].0.rank() < s[c].0.rank());
                    }
                }
                self.entries.remove(i);
                proof {
                    let r = self@;
                    assert forall|a: int, b: int| 0 <= a < b < r.len() implies (#[trigger] r[a]).0.rank() < (#[trigger] r[b]).0.rank() by {
                        let a2 = if a < i { a } else { a + 1 };
                        let b2 = if b < i { b } else { b + 1 };
                        assert(r[a] == s[a2] && r[b] == s[b2]);
                    }
                }
                return true;
            }
            i = i + 1;
        }
        false
    }

    /// Forgets the keys seen `timeout` or more before `now`, and returns them in order.
    pub fn drop_expired(&mut self, now: u64, timeout: u64) -> (dropped: Vec<K>)
        requires
            old(self).wf(),
            seen_by(old(self)@, now),
        ensures
            final(self).wf(),
            final(self)@ == live(old(self)@, now, timeout),
            dropped@ == expired(old(self)@, now, timeout),
            seen_by(final(self)@, now),
    {
        let ghost s = self@;
        let mut kept: Vec<(K, u64)> = Vec::new();
        let mut dropped: Vec<K> = Vec::new();
        let mut i: usize = 0;
        while i < self.entries.len()
            invariant
                self@ == s,
                sorted(s),
                seen_by(s, now),
                i <= s.len(),
                kept@ == live(s.take(i as int), now, timeout),
                dropped@ == expired(s.take(i as int), now, timeout),
            decreases s.len() - i,
        {
            let e = self.entries[i];
            proof {
                assert(s.take(i + 1).drop_last() =~= s.take(i as int));
                assert(s.take(i + 1).last() == e);
            }
            if now - e.1 >= timeout {
                dropped.push(e.0);
            } else {
                kept.push(e);
            }
            i = i + 1;
        }
        proof {
            assert(s.take(i as int) =~= s);
            lemma_live(s, now, timeout);
        }
        self.entries = kept;
        dropped
    }
}

} // verus!
