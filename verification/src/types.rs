//! Plain identifiers shared by every feature.

use vstd::prelude::*;

verus! {

/// Identifier of a node in the network.
pub type NodeId = u32;

/// Identifier of a service running on a node.
pub type ServiceId = u8;

/// Who issued a control command to a feature: the controller, a worker or a service.
#[derive(Debug, Clone, Copy, PartialEq, Eq, Structural, Hash)]
pub enum FeatureControlActor {
    Controller,
    Worker(u16),
    Service(ServiceId),
}

/// Where a message is routed.
#[derive(Debug, Clone, Copy, PartialEq, Eq, Structural, Hash)]
pub enum RouteRule {
    /// Handled by the node that receives it.
    Direct,
    /// Routed to a node.
    ToNode(NodeId),
    /// Routed to a service, by its meta.
    ToService(u32),
    /// Routed to the node closest to a key.
    ToKey(NodeId),
}

/// How far a message to the nodes of a service goes.
#[derive(Debug, Clone, Copy, PartialEq, Eq, Structural, Hash)]
pub enum ServiceBroadcastLevel {
    Global,
    Geo1,
    Geo2,
    Group,
}

/// The network address of a peer: an IPv4 or IPv6 address and a port.
#[derive(Debug, Clone, Copy, PartialEq, Eq, Structural, Hash)]
pub enum PeerAddr {
    V4(u32, u16),
    V6(u128, u16),
}

/// The order of addresses: IPv4 before IPv6, then by address, then by port.
pub open spec fn addr_lt(a: PeerAddr, b: PeerAddr) -> bool {
    match (a, b) {
        (PeerAddr::V4(_, _), PeerAddr::V6(_, _)) => true,
        (PeerAddr::V6(_, _), PeerAddr::V4(_, _)) => false,
        (PeerAddr::V4(x, p), PeerAddr::V4(y, q)) => x < y || (x == y && p < q),
        (PeerAddr::V6(x, p), PeerAddr::V6(y, q)) => x < y || (x == y && p < q),
    }
}

/// Whether `a` comes before `b`.
pub fn addr_less(a: PeerAddr, b: PeerAddr) -> (r: bool)
    ensures
        r == addr_lt(a, b),
{
    match (a, b) {
        (PeerAddr::V4(_, _), PeerAddr::V6(_, _)) => true,
        (PeerAddr::V6(_, _), PeerAddr::V4(_, _)) => false,
        (PeerAddr::V4(x, p), PeerAddr::V4(y, q)) => x < y || (x == y && p < q),
        (PeerAddr::V6(x, p), PeerAddr::V6(y, q)) => x < y || (x == y && p < q),
    }
}

/// `addr_lt` is a strict total order.
pub proof fn lemma_addr_order(a: PeerAddr, b: PeerAddr, c: PeerAddr)
    ensures
        !addr_lt(a, a),
        addr_lt(a, b) ==> !addr_lt(b, a),
        a != b ==> addr_lt(a, b) || addr_lt(b, a),
        addr_lt(a, b) && addr_lt(b, c) ==> addr_lt(a, c),
{
}

/// Whether `v` holds `a`.
pub fn contains_actor(v: &Vec<FeatureControlActor>, a: FeatureControlActor) -> (r: bool)
    ensures
        r == v@.contains(a),
{
    let mut i: usize = 0;
    while i < v.len()
        invariant
            i <= v@.len(),
            forall|k: int| 0 <= k < i ==> v@[k] != a,
        decreases v@.len() - i,
    {
        if v[i] == a {
            assert(v@[i as int] == a);
            return true;
        }
        i = i + 1;
    }
    false
}

/// A copy of a list of actors.
pub fn copy_actors(v: &Vec<FeatureControlActor>) -> (r: Vec<FeatureControlActor>)
    ensures
        r@ == v@,
{
    let mut r: Vec<FeatureControlActor> = Vec::new();
    let mut i: usize = 0;
    while i < v.len()
        invariant
            i <= v@.len(),
            r@ == v@.take(i as int),
        decreases v@.len() - i,
    {
        r.push(v[i]);
        proof {
            assert(v@.take(i + 1) =~= v@.take(i as int).push(v@[i as int]));
        }
        i = i + 1;
    }
    assert(v@.take(i as int) =~= v@);
    r
}

/// `s` with the element at `i` replaced by the last one, and the last one dropped.
pub open spec fn swap_removed<A>(s: Seq<A>, i: int) -> Seq<A> {
    s.update(i, s.last()).drop_last()
}

/// Removing an element of a list without duplicates this way keeps it without duplicates
/// and takes out exactly that element.
pub proof fn lemma_swap_removed(s: Seq<FeatureControlActor>, i: int)
    requires
        s.no_duplicates(),
        0 <= i < s.len(),
    ensures
        swap_removed(s, i).no_duplicates(),
        forall|x: FeatureControlActor| #[trigger] swap_removed(s, i).contains(x) <==> (s.contains(x) && x != s[i]),
{
    let r = swap_removed(s, i);
    let n = s.len() - 1;
    assert forall|a: int, b: int| 0 <= a < r.len() && 0 <= b < r.len() && a != b implies r[a] != r[b] by {
        let a2 = if a == i { n } else { a };
        let b2 = if b == i { n } else { b };
        assert(r[a] == s[a2] && r[b] == s[b2]);
    }
    assert forall|x: FeatureControlActor| #[trigger] r.contains(x) <==> (s.contains(x) && x != s[i]) by {
        if r.contains(x) {
            let k = choose|k: int| 0 <= k < r.len() && r[k] == x;
            let k2 = if k == i { n } else { k };
            assert(s[k2] == x);
        }
        if s.contains(x) && x != s[i] {
            let k = choose|k: int| 0 <= k < s.len() && s[k] == x;
            if k == n {
                if i < n {
                    assert(r[i] == x);
                }
            } else {
                assert(r[k] == x);
            }
        }
    }
}

/// Adds `a` to `v` unless it is there already; whether it was added.
pub fn add_actor(v: &mut Vec<FeatureControlActor>, a: FeatureControlActor) -> (added: bool)
    requires
        old(v)@.no_duplicates(),
    ensures
        final(v)@.no_duplicates(),
        added == !old(v)@.contains(a),
        final(v)@ == if added { old(v)@.push(a) } else { old(v)@ },
{
    if contains_actor(v, a) {
        return false;
    }
    let ghost v0 = v@;
    v.push(a);
    proof {
        let p = v@;
        assert forall|i: int, j: int| 0 <= i < p.len() && 0 <= j < p.len() && i != j implies p[i] != p[j] by {
            if i < v0.len() && j < v0.len() {
                assert(p[i] == v0[i] && p[j] == v0[j]);
            } else if i < v0.len() {
                assert(v0.contains(p[i]));
            } else {
                assert(v0.contains(p[j]));
            }
        }
    }
    true
}

/// Takes `a` out of `v`, moving the last element into its place; whether it was there.
pub fn swap_remove_actor(v: &mut Vec<FeatureControlActor>, a: FeatureControlActor) -> (removed: bool)
    requires
        old(v)@.no_duplicates(),
    ensures
        final(v)@.no_duplicates(),
        removed == old(v)@.contains(a),
        final(v)@ == if removed { swap_removed(old(v)@, old(v)@.index_of(a)) } else { old(v)@ },
{
    let ghost v0 = v@;
    let mut i: usize = 0;
    while i < v.len()
        invariant
            v@ == v0,
            v0 == old(v)@,
            v0.no_duplicates(),
            i <= v0.len(),
            forall|k: int| 0 <= k < i ==> v0[k] != a,
        decreases v0.len() - i,
    {
        if v[i] == a {
            proof {
                assert(v0.contains(a));
                assert(v0.index_of(a) == i) by {
                    let j = v0.index_of(a);
                    assert(v0[j] == a);
                }
                lemma_swap_removed(v0, i as int);
            }
            v.swap_remove(i);
            proof {
                assert(v@ =~= swap_removed(v0, i as int));
            }
            return true;
        }
        i = i + 1;
    }
    false
}

/// The index of the first occurrence of `a` in `s`.
pub open spec fn first_index<A>(s: Seq<A>, a: A) -> int {
    choose|i: int| 0 <= i < s.len() && s[i] == a && forall|j: int| 0 <= j < i ==> s[j] != a
}

/// `s` without the first occurrence of `a`, the last element moved into its place.
pub open spec fn swap_removed_first<A>(s: Seq<A>, a: A) -> Seq<A> {
    if s.contains(a) {
        swap_removed(s, first_index(s, a))
    } else {
        s
    }
}

proof fn lemma_first_index<A>(s: Seq<A>, a: A, i: int)
    requires
        0 <= i < s.len(),
        s[i] == a,
        forall|j: int| 0 <= j < i ==> s[j] != a,
    ensures
        first_index(s, a) == i,
{
    let c = first_index(s, a);
    assert(0 <= c < s.len() && s[c] == a && forall|j: int| 0 <= j < c ==> s[j] != a);
    if c < i {
        assert(s[c] != a);
    } else if c > i {
        assert(s[i] != a);
    }
}

/// Takes the first occurrence of `a` out of `v`, moving the last element into its place.
pub fn swap_remove_first_actor(v: &mut Vec<FeatureControlActor>, a: FeatureControlActor)
    ensures
        final(v)@ == swap_removed_first(old(v)@, a),
{
    let ghost v0 = v@;
    let mut i: usize = 0;
    while i < v.len()
        invariant
            v@ == v0,
            v0 == old(v)@,
            i <= v0.len(),
            forall|k: int| 0 <= k < i ==> v0[k] != a,
        decreases v0.len() - i,
    {
        if v[i] == a {
            proof {
                lemma_first_index(v0, a, i as int);
                assert(v0.contains(a));
            }
            v.swap_remove(i);
            assert(v@ =~= swap_removed(v0, i as int));
            return;
        }
        i = i + 1;
    }
}

/// Takes the first occurrence of `a` out of `v`, moving the last element into its place.
pub fn swap_remove_first_addr(v: &mut Vec<PeerAddr>, a: PeerAddr)
    ensures
        final(v)@ == swap_removed_first(old(v)@, a),
{
    let ghost v0 = v@;
    let mut i: usize = 0;
    while i < v.len()
        invariant
            v@ == v0,
            v0 == old(v)@,
            i <= v0.len(),
            forall|k: int| 0 <= k < i ==> v0[k] != a,
        decreases v0.len() - i,
    {
        if v[i] == a {
            proof {
                lemma_first_index(v0, a, i as int);
                assert(v0.contains(a));
            }
            v.swap_remove(i);
            assert(v@ =~= swap_removed(v0, i as int));
            return;
        }
        i = i + 1;
    }
}

/// A copy of a list of addresses.
pub fn copy_addrs(v: &Vec<PeerAddr>) -> (r: Vec<PeerAddr>)
    ensures
        r@ == v@,
{
    let mut r: Vec<PeerAddr> = Vec::new();
    let mut i: usize = 0;
    while i < v.len()
        invariant
            i <= v@.len(),
            r@ == v@.take(i as int),
        decreases v@.len() - i,
    {
        r.push(v[i]);
        proof {
            assert(v@.take(i + 1) =~= v@.take(i as int).push(v@[i as int]));
        }
        i = i + 1;
    }
    assert(v@.take(i as int) =~= v@);
    r
}

} // verus!
