//! The connections of each peer node: by node, in arrival order, each connection once; a
//! node with no connection left is forgotten.

use vstd::prelude::*;

use crate::base::ConnId;
use crate::table::{has_key, key_index, lemma_key_index, lemma_push_unique, lemma_remove_unique, lemma_update_unique, unique_keys, upsert, value_of, without_key};
use crate::types::NodeId;

verus! {

/// No node occurs twice, nor a connection twice for a node.
pub open spec fn valid_nodes(s: Seq<(u64, Seq<ConnId>)>) -> bool {
    &&& unique_keys(s)
    &&& forall|i: int| 0 <= i < s.len() ==> (#[trigger] s[i]).1.no_duplicates()
}

/// The connections of node `n`.
pub open spec fn conns_of(nodes: Seq<(u64, Seq<ConnId>)>, n: NodeId) -> Seq<ConnId> {
    if has_key(nodes, n as u64) {
        value_of(nodes, n as u64)
    } else {
        Seq::empty()
    }
}

/// `s` without `c`.
pub open spec fn conn_removed(s: Seq<ConnId>, c: ConnId) -> Seq<ConnId> {
    if s.contains(c) {
        s.remove(s.index_of(c))
    } else {
        s
    }
}

/// The nodes with connection `c` of node `n` opening.
pub open spec fn with_conn(nodes: Seq<(u64, Seq<ConnId>)>, n: NodeId, c: ConnId) -> Seq<(u64, Seq<ConnId>)> {
    let cs = conns_of(nodes, n);
    upsert(nodes, n as u64, if cs.contains(c) { cs } else { cs.push(c) })
}

/// The nodes with connection `c` of node `n` gone; a node left with no connection goes too.
pub open spec fn without_conn(nodes: Seq<(u64, Seq<ConnId>)>, n: NodeId, c: ConnId) -> Seq<(u64, Seq<ConnId>)> {
    let cs = conn_removed(conns_of(nodes, n), c);
    if cs.len() == 0 {
        without_key(nodes, n as u64)
    } else {
        upsert(nodes, n as u64, cs)
    }
}

/// A connection that opens with a node that had none, and then goes, leaves the nodes as
/// they were.
pub proof fn lemma_with_then_without(nodes: Seq<(u64, Seq<ConnId>)>, n: NodeId, c: ConnId)
    requires
        valid_nodes(nodes),
        !has_key(nodes, n as u64),
    ensures
        without_conn(with_conn(nodes, n, c), n, c) == nodes,
{
    let k = n as u64;
    let v = seq![c];
    let n1 = nodes.push((k, v));
    assert(with_conn(nodes, n, c) == n1) by {
        assert(conns_of(nodes, n) =~= Seq::<ConnId>::empty());
        assert(Seq::<ConnId>::empty().push(c) =~= v);
    }
    lemma_push_unique(nodes, k, v);
    lemma_key_index(n1, k, nodes.len() as int);
    assert(v.index_of(c) == 0) by {
        assert(v[0] == c);
        assert(v.contains(c));
    }
    assert(n1[nodes.len() as int] == (k, v));
    assert(conns_of(n1, n) == v);
    assert(v.remove(0) =~= Seq::<ConnId>::empty());
    assert(v[0] == c);
    assert(v.contains(c));
    assert(conn_removed(conns_of(n1, n), c) =~= Seq::<ConnId>::empty());
    assert(without_key(n1, k) =~= nodes);
}

/// Adds `c` to `v` unless it is there.
fn add_conn(v: &mut Vec<ConnId>, c: ConnId)
    requires
        old(v)@.no_duplicates(),
    ensures
        final(v)@.no_duplicates(),
        final(v)@ == if old(v)@.contains(c) { old(v)@ } else { old(v)@.push(c) },
{
    let ghost v0 = v@;
    let mut i: usize = 0;
    while i < v.len()
        invariant
            v@ == v0,
            v0.no_duplicates(),
            i <= v0.len(),
            forall|k: int| 0 <= k < i ==> v0[k] != c,
        decreases v0.len() - i,
    {
        if v[i] == c {
            assert(v0[i as int] == c);
            return;
        }
        i = i + 1;
    }
    v.push(c);
    proof {
        let p = v@;
        assert forall|a: int, b: int| 0 <= a < p.len() && 0 <= b < p.len() && a != b implies p[a] != p[b] by {
            if a < v0.len() && b < v0.len() {
                assert(p[a] == v0[a] && p[b] == v0[b]);
            } else if a < v0.len() {
                assert(p[a] == v0[a]);
            } else {
                assert(p[b] == v0[b]);
            }
        }
    }
}

/// Takes `c` out of `v`, if it is there.
fn remove_conn(v: &mut Vec<ConnId>, c: ConnId)
    requires
        old(v)@.no_duplicates(),
    ensures
        final(v)@.no_duplicates(),
        final(v)@ == conn_removed(old(v)@, c),
{
    let ghost v0 = v@;
    let mut i: usize = 0;
    while i < v.len()
        invariant
            v@ == v0,
            v0 == old(v)@,
            v0.no_duplicates(),
            i <= v0.len(),
            forall|k: int| 0 <= k < i ==> v0[k] != c,
        decreases v0.len() - i,
    {
        if v[i] == c {
            proof {
                assert(v0.contains(c));
                assert(v0.index_of(c) == i) by {
                    let j = v0.index_of(c);
                    assert(v0[j] == c);
                }
            }
            v.remove(i);
            proof {
                assert(v@ =~= v0.remove(i as int));
                let p = v@;
                assert forall|a: int, b: int| 0 <= a < p.len() && 0 <= b < p.len() && a != b implies p[a] != p[b] by {
                    let a1 = if a < i { a } else { a + 1 };
                    let b1 = if b < i { b } else { b + 1 };
                    assert(p[a] == v0[a1] && p[b] == v0[b1]);
                }
            }
            return;
        }
        i = i + 1;
    }
}

/// The connections of each peer node.
pub struct NodeConns {
    nodes: Vec<(u64, Vec<ConnId>)>,
}

spec fn nodes_view(s: Seq<(u64, Vec<ConnId>)>) -> Seq<(u64, Seq<ConnId>)> {
    s.map_values(|e: (u64, Vec<ConnId>)| (e.0, e.1@))
}

impl View for NodeConns {
    type V = Seq<(u64, Seq<ConnId>)>;

    closed spec fn view(&self) -> Seq<(u64, Seq<ConnId>)> {
        nodes_view(self.nodes@)
    }
}

impl NodeConns {
    pub open spec fn wf(&self) -> bool {
        valid_nodes(self@)
    }

    pub fn new() -> (r: Self)
        ensures
            r.wf(),
            r@ == Seq::<(u64, Seq<ConnId>)>::empty(),
    {
        let r = NodeConns { nodes: Vec::new() };
        assert(r@ =~= Seq::<(u64, Seq<ConnId>)>::empty());
        r
    }

    /// Whether node `n` has connections.
    pub fn has_node(&self, n: NodeId) -> (r: bool)
        requires
            self.wf(),
        ensures
            r == has_key(self@, n as u64),
    {
        self.find_node(n).is_some()
    }

    /// The place of key `k`, if that node has connections.
    fn find_node_key(&self, k: u64) -> (r: Option<usize>)
        requires
            self.wf(),
        ensures
            match r {
                Some(i) => {
                    &&& has_key(self@, k)
                    &&& i == key_index(self@, k)
                    &&& i < self.nodes@.len()
                    &&& self.nodes@[i as int].0 == k
                },
                None => !has_key(self@, k),
            },
    {
        let ghost ns = self@;
        let mut i: usize = 0;
        while i < self.nodes.len()
            invariant
                self.wf(),
                ns == self@,
                ns.len() == self.nodes@.len(),
                i <= ns.len(),
                forall|j: int| 0 <= j < i ==> ns[j].0 != k,
            decreases ns.len() - i,
        {
            assert(ns[i as int].0 == self.nodes@[i as int].0);
            if self.nodes[i].0 == k {
                proof {
                    lemma_key_index(ns, k, i as int);
                }
                return Some(i);
            }
            i = i + 1;
        }
        None
    }

    /// The place of node `n`, if it has connections.
    fn find_node(&self, n: NodeId) -> (r: Option<usize>)
        requires
            self.wf(),
        ensures
            match r {
                Some(i) => {
                    &&& has_key(self@, n as u64)
                    &&& i == key_index(self@, n as u64)
                    &&& i < self.nodes@.len()
                    &&& self.nodes@[i as int].0 == n as u64
                },
                None => !has_key(self@, n as u64),
            },
    {
        self.find_node_key(n as u64)
    }

    /// Whether the node with key `k` has connections.
    pub fn has_node_key(&self, k: u64) -> (r: bool)
        requires
            self.wf(),
        ensures
            r == has_key(self@, k),
    {
        self.find_node_key(k).is_some()
    }

    /// Notes connection `c` of node `n` opening.
    pub fn add(&mut self, n: NodeId, c: ConnId)
        requires
            old(self).wf(),
        ensures
            final(self).wf(),
            final(self)@ == with_conn(old(self)@, n, c),
    {
        let ghost s0 = self@;
        let k = n as u64;
        match self.find_node(n) {
            Some(i) => {
                let (key, mut cs) = self.nodes.remove(i);
                proof {
                    lemma_key_index(s0, k, i as int);
                    assert(s0[i as int].1.no_duplicates());
                }
                add_conn(&mut cs, c);
                let ghost v = cs@;
                self.nodes.insert(i, (key, cs));
                proof {
                    assert(self@ =~= s0.update(i as int, (k, v)));
                    lemma_update_unique(s0, i as int, v);
                    assert forall|j: int| 0 <= j < self@.len() implies (#[trigger] self@[j]).1.no_duplicates() by {
                        if j != i {
                            assert(self@[j] == s0[j]);
                        }
                    }
                }
            },
            None => {
                let cs = vec![c];
                let ghost v = cs@;
                proof {
                    assert(v =~= Seq::<ConnId>::empty().push(c));
                    lemma_push_unique(s0, k, v);
                }
                self.nodes.push((k, cs));
                proof {
                    assert(self@ =~= s0.push((k, v)));
                    assert forall|j: int| 0 <= j < self@.len() implies (#[trigger] self@[j]).1.no_duplicates() by {
                        if j < s0.len() {
                            assert(self@[j] == s0[j]);
                        }
                    }
                }
            },
        }
    }

    /// Notes connection `c` of node `n` gone; the node goes when it has no connection left.
    pub fn remove(&mut self, n: NodeId, c: ConnId)
        requires
            old(self).wf(),
        ensures
            final(self).wf(),
            final(self)@ == without_conn(old(self)@, n, c),
    {
        let ghost s0 = self@;
        let k = n as u64;
        match self.find_node(n) {
            Some(i) => {
                let (key, mut cs) = self.nodes.remove(i);
                proof {
                    lemma_key_index(s0, k, i as int);
                    assert(s0[i as int].1.no_duplicates());
                    lemma_remove_unique(s0, i as int);
                    assert(self@ =~= s0.remove(i as int));
                }
                remove_conn(&mut cs, c);
                if cs.len() > 0 {
                    let ghost v = cs@;
                    self.nodes.insert(i, (key, cs));
                    proof {
                        assert(self@ =~= s0.update(i as int, (k, v)));
                        lemma_update_unique(s0, i as int, v);
                        assert forall|j: int| 0 <= j < self@.len() implies (#[trigger] self@[j]).1.no_duplicates() by {
                            if j != i {
                                assert(self@[j] == s0[j]);
                            }
                        }
                    }
                } else {
                    proof {
                        assert forall|j: int| 0 <= j < self@.len() implies (#[trigger] self@[j]).1.no_duplicates() by {
                            let j1 = if j < i { j } else { j + 1 };
                            assert(self@[j] == s0[j1]);
                        }
                    }
                }
            },
            None => {
                assert(conns_of(s0, n) =~= Seq::<ConnId>::empty());
            },
        }
    }
}

} // verus!
