//! Neighbours: local actors subscribe to the connections of this node, ask it to connect to
//! a node (perhaps a seed) or to disconnect from one, and are told when every seed is lost.

use std::collections::VecDeque;
use vstd::prelude::*;

use crate::base::{ConnId, ConnectionCtx, ConnectionEvent, ForwardingWorker, NodeAddr};
use crate::node_conns::{conn_removed, conns_of, valid_nodes, with_conn, without_conn, NodeConns};
use crate::table::{has_key, lemma_key_index, lemma_push_unique, without_key};
use crate::types::{add_actor, swap_remove_actor, swap_removed, FeatureControlActor, NodeId, PeerAddr};

verus! {

/// The identifier of the neighbours feature.
pub const FEATURE_ID: u8 = 0;

/// What a local actor asks: subscribe to or unsubscribe from the connection events, connect
/// to a node (marking it a seed or not), or disconnect from a node.
#[derive(Debug, Clone, PartialEq, Eq)]
pub enum Control {
    Sub,
    UnSub,
    ConnectTo(NodeAddr, bool),
    DisconnectFrom(NodeId),
}

/// What a subscriber is told: a connection came up or went down, or every seed is lost and
/// new seed addresses are needed.
#[derive(Debug, Clone, Copy, PartialEq, Eq, Structural)]
pub enum Event {
    Connected(NodeId, ConnId),
    Disconnected(NodeId, ConnId),
    SeedAddressNeeded,
}

/// What the controller sends to the workers (nothing is ever sent).
#[derive(Debug, Clone, Copy, PartialEq, Eq, Structural)]
pub struct ToWorker;

/// What a worker sends to the controller (nothing is ever sent).
#[derive(Debug, Clone, Copy, PartialEq, Eq, Structural)]
pub struct ToController;

/// An output: an event for a subscriber, a connection to open or to close, or the notice
/// that the feature shut down and has nothing left.
#[derive(Debug, Clone, PartialEq, Eq)]
pub enum Output {
    Event(FeatureControlActor, Event),
    NeighboursConnectTo(NodeAddr),
    NeighboursDisconnectFrom(NodeId),
    OnResourceEmpty,
}

/// Mathematical state of a [`NeighboursFeature`]: the subscribers, the outputs not yet
/// handed out, the seeds, the open or opening connections of each node (by node, in
/// arrival order), and whether it was shut down.
#[verifier::ext_equal]
pub struct NeighboursView {
    pub subs: Seq<FeatureControlActor>,
    pub queue: Seq<Output>,
    pub seeds: Seq<NodeId>,
    pub nodes: Seq<(u64, Seq<ConnId>)>,
    pub shutdown: bool,
}

/// The neighbours feature of a node.
pub struct NeighboursFeature {
    subs: Vec<FeatureControlActor>,
    output: VecDeque<Output>,
    seeds: Vec<NodeId>,
    nodes: NodeConns,
    shutdown: bool,
}

impl View for NeighboursFeature {
    type V = NeighboursView;

    closed spec fn view(&self) -> NeighboursView {
        NeighboursView { subs: self.subs@, queue: self.output@, seeds: self.seeds@, nodes: self.nodes@, shutdown: self.shutdown }
    }
}

/// No subscriber, seed or node occurs twice, nor a connection twice for a node.
pub open spec fn valid(s: NeighboursView) -> bool {
    &&& s.subs.no_duplicates()
    &&& s.seeds.no_duplicates()
    &&& valid_nodes(s.nodes)
}

/// Event `e` for each of `subs`, in order.
pub open spec fn events(subs: Seq<FeatureControlActor>, e: Event) -> Seq<Output> {
    subs.map_values(|a: FeatureControlActor| Output::Event(a, e))
}

/// Whether there are seeds and none of them has a connection.
pub open spec fn seeds_lost(s: NeighboursView) -> bool {
    s.seeds.len() > 0 && forall|i: int| 0 <= i < s.seeds.len() ==> !has_key(s.nodes, #[trigger] s.seeds[i] as u64)
}

/// When every seed is lost, the seeds are forgotten and the subscribers told.
pub open spec fn seeds_checked(s: NeighboursView) -> NeighboursView {
    if seeds_lost(s) {
        NeighboursView { seeds: Seq::empty(), queue: s.queue + events(s.subs, Event::SeedAddressNeeded), ..s }
    } else {
        s
    }
}

/// What a connection event does.
pub open spec fn connection_spec(s: NeighboursView, ev: ConnectionEvent) -> NeighboursView {
    match ev {
        ConnectionEvent::Connecting(ctx) => NeighboursView { nodes: with_conn(s.nodes, ctx.node, ctx.conn), ..s },
        ConnectionEvent::ConnectError(ctx) => seeds_checked(NeighboursView { nodes: without_conn(s.nodes, ctx.node, ctx.conn), ..s }),
        ConnectionEvent::Connected(ctx) => NeighboursView { queue: s.queue + events(s.subs, Event::Connected(ctx.node, ctx.conn)), ..s },
        ConnectionEvent::Stats(_, _) => s,
        ConnectionEvent::Disconnected(ctx) => seeds_checked(
            NeighboursView {
                nodes: without_conn(s.nodes, ctx.node, ctx.conn),
                queue: s.queue + events(s.subs, Event::Disconnected(ctx.node, ctx.conn)),
                ..s
            },
        ),
    }
}

/// What a control of a local actor does.
pub open spec fn control_spec(s: NeighboursView, actor: FeatureControlActor, control: Control) -> NeighboursView {
    match control {
        Control::Sub => NeighboursView { subs: if s.subs.contains(actor) { s.subs } else { s.subs.push(actor) }, ..s },
        Control::UnSub => NeighboursView {
            subs: if s.subs.contains(actor) { swap_removed(s.subs, s.subs.index_of(actor)) } else { s.subs },
            ..s
        },
        Control::ConnectTo(addr, is_seed) => NeighboursView {
            seeds: if is_seed && !s.seeds.contains(addr.node) { s.seeds.push(addr.node) } else { s.seeds },
            queue: s.queue.push(Output::NeighboursConnectTo(addr)),
            ..s
        },
        Control::DisconnectFrom(node) => NeighboursView { queue: s.queue.push(Output::NeighboursDisconnectFrom(node)), ..s },
    }
}

/// An actor that subscribes and then unsubscribes leaves the subscribers as they were.
pub proof fn law_sub_then_unsub(s: NeighboursView, actor: FeatureControlActor)
    requires
        valid(s),
        !s.subs.contains(actor),
    ensures
        control_spec(control_spec(s, actor, Control::Sub), actor, Control::UnSub) == s,
{
    let p = s.subs.push(actor);
    assert(p.index_of(actor) == s.subs.len()) by {
        let j = p.index_of(actor);
        assert(p[s.subs.len() as int] == actor);
        assert(p.contains(actor));
        if j < s.subs.len() {
            assert(s.subs[j] == actor);
        }
    }
    assert(swap_removed(p, s.subs.len() as int) =~= s.subs);
}

/// When the only seed gets a connection that then fails, the connection bookkeeping is as
/// before, the seed is forgotten, and every subscriber is told that seed addresses are needed.
pub proof fn law_lost_seed_asks_for_seeds(s: NeighboursView, n: NodeId, c: ConnId, local: PeerAddr, remote: PeerAddr)
    requires
        valid(s),
        s.seeds == seq![n],
        !has_key(s.nodes, n as u64),
    ensures
        ({
            let ctx = ConnectionCtx { conn: c, node: n, local, remote };
            let s1 = connection_spec(s, ConnectionEvent::Connecting(ctx));
            let s2 = connection_spec(s1, ConnectionEvent::ConnectError(ctx));
            &&& s2.nodes == s.nodes
            &&& s2.seeds == Seq::<NodeId>::empty()
            &&& s2.queue == s.queue + events(s.subs, Event::SeedAddressNeeded)
            &&& s2.subs == s.subs
        }),
{
    let k = n as u64;
    let v = seq![c];
    let n1 = s.nodes.push((k, v));
    assert(with_conn(s.nodes, n, c) == n1) by {
        assert(conns_of(s.nodes, n) =~= Seq::<ConnId>::empty());
        assert(Seq::<ConnId>::empty().push(c) =~= v);
    }
    lemma_push_unique(s.nodes, k, v);
    lemma_key_index(n1, k, s.nodes.len() as int);
    assert(v.index_of(c) == 0) by {
        assert(v[0] == c);
        assert(v.contains(c));
    }
    assert(n1[s.nodes.len() as int] == (k, v));
    assert(conns_of(n1, n) == v);
    assert(v.remove(0) =~= Seq::<ConnId>::empty());
    assert(v[0] == c);
    assert(v.contains(c));
    assert(conn_removed(conns_of(n1, n), c) =~= Seq::<ConnId>::empty());
    assert(without_key(n1, k) =~= s.nodes);
}

/// When the only seed gets a connection that opens and then closes, the connection
/// bookkeeping is as before, the seed is forgotten, and every subscriber is told of the
/// connection, of its closing, and that seed addresses are needed, in this order.
pub proof fn law_disconnected_seed_asks_for_seeds(s: NeighboursView, n: NodeId, c: ConnId, local: PeerAddr, remote: PeerAddr)
    requires
        valid(s),
        s.seeds == seq![n],
        !has_key(s.nodes, n as u64),
    ensures
        ({
            let ctx = ConnectionCtx { conn: c, node: n, local, remote };
            let s1 = connection_spec(s, ConnectionEvent::Connecting(ctx));
            let s2 = connection_spec(s1, ConnectionEvent::Connected(ctx));
            let s3 = connection_spec(s2, ConnectionEvent::Disconnected(ctx));
            &&& s3.nodes == s.nodes
            &&& s3.seeds == Seq::<NodeId>::empty()
            &&& s3.queue == s.queue + events(s.subs, Event::Connected(n, c)) + events(s.subs, Event::Disconnected(n, c)) + events(
                s.subs,
                Event::SeedAddressNeeded,
            )
            &&& s3.subs == s.subs
        }),
{
    let k = n as u64;
    let v = seq![c];
    let n1 = s.nodes.push((k, v));
    assert(with_conn(s.nodes, n, c) == n1) by {
        assert(conns_of(s.nodes, n) =~= Seq::<ConnId>::empty());
        assert(Seq::<ConnId>::empty().push(c) =~= v);
    }
    lemma_push_unique(s.nodes, k, v);
    lemma_key_index(n1, k, s.nodes.len() as int);
    assert(v.index_of(c) == 0) by {
        assert(v[0] == c);
        assert(v.contains(c));
    }
    assert(n1[s.nodes.len() as int] == (k, v));
    assert(conns_of(n1, n) == v);
    assert(v.remove(0) =~= Seq::<ConnId>::empty());
    assert(v[0] == c);
    assert(v.contains(c));
    assert(conn_removed(conns_of(n1, n), c) =~= Seq::<ConnId>::empty());
    assert(without_key(n1, k) =~= s.nodes);
}

/// Queues event `e` for each of `subs`, in order.
fn push_events(queue: &mut VecDeque<Output>, subs: &Vec<FeatureControlActor>, e: Event)
    ensures
        final(queue)@ == old(queue)@ + events(subs@, e),
{
    let ghost q0 = queue@;
    let mut j: usize = 0;
    while j < subs.len()
        invariant
            j <= subs@.len(),
            queue@ == q0 + events(subs@.take(j as int), e),
        decreases subs@.len() - j,
    {
        queue.push_back(Output::Event(subs[j], e));
        proof {
            assert(events(subs@.take(j + 1), e) =~= events(subs@.take(j as int), e).push(Output::Event(subs@[j as int], e)));
        }
        j = j + 1;
    }
    assert(subs@.take(j as int) =~= subs@);
}

impl NeighboursFeature {
    pub open spec fn wf(&self) -> bool {
        valid(self@)
    }

    /// A feature with no subscriber, seed or connection.
    pub fn new() -> (r: Self)
        ensures
            r.wf(),
            r@ == (NeighboursView { subs: Seq::empty(), queue: Seq::empty(), seeds: Seq::empty(), nodes: Seq::empty(), shutdown: false }),
    {
        let r = NeighboursFeature { subs: Vec::new(), output: VecDeque::new(), seeds: Vec::new(), nodes: NodeConns::new(), shutdown: false };
        r
    }

    pub fn feature_type(&self) -> (r: u8)
        ensures
            r == FEATURE_ID,
    {
        FEATURE_ID
    }

    /// Forgets the seeds and tells the subscribers when every seed is lost.
    fn check_need_more_seeds(&mut self)
        requires
            old(self).wf(),
        ensures
            final(self).wf(),
            final(self)@ == seeds_checked(old(self)@),
    {
        if self.seeds.len() == 0 {
            return;
        }
        let ghost s0 = self@;
        let mut i: usize = 0;
        while i < self.seeds.len()
            invariant
                self.wf(),
                self@ == s0,
                s0.seeds.len() > 0,
                i <= s0.seeds.len(),
                forall|j: int| 0 <= j < i ==> !has_key(s0.nodes, #[trigger] s0.seeds[j] as u64),
            decreases s0.seeds.len() - i,
        {
            if self.nodes.has_node(self.seeds[i]) {
                return;
            }
            i = i + 1;
        }
        self.seeds = Vec::new();
        push_events(&mut self.output, &self.subs, Event::SeedAddressNeeded);
        assert(self@.seeds =~= Seq::empty());
    }

    /// Handles a connection event.
    pub fn on_connection(&mut self, ev: ConnectionEvent)
        requires
            old(self).wf(),
        ensures
            final(self).wf(),
            final(self)@ == connection_spec(old(self)@, ev),
    {
        match ev {
            ConnectionEvent::Connecting(ctx) => self.nodes.add(ctx.node, ctx.conn),
            ConnectionEvent::ConnectError(ctx) => {
                self.nodes.remove(ctx.node, ctx.conn);
                self.check_need_more_seeds();
            },
            ConnectionEvent::Connected(ctx) => {
                push_events(&mut self.output, &self.subs, Event::Connected(ctx.node, ctx.conn));
            },
            ConnectionEvent::Stats(_, _) => {},
            ConnectionEvent::Disconnected(ctx) => {
                self.nodes.remove(ctx.node, ctx.conn);
                push_events(&mut self.output, &self.subs, Event::Disconnected(ctx.node, ctx.conn));
                self.check_need_more_seeds();
            },
        }
    }

    /// Handles a control of a local actor.
    pub fn on_input(&mut self, actor: FeatureControlActor, control: Control)
        requires
            old(self).wf(),
        ensures
            final(self).wf(),
            final(self)@ == control_spec(old(self)@, actor, control),
    {
        match control {
            Control::Sub => {
                add_actor(&mut self.subs, actor);
            },
            Control::UnSub => {
                swap_remove_actor(&mut self.subs, actor);
            },
            Control::ConnectTo(addr, is_seed) => {
                if is_seed {
                    let node = addr.node_id();
                    let mut i: usize = 0;
                    let mut found = false;
                    while i < self.seeds.len()
                        invariant
                            i <= self.seeds@.len(),
                            found == exists|j: int| 0 <= j < i && self.seeds@[j] == node,
                        decreases self.seeds@.len() - i,
                    {
                        if self.seeds[i] == node {
                            found = true;
                        }
                        i = i + 1;
                    }
                    if !found {
                        let ghost v0 = self.seeds@;
                        self.seeds.push(node);
                        proof {
                            let p = self.seeds@;
                            assert forall|a: int, b: int| 0 <= a < p.len() && 0 <= b < p.len() && a != b implies p[a] != p[b] by {
                                if a < v0.len() && b < v0.len() {
                                    assert(p[a] == v0[a] && p[b] == v0[b]);
                                } else if a < v0.len() {
                                    assert(p[a] == v0[a]);
                                } else {
                                    assert(p[b] == v0[b]);
                                }
                            }
                        }
                    }
                }
                self.output.push_back(Output::NeighboursConnectTo(addr));
            },
            Control::DisconnectFrom(node) => {
                self.output.push_back(Output::NeighboursDisconnectFrom(node));
            },
        }
    }

    /// Marks the feature shut down.
    pub fn on_shutdown(&mut self)
        requires
            old(self).wf(),
        ensures
            final(self).wf(),
            final(self)@ == (NeighboursView { shutdown: true, ..old(self)@ }),
    {
        self.shutdown = true;
    }

    /// Whether the feature was shut down and has handed out everything.
    pub fn is_empty(&self) -> (r: bool)
        ensures
            r == (self@.shutdown && self@.queue.len() == 0),
    {
        self.shutdown && self.output.len() == 0
    }

    /// The output that tells that the feature has nothing left.
    pub fn empty_event(&self) -> (r: Output)
        ensures
            r == Output::OnResourceEmpty,
    {
        Output::OnResourceEmpty
    }

    /// Hands out the oldest output.
    pub fn pop_output(&mut self) -> (r: Option<Output>)
        requires
            old(self).wf(),
        ensures
            final(self).wf(),
            old(self)@.queue.len() == 0 ==> r is None && final(self)@ == old(self)@,
            old(self)@.queue.len() > 0 ==> r == Some(old(self)@.queue[0]) && final(self)@ == (NeighboursView {
                queue: old(self)@.queue.drop_first(),
                ..old(self)@
            }),
    {
        self.output.pop_front()
    }
}

impl Default for NeighboursFeature {
    fn default() -> (r: Self)
        ensures
            r.wf(),
            r@ == (NeighboursView { subs: Seq::empty(), queue: Seq::empty(), seeds: Seq::empty(), nodes: Seq::empty(), shutdown: false }),
    {
        NeighboursFeature::new()
    }
}

/// The neighbours feature on a worker: it hands every control and message on to the
/// controller.
pub type NeighboursFeatureWorker = ForwardingWorker<Control, ToWorker>;

} // verus!
