//! Visualization: every node sends, at a fixed interval, a snapshot of its information and
//! its connections to the collector nodes; a collector keeps the last snapshot of each node,
//! forgets nodes that stop sending, and tells its subscribers of every change.

use std::collections::VecDeque;
use vstd::prelude::*;

use crate::base::{ConnId, ConnectionEvent, NetIncomingMeta, NetOutgoingMeta, RouteRule, ServiceControlActor, ServiceForwardingWorker};
use crate::data;
use crate::dht_kv::msg::copy_bytes;
use crate::pubsub::timed_map::RankedKey;
use crate::sorted_map::{contains_key, index_of_key, lemma_insert_then_find, ordered, ordered_insert, ordered_remove, SortedMap};
use crate::types::{NodeId, PeerAddr, ServiceBroadcastLevel};

verus! {

/// The identifier of the visualization service.
pub const SERVICE_ID: u8 = 1;
/// A node not heard from for this long is considered gone.
pub const NODE_TIMEOUT_MS: u64 = 10000;
/// How often a node sends its snapshot.
pub const NODE_PING_MS: u64 = 5000;
/// The time to live of a snapshot.
pub const NODE_PING_TTL: u8 = 5;
/// The data port that snapshots are sent to.
pub const DATA_PORT: u16 = 0;
/// The round-trip time a connection is given until it is measured.
pub const DEFAULT_RTT_MS: u32 = 1000;

/// A connection of a node: its identifier, the node at the other end, the addresses at both
/// ends, and its round-trip time.
#[derive(Debug, Clone, Copy, PartialEq, Eq, Structural)]
pub struct ConnectionInfo {
    pub conn: ConnId,
    pub dest: NodeId,
    pub local: PeerAddr,
    pub remote: PeerAddr,
    pub rtt_ms: u32,
}

/// What a local actor asks: subscribe to the changes (and get everything known), get
/// everything known, or replace this node's information (encoded).
#[derive(Debug, Clone, PartialEq, Eq)]
pub enum Control {
    Subscribe,
    GetAll,
    UpdateInfo(Vec<u8>),
}

/// What a local actor is told: every node known with its information and connections, a
/// node's new snapshot, or that a node is gone.
#[derive(Debug, Clone, PartialEq, Eq)]
pub enum Event {
    GotAll(Vec<(NodeId, Vec<u8>, Vec<ConnectionInfo>)>),
    NodeChanged(NodeId, Vec<u8>, Vec<ConnectionInfo>),
    NodeRemoved(NodeId),
}

/// Mathematical form of [`Event`].
pub enum EventView {
    GotAll(Seq<(NodeId, Seq<u8>, Seq<ConnectionInfo>)>),
    NodeChanged(NodeId, Seq<u8>, Seq<ConnectionInfo>),
    NodeRemoved(NodeId),
}

pub open spec fn all_view(v: Seq<(NodeId, Vec<u8>, Vec<ConnectionInfo>)>) -> Seq<(NodeId, Seq<u8>, Seq<ConnectionInfo>)> {
    v.map_values(|e: (NodeId, Vec<u8>, Vec<ConnectionInfo>)| (e.0, e.1@, e.2@))
}

impl View for Event {
    type V = EventView;

    open spec fn view(&self) -> EventView {
        match self {
            Event::GotAll(v) => EventView::GotAll(all_view(v@)),
            Event::NodeChanged(n, i, c) => EventView::NodeChanged(*n, i@, c@),
            Event::NodeRemoved(n) => EventView::NodeRemoved(*n),
        }
    }
}

/// A snapshot of a node: its identifier, its information (encoded) and its connections.
#[derive(Debug, Clone, PartialEq, Eq)]
pub enum Message {
    Snapshot(NodeId, Vec<u8>, Vec<ConnectionInfo>),
}

/// Mathematical form of [`Message`].
pub enum MessageView {
    Snapshot(NodeId, Seq<u8>, Seq<ConnectionInfo>),
}

impl View for Message {
    type V = MessageView;

    open spec fn view(&self) -> MessageView {
        match self {
            Message::Snapshot(n, i, c) => MessageView::Snapshot(*n, i@, c@),
        }
    }
}

/// An output: listen on a data port, send a snapshot by a route rule, or an event for a local
/// actor.
#[derive(Debug, Clone, PartialEq, Eq)]
pub enum Output {
    DataListen(u16),
    DataSendRule(u16, RouteRule, NetOutgoingMeta, Message),
    Event(ServiceControlActor, Event),
}

/// Mathematical form of [`Output`].
pub enum OutputView {
    DataListen(u16),
    DataSendRule(u16, RouteRule, NetOutgoingMeta, MessageView),
    Event(ServiceControlActor, EventView),
}

impl View for Output {
    type V = OutputView;

    open spec fn view(&self) -> OutputView {
        match self {
            Output::DataListen(p) => OutputView::DataListen(*p),
            Output::DataSendRule(p, r, m, msg) => OutputView::DataSendRule(*p, *r, *m, msg@),
            Output::Event(a, e) => OutputView::Event(*a, e@),
        }
    }
}

pub open spec fn outputs_view(q: Seq<Output>) -> Seq<OutputView> {
    q.map_values(|o: Output| o@)
}

/// The last snapshot of a node: when it came, and the node's information and connections.
pub struct NodeInfo {
    pub last_ping_ms: u64,
    pub info: Vec<u8>,
    pub conns: Vec<ConnectionInfo>,
}

/// Mathematical state of a [`VisualizationService`]: this node's information, when it last
/// sent its snapshot, the next broadcast sequence number, the outputs not yet handed out,
/// this node's connections and the other nodes' last snapshots (both in increasing key
/// order), the subscribers, and whether it was shut down.
#[verifier::ext_equal]
pub struct VisualizationView {
    pub info: Seq<u8>,
    pub last_ping: u64,
    pub broadcast_seq: u16,
    pub queue: Seq<OutputView>,
    pub conns: Seq<(ConnId, ConnectionInfo)>,
    pub nodes: Seq<(NodeId, NodeInfo)>,
    pub subscribers: Seq<ServiceControlActor>,
    pub shutdown: bool,
}

/// The visualization service of a node.
pub struct VisualizationService {
    info: Vec<u8>,
    last_ping: u64,
    broadcast_seq: u16,
    queue: VecDeque<Output>,
    conns: SortedMap<ConnId, ConnectionInfo>,
    network_nodes: SortedMap<NodeId, NodeInfo>,
    subscribers: Vec<ServiceControlActor>,
    shutdown: bool,
}

impl View for VisualizationService {
    type V = VisualizationView;

    closed spec fn view(&self) -> VisualizationView {
        VisualizationView {
            info: self.info@,
            last_ping: self.last_ping,
            broadcast_seq: self.broadcast_seq,
            queue: outputs_view(self.queue@),
            conns: self.conns@,
            nodes: self.network_nodes@,
            subscribers: self.subscribers@,
            shutdown: self.shutdown,
        }
    }
}

/// The sequence number after `x`, wrapping around.
pub open spec fn next_seq(x: u16) -> u16 {
    if x == 0xffff {
        0
    } else {
        (x + 1) as u16
    }
}

/// Event `e` for each of `subs`, in order.
pub open spec fn fire(subs: Seq<ServiceControlActor>, e: EventView) -> Seq<OutputView> {
    subs.map_values(|a: ServiceControlActor| OutputView::Event(a, e))
}

/// Every node known, with its information and connections, in increasing order.
pub open spec fn all_nodes(nodes: Seq<(NodeId, NodeInfo)>) -> Seq<(NodeId, Seq<u8>, Seq<ConnectionInfo>)> {
    nodes.map_values(|e: (NodeId, NodeInfo)| (e.0, e.1.info@, e.1.conns@))
}

/// The connections, in increasing order.
pub open spec fn conn_values(conns: Seq<(ConnId, ConnectionInfo)>) -> Seq<ConnectionInfo> {
    conns.map_values(|e: (ConnId, ConnectionInfo)| e.1)
}

/// The meta of a snapshot: secured, with its own time to live.
pub open spec fn snapshot_meta() -> NetOutgoingMeta {
    NetOutgoingMeta { source: false, ttl: NODE_PING_TTL, meta: 0, secure: true }
}

/// What a connection event does.
pub open spec fn connection_spec(s: VisualizationView, ev: ConnectionEvent) -> VisualizationView {
    match ev {
        ConnectionEvent::Connected(ctx) => VisualizationView {
            conns: ordered_insert(
                s.conns,
                ctx.conn,
                ConnectionInfo { conn: ctx.conn, dest: ctx.node, local: ctx.local, remote: ctx.remote, rtt_ms: DEFAULT_RTT_MS },
            ),
            ..s
        },
        ConnectionEvent::Stats(ctx, stats) => {
            let base = if contains_key(s.conns, ctx.conn) {
                s.conns[index_of_key(s.conns, ctx.conn)].1
            } else {
                ConnectionInfo { conn: ctx.conn, dest: ctx.node, local: ctx.local, remote: ctx.remote, rtt_ms: DEFAULT_RTT_MS }
            };
            VisualizationView { conns: ordered_insert(s.conns, ctx.conn, ConnectionInfo { rtt_ms: stats.rtt_ms as u32, ..base }), ..s }
        },
        ConnectionEvent::Disconnected(ctx) => VisualizationView { conns: ordered_remove(s.conns, ctx.conn), ..s },
        _ => s,
    }
}

/// The nodes not heard from for `NODE_TIMEOUT_MS` at `now`, in increasing order.
pub open spec fn expired_nodes(nodes: Seq<(NodeId, NodeInfo)>, now: u64) -> Seq<NodeId>
    decreases nodes.len(),
{
    if nodes.len() == 0 {
        Seq::empty()
    } else if now >= NODE_TIMEOUT_MS + nodes.last().1.last_ping_ms {
        expired_nodes(nodes.drop_last(), now).push(nodes.last().0)
    } else {
        expired_nodes(nodes.drop_last(), now)
    }
}

/// Forgets each of `ids`, in order, telling the subscribers.
pub open spec fn remove_nodes(s: VisualizationView, ids: Seq<NodeId>) -> VisualizationView
    decreases ids.len(),
{
    if ids.len() == 0 {
        s
    } else {
        let r = remove_nodes(s, ids.drop_last());
        VisualizationView {
            queue: r.queue + fire(r.subscribers, EventView::NodeRemoved(ids.last())),
            nodes: ordered_remove(r.nodes, ids.last()),
            ..r
        }
    }
}

/// A tick at `now` on node `node_id`: the nodes gone are forgotten, and the snapshot of this
/// node is sent when it is due.
pub open spec fn tick_spec(s: VisualizationView, node_id: NodeId, now: u64) -> VisualizationView {
    let r = remove_nodes(s, expired_nodes(s.nodes, now));
    if now >= r.last_ping + NODE_PING_MS {
        VisualizationView {
            last_ping: now,
            broadcast_seq: next_seq(r.broadcast_seq),
            queue: r.queue.push(
                OutputView::DataSendRule(
                    DATA_PORT,
                    RouteRule::ToServices(SERVICE_ID, ServiceBroadcastLevel::Global, r.broadcast_seq),
                    snapshot_meta(),
                    MessageView::Snapshot(node_id, r.info, conn_values(r.conns)),
                ),
            ),
            ..r
        }
    } else {
        r
    }
}

/// What a control of a local actor does.
pub open spec fn control_spec(s: VisualizationView, actor: ServiceControlActor, control: Control) -> VisualizationView {
    match control {
        Control::GetAll => VisualizationView { queue: s.queue.push(OutputView::Event(actor, EventView::GotAll(all_nodes(s.nodes)))), ..s },
        Control::Subscribe => {
            if s.subscribers.contains(actor) {
                s
            } else {
                VisualizationView {
                    subscribers: s.subscribers.push(actor),
                    queue: s.queue.push(OutputView::Event(actor, EventView::GotAll(all_nodes(s.nodes)))),
                    ..s
                }
            }
        },
        Control::UpdateInfo(info) => VisualizationView { info: info@, ..s },
    }
}

/// What a message that came in with `meta` at `now` does: only a secured snapshot counts; its
/// node's snapshot is replaced and the subscribers told.
pub open spec fn message_spec(s: VisualizationView, now: u64, meta: NetIncomingMeta, msg: Message) -> VisualizationView {
    if !meta.secure {
        s
    } else {
        match msg {
            Message::Snapshot(from, info, conns) => VisualizationView {
                queue: s.queue + fire(s.subscribers, EventView::NodeChanged(from, info@, conns@)),
                nodes: ordered_insert(s.nodes, from, NodeInfo { last_ping_ms: now, info, conns }),
                ..s
            },
        }
    }
}

/// The connections and the nodes are in increasing key order, and no subscriber occurs
/// twice.
pub open spec fn valid(s: VisualizationView) -> bool {
    &&& ordered(s.conns)
    &&& ordered(s.nodes)
    &&& s.subscribers.no_duplicates()
}

/// A secured snapshot of a node is kept as that node's last snapshot, with the time it came,
/// and every subscriber is told of it.
pub proof fn law_snapshot_recorded(
    s: VisualizationView,
    now: u64,
    meta: NetIncomingMeta,
    from: NodeId,
    info: Vec<u8>,
    conns: Vec<ConnectionInfo>,
)
    requires
        valid(s),
        meta.secure,
    ensures
        ({
            let r = message_spec(s, now, meta, Message::Snapshot(from, info, conns));
            &&& valid(r)
            &&& contains_key(r.nodes, from)
            &&& r.nodes[index_of_key(r.nodes, from)].1 == (NodeInfo { last_ping_ms: now, info, conns })
            &&& r.queue == s.queue + fire(s.subscribers, EventView::NodeChanged(from, info@, conns@))
        }),
{
    lemma_insert_then_find(s.nodes, from, NodeInfo { last_ping_ms: now, info, conns });
}

proof fn lemma_expired_listed(ns: Seq<(NodeId, NodeInfo)>, now: u64)
    ensures
        forall|i: int|
            0 <= i < ns.len() && now >= NODE_TIMEOUT_MS + (#[trigger] ns[i]).1.last_ping_ms ==> expired_nodes(ns, now).contains(ns[i].0),
    decreases ns.len(),
{
    if ns.len() > 0 {
        let d = ns.drop_last();
        lemma_expired_listed(d, now);
        let e = expired_nodes(ns, now);
        let e0 = expired_nodes(d, now);
        assert forall|i: int| 0 <= i < ns.len() && now >= NODE_TIMEOUT_MS + (#[trigger] ns[i]).1.last_ping_ms implies e.contains(ns[i].0) by {
            if i < d.len() {
                assert(d[i] == ns[i]);
                let j = choose|j: int| 0 <= j < e0.len() && e0[j] == d[i].0;
                assert(e[j] == e0[j]);
            } else {
                assert(e[e.len() - 1] == ns[i].0);
            }
        }
    }
}

proof fn lemma_remove_nodes(s: VisualizationView, ids: Seq<NodeId>)
    requires
        ordered(s.nodes),
    ensures
        ordered(remove_nodes(s, ids).nodes),
        forall|j: int|
            0 <= j < remove_nodes(s, ids).nodes.len() ==> s.nodes.contains(#[trigger] remove_nodes(s, ids).nodes[j]) && !ids.contains(
                remove_nodes(s, ids).nodes[j].0,
            ),
    decreases ids.len(),
{
    if ids.len() > 0 {
        let d = ids.drop_last();
        lemma_remove_nodes(s, d);
        let r = remove_nodes(s, d);
        let id = ids.last();
        let out = remove_nodes(s, ids).nodes;
        if contains_key(r.nodes, id) {
            let k = index_of_key(r.nodes, id);
            assert(out =~= r.nodes.remove(k));
            assert forall|a: int, b: int| 0 <= a < b < out.len() implies (#[trigger] out[a]).0.rank() < (#[trigger] out[b]).0.rank() by {
                let a1 = if a < k { a } else { a + 1 };
                let b1 = if b < k { b } else { b + 1 };
                assert(out[a] == r.nodes[a1] && out[b] == r.nodes[b1]);
            }
            assert forall|j: int| 0 <= j < out.len() implies s.nodes.contains(#[trigger] out[j]) && !ids.contains(out[j].0) by {
                let j1 = if j < k { j } else { j + 1 };
                assert(out[j] == r.nodes[j1]);
                assert(r.nodes[j1].0 != id) by {
                    if r.nodes[j1].0 == id {
                        if j1 < k {
                            assert(r.nodes[j1].0.rank() < r.nodes[k].0.rank());
                        } else {
                            assert(r.nodes[k].0.rank() < r.nodes[j1].0.rank());
                        }
                    }
                }
                assert(!d.contains(out[j].0));
                if ids.contains(out[j].0) {
                    let x = choose|x: int| 0 <= x < ids.len() && ids[x] == out[j].0;
                    if x < d.len() {
                        assert(d[x] == ids[x]);
                    }
                }
            }
        } else {
            assert forall|j: int| 0 <= j < out.len() implies s.nodes.contains(#[trigger] out[j]) && !ids.contains(out[j].0) by {
                assert(out[j] == r.nodes[j]);
                assert(out[j].0 != id);
                if ids.contains(out[j].0) {
                    let x = choose|x: int| 0 <= x < ids.len() && ids[x] == out[j].0;
                    if x < d.len() {
                        assert(d[x] == ids[x]);
                    }
                }
            }
        }
    }
}

/// After a tick at `now`, every node still known was heard from less than
/// `NODE_TIMEOUT_MS` before, and every node known was known before the tick.
pub proof fn law_tick_forgets_silent_nodes(s: VisualizationView, node_id: NodeId, now: u64)
    requires
        valid(s),
    ensures
        valid(tick_spec(s, node_id, now)),
        forall|j: int|
            0 <= j < tick_spec(s, node_id, now).nodes.len() ==> now < NODE_TIMEOUT_MS + (#[trigger] tick_spec(s, node_id, now).nodes[j]).1.last_ping_ms
                && s.nodes.contains(tick_spec(s, node_id, now).nodes[j]),
{
    let ids = expired_nodes(s.nodes, now);
    lemma_expired_listed(s.nodes, now);
    lemma_remove_nodes(s, ids);
    lemma_remove_nodes_keeps(s, ids);
    let t = tick_spec(s, node_id, now);
    let r = remove_nodes(s, ids);
    assert(t.nodes == r.nodes);
    assert forall|j: int| 0 <= j < t.nodes.len() implies now < NODE_TIMEOUT_MS + (#[trigger] t.nodes[j]).1.last_ping_ms && s.nodes.contains(t.nodes[j]) by {
        let e = t.nodes[j];
        assert(s.nodes.contains(e) && !ids.contains(e.0));
        let i = choose|i: int| 0 <= i < s.nodes.len() && s.nodes[i] == e;
        if now >= NODE_TIMEOUT_MS + s.nodes[i].1.last_ping_ms {
            assert(ids.contains(s.nodes[i].0));
        }
    }
}

proof fn lemma_remove_nodes_keeps(s: VisualizationView, ids: Seq<NodeId>)
    ensures
        remove_nodes(s, ids).conns == s.conns,
        remove_nodes(s, ids).subscribers == s.subscribers,
    decreases ids.len(),
{
    if ids.len() > 0 {
        lemma_remove_nodes_keeps(s, ids.drop_last());
    }
}

/// A copy of a list of connections.
fn copy_conns(v: &Vec<ConnectionInfo>) -> (r: Vec<ConnectionInfo>)
    ensures
        r@ == v@,
{
    let mut r: Vec<ConnectionInfo> = Vec::new();
    let mut i: usize = 0;
    while i < v.len()
        invariant
            i <= v@.len(),
            r@ == v@.take(i as int),
        decreases v@.len() - i,
    {
        r.push(v[i]);
        proof {
            assert(v@.take(i + 1) =~= v@.take(i as int).push(v@[i as int]));
        }
        i = i + 1;
    }
    assert(v@.take(i as int) =~= v@);
    r
}

impl VisualizationService {
    pub open spec fn wf(&self) -> bool {
        valid(self@)
    }

    /// A service with information `info`, that first listens on the data port.
    pub fn new(info: Vec<u8>) -> (r: Self)
        ensures
            r.wf(),
            r@ == (VisualizationView {
                info: info@,
                last_ping: 0,
                broadcast_seq: 0,
                queue: seq![OutputView::DataListen(DATA_PORT)],
                conns: Seq::empty(),
                nodes: Seq::empty(),
                subscribers: Seq::empty(),
                shutdown: false,
            }),
    {
        let mut queue = VecDeque::new();
        queue.push_back(Output::DataListen(DATA_PORT));
        let r = VisualizationService {
            info,
            last_ping: 0,
            broadcast_seq: 0,
            queue,
            conns: SortedMap::new(),
            network_nodes: SortedMap::new(),
            subscribers: Vec::new(),
            shutdown: false,
        };
        assert(r@.queue =~= seq![OutputView::DataListen(DATA_PORT)]);
        r
    }

    pub fn service_id(&self) -> (r: u8)
        ensures
            r == SERVICE_ID,
    {
        SERVICE_ID
    }

    /// Queues event `e` for each subscriber; the event is made anew for each.
    fn fire_removed(&mut self, node: NodeId)
        requires
            old(self).wf(),
        ensures
            final(self).wf(),
            final(self)@ == (VisualizationView {
                queue: old(self)@.queue + fire(old(self)@.subscribers, EventView::NodeRemoved(node)),
                ..old(self)@
            }),
    {
        let ghost s0 = self@;
        let mut j: usize = 0;
        while j < self.subscribers.len()
            invariant
                self.wf(),
                j <= s0.subscribers.len(),
                self@ == (VisualizationView { queue: s0.queue + fire(s0.subscribers.take(j as int), EventView::NodeRemoved(node)), ..s0 }),
            decreases s0.subscribers.len() - j,
        {
            let a = self.subscribers[j];
            let ghost q = self.queue@;
            self.queue.push_back(Output::Event(a, Event::NodeRemoved(node)));
            proof {
                assert(outputs_view(self.queue@) =~= outputs_view(q).push(OutputView::Event(a, EventView::NodeRemoved(node))));
                assert(fire(s0.subscribers.take(j + 1), EventView::NodeRemoved(node)) =~= fire(s0.subscribers.take(j as int), EventView::NodeRemoved(node)).push(
                    OutputView::Event(a, EventView::NodeRemoved(node)),
                ));
                assert(self@.queue =~= s0.queue + fire(s0.subscribers.take(j + 1), EventView::NodeRemoved(node)));
            }
            j = j + 1;
        }
        assert(s0.subscribers.take(j as int) =~= s0.subscribers);
    }

    /// Queues, for each subscriber, the news of `node`'s snapshot.
    fn fire_changed(&mut self, node: NodeId, info: &Vec<u8>, conns: &Vec<ConnectionInfo>)
        requires
            old(self).wf(),
        ensures
            final(self).wf(),
            final(self)@ == (VisualizationView {
                queue: old(self)@.queue + fire(old(self)@.subscribers, EventView::NodeChanged(node, info@, conns@)),
                ..old(self)@
            }),
    {
        let ghost s0 = self@;
        let ghost e = EventView::NodeChanged(node, info@, conns@);
        let mut j: usize = 0;
        while j < self.subscribers.len()
            invariant
                self.wf(),
                j <= s0.subscribers.len(),
                e == EventView::NodeChanged(node, info@, conns@),
                self@ == (VisualizationView { queue: s0.queue + fire(s0.subscribers.take(j as int), e), ..s0 }),
            decreases s0.subscribers.len() - j,
        {
            let a = self.subscribers[j];
            let o = Output::Event(a, Event::NodeChanged(node, copy_bytes(info), copy_conns(conns)));
            assert(o@ == OutputView::Event(a, e));
            let ghost q = self.queue@;
            self.queue.push_back(o);
            proof {
                assert(outputs_view(self.queue@) =~= outputs_view(q).push(OutputView::Event(a, e)));
                assert(fire(s0.subscribers.take(j + 1), e) =~= fire(s0.subscribers.take(j as int), e).push(OutputView::Event(a, e)));
                assert(self@.queue =~= s0.queue + fire(s0.subscribers.take(j + 1), e));
            }
            j = j + 1;
        }
        assert(s0.subscribers.take(j as int) =~= s0.subscribers);
    }

    /// Every node known, with copies of its information and connections.
    fn collect_all(&self) -> (r: Vec<(NodeId, Vec<u8>, Vec<ConnectionInfo>)>)
        requires
            self.wf(),
        ensures
            all_view(r@) == all_nodes(self@.nodes),
    {
        let ghost ns = self@.nodes;
        let mut r: Vec<(NodeId, Vec<u8>, Vec<ConnectionInfo>)> = Vec::new();
        let mut i: usize = 0;
        while i < self.network_nodes.len()
            invariant
                self.wf(),
                ns == self@.nodes,
                i <= ns.len(),
                all_view(r@) == all_nodes(ns.take(i as int)),
            decreases ns.len() - i,
        {
            let e = self.network_nodes.at(i);
            let item = (e.0, copy_bytes(&e.1.info), copy_conns(&e.1.conns));
            let ghost r0 = r@;
            r.push(item);
            proof {
                assert(*e == ns[i as int]);
                assert(all_view(r@) =~= all_view(r0).push((item.0, item.1@, item.2@)));
                assert(all_nodes(ns.take(i + 1)) =~= all_nodes(ns.take(i as int)).push((ns[i as int].0, ns[i as int].1.info@, ns[i as int].1.conns@)));
                assert(all_view(r@) =~= all_nodes(ns.take(i + 1)));
            }
            i = i + 1;
        }
        assert(ns.take(i as int) =~= ns);
        r
    }

    /// Handles a connection event.
    pub fn on_connection(&mut self, ev: ConnectionEvent)
        requires
            old(self).wf(),
        ensures
            final(self).wf(),
            final(self)@ == connection_spec(old(self)@, ev),
    {
        match ev {
            ConnectionEvent::Connected(ctx) => {
                self.conns.insert(
                    ctx.conn,
                    ConnectionInfo { conn: ctx.conn, dest: ctx.node, local: ctx.local, remote: ctx.remote, rtt_ms: DEFAULT_RTT_MS },
                );
            },
            ConnectionEvent::Stats(ctx, stats) => {
                let base = match self.conns.find(ctx.conn) {
                    Some(i) => self.conns.at(i).1,
                    None => ConnectionInfo { conn: ctx.conn, dest: ctx.node, local: ctx.local, remote: ctx.remote, rtt_ms: DEFAULT_RTT_MS },
                };
                self.conns.insert(ctx.conn, ConnectionInfo { rtt_ms: stats.rtt_ms as u32, ..base });
            },
            ConnectionEvent::Disconnected(ctx) => {
                if let Some(i) = self.conns.find(ctx.conn) {
                    self.conns.remove_at(i);
                }
            },
            _ => {},
        }
    }

    /// A tick at `now` on node `node_id`: the nodes not heard from for `NODE_TIMEOUT_MS` are
    /// forgotten (the subscribers told, in increasing order), and this node's snapshot is sent
    /// when `NODE_PING_MS` have passed since the last one.
    pub fn on_tick(&mut self, node_id: NodeId, now: u64)
        requires
            old(self).wf(),
        ensures
            final(self).wf(),
            final(self)@ == tick_spec(old(self)@, node_id, now),
    {
        let ghost s0 = self@;
        let ghost ns = s0.nodes;
        let mut expired: Vec<NodeId> = Vec::new();
        let mut i: usize = 0;
        while i < self.network_nodes.len()
            invariant
                self.wf(),
                self@ == s0,
                ns == s0.nodes,
                i <= ns.len(),
                expired@ == expired_nodes(ns.take(i as int), now),
            decreases ns.len() - i,
        {
            let e = self.network_nodes.at(i);
            proof {
                assert(ns.take(i + 1).drop_last() =~= ns.take(i as int));
                assert(ns.take(i + 1).last() == ns[i as int]);
            }
            if now >= e.1.last_ping_ms && now - e.1.last_ping_ms >= NODE_TIMEOUT_MS {
                expired.push(e.0);
            }
            i = i + 1;
        }
        proof {
            assert(ns.take(i as int) =~= ns);
        }
        let ghost ids = expired@;
        let mut k: usize = 0;
        proof {
            assert(ids.take(0) =~= Seq::<NodeId>::empty());
        }
        while k < expired.len()
            invariant
                self.wf(),
                ids == expired@,
                k <= ids.len(),
                self@ == remove_nodes(s0, ids.take(k as int)),
            decreases ids.len() - k,
        {
            let node = expired[k];
            proof {
                assert(ids.take(k + 1).drop_last() =~= ids.take(k as int));
                assert(ids.take(k + 1).last() == node);
            }
            self.fire_removed(node);
            if let Some(j) = self.network_nodes.find(node) {
                self.network_nodes.remove_at(j);
            }
            k = k + 1;
        }
        proof {
            assert(ids.take(k as int) =~= ids);
        }
        if now >= self.last_ping && now - self.last_ping >= NODE_PING_MS {
            self.last_ping = now;
            let seq = self.broadcast_seq;
            self.broadcast_seq = if seq == 0xffff {
                0
            } else {
                seq + 1
            };
            let mut conns: Vec<ConnectionInfo> = Vec::new();
            let ghost cs = self@.conns;
            let mut j: usize = 0;
            while j < self.conns.len()
                invariant
                    self.wf(),
                    cs == self@.conns,
                    j <= cs.len(),
                    conns@ == conn_values(cs.take(j as int)),
                decreases cs.len() - j,
            {
                conns.push(self.conns.at(j).1);
                proof {
                    assert(conn_values(cs.take(j + 1)) =~= conn_values(cs.take(j as int)).push(cs[j as int].1));
                }
                j = j + 1;
            }
            proof {
                assert(cs.take(j as int) =~= cs);
            }
            let msg = Message::Snapshot(node_id, copy_bytes(&self.info), conns);
            self.queue.push_back(
                Output::DataSendRule(
                    DATA_PORT,
                    RouteRule::ToServices(SERVICE_ID, ServiceBroadcastLevel::Global, seq),
                    NetOutgoingMeta::new(false, NODE_PING_TTL, 0, true),
                    msg,
                ),
            );
        }
    }

    /// Handles a control of a local actor.
    pub fn on_control(&mut self, actor: ServiceControlActor, control: Control)
        requires
            old(self).wf(),
        ensures
            final(self).wf(),
            final(self)@ == control_spec(old(self)@, actor, control),
    {
        match control {
            Control::GetAll => {
                let all = self.collect_all();
                self.queue.push_back(Output::Event(actor, Event::GotAll(all)));
            },
            Control::Subscribe => {
                if add_actor_service(&mut self.subscribers, actor) {
                    let all = self.collect_all();
                    self.queue.push_back(Output::Event(actor, Event::GotAll(all)));
                }
            },
            Control::UpdateInfo(info) => {
                self.info = info;
            },
        }
    }

    /// Handles a decoded data message that came in with `meta` at `now`.
    pub fn on_message(&mut self, now: u64, meta: NetIncomingMeta, msg: Message)
        requires
            old(self).wf(),
        ensures
            final(self).wf(),
            final(self)@ == message_spec(old(self)@, now, meta, msg),
    {
        if !meta.secure {
            return;
        }
        match msg {
            Message::Snapshot(from, info, conns) => {
                self.fire_changed(from, &info, &conns);
                self.network_nodes.insert(from, NodeInfo { last_ping_ms: now, info, conns });
            },
        }
    }

    /// Marks the service shut down.
    pub fn on_shutdown(&mut self)
        requires
            old(self).wf(),
        ensures
            final(self).wf(),
            final(self)@ == (VisualizationView { shutdown: true, ..old(self)@ }),
    {
        self.shutdown = true;
    }

    /// Whether the service was shut down and has handed out everything.
    pub fn is_service_empty(&self) -> (r: bool)
        ensures
            r == (self@.shutdown && self@.queue.len() == 0),
    {
        self.shutdown && self.queue.len() == 0
    }

    /// Hands out the oldest output.
    pub fn pop_output(&mut self) -> (r: Option<Output>)
        requires
            old(self).wf(),
        ensures
            final(self).wf(),
            old(self)@.queue.len() == 0 ==> r is None && final(self)@ == old(self)@,
            old(self)@.queue.len() > 0 ==> (r matches Some(o) && o@ == old(self)@.queue[0]),
            old(self)@.queue.len() > 0 ==> final(self)@ == (VisualizationView { queue: old(self)@.queue.drop_first(), ..old(self)@ }),
    {
        let ghost q = self.queue@;
        let r = self.queue.pop_front();
        proof {
            if q.len() > 0 {
                assert(outputs_view(q.drop_first()) =~= outputs_view(q).drop_first());
            }
        }
        r
    }

    /// The number of nodes known.
    pub fn node_count(&self) -> (r: usize)
        requires
            self.wf(),
        ensures
            r == self@.nodes.len(),
    {
        self.network_nodes.len()
    }

    /// The number of this node's connections.
    pub fn conn_count(&self) -> (r: usize)
        requires
            self.wf(),
        ensures
            r == self@.conns.len(),
    {
        self.conns.len()
    }
}

/// Adds `a` to `v` unless it is there already; whether it was added.
fn add_actor_service(v: &mut Vec<ServiceControlActor>, a: ServiceControlActor) -> (added: bool)
    requires
        old(v)@.no_duplicates(),
    ensures
        final(v)@.no_duplicates(),
        added == !old(v)@.contains(a),
        final(v)@ == if added { old(v)@.push(a) } else { old(v)@ },
{
    let ghost v0 = v@;
    let mut i: usize = 0;
    while i < v.len()
        invariant
            v@ == v0,
            v0 == old(v)@,
            v0.no_duplicates(),
            i <= v0.len(),
            forall|k: int| 0 <= k < i ==> v0[k] != a,
        decreases v0.len() - i,
    {
        if v[i] == a {
            assert(v0[i as int] == a);
            return false;
        }
        i = i + 1;
    }
    v.push(a);
    proof {
        let p = v@;
        assert forall|x: int, y: int| 0 <= x < p.len() && 0 <= y < p.len() && x != y implies p[x] != p[y] by {
            if x < v0.len() && y < v0.len() {
                assert(p[x] == v0[x] && p[y] == v0[y]);
            } else if x < v0.len() {
                assert(p[x] == v0[x]);
            } else {
                assert(p[y] == v0[y]);
            }
        }
    }
    true
}

/// The visualization service on a worker: it hands every control and event on to the
/// controller.
pub type VisualizationServiceWorker = ServiceForwardingWorker<Control, data::Event>;

/// What a node needs to run the visualization service: its information (encoded), and
/// whether it collects the snapshots of the others.
pub struct VisualizationServiceBuilder {
    info: Vec<u8>,
    collector: bool,
}

impl VisualizationServiceBuilder {
    pub fn new(info: Vec<u8>, collector: bool) -> (r: Self)
        ensures
            r.info() == info@,
            r.discoverable() == collector,
    {
        VisualizationServiceBuilder { info, collector }
    }

    pub closed spec fn info(&self) -> Seq<u8> {
        self.info@
    }

    pub closed spec fn discoverable(&self) -> bool {
        self.collector
    }

    pub fn service_id(&self) -> (r: u8)
        ensures
            r == SERVICE_ID,
    {
        SERVICE_ID
    }

    /// Whether other nodes send their snapshots here.
    pub fn is_discoverable(&self) -> (r: bool)
        ensures
            r == self.discoverable(),
    {
        self.collector
    }

    /// A new service with this node's information.
    pub fn create(&self) -> (r: VisualizationService)
        ensures
            r.wf(),
            r@ == (VisualizationView {
                info: self.info(),
                last_ping: 0,
                broadcast_seq: 0,
                queue: seq![OutputView::DataListen(DATA_PORT)],
                conns: Seq::empty(),
                nodes: Seq::empty(),
                subscribers: Seq::empty(),
                shutdown: false,
            }),
    {
        VisualizationService::new(copy_bytes(&self.info))
    }

    /// A new worker.
    pub fn create_worker(&self) -> (r: VisualizationServiceWorker)
        ensures
            r.outputs().len() == 0,
            !r.is_shut_down(),
    {
        VisualizationServiceWorker::new()
    }
}

proof fn lemma_remove_nodes_keeps_info(s: VisualizationView, ids: Seq<NodeId>)
    ensures
        remove_nodes(s, ids).info == s.info,
        remove_nodes(s, ids).last_ping == s.last_ping,
    decreases ids.len(),
{
    if ids.len() > 0 {
        lemma_remove_nodes_keeps_info(s, ids.drop_last());
    }
}

/// The info a local actor sets is what this node's next snapshot carries: after
/// `UpdateInfo(info)`, a tick at which a snapshot is due ends with this node's snapshot
/// carrying `info`.
pub proof fn law_updated_info_in_next_snapshot(s: VisualizationView, actor: ServiceControlActor, info: Vec<u8>, node_id: NodeId, now: u64)
    requires
        now >= s.last_ping + NODE_PING_MS,
    ensures
        ({
            let t = control_spec(s, actor, Control::UpdateInfo(info));
            let u = tick_spec(t, node_id, now);
            &&& u.queue.len() > 0
            &&& u.queue.last() matches OutputView::DataSendRule(port, _, _, MessageView::Snapshot(n, i, _)) && port == DATA_PORT && n == node_id
                && i == info@
        }),
{
    let t = control_spec(s, actor, Control::UpdateInfo(info));
    lemma_remove_nodes_keeps_info(t, expired_nodes(t.nodes, now));
}

} // verus!
