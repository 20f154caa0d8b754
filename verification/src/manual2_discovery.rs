//! Discovery by service broadcast: a node advertises its address, at a fixed interval, to
//! the nodes running each of the configured services at the configured broadcast levels; a
//! node that hears an advertisement from a node it has no connection with connects to it.
//! This keeps the network whole even while it is partitioned.

use std::collections::VecDeque;
use vstd::prelude::*;

use crate::base::{ConnId, ConnectionCtx, ConnectionEvent, NetIncomingMeta, NetOutgoingMeta, RouteRule, ServiceForwardingWorker, DEFAULT_MSG_TTL};
use crate::data;
use crate::dht_kv::msg::copy_bytes;
use crate::node_conns::{lemma_with_then_without, valid_nodes, with_conn, without_conn, NodeConns};
use crate::table::has_key;
use crate::types::{NodeId, ServiceBroadcastLevel, ServiceId};

verus! {

/// The data port that advertisements are sent to.
pub const DATA_PORT: u16 = 2;
/// The identifier of the discovery service.
pub const SERVICE_ID: u8 = 2;

/// Where this node advertises itself: to the nodes running a service, at a broadcast level.
#[derive(Debug, Clone, Copy, PartialEq, Eq, Structural)]
pub struct AdvertiseTarget {
    pub service: ServiceId,
    pub level: ServiceBroadcastLevel,
}

impl AdvertiseTarget {
    pub fn new(service: ServiceId, level: ServiceBroadcastLevel) -> (r: Self)
        ensures
            r == (AdvertiseTarget { service, level }),
    {
        AdvertiseTarget { service, level }
    }
}

/// An output: listen on a data port, send this node's address (encoded) by a route rule, or
/// an address (encoded) that a node advertised, to connect to (not as a seed) when it
/// decodes.
#[derive(Debug, Clone, PartialEq, Eq)]
pub enum Output {
    DataListen(u16),
    DataSendRule(u16, RouteRule, NetOutgoingMeta, Vec<u8>),
    ConnectTo(Vec<u8>),
}

/// Mathematical form of [`Output`].
pub enum OutputView {
    DataListen(u16),
    DataSendRule(u16, RouteRule, NetOutgoingMeta, Seq<u8>),
    ConnectTo(Seq<u8>),
}

impl View for Output {
    type V = OutputView;

    open spec fn view(&self) -> OutputView {
        match self {
            Output::DataListen(p) => OutputView::DataListen(*p),
            Output::DataSendRule(p, r, m, d) => OutputView::DataSendRule(*p, *r, *m, d@),
            Output::ConnectTo(a) => OutputView::ConnectTo(a@),
        }
    }
}

pub open spec fn outputs_view(q: Seq<Output>) -> Seq<OutputView> {
    q.map_values(|o: Output| o@)
}

/// Mathematical state of a [`Manual2DiscoveryService`]: this node and its address (encoded),
/// where it advertises, the outputs not yet handed out, the connections of each peer node,
/// whether it was shut down, the sequence number of the last advertisement, the interval
/// between advertisements and when the last was sent.
#[verifier::ext_equal]
pub struct Manual2View {
    pub node_id: NodeId,
    pub addr: Seq<u8>,
    pub targets: Seq<AdvertiseTarget>,
    pub queue: Seq<OutputView>,
    pub remote_nodes: Seq<(u64, Seq<ConnId>)>,
    pub shutdown: bool,
    pub broadcast_seq: u16,
    pub broadcast_interval: u64,
    pub last_broadcast: u64,
}

/// The discovery service of a node.
pub struct Manual2DiscoveryService {
    node_id: NodeId,
    addr: Vec<u8>,
    targets: Vec<AdvertiseTarget>,
    queue: VecDeque<Output>,
    remote_nodes: NodeConns,
    shutdown: bool,
    broadcast_seq: u16,
    broadcast_interval: u64,
    last_broadcast: u64,
}

impl View for Manual2DiscoveryService {
    type V = Manual2View;

    closed spec fn view(&self) -> Manual2View {
        Manual2View {
            node_id: self.node_id,
            addr: self.addr@,
            targets: self.targets@,
            queue: outputs_view(self.queue@),
            remote_nodes: self.remote_nodes@,
            shutdown: self.shutdown,
            broadcast_seq: self.broadcast_seq,
            broadcast_interval: self.broadcast_interval,
            last_broadcast: self.last_broadcast,
        }
    }
}

/// The sequence number after `x`, wrapping around.
pub open spec fn next_seq(x: u16) -> u16 {
    if x == 0xffff {
        0
    } else {
        (x + 1) as u16
    }
}

/// The meta of an advertisement: carrying its source, secured, with the default time to live.
pub open spec fn advertise_meta() -> NetOutgoingMeta {
    NetOutgoingMeta { source: true, ttl: DEFAULT_MSG_TTL, meta: 0, secure: true }
}

/// An advertisement of `addr` with sequence number `seq` to each of `targets`, in order.
pub open spec fn adverts(targets: Seq<AdvertiseTarget>, seq: u16, addr: Seq<u8>) -> Seq<OutputView> {
    targets.map_values(
        |t: AdvertiseTarget| OutputView::DataSendRule(DATA_PORT, RouteRule::ToServices(t.service, t.level, seq), advertise_meta(), addr),
    )
}

/// A tick at `now`: when the interval has passed since the last advertisement, this node is
/// advertised to every target with the next sequence number.
pub open spec fn tick_spec(s: Manual2View, now: u64) -> Manual2View {
    if now >= s.last_broadcast + s.broadcast_interval {
        Manual2View {
            last_broadcast: now,
            broadcast_seq: next_seq(s.broadcast_seq),
            queue: s.queue + adverts(s.targets, next_seq(s.broadcast_seq), s.addr),
            ..s
        }
    } else {
        s
    }
}

/// What a connection event does.
pub open spec fn connection_spec(s: Manual2View, ev: ConnectionEvent) -> Manual2View {
    match ev {
        ConnectionEvent::Connecting(ctx) => Manual2View { remote_nodes: with_conn(s.remote_nodes, ctx.node, ctx.conn), ..s },
        ConnectionEvent::ConnectError(ctx) => Manual2View { remote_nodes: without_conn(s.remote_nodes, ctx.node, ctx.conn), ..s },
        ConnectionEvent::Disconnected(ctx) => Manual2View { remote_nodes: without_conn(s.remote_nodes, ctx.node, ctx.conn), ..s },
        _ => s,
    }
}

/// Whether an advertisement that came to `port` with `meta` is taken: on the discovery port,
/// secured, from a known node other than this one that has no connection with it.
pub open spec fn advert_taken(s: Manual2View, port: u16, meta: NetIncomingMeta) -> bool {
    &&& port == DATA_PORT
    &&& meta.secure
    &&& meta.source is Some
    &&& meta.source->0 != s.node_id
    &&& !has_key(s.remote_nodes, meta.source->0 as u64)
}

/// What a datagram `data` that came to `port` with `meta` does.
pub open spec fn recv_spec(s: Manual2View, port: u16, meta: NetIncomingMeta, data: Seq<u8>) -> Manual2View {
    if advert_taken(s, port, meta) {
        Manual2View { queue: s.queue.push(OutputView::ConnectTo(data)), ..s }
    } else {
        s
    }
}

/// An advertisement taken leads to one connection attempt, to the address advertised, and
/// changes nothing else; once a connection to that node is opening, its advertisements are no
/// longer taken.
pub proof fn law_advert_taken_until_connecting(s: Manual2View, port: u16, meta: NetIncomingMeta, data: Seq<u8>, ctx: ConnectionCtx)
    requires
        valid_nodes(s.remote_nodes),
        advert_taken(s, port, meta),
        ctx.node == meta.source->0,
    ensures
        recv_spec(s, port, meta, data) == (Manual2View { queue: s.queue.push(OutputView::ConnectTo(data)), ..s }),
        !advert_taken(connection_spec(s, ConnectionEvent::Connecting(ctx)), port, meta),
{
    let n = s.remote_nodes;
    let k = ctx.node as u64;
    let r = with_conn(n, ctx.node, ctx.conn);
    assert(!has_key(n, k));
    assert(r[n.len() as int].0 == k);
}

/// A node whose only connection opens and then closes is again without a connection, so its
/// next advertisement is taken again: it leads to a connection attempt to the address
/// advertised.
pub proof fn law_advert_taken_after_disconnect(s: Manual2View, port: u16, meta: NetIncomingMeta, data: Seq<u8>, ctx: ConnectionCtx)
    requires
        valid_nodes(s.remote_nodes),
        advert_taken(s, port, meta),
        ctx.node == meta.source->0,
    ensures
        ({
            let s1 = connection_spec(s, ConnectionEvent::Connecting(ctx));
            let s2 = connection_spec(s1, ConnectionEvent::Disconnected(ctx));
            &&& s2.remote_nodes == s.remote_nodes
            &&& advert_taken(s2, port, meta)
            &&& recv_spec(s2, port, meta, data).queue == s2.queue.push(OutputView::ConnectTo(data))
        }),
{
    lemma_with_then_without(s.remote_nodes, ctx.node, ctx.conn);
}

impl Manual2DiscoveryService {
    pub open spec fn wf(&self) -> bool {
        valid_nodes(self@.remote_nodes)
    }

    /// The service of node `node_id`, whose address encodes to `addr`, advertising to
    /// `targets` every `interval` milliseconds; it first listens on the discovery port.
    pub fn new(node_id: NodeId, addr: Vec<u8>, targets: Vec<AdvertiseTarget>, interval: u64) -> (r: Self)
        ensures
            r.wf(),
            r@ == (Manual2View {
                node_id,
                addr: addr@,
                targets: targets@,
                queue: seq![OutputView::DataListen(DATA_PORT)],
                remote_nodes: Seq::empty(),
                shutdown: false,
                broadcast_seq: 0,
                broadcast_interval: interval,
                last_broadcast: 0,
            }),
    {
        let mut queue = VecDeque::new();
        queue.push_back(Output::DataListen(DATA_PORT));
        let r = Manual2DiscoveryService {
            node_id,
            addr,
            targets,
            queue,
            remote_nodes: NodeConns::new(),
            shutdown: false,
            broadcast_seq: 0,
            broadcast_interval: interval,
            last_broadcast: 0,
        };
        assert(r@.queue =~= seq![OutputView::DataListen(DATA_PORT)]);
        r
    }

    pub fn service_id(&self) -> (r: u8)
        ensures
            r == SERVICE_ID,
    {
        SERVICE_ID
    }

    /// A tick at `now`.
    pub fn on_tick(&mut self, now: u64)
        requires
            old(self).wf(),
        ensures
            final(self).wf(),
            final(self)@ == tick_spec(old(self)@, now),
    {
        if now >= self.last_broadcast && now - self.last_broadcast >= self.broadcast_interval {
            self.last_broadcast = now;
            self.broadcast_seq = if self.broadcast_seq == 0xffff {
                0
            } else {
                self.broadcast_seq + 1
            };
            let ghost s1 = self@;
            let seq = self.broadcast_seq;
            let mut i: usize = 0;
            while i < self.targets.len()
                invariant
                    self.wf(),
                    i <= s1.targets.len(),
                    seq == s1.broadcast_seq,
                    self@ == (Manual2View { queue: s1.queue + adverts(s1.targets.take(i as int), seq, s1.addr), ..s1 }),
                decreases s1.targets.len() - i,
            {
                let t = self.targets[i];
                let o = Output::DataSendRule(
                    DATA_PORT,
                    RouteRule::ToServices(t.service, t.level, seq),
                    NetOutgoingMeta::new(true, DEFAULT_MSG_TTL, 0, true),
                    copy_bytes(&self.addr),
                );
                let ghost q = self.queue@;
                self.queue.push_back(o);
                proof {
                    assert(outputs_view(self.queue@) =~= outputs_view(q).push(o@));
                    assert(adverts(s1.targets.take(i + 1), seq, s1.addr) =~= adverts(s1.targets.take(i as int), seq, s1.addr).push(o@));
                    assert(self@.queue =~= s1.queue + adverts(s1.targets.take(i + 1), seq, s1.addr));
                }
                i = i + 1;
            }
            assert(s1.targets.take(i as int) =~= s1.targets);
        }
    }

    /// Handles a connection event.
    pub fn on_connection(&mut self, ev: ConnectionEvent)
        requires
            old(self).wf(),
        ensures
            final(self).wf(),
            final(self)@ == connection_spec(old(self)@, ev),
    {
        match ev {
            ConnectionEvent::Connecting(ctx) => self.remote_nodes.add(ctx.node, ctx.conn),
            ConnectionEvent::ConnectError(ctx) => self.remote_nodes.remove(ctx.node, ctx.conn),
            ConnectionEvent::Disconnected(ctx) => self.remote_nodes.remove(ctx.node, ctx.conn),
            _ => {},
        }
    }

    /// Handles a datagram `data` that came to `port` with `meta`.
    pub fn on_recv(&mut self, port: u16, meta: NetIncomingMeta, data: Vec<u8>)
        requires
            old(self).wf(),
        ensures
            final(self).wf(),
            final(self)@ == recv_spec(old(self)@, port, meta, data@),
    {
        if port != DATA_PORT || !meta.secure {
            return;
        }
        match meta.source {
            Some(source) => {
                if source == self.node_id || self.remote_nodes.has_node(source) {
                    return;
                }
            },
            None => {
                return;
            },
        }
        let ghost q = self.queue@;
        self.queue.push_back(Output::ConnectTo(data));
        assert(outputs_view(self.queue@) =~= outputs_view(q).push(OutputView::ConnectTo(data@)));
    }

    /// Marks the service shut down.
    pub fn on_shutdown(&mut self)
        requires
            old(self).wf(),
        ensures
            final(self).wf(),
            final(self)@ == (Manual2View { shutdown: true, ..old(self)@ }),
    {
        self.shutdown = true;
    }

    /// Whether the service was shut down and has handed out everything.
    pub fn is_service_empty(&self) -> (r: bool)
        ensures
            r == (self@.shutdown && self@.queue.len() == 0),
    {
        self.shutdown && self.queue.len() == 0
    }

    /// Hands out the oldest output.
    pub fn pop_output(&mut self) -> (r: Option<Output>)
        requires
            old(self).wf(),
        ensures
            final(self).wf(),
            old(self)@.queue.len() == 0 ==> r is None && final(self)@ == old(self)@,
            old(self)@.queue.len() > 0 ==> (r matches Some(o) && o@ == old(self)@.queue[0]),
            old(self)@.queue.len() > 0 ==> final(self)@ == (Manual2View { queue: old(self)@.queue.drop_first(), ..old(self)@ }),
    {
        let ghost q = self.queue@;
        let r = self.queue.pop_front();
        proof {
            if q.len() > 0 {
                assert(outputs_view(q.drop_first()) =~= outputs_view(q).drop_first());
            }
        }
        r
    }
}

/// The discovery service on a worker: it hands every control and event on to the
/// controller.
pub type Manual2DiscoveryServiceWorker = ServiceForwardingWorker<(), data::Event>;

/// A copy of a list of targets.
fn copy_targets(v: &Vec<AdvertiseTarget>) -> (r: Vec<AdvertiseTarget>)
    ensures
        r@ == v@,
{
    let mut r: Vec<AdvertiseTarget> = Vec::new();
    let mut i: usize = 0;
    while i < v.len()
        invariant
            i <= v@.len(),
            r@ == v@.take(i as int),
        decreases v@.len() - i,
    {
        r.push(v[i]);
        proof {
            assert(v@.take(i + 1) =~= v@.take(i as int).push(v@[i as int]));
        }
        i = i + 1;
    }
    assert(v@.take(i as int) =~= v@);
    r
}

/// What a node needs to run the discovery service: its identifier, its address (encoded),
/// where it advertises, and how often.
pub struct Manual2DiscoveryServiceBuilder {
    node_id: NodeId,
    addr: Vec<u8>,
    targets: Vec<AdvertiseTarget>,
    interval: u64,
}

impl Manual2DiscoveryServiceBuilder {
    pub fn new(node_id: NodeId, addr: Vec<u8>, targets: Vec<AdvertiseTarget>, interval: u64) -> (r: Self)
        ensures
            r.config() == (node_id, addr@, targets@, interval),
    {
        Manual2DiscoveryServiceBuilder { node_id, addr, targets, interval }
    }

    pub closed spec fn config(&self) -> (NodeId, Seq<u8>, Seq<AdvertiseTarget>, u64) {
        (self.node_id, self.addr@, self.targets@, self.interval)
    }

    pub fn service_id(&self) -> (r: u8)
        ensures
            r == SERVICE_ID,
    {
        SERVICE_ID
    }

    /// A new service with this configuration.
    pub fn create(&self) -> (r: Manual2DiscoveryService)
        ensures
            r.wf(),
            r@ == (Manual2View {
                node_id: self.config().0,
                addr: self.config().1,
                targets: self.config().2,
                queue: seq![OutputView::DataListen(DATA_PORT)],
                remote_nodes: Seq::empty(),
                shutdown: false,
                broadcast_seq: 0,
                broadcast_interval: self.config().3,
                last_broadcast: 0,
            }),
    {
        Manual2DiscoveryService::new(self.node_id, copy_bytes(&self.addr), copy_targets(&self.targets), self.interval)
    }

    /// A new worker.
    pub fn create_worker(&self) -> (r: Manual2DiscoveryServiceWorker)
        ensures
            r.outputs().len() == 0,
            !r.is_shut_down(),
    {
        Manual2DiscoveryServiceWorker::new()
    }
}

} // verus!
