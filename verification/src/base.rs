//! What the features share: the meta of a message going out and of one coming in, the
//! identifier of a connection, and the worker side of a feature that hands everything on to
//! the controller.

use std::collections::VecDeque;
use vstd::prelude::*;

use crate::msg::TransportMsgHeader;
use crate::pubsub::timed_map::RankedKey;
use crate::transport::ConnectionStats;
use crate::types::{FeatureControlActor, NodeId, PeerAddr, ServiceBroadcastLevel, ServiceId};

verus! {

/// The time to live a message gets unless told otherwise.
pub const DEFAULT_MSG_TTL: u8 = 64;

/// Where a feature routes a message: handled here, to a node, to the nearest node running a
/// service, to the nodes running a service at a broadcast level (with a sequence number), or
/// to the node closest to a key.
#[derive(Debug, Clone, Copy, PartialEq, Eq, Structural, Hash)]
pub enum RouteRule {
    Direct,
    ToNode(NodeId),
    ToService(ServiceId),
    ToServices(ServiceId, ServiceBroadcastLevel, u16),
    ToKey(NodeId),
}

/// Who issued a control command to a service: the controller or a worker.
#[derive(Debug, Clone, Copy, PartialEq, Eq, Structural, Hash)]
pub enum ServiceControlActor {
    Controller,
    Worker(u16),
}

/// How a message goes out: whether it carries this node as its source, its time to live, a
/// meta byte, and whether it must be secured.
#[derive(Debug, Clone, Copy, PartialEq, Eq, Structural)]
pub struct NetOutgoingMeta {
    pub source: bool,
    pub ttl: u8,
    pub meta: u8,
    pub secure: bool,
}

impl NetOutgoingMeta {
    pub fn new(source: bool, ttl: u8, meta: u8, secure: bool) -> (r: Self)
        ensures
            r == (NetOutgoingMeta { source, ttl, meta, secure }),
    {
        NetOutgoingMeta { source, ttl, meta, secure }
    }
}

impl Default for NetOutgoingMeta {
    fn default() -> (r: Self)
        ensures
            r == (NetOutgoingMeta { source: false, ttl: DEFAULT_MSG_TTL, meta: 0, secure: false }),
    {
        NetOutgoingMeta::new(false, DEFAULT_MSG_TTL, 0, false)
    }
}

/// How a message came in: the node it came from when it said so, its time to live left, its
/// meta byte, and whether it came secured.
#[derive(Debug, Clone, Copy, PartialEq, Eq, Structural)]
pub struct NetIncomingMeta {
    pub source: Option<NodeId>,
    pub ttl: u8,
    pub meta: u8,
    pub secure: bool,
}

/// A connection: the transport protocol, whether this node opened it, and its session.
#[derive(Debug, Clone, Copy, PartialEq, Eq, Structural, Hash)]
pub struct ConnId {
    pub protocol: u8,
    pub outgoing: bool,
    pub session: u64,
}

impl ConnId {
    /// A connection this node opened.
    pub fn from_out(protocol: u8, session: u64) -> (r: Self)
        ensures
            r == (ConnId { protocol, outgoing: true, session }),
    {
        ConnId { protocol, outgoing: true, session }
    }

    /// A connection a peer opened.
    pub fn from_in(protocol: u8, session: u64) -> (r: Self)
        ensures
            r == (ConnId { protocol, outgoing: false, session }),
    {
        ConnId { protocol, outgoing: false, session }
    }
}

/// The address of a node: its identifier and where it can be reached.
#[derive(Debug, Clone, PartialEq, Eq)]
pub struct NodeAddr {
    pub node: NodeId,
    pub addrs: Vec<PeerAddr>,
}

/// Mathematical form of a [`NodeAddr`].
pub struct NodeAddrView {
    pub node: NodeId,
    pub addrs: Seq<PeerAddr>,
}

impl View for NodeAddr {
    type V = NodeAddrView;

    open spec fn view(&self) -> NodeAddrView {
        NodeAddrView { node: self.node, addrs: self.addrs@ }
    }
}

impl NodeAddr {
    pub fn node_id(&self) -> (r: NodeId)
        ensures
            r == self.node,
    {
        self.node
    }

    /// A copy of this address.
    pub fn duplicate(&self) -> (r: NodeAddr)
        ensures
            r@ == self@,
    {
        let mut addrs: Vec<PeerAddr> = Vec::new();
        let mut i: usize = 0;
        while i < self.addrs.len()
            invariant
                i <= self.addrs@.len(),
                addrs@ == self.addrs@.take(i as int),
            decreases self.addrs@.len() - i,
        {
            addrs.push(self.addrs[i]);
            proof {
                assert(self.addrs@.take(i + 1) =~= self.addrs@.take(i as int).push(self.addrs@[i as int]));
            }
            i = i + 1;
        }
        assert(self.addrs@.take(i as int) =~= self.addrs@);
        NodeAddr { node: self.node, addrs }
    }
}

/// A connection as the features see it: its identifier, the node at the other end, and the
/// local and remote addresses.
#[derive(Debug, Clone, Copy, PartialEq, Eq, Structural)]
pub struct ConnectionCtx {
    pub conn: ConnId,
    pub node: NodeId,
    pub local: PeerAddr,
    pub remote: PeerAddr,
}

/// What happens to a connection.
#[derive(Debug, Clone, Copy, PartialEq, Eq, Structural)]
pub enum ConnectionEvent {
    Connecting(ConnectionCtx),
    ConnectError(ConnectionCtx),
    Connected(ConnectionCtx),
    Stats(ConnectionCtx, ConnectionStats),
    Disconnected(ConnectionCtx),
}

/// The rank of a connection: by protocol, then incoming before outgoing, then by session.
pub open spec fn conn_rank(c: ConnId) -> int {
    c.protocol * 0x2_0000_0000_0000_0000 + (if c.outgoing { 0x1_0000_0000_0000_0000int } else { 0int }) + c.session
}

impl RankedKey for ConnId {
    open spec fn rank(self) -> int {
        conn_rank(self)
    }

    proof fn lemma_rank_injective(a: Self, b: Self) {
        if conn_rank(a) == conn_rank(b) {
            let (pa, pb) = (a.protocol as int, b.protocol as int);
            let oa: int = if a.outgoing { 1 } else { 0 };
            let ob: int = if b.outgoing { 1 } else { 0 };
            assert(pa == pb && oa == ob && a.session == b.session) by (nonlinear_arith)
                requires
                    pa * 0x2_0000_0000_0000_0000 + oa * 0x1_0000_0000_0000_0000 + a.session == pb * 0x2_0000_0000_0000_0000 + ob
                        * 0x1_0000_0000_0000_0000 + b.session,
                    0 <= oa <= 1,
                    0 <= ob <= 1,
                    0 <= pa,
                    0 <= pb,
                    a.session < 0x1_0000_0000_0000_0000,
                    b.session < 0x1_0000_0000_0000_0000,
            ;
        }
    }

    fn rank_less(&self, other: &Self) -> (r: bool) {
        let r = self.protocol < other.protocol || (self.protocol == other.protocol && ((!self.outgoing && other.outgoing) || (
        self.outgoing == other.outgoing && self.session < other.session)));
        proof {
            let (pa, pb) = (self.protocol as int, other.protocol as int);
            let oa: int = if self.outgoing { 1 } else { 0 };
            let ob: int = if other.outgoing { 1 } else { 0 };
            let (sa, sb) = (self.session as int, other.session as int);
            assert(r == (pa < pb || (pa == pb && (oa < ob || (oa == ob && sa < sb)))));
            assert((pa < pb || (pa == pb && (oa < ob || (oa == ob && sa < sb)))) == (pa * 0x2_0000_0000_0000_0000 + oa * 0x1_0000_0000_0000_0000
                + sa < pb * 0x2_0000_0000_0000_0000 + ob * 0x1_0000_0000_0000_0000 + sb)) by (nonlinear_arith)
                requires
                    0 <= oa <= 1,
                    0 <= ob <= 1,
                    0 <= pa,
                    0 <= pb,
                    0 <= sa < 0x1_0000_0000_0000_0000,
                    0 <= sb < 0x1_0000_0000_0000_0000,
            ;
        }
        r
    }
}

/// An input of a feature on a worker: a control of a local actor, a message from the network
/// or from this node (header and whole packet), or something from the controller.
pub enum WorkerInput<C, T> {
    Control(FeatureControlActor, C),
    Network(ConnId, TransportMsgHeader, Vec<u8>),
    Local(TransportMsgHeader, Vec<u8>),
    FromController(T),
}

/// What a worker hands on to the controller.
pub enum WorkerOutput<C> {
    ForwardControlToController(FeatureControlActor, C),
    ForwardNetworkToController(ConnId, TransportMsgHeader, Vec<u8>),
    ForwardLocalToController(TransportMsgHeader, Vec<u8>),
}

/// What a worker hands on for `input`, if anything.
pub open spec fn forwarded<C, T>(input: WorkerInput<C, T>) -> Option<WorkerOutput<C>> {
    match input {
        WorkerInput::Control(actor, control) => Some(WorkerOutput::ForwardControlToController(actor, control)),
        WorkerInput::Network(conn, header, buf) => Some(WorkerOutput::ForwardNetworkToController(conn, header, buf)),
        WorkerInput::Local(header, buf) => Some(WorkerOutput::ForwardLocalToController(header, buf)),
        WorkerInput::FromController(_) => None,
    }
}

/// The worker side of a feature that hands every control and message on to the controller
/// and drops what comes from the controller.
pub struct ForwardingWorker<C, T> {
    queue: VecDeque<WorkerOutput<C>>,
    shutdown: bool,
    from_controller: std::marker::PhantomData<T>,
}

/// Mathematical state of a [`ForwardingWorker`]: the outputs not yet handed out, and whether
/// it was shut down.
pub struct ForwardingWorkerView<C> {
    pub queue: Seq<WorkerOutput<C>>,
    pub shutdown: bool,
}

impl<C, T> View for ForwardingWorker<C, T> {
    type V = ForwardingWorkerView<C>;

    closed spec fn view(&self) -> ForwardingWorkerView<C> {
        ForwardingWorkerView { queue: self.queue@, shutdown: self.shutdown }
    }
}

impl<C, T> ForwardingWorker<C, T> {
    pub fn new() -> (r: Self)
        ensures
            r@.queue == Seq::<WorkerOutput<C>>::empty(),
            !r@.shutdown,
    {
        ForwardingWorker { queue: VecDeque::new(), shutdown: false, from_controller: std::marker::PhantomData }
    }

    /// Hands `input` on to the controller; what comes from the controller is dropped.
    pub fn on_input(&mut self, input: WorkerInput<C, T>)
        ensures
            final(self)@.shutdown == old(self)@.shutdown,
            final(self)@.queue == match forwarded(input) {
                Some(o) => old(self)@.queue.push(o),
                None => old(self)@.queue,
            },
    {
        match input {
            WorkerInput::Control(actor, control) => self.queue.push_back(WorkerOutput::ForwardControlToController(actor, control)),
            WorkerInput::Network(conn, header, buf) => self.queue.push_back(WorkerOutput::ForwardNetworkToController(conn, header, buf)),
            WorkerInput::Local(header, buf) => self.queue.push_back(WorkerOutput::ForwardLocalToController(header, buf)),
            WorkerInput::FromController(_) => {},
        }
    }

    /// Marks the worker shut down.
    pub fn on_shutdown(&mut self)
        ensures
            final(self)@.shutdown,
            final(self)@.queue == old(self)@.queue,
    {
        self.shutdown = true;
    }

    /// Whether the worker was shut down and has handed out everything.
    pub fn is_empty(&self) -> (r: bool)
        ensures
            r == (self@.shutdown && self@.queue.len() == 0),
    {
        self.shutdown && self.queue.len() == 0
    }

    /// Hands out the oldest output.
    pub fn pop_output(&mut self) -> (r: Option<WorkerOutput<C>>)
        ensures
            final(self)@.shutdown == old(self)@.shutdown,
            old(self)@.queue.len() == 0 ==> r is None && final(self)@.queue == old(self)@.queue,
            old(self)@.queue.len() > 0 ==> r == Some(old(self)@.queue[0]) && final(self)@.queue == old(self)@.queue.drop_first(),
    {
        self.queue.pop_front()
    }
}

impl<C, T> Default for ForwardingWorker<C, T> {
    fn default() -> (r: Self)
        ensures
            r@.queue == Seq::<WorkerOutput<C>>::empty(),
            !r@.shutdown,
    {
        ForwardingWorker::new()
    }
}

/// An input of a service on a worker: a control of a local actor, an event of a feature, or
/// something from the controller.
pub enum ServiceWorkerInput<C, E> {
    Control(ServiceControlActor, C),
    FeatureEvent(E),
    FromController,
}

/// What a service worker hands on to the controller.
pub enum ServiceWorkerOutput<C, E> {
    ForwardControlToController(ServiceControlActor, C),
    ForwardFeatureEventToController(E),
}

/// The worker side of a service that hands every control and feature event on to the
/// controller and drops what comes from the controller.
pub struct ServiceForwardingWorker<C, E> {
    queue: VecDeque<ServiceWorkerOutput<C, E>>,
    shutdown: bool,
}

impl<C, E> ServiceForwardingWorker<C, E> {
    pub closed spec fn outputs(&self) -> Seq<ServiceWorkerOutput<C, E>> {
        self.queue@
    }

    pub closed spec fn is_shut_down(&self) -> bool {
        self.shutdown
    }

    pub fn new() -> (r: Self)
        ensures
            r.outputs() == Seq::<ServiceWorkerOutput<C, E>>::empty(),
            !r.is_shut_down(),
    {
        ServiceForwardingWorker { queue: VecDeque::new(), shutdown: false }
    }

    /// Hands `input` on to the controller; what comes from the controller is dropped.
    pub fn on_input(&mut self, input: ServiceWorkerInput<C, E>)
        ensures
            final(self).is_shut_down() == old(self).is_shut_down(),
            final(self).outputs() == match input {
                ServiceWorkerInput::Control(a, c) => old(self).outputs().push(ServiceWorkerOutput::ForwardControlToController(a, c)),
                ServiceWorkerInput::FeatureEvent(e) => old(self).outputs().push(ServiceWorkerOutput::ForwardFeatureEventToController(e)),
                ServiceWorkerInput::FromController => old(self).outputs(),
            },
    {
        match input {
            ServiceWorkerInput::Control(a, c) => self.queue.push_back(ServiceWorkerOutput::ForwardControlToController(a, c)),
            ServiceWorkerInput::FeatureEvent(e) => self.queue.push_back(ServiceWorkerOutput::ForwardFeatureEventToController(e)),
            ServiceWorkerInput::FromController => {},
        }
    }

    /// Marks the worker shut down.
    pub fn on_shutdown(&mut self)
        ensures
            final(self).is_shut_down(),
            final(self).outputs() == old(self).outputs(),
    {
        self.shutdown = true;
    }

    /// Whether the worker was shut down and has handed out everything.
    pub fn is_service_empty(&self) -> (r: bool)
        ensures
            r == (self.is_shut_down() && self.outputs().len() == 0),
    {
        self.shutdown && self.queue.len() == 0
    }

    /// Hands out the oldest output.
    pub fn pop_output(&mut self) -> (r: Option<ServiceWorkerOutput<C, E>>)
        ensures
            final(self).is_shut_down() == old(self).is_shut_down(),
            old(self).outputs().len() == 0 ==> r is None && final(self).outputs() == old(self).outputs(),
            old(self).outputs().len() > 0 ==> r == Some(old(self).outputs()[0]) && final(self).outputs() == old(self).outputs().drop_first(),
    {
        self.queue.pop_front()
    }
}

} // verus!
