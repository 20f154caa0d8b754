//! Sockets over the overlay network: a local actor binds a port, optionally connects it to
//! a port on another node, and exchanges datagrams. Each datagram carries the source and
//! destination ports in front of its payload.

use std::collections::VecDeque;
use vstd::prelude::*;

use crate::types::{FeatureControlActor, NodeId, RouteRule};

verus! {

/// The identifier of the socket feature.
pub const FEATURE_ID: u8 = 7;

/// What a worker sends to the controller (nothing is ever sent).
#[derive(Debug, Clone, Copy, PartialEq, Eq, Structural)]
pub struct ToController;

/// What a local actor asks of the socket feature.
#[derive(Debug, Clone, PartialEq, Eq)]
pub enum Control {
    Bind(u16),
    Connect(u16, NodeId, u16),
    SendTo(u16, NodeId, u16, Vec<u8>, u8),
    Send(u16, Vec<u8>, u8),
    Unbind(u16),
}

/// A datagram received on a bound port: the port, the sending node and port, the payload
/// and the meta byte.
#[derive(Debug, Clone, PartialEq, Eq)]
pub enum Event {
    RecvFrom(u16, NodeId, u16, Vec<u8>, u8),
}

/// Mathematical form of [`Event`].
pub enum EventView {
    RecvFrom(u16, NodeId, u16, Seq<u8>, u8),
}

impl View for Event {
    type V = EventView;

    open spec fn view(&self) -> EventView {
        match self {
            Event::RecvFrom(p, n, sp, d, m) => EventView::RecvFrom(*p, *n, *sp, d@, *m),
        }
    }
}

/// A change of the socket table for the workers.
#[derive(Debug, Clone, Copy, PartialEq, Eq, Structural)]
pub enum ToWorker {
    BindSocket(u16, FeatureControlActor),
    ConnectSocket(u16, NodeId, u16),
    UnbindSocket(u16),
}

/// The port of another node that a socket is connected to.
#[derive(Debug, Clone, Copy, PartialEq, Eq, Structural)]
pub struct Target {
    pub node: NodeId,
    pub port: u16,
}

/// A bound port: the actor that owns it and the port it is connected to, if any.
#[derive(Debug, Clone, Copy, PartialEq, Eq)]
pub struct Socket {
    pub target: Option<Target>,
    pub actor: FeatureControlActor,
}

/// A datagram arriving at this node: the node that sent it (when known), its meta byte and
/// its bytes.
#[derive(Debug, Clone, PartialEq, Eq)]
pub struct Incoming {
    pub source: Option<NodeId>,
    pub meta: u8,
    pub buf: Vec<u8>,
}

/// The two big-endian bytes of `x`.
pub open spec fn be16_bytes(x: u16) -> Seq<u8> {
    seq![(x / 256) as u8, (x % 256) as u8]
}

pub open spec fn be16_at(b: Seq<u8>, i: int) -> u16 {
    (b[i] * 256 + b[i + 1]) as u16
}

/// A payload with the source and destination ports in front.
pub open spec fn embedded(src: u16, dest: u16, data: Seq<u8>) -> Seq<u8> {
    be16_bytes(src) + be16_bytes(dest) + data
}

/// The ports in front of a datagram and its payload, or nothing when it is too short.
pub open spec fn extracted(buf: Seq<u8>) -> Option<(u16, u16, Seq<u8>)> {
    if buf.len() >= 4 {
        Some((be16_at(buf, 0), be16_at(buf, 2), buf.skip(4)))
    } else {
        None
    }
}

/// Puts the source and destination ports in front of `data`.
pub fn embed_meta(src: u16, dest: u16, data: &Vec<u8>) -> (r: Vec<u8>)
    ensures
        r@ == embedded(src, dest, data@),
{
    let mut r: Vec<u8> = vec![(src / 256) as u8, (src % 256) as u8, (dest / 256) as u8, (dest % 256) as u8];
    let mut i: usize = 0;
    while i < data.len()
        invariant
            i <= data@.len(),
            r@ == embedded(src, dest, data@.take(i as int)),
        decreases data@.len() - i,
    {
        r.push(data[i]);
        proof {
            assert(data@.take(i + 1) =~= data@.take(i as int).push(data@[i as int]));
            assert(embedded(src, dest, data@.take(i + 1)) =~= embedded(src, dest, data@.take(i as int)).push(data@[i as int]));
        }
        i = i + 1;
    }
    assert(data@.take(i as int) =~= data@);
    r
}

/// Reads the source and destination ports in front of `buf`, and the payload after them.
pub fn extract_meta(buf: &Vec<u8>) -> (r: Option<(u16, u16, Vec<u8>)>)
    ensures
        match r {
            Some((s, d, p)) => extracted(buf@) == Some((s, d, p@)),
            None => extracted(buf@) is None,
        },
{
    if buf.len() < 4 {
        return None;
    }
    let src = (buf[0] as u16) * 256 + (buf[1] as u16);
    let dest = (buf[2] as u16) * 256 + (buf[3] as u16);
    let mut rest: Vec<u8> = Vec::new();
    let mut i: usize = 4;
    while i < buf.len()
        invariant
            4 <= i <= buf@.len(),
            rest@ == buf@.subrange(4, i as int),
        decreases buf@.len() - i,
    {
        rest.push(buf[i]);
        proof {
            assert(buf@.subrange(4, i + 1) =~= buf@.subrange(4, i as int).push(buf@[i as int]));
        }
        i = i + 1;
    }
    assert(rest@ =~= buf@.skip(4));
    Some((src, dest, rest))
}

pub open spec fn has_port(s: Seq<(u16, Socket)>, port: u16) -> bool {
    exists|i: int| 0 <= i < s.len() && #[trigger] s[i].0 == port
}

pub open spec fn port_index(s: Seq<(u16, Socket)>, port: u16) -> int {
    choose|i: int| 0 <= i < s.len() && #[trigger] s[i].0 == port
}

pub open spec fn socket_of(s: Seq<(u16, Socket)>, port: u16) -> Socket {
    s[port_index(s, port)].1
}

pub open spec fn ports_unique(s: Seq<(u16, Socket)>) -> bool {
    forall|i: int, j: int| #![trigger s[i], s[j]] 0 <= i < s.len() && 0 <= j < s.len() && i != j ==> s[i].0 != s[j].0
}

/// A table of bound ports.
pub struct Sockets {
    entries: Vec<(u16, Socket)>,
}

impl View for Sockets {
    type V = Seq<(u16, Socket)>;

    closed spec fn view(&self) -> Seq<(u16, Socket)> {
        self.entries@
    }
}

impl Sockets {
    pub closed spec fn wf(&self) -> bool {
        ports_unique(self@)
    }

    pub fn new() -> (r: Self)
        ensures
            r.wf(),
            r@ == Seq::<(u16, Socket)>::empty(),
    {
        let r = Sockets { entries: Vec::new() };
        assert(r@ =~= Seq::<(u16, Socket)>::empty());
        r
    }

    /// The socket bound to `port`, if any.
    pub fn get(&self, port: u16) -> (r: Option<Socket>)
        requires
            self.wf(),
        ensures
            has_port(self@, port) ==> r == Some(socket_of(self@, port)),
            !has_port(self@, port) ==> r is None,
    {
        match self.find(port) {
            Some(i) => Some(self.entries[i].1),
            None => None,
        }
    }

    fn find(&self, port: u16) -> (r: Option<usize>)
        requires
            self.wf(),
        ensures
            match r {
                Some(i) => has_port(self@, port) && i == port_index(self@, port) && i < self@.len(),
                None => !has_port(self@, port),
            },
    {
        let mut i: usize = 0;
        while i < self.entries.len()
            invariant
                self.wf(),
                i <= self@.len(),
                forall|k: int| 0 <= k < i ==> self@[k].0 != port,
            decreases self@.len() - i,
        {
            if self.entries[i].0 == port {
                proof {
                    let c = port_index(self@, port);
                    assert(self@[i as int].0 == port);
                    assert(self@[c].0 == port);
                }
                return Some(i);
            }
            i = i + 1;
        }
        None
    }

    /// Binds `port` to `socket`, replacing what was bound to it.
    pub fn insert(&mut self, port: u16, socket: Socket)
        requires
            old(self).wf(),
        ensures
            final(self).wf(),
            final(self)@ == if has_port(old(self)@, port) {
                old(self)@.update(port_index(old(self)@, port), (port, socket))
            } else {
                old(self)@.push((port, socket))
            },
    {
        let ghost s = self@;
        match self.find(port) {
            Some(i) => {
                self.entries.set(i, (port, socket));
                proof {
                    let r = self@;
                    assert forall|a: int, b: int| #![trigger r[a], r[b]] 0 <= a < r.len() && 0 <= b < r.len() && a != b implies r[a].0 != r[b].0 by {
                        assert(s[a].0 != s[b].0);
                    }
                }
            },
            None => {
                self.entries.push((port, socket));
                proof {
                    let r = self@;
                    assert forall|a: int, b: int| #![trigger r[a], r[b]] 0 <= a < r.len() && 0 <= b < r.len() && a != b implies r[a].0 != r[b].0 by {
                        if a < s.len() && b < s.len() {
                            assert(r[a] == s[a] && r[b] == s[b]);
                        } else if a < s.len() {
                            assert(r[a] == s[a]);
                        } else {
                            assert(r[b] == s[b]);
                        }
                    }
                }
            },
        }
    }

    /// Unbinds `port`.
    pub fn remove(&mut self, port: u16)
        requires
            old(self).wf(),
        ensures
            final(self).wf(),
            final(self)@ == if has_port(old(self)@, port) {
                old(self)@.remove(port_index(old(self)@, port))
            } else {
                old(self)@
            },
    {
        let ghost s = self@;
        match self.find(port) {
            Some(i) => {
                self.entries.remove(i);
                proof {
                    let r = self@;
                    assert forall|a: int, b: int| #![trigger r[a], r[b]] 0 <= a < r.len() && 0 <= b < r.len() && a != b implies r[a].0 != r[b].0 by {
                        let a2 = if a < i { a } else { a + 1 };
                        let b2 = if b < i { b } else { b + 1 };
                        assert(r[a] == s[a2] && r[b] == s[b2]);
                    }
                }
            },
            None => {},
        }
    }
}

/// Whether a datagram from `from` to `port` is taken by `socket`: a connected socket only
/// takes datagrams from the node it is connected to, and only when the port it is connected
/// to is `port`.
pub open spec fn accepts(socket: Socket, from: NodeId, port: u16) -> bool {
    match socket.target {
        Some(t) => t.node == from && t.port == port,
        None => true,
    }
}

/// The event a datagram arriving on this node gives, if any: to the owner of the
/// destination port, when it takes it.
pub open spec fn incoming_event(sockets: Seq<(u16, Socket)>, source: Option<NodeId>, meta: u8, buf: Seq<u8>) -> Option<(FeatureControlActor, EventView)> {
    match (source, extracted(buf)) {
        (Some(from), Some((src, dest, payload))) => {
            if has_port(sockets, dest) && accepts(socket_of(sockets, dest), from, dest) {
                Some((socket_of(sockets, dest).actor, EventView::RecvFrom(dest, from, src, payload, meta)))
            } else {
                None
            }
        },
        _ => None,
    }
}

/// What reading a datagram arriving on this node gives.
pub fn process_incoming(sockets: &Sockets, incoming: Incoming) -> (r: Option<(FeatureControlActor, Event)>)
    requires
        sockets.wf(),
    ensures
        match r {
            Some((a, e)) => incoming_event(sockets@, incoming.source, incoming.meta, incoming.buf@) == Some((a, e@)),
            None => incoming_event(sockets@, incoming.source, incoming.meta, incoming.buf@) is None,
        },
{
    let from = match incoming.source {
        Some(f) => f,
        None => return None,
    };
    let (src, dest, payload) = match extract_meta(&incoming.buf) {
        Some(x) => x,
        None => return None,
    };
    match sockets.get(dest) {
        Some(socket) => {
            match socket.target {
                Some(t) => {
                    if t.node != from || t.port != dest {
                        return None;
                    }
                },
                None => {},
            }
            Some((socket.actor, Event::RecvFrom(dest, from, src, payload, incoming.meta)))
        },
        None => None,
    }
}

/// Mathematical form of [`Control`].
pub enum ControlView {
    Bind(u16),
    Connect(u16, NodeId, u16),
    SendTo(u16, NodeId, u16, Seq<u8>, u8),
    Send(u16, Seq<u8>, u8),
    Unbind(u16),
}

impl View for Control {
    type V = ControlView;

    open spec fn view(&self) -> ControlView {
        match self {
            Control::Bind(p) => ControlView::Bind(*p),
            Control::Connect(p, n, dp) => ControlView::Connect(*p, *n, *dp),
            Control::SendTo(p, n, dp, d, m) => ControlView::SendTo(*p, *n, *dp, d@, *m),
            Control::Send(p, d, m) => ControlView::Send(*p, d@, *m),
            Control::Unbind(p) => ControlView::Unbind(*p),
        }
    }
}

/// An input of the socket feature: a control of a local actor, or a datagram arriving at
/// this node from the network or from this node itself.
#[derive(Debug, Clone, PartialEq, Eq)]
pub enum FeatureInput {
    Control(FeatureControlActor, Control),
    Net(Incoming),
}

/// An output of the socket feature: a change of the workers' socket tables (sent to every
/// worker when the flag holds), an event for a local actor, or a datagram to route with its
/// meta byte.
#[derive(Debug, Clone, PartialEq, Eq)]
pub enum Output {
    ToWorker(bool, ToWorker),
    Event(FeatureControlActor, Event),
    SendRoute(RouteRule, u8, Vec<u8>),
}

/// Mathematical form of [`Output`].
pub enum OutputView {
    ToWorker(bool, ToWorker),
    Event(FeatureControlActor, EventView),
    SendRoute(RouteRule, u8, Seq<u8>),
}

impl View for Output {
    type V = OutputView;

    open spec fn view(&self) -> OutputView {
        match self {
            Output::ToWorker(b, t) => OutputView::ToWorker(*b, *t),
            Output::Event(a, e) => OutputView::Event(*a, e@),
            Output::SendRoute(r, m, d) => OutputView::SendRoute(*r, *m, d@),
        }
    }
}

pub open spec fn socket_outputs(q: Seq<Output>) -> Seq<OutputView> {
    q.map_values(|o: Output| o@)
}

/// Mathematical state of a [`SocketFeature`].
pub struct SocketFeatureView {
    pub sockets: Seq<(u16, Socket)>,
    pub queue: Seq<OutputView>,
}

/// The socket feature on the controller.
pub struct SocketFeature {
    sockets: Sockets,
    queue: VecDeque<Output>,
}

impl View for SocketFeature {
    type V = SocketFeatureView;

    closed spec fn view(&self) -> SocketFeatureView {
        SocketFeatureView { sockets: self.sockets@, queue: socket_outputs(self.queue@) }
    }
}

/// What sending `data` from `port` to `dest_port` of `dest_node` gives on node `node_id`:
/// to this node, the event for `actor` when `dest_port` is bound; to another node, the
/// datagram routed to it.
pub open spec fn send_outputs(
    sockets: Seq<(u16, Socket)>,
    node_id: NodeId,
    actor: FeatureControlActor,
    port: u16,
    dest_node: NodeId,
    dest_port: u16,
    data: Seq<u8>,
    meta: u8,
) -> Seq<OutputView> {
    if dest_node == node_id {
        if has_port(sockets, dest_port) {
            seq![OutputView::Event(actor, EventView::RecvFrom(dest_port, node_id, port, data, meta))]
        } else {
            Seq::empty()
        }
    } else {
        seq![OutputView::SendRoute(RouteRule::ToNode(dest_node), meta, embedded(port, dest_port, data))]
    }
}

/// What an input does to the socket feature of node `node_id`. Only the owner of a port may
/// connect it, send to a chosen destination from it, or unbind it.
pub open spec fn socket_feature_spec(s: SocketFeatureView, node_id: NodeId, input: FeatureInput) -> SocketFeatureView {
    let t = s.sockets;
    match input {
        FeatureInput::Control(actor, control) => match control@ {
            ControlView::Bind(port) => {
                if has_port(t, port) {
                    s
                } else {
                    SocketFeatureView {
                        sockets: t.push((port, Socket { target: None, actor })),
                        queue: s.queue.push(OutputView::ToWorker(true, ToWorker::BindSocket(port, actor))),
                    }
                }
            },
            ControlView::Connect(port, dest_node, dest_port) => {
                if has_port(t, port) && socket_of(t, port).actor == actor {
                    SocketFeatureView {
                        sockets: t.update(port_index(t, port), (port, Socket { target: Some(Target { node: dest_node, port: dest_port }), actor })),
                        queue: s.queue.push(OutputView::ToWorker(true, ToWorker::ConnectSocket(port, dest_node, dest_port))),
                    }
                } else {
                    s
                }
            },
            ControlView::SendTo(port, dest_node, dest_port, data, meta) => {
                if has_port(t, port) && socket_of(t, port).actor == actor {
                    SocketFeatureView { queue: s.queue + send_outputs(t, node_id, actor, port, dest_node, dest_port, data, meta), ..s }
                } else {
                    s
                }
            },
            ControlView::Send(port, data, meta) => {
                if has_port(t, port) && socket_of(t, port).target is Some {
                    let target = socket_of(t, port).target->0;
                    SocketFeatureView { queue: s.queue + send_outputs(t, node_id, actor, port, target.node, target.port, data, meta), ..s }
                } else {
                    s
                }
            },
            ControlView::Unbind(port) => {
                if has_port(t, port) && socket_of(t, port).actor == actor {
                    SocketFeatureView { sockets: t.remove(port_index(t, port)), queue: s.queue.push(OutputView::ToWorker(true, ToWorker::UnbindSocket(port))) }
                } else {
                    s
                }
            },
        },
        FeatureInput::Net(incoming) => match incoming_event(t, incoming.source, incoming.meta, incoming.buf@) {
            Some((a, e)) => SocketFeatureView { queue: s.queue.push(OutputView::Event(a, e)), ..s },
            None => s,
        },
    }
}

fn push_socket_output(queue: &mut VecDeque<Output>, o: Output)
    ensures
        socket_outputs(final(queue)@) == socket_outputs(old(queue)@).push(o@),
{
    let ghost q = queue@;
    queue.push_back(o);
    assert(socket_outputs(queue@) =~= socket_outputs(q).push(o@));
}

impl SocketFeature {
    pub closed spec fn wf(&self) -> bool {
        self.sockets.wf()
    }

    pub fn new() -> (r: Self)
        ensures
            r.wf(),
            r@ == (SocketFeatureView { sockets: Seq::empty(), queue: Seq::empty() }),
    {
        let r = SocketFeature { sockets: Sockets::new(), queue: VecDeque::new() };
        assert(r@.queue =~= Seq::empty());
        r
    }

    fn send_to(&mut self, node_id: NodeId, actor: FeatureControlActor, port: u16, dest_node: NodeId, dest_port: u16, data: Vec<u8>, meta: u8)
        requires
            old(self).wf(),
        ensures
            final(self).wf(),
            final(self)@ == (SocketFeatureView {
                queue: old(self)@.queue + send_outputs(old(self)@.sockets, node_id, actor, port, dest_node, dest_port, data@, meta),
                ..old(self)@
            }),
    {
        let ghost q = self@.queue;
        if dest_node == node_id {
            if self.sockets.get(dest_port).is_some() {
                push_socket_output(&mut self.queue, Output::Event(actor, Event::RecvFrom(dest_port, node_id, port, data, meta)));
                assert(self@.queue =~= q + send_outputs(self@.sockets, node_id, actor, port, dest_node, dest_port, data@, meta));
            } else {
                assert(self@.queue =~= q + send_outputs(self@.sockets, node_id, actor, port, dest_node, dest_port, data@, meta));
            }
        } else {
            let buf = embed_meta(port, dest_port, &data);
            push_socket_output(&mut self.queue, Output::SendRoute(RouteRule::ToNode(dest_node), meta, buf));
            assert(self@.queue =~= q + send_outputs(self@.sockets, node_id, actor, port, dest_node, dest_port, data@, meta));
        }
    }

    /// Handles an input on node `node_id`.
    pub fn on_input(&mut self, node_id: NodeId, input: FeatureInput)
        requires
            old(self).wf(),
        ensures
            final(self).wf(),
            final(self)@ == socket_feature_spec(old(self)@, node_id, input),
    {
        let ghost s = self@;
        let ghost inp = input;
        match input {
            FeatureInput::Control(actor, control) => match control {
                Control::Bind(port) => {
                    if self.sockets.get(port).is_some() {
                        return;
                    }
                    self.sockets.insert(port, Socket { target: None, actor });
                    push_socket_output(&mut self.queue, Output::ToWorker(true, ToWorker::BindSocket(port, actor)));
                },
                Control::Connect(port, dest_node, dest_port) => {
                    match self.sockets.get(port) {
                        Some(socket) => {
                            if socket.actor == actor {
                                self.sockets.insert(port, Socket { target: Some(Target { node: dest_node, port: dest_port }), actor });
                                push_socket_output(&mut self.queue, Output::ToWorker(true, ToWorker::ConnectSocket(port, dest_node, dest_port)));
                            }
                        },
                        None => {},
                    }
                },
                Control::SendTo(port, dest_node, dest_port, data, meta) => {
                    match self.sockets.get(port) {
                        Some(socket) => {
                            if socket.actor == actor {
                                self.send_to(node_id, actor, port, dest_node, dest_port, data, meta);
                            }
                        },
                        None => {},
                    }
                },
                Control::Send(port, data, meta) => {
                    match self.sockets.get(port) {
                        Some(socket) => {
                            match socket.target {
                                Some(t) => self.send_to(node_id, actor, port, t.node, t.port, data, meta),
                                None => {},
                            }
                        },
                        None => {},
                    }
                },
                Control::Unbind(port) => {
                    match self.sockets.get(port) {
                        Some(socket) => {
                            if socket.actor == actor {
                                self.sockets.remove(port);
                                push_socket_output(&mut self.queue, Output::ToWorker(true, ToWorker::UnbindSocket(port)));
                            }
                        },
                        None => {},
                    }
                },
            },
            FeatureInput::Net(incoming) => {
                match process_incoming(&self.sockets, incoming) {
                    Some((a, e)) => push_socket_output(&mut self.queue, Output::Event(a, e)),
                    None => {},
                }
            },
        }
    }

    /// Hands out the oldest output.
    pub fn pop_output(&mut self) -> (r: Option<Output>)
        requires
            old(self).wf(),
        ensures
            final(self).wf(),
            old(self)@.queue.len() == 0 ==> r is None && final(self)@ == old(self)@,
            old(self)@.queue.len() > 0 ==> r is Some && r->0@ == old(self)@.queue[0]
                && final(self)@ == (SocketFeatureView { queue: old(self)@.queue.drop_first(), ..old(self)@ }),
    {
        let ghost q = self.queue@;
        let r = self.queue.pop_front();
        proof {
            if q.len() > 0 {
                assert(socket_outputs(q.drop_first()) =~= socket_outputs(q).drop_first());
            }
        }
        r
    }
}

/// An input of the socket feature on a worker.
#[derive(Debug, Clone, PartialEq, Eq)]
pub enum WorkerInput {
    Net(Incoming),
    FromController(bool, ToWorker),
    Control(FeatureControlActor, Control),
}

/// An output of the socket feature on a worker.
#[derive(Debug, Clone, PartialEq, Eq)]
pub enum WorkerOutput {
    Event(FeatureControlActor, Event),
    ForwardControlToController(FeatureControlActor, Control),
    SendRoute(RouteRule, u8, Vec<u8>),
}

/// Mathematical form of [`WorkerOutput`].
pub enum WorkerOutputView {
    Event(FeatureControlActor, EventView),
    ForwardControlToController(FeatureControlActor, ControlView),
    SendRoute(RouteRule, u8, Seq<u8>),
}

impl View for WorkerOutput {
    type V = WorkerOutputView;

    open spec fn view(&self) -> WorkerOutputView {
        match self {
            WorkerOutput::Event(a, e) => WorkerOutputView::Event(*a, e@),
            WorkerOutput::ForwardControlToController(a, c) => WorkerOutputView::ForwardControlToController(*a, c@),
            WorkerOutput::SendRoute(r, m, d) => WorkerOutputView::SendRoute(*r, *m, d@),
        }
    }
}

pub open spec fn socket_worker_outputs(q: Seq<WorkerOutput>) -> Seq<WorkerOutputView> {
    q.map_values(|o: WorkerOutput| o@)
}

/// Mathematical state of a [`SocketFeatureWorker`].
pub struct SocketWorkerView {
    pub sockets: Seq<(u16, Socket)>,
    pub queue: Seq<WorkerOutputView>,
}

/// The socket feature on a worker: it sends the datagrams of the ports its table shows
/// bound and delivers the ones that arrive for them.
pub struct SocketFeatureWorker {
    sockets: Sockets,
    queue: VecDeque<WorkerOutput>,
}

impl View for SocketFeatureWorker {
    type V = SocketWorkerView;

    closed spec fn view(&self) -> SocketWorkerView {
        SocketWorkerView { sockets: self.sockets@, queue: socket_worker_outputs(self.queue@) }
    }
}

/// The table with `port` bound to `socket`, replacing what was bound to it.
pub open spec fn bind(t: Seq<(u16, Socket)>, port: u16, socket: Socket) -> Seq<(u16, Socket)> {
    if has_port(t, port) {
        t.update(port_index(t, port), (port, socket))
    } else {
        t.push((port, socket))
    }
}

/// The datagram a worker routes for a send of `data` from `port` to `dest_port` of `dest_node`.
pub open spec fn routed(port: u16, dest_node: NodeId, dest_port: u16, data: Seq<u8>, meta: u8) -> WorkerOutputView {
    WorkerOutputView::SendRoute(RouteRule::ToNode(dest_node), meta, embedded(port, dest_port, data))
}

/// What an input does to the socket feature of a worker. Sends go out only from a bound
/// port of the sending actor; other controls go to the controller.
pub open spec fn socket_worker_spec(w: SocketWorkerView, input: WorkerInput) -> SocketWorkerView {
    let t = w.sockets;
    match input {
        WorkerInput::Net(incoming) => match incoming_event(t, incoming.source, incoming.meta, incoming.buf@) {
            Some((a, e)) => SocketWorkerView { queue: w.queue.push(WorkerOutputView::Event(a, e)), ..w },
            None => w,
        },
        WorkerInput::FromController(_, ToWorker::BindSocket(port, actor)) => SocketWorkerView { sockets: bind(t, port, Socket { target: None, actor }), ..w },
        WorkerInput::FromController(_, ToWorker::ConnectSocket(port, dest_node, dest_port)) => {
            if has_port(t, port) {
                SocketWorkerView {
                    sockets: t.update(port_index(t, port), (port, Socket { target: Some(Target { node: dest_node, port: dest_port }), ..socket_of(t, port) })),
                    ..w
                }
            } else {
                w
            }
        },
        WorkerInput::FromController(_, ToWorker::UnbindSocket(port)) => {
            if has_port(t, port) {
                SocketWorkerView { sockets: t.remove(port_index(t, port)), ..w }
            } else {
                w
            }
        },
        WorkerInput::Control(actor, control) => match control@ {
            ControlView::Send(port, data, meta) => {
                if has_port(t, port) && socket_of(t, port).actor == actor && socket_of(t, port).target is Some {
                    let target = socket_of(t, port).target->0;
                    SocketWorkerView { queue: w.queue.push(routed(port, target.node, target.port, data, meta)), ..w }
                } else {
                    w
                }
            },
            ControlView::SendTo(port, dest_node, dest_port, data, meta) => {
                if has_port(t, port) && socket_of(t, port).actor == actor {
                    SocketWorkerView { queue: w.queue.push(routed(port, dest_node, dest_port, data, meta)), ..w }
                } else {
                    w
                }
            },
            other => SocketWorkerView { queue: w.queue.push(WorkerOutputView::ForwardControlToController(actor, other)), ..w },
        },
    }
}

fn push_socket_worker_output(queue: &mut VecDeque<WorkerOutput>, o: WorkerOutput)
    ensures
        socket_worker_outputs(final(queue)@) == socket_worker_outputs(old(queue)@).push(o@),
{
    let ghost q = queue@;
    queue.push_back(o);
    assert(socket_worker_outputs(queue@) =~= socket_worker_outputs(q).push(o@));
}

impl SocketFeatureWorker {
    pub closed spec fn wf(&self) -> bool {
        self.sockets.wf()
    }

    pub fn new() -> (r: Self)
        ensures
            r.wf(),
            r@ == (SocketWorkerView { sockets: Seq::empty(), queue: Seq::empty() }),
    {
        let r = SocketFeatureWorker { sockets: Sockets::new(), queue: VecDeque::new() };
        assert(r@.queue =~= Seq::empty());
        r
    }

    /// Delivers a datagram that arrived at this node.
    pub fn process_incoming(&mut self, incoming: Incoming)
        requires
            old(self).wf(),
        ensures
            final(self).wf(),
            final(self)@ == socket_worker_spec(old(self)@, WorkerInput::Net(incoming)),
    {
        match process_incoming(&self.sockets, incoming) {
            Some((a, e)) => push_socket_worker_output(&mut self.queue, WorkerOutput::Event(a, e)),
            None => {},
        }
    }

    /// Handles an input.
    pub fn on_input(&mut self, input: WorkerInput)
        requires
            old(self).wf(),
        ensures
            final(self).wf(),
            final(self)@ == socket_worker_spec(old(self)@, input),
    {
        match input {
            WorkerInput::Net(incoming) => self.process_incoming(incoming),
            WorkerInput::FromController(_, control) => match control {
                ToWorker::BindSocket(port, actor) => {
                    self.sockets.insert(port, Socket { target: None, actor });
                },
                ToWorker::ConnectSocket(port, dest_node, dest_port) => {
                    match self.sockets.get(port) {
                        Some(socket) => {
                            self.sockets.insert(port, Socket { target: Some(Target { node: dest_node, port: dest_port }), ..socket });
                        },
                        None => {},
                    }
                },
                ToWorker::UnbindSocket(port) => {
                    self.sockets.remove(port);
                },
            },
            WorkerInput::Control(actor, control) => match control {
                Control::Send(port, data, meta) => {
                    match self.sockets.get(port) {
                        Some(socket) => {
                            if actor == socket.actor {
                                match socket.target {
                                    Some(t) => {
                                        let buf = embed_meta(port, t.port, &data);
                                        push_socket_worker_output(&mut self.queue, WorkerOutput::SendRoute(RouteRule::ToNode(t.node), meta, buf));
                                    },
                                    None => {},
                                }
                            }
                        },
                        None => {},
                    }
                },
                Control::SendTo(port, dest_node, dest_port, data, meta) => {
                    match self.sockets.get(port) {
                        Some(socket) => {
                            if actor == socket.actor {
                                let buf = embed_meta(port, dest_port, &data);
                                push_socket_worker_output(&mut self.queue, WorkerOutput::SendRoute(RouteRule::ToNode(dest_node), meta, buf));
                            }
                        },
                        None => {},
                    }
                },
                other => push_socket_worker_output(&mut self.queue, WorkerOutput::ForwardControlToController(actor, other)),
            },
        }
    }

    /// Hands out the oldest output.
    pub fn pop_output(&mut self) -> (r: Option<WorkerOutput>)
        requires
            old(self).wf(),
        ensures
            final(self).wf(),
            old(self)@.queue.len() == 0 ==> r is None && final(self)@ == old(self)@,
            old(self)@.queue.len() > 0 ==> r is Some && r->0@ == old(self)@.queue[0]
                && final(self)@ == (SocketWorkerView { queue: old(self)@.queue.drop_first(), ..old(self)@ }),
    {
        let ghost q = self.queue@;
        let r = self.queue.pop_front();
        proof {
            if q.len() > 0 {
                assert(socket_worker_outputs(q.drop_first()) =~= socket_worker_outputs(q).drop_first());
            }
        }
        r
    }
}

/// The ports a datagram carries are read back as written, with the payload after them.
pub proof fn law_embed_extract(src: u16, dest: u16, data: Seq<u8>)
    ensures
        extracted(embedded(src, dest, data)) == Some((src, dest, data)),
{
    let b = embedded(src, dest, data);
    assert(b[0] == (src / 256) as u8 && b[1] == (src % 256) as u8);
    assert(b[2] == (dest / 256) as u8 && b[3] == (dest % 256) as u8);
    assert(be16_at(b, 0) == src);
    assert(be16_at(b, 2) == dest);
    assert(b.skip(4) =~= data);
}

/// A datagram sent from a bound port to a port bound on another node reaches its owner
/// there, when the destination port is not connected elsewhere.
pub proof fn law_send_delivers(
    receiver_table: Seq<(u16, Socket)>,
    from: NodeId,
    port: u16,
    dest_port: u16,
    data: Seq<u8>,
    meta: u8,
)
    requires
        has_port(receiver_table, dest_port),
        socket_of(receiver_table, dest_port).target is None,
    ensures
        incoming_event(receiver_table, Some(from), meta, embedded(port, dest_port, data)) == Some(
            (socket_of(receiver_table, dest_port).actor, EventView::RecvFrom(dest_port, from, port, data, meta)),
        ),
{
    law_embed_extract(port, dest_port, data);
}

} // verus!
