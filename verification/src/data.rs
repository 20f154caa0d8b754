//! Data transfer between nodes: pings answered by pongs (with the round-trip time), and
//! datagrams sent by a route rule to a port that a local actor listens on.

use std::collections::VecDeque;
use vstd::prelude::*;

use crate::base::{ForwardingWorker, NetIncomingMeta, NetOutgoingMeta, RouteRule, DEFAULT_MSG_TTL};
use crate::table::{find_key, has_key, key_index, lemma_key_index, lemma_push_unique, lemma_remove_unique, lemma_update_unique, remove_key, unique_keys, upsert, upsert_vec, value_of, without_key};
use crate::types::{FeatureControlActor, NodeId};

verus! {

/// The identifier of the data feature.
pub const FEATURE_ID: u8 = 1;
/// A ping not answered for this long is given up.
pub const PING_TIMEOUT_MS: u64 = 2000;

/// What a local actor asks: ping a node, listen on a port or stop listening, or send a
/// datagram to a port by a route rule.
#[derive(Debug, Clone, PartialEq, Eq)]
pub enum Control {
    Ping(NodeId),
    DataListen(u16),
    DataUnlisten(u16),
    DataSendRule(u16, RouteRule, NetOutgoingMeta, Vec<u8>),
}

/// What a local actor is told: the answer to a ping (the round-trip time, or nothing when it
/// timed out), or a datagram that came to a port it listens on.
#[derive(Debug, Clone, PartialEq, Eq)]
pub enum Event {
    Pong(NodeId, Option<u16>),
    Recv(u16, NetIncomingMeta, Vec<u8>),
}

/// What the controller sends to the workers (nothing is ever sent).
#[derive(Debug, Clone, Copy, PartialEq, Eq, Structural)]
pub struct ToWorker;

/// What a worker sends to the controller (nothing is ever sent).
#[derive(Debug, Clone, Copy, PartialEq, Eq, Structural)]
pub struct ToController;

/// A message between data features.
#[derive(Debug, Clone, PartialEq, Eq)]
pub enum DataMsg {
    Ping { id: u64, ts: u64, from: NodeId },
    Pong { id: u64, ts: u64 },
    Data(u16, Vec<u8>),
}

/// An output: an event for a local actor, or a message to route.
#[derive(Debug, Clone, PartialEq, Eq)]
pub enum Output {
    Event(FeatureControlActor, Event),
    SendRoute(RouteRule, NetOutgoingMeta, DataMsg),
}

/// An input: a control of a local actor, or a decoded message from the network or from this
/// node, with its meta.
#[derive(Debug, Clone, PartialEq, Eq)]
pub enum FeatureInput {
    Control(FeatureControlActor, Control),
    Net(NetIncomingMeta, DataMsg),
    Local(NetIncomingMeta, DataMsg),
}

/// A ping waiting for its pong: when it was sent, who asked, and to which node.
pub type Wait = (u64, FeatureControlActor, NodeId);

/// Mathematical state of a [`DataFeature`]: the pings waiting for their pongs (by id, in the
/// order they were sent), the next ping id, the outputs not yet handed out, and who listens
/// on each port.
#[verifier::ext_equal]
pub struct DataView {
    pub waits: Seq<(u64, Wait)>,
    pub ping_seq: u64,
    pub queue: Seq<Output>,
    pub listeners: Seq<(u64, FeatureControlActor)>,
}

/// The data feature of a node.
pub struct DataFeature {
    waits: Vec<(u64, Wait)>,
    ping_seq: u64,
    queue: VecDeque<Output>,
    listeners: Vec<(u64, FeatureControlActor)>,
}

impl View for DataFeature {
    type V = DataView;

    closed spec fn view(&self) -> DataView {
        DataView { waits: self.waits@, ping_seq: self.ping_seq, queue: self.queue@, listeners: self.listeners@ }
    }
}

/// Each ping id and each port occurs at most once.
pub open spec fn valid(s: DataView) -> bool {
    unique_keys(s.waits) && unique_keys(s.listeners)
}

/// The meta of a ping and of a pong.
pub open spec fn ping_meta() -> NetOutgoingMeta {
    NetOutgoingMeta { source: false, ttl: DEFAULT_MSG_TTL, meta: 0, secure: false }
}

/// The time from `ts` to `now` in milliseconds, cut to 16 bits, counted around the 64-bit
/// clock.
pub open spec fn rtt(now: u64, ts: u64) -> u16 {
    (if now >= ts {
        now - ts
    } else {
        now - ts + 0x1_0000_0000_0000_0000
    }) as u16
}

/// What a control of a local actor does at `now` on node `node_id`.
pub open spec fn control_spec(s: DataView, node_id: NodeId, now: u64, actor: FeatureControlActor, control: Control) -> DataView {
    match control {
        Control::Ping(dest) => DataView {
            waits: upsert(s.waits, s.ping_seq, (now, actor, dest)),
            ping_seq: (s.ping_seq + 1) as u64,
            queue: s.queue.push(Output::SendRoute(RouteRule::ToNode(dest), ping_meta(), DataMsg::Ping { id: s.ping_seq, ts: now, from: node_id })),
            ..s
        },
        Control::DataListen(port) => DataView { listeners: upsert(s.listeners, port as u64, actor), ..s },
        Control::DataUnlisten(port) => DataView { listeners: without_key(s.listeners, port as u64), ..s },
        Control::DataSendRule(port, rule, meta, data) => DataView {
            queue: s.queue.push(Output::SendRoute(rule, meta, DataMsg::Data(port, data))),
            ..s
        },
    }
}

/// What a message that came in with `meta` does at `now`.
pub open spec fn message_spec(s: DataView, now: u64, meta: NetIncomingMeta, msg: DataMsg) -> DataView {
    match msg {
        DataMsg::Pong { id, ts } => {
            if has_key(s.waits, id) {
                let w = value_of(s.waits, id);
                DataView { waits: without_key(s.waits, id), queue: s.queue.push(Output::Event(w.1, Event::Pong(w.2, Some(rtt(now, ts))))), ..s }
            } else {
                s
            }
        },
        DataMsg::Ping { id, ts, from } => DataView {
            queue: s.queue.push(Output::SendRoute(RouteRule::ToNode(from), ping_meta(), DataMsg::Pong { id, ts })),
            ..s
        },
        DataMsg::Data(port, data) => {
            if has_key(s.listeners, port as u64) {
                DataView { queue: s.queue.push(Output::Event(value_of(s.listeners, port as u64), Event::Recv(port, meta, data))), ..s }
            } else {
                s
            }
        },
    }
}

/// What an input does at `now` on node `node_id`.
pub open spec fn input_spec(s: DataView, node_id: NodeId, now: u64, input: FeatureInput) -> DataView {
    match input {
        FeatureInput::Control(actor, control) => control_spec(s, node_id, now, actor, control),
        FeatureInput::Net(meta, msg) => message_spec(s, now, meta, msg),
        FeatureInput::Local(meta, msg) => message_spec(s, now, meta, msg),
    }
}

/// The pings that a tick at `now` keeps, in order, and the answers (with no time) for the
/// ones it gives up.
pub open spec fn tick_waits(ws: Seq<(u64, Wait)>, now: u64) -> (Seq<(u64, Wait)>, Seq<Output>)
    decreases ws.len(),
{
    if ws.len() == 0 {
        (Seq::empty(), Seq::empty())
    } else {
        let (kept, out) = tick_waits(ws.drop_last(), now);
        let (id, w) = ws.last();
        if now >= w.0 + PING_TIMEOUT_MS {
            (kept, out.push(Output::Event(w.1, Event::Pong(w.2, None))))
        } else {
            (kept.push((id, w)), out)
        }
    }
}

/// A tick at `now`.
pub open spec fn tick_spec(s: DataView, now: u64) -> DataView {
    DataView { waits: tick_waits(s.waits, now).0, queue: s.queue + tick_waits(s.waits, now).1, ..s }
}

/// A ping sent at `t1` and answered by its pong at `t2` tells the asker the round-trip time,
/// and leaves nothing waiting; a second copy of the pong changes nothing.
pub proof fn law_ping_answered_once(s: DataView, node_id: NodeId, t1: u64, t2: u64, t3: u64, actor: FeatureControlActor, dest: NodeId, meta: NetIncomingMeta)
    requires
        valid(s),
        s.ping_seq < u64::MAX,
    ensures
        ({
            let s1 = control_spec(s, node_id, t1, actor, Control::Ping(dest));
            let pong = DataMsg::Pong { id: s.ping_seq, ts: t1 };
            let s2 = message_spec(s1, t2, meta, pong);
            &&& s2.queue == s1.queue.push(Output::Event(actor, Event::Pong(dest, Some(rtt(t2, t1)))))
            &&& !has_key(s2.waits, s.ping_seq)
            &&& message_spec(s2, t3, meta, pong) == s2
        }),
{
    let s1 = control_spec(s, node_id, t1, actor, Control::Ping(dest));
    let id = s.ping_seq;
    let i = if has_key(s.waits, id) {
        key_index(s.waits, id)
    } else {
        s.waits.len() as int
    };
    if has_key(s.waits, id) {
        lemma_update_unique(s.waits, i, (t1, actor, dest));
    } else {
        lemma_push_unique(s.waits, id, (t1, actor, dest));
    }
    lemma_key_index(s1.waits, id, i);
    lemma_remove_unique(s1.waits, i);
}

/// A datagram to a port reaches the actor that listens on it last; after that actor stops
/// listening, datagrams to the port are dropped.
pub proof fn law_listen_then_unlisten(s: DataView, node_id: NodeId, now: u64, actor: FeatureControlActor, other: FeatureControlActor, port: u16, meta: NetIncomingMeta, data: Vec<u8>)
    requires
        valid(s),
    ensures
        ({
            let s1 = control_spec(s, node_id, now, actor, Control::DataListen(port));
            let s2 = control_spec(s1, node_id, now, other, Control::DataUnlisten(port));
            &&& message_spec(s1, now, meta, DataMsg::Data(port, data)) == (DataView {
                queue: s1.queue.push(Output::Event(actor, Event::Recv(port, meta, data))),
                ..s1
            })
            &&& message_spec(s2, now, meta, DataMsg::Data(port, data)) == s2
        }),
{
    let k = port as u64;
    let s1 = control_spec(s, node_id, now, actor, Control::DataListen(port));
    let i = if has_key(s.listeners, k) {
        key_index(s.listeners, k)
    } else {
        s.listeners.len() as int
    };
    if has_key(s.listeners, k) {
        lemma_update_unique(s.listeners, i, actor);
    } else {
        lemma_push_unique(s.listeners, k, actor);
    }
    lemma_key_index(s1.listeners, k, i);
    lemma_remove_unique(s1.listeners, i);
}

/// A tick at `now` keeps exactly the pings sent less than `PING_TIMEOUT_MS` before, and tells
/// the asker of each other one that it timed out.
pub proof fn law_tick_gives_up_old_pings(ws: Seq<(u64, Wait)>, now: u64)
    ensures
        forall|i: int| 0 <= i < tick_waits(ws, now).0.len() ==> now < (#[trigger] tick_waits(ws, now).0[i]).1.0 + PING_TIMEOUT_MS,
        tick_waits(ws, now).0.len() + tick_waits(ws, now).1.len() == ws.len(),
        forall|i: int| 0 <= i < tick_waits(ws, now).1.len() ==> (#[trigger] tick_waits(ws, now).1[i]) matches Output::Event(_, Event::Pong(_, None)),
    decreases ws.len(),
{
    if ws.len() > 0 {
        law_tick_gives_up_old_pings(ws.drop_last(), now);
        let (k0, o0) = tick_waits(ws.drop_last(), now);
        let (k, o) = tick_waits(ws, now);
        assert forall|i: int| 0 <= i < k.len() implies now < (#[trigger] k[i]).1.0 + PING_TIMEOUT_MS by {
            if i < k0.len() {
                assert(k[i] == k0[i]);
            }
        }
        assert forall|i: int| 0 <= i < o.len() implies (#[trigger] o[i]) matches Output::Event(_, Event::Pong(_, None)) by {
            if i < o0.len() {
                assert(o[i] == o0[i]);
            }
        }
    }
}

impl DataFeature {
    pub open spec fn wf(&self) -> bool {
        valid(self@)
    }

    /// A feature with no ping waiting and no listener, whose first ping has id 0.
    pub fn new() -> (r: Self)
        ensures
            r.wf(),
            r@ == (DataView { waits: Seq::empty(), ping_seq: 0, queue: Seq::empty(), listeners: Seq::empty() }),
    {
        DataFeature { waits: Vec::new(), ping_seq: 0, queue: VecDeque::new(), listeners: Vec::new() }
    }

    pub fn feature_type(&self) -> (r: u8)
        ensures
            r == FEATURE_ID,
    {
        FEATURE_ID
    }

    /// Handles an input at `now` on node `node_id`; a ping needs an id left.
    pub fn on_input(&mut self, node_id: NodeId, now: u64, input: FeatureInput)
        requires
            old(self).wf(),
            input matches FeatureInput::Control(_, Control::Ping(_)) ==> old(self)@.ping_seq < u64::MAX,
        ensures
            final(self).wf(),
            final(self)@ == input_spec(old(self)@, node_id, now, input),
    {
        match input {
            FeatureInput::Control(actor, control) => self.on_control(node_id, now, actor, control),
            FeatureInput::Net(meta, msg) => self.on_message(now, meta, msg),
            FeatureInput::Local(meta, msg) => self.on_message(now, meta, msg),
        }
    }

    fn on_control(&mut self, node_id: NodeId, now: u64, actor: FeatureControlActor, control: Control)
        requires
            old(self).wf(),
            control is Ping ==> old(self)@.ping_seq < u64::MAX,
        ensures
            final(self).wf(),
            final(self)@ == control_spec(old(self)@, node_id, now, actor, control),
    {
        match control {
            Control::Ping(dest) => {
                let id = self.ping_seq;
                self.ping_seq = self.ping_seq + 1;
                upsert_vec(&mut self.waits, id, (now, actor, dest));
                self.queue.push_back(Output::SendRoute(RouteRule::ToNode(dest), NetOutgoingMeta::default(), DataMsg::Ping { id, ts: now, from: node_id }));
            },
            Control::DataListen(port) => {
                upsert_vec(&mut self.listeners, port as u64, actor);
            },
            Control::DataUnlisten(port) => {
                remove_key(&mut self.listeners, port as u64);
            },
            Control::DataSendRule(port, rule, meta, data) => {
                self.queue.push_back(Output::SendRoute(rule, meta, DataMsg::Data(port, data)));
            },
        }
    }

    fn on_message(&mut self, now: u64, meta: NetIncomingMeta, msg: DataMsg)
        requires
            old(self).wf(),
        ensures
            final(self).wf(),
            final(self)@ == message_spec(old(self)@, now, meta, msg),
    {
        match msg {
            DataMsg::Pong { id, ts } => {
                if let Some(i) = find_key(&self.waits, id) {
                    let (_, w) = self.waits.remove(i);
                    proof {
                        lemma_remove_unique(old(self)@.waits, i as int);
                    }
                    let elapsed = now.wrapping_sub(ts);
                    self.queue.push_back(Output::Event(w.1, Event::Pong(w.2, Some(elapsed as u16))));
                }
            },
            DataMsg::Ping { id, ts, from } => {
                self.queue.push_back(Output::SendRoute(RouteRule::ToNode(from), NetOutgoingMeta::default(), DataMsg::Pong { id, ts }));
            },
            DataMsg::Data(port, data) => {
                if let Some(i) = find_key(&self.listeners, port as u64) {
                    let actor = self.listeners[i].1;
                    self.queue.push_back(Output::Event(actor, Event::Recv(port, meta, data)));
                }
            },
        }
    }

    /// A tick at `now`: the pings sent `PING_TIMEOUT_MS` or more ago are given up, and their
    /// askers told so, in the order the pings were sent.
    pub fn on_tick(&mut self, now: u64)
        requires
            old(self).wf(),
        ensures
            final(self).wf(),
            final(self)@ == tick_spec(old(self)@, now),
    {
        let ghost s0 = self@;
        let mut rest: Vec<(u64, Wait)> = Vec::new();
        std::mem::swap(&mut rest, &mut self.waits);
        let ghost ws = rest@;
        proof {
            assert(ws.take(0) =~= Seq::empty());
            assert(s0.queue + Seq::empty() =~= s0.queue);
        }
        let mut i: usize = 0;
        while i < rest.len()
            invariant
                rest@ == ws,
                ws == s0.waits,
                unique_keys(ws),
                i <= ws.len(),
                self.waits@ == tick_waits(ws.take(i as int), now).0,
                self.queue@ == s0.queue + tick_waits(ws.take(i as int), now).1,
                unique_keys(self.waits@),
                forall|a: int, b: int| 0 <= a < self.waits@.len() && i <= b < ws.len() ==> #[trigger] self.waits@[a].0 != #[trigger] ws[b].0,
                self.ping_seq == s0.ping_seq,
                self.listeners@ == s0.listeners,
            decreases ws.len() - i,
        {
            let ghost kept0 = self.waits@;
            let e = rest[i];
            proof {
                assert(ws.take(i + 1).drop_last() =~= ws.take(i as int));
                assert(ws.take(i + 1).last() == ws[i as int]);
            }
            let (sent, actor, dest) = e.1;
            if now >= sent && now - sent >= PING_TIMEOUT_MS {
                self.queue.push_back(Output::Event(actor, Event::Pong(dest, None)));
            } else {
                proof {
                    assert(!has_key(kept0, e.0)) by {
                        if has_key(kept0, e.0) {
                            let a = choose|a: int| 0 <= a < kept0.len() && #[trigger] kept0[a].0 == e.0;
                            assert(kept0[a].0 != ws[i as int].0);
                        }
                    }
                    lemma_push_unique(kept0, e.0, e.1);
                }
                self.waits.push(e);
            }
            proof {
                assert forall|a: int, b: int| 0 <= a < self.waits@.len() && i + 1 <= b < ws.len() implies #[trigger] self.waits@[a].0
                    != #[trigger] ws[b].0 by {
                    if a < kept0.len() {
                        assert(self.waits@[a] == kept0[a]);
                    } else {
                        assert(self.waits@[a] == ws[i as int]);
                    }
                }
            }
            i = i + 1;
        }
        proof {
            assert(ws.take(i as int) =~= ws);
        }
    }

    /// Hands out the oldest output.
    pub fn pop_output(&mut self) -> (r: Option<Output>)
        requires
            old(self).wf(),
        ensures
            final(self).wf(),
            old(self)@.queue.len() == 0 ==> r is None && final(self)@ == old(self)@,
            old(self)@.queue.len() > 0 ==> r == Some(old(self)@.queue[0]) && final(self)@ == (DataView {
                queue: old(self)@.queue.drop_first(),
                ..old(self)@
            }),
    {
        self.queue.pop_front()
    }
}

impl Default for DataFeature {
    fn default() -> (r: Self)
        ensures
            r.wf(),
            r@ == (DataView { waits: Seq::empty(), ping_seq: 0, queue: Seq::empty(), listeners: Seq::empty() }),
    {
        DataFeature::new()
    }
}

/// The data feature on a worker: it hands every control and message on to the controller.
pub type DataFeatureWorker = ForwardingWorker<Control, ToWorker>;

} // verus!
