//! Messages of the pubsub feature.

use vstd::prelude::*;

use crate::msg::MsgHeaderError;
use crate::types::{FeatureControlActor, NodeId, PeerAddr};

verus! {

/// Identifier of a channel.
#[derive(Debug, Clone, Copy, PartialEq, Eq, Structural, Hash)]
pub struct ChannelId(pub u64);

/// A relay carries one channel from one source node.
#[derive(Debug, Clone, Copy, PartialEq, Eq, Structural, Hash)]
pub struct RelayId(pub ChannelId, pub NodeId);

/// Aggregated feedback of one kind from the subscribers to a source.
#[derive(Debug, Clone, Copy, PartialEq, Eq, Structural)]
pub struct Feedback {
    pub kind: u8,
    pub count: u64,
    pub max: u64,
    pub min: u64,
    pub sum: u64,
    pub interval_ms: u16,
    pub timeout_ms: u16,
}

impl Feedback {
    /// The feedback of a single value.
    pub fn simple(kind: u8, value: u64, interval_ms: u16, timeout_ms: u16) -> (f: Self)
        ensures
            f == (Feedback { kind, count: 1, max: value, min: value, sum: value, interval_ms, timeout_ms }),
    {
        Feedback { kind, count: 1, max: value, min: value, sum: value, interval_ms, timeout_ms }
    }
}

/// Whether two feedbacks can be merged without overflow.
pub open spec fn can_merge(a: Feedback, b: Feedback) -> bool {
    a.count + b.count <= u64::MAX && a.sum + b.sum <= u64::MAX
}

/// The merge of two feedbacks: counts and sums add up, extremes are kept, the shortest
/// interval and the longest timeout win; the kind is the left one's.
pub open spec fn merge(a: Feedback, b: Feedback) -> Feedback {
    Feedback {
        kind: a.kind,
        count: (a.count + b.count) as u64,
        max: if a.max >= b.max { a.max } else { b.max },
        min: if a.min <= b.min { a.min } else { b.min },
        sum: (a.sum + b.sum) as u64,
        interval_ms: if a.interval_ms <= b.interval_ms { a.interval_ms } else { b.interval_ms },
        timeout_ms: if a.timeout_ms >= b.timeout_ms { a.timeout_ms } else { b.timeout_ms },
    }
}

impl std::ops::Add for Feedback {
    type Output = Self;

    fn add(self, rhs: Self) -> (r: Self::Output) {
        Feedback {
            kind: self.kind,
            count: self.count + rhs.count,
            max: if self.max >= rhs.max { self.max } else { rhs.max },
            min: if self.min <= rhs.min { self.min } else { rhs.min },
            sum: self.sum + rhs.sum,
            interval_ms: if self.interval_ms <= rhs.interval_ms { self.interval_ms } else { rhs.interval_ms },
            timeout_ms: if self.timeout_ms >= rhs.timeout_ms { self.timeout_ms } else { rhs.timeout_ms },
        }
    }
}

impl vstd::std_specs::ops::AddSpecImpl for Feedback {
    open spec fn obeys_add_spec() -> bool {
        true
    }

    open spec fn add_req(self, rhs: Self) -> bool {
        can_merge(self, rhs)
    }

    open spec fn add_spec(self, rhs: Self) -> Self {
        merge(self, rhs)
    }
}

/// A relay control message between neighbouring nodes.
#[derive(Debug, Clone, Copy, PartialEq, Eq, Structural)]
pub enum RelayControl {
    Sub(u64),
    Unsub(u64),
    SubOK(u64),
    UnsubOK(u64),
    RouteChanged(u64),
    Feedback(Feedback),
}

impl RelayControl {
    /// A control that may create the relay where it does not exist yet.
    pub fn should_create(&self) -> (r: bool)
        ensures
            r == (*self is Sub),
    {
        match self {
            RelayControl::Sub(_) => true,
            _ => false,
        }
    }
}

/// A message of the source-hint tree.
#[derive(Debug, PartialEq, Eq)]
pub enum SourceHint {
    /// A source is new or still alive. Sent to the next hop and relayed to all subscribers
    /// except the sender.
    Register { source: NodeId, to_root: bool },
    /// A source ended. Sent to the next hop and relayed to all subscribers except the sender.
    Unregister { source: NodeId, to_root: bool },
    Subscribe(u64),
    SubscribeOk(u64),
    Unsubscribe(u64),
    UnsubscribeOk(u64),
    /// The known sources, sent to a new subscriber as a snapshot.
    Sources(Vec<NodeId>),
}

/// Mathematical form of [`SourceHint`].
pub enum SourceHintView {
    Register { source: NodeId, to_root: bool },
    Unregister { source: NodeId, to_root: bool },
    Subscribe(u64),
    SubscribeOk(u64),
    Unsubscribe(u64),
    UnsubscribeOk(u64),
    Sources(Seq<NodeId>),
}

impl View for SourceHint {
    type V = SourceHintView;

    open spec fn view(&self) -> SourceHintView {
        match self {
            SourceHint::Register { source, to_root } => SourceHintView::Register { source: *source, to_root: *to_root },
            SourceHint::Unregister { source, to_root } => SourceHintView::Unregister { source: *source, to_root: *to_root },
            SourceHint::Subscribe(s) => SourceHintView::Subscribe(*s),
            SourceHint::SubscribeOk(s) => SourceHintView::SubscribeOk(*s),
            SourceHint::Unsubscribe(s) => SourceHintView::Unsubscribe(*s),
            SourceHint::UnsubscribeOk(s) => SourceHintView::UnsubscribeOk(*s),
            SourceHint::Sources(v) => SourceHintView::Sources(v@),
        }
    }
}

impl Clone for SourceHint {
    fn clone(&self) -> (r: Self)
        ensures
            r@ == self@,
    {
        match self {
            SourceHint::Register { source, to_root } => SourceHint::Register { source: *source, to_root: *to_root },
            SourceHint::Unregister { source, to_root } => SourceHint::Unregister { source: *source, to_root: *to_root },
            SourceHint::Subscribe(s) => SourceHint::Subscribe(*s),
            SourceHint::SubscribeOk(s) => SourceHint::SubscribeOk(*s),
            SourceHint::Unsubscribe(s) => SourceHint::Unsubscribe(*s),
            SourceHint::UnsubscribeOk(s) => SourceHint::UnsubscribeOk(*s),
            SourceHint::Sources(v) => {
                let c = v.clone();
                assert(c@ =~= v@);
                SourceHint::Sources(c)
            },
        }
    }
}

impl SourceHint {
    /// A message that may create the channel's hint state where it does not exist yet.
    pub fn should_create(&self) -> (r: bool)
        ensures
            r == (self@ is Register || self@ is Subscribe),
    {
        match self {
            SourceHint::Register { .. } | SourceHint::Subscribe(_) => true,
            _ => false,
        }
    }
}

/// Why a pubsub message could not be read.
#[derive(Debug, Clone, Copy, PartialEq, Eq, Structural)]
pub enum PubsubMessageError {
    TransportError(MsgHeaderError),
    DeserializeError,
}

/// A message of the pubsub feature.
#[derive(Debug, PartialEq, Eq)]
pub enum PubsubMessage {
    Control(RelayId, RelayControl),
    SourceHint(ChannelId, SourceHint),
    Data(RelayId, Vec<u8>),
}

/// Mathematical form of [`PubsubMessage`].
pub enum PubsubMessageView {
    Control(RelayId, RelayControl),
    SourceHint(ChannelId, SourceHintView),
    Data(RelayId, Seq<u8>),
}

impl View for PubsubMessage {
    type V = PubsubMessageView;

    open spec fn view(&self) -> PubsubMessageView {
        match self {
            PubsubMessage::Control(r, c) => PubsubMessageView::Control(*r, *c),
            PubsubMessage::SourceHint(c, h) => PubsubMessageView::SourceHint(*c, h@),
            PubsubMessage::Data(r, d) => PubsubMessageView::Data(*r, d@),
        }
    }
}

/// A command from the controller to the workers about one relay.
#[derive(Debug, Clone, Copy, PartialEq, Eq, Structural)]
pub enum RelayWorkerControl {
    SendSub(u64, Option<PeerAddr>),
    SendUnsub(u64, PeerAddr),
    SendSubOk(u64, PeerAddr),
    SendUnsubOk(u64, PeerAddr),
    SendRouteChanged,
    SendFeedback(Feedback, PeerAddr),
    RouteSetSource(PeerAddr),
    RouteDelSource(PeerAddr),
    RouteSetLocal(FeatureControlActor),
    RouteDelLocal(FeatureControlActor),
    RouteSetRemote(PeerAddr, u64),
    RouteDelRemote(PeerAddr),
}

impl RelayWorkerControl {
    /// Route changes go to every worker; messages to send go to one.
    pub fn is_broadcast(&self) -> (r: bool)
        ensures
            r == !(*self is SendSub || *self is SendUnsub || *self is SendSubOk || *self is SendUnsubOk || *self is SendRouteChanged),
    {
        match self {
            RelayWorkerControl::SendSub(_, _)
            | RelayWorkerControl::SendUnsub(_, _)
            | RelayWorkerControl::SendSubOk(_, _)
            | RelayWorkerControl::SendUnsubOk(_, _)
            | RelayWorkerControl::SendRouteChanged => false,
            _ => true,
        }
    }
}

} // verus!
