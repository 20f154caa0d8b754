//! Publish/subscribe: channels relayed along a tree of nodes from each source to its
//! subscribers, with feedback flowing back to the sources.

use vstd::prelude::*;

use self::msg::{ChannelId, Feedback, RelayControl, RelayId, RelayWorkerControl, SourceHint, SourceHintView};
use crate::types::{NodeId, PeerAddr};

pub mod msg;
pub mod feedbacks;
pub mod consumers;
pub mod relay;
pub mod remote_relay;
pub mod local_relay;
pub mod timed_map;
pub mod source_hint;
pub mod worker;
pub mod channel;
pub mod controller;

pub use controller::PubSubFeature;

verus! {

/// A remote consumer, or an unbinding relay, is dropped after this time.
pub const RELAY_TIMEOUT: u64 = 10_000;
/// A relay keeps its path for this time before it looks for a better one.
pub const RELAY_STICKY_MS: u64 = 300_000;
/// Timestamps stay at or below this bound, `u64::MAX - RELAY_STICKY_MS`: adding the longest
/// delay, the sticky time of a relay's path, to a timestamp then stays within 64 bits.
pub const TIME_LIMIT_MS: u64 = 0xffff_ffff_fffb_6c1f;

/// The identifier of the pubsub feature.
pub const FEATURE_ID: u8 = 5;

/// What a local actor asks of a channel.
#[derive(Debug, Clone, PartialEq, Eq)]
pub enum ChannelControl {
    SubAuto,
    FeedbackAuto(Feedback),
    UnsubAuto,
    SubSource(NodeId),
    UnsubSource(NodeId),
    PubStart,
    PubData(Vec<u8>),
    PubStop,
}

/// Mathematical form of [`ChannelControl`].
pub enum ChannelControlView {
    SubAuto,
    FeedbackAuto(Feedback),
    UnsubAuto,
    SubSource(NodeId),
    UnsubSource(NodeId),
    PubStart,
    PubData(Seq<u8>),
    PubStop,
}

impl View for ChannelControl {
    type V = ChannelControlView;

    open spec fn view(&self) -> ChannelControlView {
        match self {
            ChannelControl::SubAuto => ChannelControlView::SubAuto,
            ChannelControl::FeedbackAuto(f) => ChannelControlView::FeedbackAuto(*f),
            ChannelControl::UnsubAuto => ChannelControlView::UnsubAuto,
            ChannelControl::SubSource(n) => ChannelControlView::SubSource(*n),
            ChannelControl::UnsubSource(n) => ChannelControlView::UnsubSource(*n),
            ChannelControl::PubStart => ChannelControlView::PubStart,
            ChannelControl::PubData(d) => ChannelControlView::PubData(d@),
            ChannelControl::PubStop => ChannelControlView::PubStop,
        }
    }
}

/// A control of a local actor on a channel.
#[derive(Debug, Clone, PartialEq, Eq)]
pub struct Control(pub ChannelId, pub ChannelControl);

impl View for Control {
    type V = (ChannelId, ChannelControlView);

    open spec fn view(&self) -> (ChannelId, ChannelControlView) {
        (self.0, self.1@)
    }
}

/// What a channel tells a local actor.
#[derive(Debug, Clone, PartialEq, Eq)]
pub enum ChannelEvent {
    RouteChanged(NodeId),
    SourceData(NodeId, Vec<u8>),
    FeedbackData(Feedback),
}

/// Mathematical form of [`ChannelEvent`].
pub enum ChannelEventView {
    RouteChanged(NodeId),
    SourceData(NodeId, Seq<u8>),
    FeedbackData(Feedback),
}

impl View for ChannelEvent {
    type V = ChannelEventView;

    open spec fn view(&self) -> ChannelEventView {
        match self {
            ChannelEvent::RouteChanged(n) => ChannelEventView::RouteChanged(*n),
            ChannelEvent::SourceData(n, d) => ChannelEventView::SourceData(*n, d@),
            ChannelEvent::FeedbackData(f) => ChannelEventView::FeedbackData(*f),
        }
    }
}

/// An event of a channel for a local actor.
#[derive(Debug, Clone, PartialEq, Eq)]
pub struct Event(pub ChannelId, pub ChannelEvent);

impl View for Event {
    type V = (ChannelId, ChannelEventView);

    open spec fn view(&self) -> (ChannelId, ChannelEventView) {
        (self.0, self.1@)
    }
}

/// A command from the controller to the workers.
#[derive(Debug, PartialEq, Eq)]
pub enum ToWorker {
    RelayControl(RelayId, RelayWorkerControl),
    SourceHint(ChannelId, Option<PeerAddr>, SourceHint),
    RelayData(RelayId, Vec<u8>),
}

/// Mathematical form of [`ToWorker`].
pub enum ToWorkerView {
    RelayControl(RelayId, RelayWorkerControl),
    SourceHint(ChannelId, Option<PeerAddr>, SourceHintView),
    RelayData(RelayId, Seq<u8>),
}

impl View for ToWorker {
    type V = ToWorkerView;

    open spec fn view(&self) -> ToWorkerView {
        match self {
            ToWorker::RelayControl(r, c) => ToWorkerView::RelayControl(*r, *c),
            ToWorker::SourceHint(c, a, h) => ToWorkerView::SourceHint(*c, *a, h@),
            ToWorker::RelayData(r, d) => ToWorkerView::RelayData(*r, d@),
        }
    }
}

/// A message from a worker to the controller, received from the neighbour it names.
#[derive(Debug, PartialEq, Eq)]
pub enum ToController {
    RelayControl(PeerAddr, RelayId, RelayControl),
    SourceHint(PeerAddr, ChannelId, SourceHint),
}

/// Mathematical form of [`ToController`].
pub enum ToControllerView {
    RelayControl(PeerAddr, RelayId, RelayControl),
    SourceHint(PeerAddr, ChannelId, SourceHintView),
}

impl View for ToController {
    type V = ToControllerView;

    open spec fn view(&self) -> ToControllerView {
        match self {
            ToController::RelayControl(a, r, c) => ToControllerView::RelayControl(*a, *r, *c),
            ToController::SourceHint(a, c, h) => ToControllerView::SourceHint(*a, *c, h@),
        }
    }
}

} // verus!
