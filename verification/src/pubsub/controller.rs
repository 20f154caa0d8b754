//! The pubsub controller: the relays of this node, one per channel and source, and the
//! source hints of each channel, driven by local controls, messages from neighbours, ticks
//! and closed connections.

use std::collections::VecDeque;
use vstd::prelude::*;

use super::consumers::{consumers_disconnected, consumers_empty, consumers_local_sub, consumers_local_unsub, consumers_tick};
use super::feedbacks::{accepts_feedback, on_feedback_spec, tick_kinds, AggView, FeedbackSource};
use super::local_relay::{local_on_remote_spec, LocalRelay, LocalRelayView};
use super::msg::{ChannelId, Feedback, RelayControl, RelayId, SourceHint, SourceHintView};
use super::source_hint::{
    hint_local_spec, hint_remote_spec, hint_tick_spec, send_each, sources_spec, LocalCmd, Output as HintOutput, OutputView as HintOutputView,
    SourceHintLogic, SourceHintState,
};
use super::relay::{GenericRelayOutput, RelayOutputView};
use super::remote_relay::{
    remote_accepts_feedback, remote_disconnected_spec, remote_local_feedback_spec, remote_local_sub_spec, remote_local_unsub_spec,
    remote_on_remote_spec, remote_tick_spec, RelayStateView, RemoteRelay, RemoteRelayView,
};
use super::{ChannelControl, ChannelControlView, ChannelEvent, ChannelEventView, Control, Event, ToController, ToControllerView, ToWorker, ToWorkerView, TIME_LIMIT_MS};
use super::timed_map::seen_by;
use super::consumers::ConsumersView;
use crate::base::ConnectionEvent;
use crate::dht_kv::msg::copy_bytes;
use crate::table::{has_key, key_index, lemma_key_index, lemma_push_unique, lemma_remove_unique, lemma_update_unique, unique_keys, value_of, without_key};
use crate::types::{swap_removed, FeatureControlActor, NodeId, PeerAddr};

verus! {

/// An output of the controller: an event for a local actor, or a command for the workers
/// (with whether it goes to all of them).
#[derive(Debug, PartialEq, Eq)]
pub enum Output {
    Event(FeatureControlActor, Event),
    ToWorker(bool, ToWorker),
}

/// Mathematical form of [`Output`].
pub enum OutputView {
    Event(FeatureControlActor, (ChannelId, ChannelEventView)),
    ToWorker(bool, ToWorkerView),
}

impl View for Output {
    type V = OutputView;

    open spec fn view(&self) -> OutputView {
        match self {
            Output::Event(a, e) => OutputView::Event(*a, e@),
            Output::ToWorker(b, w) => OutputView::ToWorker(*b, w@),
        }
    }
}

pub open spec fn outs(q: Seq<Output>) -> Seq<OutputView> {
    q.map_values(|o: Output| o@)
}

/// A relay: local when this node is the source, remote otherwise.
pub enum Relay {
    Local(LocalRelay),
    Remote(RemoteRelay),
}

/// Mathematical form of [`Relay`].
pub enum RelayView {
    Local(LocalRelayView),
    Remote(RemoteRelayView),
}

impl View for Relay {
    type V = RelayView;

    open spec fn view(&self) -> RelayView {
        match self {
            Relay::Local(r) => RelayView::Local(r@),
            Relay::Remote(r) => RelayView::Remote(r@),
        }
    }
}

pub open spec fn relay_tick(r: RelayView, now: u64) -> RelayView {
    match r {
        RelayView::Local(l) => RelayView::Local(LocalRelayView {
            consumers: consumers_tick(l.consumers, now),
            feedbacks: AggView { kinds: tick_kinds(l.feedbacks.kinds, now), queue: l.feedbacks.queue },
            ..l
        }),
        RelayView::Remote(x) => RelayView::Remote(remote_tick_spec(x, now)),
    }
}

pub open spec fn relay_local_sub(r: RelayView, actor: FeatureControlActor) -> RelayView {
    match r {
        RelayView::Local(l) => RelayView::Local(LocalRelayView { consumers: consumers_local_sub(l.consumers, actor), ..l }),
        RelayView::Remote(x) => RelayView::Remote(remote_local_sub_spec(x, actor)),
    }
}

pub open spec fn relay_local_unsub(r: RelayView, now: u64, actor: FeatureControlActor) -> RelayView {
    match r {
        RelayView::Local(l) => RelayView::Local(LocalRelayView { consumers: consumers_local_unsub(l.consumers, actor), ..l }),
        RelayView::Remote(x) => RelayView::Remote(remote_local_unsub_spec(x, now, actor)),
    }
}

pub open spec fn relay_local_feedback(r: RelayView, now: u64, actor: FeatureControlActor, fb: Feedback) -> RelayView {
    match r {
        RelayView::Local(l) => RelayView::Local(
            LocalRelayView { feedbacks: on_feedback_spec(l.feedbacks, now, FeedbackSource::Local(actor), fb), ..l },
        ),
        RelayView::Remote(x) => RelayView::Remote(remote_local_feedback_spec(x, now, actor, fb)),
    }
}

pub open spec fn relay_on_remote(r: RelayView, now: u64, remote: PeerAddr, control: RelayControl) -> RelayView {
    match r {
        RelayView::Local(l) => RelayView::Local(local_on_remote_spec(l, now, remote, control)),
        RelayView::Remote(x) => RelayView::Remote(remote_on_remote_spec(x, now, remote, control)),
    }
}

pub open spec fn relay_disconnected(r: RelayView, now: u64, remote: PeerAddr) -> RelayView {
    match r {
        RelayView::Local(l) => RelayView::Local(LocalRelayView { consumers: consumers_disconnected(l.consumers, remote), ..l }),
        RelayView::Remote(x) => RelayView::Remote(remote_disconnected_spec(x, now, remote)),
    }
}

/// Whether a feedback from `src` can be merged into the relay's aggregates.
pub open spec fn relay_accepts(r: RelayView, now: u64, src: FeedbackSource, fb: Feedback) -> bool {
    match r {
        RelayView::Local(l) => accepts_feedback(l.feedbacks, now, src, fb),
        RelayView::Remote(x) => remote_accepts_feedback(x, now, src, fb),
    }
}

/// The relay is done: a local one without consumers or publishers, a remote one unbound.
pub open spec fn relay_done(r: RelayView) -> bool {
    match r {
        RelayView::Local(l) => consumers_empty(l.consumers) && l.publishers.len() == 0,
        RelayView::Remote(x) => x.state is Unbound,
    }
}

/// Where published data goes: the local subscribers, and whether a remote one exists.
pub open spec fn relay_dests(r: RelayView) -> Option<(Seq<FeatureControlActor>, bool)> {
    match r {
        RelayView::Local(l) => Some((l.consumers.locals, l.consumers.remotes.len() > 0)),
        RelayView::Remote(x) => match x.state {
            RelayStateView::Binding { consumers, .. } => Some((consumers.locals, consumers.remotes.len() > 0)),
            RelayStateView::Bound { consumers, .. } => Some((consumers.locals, consumers.remotes.len() > 0)),
            _ => None,
        },
    }
}

/// The outputs a relay holds, in the order it hands them out: for a local relay the merged
/// feedbacks (for its publishers) before the consumers' commands.
pub open spec fn relay_pending(r: RelayView) -> Seq<RelayOutputView> {
    match r {
        RelayView::Local(l) => l.feedbacks.queue.map_values(|f: Feedback| RelayOutputView::Feedback(l.publishers, f)) + l.consumers.queue.map_values(
            |c| RelayOutputView::ToWorker(c),
        ),
        RelayView::Remote(x) => x.queue,
    }
}

/// The relay with its outputs handed out.
pub open spec fn relay_drained(r: RelayView) -> RelayView {
    match r {
        RelayView::Local(l) => RelayView::Local(
            LocalRelayView {
                feedbacks: AggView { queue: Seq::empty(), ..l.feedbacks },
                consumers: ConsumersView { queue: Seq::empty(), ..l.consumers },
                ..l
            },
        ),
        RelayView::Remote(x) => RelayView::Remote(RemoteRelayView { queue: Seq::empty(), ..x }),
    }
}

/// Events carrying merged feedback of channel `ch` to each of `actors`.
pub open spec fn feedback_events(actors: Seq<FeatureControlActor>, ch: ChannelId, fb: Feedback) -> Seq<OutputView> {
    actors.map_values(|a: FeatureControlActor| OutputView::Event(a, (ch, ChannelEventView::FeedbackData(fb))))
}

/// What an output of relay `id` becomes.
pub open spec fn relay_out(id: RelayId, o: RelayOutputView) -> Seq<OutputView> {
    match o {
        RelayOutputView::ToWorker(c) => seq![OutputView::ToWorker(true, ToWorkerView::RelayControl(id, c))],
        RelayOutputView::RouteChanged(a) => seq![OutputView::Event(a, (id.0, ChannelEventView::RouteChanged(id.1)))],
        RelayOutputView::Feedback(actors, fb) => feedback_events(actors, id.0, fb),
    }
}

/// What the outputs `s` of relay `id` become, in order.
pub open spec fn relay_outs(id: RelayId, s: Seq<RelayOutputView>) -> Seq<OutputView>
    decreases s.len(),
{
    if s.len() == 0 {
        Seq::empty()
    } else {
        relay_out(id, s[0]) + relay_outs(id, s.drop_first())
    }
}

impl Relay {
    pub closed spec fn wf(&self) -> bool {
        match self {
            Relay::Local(l) => l.wf(),
            Relay::Remote(x) => x.wf(),
        }
    }

    fn on_tick(&mut self, now: u64)
        requires
            old(self).wf(),
            now <= TIME_LIMIT_MS,
        ensures
            final(self).wf(),
            final(self)@ == relay_tick(old(self)@, now),
    {
        match self {
            Relay::Local(l) => l.on_tick(now),
            Relay::Remote(x) => x.on_tick(now),
        }
    }

    fn on_local_sub(&mut self, now: u64, actor: FeatureControlActor)
        requires
            old(self).wf(),
        ensures
            final(self).wf(),
            final(self)@ == relay_local_sub(old(self)@, actor),
    {
        match self {
            Relay::Local(l) => l.on_local_sub(now, actor),
            Relay::Remote(x) => x.on_local_sub(now, actor),
        }
    }

    fn on_local_unsub(&mut self, now: u64, actor: FeatureControlActor)
        requires
            old(self).wf(),
            now <= TIME_LIMIT_MS,
        ensures
            final(self).wf(),
            final(self)@ == relay_local_unsub(old(self)@, now, actor),
    {
        match self {
            Relay::Local(l) => l.on_local_unsub(now, actor),
            Relay::Remote(x) => x.on_local_unsub(now, actor),
        }
    }

    fn on_local_feedback(&mut self, now: u64, actor: FeatureControlActor, fb: Feedback)
        requires
            old(self).wf(),
            now <= TIME_LIMIT_MS,
            relay_accepts(old(self)@, now, FeedbackSource::Local(actor), fb),
        ensures
            final(self).wf(),
            final(self)@ == relay_local_feedback(old(self)@, now, actor, fb),
    {
        match self {
            Relay::Local(l) => l.on_local_feedback(now, actor, fb),
            Relay::Remote(x) => x.on_local_feedback(now, actor, fb),
        }
    }

    fn on_remote(&mut self, now: u64, remote: PeerAddr, control: RelayControl)
        requires
            old(self).wf(),
            now <= TIME_LIMIT_MS,
            control is Feedback ==> relay_accepts(old(self)@, now, FeedbackSource::Remote(remote), control->Feedback_0),
        ensures
            final(self).wf(),
            final(self)@ == relay_on_remote(old(self)@, now, remote, control),
    {
        match self {
            Relay::Local(l) => l.on_remote(now, remote, control),
            Relay::Remote(x) => x.on_remote(now, remote, control),
        }
    }

    fn conn_disconnected(&mut self, now: u64, remote: PeerAddr)
        requires
            old(self).wf(),
            now <= TIME_LIMIT_MS,
        ensures
            final(self).wf(),
            final(self)@ == relay_disconnected(old(self)@, now, remote),
    {
        match self {
            Relay::Local(l) => l.conn_disconnected(now, remote),
            Relay::Remote(x) => x.conn_disconnected(now, remote),
        }
    }

    fn should_clear(&self) -> (r: bool)
        ensures
            r == relay_done(self@),
    {
        match self {
            Relay::Local(l) => l.should_clear(),
            Relay::Remote(x) => x.should_clear(),
        }
    }

    fn relay_dests(&self) -> (r: Option<(&[FeatureControlActor], bool)>)
        ensures
            match relay_dests(self@) {
                Some((locals, has_remote)) => r matches Some((l, h)) && l@ == locals && h == has_remote,
                None => r is None,
            },
    {
        match self {
            Relay::Local(l) => l.relay_dests(),
            Relay::Remote(x) => x.relay_dests(),
        }
    }

    fn pop_output(&mut self) -> (r: Option<GenericRelayOutput>)
        requires
            old(self).wf(),
        ensures
            final(self).wf(),
            relay_pending(old(self)@).len() == 0 ==> r is None && final(self)@ == old(self)@,
            relay_pending(old(self)@).len() > 0 ==> r is Some && r->0@ == relay_pending(old(self)@)[0] && relay_pending(final(self)@)
                == relay_pending(old(self)@).drop_first() && relay_drained(final(self)@) == relay_drained(old(self)@),
    {
        match self {
            Relay::Local(l) => {
                let ghost l0 = l@;
                let r = l.pop_output();
                proof {
                    let p0 = relay_pending(RelayView::Local(l0));
                    let p1 = relay_pending(RelayView::Local(l@));
                    if l0.feedbacks.queue.len() > 0 {
                        assert(p1 =~= p0.drop_first());
                        assert(relay_drained(RelayView::Local(l@)) =~~= relay_drained(RelayView::Local(l0)));
                    } else if l0.consumers.queue.len() > 0 {
                        assert(l0.feedbacks.queue.map_values(|f: Feedback| RelayOutputView::Feedback(l0.publishers, f)) =~= Seq::empty());
                        assert(p0[0] == RelayOutputView::ToWorker(l0.consumers.queue[0]));
                        assert(p1 =~= p0.drop_first());
                        assert(relay_drained(RelayView::Local(l@)) =~~= relay_drained(RelayView::Local(l0)));
                    } else {
                        assert(p0.len() == 0);
                    }
                }
                r
            },
            Relay::Remote(x) => x.pop_output(),
        }
    }
}

/// Queues what the output `o` of relay `id` becomes.
fn push_relay_out(id: RelayId, o: GenericRelayOutput, queue: &mut VecDeque<Output>)
    ensures
        outs(final(queue)@) == outs(old(queue)@) + relay_out(id, o@),
{
    let ghost q0 = outs(queue@);
    match o {
        GenericRelayOutput::ToWorker(c) => {
            queue.push_back(Output::ToWorker(true, ToWorker::RelayControl(id, c)));
            assert(outs(queue@) =~= q0 + relay_out(id, o@));
        },
        GenericRelayOutput::RouteChanged(a) => {
            queue.push_back(Output::Event(a, Event(id.0, ChannelEvent::RouteChanged(id.1))));
            assert(outs(queue@) =~= q0 + relay_out(id, o@));
        },
        GenericRelayOutput::Feedback(actors, fb) => {
            let mut j: usize = 0;
            while j < actors.len()
                invariant
                    j <= actors@.len(),
                    outs(queue@) == q0 + feedback_events(actors@.take(j as int), id.0, fb),
                decreases actors@.len() - j,
            {
                let ghost qb = queue@;
                queue.push_back(Output::Event(actors[j], Event(id.0, ChannelEvent::FeedbackData(fb))));
                proof {
                    assert(actors@.take(j + 1) =~= actors@.take(j as int).push(actors@[j as int]));
                    assert(feedback_events(actors@.take(j + 1), id.0, fb) =~= feedback_events(actors@.take(j as int), id.0, fb).push(
                        OutputView::Event(actors@[j as int], (id.0, ChannelEventView::FeedbackData(fb))),
                    ));
                    assert(outs(queue@) =~= outs(qb).push(OutputView::Event(actors@[j as int], (id.0, ChannelEventView::FeedbackData(fb)))));
                }
                assert(outs(queue@) =~= q0 + feedback_events(actors@.take(j + 1), id.0, fb));
                j = j + 1;
            }
            assert(actors@.take(j as int) =~= actors@);
        },
    }
}

/// Moves every output of `relay` to `queue`.
fn drain_relay(id: RelayId, relay: &mut Relay, queue: &mut VecDeque<Output>)
    requires
        old(relay).wf(),
    ensures
        final(relay).wf(),
        final(relay)@ == relay_drained(old(relay)@),
        outs(final(queue)@) == outs(old(queue)@) + relay_outs(id, relay_pending(old(relay)@)),
{
    let ghost r0 = relay@;
    let ghost q0 = outs(queue@);
    loop
        invariant
            relay.wf(),
            relay_drained(relay@) == relay_drained(r0),
            q0 + relay_outs(id, relay_pending(r0)) == outs(queue@) + relay_outs(id, relay_pending(relay@)),
        ensures
            relay.wf(),
            relay@ == relay_drained(r0),
            outs(queue@) == q0 + relay_outs(id, relay_pending(r0)),
        decreases relay_pending(relay@).len(),
    {
        let ghost rb = relay@;
        let ghost qb = outs(queue@);
        match relay.pop_output() {
            None => {
                proof {
                    assert(relay_outs(id, relay_pending(rb)) =~= Seq::empty());
                    assert(outs(queue@) =~= q0 + relay_outs(id, relay_pending(r0)));
                    match rb {
                        RelayView::Local(l) => {
                            assert(l.feedbacks.queue.len() == 0) by {
                                assert(relay_pending(rb).len() >= l.feedbacks.queue.len());
                            }
                            assert(l.feedbacks.queue =~= Seq::empty());
                            assert(l.consumers.queue =~= Seq::empty());
                            assert(relay_drained(rb) =~~= rb);
                        },
                        RelayView::Remote(x) => {
                            assert(x.queue =~= Seq::empty());
                            assert(relay_drained(rb) =~~= rb);
                        },
                    }
                }
                break;
            },
            Some(o) => {
                push_relay_out(id, o, queue);
                proof {
                    let p = relay_pending(rb);
                    assert(relay_outs(id, p) == relay_out(id, p[0]) + relay_outs(id, p.drop_first()));
                    assert(qb + relay_outs(id, p) =~= outs(queue@) + relay_outs(id, relay_pending(relay@)));
                }
            },
        }
    }
}

/// Mathematical state of a [`PubSubFeature`]: the relays and the source hints, each in the
/// order they were created, and the outputs not yet handed out.
pub struct PubSubView {
    pub relays: Seq<(RelayId, RelayView)>,
    pub hints: Seq<(ChannelId, SourceHintState)>,
    pub queue: Seq<OutputView>,
}

/// The pubsub feature on the controller.
pub struct PubSubFeature {
    relays: Vec<(RelayId, Relay)>,
    hints: Vec<(ChannelId, SourceHintLogic)>,
    queue: VecDeque<Output>,
}

pub open spec fn relays_view(v: Seq<(RelayId, Relay)>) -> Seq<(RelayId, RelayView)> {
    v.map_values(|p: (RelayId, Relay)| (p.0, p.1@))
}

pub open spec fn hints_view(v: Seq<(ChannelId, SourceHintLogic)>) -> Seq<(ChannelId, SourceHintState)> {
    v.map_values(|p: (ChannelId, SourceHintLogic)| (p.0, p.1@))
}

impl View for PubSubFeature {
    type V = PubSubView;

    closed spec fn view(&self) -> PubSubView {
        PubSubView { relays: relays_view(self.relays@), hints: hints_view(self.hints@), queue: outs(self.queue@) }
    }
}

/// A fresh relay for `id`: local when this node (`node_id`) is the source, remote with the
/// node's `session` otherwise.
pub open spec fn new_relay(node_id: NodeId, session: u64, id: RelayId) -> RelayView {
    if id.1 == node_id {
        RelayView::Local(
            LocalRelayView {
                consumers: ConsumersView { remotes: Seq::empty(), locals: Seq::empty(), queue: Seq::empty() },
                feedbacks: AggView { kinds: Seq::empty(), queue: Seq::empty() },
                publishers: Seq::empty(),
            },
        )
    } else {
        RelayView::Remote(RemoteRelayView { uuid: session, state: RelayStateView::New, queue: Seq::empty() })
    }
}

/// The fresh source hints of a channel.
pub open spec fn new_hint(node_id: NodeId, session: u64) -> SourceHintState {
    SourceHintState {
        node_id,
        session_id: session,
        remote_sources: Seq::empty(),
        remote_subscribers: Seq::empty(),
        local_sources: Seq::empty(),
        local_subscribers: Seq::empty(),
        next_hop: None,
        queue: Seq::empty(),
    }
}

/// `s` with a relay for `id`, created if missing.
pub open spec fn with_relay(s: PubSubView, node_id: NodeId, session: u64, id: RelayId) -> PubSubView {
    if has_key(s.relays, id) {
        s
    } else {
        PubSubView { relays: s.relays.push((id, new_relay(node_id, session, id))), ..s }
    }
}

/// `s` with source hints for `channel`, created if missing.
pub open spec fn with_hint(s: PubSubView, node_id: NodeId, session: u64, channel: ChannelId) -> PubSubView {
    if has_key(s.hints, channel) {
        s
    } else {
        PubSubView { hints: s.hints.push((channel, new_hint(node_id, session))), ..s }
    }
}

/// The relay `id` of `s` becomes `r`, whose outputs go to the queue.
pub open spec fn put_relay(s: PubSubView, id: RelayId, r: RelayView) -> PubSubView {
    PubSubView {
        relays: s.relays.update(key_index(s.relays, id), (id, relay_drained(r))),
        queue: s.queue + relay_outs(id, relay_pending(r)),
        ..s
    }
}

/// `s` without the relay `id` if that one is done.
pub open spec fn clear_relay(s: PubSubView, id: RelayId) -> PubSubView {
    if has_key(s.relays, id) && relay_done(value_of(s.relays, id)) {
        PubSubView { relays: without_key(s.relays, id), ..s }
    } else {
        s
    }
}

/// A local actor subscribes to the relay `id`, which is created if needed.
pub open spec fn sub_source_spec(s: PubSubView, node_id: NodeId, session: u64, id: RelayId, actor: FeatureControlActor) -> PubSubView {
    let s1 = with_relay(s, node_id, session, id);
    put_relay(s1, id, relay_local_sub(value_of(s1.relays, id), actor))
}

/// A local actor unsubscribes from the relay `id`; the relay is dropped once done, and an
/// unknown relay is left alone.
pub open spec fn unsub_source_spec(s: PubSubView, now: u64, id: RelayId, actor: FeatureControlActor) -> PubSubView {
    if has_key(s.relays, id) {
        clear_relay(put_relay(s, id, relay_local_unsub(value_of(s.relays, id), now, actor)), id)
    } else {
        s
    }
}

/// A control from the neighbour `remote` for the relay `id`: a subscription creates the
/// relay if needed; the relay is dropped once done, and one that is unknown is left alone.
pub open spec fn relay_control_spec(
    s: PubSubView,
    node_id: NodeId,
    session: u64,
    now: u64,
    remote: PeerAddr,
    id: RelayId,
    control: RelayControl,
) -> PubSubView {
    let s1 = if control is Sub {
        with_relay(s, node_id, session, id)
    } else {
        s
    };
    if has_key(s1.relays, id) {
        clear_relay(put_relay(s1, id, relay_on_remote(value_of(s1.relays, id), now, remote, control)), id)
    } else {
        s1
    }
}

/// A feedback of a local actor for the relay `id`, if that one exists.
pub open spec fn feedback_relay_spec(s: PubSubView, now: u64, id: RelayId, actor: FeatureControlActor, fb: Feedback) -> PubSubView {
    if has_key(s.relays, id) {
        put_relay(s, id, relay_local_feedback(value_of(s.relays, id), now, actor, fb))
    } else {
        s
    }
}

/// Events carrying `data` published by `source` on `channel` to each of `locals`.
pub open spec fn data_events(locals: Seq<FeatureControlActor>, channel: ChannelId, source: NodeId, data: Seq<u8>) -> Seq<OutputView> {
    locals.map_values(|a: FeatureControlActor| OutputView::Event(a, (channel, ChannelEventView::SourceData(source, data))))
}

/// Data published on `channel` by a local actor goes to the local subscribers of this
/// node's relay for the channel, and to the workers when a remote consumer exists; without
/// such a relay, or with one that has no consumers, it is dropped.
pub open spec fn pub_data_spec(s: PubSubView, node_id: NodeId, channel: ChannelId, data: Seq<u8>) -> PubSubView {
    let id = RelayId(channel, node_id);
    if has_key(s.relays, id) {
        match relay_dests(value_of(s.relays, id)) {
            Some((locals, has_remote)) => PubSubView {
                queue: s.queue + data_events(locals, channel, node_id, data) + if has_remote {
                    seq![OutputView::ToWorker(true, ToWorkerView::RelayData(id, data))]
                } else {
                    Seq::empty()
                },
                ..s
            },
            None => s,
        }
    } else {
        s
    }
}

/// What a source hint output of `channel` does: a message for a neighbour goes to the
/// workers; a source that starts or stops subscribes or unsubscribes the listed actors to
/// its relay.
pub open spec fn hint_out(s: PubSubView, node_id: NodeId, session: u64, now: u64, channel: ChannelId, o: HintOutputView) -> PubSubView {
    match o {
        HintOutputView::SendRemote(dest, m) => PubSubView {
            queue: s.queue.push(OutputView::ToWorker(true, ToWorkerView::SourceHint(channel, dest, m))),
            ..s
        },
        HintOutputView::SubscribeSource(actors, source) => subs_fold(s, node_id, session, RelayId(channel, source), actors),
        HintOutputView::UnsubscribeSource(actors, source) => unsubs_fold(s, now, RelayId(channel, source), actors),
    }
}

/// Each of `actors` subscribes to the relay `id`, in order.
pub open spec fn subs_fold(s: PubSubView, node_id: NodeId, session: u64, id: RelayId, actors: Seq<FeatureControlActor>) -> PubSubView
    decreases actors.len(),
{
    if actors.len() == 0 {
        s
    } else {
        subs_fold(sub_source_spec(s, node_id, session, id, actors[0]), node_id, session, id, actors.drop_first())
    }
}

/// Each of `actors` unsubscribes from the relay `id`, in order.
pub open spec fn unsubs_fold(s: PubSubView, now: u64, id: RelayId, actors: Seq<FeatureControlActor>) -> PubSubView
    decreases actors.len(),
{
    if actors.len() == 0 {
        s
    } else {
        unsubs_fold(unsub_source_spec(s, now, id, actors[0]), now, id, actors.drop_first())
    }
}

/// The source hint outputs `q` of `channel`, carried out in order.
pub open spec fn hint_outs(s: PubSubView, node_id: NodeId, session: u64, now: u64, channel: ChannelId, q: Seq<HintOutputView>) -> PubSubView
    decreases q.len(),
{
    if q.len() == 0 {
        s
    } else {
        hint_outs(hint_out(s, node_id, session, now, channel, q[0]), node_id, session, now, channel, q.drop_first())
    }
}

/// The source hints of `channel` (present in `s`) become `h`, whose outputs are then
/// carried out.
pub open spec fn put_hint(s: PubSubView, node_id: NodeId, session: u64, now: u64, channel: ChannelId, h: SourceHintState) -> PubSubView {
    let s1 = PubSubView { hints: s.hints.update(key_index(s.hints, channel), (channel, SourceHintState { queue: Seq::empty(), ..h })), ..s };
    hint_outs(s1, node_id, session, now, channel, h.queue)
}

/// The source hints of a channel know of nothing and can be dropped.
pub open spec fn hint_done(h: SourceHintState) -> bool {
    h.local_sources.len() == 0 && h.remote_sources.len() == 0 && h.local_subscribers.len() == 0 && h.remote_subscribers.len() == 0
}

/// `s` without the source hints of `channel` if those are done.
pub open spec fn clear_hint(s: PubSubView, channel: ChannelId) -> PubSubView {
    if has_key(s.hints, channel) && hint_done(value_of(s.hints, channel)) {
        PubSubView { hints: without_key(s.hints, channel), ..s }
    } else {
        s
    }
}

/// A local actor's command on the source hints of `channel`, created first if `create`;
/// without them nothing happens.
pub open spec fn hint_local_cmd(
    s: PubSubView,
    node_id: NodeId,
    session: u64,
    now: u64,
    actor: FeatureControlActor,
    channel: ChannelId,
    cmd: LocalCmd,
    create: bool,
) -> PubSubView {
    let s1 = if create {
        with_hint(s, node_id, session, channel)
    } else {
        s
    };
    if has_key(s1.hints, channel) {
        put_hint(s1, node_id, session, now, channel, hint_local_spec(value_of(s1.hints, channel), actor, cmd))
    } else {
        s1
    }
}

/// A source hint message from the neighbour `remote` on `channel`: a registration or a
/// subscription creates the channel's hints if needed; they are dropped once done, and an
/// unknown channel is left alone.
pub open spec fn hint_remote_cmd(
    s: PubSubView,
    node_id: NodeId,
    session: u64,
    now: u64,
    remote: PeerAddr,
    channel: ChannelId,
    m: SourceHintView,
) -> PubSubView {
    let s1 = if m is Register || m is Subscribe {
        with_hint(s, node_id, session, channel)
    } else {
        s
    };
    if has_key(s1.hints, channel) {
        clear_hint(put_hint(s1, node_id, session, now, channel, hint_remote_spec(value_of(s1.hints, channel), now, remote, m)), channel)
    } else {
        s1
    }
}

/// A feedback of a local actor goes to the relays of `channel` from each of `srcs`, in order.
pub open spec fn feedback_fold(s: PubSubView, now: u64, actor: FeatureControlActor, channel: ChannelId, fb: Feedback, srcs: Seq<NodeId>) -> PubSubView
    decreases srcs.len(),
{
    if srcs.len() == 0 {
        s
    } else {
        feedback_fold(feedback_relay_spec(s, now, RelayId(channel, srcs[0]), actor, fb), now, actor, channel, fb, srcs.drop_first())
    }
}

/// Whether each relay reached by [`feedback_fold`] can merge the feedback.
pub open spec fn feedback_fold_ok(s: PubSubView, now: u64, actor: FeatureControlActor, channel: ChannelId, fb: Feedback, srcs: Seq<NodeId>) -> bool
    decreases srcs.len(),
{
    if srcs.len() == 0 {
        true
    } else {
        let id = RelayId(channel, srcs[0]);
        &&& has_key(s.relays, id) ==> relay_accepts(value_of(s.relays, id), now, FeedbackSource::Local(actor), fb)
        &&& feedback_fold_ok(feedback_relay_spec(s, now, id, actor, fb), now, actor, channel, fb, srcs.drop_first())
    }
}

/// A feedback of a local actor on `channel` goes to the relays of the channel's known
/// sources; without source hints for the channel nothing happens.
pub open spec fn feedback_auto_spec(s: PubSubView, now: u64, actor: FeatureControlActor, channel: ChannelId, fb: Feedback) -> PubSubView {
    if has_key(s.hints, channel) {
        feedback_fold(s, now, actor, channel, fb, sources_spec(value_of(s.hints, channel)))
    } else {
        s
    }
}

pub open spec fn feedback_auto_ok(s: PubSubView, now: u64, actor: FeatureControlActor, channel: ChannelId, fb: Feedback) -> bool {
    has_key(s.hints, channel) ==> feedback_fold_ok(s, now, actor, channel, fb, sources_spec(value_of(s.hints, channel)))
}

proof fn lemma_subs_frame(s: PubSubView, h: Seq<(ChannelId, SourceHintState)>, node_id: NodeId, session: u64, id: RelayId, actors: Seq<FeatureControlActor>)
    ensures
        subs_fold(PubSubView { hints: h, ..s }, node_id, session, id, actors) == (PubSubView { hints: h, ..subs_fold(s, node_id, session, id, actors) }),
    decreases actors.len(),
{
    if actors.len() > 0 {
        let t = sub_source_spec(s, node_id, session, id, actors[0]);
        assert(sub_source_spec(PubSubView { hints: h, ..s }, node_id, session, id, actors[0]) == (PubSubView { hints: h, ..t }));
        lemma_subs_frame(t, h, node_id, session, id, actors.drop_first());
    }
}

proof fn lemma_unsubs_frame(s: PubSubView, h: Seq<(ChannelId, SourceHintState)>, now: u64, id: RelayId, actors: Seq<FeatureControlActor>)
    ensures
        unsubs_fold(PubSubView { hints: h, ..s }, now, id, actors) == (PubSubView { hints: h, ..unsubs_fold(s, now, id, actors) }),
    decreases actors.len(),
{
    if actors.len() > 0 {
        let t = unsub_source_spec(s, now, id, actors[0]);
        assert(unsub_source_spec(PubSubView { hints: h, ..s }, now, id, actors[0]) == (PubSubView { hints: h, ..t }));
        lemma_unsubs_frame(t, h, now, id, actors.drop_first());
    }
}

/// Carrying out a hint output changes neither the source hints nor depends on them.
proof fn lemma_hint_out_frame(s: PubSubView, h: Seq<(ChannelId, SourceHintState)>, node_id: NodeId, session: u64, now: u64, channel: ChannelId, o: HintOutputView)
    ensures
        hint_out(PubSubView { hints: h, ..s }, node_id, session, now, channel, o) == (PubSubView {
            hints: h,
            ..hint_out(s, node_id, session, now, channel, o)
        }),
        hint_out(s, node_id, session, now, channel, o).hints == s.hints,
{
    match o {
        HintOutputView::SubscribeSource(actors, source) => {
            lemma_subs_frame(s, h, node_id, session, RelayId(channel, source), actors);
            lemma_subs_frame(s, s.hints, node_id, session, RelayId(channel, source), actors);
        },
        HintOutputView::UnsubscribeSource(actors, source) => {
            lemma_unsubs_frame(s, h, now, RelayId(channel, source), actors);
            lemma_unsubs_frame(s, s.hints, now, RelayId(channel, source), actors);
        },
        _ => {},
    }
}

proof fn lemma_hint_outs_frame(s: PubSubView, h: Seq<(ChannelId, SourceHintState)>, node_id: NodeId, session: u64, now: u64, channel: ChannelId, q: Seq<HintOutputView>)
    ensures
        hint_outs(PubSubView { hints: h, ..s }, node_id, session, now, channel, q) == (PubSubView {
            hints: h,
            ..hint_outs(s, node_id, session, now, channel, q)
        }),
        hint_outs(s, node_id, session, now, channel, q).hints == s.hints,
    decreases q.len(),
{
    if q.len() > 0 {
        lemma_hint_out_frame(s, h, node_id, session, now, channel, q[0]);
        let t = hint_out(s, node_id, session, now, channel, q[0]);
        lemma_hint_outs_frame(t, h, node_id, session, now, channel, q.drop_first());
        lemma_hint_outs_frame(t, t.hints, node_id, session, now, channel, q.drop_first());
    }
}

/// The relays after the connection to `remote` closed, in order, with the outputs they hand out.
pub open spec fn disc_relays(rs: Seq<(RelayId, RelayView)>, now: u64, remote: PeerAddr) -> (Seq<(RelayId, RelayView)>, Seq<OutputView>)
    decreases rs.len(),
{
    if rs.len() == 0 {
        (Seq::empty(), Seq::empty())
    } else {
        let (r0, q0) = disc_relays(rs.drop_last(), now, remote);
        let (id, r) = rs.last();
        let r2 = relay_disconnected(r, now, remote);
        (r0.push((id, relay_drained(r2))), q0 + relay_outs(id, relay_pending(r2)))
    }
}

/// The connection to `remote` closed: each relay learns of it, in order.
pub open spec fn disconnected_spec(s: PubSubView, now: u64, remote: PeerAddr) -> PubSubView {
    let (rs, q) = disc_relays(s.relays, now, remote);
    PubSubView { relays: rs, queue: s.queue + q, ..s }
}

proof fn lemma_put_hint_hints(s: PubSubView, node_id: NodeId, session: u64, now: u64, channel: ChannelId, h: SourceHintState)
    ensures
        put_hint(s, node_id, session, now, channel, h).hints == s.hints.update(
            key_index(s.hints, channel),
            (channel, SourceHintState { queue: Seq::empty(), ..h }),
        ),
{
    let s1 = PubSubView { hints: s.hints.update(key_index(s.hints, channel), (channel, SourceHintState { queue: Seq::empty(), ..h })), ..s };
    lemma_hint_outs_frame(s1, s1.hints, node_id, session, now, channel, h.queue);
}

/// The relays after a tick, in order, with the outputs they hand out: one that was done
/// is dropped, the others tick.
pub open spec fn tick_relays(rs: Seq<(RelayId, RelayView)>, now: u64) -> (Seq<(RelayId, RelayView)>, Seq<OutputView>)
    decreases rs.len(),
{
    if rs.len() == 0 {
        (Seq::empty(), Seq::empty())
    } else {
        let (r0, q0) = tick_relays(rs.drop_last(), now);
        let (id, r) = rs.last();
        if relay_done(r) {
            (r0, q0)
        } else {
            let r2 = relay_tick(r, now);
            (r0.push((id, relay_drained(r2))), q0 + relay_outs(id, relay_pending(r2)))
        }
    }
}

/// The source hints after a tick, in order: those that were done are dropped, the others tick.
pub open spec fn tick_hints(hs: Seq<(ChannelId, SourceHintState)>, now: u64) -> Seq<(ChannelId, SourceHintState)>
    decreases hs.len(),
{
    if hs.len() == 0 {
        Seq::empty()
    } else {
        let rest = tick_hints(hs.drop_last(), now);
        let (c, h) = hs.last();
        if hint_done(h) {
            rest
        } else {
            rest.push((c, hint_tick_spec(h, now)))
        }
    }
}

/// The outputs of the source hints of each of `chans`, carried out in order.
pub open spec fn run_hints(s: PubSubView, node_id: NodeId, session: u64, now: u64, chans: Seq<ChannelId>) -> PubSubView
    decreases chans.len(),
{
    if chans.len() == 0 {
        s
    } else {
        run_hints(put_hint(s, node_id, session, now, chans[0], value_of(s.hints, chans[0])), node_id, session, now, chans.drop_first())
    }
}

pub open spec fn channels_of(hs: Seq<(ChannelId, SourceHintState)>) -> Seq<ChannelId> {
    hs.map_values(|p: (ChannelId, SourceHintState)| p.0)
}

/// A tick: the relays tick (those done are dropped), then the source hints tick (those done
/// are dropped) and what they output is carried out, channel after channel.
pub open spec fn tick_spec(s: PubSubView, node_id: NodeId, session: u64, now: u64) -> PubSubView {
    let (rs, q) = tick_relays(s.relays, now);
    let hs = tick_hints(s.hints, now);
    run_hints(PubSubView { relays: rs, hints: hs, queue: s.queue + q }, node_id, session, now, channels_of(hs))
}

/// No source hint has seen a neighbour later than `now`.
pub open spec fn hints_seen_by(hs: Seq<(ChannelId, SourceHintState)>, now: u64) -> bool {
    forall|i: int| 0 <= i < hs.len() ==> seen_by((#[trigger] hs[i]).1.remote_sources, now) && seen_by(hs[i].1.remote_subscribers, now)
}

proof fn lemma_tick_relays_keys(rs: Seq<(RelayId, RelayView)>, now: u64, id: RelayId)
    ensures
        has_key(tick_relays(rs, now).0, id) ==> has_key(rs, id),
    decreases rs.len(),
{
    if rs.len() > 0 {
        lemma_tick_relays_keys(rs.drop_last(), now, id);
        let t = tick_relays(rs, now).0;
        if has_key(t, id) {
            let k = choose|k: int| 0 <= k < t.len() && #[trigger] t[k].0 == id;
            let r0 = tick_relays(rs.drop_last(), now).0;
            if k < r0.len() {
                assert(t[k] == r0[k]);
                assert(has_key(r0, id));
                let m = choose|m: int| 0 <= m < rs.drop_last().len() && #[trigger] rs.drop_last()[m].0 == id;
                assert(rs[m].0 == id);
            } else {
                assert(rs[rs.len() - 1].0 == id);
            }
        }
    }
}

proof fn lemma_tick_hints_keys(hs: Seq<(ChannelId, SourceHintState)>, now: u64, c: ChannelId)
    ensures
        has_key(tick_hints(hs, now), c) ==> has_key(hs, c),
    decreases hs.len(),
{
    if hs.len() > 0 {
        lemma_tick_hints_keys(hs.drop_last(), now, c);
        let t = tick_hints(hs, now);
        if has_key(t, c) {
            let k = choose|k: int| 0 <= k < t.len() && #[trigger] t[k].0 == c;
            let r0 = tick_hints(hs.drop_last(), now);
            if k < r0.len() {
                assert(t[k] == r0[k]);
                assert(has_key(r0, c));
                let m = choose|m: int| 0 <= m < hs.drop_last().len() && #[trigger] hs.drop_last()[m].0 == c;
                assert(hs[m].0 == c);
            } else {
                assert(hs[hs.len() - 1].0 == c);
            }
        }
    }
}

/// An input of the controller: a message a worker received from a neighbour, or a control
/// of a local actor.
#[derive(Debug, PartialEq, Eq)]
pub enum FeatureInput {
    FromWorker(ToController),
    Control(FeatureControlActor, Control),
}

/// Mathematical form of [`FeatureInput`].
pub enum FeatureInputView {
    FromWorker(ToControllerView),
    Control(FeatureControlActor, (ChannelId, ChannelControlView)),
}

impl View for FeatureInput {
    type V = FeatureInputView;

    open spec fn view(&self) -> FeatureInputView {
        match self {
            FeatureInput::FromWorker(m) => FeatureInputView::FromWorker(m@),
            FeatureInput::Control(a, c) => FeatureInputView::Control(*a, c@),
        }
    }
}

/// A control of a local actor on `channel`: subscribing, unsubscribing, starting and
/// stopping to publish go through the channel's source hints (created by subscribing and
/// publishing); a feedback goes to the relays of the known sources; subscribing to or
/// unsubscribing from a given source goes to that relay; data goes to the consumers of this
/// node's relay.
pub open spec fn local_spec(
    s: PubSubView,
    node_id: NodeId,
    session: u64,
    now: u64,
    actor: FeatureControlActor,
    channel: ChannelId,
    control: ChannelControlView,
) -> PubSubView {
    match control {
        ChannelControlView::SubAuto => hint_local_cmd(s, node_id, session, now, actor, channel, LocalCmd::Subscribe, true),
        ChannelControlView::FeedbackAuto(fb) => feedback_auto_spec(s, now, actor, channel, fb),
        ChannelControlView::UnsubAuto => hint_local_cmd(s, node_id, session, now, actor, channel, LocalCmd::Unsubscribe, false),
        ChannelControlView::SubSource(source) => sub_source_spec(s, node_id, session, RelayId(channel, source), actor),
        ChannelControlView::UnsubSource(source) => unsub_source_spec(s, now, RelayId(channel, source), actor),
        ChannelControlView::PubStart => hint_local_cmd(s, node_id, session, now, actor, channel, LocalCmd::Register, true),
        ChannelControlView::PubData(data) => pub_data_spec(s, node_id, channel, data),
        ChannelControlView::PubStop => hint_local_cmd(s, node_id, session, now, actor, channel, LocalCmd::Unregister, false),
    }
}

/// What an input does, on the node `node_id` with session `session`.
pub open spec fn input_spec(s: PubSubView, node_id: NodeId, session: u64, now: u64, input: FeatureInputView) -> PubSubView {
    match input {
        FeatureInputView::FromWorker(ToControllerView::RelayControl(remote, id, control)) => relay_control_spec(
            s,
            node_id,
            session,
            now,
            remote,
            id,
            control,
        ),
        FeatureInputView::FromWorker(ToControllerView::SourceHint(remote, channel, m)) => hint_remote_cmd(s, node_id, session, now, remote, channel, m),
        FeatureInputView::Control(actor, (channel, control)) => local_spec(s, node_id, session, now, actor, channel, control),
    }
}

/// Whether the feedback an input carries can be merged into the relays it reaches without
/// overflow.
pub open spec fn input_ok(s: PubSubView, now: u64, input: FeatureInputView) -> bool {
    match input {
        FeatureInputView::FromWorker(ToControllerView::RelayControl(remote, id, control)) => control is Feedback && has_key(s.relays, id)
            ==> relay_accepts(value_of(s.relays, id), now, FeedbackSource::Remote(remote), control->Feedback_0),
        FeatureInputView::Control(actor, (channel, ChannelControlView::FeedbackAuto(fb))) => feedback_auto_ok(s, now, actor, channel, fb),
        _ => true,
    }
}

impl PubSubFeature {
    /// The invariant: each relay and each channel occurs once, and each relay and source
    /// hint state is valid.
    pub closed spec fn wf(&self) -> bool {
        &&& unique_keys(self@.relays)
        &&& unique_keys(self@.hints)
        &&& forall|i: int| 0 <= i < self.relays@.len() ==> (#[trigger] self.relays@[i]).1.wf()
        &&& forall|i: int| 0 <= i < self.hints@.len() ==> (#[trigger] self.hints@[i]).1.wf()
    }

    /// A controller without relays, source hints or outputs.
    pub fn new() -> (r: Self)
        ensures
            r.wf(),
            r@ == (PubSubView { relays: Seq::empty(), hints: Seq::empty(), queue: Seq::empty() }),
    {
        let r = PubSubFeature { relays: Vec::new(), hints: Vec::new(), queue: VecDeque::new() };
        assert(r@.relays =~= Seq::empty());
        assert(r@.hints =~= Seq::empty());
        assert(r@.queue =~= Seq::empty());
        r
    }

    fn find_relay(&self, id: RelayId) -> (r: Option<usize>)
        requires
            self.wf(),
        ensures
            match r {
                Some(i) => has_key(self@.relays, id) && i == key_index(self@.relays, id) && i < self@.relays.len(),
                None => !has_key(self@.relays, id),
            },
    {
        let mut i: usize = 0;
        while i < self.relays.len()
            invariant
                self.wf(),
                i <= self.relays@.len(),
                forall|j: int| 0 <= j < i ==> self@.relays[j].0 != id,
            decreases self.relays@.len() - i,
        {
            if self.relays[i].0 == id {
                proof {
                    assert(self@.relays[i as int].0 == id);
                    lemma_key_index(self@.relays, id, i as int);
                }
                return Some(i);
            }
            assert(self@.relays[i as int].0 != id);
            i = i + 1;
        }
        None
    }

    fn find_hint(&self, channel: ChannelId) -> (r: Option<usize>)
        requires
            self.wf(),
        ensures
            match r {
                Some(i) => has_key(self@.hints, channel) && i == key_index(self@.hints, channel) && i < self@.hints.len(),
                None => !has_key(self@.hints, channel),
            },
    {
        let mut i: usize = 0;
        while i < self.hints.len()
            invariant
                self.wf(),
                i <= self.hints@.len(),
                forall|j: int| 0 <= j < i ==> self@.hints[j].0 != channel,
            decreases self.hints@.len() - i,
        {
            if self.hints[i].0 == channel {
                proof {
                    assert(self@.hints[i as int].0 == channel);
                    lemma_key_index(self@.hints, channel, i as int);
                }
                return Some(i);
            }
            assert(self@.hints[i as int].0 != channel);
            i = i + 1;
        }
        None
    }

    /// The place of relay `id`, created if missing.
    fn ensure_relay(&mut self, node_id: NodeId, session: u64, id: RelayId) -> (i: usize)
        requires
            old(self).wf(),
        ensures
            final(self).wf(),
            final(self)@ == with_relay(old(self)@, node_id, session, id),
            has_key(final(self)@.relays, id),
            i == key_index(final(self)@.relays, id),
            i < final(self)@.relays.len(),
    {
        match self.find_relay(id) {
            Some(i) => i,
            None => {
                let ghost s0 = self@;
                let relay = if id.1 == node_id {
                    Relay::Local(LocalRelay::new())
                } else {
                    Relay::Remote(RemoteRelay::new(session))
                };
                assert(relay@ == new_relay(node_id, session, id)) by {
                    if id.1 == node_id {
                        assert(relay@ =~~= new_relay(node_id, session, id));
                    }
                }
                self.relays.push((id, relay));
                let i = self.relays.len() - 1;
                proof {
                    assert(self@.relays =~= s0.relays.push((id, new_relay(node_id, session, id))));
                    lemma_push_unique(s0.relays, id, new_relay(node_id, session, id));
                    assert(self@.relays[i as int].0 == id);
                    lemma_key_index(self@.relays, id, i as int);
                }
                i
            },
        }
    }

    /// The place of the source hints of `channel`, created if missing.
    fn ensure_hint(&mut self, node_id: NodeId, session: u64, channel: ChannelId) -> (i: usize)
        requires
            old(self).wf(),
        ensures
            final(self).wf(),
            final(self)@ == with_hint(old(self)@, node_id, session, channel),
            has_key(final(self)@.hints, channel),
            i == key_index(final(self)@.hints, channel),
            i < final(self)@.hints.len(),
    {
        match self.find_hint(channel) {
            Some(i) => i,
            None => {
                let ghost s0 = self@;
                let hint = SourceHintLogic::new(node_id, session);
                self.hints.push((channel, hint));
                let i = self.hints.len() - 1;
                proof {
                    assert(self@.hints =~= s0.hints.push((channel, new_hint(node_id, session))));
                    lemma_push_unique(s0.hints, channel, new_hint(node_id, session));
                    assert(self@.hints[i as int].0 == channel);
                    lemma_key_index(self@.hints, channel, i as int);
                }
                i
            },
        }
    }

    /// Puts `relay` back at `i` as relay `id`, its outputs moved to the queue.
    fn restore_relay(&mut self, i: usize, id: RelayId, relay: Relay, Ghost(before): Ghost<Seq<(RelayId, Relay)>>)
        requires
            relay.wf(),
            i < before.len(),
            before[i as int].0 == id,
            old(self).relays@ == before.remove(i as int),
            unique_keys(relays_view(before)),
            unique_keys(old(self)@.hints),
            forall|j: int| 0 <= j < before.len() ==> (#[trigger] before[j]).1.wf(),
            forall|j: int| 0 <= j < old(self).hints@.len() ==> (#[trigger] old(self).hints@[j]).1.wf(),
        ensures
            final(self).wf(),
            final(self)@ == (PubSubView {
                relays: relays_view(before).update(i as int, (id, relay_drained(relay@))),
                queue: old(self)@.queue + relay_outs(id, relay_pending(relay@)),
                ..old(self)@
            }),
    {
        let mut relay = relay;
        let ghost r0 = relay@;
        drain_relay(id, &mut relay, &mut self.queue);
        self.relays.insert(i, (id, relay));
        proof {
            assert(self.relays@ =~= before.update(i as int, (id, relay)));
            assert(self@.relays =~= relays_view(before).update(i as int, (id, relay_drained(r0))));
            lemma_update_unique(relays_view(before), i as int, relay_drained(r0));
            assert forall|j: int| 0 <= j < self.relays@.len() implies (#[trigger] self.relays@[j]).1.wf() by {
                if j != i {
                    assert(self.relays@[j] == before[j]);
                }
            }
        }
    }

    /// A local actor subscribes to the relay `id`.
    fn sub_source(&mut self, node_id: NodeId, session: u64, now: u64, id: RelayId, actor: FeatureControlActor)
        requires
            old(self).wf(),
        ensures
            final(self).wf(),
            final(self)@ == sub_source_spec(old(self)@, node_id, session, id, actor),
    {
        let i = self.ensure_relay(node_id, session, id);
        let ghost before = self.relays@;
        let (k, mut relay) = self.relays.remove(i);
        proof {
            assert(relays_view(before)[i as int] == (k, relay@));
            lemma_key_index(relays_view(before), id, i as int);
        }
        relay.on_local_sub(now, actor);
        self.restore_relay(i, id, relay, Ghost(before));
    }

    /// Drops the relay at `i`, which is relay `id`, if it is done.
    fn clear_relay_at(&mut self, i: usize, id: RelayId)
        requires
            old(self).wf(),
            i < old(self)@.relays.len(),
            old(self)@.relays[i as int].0 == id,
        ensures
            final(self).wf(),
            final(self)@ == clear_relay(old(self)@, id),
    {
        let ghost s0 = self@;
        proof {
            lemma_key_index(s0.relays, id, i as int);
        }
        if self.relays[i].1.should_clear() {
            self.relays.remove(i);
            proof {
                assert(self@.relays =~= s0.relays.remove(i as int));
                lemma_remove_unique(s0.relays, i as int);
                assert forall|j: int| 0 <= j < self.relays@.len() implies (#[trigger] self.relays@[j]).1.wf() by {
                    if j < i {
                        assert(self.relays@[j] == old(self).relays@[j]);
                    } else {
                        assert(self.relays@[j] == old(self).relays@[j + 1]);
                    }
                }
            }
        }
    }

    /// A local actor unsubscribes from the relay `id`.
    fn unsub_source(&mut self, now: u64, id: RelayId, actor: FeatureControlActor)
        requires
            old(self).wf(),
            now <= TIME_LIMIT_MS,
        ensures
            final(self).wf(),
            final(self)@ == unsub_source_spec(old(self)@, now, id, actor),
    {
        if let Some(i) = self.find_relay(id) {
            let ghost before = self.relays@;
            let (k, mut relay) = self.relays.remove(i);
            proof {
                assert(relays_view(before)[i as int] == (k, relay@));
            }
            relay.on_local_unsub(now, actor);
            self.restore_relay(i, id, relay, Ghost(before));
            self.clear_relay_at(i, id);
        }
    }

    /// A control from the neighbour `remote` for the relay `id`.
    fn relay_control(&mut self, node_id: NodeId, session: u64, now: u64, remote: PeerAddr, id: RelayId, control: RelayControl)
        requires
            old(self).wf(),
            now <= TIME_LIMIT_MS,
            control is Feedback && has_key(old(self)@.relays, id) ==> relay_accepts(
                value_of(old(self)@.relays, id),
                now,
                FeedbackSource::Remote(remote),
                control->Feedback_0,
            ),
        ensures
            final(self).wf(),
            final(self)@ == relay_control_spec(old(self)@, node_id, session, now, remote, id, control),
    {
        let found = if control.should_create() {
            Some(self.ensure_relay(node_id, session, id))
        } else {
            self.find_relay(id)
        };
        if let Some(i) = found {
            let ghost before = self.relays@;
            let (k, mut relay) = self.relays.remove(i);
            proof {
                assert(relays_view(before)[i as int] == (k, relay@));
            }
            relay.on_remote(now, remote, control);
            self.restore_relay(i, id, relay, Ghost(before));
            self.clear_relay_at(i, id);
        }
    }

    /// A feedback of a local actor for the relay `id`.
    fn feedback_relay(&mut self, now: u64, id: RelayId, actor: FeatureControlActor, fb: Feedback)
        requires
            old(self).wf(),
            now <= TIME_LIMIT_MS,
            has_key(old(self)@.relays, id) ==> relay_accepts(value_of(old(self)@.relays, id), now, FeedbackSource::Local(actor), fb),
        ensures
            final(self).wf(),
            final(self)@ == feedback_relay_spec(old(self)@, now, id, actor, fb),
    {
        if let Some(i) = self.find_relay(id) {
            let ghost before = self.relays@;
            let (k, mut relay) = self.relays.remove(i);
            proof {
                assert(relays_view(before)[i as int] == (k, relay@));
            }
            relay.on_local_feedback(now, actor, fb);
            self.restore_relay(i, id, relay, Ghost(before));
        }
    }

    /// Data published by a local actor on `channel`.
    fn pub_data(&mut self, node_id: NodeId, channel: ChannelId, data: Vec<u8>)
        requires
            old(self).wf(),
        ensures
            final(self).wf(),
            final(self)@ == pub_data_spec(old(self)@, node_id, channel, data@),
    {
        let id = RelayId(channel, node_id);
        if let Some(i) = self.find_relay(id) {
            let ghost s0 = self@;
            proof {
                assert(relays_view(self.relays@)[i as int] == (self.relays@[i as int].0, self.relays@[i as int].1@));
            }
            match self.relays[i].1.relay_dests() {
                Some((locals, has_remote)) => {
                    let mut j: usize = 0;
                    while j < locals.len()
                        invariant
                            j <= locals@.len(),
                            self.relays == old(self).relays,
                            self.hints == old(self).hints,
                            outs(self.queue@) == s0.queue + data_events(locals@.take(j as int), channel, node_id, data@),
                        decreases locals@.len() - j,
                    {
                        let ghost qb = self.queue@;
                        self.queue.push_back(Output::Event(locals[j], Event(channel, ChannelEvent::SourceData(node_id, copy_bytes(&data)))));
                        proof {
                            assert(locals@.take(j + 1) =~= locals@.take(j as int).push(locals@[j as int]));
                            assert(data_events(locals@.take(j + 1), channel, node_id, data@) =~= data_events(
                                locals@.take(j as int),
                                channel,
                                node_id,
                                data@,
                            ).push(OutputView::Event(locals@[j as int], (channel, ChannelEventView::SourceData(node_id, data@)))));
                            assert(outs(self.queue@) =~= outs(qb).push(
                                OutputView::Event(locals@[j as int], (channel, ChannelEventView::SourceData(node_id, data@))),
                            ));
                        }
                        j = j + 1;
                    }
                    proof {
                        assert(locals@.take(j as int) =~= locals@);
                    }
                    let ghost q1 = self.queue@;
                    let ghost d = data@;
                    proof {
                        assert(value_of(s0.relays, id) == self.relays@[i as int].1@);
                        assert(relay_dests(value_of(s0.relays, id)) == Some((locals@, has_remote)));
                    }
                    if has_remote {
                        self.queue.push_back(Output::ToWorker(true, ToWorker::RelayData(id, data)));
                        assert(outs(self.queue@) =~= outs(q1).push(OutputView::ToWorker(true, ToWorkerView::RelayData(id, d))));
                        assert(outs(self.queue@) =~= s0.queue + data_events(locals@, channel, node_id, d) + seq![
                            OutputView::ToWorker(true, ToWorkerView::RelayData(id, d)),
                        ]);
                    } else {
                        assert(outs(self.queue@) =~= s0.queue + data_events(locals@, channel, node_id, d) + Seq::empty());
                    }
                    assert(self@ =~~= pub_data_spec(s0, node_id, channel, d));
                },
                None => {},
            }
        }
    }

    /// Carries out the source hint output `o` of `channel`.
    fn apply_hint_out(&mut self, node_id: NodeId, session: u64, now: u64, channel: ChannelId, o: HintOutput)
        requires
            old(self).wf(),
            now <= TIME_LIMIT_MS,
        ensures
            final(self).wf(),
            final(self)@ == hint_out(old(self)@, node_id, session, now, channel, o@),
    {
        let ghost s0 = self@;
        let ghost ov = o@;
        match o {
            HintOutput::SendRemote(dest, m) => {
                let ghost mv = m@;
                let ghost q0 = self.queue@;
                self.queue.push_back(Output::ToWorker(true, ToWorker::SourceHint(channel, dest, m)));
                assert(outs(self.queue@) =~= outs(q0).push(OutputView::ToWorker(true, ToWorkerView::SourceHint(channel, dest, mv))));
                assert(self@ =~~= hint_out(s0, node_id, session, now, channel, ov));
            },
            HintOutput::SubscribeSource(actors, source) => {
                let id = RelayId(channel, source);
                let mut j: usize = 0;
                assert(actors@.subrange(0, actors@.len() as int) =~= actors@);
                while j < actors.len()
                    invariant
                        self.wf(),
                        j <= actors@.len(),
                        subs_fold(s0, node_id, session, id, actors@) == subs_fold(self@, node_id, session, id, actors@.subrange(j as int, actors@.len() as int)),
                    decreases actors@.len() - j,
                {
                    let ghost sb = self@;
                    self.sub_source(node_id, session, now, id, actors[j]);
                    proof {
                        let rest = actors@.subrange(j as int, actors@.len() as int);
                        assert(rest[0] == actors@[j as int]);
                        assert(rest.drop_first() =~= actors@.subrange(j + 1, actors@.len() as int));
                    }
                    j = j + 1;
                }
                assert(actors@.subrange(j as int, actors@.len() as int) =~= Seq::empty());
                assert(actors@.subrange(0, actors@.len() as int) =~= actors@);
            },
            HintOutput::UnsubscribeSource(actors, source) => {
                let id = RelayId(channel, source);
                let mut j: usize = 0;
                assert(actors@.subrange(0, actors@.len() as int) =~= actors@);
                while j < actors.len()
                    invariant
                        self.wf(),
                        j <= actors@.len(),
                        now <= TIME_LIMIT_MS,
                        unsubs_fold(s0, now, id, actors@) == unsubs_fold(self@, now, id, actors@.subrange(j as int, actors@.len() as int)),
                    decreases actors@.len() - j,
                {
                    self.unsub_source(now, id, actors[j]);
                    proof {
                        let rest = actors@.subrange(j as int, actors@.len() as int);
                        assert(rest[0] == actors@[j as int]);
                        assert(rest.drop_first() =~= actors@.subrange(j + 1, actors@.len() as int));
                    }
                    j = j + 1;
                }
                assert(actors@.subrange(j as int, actors@.len() as int) =~= Seq::empty());
                assert(actors@.subrange(0, actors@.len() as int) =~= actors@);
            },
        }
    }

    /// Carries out every pending output of the source hints at `i`, those of `channel`.
    fn run_hint(&mut self, node_id: NodeId, session: u64, now: u64, i: usize, channel: ChannelId)
        requires
            old(self).wf(),
            now <= TIME_LIMIT_MS,
            i < old(self)@.hints.len(),
            old(self)@.hints[i as int].0 == channel,
        ensures
            final(self).wf(),
            final(self)@ == put_hint(old(self)@, node_id, session, now, channel, old(self)@.hints[i as int].1),
    {
        let ghost target = put_hint(self@, node_id, session, now, channel, self@.hints[i as int].1);
        loop
            invariant
                self.wf(),
                now <= TIME_LIMIT_MS,
                i < self@.hints.len(),
                self@.hints[i as int].0 == channel,
                put_hint(self@, node_id, session, now, channel, self@.hints[i as int].1) == target,
            ensures
                self.wf(),
                self@ == target,
            decreases self@.hints[i as int].1.queue.len(),
        {
            let ghost sb = self@;
            proof {
                lemma_key_index(sb.hints, channel, i as int);
            }
            let ghost before = self.hints@;
            let (c, mut h) = self.hints.remove(i);
            let o = h.pop_output();
            self.hints.insert(i, (c, h));
            let ghost hb = sb.hints[i as int].1;
            proof {
                assert(self.hints@ =~= before.update(i as int, (c, h)));
                assert(self@.hints =~= sb.hints.update(i as int, (c, h@)));
                lemma_update_unique(sb.hints, i as int, h@);
                assert forall|j: int| 0 <= j < self.hints@.len() implies (#[trigger] self.hints@[j]).1.wf() by {
                    if j != i {
                        assert(self.hints@[j] == before[j]);
                    }
                }
                lemma_key_index(self@.hints, channel, i as int);
            }
            match o {
                None => {
                    proof {
                        assert(hb.queue.len() == 0);
                        assert(SourceHintState { queue: Seq::empty(), ..hb } == hb) by {
                            assert(hb.queue =~= Seq::empty());
                        }
                        assert(sb.hints.update(i as int, (channel, hb)) =~= sb.hints);
                        assert(sb =~~= self@);
                    }
                    break;
                },
                Some(o) => {
                    let ghost s1 = self@;
                    let ghost ov = o@;
                    self.apply_hint_out(node_id, session, now, channel, o);
                    proof {
                        let ha = h@;
                        assert(ov == hb.queue[0]);
                        assert(ha.queue == hb.queue.drop_first());
                        lemma_hint_out_frame(s1, s1.hints, node_id, session, now, channel, ov);
                        assert(self@.hints == s1.hints);
                        lemma_key_index(self@.hints, channel, i as int);
                        let drained_h = SourceHintState { queue: Seq::empty(), ..hb };
                        assert(SourceHintState { queue: Seq::empty(), ..ha } == drained_h);
                        let hs = sb.hints.update(i as int, (channel, drained_h));
                        assert(s1.hints.update(i as int, (channel, drained_h)) =~= hs);
                        let p = PubSubView { hints: hs, ..sb };
                        assert(PubSubView { hints: hs, ..s1 } == p) by {
                            assert(s1.relays == sb.relays);
                            assert(s1.queue == sb.queue);
                        }
                        lemma_hint_out_frame(s1, hs, node_id, session, now, channel, ov);
                        assert(hint_out(p, node_id, session, now, channel, ov) == (PubSubView { hints: hs, ..self@ }));
                    }
                },
            }
        }
    }

    /// A local actor's command on the source hints of `channel`, created first if `create`.
    fn hint_local(&mut self, node_id: NodeId, session: u64, now: u64, actor: FeatureControlActor, channel: ChannelId, cmd: LocalCmd, create: bool)
        requires
            old(self).wf(),
            now <= TIME_LIMIT_MS,
        ensures
            final(self).wf(),
            final(self)@ == hint_local_cmd(old(self)@, node_id, session, now, actor, channel, cmd, create),
    {
        let found = if create {
            Some(self.ensure_hint(node_id, session, channel))
        } else {
            self.find_hint(channel)
        };
        if let Some(i) = found {
            let ghost s1 = self@;
            let ghost before = self.hints@;
            let (c, mut h) = self.hints.remove(i);
            h.on_local(now, actor, cmd);
            self.hints.insert(i, (c, h));
            proof {
                lemma_key_index(s1.hints, channel, i as int);
                assert(self.hints@ =~= before.update(i as int, (c, h)));
                assert(self@.hints =~= s1.hints.update(i as int, (c, h@)));
                lemma_update_unique(s1.hints, i as int, h@);
                assert forall|j: int| 0 <= j < self.hints@.len() implies (#[trigger] self.hints@[j]).1.wf() by {
                    if j != i {
                        assert(self.hints@[j] == before[j]);
                    }
                }
                assert(s1.hints.update(i as int, (c, h@)).update(i as int, (channel, SourceHintState { queue: Seq::empty(), ..h@ }))
                    =~= s1.hints.update(i as int, (channel, SourceHintState { queue: Seq::empty(), ..h@ })));
                lemma_key_index(self@.hints, channel, i as int);
            }
            self.run_hint(node_id, session, now, i, channel);
        }
    }

    /// Drops the source hints at `i`, those of `channel`, if they are done.
    fn clear_hint_at(&mut self, i: usize, channel: ChannelId)
        requires
            old(self).wf(),
            i < old(self)@.hints.len(),
            old(self)@.hints[i as int].0 == channel,
        ensures
            final(self).wf(),
            final(self)@ == clear_hint(old(self)@, channel),
    {
        let ghost s0 = self@;
        proof {
            lemma_key_index(s0.hints, channel, i as int);
        }
        if self.hints[i].1.should_clear() {
            self.hints.remove(i);
            proof {
                assert(self@.hints =~= s0.hints.remove(i as int));
                lemma_remove_unique(s0.hints, i as int);
                assert forall|j: int| 0 <= j < self.hints@.len() implies (#[trigger] self.hints@[j]).1.wf() by {
                    if j < i {
                        assert(self.hints@[j] == old(self).hints@[j]);
                    } else {
                        assert(self.hints@[j] == old(self).hints@[j + 1]);
                    }
                }
            }
        }
    }

    /// A source hint message from the neighbour `remote` on `channel`.
    fn hint_remote(&mut self, node_id: NodeId, session: u64, now: u64, remote: PeerAddr, channel: ChannelId, m: SourceHint)
        requires
            old(self).wf(),
            now <= TIME_LIMIT_MS,
        ensures
            final(self).wf(),
            final(self)@ == hint_remote_cmd(old(self)@, node_id, session, now, remote, channel, m@),
    {
        let ghost mv = m@;
        let found = if m.should_create() {
            Some(self.ensure_hint(node_id, session, channel))
        } else {
            self.find_hint(channel)
        };
        if let Some(i) = found {
            let ghost s1 = self@;
            let ghost before = self.hints@;
            let (c, mut h) = self.hints.remove(i);
            h.on_remote(now, remote, m);
            self.hints.insert(i, (c, h));
            proof {
                lemma_key_index(s1.hints, channel, i as int);
                assert(self.hints@ =~= before.update(i as int, (c, h)));
                assert(self@.hints =~= s1.hints.update(i as int, (c, h@)));
                lemma_update_unique(s1.hints, i as int, h@);
                assert forall|j: int| 0 <= j < self.hints@.len() implies (#[trigger] self.hints@[j]).1.wf() by {
                    if j != i {
                        assert(self.hints@[j] == before[j]);
                    }
                }
                assert(s1.hints.update(i as int, (c, h@)).update(i as int, (channel, SourceHintState { queue: Seq::empty(), ..h@ }))
                    =~= s1.hints.update(i as int, (channel, SourceHintState { queue: Seq::empty(), ..h@ })));
                lemma_key_index(self@.hints, channel, i as int);
            }
            let ghost s2 = self@;
            self.run_hint(node_id, session, now, i, channel);
            proof {
                lemma_put_hint_hints(s2, node_id, session, now, channel, s2.hints[i as int].1);
            }
            self.clear_hint_at(i, channel);
        }
    }

    /// A feedback of a local actor on `channel`, for the relays of the channel's sources.
    fn feedback_auto(&mut self, now: u64, actor: FeatureControlActor, channel: ChannelId, fb: Feedback)
        requires
            old(self).wf(),
            now <= TIME_LIMIT_MS,
            feedback_auto_ok(old(self)@, now, actor, channel, fb),
        ensures
            final(self).wf(),
            final(self)@ == feedback_auto_spec(old(self)@, now, actor, channel, fb),
    {
        if let Some(i) = self.find_hint(channel) {
            let ghost s0 = self@;
            proof {
                assert(hints_view(self.hints@)[i as int] == (self.hints@[i as int].0, self.hints@[i as int].1@));
            }
            let sources = self.hints[i].1.sources();
            let mut j: usize = 0;
            assert(sources@.subrange(0, sources@.len() as int) =~= sources@);
            while j < sources.len()
                invariant
                    self.wf(),
                    now <= TIME_LIMIT_MS,
                    j <= sources@.len(),
                    feedback_fold(s0, now, actor, channel, fb, sources@) == feedback_fold(
                        self@,
                        now,
                        actor,
                        channel,
                        fb,
                        sources@.subrange(j as int, sources@.len() as int),
                    ),
                    feedback_fold_ok(self@, now, actor, channel, fb, sources@.subrange(j as int, sources@.len() as int)),
                decreases sources@.len() - j,
            {
                proof {
                    let rest = sources@.subrange(j as int, sources@.len() as int);
                    assert(rest[0] == sources@[j as int]);
                    assert(rest.drop_first() =~= sources@.subrange(j + 1, sources@.len() as int));
                }
                self.feedback_relay(now, RelayId(channel, sources[j]), actor, fb);
                j = j + 1;
            }
            assert(sources@.subrange(j as int, sources@.len() as int) =~= Seq::empty());
        }
    }

    /// Periodic work, in the order of creation: relays that are done are dropped and the
    /// others tick; then source hints that are done are dropped, the others tick, and what
    /// they output is carried out.
    pub fn on_tick(&mut self, node_id: NodeId, session: u64, now: u64)
        requires
            old(self).wf(),
            now <= TIME_LIMIT_MS,
            hints_seen_by(old(self)@.hints, now),
        ensures
            final(self).wf(),
            final(self)@ == tick_spec(old(self)@, node_id, session, now),
    {
        let ghost s0 = self@;
        let ghost all = s0.relays;
        let mut rest: Vec<(RelayId, Relay)> = Vec::new();
        std::mem::swap(&mut rest, &mut self.relays);
        let ghost rest0 = rest@;
        let n: usize = rest.len();
        let mut k: usize = 0;
        assert(relays_view(rest@) =~= all.skip(0));
        assert(self@.relays =~= Seq::empty());
        while rest.len() > 0
            invariant
                k <= n,
                n == all.len(),
                relays_view(rest@) =~= all.skip(k as int),
                forall|j: int| 0 <= j < rest@.len() ==> (#[trigger] rest@[j]).1.wf(),
                unique_keys(all),
                unique_keys(self@.relays),
                forall|j: int| 0 <= j < self.relays@.len() ==> (#[trigger] self.relays@[j]).1.wf(),
                forall|j: int| 0 <= j < self.hints@.len() ==> (#[trigger] self.hints@[j]).1.wf(),
                unique_keys(self@.hints),
                self@.hints == s0.hints,
                self@.relays == tick_relays(all.take(k as int), now).0,
                self@.queue == s0.queue + tick_relays(all.take(k as int), now).1,
                now <= TIME_LIMIT_MS,
            decreases rest@.len(),
        {
            let ghost rb = rest@;
            let (id, mut relay) = rest.remove(0);
            proof {
                assert(relays_view(rb).len() == rb.len());
                assert(k < all.len());
                assert(relays_view(rb)[0] == (id, relay@));
                assert(all[k as int] == (id, relay@)) by {
                    assert(all.skip(k as int)[0] == all[k as int]);
                }
                assert(all.take(k + 1).drop_last() =~= all.take(k as int));
                assert(all.take(k + 1).last() == all[k as int]);
                assert(relays_view(rest@) =~= all.skip(k + 1)) by {
                    assert(relays_view(rest@) =~= relays_view(rb).drop_first());
                }
                assert forall|j: int| 0 <= j < rest@.len() implies (#[trigger] rest@[j]).1.wf() by {
                    assert(rest@[j] == rb[j + 1]);
                }
            }
            if !relay.should_clear() {
                relay.on_tick(now);
                let ghost r2 = relay@;
                let ghost q1 = self@.queue;
                drain_relay(id, &mut relay, &mut self.queue);
                proof {
                    lemma_tick_relays_keys(all.take(k as int), now, id);
                    if has_key(all.take(k as int), id) {
                        let m = choose|m: int| 0 <= m < all.take(k as int).len() && #[trigger] all.take(k as int)[m].0 == id;
                        assert(all[m].0 == all[k as int].0);
                    }
                    lemma_push_unique(self@.relays, id, relay@);
                }
                let ghost sr = self.relays@;
                self.relays.push((id, relay));
                proof {
                    assert(self@.relays =~= relays_view(sr).push((id, relay@)));
                    assert forall|j: int| 0 <= j < self.relays@.len() implies (#[trigger] self.relays@[j]).1.wf() by {
                        if j < sr.len() {
                            assert(self.relays@[j] == sr[j]);
                        }
                    }
                }
            }
            k = k + 1;
        }
        proof {
            assert(all.take(k as int) =~= all);
        }
        let ghost s1 = self@;
        let mut hrest: Vec<(ChannelId, SourceHintLogic)> = Vec::new();
        std::mem::swap(&mut hrest, &mut self.hints);
        let ghost hall = s0.hints;
        let hn: usize = hrest.len();
        let mut k: usize = 0;
        assert(hints_view(hrest@) =~= hall.skip(0));
        assert(self@.hints =~= Seq::empty());
        while hrest.len() > 0
            invariant
                k <= hall.len(),
                hn == hall.len(),
                hints_view(hrest@) =~= hall.skip(k as int),
                forall|j: int| 0 <= j < hrest@.len() ==> (#[trigger] hrest@[j]).1.wf(),
                unique_keys(hall),
                hints_seen_by(hall, now),
                unique_keys(self@.hints),
                forall|j: int| 0 <= j < self.hints@.len() ==> (#[trigger] self.hints@[j]).1.wf(),
                forall|j: int| 0 <= j < self.relays@.len() ==> (#[trigger] self.relays@[j]).1.wf(),
                unique_keys(self@.relays),
                self@.relays == s1.relays,
                self@.queue == s1.queue,
                self@.hints == tick_hints(hall.take(k as int), now),
            decreases hrest@.len(),
        {
            let ghost hb = hrest@;
            let (c, mut h) = hrest.remove(0);
            proof {
                assert(hints_view(hb).len() == hb.len());
                assert(k < hall.len());
                assert(hints_view(hb)[0] == (c, h@));
                assert(hall[k as int] == (c, h@)) by {
                    assert(hall.skip(k as int)[0] == hall[k as int]);
                }
                assert(hall.take(k + 1).drop_last() =~= hall.take(k as int));
                assert(hall.take(k + 1).last() == hall[k as int]);
                assert(hints_view(hrest@) =~= hall.skip(k + 1)) by {
                    assert(hints_view(hrest@) =~= hints_view(hb).drop_first());
                }
                assert forall|j: int| 0 <= j < hrest@.len() implies (#[trigger] hrest@[j]).1.wf() by {
                    assert(hrest@[j] == hb[j + 1]);
                }
            }
            if !h.should_clear() {
                proof {
                    assert(seen_by(hall[k as int].1.remote_sources, now));
                }
                h.on_tick(now);
                proof {
                    lemma_tick_hints_keys(hall.take(k as int), now, c);
                    if has_key(hall.take(k as int), c) {
                        let m = choose|m: int| 0 <= m < hall.take(k as int).len() && #[trigger] hall.take(k as int)[m].0 == c;
                        assert(hall[m].0 == hall[k as int].0);
                    }
                    lemma_push_unique(self@.hints, c, h@);
                }
                let ghost sh = self.hints@;
                self.hints.push((c, h));
                proof {
                    assert(self@.hints =~= hints_view(sh).push((c, h@)));
                    assert forall|j: int| 0 <= j < self.hints@.len() implies (#[trigger] self.hints@[j]).1.wf() by {
                        if j < sh.len() {
                            assert(self.hints@[j] == sh[j]);
                        }
                    }
                }
            }
            k = k + 1;
        }
        proof {
            assert(hall.take(k as int) =~= hall);
        }
        let ghost s2 = self@;
        let ghost chans = channels_of(s2.hints);
        let mut j: usize = 0;
        assert(chans.subrange(0, chans.len() as int) =~= chans);
        while j < self.hints.len()
            invariant
                self.wf(),
                now <= TIME_LIMIT_MS,
                j <= self@.hints.len(),
                chans.len() == self@.hints.len(),
                channels_of(self@.hints) == chans,
                run_hints(s2, node_id, session, now, chans) == run_hints(
                    self@,
                    node_id,
                    session,
                    now,
                    chans.subrange(j as int, chans.len() as int),
                ),
            decreases chans.len() - j,
        {
            let ghost sb = self@;
            let c = self.hints[j].0;
            proof {
                assert(hints_view(self.hints@)[j as int].0 == c);
                assert(chans[j as int] == c);
                lemma_key_index(sb.hints, c, j as int);
                let rest = chans.subrange(j as int, chans.len() as int);
                assert(rest[0] == c);
                assert(rest.drop_first() =~= chans.subrange(j + 1, chans.len() as int));
            }
            self.run_hint(node_id, session, now, j, c);
            proof {
                lemma_put_hint_hints(sb, node_id, session, now, c, sb.hints[j as int].1);
                assert(channels_of(self@.hints) =~= chans);
            }
            j = j + 1;
        }
        proof {
            assert(chans.subrange(j as int, chans.len() as int) =~= Seq::empty());
            assert(s2 == (PubSubView { relays: tick_relays(s0.relays, now).0, hints: tick_hints(s0.hints, now), queue: s0.queue + tick_relays(s0.relays, now).1 }));
        }
    }

    /// A control of a local actor.
    fn on_local(&mut self, node_id: NodeId, session: u64, now: u64, actor: FeatureControlActor, control: Control)
        requires
            old(self).wf(),
            now <= TIME_LIMIT_MS,
            input_ok(old(self)@, now, FeatureInputView::Control(actor, control@)),
        ensures
            final(self).wf(),
            final(self)@ == local_spec(old(self)@, node_id, session, now, actor, control.0, control.1@),
    {
        let Control(channel, control) = control;
        match control {
            ChannelControl::SubAuto => self.hint_local(node_id, session, now, actor, channel, LocalCmd::Subscribe, true),
            ChannelControl::FeedbackAuto(fb) => self.feedback_auto(now, actor, channel, fb),
            ChannelControl::UnsubAuto => self.hint_local(node_id, session, now, actor, channel, LocalCmd::Unsubscribe, false),
            ChannelControl::SubSource(source) => self.sub_source(node_id, session, now, RelayId(channel, source), actor),
            ChannelControl::UnsubSource(source) => self.unsub_source(now, RelayId(channel, source), actor),
            ChannelControl::PubStart => self.hint_local(node_id, session, now, actor, channel, LocalCmd::Register, true),
            ChannelControl::PubData(data) => self.pub_data(node_id, channel, data),
            ChannelControl::PubStop => self.hint_local(node_id, session, now, actor, channel, LocalCmd::Unregister, false),
        }
    }

    /// An input, on the node `node_id` whose session is `session`.
    pub fn on_input(&mut self, node_id: NodeId, session: u64, now: u64, input: FeatureInput)
        requires
            old(self).wf(),
            now <= TIME_LIMIT_MS,
            input_ok(old(self)@, now, input@),
        ensures
            final(self).wf(),
            final(self)@ == input_spec(old(self)@, node_id, session, now, input@),
    {
        match input {
            FeatureInput::FromWorker(ToController::RelayControl(remote, id, control)) => {
                self.relay_control(node_id, session, now, remote, id, control)
            },
            FeatureInput::FromWorker(ToController::SourceHint(remote, channel, m)) => {
                self.hint_remote(node_id, session, now, remote, channel, m)
            },
            FeatureInput::Control(actor, control) => self.on_local(node_id, session, now, actor, control),
        }
    }

    /// A connection event: only a closed connection matters.
    pub fn on_connection(&mut self, now: u64, ev: ConnectionEvent)
        requires
            old(self).wf(),
            now <= TIME_LIMIT_MS,
        ensures
            final(self).wf(),
            final(self)@ == match ev {
                ConnectionEvent::Disconnected(ctx) => disconnected_spec(old(self)@, now, ctx.remote),
                _ => old(self)@,
            },
    {
        if let ConnectionEvent::Disconnected(ctx) = ev {
            self.on_disconnected(now, ctx.remote);
        }
    }

    /// Hands out the oldest output.
    pub fn pop_output(&mut self) -> (r: Option<Output>)
        requires
            old(self).wf(),
        ensures
            final(self).wf(),
            old(self)@.queue.len() == 0 ==> r is None && final(self)@ == old(self)@,
            old(self)@.queue.len() > 0 ==> r is Some && r->0@ == old(self)@.queue[0] && final(self)@ == (PubSubView {
                queue: old(self)@.queue.drop_first(),
                ..old(self)@
            }),
    {
        let ghost q = self.queue@;
        let r = self.queue.pop_front();
        proof {
            if q.len() > 0 {
                assert(outs(q.drop_first()) =~= outs(q).drop_first());
            }
        }
        r
    }

    /// The connection to `remote` closed.
    pub fn on_disconnected(&mut self, now: u64, remote: PeerAddr)
        requires
            old(self).wf(),
            now <= TIME_LIMIT_MS,
        ensures
            final(self).wf(),
            final(self)@ == disconnected_spec(old(self)@, now, remote),
    {
        let ghost s0 = self@;
        let ghost all = s0.relays;
        let mut i: usize = 0;
        while i < self.relays.len()
            invariant
                self.wf(),
                now <= TIME_LIMIT_MS,
                i <= self@.relays.len(),
                self@.relays.len() == all.len(),
                self@.hints == s0.hints,
                self@.relays =~= disc_relays(all.take(i as int), now, remote).0 + all.skip(i as int),
                self@.queue == s0.queue + disc_relays(all.take(i as int), now, remote).1,
            decreases all.len() - i,
        {
            let ghost sb = self@;
            let ghost before = self.relays@;
            proof {
                assert(all.take(i + 1).drop_last() =~= all.take(i as int));
                assert(all.take(i + 1).last() == all[i as int]);
                lemma_disc_len(all.take(i as int), now, remote);
                assert(sb.relays[i as int] == all[i as int]);
            }
            let (id, mut relay) = self.relays.remove(i);
            proof {
                assert(relays_view(before)[i as int] == (id, relay@));
            }
            relay.conn_disconnected(now, remote);
            self.restore_relay(i, id, relay, Ghost(before));
            proof {
                let (r0, q0) = disc_relays(all.take(i as int), now, remote);
                let r2 = relay_disconnected(all[i as int].1, now, remote);
                assert(self@.relays =~= disc_relays(all.take(i + 1), now, remote).0 + all.skip(i + 1));
                assert(self@.queue =~= s0.queue + disc_relays(all.take(i + 1), now, remote).1);
            }
            i = i + 1;
        }
        proof {
            assert(all.take(i as int) =~= all);
            assert(all.skip(i as int) =~= Seq::empty());
            assert(self@ =~~= disconnected_spec(s0, now, remote));
        }
    }
}

proof fn lemma_disc_len(rs: Seq<(RelayId, RelayView)>, now: u64, remote: PeerAddr)
    ensures
        disc_relays(rs, now, remote).0.len() == rs.len(),
        forall|j: int| 0 <= j < rs.len() ==> (#[trigger] disc_relays(rs, now, remote).0[j]).0 == rs[j].0,
    decreases rs.len(),
{
    if rs.len() > 0 {
        lemma_disc_len(rs.drop_last(), now, remote);
    }
}

/// A local subscription to a source of a channel that has no relay yet, followed by the same
/// actor's unsubscription, leaves the relays and the source hints as they were.
pub proof fn law_sub_unsub_source_leaves_relays(
    s: PubSubView,
    node_id: NodeId,
    session: u64,
    now: u64,
    actor: FeatureControlActor,
    channel: ChannelId,
    source: NodeId,
)
    requires
        unique_keys(s.relays),
        !has_key(s.relays, RelayId(channel, source)),
    ensures
        ({
            let t = local_spec(s, node_id, session, now, actor, channel, ChannelControlView::SubSource(source));
            let u = local_spec(t, node_id, session, now, actor, channel, ChannelControlView::UnsubSource(source));
            u.relays == s.relays && u.hints == s.hints
        }),
{
    let id = RelayId(channel, source);
    let n = s.relays.len() as int;
    let fresh = new_relay(node_id, session, id);
    let s1 = with_relay(s, node_id, session, id);
    lemma_push_unique(s.relays, id, fresh);
    assert(s1.relays[n].0 == id);
    lemma_key_index(s1.relays, id, n);
    let r1 = relay_local_sub(fresh, actor);
    let t = put_relay(s1, id, r1);
    lemma_update_unique(s1.relays, n, relay_drained(r1));
    assert(t.relays[n].0 == id);
    lemma_key_index(t.relays, id, n);
    let r2 = relay_local_unsub(relay_drained(r1), now, actor);
    let t2 = put_relay(t, id, r2);
    lemma_update_unique(t.relays, n, relay_drained(r2));
    assert(t2.relays[n].0 == id);
    lemma_key_index(t2.relays, id, n);
    match fresh {
        RelayView::Local(l) => {
            let c = consumers_local_sub(l.consumers, actor);
            assert(!l.consumers.locals.contains(actor));
            assert(c.locals =~= seq![actor]);
            let d = ConsumersView { queue: Seq::empty(), ..c };
            assert(d.locals.contains(actor)) by {
                assert(d.locals[0] == actor);
            }
            assert(d.locals.index_of(actor) == 0) by {
                d.locals.index_of_first_ensures(actor);
            }
        },
        RelayView::Remote(x) => {
            let c = consumers_local_sub(ConsumersView { remotes: Seq::empty(), locals: Seq::empty(), queue: Seq::empty() }, actor);
            assert(c.locals =~= seq![actor]);
            let d = ConsumersView { queue: Seq::empty(), ..c };
            assert(d.locals.contains(actor)) by {
                assert(d.locals[0] == actor);
            }
            assert(consumers_local_unsub(d, actor).locals.len() == 0);
        },
    }
    assert(relay_done(value_of(t2.relays, id)));
    assert(without_key(t2.relays, id) =~= s.relays);
}

/// Data published on a channel by a local actor reaches a local subscriber of this node's
/// relay for the channel: subscribing to this node as the source on a fresh channel, then
/// publishing, queues exactly one event, the data for that subscriber.
pub proof fn law_published_data_reaches_local_subscriber(
    s: PubSubView,
    node_id: NodeId,
    session: u64,
    now: u64,
    actor: FeatureControlActor,
    publisher: FeatureControlActor,
    channel: ChannelId,
    data: Seq<u8>,
)
    requires
        unique_keys(s.relays),
        !has_key(s.relays, RelayId(channel, node_id)),
    ensures
        ({
            let t = local_spec(s, node_id, session, now, actor, channel, ChannelControlView::SubSource(node_id));
            let u = local_spec(t, node_id, session, now, publisher, channel, ChannelControlView::PubData(data));
            u.queue == t.queue.push(OutputView::Event(actor, (channel, ChannelEventView::SourceData(node_id, data))))
        }),
{
    let id = RelayId(channel, node_id);
    let n = s.relays.len() as int;
    let fresh = new_relay(node_id, session, id);
    let s1 = with_relay(s, node_id, session, id);
    lemma_push_unique(s.relays, id, fresh);
    assert(s1.relays[n].0 == id);
    lemma_key_index(s1.relays, id, n);
    let r1 = relay_local_sub(fresh, actor);
    let t = put_relay(s1, id, r1);
    lemma_update_unique(s1.relays, n, relay_drained(r1));
    assert(t.relays[n].0 == id);
    lemma_key_index(t.relays, id, n);
    let c = consumers_local_sub(ConsumersView { remotes: Seq::empty(), locals: Seq::empty(), queue: Seq::empty() }, actor);
    assert(c.locals =~= seq![actor]);
    assert(relay_dests(value_of(t.relays, id)) == Some((seq![actor], false)));
    assert(data_events(seq![actor], channel, node_id, data) =~= seq![OutputView::Event(actor, (channel, ChannelEventView::SourceData(node_id, data)))]);
    let u = local_spec(t, node_id, session, now, publisher, channel, ChannelControlView::PubData(data));
    assert(u.queue =~= t.queue.push(OutputView::Event(actor, (channel, ChannelEventView::SourceData(node_id, data)))));
}

/// A tick keeps exactly the relays that were not done: one that was done is dropped, every
/// other one stays.
pub proof fn law_tick_keeps_live_relays(rs: Seq<(RelayId, RelayView)>, now: u64, id: RelayId)
    requires
        unique_keys(rs),
    ensures
        has_key(tick_relays(rs, now).0, id) <==> (has_key(rs, id) && !relay_done(value_of(rs, id))),
    decreases rs.len(),
{
    lemma_tick_relays_keys(rs, now, id);
    if rs.len() > 0 {
        let init = rs.drop_last();
        let n = rs.len() - 1;
        assert(unique_keys(init)) by {
            assert forall|a: int, b: int| 0 <= a < init.len() && 0 <= b < init.len() && a != b implies #[trigger] init[a].0 != #[trigger] init[b].0 by {
                assert(init[a] == rs[a] && init[b] == rs[b]);
            }
        }
        lemma_tick_relays_step(rs, now, id);
        law_tick_keeps_live_relays(init, now, id);
        let (r0, q0) = tick_relays(init, now);
        let (k, r) = rs.last();
        if k == id {
            lemma_key_index(rs, id, n);
            lemma_tick_relays_keys(init, now, id);
            if has_key(init, id) {
                let m = choose|m: int| 0 <= m < init.len() && #[trigger] init[m].0 == id;
                assert(rs[m].0 == rs[n].0);
            }
            if !relay_done(r) {
                assert(tick_relays(rs, now).0[r0.len() as int].0 == id);
            }
        } else {
            if has_key(rs, id) {
                let m = key_index(rs, id);
                assert(m != n);
                assert(init[m].0 == id);
                lemma_key_index(init, id, m);
                lemma_key_index(rs, id, m);
            }
            if has_key(init, id) {
                let m = key_index(init, id);
                assert(rs[m].0 == id);
            }
            if has_key(tick_relays(rs, now).0, id) && !relay_done(r) {
                let t = tick_relays(rs, now).0;
                let m = choose|m: int| 0 <= m < t.len() && #[trigger] t[m].0 == id;
                assert(m < r0.len());
                assert(t[m] == r0[m]);
            }
            if has_key(r0, id) && !relay_done(r) {
                let m = choose|m: int| 0 <= m < r0.len() && #[trigger] r0[m].0 == id;
                assert(tick_relays(rs, now).0[m] == r0[m]);
            }
        }
    }
}

proof fn lemma_tick_relays_step(rs: Seq<(RelayId, RelayView)>, now: u64, id: RelayId)
    requires
        rs.len() > 0,
    ensures
        tick_relays(rs, now).0 == (if relay_done(rs.last().1) {
            tick_relays(rs.drop_last(), now).0
        } else {
            tick_relays(rs.drop_last(), now).0.push((rs.last().0, relay_drained(relay_tick(rs.last().1, now))))
        }),
{
}

/// A local publisher that starts and then stops on a channel that this node knew nothing of
/// withdraws the node as a source: the stop sends `Unregister` of this node towards the root
/// (after the `Register` the start sent), and the channel is left without local sources.
pub proof fn law_pub_stop_unregisters(
    s: PubSubView,
    node_id: NodeId,
    session: u64,
    now: u64,
    actor: FeatureControlActor,
    channel: ChannelId,
)
    requires
        unique_keys(s.hints),
        !has_key(s.hints, channel),
    ensures
        ({
            let t = local_spec(s, node_id, session, now, actor, channel, ChannelControlView::PubStart);
            let u = local_spec(t, node_id, session, now, actor, channel, ChannelControlView::PubStop);
            &&& t.queue == s.queue.push(
                OutputView::ToWorker(true, ToWorkerView::SourceHint(channel, None, SourceHintView::Register { source: node_id, to_root: true })),
            )
            &&& u.queue == t.queue.push(
                OutputView::ToWorker(true, ToWorkerView::SourceHint(channel, None, SourceHintView::Unregister { source: node_id, to_root: true })),
            )
            &&& has_key(u.hints, channel)
            &&& value_of(u.hints, channel).local_sources.len() == 0
        }),
{
    let n = s.hints.len() as int;
    let h0 = new_hint(node_id, session);
    let s1 = with_hint(s, node_id, session, channel);
    lemma_push_unique(s.hints, channel, h0);
    assert(s1.hints[n].0 == channel);
    lemma_key_index(s1.hints, channel, n);
    let h1 = hint_local_spec(h0, actor, LocalCmd::Register);
    let reg = HintOutputView::SendRemote(None, SourceHintView::Register { source: node_id, to_root: true });
    assert(send_each(Seq::<PeerAddr>::empty(), None, SourceHintView::Register { source: node_id, to_root: false }) == Seq::<HintOutputView>::empty());
    assert(h1.queue =~= seq![reg]);
    assert(h1.local_sources =~= seq![actor]);
    let p1 = PubSubView { hints: s1.hints.update(n, (channel, SourceHintState { queue: Seq::empty(), ..h1 })), ..s1 };
    let t = put_hint(s1, node_id, session, now, channel, h1);
    assert(seq![reg].drop_first() =~= Seq::<HintOutputView>::empty());
    assert(t == hint_outs(p1, node_id, session, now, channel, seq![reg]));
    assert(seq![reg][0] == reg);
    let x1 = hint_out(p1, node_id, session, now, channel, reg);
    assert(hint_outs(x1, node_id, session, now, channel, Seq::<HintOutputView>::empty()) == x1);
    assert(t == x1);
    lemma_update_unique(s1.hints, n, SourceHintState { queue: Seq::empty(), ..h1 });
    assert(t.hints[n].0 == channel);
    lemma_key_index(t.hints, channel, n);
    let h2 = value_of(t.hints, channel);
    assert(h2 == SourceHintState { queue: Seq::empty(), ..h1 });
    let h3 = hint_local_spec(h2, actor, LocalCmd::Unregister);
    assert(h2.local_sources.contains(actor)) by {
        assert(h2.local_sources[0] == actor);
    }
    assert(h2.local_sources.index_of(actor) == 0) by {
        h2.local_sources.index_of_first_ensures(actor);
    }
    assert(swap_removed(h2.local_sources, 0) =~= Seq::<FeatureControlActor>::empty());
    let unreg = HintOutputView::SendRemote(None, SourceHintView::Unregister { source: node_id, to_root: true });
    assert(send_each(Seq::<PeerAddr>::empty(), None, SourceHintView::Unregister { source: node_id, to_root: false }) == Seq::<HintOutputView>::empty());
    assert(h3.queue =~= seq![unreg]);
    let p2 = PubSubView { hints: t.hints.update(n, (channel, SourceHintState { queue: Seq::empty(), ..h3 })), ..t };
    let u = put_hint(t, node_id, session, now, channel, h3);
    assert(seq![unreg].drop_first() =~= Seq::<HintOutputView>::empty());
    assert(u == hint_outs(p2, node_id, session, now, channel, seq![unreg]));
    assert(seq![unreg][0] == unreg);
    let x2 = hint_out(p2, node_id, session, now, channel, unreg);
    assert(hint_outs(x2, node_id, session, now, channel, Seq::<HintOutputView>::empty()) == x2);
    assert(u == x2);
    lemma_update_unique(t.hints, n, SourceHintState { queue: Seq::empty(), ..h3 });
    assert(u.hints[n].0 == channel);
    lemma_key_index(u.hints, channel, n);
}

} // verus!
