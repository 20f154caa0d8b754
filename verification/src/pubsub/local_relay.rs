//! The relay of a channel whose source is this node: it serves the consumers directly and
//! hands the merged feedback to the local publishers.

use vstd::prelude::*;

use super::consumers::{consumers_disconnected, consumers_empty, consumers_local_sub, consumers_local_unsub, consumers_remote, consumers_tick, ConsumersView, RelayConsummers};
use super::feedbacks::{accepts_feedback, on_feedback_spec, tick_kinds, AggView, FeedbackSource, FeedbacksAggerator};
use super::msg::{Feedback, RelayControl};
use super::relay::{GenericRelayOutput, RelayOutputView};
use super::TIME_LIMIT_MS;
use crate::types::{add_actor, copy_actors, swap_remove_actor, swap_removed, FeatureControlActor, PeerAddr};

verus! {

/// Mathematical state of a [`LocalRelay`].
pub struct LocalRelayView {
    pub consumers: ConsumersView,
    pub feedbacks: AggView,
    pub publishers: Seq<FeatureControlActor>,
}

/// The relay of a channel published on this node.
pub struct LocalRelay {
    consumers: RelayConsummers,
    feedbacks: FeedbacksAggerator,
    publishers: Vec<FeatureControlActor>,
}

impl View for LocalRelay {
    type V = LocalRelayView;

    closed spec fn view(&self) -> LocalRelayView {
        LocalRelayView { consumers: self.consumers@, feedbacks: self.feedbacks@, publishers: self.publishers@ }
    }
}

/// What a control from `remote` does: a feedback goes to the aggregator, anything else to
/// the consumers.
pub open spec fn local_on_remote_spec(s: LocalRelayView, now: u64, remote: PeerAddr, control: RelayControl) -> LocalRelayView {
    match control {
        RelayControl::Feedback(fb) => LocalRelayView { feedbacks: on_feedback_spec(s.feedbacks, now, FeedbackSource::Remote(remote), fb), ..s },
        _ => LocalRelayView { consumers: consumers_remote(s.consumers, now, remote, control), ..s },
    }
}

impl Default for LocalRelay {
    fn default() -> (r: Self)
        ensures
            r.wf(),
            r@.consumers == (ConsumersView { remotes: Seq::empty(), locals: Seq::empty(), queue: Seq::empty() }),
            r@.feedbacks == (AggView { kinds: Seq::empty(), queue: Seq::empty() }),
            r@.publishers == Seq::<FeatureControlActor>::empty(),
    {
        LocalRelay::new()
    }
}

impl LocalRelay {
    /// The invariant: valid consumers and feedbacks, and each publisher listed once.
    pub closed spec fn wf(&self) -> bool {
        &&& self.consumers.wf()
        &&& self.feedbacks.wf()
        &&& self.publishers@.no_duplicates()
    }

    /// A relay without consumers, feedbacks or publishers.
    pub fn new() -> (r: Self)
        ensures
            r.wf(),
            r@.consumers == (ConsumersView { remotes: Seq::empty(), locals: Seq::empty(), queue: Seq::empty() }),
            r@.feedbacks == (AggView { kinds: Seq::empty(), queue: Seq::empty() }),
            r@.publishers == Seq::<FeatureControlActor>::empty(),
    {
        let r = LocalRelay { consumers: RelayConsummers::new(), feedbacks: FeedbacksAggerator::new(), publishers: Vec::new() };
        assert(r@.feedbacks.kinds =~= Seq::empty());
        assert(r@.feedbacks.queue =~= Seq::empty());
        assert(r@.publishers =~= Seq::empty());
        r
    }

    /// Drops the timed-out feedbacks and consumers.
    pub fn on_tick(&mut self, now: u64)
        requires
            old(self).wf(),
        ensures
            final(self).wf(),
            final(self)@ == (LocalRelayView {
                consumers: consumers_tick(old(self)@.consumers, now),
                feedbacks: AggView { kinds: tick_kinds(old(self)@.feedbacks.kinds, now), queue: old(self)@.feedbacks.queue },
                ..old(self)@
            }),
    {
        self.feedbacks.on_tick(now);
        self.consumers.on_tick(now);
    }

    /// A local publisher starts; one already publishing is ignored.
    pub fn on_pub_start(&mut self, actor: FeatureControlActor)
        requires
            old(self).wf(),
        ensures
            final(self).wf(),
            final(self)@ == (LocalRelayView {
                publishers: if old(self)@.publishers.contains(actor) {
                    old(self)@.publishers
                } else {
                    old(self)@.publishers.push(actor)
                },
                ..old(self)@
            }),
    {
        add_actor(&mut self.publishers, actor);
    }

    /// A local publisher stops; an unknown one is ignored.
    pub fn on_pub_stop(&mut self, actor: FeatureControlActor)
        requires
            old(self).wf(),
        ensures
            final(self).wf(),
            final(self)@ == (LocalRelayView {
                publishers: if old(self)@.publishers.contains(actor) {
                    swap_removed(old(self)@.publishers, old(self)@.publishers.index_of(actor))
                } else {
                    old(self)@.publishers
                },
                ..old(self)@
            }),
    {
        swap_remove_actor(&mut self.publishers, actor);
    }

    /// A local subscriber joins.
    pub fn on_local_sub(&mut self, now: u64, actor: FeatureControlActor)
        requires
            old(self).wf(),
        ensures
            final(self).wf(),
            final(self)@ == (LocalRelayView { consumers: consumers_local_sub(old(self)@.consumers, actor), ..old(self)@ }),
    {
        self.consumers.on_local_sub(now, actor);
    }

    /// A feedback from a local subscriber.
    pub fn on_local_feedback(&mut self, now: u64, actor: FeatureControlActor, feedback: Feedback)
        requires
            old(self).wf(),
            now <= TIME_LIMIT_MS,
            accepts_feedback(old(self)@.feedbacks, now, FeedbackSource::Local(actor), feedback),
        ensures
            final(self).wf(),
            final(self)@ == (LocalRelayView {
                feedbacks: on_feedback_spec(old(self)@.feedbacks, now, FeedbackSource::Local(actor), feedback),
                ..old(self)@
            }),
    {
        self.feedbacks.on_local_feedback(now, actor, feedback);
    }

    /// A local subscriber leaves.
    pub fn on_local_unsub(&mut self, now: u64, actor: FeatureControlActor)
        requires
            old(self).wf(),
        ensures
            final(self).wf(),
            final(self)@ == (LocalRelayView { consumers: consumers_local_unsub(old(self)@.consumers, actor), ..old(self)@ }),
    {
        self.consumers.on_local_unsub(now, actor);
    }

    /// A control from the neighbour `remote`.
    pub fn on_remote(&mut self, now: u64, remote: PeerAddr, control: RelayControl)
        requires
            old(self).wf(),
            now <= TIME_LIMIT_MS,
            control is Feedback ==> accepts_feedback(old(self)@.feedbacks, now, FeedbackSource::Remote(remote), control->Feedback_0),
        ensures
            final(self).wf(),
            final(self)@ == local_on_remote_spec(old(self)@, now, remote, control),
    {
        match control {
            RelayControl::Feedback(fb) => {
                self.feedbacks.on_remote_feedback(now, remote, fb);
            },
            _ => {
                self.consumers.on_remote(now, remote, control);
            },
        }
    }

    /// The connection to `remote` closed.
    pub fn conn_disconnected(&mut self, now: u64, remote: PeerAddr)
        requires
            old(self).wf(),
        ensures
            final(self).wf(),
            final(self)@ == (LocalRelayView { consumers: consumers_disconnected(old(self)@.consumers, remote), ..old(self)@ }),
    {
        self.consumers.conn_disconnected(now, remote);
    }

    /// The relay has neither consumers nor publishers and can be dropped.
    pub fn should_clear(&self) -> (r: bool)
        ensures
            r == (consumers_empty(self@.consumers) && self@.publishers.len() == 0),
    {
        self.consumers.should_clear() && self.publishers.len() == 0
    }

    /// The local subscribers, and whether a remote consumer exists.
    pub fn relay_dests(&self) -> (r: Option<(&[FeatureControlActor], bool)>)
        ensures
            r matches Some((locals, has_remote)) && locals@ == self@.consumers.locals && has_remote == (self@.consumers.remotes.len() > 0),
    {
        Some(self.consumers.relay_dests())
    }

    /// Hands out the oldest merged feedback, addressed to the publishers, before the oldest
    /// command for the workers.
    pub fn pop_output(&mut self) -> (r: Option<GenericRelayOutput>)
        requires
            old(self).wf(),
        ensures
            final(self).wf(),
            old(self)@.feedbacks.queue.len() > 0 ==> r is Some && r->0@ == RelayOutputView::Feedback(old(self)@.publishers, old(self)@.feedbacks.queue[0])
                && final(self)@ == (LocalRelayView {
                feedbacks: AggView { queue: old(self)@.feedbacks.queue.drop_first(), ..old(self)@.feedbacks },
                ..old(self)@
            }),
            old(self)@.feedbacks.queue.len() == 0 && old(self)@.consumers.queue.len() > 0 ==> r is Some && r->0@ == RelayOutputView::ToWorker(
                old(self)@.consumers.queue[0],
            ) && final(self)@ == (LocalRelayView {
                consumers: ConsumersView { queue: old(self)@.consumers.queue.drop_first(), ..old(self)@.consumers },
                ..old(self)@
            }),
            old(self)@.feedbacks.queue.len() == 0 && old(self)@.consumers.queue.len() == 0 ==> r is None && final(self)@ == old(self)@,
    {
        match self.feedbacks.pop_output() {
            Some(fb) => {
                let publishers = copy_actors(&self.publishers);
                Some(GenericRelayOutput::Feedback(publishers, fb))
            },
            None => match self.consumers.pop_output() {
                Some(control) => Some(GenericRelayOutput::ToWorker(control)),
                None => None,
            },
        }
    }
}


} // verus!
