//! What a relay hands out, and the helpers shared by the local and the remote relay.

use std::collections::VecDeque;
use vstd::prelude::*;

use super::consumers::{ConsumersView, RelayConsummers};
use super::feedbacks::{AggView, FeedbacksAggerator};
use super::msg::{Feedback, RelayWorkerControl};
use crate::types::{FeatureControlActor, PeerAddr};

verus! {

/// An output of a relay: a command for the workers, a route change for a local subscriber,
/// or merged feedback for the local publishers.
#[derive(Debug, Clone, PartialEq, Eq)]
pub enum GenericRelayOutput {
    ToWorker(RelayWorkerControl),
    RouteChanged(FeatureControlActor),
    Feedback(Vec<FeatureControlActor>, Feedback),
}

/// Mathematical form of [`GenericRelayOutput`].
pub enum RelayOutputView {
    ToWorker(RelayWorkerControl),
    RouteChanged(FeatureControlActor),
    Feedback(Seq<FeatureControlActor>, Feedback),
}

impl View for GenericRelayOutput {
    type V = RelayOutputView;

    open spec fn view(&self) -> RelayOutputView {
        match self {
            GenericRelayOutput::ToWorker(c) => RelayOutputView::ToWorker(*c),
            GenericRelayOutput::RouteChanged(a) => RelayOutputView::RouteChanged(*a),
            GenericRelayOutput::Feedback(v, f) => RelayOutputView::Feedback(v@, *f),
        }
    }
}

pub open spec fn outs_view(q: Seq<GenericRelayOutput>) -> Seq<RelayOutputView> {
    q.map_values(|o: GenericRelayOutput| o@)
}

/// Worker commands as relay outputs.
pub open spec fn to_worker(q: Seq<RelayWorkerControl>) -> Seq<RelayOutputView>
    decreases q.len(),
{
    if q.len() == 0 {
        Seq::empty()
    } else {
        to_worker(q.drop_last()).push(RelayOutputView::ToWorker(q.last()))
    }
}

/// Merged feedbacks as commands to send them to `remote`.
pub open spec fn feedback_to(q: Seq<Feedback>, remote: PeerAddr) -> Seq<RelayOutputView>
    decreases q.len(),
{
    if q.len() == 0 {
        Seq::empty()
    } else {
        feedback_to(q.drop_last(), remote).push(RelayOutputView::ToWorker(RelayWorkerControl::SendFeedback(q.last(), remote)))
    }
}

/// Route-change notices for local subscribers.
pub open spec fn route_changed(locals: Seq<FeatureControlActor>) -> Seq<RelayOutputView>
    decreases locals.len(),
{
    if locals.len() == 0 {
        Seq::empty()
    } else {
        route_changed(locals.drop_last()).push(RelayOutputView::RouteChanged(locals.last()))
    }
}

pub proof fn lemma_outs_push(q: Seq<GenericRelayOutput>, x: GenericRelayOutput)
    ensures
        outs_view(q.push(x)) == outs_view(q).push(x@),
{
    assert(outs_view(q.push(x)) =~= outs_view(q).push(x@));
}

pub fn push_out(queue: &mut VecDeque<GenericRelayOutput>, x: GenericRelayOutput)
    ensures
        outs_view(final(queue)@) == outs_view(old(queue)@).push(x@),
{
    let ghost q = queue@;
    queue.push_back(x);
    proof {
        lemma_outs_push(q, x);
    }
}

/// Moves the pending commands of `consumers` to `queue`.
pub fn pop_consumers_out(consumers: &mut RelayConsummers, queue: &mut VecDeque<GenericRelayOutput>)
    requires
        old(consumers).wf(),
    ensures
        final(consumers).wf(),
        final(consumers)@ == (ConsumersView { queue: Seq::empty(), ..old(consumers)@ }),
        outs_view(final(queue)@) == outs_view(old(queue)@) + to_worker(old(consumers)@.queue),
{
    let ghost c0 = consumers@;
    let ghost q0 = outs_view(queue@);
    let ghost mut taken: Seq<RelayWorkerControl> = Seq::empty();
    loop
        invariant
            consumers.wf(),
            c0.queue == taken + consumers@.queue,
            consumers@ == (ConsumersView { queue: consumers@.queue, ..c0 }),
            outs_view(queue@) == q0 + to_worker(taken),
        ensures
            consumers@.queue.len() == 0,
        decreases consumers@.queue.len(),
    {
        let ghost cq = consumers@.queue;
        match consumers.pop_output() {
            Some(control) => {
                push_out(queue, GenericRelayOutput::ToWorker(control));
                proof {
                    assert(taken.push(control).drop_last() =~= taken);
                    taken = taken.push(control);
                    assert(c0.queue =~= taken + consumers@.queue);
                    assert(outs_view(queue@) =~= q0 + to_worker(taken));
                }
            },
            None => {
                proof {
                    assert(consumers@.queue =~= Seq::<RelayWorkerControl>::empty());
                    assert(taken =~= c0.queue);
                }
                break;
            },
        }
    }
    assert(consumers@.queue =~= Seq::<RelayWorkerControl>::empty());
}

/// Moves the merged feedbacks of `feedbacks` to `queue`, as commands to send them to `remote`.
pub fn pop_feedbacks_out(remote: PeerAddr, feedbacks: &mut FeedbacksAggerator, queue: &mut VecDeque<GenericRelayOutput>)
    requires
        old(feedbacks).wf(),
    ensures
        final(feedbacks).wf(),
        final(feedbacks)@ == (AggView { queue: Seq::empty(), ..old(feedbacks)@ }),
        outs_view(final(queue)@) == outs_view(old(queue)@) + feedback_to(old(feedbacks)@.queue, remote),
{
    let ghost f0 = feedbacks@;
    let ghost q0 = outs_view(queue@);
    let ghost mut taken: Seq<Feedback> = Seq::empty();
    loop
        invariant
            feedbacks.wf(),
            f0.queue == taken + feedbacks@.queue,
            feedbacks@ == (AggView { queue: feedbacks@.queue, ..f0 }),
            outs_view(queue@) == q0 + feedback_to(taken, remote),
        ensures
            feedbacks@.queue.len() == 0,
        decreases feedbacks@.queue.len(),
    {
        match feedbacks.pop_output() {
            Some(fb) => {
                push_out(queue, GenericRelayOutput::ToWorker(RelayWorkerControl::SendFeedback(fb, remote)));
                proof {
                    assert(taken.push(fb).drop_last() =~= taken);
                    taken = taken.push(fb);
                    assert(f0.queue =~= taken + feedbacks@.queue);
                    assert(outs_view(queue@) =~= q0 + feedback_to(taken, remote));
                }
            },
            None => {
                proof {
                    assert(feedbacks@.queue =~= Seq::<Feedback>::empty());
                    assert(taken =~= f0.queue);
                }
                break;
            },
        }
    }
    assert(feedbacks@.queue =~= Seq::<Feedback>::empty());
}

/// Queues a route-change notice for each of `locals`.
pub fn push_route_changed(locals: &[FeatureControlActor], queue: &mut VecDeque<GenericRelayOutput>)
    ensures
        outs_view(final(queue)@) == outs_view(old(queue)@) + route_changed(locals@),
{
    let ghost q0 = outs_view(queue@);
    let mut i: usize = 0;
    while i < locals.len()
        invariant
            i <= locals@.len(),
            outs_view(queue@) == q0 + route_changed(locals@.take(i as int)),
        decreases locals@.len() - i,
    {
        push_out(queue, GenericRelayOutput::RouteChanged(locals[i]));
        proof {
            assert(locals@.take(i + 1).drop_last() =~= locals@.take(i as int));
            assert(outs_view(queue@) =~= q0 + route_changed(locals@.take(i + 1)));
        }
        i = i + 1;
    }
    assert(locals@.take(i as int) =~= locals@);
}

} // verus!
