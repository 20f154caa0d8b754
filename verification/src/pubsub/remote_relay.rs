//! The relay of a channel whose source is another node: it binds to a next hop towards the
//! source while it has consumers, and unbinds when the last one leaves.

use std::collections::VecDeque;
use vstd::prelude::*;

use super::consumers::{consumers_disconnected, consumers_empty, consumers_local_sub, consumers_local_unsub, consumers_remote, consumers_tick, ConsumersView, RelayConsummers};
use super::feedbacks::{accepts_feedback, on_feedback_spec, tick_kinds, AggView, FeedbackSource, FeedbacksAggerator};
use super::msg::{Feedback, RelayControl, RelayWorkerControl};
use super::relay::{feedback_to, outs_view, pop_consumers_out, pop_feedbacks_out, push_out, push_route_changed, route_changed, to_worker, GenericRelayOutput, RelayOutputView};
use super::{RELAY_STICKY_MS, RELAY_TIMEOUT, TIME_LIMIT_MS};
use crate::types::{FeatureControlActor, PeerAddr};

verus! {

enum RelayState {
    New,
    Binding { consumers: RelayConsummers, feedbacks: FeedbacksAggerator },
    Bound { consumers: RelayConsummers, feedbacks: FeedbacksAggerator, next: PeerAddr, sticky_session_at: u64 },
    Unbinding { next: PeerAddr, started_at: u64 },
    Unbound,
}

/// The state of a remote relay: fresh, waiting for a next hop to accept it, bound to a
/// next hop, leaving it, or done.
pub enum RelayStateView {
    New,
    Binding { consumers: ConsumersView, feedbacks: AggView },
    Bound { consumers: ConsumersView, feedbacks: AggView, next: PeerAddr, sticky_session_at: u64 },
    Unbinding { next: PeerAddr, started_at: u64 },
    Unbound,
}

/// Mathematical state of a [`RemoteRelay`].
pub struct RemoteRelayView {
    pub uuid: u64,
    pub state: RelayStateView,
    pub queue: Seq<RelayOutputView>,
}

impl RelayState {
    spec fn view(&self) -> RelayStateView {
        match self {
            RelayState::New => RelayStateView::New,
            RelayState::Binding { consumers, feedbacks } => RelayStateView::Binding { consumers: consumers@, feedbacks: feedbacks@ },
            RelayState::Bound { consumers, feedbacks, next, sticky_session_at } => RelayStateView::Bound {
                consumers: consumers@,
                feedbacks: feedbacks@,
                next: *next,
                sticky_session_at: *sticky_session_at,
            },
            RelayState::Unbinding { next, started_at } => RelayStateView::Unbinding { next: *next, started_at: *started_at },
            RelayState::Unbound => RelayStateView::Unbound,
        }
    }

    spec fn wf(&self) -> bool {
        match self {
            RelayState::Binding { consumers, feedbacks } => consumers.wf() && feedbacks.wf(),
            RelayState::Bound { consumers, feedbacks, sticky_session_at, .. } => consumers.wf() && feedbacks.wf() && *sticky_session_at <= TIME_LIMIT_MS,
            RelayState::Unbinding { started_at, .. } => *started_at <= TIME_LIMIT_MS,
            _ => true,
        }
    }
}

/// The relay of a channel from a source on another node.
pub struct RemoteRelay {
    uuid: u64,
    state: RelayState,
    queue: VecDeque<GenericRelayOutput>,
}

impl View for RemoteRelay {
    type V = RemoteRelayView;

    closed spec fn view(&self) -> RemoteRelayView {
        RemoteRelayView { uuid: self.uuid, state: self.state.view(), queue: outs_view(self.queue@) }
    }
}

pub open spec fn cmd(c: RelayWorkerControl) -> RelayOutputView {
    RelayOutputView::ToWorker(c)
}

/// `c` with its pending commands taken out.
pub open spec fn drained(c: ConsumersView) -> ConsumersView {
    ConsumersView { queue: Seq::empty(), ..c }
}

/// `f` with its merged feedbacks taken out.
pub open spec fn drained_agg(f: AggView) -> AggView {
    AggView { queue: Seq::empty(), ..f }
}

pub open spec fn empty_consumers() -> ConsumersView {
    ConsumersView { remotes: Seq::empty(), locals: Seq::empty(), queue: Seq::empty() }
}

pub open spec fn empty_agg() -> AggView {
    AggView { kinds: Seq::empty(), queue: Seq::empty() }
}

/// A binding relay whose consumers became `c`: their commands are queued, and with no
/// consumer left the relay is done.
pub open spec fn binding_after(s: RemoteRelayView, c: ConsumersView, f: AggView) -> RemoteRelayView {
    let q = s.queue + to_worker(c.queue);
    if consumers_empty(c) {
        RemoteRelayView { state: RelayStateView::Unbound, queue: q, ..s }
    } else {
        RemoteRelayView { state: RelayStateView::Binding { consumers: drained(c), feedbacks: f }, queue: q, ..s }
    }
}

/// A bound relay whose consumers became `c`: their commands are queued, and with no
/// consumer left the relay unsubscribes from `next` and starts unbinding at `now`.
pub open spec fn bound_after(s: RemoteRelayView, now: u64, c: ConsumersView, f: AggView, next: PeerAddr, sticky: u64) -> RemoteRelayView {
    let q = s.queue + to_worker(c.queue);
    if consumers_empty(c) {
        RemoteRelayView {
            state: RelayStateView::Unbinding { next, started_at: now },
            queue: q.push(cmd(RelayWorkerControl::SendUnsub(s.uuid, next))).push(cmd(RelayWorkerControl::RouteDelSource(next))),
            ..s
        }
    } else {
        RemoteRelayView { state: RelayStateView::Bound { consumers: drained(c), feedbacks: f, next, sticky_session_at: sticky }, queue: q, ..s }
    }
}

/// A relay without consumers that got its first ones, `c`: it starts binding, with `hint`
/// as the preferred next hop.
pub open spec fn fresh_binding(s: RemoteRelayView, c: ConsumersView, hint: Option<PeerAddr>) -> RemoteRelayView {
    RemoteRelayView {
        state: RelayStateView::Binding { consumers: drained(c), feedbacks: empty_agg() },
        queue: (s.queue + to_worker(c.queue)).push(cmd(RelayWorkerControl::SendSub(s.uuid, hint))),
        ..s
    }
}

/// A bound relay whose feedbacks became `f`: the merged ones are sent to `next`.
pub open spec fn bound_feedback(s: RemoteRelayView, c: ConsumersView, f: AggView, next: PeerAddr, sticky: u64) -> RemoteRelayView {
    RemoteRelayView {
        state: RelayStateView::Bound { consumers: c, feedbacks: drained_agg(f), next, sticky_session_at: sticky },
        queue: s.queue + feedback_to(f.queue, next),
        ..s
    }
}

/// A tick: a bound relay renews its subscription (to the same next hop while the sticky
/// session lasts, to any afterwards), a binding one asks again; timed-out consumers and
/// feedbacks are dropped; an unbinding relay asks again to leave until it times out.
pub open spec fn remote_tick_spec(s: RemoteRelayView, now: u64) -> RemoteRelayView {
    match s.state {
        RelayStateView::Bound { consumers, feedbacks, next, sticky_session_at } => {
            let hint = if now >= sticky_session_at + RELAY_STICKY_MS { None } else { Some(next) };
            let c = consumers_tick(consumers, now);
            let f = AggView { kinds: tick_kinds(feedbacks.kinds, now), queue: feedbacks.queue };
            let q = s.queue.push(cmd(RelayWorkerControl::SendSub(s.uuid, hint))) + to_worker(c.queue) + feedback_to(f.queue, next);
            if consumers_empty(c) {
                RemoteRelayView {
                    state: RelayStateView::Unbinding { next, started_at: now },
                    queue: q.push(cmd(RelayWorkerControl::SendUnsub(s.uuid, next))).push(cmd(RelayWorkerControl::RouteDelSource(next))),
                    ..s
                }
            } else {
                RemoteRelayView {
                    state: RelayStateView::Bound { consumers: drained(c), feedbacks: drained_agg(f), next, sticky_session_at },
                    queue: q,
                    ..s
                }
            }
        },
        RelayStateView::Binding { consumers, feedbacks } => {
            let s1 = RemoteRelayView { queue: s.queue.push(cmd(RelayWorkerControl::SendSub(s.uuid, None))), ..s };
            binding_after(s1, consumers_tick(consumers, now), feedbacks)
        },
        RelayStateView::Unbinding { next, started_at } => {
            if now >= started_at + RELAY_TIMEOUT {
                RemoteRelayView { state: RelayStateView::Unbound, ..s }
            } else {
                RemoteRelayView { queue: s.queue.push(cmd(RelayWorkerControl::SendUnsub(s.uuid, next))), ..s }
            }
        },
        _ => s,
    }
}

/// A closed connection to `remote`: it is no consumer any more; if it was the next hop,
/// the relay binds again.
pub open spec fn remote_disconnected_spec(s: RemoteRelayView, now: u64, remote: PeerAddr) -> RemoteRelayView {
    match s.state {
        RelayStateView::Bound { consumers, feedbacks, next, sticky_session_at } => {
            let c = consumers_disconnected(consumers, remote);
            if next == remote {
                RemoteRelayView {
                    state: RelayStateView::Binding { consumers: drained(c), feedbacks },
                    queue: (s.queue + to_worker(c.queue)).push(cmd(RelayWorkerControl::SendSub(s.uuid, None))),
                    ..s
                }
            } else {
                bound_after(s, now, c, feedbacks, next, sticky_session_at)
            }
        },
        RelayStateView::Binding { consumers, feedbacks } => binding_after(s, consumers_disconnected(consumers, remote), feedbacks),
        _ => s,
    }
}

/// A new local subscriber.
pub open spec fn remote_local_sub_spec(s: RemoteRelayView, actor: FeatureControlActor) -> RemoteRelayView {
    match s.state {
        RelayStateView::New | RelayStateView::Unbound => fresh_binding(s, consumers_local_sub(empty_consumers(), actor), None),
        RelayStateView::Unbinding { next, .. } => fresh_binding(s, consumers_local_sub(empty_consumers(), actor), Some(next)),
        RelayStateView::Binding { consumers, feedbacks } => {
            let c = consumers_local_sub(consumers, actor);
            RemoteRelayView { state: RelayStateView::Binding { consumers: drained(c), feedbacks }, queue: s.queue + to_worker(c.queue), ..s }
        },
        RelayStateView::Bound { consumers, feedbacks, next, sticky_session_at } => {
            let c = consumers_local_sub(consumers, actor);
            RemoteRelayView {
                state: RelayStateView::Bound { consumers: drained(c), feedbacks, next, sticky_session_at },
                queue: s.queue + to_worker(c.queue),
                ..s
            }
        },
    }
}

/// A feedback from a local subscriber; only a binding or bound relay keeps it.
pub open spec fn remote_local_feedback_spec(s: RemoteRelayView, now: u64, actor: FeatureControlActor, fb: Feedback) -> RemoteRelayView {
    match s.state {
        RelayStateView::Binding { consumers, feedbacks } => RemoteRelayView {
            state: RelayStateView::Binding { consumers, feedbacks: on_feedback_spec(feedbacks, now, FeedbackSource::Local(actor), fb) },
            ..s
        },
        RelayStateView::Bound { consumers, feedbacks, next, sticky_session_at } => bound_feedback(
            s,
            consumers,
            on_feedback_spec(feedbacks, now, FeedbackSource::Local(actor), fb),
            next,
            sticky_session_at,
        ),
        _ => s,
    }
}

/// A local subscriber leaves.
pub open spec fn remote_local_unsub_spec(s: RemoteRelayView, now: u64, actor: FeatureControlActor) -> RemoteRelayView {
    match s.state {
        RelayStateView::Binding { consumers, feedbacks } => binding_after(s, consumers_local_unsub(consumers, actor), feedbacks),
        RelayStateView::Bound { consumers, feedbacks, next, sticky_session_at } => bound_after(
            s,
            now,
            consumers_local_unsub(consumers, actor),
            feedbacks,
            next,
            sticky_session_at,
        ),
        _ => s,
    }
}

/// The notices of a route change to the consumers: to the remote ones if any, then to each
/// local one.
pub open spec fn notify_route_changed(c: ConsumersView) -> Seq<RelayOutputView> {
    (if c.remotes.len() > 0 { seq![cmd(RelayWorkerControl::SendRouteChanged)] } else { Seq::empty() }) + route_changed(c.locals)
}

/// A control from the neighbour `remote`. Answers carry the relay's session and are
/// ignored with another one.
pub open spec fn remote_on_remote_spec(s: RemoteRelayView, now: u64, remote: PeerAddr, control: RelayControl) -> RemoteRelayView {
    match control {
        RelayControl::SubOK(uuid) => {
            if uuid != s.uuid {
                s
            } else {
                match s.state {
                    RelayStateView::Binding { consumers, feedbacks } => RemoteRelayView {
                        state: RelayStateView::Bound { consumers, feedbacks, next: remote, sticky_session_at: now },
                        queue: s.queue.push(cmd(RelayWorkerControl::RouteSetSource(remote))),
                        ..s
                    },
                    RelayStateView::Bound { consumers, feedbacks, next, sticky_session_at } => {
                        if next == remote {
                            RemoteRelayView { state: RelayStateView::Bound { consumers, feedbacks, next, sticky_session_at: now }, ..s }
                        } else {
                            let unsub = seq![cmd(RelayWorkerControl::SendUnsub(s.uuid, next))];
                            let remotes = if consumers.remotes.len() > 0 {
                                seq![cmd(RelayWorkerControl::SendRouteChanged)]
                            } else {
                                Seq::empty()
                            };
                            RemoteRelayView {
                                state: RelayStateView::Bound { consumers, feedbacks, next: remote, sticky_session_at },
                                queue: s.queue + unsub + remotes + seq![cmd(RelayWorkerControl::RouteSetSource(remote))] + route_changed(consumers.locals),
                                ..s
                            }
                        }
                    },
                    _ => s,
                }
            }
        },
        RelayControl::UnsubOK(uuid) => {
            if uuid == s.uuid && s.state is Unbinding {
                RemoteRelayView { state: RelayStateView::Unbound, ..s }
            } else {
                s
            }
        },
        RelayControl::RouteChanged(uuid) => {
            match s.state {
                RelayStateView::Bound { consumers, .. } => {
                    if uuid == s.uuid {
                        RemoteRelayView { queue: s.queue + notify_route_changed(consumers), ..s }
                    } else {
                        s
                    }
                },
                _ => s,
            }
        },
        RelayControl::Feedback(fb) => {
            match s.state {
                RelayStateView::Binding { consumers, feedbacks } => RemoteRelayView {
                    state: RelayStateView::Binding { consumers, feedbacks: on_feedback_spec(feedbacks, now, FeedbackSource::Remote(remote), fb) },
                    ..s
                },
                RelayStateView::Bound { consumers, feedbacks, next, sticky_session_at } => bound_feedback(
                    s,
                    consumers,
                    on_feedback_spec(feedbacks, now, FeedbackSource::Remote(remote), fb),
                    next,
                    sticky_session_at,
                ),
                _ => s,
            }
        },
        _ => {
            match s.state {
                RelayStateView::New | RelayStateView::Unbound => fresh_binding(s, consumers_remote(empty_consumers(), now, remote, control), None),
                RelayStateView::Unbinding { next, .. } => fresh_binding(s, consumers_remote(empty_consumers(), now, remote, control), Some(next)),
                RelayStateView::Binding { consumers, feedbacks } => binding_after(s, consumers_remote(consumers, now, remote, control), feedbacks),
                RelayStateView::Bound { consumers, feedbacks, next, sticky_session_at } => bound_after(
                    s,
                    now,
                    consumers_remote(consumers, now, remote, control),
                    feedbacks,
                    next,
                    sticky_session_at,
                ),
            }
        },
    }
}

/// Whether a feedback of `src` can be taken in the state `s` (the merge must not overflow).
pub open spec fn remote_accepts_feedback(s: RemoteRelayView, now: u64, src: FeedbackSource, fb: Feedback) -> bool {
    match s.state {
        RelayStateView::Binding { feedbacks, .. } => accepts_feedback(feedbacks, now, src, fb),
        RelayStateView::Bound { feedbacks, .. } => accepts_feedback(feedbacks, now, src, fb),
        _ => true,
    }
}

impl RemoteRelay {
    /// The invariant: the consumers and feedbacks held are valid, and timestamps stay below
    /// [`TIME_LIMIT_MS`].
    pub closed spec fn wf(&self) -> bool {
        self.state.wf()
    }

    /// A fresh relay, with session `uuid`.
    pub fn new(uuid: u64) -> (r: Self)
        ensures
            r.wf(),
            r@ == (RemoteRelayView { uuid, state: RelayStateView::New, queue: Seq::empty() }),
    {
        let r = RemoteRelay { uuid, state: RelayState::New, queue: VecDeque::new() };
        assert(r@.queue =~= Seq::empty());
        r
    }

    fn take_state(&mut self) -> (st: RelayState)
        ensures
            st == old(self).state,
            final(self).state == RelayState::New,
            final(self).uuid == old(self).uuid,
            final(self).queue == old(self).queue,
    {
        let mut st = RelayState::New;
        std::mem::swap(&mut st, &mut self.state);
        st
    }

    fn start_binding(&mut self, consumers: RelayConsummers, hint: Option<PeerAddr>)
        requires
            consumers.wf(),
        ensures
            final(self).wf(),
            final(self)@ == fresh_binding(old(self)@, consumers@, hint),
    {
        let mut consumers = consumers;
        let feedbacks = FeedbacksAggerator::new();
        assert(feedbacks@ == empty_agg()) by {
            assert(feedbacks@.kinds =~= Seq::empty());
            assert(feedbacks@.queue =~= Seq::empty());
        }
        pop_consumers_out(&mut consumers, &mut self.queue);
        push_out(&mut self.queue, GenericRelayOutput::ToWorker(RelayWorkerControl::SendSub(self.uuid, hint)));
        self.state = RelayState::Binding { consumers, feedbacks };
    }

    fn finish_binding(&mut self, consumers: RelayConsummers, feedbacks: FeedbacksAggerator)
        requires
            consumers.wf(),
            feedbacks.wf(),
        ensures
            final(self).wf(),
            final(self)@ == binding_after(old(self)@, consumers@, feedbacks@),
    {
        let mut consumers = consumers;
        pop_consumers_out(&mut consumers, &mut self.queue);
        if consumers.should_clear() {
            self.state = RelayState::Unbound;
        } else {
            self.state = RelayState::Binding { consumers, feedbacks };
        }
    }

    fn finish_bound(&mut self, now: u64, consumers: RelayConsummers, feedbacks: FeedbacksAggerator, next: PeerAddr, sticky: u64)
        requires
            consumers.wf(),
            feedbacks.wf(),
            sticky <= TIME_LIMIT_MS,
            now <= TIME_LIMIT_MS,
        ensures
            final(self).wf(),
            final(self)@ == bound_after(old(self)@, now, consumers@, feedbacks@, next, sticky),
    {
        let mut consumers = consumers;
        pop_consumers_out(&mut consumers, &mut self.queue);
        if consumers.should_clear() {
            push_out(&mut self.queue, GenericRelayOutput::ToWorker(RelayWorkerControl::SendUnsub(self.uuid, next)));
            push_out(&mut self.queue, GenericRelayOutput::ToWorker(RelayWorkerControl::RouteDelSource(next)));
            self.state = RelayState::Unbinding { next, started_at: now };
        } else {
            self.state = RelayState::Bound { consumers, feedbacks, next, sticky_session_at: sticky };
        }
    }

    fn finish_bound_feedback(&mut self, consumers: RelayConsummers, feedbacks: FeedbacksAggerator, next: PeerAddr, sticky: u64)
        requires
            consumers.wf(),
            feedbacks.wf(),
            sticky <= TIME_LIMIT_MS,
        ensures
            final(self).wf(),
            final(self)@ == bound_feedback(old(self)@, consumers@, feedbacks@, next, sticky),
    {
        let mut feedbacks = feedbacks;
        pop_feedbacks_out(next, &mut feedbacks, &mut self.queue);
        self.state = RelayState::Bound { consumers, feedbacks, next, sticky_session_at: sticky };
    }

    /// Periodic work: renews or retries the subscription and drops what timed out.
    pub fn on_tick(&mut self, now: u64)
        requires
            old(self).wf(),
            now <= TIME_LIMIT_MS,
        ensures
            final(self).wf(),
            final(self)@ == remote_tick_spec(old(self)@, now),
    {
        let uuid = self.uuid;
        let st = self.take_state();
        match st {
            RelayState::Bound { mut consumers, mut feedbacks, next, sticky_session_at } => {
                if now >= sticky_session_at + RELAY_STICKY_MS {
                    push_out(&mut self.queue, GenericRelayOutput::ToWorker(RelayWorkerControl::SendSub(uuid, None)));
                } else {
                    push_out(&mut self.queue, GenericRelayOutput::ToWorker(RelayWorkerControl::SendSub(uuid, Some(next))));
                }
                consumers.on_tick(now);
                feedbacks.on_tick(now);
                pop_consumers_out(&mut consumers, &mut self.queue);
                pop_feedbacks_out(next, &mut feedbacks, &mut self.queue);
                if consumers.should_clear() {
                    push_out(&mut self.queue, GenericRelayOutput::ToWorker(RelayWorkerControl::SendUnsub(uuid, next)));
                    push_out(&mut self.queue, GenericRelayOutput::ToWorker(RelayWorkerControl::RouteDelSource(next)));
                    self.state = RelayState::Unbinding { next, started_at: now };
                } else {
                    self.state = RelayState::Bound { consumers, feedbacks, next, sticky_session_at };
                }
            },
            RelayState::Binding { mut consumers, feedbacks } => {
                push_out(&mut self.queue, GenericRelayOutput::ToWorker(RelayWorkerControl::SendSub(uuid, None)));
                consumers.on_tick(now);
                self.finish_binding(consumers, feedbacks);
            },
            RelayState::Unbinding { next, started_at } => {
                if now >= started_at + RELAY_TIMEOUT {
                    self.state = RelayState::Unbound;
                } else {
                    push_out(&mut self.queue, GenericRelayOutput::ToWorker(RelayWorkerControl::SendUnsub(uuid, next)));
                    self.state = RelayState::Unbinding { next, started_at };
                }
            },
            other => {
                self.state = other;
            },
        }
    }

    /// The connection to `remote` closed.
    pub fn conn_disconnected(&mut self, now: u64, remote: PeerAddr)
        requires
            old(self).wf(),
            now <= TIME_LIMIT_MS,
        ensures
            final(self).wf(),
            final(self)@ == remote_disconnected_spec(old(self)@, now, remote),
    {
        let uuid = self.uuid;
        let st = self.take_state();
        match st {
            RelayState::Bound { mut consumers, feedbacks, next, sticky_session_at } => {
                consumers.conn_disconnected(now, remote);
                if next == remote {
                    pop_consumers_out(&mut consumers, &mut self.queue);
                    self.state = RelayState::Binding { consumers, feedbacks };
                    push_out(&mut self.queue, GenericRelayOutput::ToWorker(RelayWorkerControl::SendSub(uuid, None)));
                } else {
                    self.finish_bound(now, consumers, feedbacks, next, sticky_session_at);
                }
            },
            RelayState::Binding { mut consumers, feedbacks } => {
                consumers.conn_disconnected(now, remote);
                self.finish_binding(consumers, feedbacks);
            },
            other => {
                self.state = other;
            },
        }
    }

    /// Adds a local subscriber; a relay without consumers starts binding.
    pub fn on_local_sub(&mut self, now: u64, actor: FeatureControlActor)
        requires
            old(self).wf(),
        ensures
            final(self).wf(),
            final(self)@ == remote_local_sub_spec(old(self)@, actor),
    {
        let st = self.take_state();
        match st {
            RelayState::New | RelayState::Unbound => {
                let mut consumers = RelayConsummers::new();
                consumers.on_local_sub(now, actor);
                self.start_binding(consumers, None);
            },
            RelayState::Unbinding { next, .. } => {
                let mut consumers = RelayConsummers::new();
                consumers.on_local_sub(now, actor);
                self.start_binding(consumers, Some(next));
            },
            RelayState::Binding { mut consumers, feedbacks } => {
                consumers.on_local_sub(now, actor);
                pop_consumers_out(&mut consumers, &mut self.queue);
                self.state = RelayState::Binding { consumers, feedbacks };
            },
            RelayState::Bound { mut consumers, feedbacks, next, sticky_session_at } => {
                consumers.on_local_sub(now, actor);
                pop_consumers_out(&mut consumers, &mut self.queue);
                self.state = RelayState::Bound { consumers, feedbacks, next, sticky_session_at };
            },
        }
    }

    /// Takes a feedback from a local subscriber; a bound relay sends the merge to its next hop.
    pub fn on_local_feedback(&mut self, now: u64, actor: FeatureControlActor, feedback: Feedback)
        requires
            old(self).wf(),
            now <= TIME_LIMIT_MS,
            remote_accepts_feedback(old(self)@, now, FeedbackSource::Local(actor), feedback),
        ensures
            final(self).wf(),
            final(self)@ == remote_local_feedback_spec(old(self)@, now, actor, feedback),
    {
        let st = self.take_state();
        match st {
            RelayState::Binding { consumers, mut feedbacks } => {
                feedbacks.on_local_feedback(now, actor, feedback);
                self.state = RelayState::Binding { consumers, feedbacks };
            },
            RelayState::Bound { consumers, mut feedbacks, next, sticky_session_at } => {
                feedbacks.on_local_feedback(now, actor, feedback);
                self.finish_bound_feedback(consumers, feedbacks, next, sticky_session_at);
            },
            other => {
                self.state = other;
            },
        }
    }

    /// Removes a local subscriber; a relay left without consumers stops.
    pub fn on_local_unsub(&mut self, now: u64, actor: FeatureControlActor)
        requires
            old(self).wf(),
            now <= TIME_LIMIT_MS,
        ensures
            final(self).wf(),
            final(self)@ == remote_local_unsub_spec(old(self)@, now, actor),
    {
        let st = self.take_state();
        match st {
            RelayState::Binding { mut consumers, feedbacks } => {
                consumers.on_local_unsub(now, actor);
                self.finish_binding(consumers, feedbacks);
            },
            RelayState::Bound { mut consumers, feedbacks, next, sticky_session_at } => {
                consumers.on_local_unsub(now, actor);
                self.finish_bound(now, consumers, feedbacks, next, sticky_session_at);
            },
            other => {
                self.state = other;
            },
        }
    }

    /// Handles a control from the neighbour `remote`.
    #[verifier::rlimit(40)]
    pub fn on_remote(&mut self, now: u64, remote: PeerAddr, control: RelayControl)
        requires
            old(self).wf(),
            now <= TIME_LIMIT_MS,
            control is Feedback ==> remote_accepts_feedback(old(self)@, now, FeedbackSource::Remote(remote), control->Feedback_0),
        ensures
            final(self).wf(),
            final(self)@ == remote_on_remote_spec(old(self)@, now, remote, control),
    {
        let uuid = self.uuid;
        match control {
            RelayControl::SubOK(id) => {
                if id != uuid {
                    return;
                }
                let st = self.take_state();
                match st {
                    RelayState::Binding { consumers, feedbacks } => {
                        push_out(&mut self.queue, GenericRelayOutput::ToWorker(RelayWorkerControl::RouteSetSource(remote)));
                        self.state = RelayState::Bound { consumers, feedbacks, next: remote, sticky_session_at: now };
                    },
                    RelayState::Bound { consumers, feedbacks, next, sticky_session_at } => {
                        if next == remote {
                            self.state = RelayState::Bound { consumers, feedbacks, next, sticky_session_at: now };
                        } else {
                            let ghost q0 = self@.queue;
                            let (locals, has_remote) = consumers.relay_dests();
                            push_out(&mut self.queue, GenericRelayOutput::ToWorker(RelayWorkerControl::SendUnsub(uuid, next)));
                            let ghost q1 = self@.queue;
                            if has_remote {
                                push_out(&mut self.queue, GenericRelayOutput::ToWorker(RelayWorkerControl::SendRouteChanged));
                            }
                            let ghost remotes = if has_remote {
                                seq![cmd(RelayWorkerControl::SendRouteChanged)]
                            } else {
                                Seq::empty()
                            };
                            assert(self@.queue =~= q1 + remotes);
                            push_out(&mut self.queue, GenericRelayOutput::ToWorker(RelayWorkerControl::RouteSetSource(remote)));
                            push_route_changed(locals, &mut self.queue);
                            assert(self@.queue =~= q0 + seq![cmd(RelayWorkerControl::SendUnsub(uuid, next))] + remotes + seq![
                                cmd(RelayWorkerControl::RouteSetSource(remote)),
                            ] + route_changed(consumers@.locals));
                            self.state = RelayState::Bound { consumers, feedbacks, next: remote, sticky_session_at };
                        }
                    },
                    other => {
                        self.state = other;
                    },
                }
            },
            RelayControl::UnsubOK(id) => {
                if id != uuid {
                    return;
                }
                let st = self.take_state();
                match st {
                    RelayState::Unbinding { .. } => {
                        self.state = RelayState::Unbound;
                    },
                    other => {
                        self.state = other;
                    },
                }
            },
            RelayControl::RouteChanged(id) => {
                if id != uuid {
                    return;
                }
                match &self.state {
                    RelayState::Bound { consumers, .. } => {
                        let ghost q0 = outs_view(self.queue@);
                        let (locals, has_remote) = consumers.relay_dests();
                        if has_remote {
                            push_out(&mut self.queue, GenericRelayOutput::ToWorker(RelayWorkerControl::SendRouteChanged));
                        }
                        let ghost q1 = outs_view(self.queue@);
                        push_route_changed(locals, &mut self.queue);
                        assert(q1 =~= q0 + (if has_remote {
                            seq![cmd(RelayWorkerControl::SendRouteChanged)]
                        } else {
                            Seq::empty()
                        }));
                        assert(outs_view(self.queue@) =~= q0 + notify_route_changed(consumers@));
                    },
                    _ => {},
                }
            },
            RelayControl::Feedback(fb) => {
                let st = self.take_state();
                match st {
                    RelayState::Binding { consumers, mut feedbacks } => {
                        feedbacks.on_remote_feedback(now, remote, fb);
                        self.state = RelayState::Binding { consumers, feedbacks };
                    },
                    RelayState::Bound { consumers, mut feedbacks, next, sticky_session_at } => {
                        feedbacks.on_remote_feedback(now, remote, fb);
                        self.finish_bound_feedback(consumers, feedbacks, next, sticky_session_at);
                    },
                    other => {
                        self.state = other;
                    },
                }
            },
            _ => {
                let st = self.take_state();
                match st {
                    RelayState::New | RelayState::Unbound => {
                        let mut consumers = RelayConsummers::new();
                        consumers.on_remote(now, remote, control);
                        self.start_binding(consumers, None);
                    },
                    RelayState::Unbinding { next, .. } => {
                        let mut consumers = RelayConsummers::new();
                        consumers.on_remote(now, remote, control);
                        self.start_binding(consumers, Some(next));
                    },
                    RelayState::Binding { mut consumers, feedbacks } => {
                        consumers.on_remote(now, remote, control);
                        self.finish_binding(consumers, feedbacks);
                    },
                    RelayState::Bound { mut consumers, feedbacks, next, sticky_session_at } => {
                        consumers.on_remote(now, remote, control);
                        self.finish_bound(now, consumers, feedbacks, next, sticky_session_at);
                    },
                }
            },
        }
    }

    /// Hands out the oldest output.
    pub fn pop_output(&mut self) -> (r: Option<GenericRelayOutput>)
        requires
            old(self).wf(),
        ensures
            final(self).wf(),
            old(self)@.queue.len() == 0 ==> r is None && final(self)@ == old(self)@,
            old(self)@.queue.len() > 0 ==> r is Some && r->0@ == old(self)@.queue[0]
                && final(self)@ == (RemoteRelayView { queue: old(self)@.queue.drop_first(), ..old(self)@ }),
    {
        let ghost q = self.queue@;
        let r = self.queue.pop_front();
        proof {
            if q.len() > 0 {
                assert(outs_view(q.drop_first()) =~= outs_view(q).drop_first());
            }
        }
        r
    }

    /// The local subscribers, and whether a remote consumer exists, of a relay that has
    /// consumers (binding or bound).
    pub fn relay_dests(&self) -> (r: Option<(&[FeatureControlActor], bool)>)
        ensures
            match self@.state {
                RelayStateView::Binding { consumers, .. } | RelayStateView::Bound { consumers, .. } => r matches Some((locals, has_remote))
                    && locals@ == consumers.locals && has_remote == (consumers.remotes.len() > 0),
                _ => r is None,
            },
    {
        match &self.state {
            RelayState::Bound { consumers, .. } | RelayState::Binding { consumers, .. } => Some(consumers.relay_dests()),
            _ => None,
        }
    }

    /// The relay is done and can be dropped.
    pub fn should_clear(&self) -> (r: bool)
        ensures
            r == (self@.state is Unbound),
    {
        match self.state {
            RelayState::Unbound => true,
            _ => false,
        }
    }
}


/// On a fresh relay, a local subscription followed by the same actor's unsubscription
/// leaves the relay done, with nothing bound.
pub proof fn law_fresh_sub_unsub_clears(s: RemoteRelayView, now: u64, actor: FeatureControlActor)
    requires
        s.state is New,
    ensures
        remote_local_unsub_spec(remote_local_sub_spec(s, actor), now, actor).state is Unbound,
{
    let c = consumers_local_sub(empty_consumers(), actor);
    assert(c.locals =~= seq![actor]);
    let d = drained(c);
    let c2 = consumers_local_unsub(d, actor);
    assert(d.locals.contains(actor)) by {
        assert(d.locals[0] == actor);
    }
    assert(c2.locals.len() == 0);
}

/// An unbinding relay is done at the first tick at least [`RELAY_TIMEOUT`] after it started
/// unbinding.
pub proof fn law_unbinding_times_out(s: RemoteRelayView, now: u64)
    requires
        s.state matches RelayStateView::Unbinding { started_at, .. } && now >= started_at + RELAY_TIMEOUT,
    ensures
        remote_tick_spec(s, now).state is Unbound,
        remote_tick_spec(s, now).queue == s.queue,
{
}

/// A bound relay whose last consumer leaves unsubscribes from its next hop and removes the
/// route to it, in this order, after the consumers' own route changes.
pub proof fn law_last_unsub_leaves_next_hop(s: RemoteRelayView, now: u64, actor: FeatureControlActor)
    requires
        s.state matches RelayStateView::Bound { consumers, .. } && consumers.remotes.len() == 0 && consumers.locals == seq![actor],
    ensures
        ({
            let t = remote_local_unsub_spec(s, now, actor);
            let next = s.state->Bound_next;
            &&& t.state == RelayStateView::Unbinding { next, started_at: now }
            &&& t.queue.len() >= 2
            &&& t.queue[t.queue.len() - 2] == cmd(RelayWorkerControl::SendUnsub(s.uuid, next))
            &&& t.queue.last() == cmd(RelayWorkerControl::RouteDelSource(next))
        }),
{
    let c = s.state->Bound_consumers;
    assert(c.locals.contains(actor)) by {
        assert(c.locals[0] == actor);
    }
    let c2 = consumers_local_unsub(c, actor);
    assert(c2.locals.len() == 0);
}

} // verus!
