//! Source hints: a tree along the routes to a channel's root node (the node closest to the
//! channel id) through which nodes learn which nodes are sources of the channel.
//!
//! A node that subscribes sends `Subscribe` to its next hop; each node keeps its subscribers
//! and subscribes in turn while it has any. A source sends `Register` up to the root; each
//! node on the way relays it to its subscribers but the sender. Subscribers and sources
//! repeat their messages on every tick, and entries not renewed within [`TIMEOUT_MS`] are
//! dropped. `SubscribeOk` names the next hop, and relayed notices are only taken from it.

use std::collections::VecDeque;
use vstd::prelude::*;

use super::msg::{SourceHint, SourceHintView};
use super::timed_map::{expired, has_key, keys_of, live, seen_by, timed_insert, timed_remove, TimedMap};
use crate::types::{add_actor, copy_actors, swap_remove_actor, swap_removed, FeatureControlActor, NodeId, PeerAddr};

verus! {

/// A remote subscriber or source not renewed within this time is dropped.
pub const TIMEOUT_MS: u64 = 10_000;

/// What a local actor asks of a channel.
#[derive(Debug, Clone, Copy, PartialEq, Eq, Structural)]
pub enum LocalCmd {
    Register,
    Unregister,
    Subscribe,
    Unsubscribe,
}

/// An output of the source-hint logic: a message to a neighbour (to the next hop towards
/// the root when no address is given), or a source that starts or stops for local actors.
#[derive(Debug, PartialEq, Eq)]
pub enum Output {
    SendRemote(Option<PeerAddr>, SourceHint),
    SubscribeSource(Vec<FeatureControlActor>, NodeId),
    UnsubscribeSource(Vec<FeatureControlActor>, NodeId),
}

/// Mathematical form of [`Output`].
pub enum OutputView {
    SendRemote(Option<PeerAddr>, SourceHintView),
    SubscribeSource(Seq<FeatureControlActor>, NodeId),
    UnsubscribeSource(Seq<FeatureControlActor>, NodeId),
}

impl View for Output {
    type V = OutputView;

    open spec fn view(&self) -> OutputView {
        match self {
            Output::SendRemote(to, m) => OutputView::SendRemote(*to, m@),
            Output::SubscribeSource(a, s) => OutputView::SubscribeSource(a@, *s),
            Output::UnsubscribeSource(a, s) => OutputView::UnsubscribeSource(a@, *s),
        }
    }
}

/// Mathematical state of a [`SourceHintLogic`].
pub struct SourceHintState {
    pub node_id: NodeId,
    pub session_id: u64,
    pub remote_sources: Seq<(NodeId, u64)>,
    pub remote_subscribers: Seq<(PeerAddr, u64)>,
    pub local_sources: Seq<FeatureControlActor>,
    pub local_subscribers: Seq<FeatureControlActor>,
    pub next_hop: Option<PeerAddr>,
    pub queue: Seq<OutputView>,
}

/// The source hints of one channel on this node.
pub struct SourceHintLogic {
    node_id: NodeId,
    session_id: u64,
    remote_sources: TimedMap<NodeId>,
    remote_subscribers: TimedMap<PeerAddr>,
    local_sources: Vec<FeatureControlActor>,
    local_subscribers: Vec<FeatureControlActor>,
    next_hop: Option<PeerAddr>,
    queue: VecDeque<Output>,
}

pub open spec fn outputs(q: Seq<Output>) -> Seq<OutputView> {
    q.map_values(|o: Output| o@)
}

impl View for SourceHintLogic {
    type V = SourceHintState;

    closed spec fn view(&self) -> SourceHintState {
        SourceHintState {
            node_id: self.node_id,
            session_id: self.session_id,
            remote_sources: self.remote_sources@,
            remote_subscribers: self.remote_subscribers@,
            local_sources: self.local_sources@,
            local_subscribers: self.local_subscribers@,
            next_hop: self.next_hop,
            queue: outputs(self.queue@),
        }
    }
}

pub open spec fn send(to: Option<PeerAddr>, m: SourceHintView) -> OutputView {
    OutputView::SendRemote(to, m)
}

/// `m` to each of `addrs` but `except`, in order.
pub open spec fn send_each(addrs: Seq<PeerAddr>, except: Option<PeerAddr>, m: SourceHintView) -> Seq<OutputView>
    decreases addrs.len(),
{
    if addrs.len() == 0 {
        Seq::empty()
    } else if except == Some(addrs.last()) {
        send_each(addrs.drop_last(), except, m)
    } else {
        send_each(addrs.drop_last(), except, m).push(send(Some(addrs.last()), m))
    }
}

/// For each of `sources`, in order, the notice to `actors` that it started.
pub open spec fn subscribe_each(sources: Seq<NodeId>, actors: Seq<FeatureControlActor>) -> Seq<OutputView> {
    sources.map_values(|s: NodeId| OutputView::SubscribeSource(actors, s))
}

/// For each of `sources`, in order, the notice to `actors` that it stopped.
pub open spec fn unsubscribe_each(sources: Seq<NodeId>, actors: Seq<FeatureControlActor>) -> Seq<OutputView> {
    sources.map_values(|s: NodeId| OutputView::UnsubscribeSource(actors, s))
}

/// `x` alone when `c` holds, nothing otherwise.
pub open spec fn when(c: bool, x: OutputView) -> Seq<OutputView> {
    if c {
        seq![x]
    } else {
        Seq::empty()
    }
}

/// The known sources: the remote ones in order, then this node if it is a source.
pub open spec fn sources_spec(s: SourceHintState) -> Seq<NodeId> {
    keys_of(s.remote_sources) + if s.local_sources.len() > 0 {
        seq![s.node_id]
    } else {
        Seq::<NodeId>::empty()
    }
}

/// A tick: subscribers and sources not renewed in time are dropped (the next hop is left
/// when no subscriber remains; local subscribers learn which sources stopped); a local
/// source registers again with the root and each subscriber; a node with subscribers
/// subscribes again.
pub open spec fn hint_tick_spec(s: SourceHintState, now: u64) -> SourceHintState {
    let subs = live(s.remote_subscribers, now, TIMEOUT_MS);
    let gone_subs = expired(s.remote_subscribers, now, TIMEOUT_MS);
    let gone_srcs = expired(s.remote_sources, now, TIMEOUT_MS);
    let q1 = when(
        gone_subs.len() > 0 && subs.len() == 0 && s.local_subscribers.len() == 0,
        send(None, SourceHintView::Unsubscribe(s.session_id)),
    );
    let q2 = if s.local_subscribers.len() > 0 {
        unsubscribe_each(gone_srcs, s.local_subscribers)
    } else {
        Seq::empty()
    };
    let q3 = if s.local_sources.len() > 0 {
        seq![send(None, SourceHintView::Register { source: s.node_id, to_root: true })] + send_each(
            keys_of(subs),
            None,
            SourceHintView::Register { source: s.node_id, to_root: false },
        )
    } else {
        Seq::empty()
    };
    let q4 = when(s.local_subscribers.len() > 0 || subs.len() > 0, send(None, SourceHintView::Subscribe(s.session_id)));
    SourceHintState {
        remote_subscribers: subs,
        remote_sources: live(s.remote_sources, now, TIMEOUT_MS),
        queue: s.queue + q1 + q2 + q3 + q4,
        ..s
    }
}

/// A command of a local actor.
pub open spec fn hint_local_spec(s: SourceHintState, actor: FeatureControlActor, cmd: LocalCmd) -> SourceHintState {
    match cmd {
        LocalCmd::Register => {
            if s.local_sources.contains(actor) {
                s
            } else {
                let first = s.local_sources.len() == 0;
                let q1 = when(first && s.remote_sources.len() == 0, send(None, SourceHintView::Register { source: s.node_id, to_root: true }));
                let q2 = if first {
                    send_each(keys_of(s.remote_subscribers), None, SourceHintView::Register { source: s.node_id, to_root: false }) + when(
                        s.local_subscribers.len() > 0,
                        OutputView::SubscribeSource(s.local_subscribers, s.node_id),
                    )
                } else {
                    Seq::empty()
                };
                SourceHintState { local_sources: s.local_sources.push(actor), queue: s.queue + q1 + q2, ..s }
            }
        },
        LocalCmd::Unregister => {
            if !s.local_sources.contains(actor) {
                s
            } else {
                let rest = swap_removed(s.local_sources, s.local_sources.index_of(actor));
                let q1 = when(rest.len() == 0 && s.remote_sources.len() == 0, send(None, SourceHintView::Unregister { source: s.node_id, to_root: true }));
                let q2 = if rest.len() == 0 {
                    send_each(keys_of(s.remote_subscribers), None, SourceHintView::Unregister { source: s.node_id, to_root: false }) + when(
                        s.local_subscribers.len() > 0,
                        OutputView::UnsubscribeSource(s.local_subscribers, s.node_id),
                    )
                } else {
                    Seq::empty()
                };
                SourceHintState { local_sources: rest, queue: s.queue + q1 + q2, ..s }
            }
        },
        LocalCmd::Subscribe => {
            if s.local_subscribers.contains(actor) {
                s
            } else {
                let q1 = when(
                    s.local_subscribers.len() == 0 && s.remote_subscribers.len() == 0,
                    send(None, SourceHintView::Subscribe(s.session_id)),
                );
                let q2 = subscribe_each(keys_of(s.remote_sources), seq![actor]) + when(
                    s.local_sources.len() > 0,
                    OutputView::SubscribeSource(seq![actor], s.node_id),
                );
                SourceHintState { local_subscribers: s.local_subscribers.push(actor), queue: s.queue + q1 + q2, ..s }
            }
        },
        LocalCmd::Unsubscribe => {
            if !s.local_subscribers.contains(actor) {
                s
            } else {
                let rest = swap_removed(s.local_subscribers, s.local_subscribers.index_of(actor));
                let q1 = when(rest.len() == 0 && s.remote_subscribers.len() == 0, send(None, SourceHintView::Unsubscribe(s.session_id)));
                let q2 = unsubscribe_each(keys_of(s.remote_sources), seq![actor]) + when(
                    s.local_sources.len() > 0,
                    OutputView::UnsubscribeSource(seq![actor], s.node_id),
                );
                SourceHintState { local_subscribers: rest, queue: s.queue + q1 + q2, ..s }
            }
        },
    }
}

/// One source of a snapshot: recorded as seen now; when new, relayed to each subscriber
/// and announced to the local subscribers.
pub open spec fn snapshot_source(s: SourceHintState, now: u64, source: NodeId) -> SourceHintState {
    let q = if has_key(s.remote_sources, source) {
        Seq::empty()
    } else {
        send_each(keys_of(s.remote_subscribers), None, SourceHintView::Register { source, to_root: false }) + when(
            s.local_subscribers.len() > 0,
            OutputView::SubscribeSource(s.local_subscribers, source),
        )
    };
    SourceHintState { remote_sources: timed_insert(s.remote_sources, source, now), queue: s.queue + q, ..s }
}

/// The sources of a snapshot, taken in order.
pub open spec fn snapshot_sources(s: SourceHintState, now: u64, sources: Seq<NodeId>) -> SourceHintState
    decreases sources.len(),
{
    if sources.len() == 0 {
        s
    } else {
        snapshot_source(snapshot_sources(s, now, sources.drop_last()), now, sources.last())
    }
}

/// A message from the neighbour `remote`. Relayed (not to-root) notices are only taken from
/// the next hop.
pub open spec fn hint_remote_spec(s: SourceHintState, now: u64, remote: PeerAddr, msg: SourceHintView) -> SourceHintState {
    match msg {
        SourceHintView::Register { source, to_root } => {
            if !to_root && s.next_hop != Some(remote) {
                s
            } else {
                let q1 = when(to_root, send(None, SourceHintView::Register { source, to_root: true }));
                let q2 = send_each(keys_of(s.remote_subscribers), Some(remote), SourceHintView::Register { source, to_root: false });
                let q3 = when(
                    !has_key(s.remote_sources, source) && s.local_subscribers.len() > 0,
                    OutputView::SubscribeSource(s.local_subscribers, source),
                );
                SourceHintState { remote_sources: timed_insert(s.remote_sources, source, now), queue: s.queue + q1 + q2 + q3, ..s }
            }
        },
        SourceHintView::Unregister { source, to_root } => {
            if !to_root && s.next_hop != Some(remote) {
                s
            } else {
                let q1 = when(to_root, send(None, SourceHintView::Unregister { source, to_root: true }));
                let q2 = send_each(keys_of(s.remote_subscribers), Some(remote), SourceHintView::Unregister { source, to_root: false });
                let q3 = when(
                    has_key(s.remote_sources, source) && s.local_subscribers.len() > 0,
                    OutputView::UnsubscribeSource(s.local_subscribers, source),
                );
                SourceHintState { remote_sources: timed_remove(s.remote_sources, source), queue: s.queue + q1 + q2 + q3, ..s }
            }
        },
        SourceHintView::Subscribe(session) => {
            let ok = send(Some(remote), SourceHintView::SubscribeOk(session));
            let subs = timed_insert(s.remote_subscribers, remote, now);
            if has_key(s.remote_subscribers, remote) {
                SourceHintState { remote_subscribers: subs, queue: s.queue.push(ok), ..s }
            } else {
                let q1 = when(
                    s.remote_subscribers.len() == 0 && s.local_subscribers.len() == 0,
                    send(None, SourceHintView::Subscribe(s.session_id)),
                );
                let q2 = when(sources_spec(s).len() > 0, send(Some(remote), SourceHintView::Sources(sources_spec(s))));
                SourceHintState { remote_subscribers: subs, queue: s.queue.push(ok) + q1 + q2, ..s }
            }
        },
        SourceHintView::SubscribeOk(session) => {
            if session == s.session_id {
                SourceHintState { next_hop: Some(remote), ..s }
            } else {
                s
            }
        },
        SourceHintView::Unsubscribe(session) => {
            let ok = send(Some(remote), SourceHintView::UnsubscribeOk(session));
            if has_key(s.remote_subscribers, remote) {
                let subs = timed_remove(s.remote_subscribers, remote);
                let q1 = when(s.local_subscribers.len() == 0 && subs.len() == 0, send(None, SourceHintView::Unsubscribe(s.session_id)));
                SourceHintState { remote_subscribers: subs, queue: s.queue.push(ok) + q1, ..s }
            } else {
                SourceHintState { queue: s.queue.push(ok), ..s }
            }
        },
        SourceHintView::UnsubscribeOk(session) => {
            if session == s.session_id {
                SourceHintState { next_hop: None, ..s }
            } else {
                s
            }
        },
        SourceHintView::Sources(sources) => snapshot_sources(s, now, sources),
    }
}

proof fn lemma_send_each_push(addrs: Seq<PeerAddr>, i: int, except: Option<PeerAddr>, m: SourceHintView)
    requires
        0 <= i < addrs.len(),
    ensures
        send_each(addrs.take(i + 1), except, m) == send_each(addrs.take(i), except, m) + when(except != Some(addrs[i]), send(Some(addrs[i]), m)),
{
    assert(addrs.take(i + 1).drop_last() =~= addrs.take(i));
    assert(send_each(addrs.take(i), except, m) + Seq::<OutputView>::empty() =~= send_each(addrs.take(i), except, m));
}

fn push_output(queue: &mut VecDeque<Output>, o: Output)
    ensures
        outputs(final(queue)@) == outputs(old(queue)@).push(o@),
{
    let ghost q = queue@;
    queue.push_back(o);
    assert(outputs(queue@) =~= outputs(q).push(o@));
}

/// Queues `m` to each of `addrs` but `except`.
fn push_send_each(queue: &mut VecDeque<Output>, addrs: &Vec<PeerAddr>, except: Option<PeerAddr>, m: &SourceHint)
    ensures
        outputs(final(queue)@) == outputs(old(queue)@) + send_each(addrs@, except, m@),
{
    let ghost q0 = outputs(queue@);
    let mut i: usize = 0;
    while i < addrs.len()
        invariant
            i <= addrs@.len(),
            outputs(queue@) == q0 + send_each(addrs@.take(i as int), except, m@),
        decreases addrs@.len() - i,
    {
        let a = addrs[i];
        proof {
            lemma_send_each_push(addrs@, i as int, except, m@);
        }
        if except != Some(a) {
            push_output(queue, Output::SendRemote(Some(a), m.clone()));
        }
        proof {
            assert(outputs(queue@) =~= q0 + send_each(addrs@.take(i + 1), except, m@));
        }
        i = i + 1;
    }
    assert(addrs@.take(i as int) =~= addrs@);
}

/// Queues, for each of `sources`, the notice to `actors` that it started (or, unless
/// `start`, stopped).
fn push_source_notices(queue: &mut VecDeque<Output>, sources: &Vec<NodeId>, actors: &Vec<FeatureControlActor>, start: bool)
    ensures
        outputs(final(queue)@) == outputs(old(queue)@) + if start {
            subscribe_each(sources@, actors@)
        } else {
            unsubscribe_each(sources@, actors@)
        },
{
    let ghost q0 = outputs(queue@);
    let ghost f = if start {
        |s: NodeId| OutputView::SubscribeSource(actors@, s)
    } else {
        |s: NodeId| OutputView::UnsubscribeSource(actors@, s)
    };
    let mut i: usize = 0;
    while i < sources.len()
        invariant
            i <= sources@.len(),
            f == (if start {
                |s: NodeId| OutputView::SubscribeSource(actors@, s)
            } else {
                |s: NodeId| OutputView::UnsubscribeSource(actors@, s)
            }),
            outputs(queue@) == q0 + sources@.take(i as int).map_values(f),
        decreases sources@.len() - i,
    {
        let a = copy_actors(actors);
        if start {
            push_output(queue, Output::SubscribeSource(a, sources[i]));
        } else {
            push_output(queue, Output::UnsubscribeSource(a, sources[i]));
        }
        proof {
            assert(sources@.take(i + 1).map_values(f) =~= sources@.take(i as int).map_values(f).push(f(sources@[i as int])));
            assert(outputs(queue@) =~= q0 + sources@.take(i + 1).map_values(f));
        }
        i = i + 1;
    }
    assert(sources@.take(i as int) =~= sources@);
}

impl SourceHintLogic {
    /// The invariant: keys in order, each local actor listed once.
    pub closed spec fn wf(&self) -> bool {
        &&& self.remote_sources.wf()
        &&& self.remote_subscribers.wf()
        &&& self.local_sources@.no_duplicates()
        &&& self.local_subscribers@.no_duplicates()
    }

    /// The state of a channel on node `node_id`, which subscribes with `session_id`.
    pub fn new(node_id: NodeId, session_id: u64) -> (r: Self)
        ensures
            r.wf(),
            r@ == (SourceHintState {
                node_id,
                session_id,
                remote_sources: Seq::empty(),
                remote_subscribers: Seq::empty(),
                local_sources: Seq::empty(),
                local_subscribers: Seq::empty(),
                next_hop: None,
                queue: Seq::empty(),
            }),
    {
        let r = SourceHintLogic {
            node_id,
            session_id,
            remote_sources: TimedMap::new(),
            remote_subscribers: TimedMap::new(),
            local_sources: Vec::new(),
            local_subscribers: Vec::new(),
            next_hop: None,
            queue: VecDeque::new(),
        };
        assert(r@.local_sources =~= Seq::empty());
        assert(r@.local_subscribers =~= Seq::empty());
        assert(r@.queue =~= Seq::empty());
        r
    }

    /// The known sources: the remote ones in ascending order, then this node if it is a
    /// source.
    pub fn sources(&self) -> (r: Vec<NodeId>)
        requires
            self.wf(),
        ensures
            r@ == sources_spec(self@),
            forall|i: int, j: int| 0 <= i < j < self@.remote_sources.len() ==> r@[i] < r@[j],
    {
        proof {
            self.remote_sources.lemma_sorted();
        }
        let mut r = self.remote_sources.keys();
        if self.local_sources.len() > 0 {
            r.push(self.node_id);
        }
        r
    }

    /// The number of remote sources known.
    pub fn remote_sources_len(&self) -> (r: usize)
        ensures
            r == self@.remote_sources.len(),
    {
        self.remote_sources.len()
    }

    /// The number of remote subscribers known.
    pub fn remote_subscribers_len(&self) -> (r: usize)
        ensures
            r == self@.remote_subscribers.len(),
    {
        self.remote_subscribers.len()
    }

    /// Periodic work: drops what timed out and repeats the registrations and subscriptions.
    pub fn on_tick(&mut self, now_ms: u64)
        requires
            old(self).wf(),
            seen_by(old(self)@.remote_sources, now_ms),
            seen_by(old(self)@.remote_subscribers, now_ms),
        ensures
            final(self).wf(),
            final(self)@ == hint_tick_spec(old(self)@, now_ms),
    {
        let ghost s = self@;
        let gone_subs = self.remote_subscribers.drop_expired(now_ms, TIMEOUT_MS);
        if gone_subs.len() > 0 && self.remote_subscribers.is_empty() && self.local_subscribers.len() == 0 {
            push_output(&mut self.queue, Output::SendRemote(None, SourceHint::Unsubscribe(self.session_id)));
        }
        let ghost q1 = self@.queue;
        let gone_srcs = self.remote_sources.drop_expired(now_ms, TIMEOUT_MS);
        if self.local_subscribers.len() > 0 {
            push_source_notices(&mut self.queue, &gone_srcs, &self.local_subscribers, false);
        }
        let ghost q2 = self@.queue;
        if self.local_sources.len() > 0 {
            push_output(&mut self.queue, Output::SendRemote(None, SourceHint::Register { source: self.node_id, to_root: true }));
            let subs = self.remote_subscribers.keys();
            push_send_each(&mut self.queue, &subs, None, &SourceHint::Register { source: self.node_id, to_root: false });
        }
        let ghost q3 = self@.queue;
        if self.local_subscribers.len() > 0 || !self.remote_subscribers.is_empty() {
            push_output(&mut self.queue, Output::SendRemote(None, SourceHint::Subscribe(self.session_id)));
        }
        proof {
            let t = hint_tick_spec(s, now_ms);
            assert(self@.queue =~= t.queue);
        }
    }
    /// A command of a local actor: register or unregister as a source, subscribe or
    /// unsubscribe.
    pub fn on_local(&mut self, _now_ms: u64, actor: FeatureControlActor, cmd: LocalCmd)
        requires
            old(self).wf(),
        ensures
            final(self).wf(),
            final(self)@ == hint_local_spec(old(self)@, actor, cmd),
    {
        let ghost s = self@;
        match cmd {
            LocalCmd::Register => {
                if add_actor(&mut self.local_sources, actor) {
                    if self.local_sources.len() == 1 && self.remote_sources.is_empty() {
                        push_output(&mut self.queue, Output::SendRemote(None, SourceHint::Register { source: self.node_id, to_root: true }));
                    }
                    if self.local_sources.len() == 1 {
                        let subs = self.remote_subscribers.keys();
                        push_send_each(&mut self.queue, &subs, None, &SourceHint::Register { source: self.node_id, to_root: false });
                        if self.local_subscribers.len() > 0 {
                            push_output(&mut self.queue, Output::SubscribeSource(copy_actors(&self.local_subscribers), self.node_id));
                        }
                    }
                    assert(self@.queue =~= hint_local_spec(s, actor, cmd).queue);
                }
            },
            LocalCmd::Unregister => {
                if swap_remove_actor(&mut self.local_sources, actor) {
                    if self.local_sources.len() == 0 && self.remote_sources.is_empty() {
                        push_output(&mut self.queue, Output::SendRemote(None, SourceHint::Unregister { source: self.node_id, to_root: true }));
                    }
                    if self.local_sources.len() == 0 {
                        let subs = self.remote_subscribers.keys();
                        push_send_each(&mut self.queue, &subs, None, &SourceHint::Unregister { source: self.node_id, to_root: false });
                        if self.local_subscribers.len() > 0 {
                            push_output(&mut self.queue, Output::UnsubscribeSource(copy_actors(&self.local_subscribers), self.node_id));
                        }
                    }
                    assert(self@.queue =~= hint_local_spec(s, actor, cmd).queue);
                }
            },
            LocalCmd::Subscribe => {
                if add_actor(&mut self.local_subscribers, actor) {
                    if self.local_subscribers.len() == 1 && self.remote_subscribers.is_empty() {
                        push_output(&mut self.queue, Output::SendRemote(None, SourceHint::Subscribe(self.session_id)));
                    }
                    let srcs = self.remote_sources.keys();
                    let one = vec![actor];
                    assert(one@ =~= seq![actor]);
                    push_source_notices(&mut self.queue, &srcs, &one, true);
                    if self.local_sources.len() > 0 {
                        push_output(&mut self.queue, Output::SubscribeSource(one, self.node_id));
                    }
                    assert(self@.queue =~= hint_local_spec(s, actor, cmd).queue);
                }
            },
            LocalCmd::Unsubscribe => {
                if swap_remove_actor(&mut self.local_subscribers, actor) {
                    if self.local_subscribers.len() == 0 && self.remote_subscribers.is_empty() {
                        push_output(&mut self.queue, Output::SendRemote(None, SourceHint::Unsubscribe(self.session_id)));
                    }
                    let srcs = self.remote_sources.keys();
                    let one = vec![actor];
                    assert(one@ =~= seq![actor]);
                    push_source_notices(&mut self.queue, &srcs, &one, false);
                    if self.local_sources.len() > 0 {
                        push_output(&mut self.queue, Output::UnsubscribeSource(one, self.node_id));
                    }
                    assert(self@.queue =~= hint_local_spec(s, actor, cmd).queue);
                }
            },
        }
    }

    /// One source of a snapshot.
    fn take_snapshot_source(&mut self, now_ms: u64, source: NodeId)
        requires
            old(self).wf(),
        ensures
            final(self).wf(),
            final(self)@ == snapshot_source(old(self)@, now_ms, source),
    {
        let ghost s = self@;
        if self.remote_sources.insert(source, now_ms) {
            let subs = self.remote_subscribers.keys();
            push_send_each(&mut self.queue, &subs, None, &SourceHint::Register { source, to_root: false });
            if self.local_subscribers.len() > 0 {
                push_output(&mut self.queue, Output::SubscribeSource(copy_actors(&self.local_subscribers), source));
            }
        }
        assert(self@.queue =~= snapshot_source(s, now_ms, source).queue);
    }

    /// A message from the neighbour `remote`.
    #[verifier::rlimit(30)]
    pub fn on_remote(&mut self, now_ms: u64, remote: PeerAddr, cmd: SourceHint)
        requires
            old(self).wf(),
        ensures
            final(self).wf(),
            final(self)@ == hint_remote_spec(old(self)@, now_ms, remote, cmd@),
    {
        let ghost s = self@;
        match cmd {
            SourceHint::Register { source, to_root } => {
                if !to_root && self.next_hop != Some(remote) {
                    return;
                }
                if to_root {
                    push_output(&mut self.queue, Output::SendRemote(None, SourceHint::Register { source, to_root: true }));
                }
                let subs = self.remote_subscribers.keys();
                push_send_each(&mut self.queue, &subs, Some(remote), &SourceHint::Register { source, to_root: false });
                if self.remote_sources.insert(source, now_ms) {
                    if self.local_subscribers.len() > 0 {
                        push_output(&mut self.queue, Output::SubscribeSource(copy_actors(&self.local_subscribers), source));
                    }
                }
                assert(self@.queue =~= hint_remote_spec(s, now_ms, remote, cmd@).queue);
            },
            SourceHint::Unregister { source, to_root } => {
                if !to_root && self.next_hop != Some(remote) {
                    return;
                }
                if to_root {
                    push_output(&mut self.queue, Output::SendRemote(None, SourceHint::Unregister { source, to_root: true }));
                }
                let subs = self.remote_subscribers.keys();
                push_send_each(&mut self.queue, &subs, Some(remote), &SourceHint::Unregister { source, to_root: false });
                if self.remote_sources.remove(source) {
                    if self.local_subscribers.len() > 0 {
                        push_output(&mut self.queue, Output::UnsubscribeSource(copy_actors(&self.local_subscribers), source));
                    }
                }
                assert(self@.queue =~= hint_remote_spec(s, now_ms, remote, cmd@).queue);
            },
            SourceHint::Subscribe(session) => {
                let sources = self.sources();
                if self.remote_subscribers.insert(remote, now_ms) {
                    push_output(&mut self.queue, Output::SendRemote(Some(remote), SourceHint::SubscribeOk(session)));
                    if self.remote_subscribers.len() == 1 && self.local_subscribers.len() == 0 {
                        push_output(&mut self.queue, Output::SendRemote(None, SourceHint::Subscribe(self.session_id)));
                    }
                    if sources.len() > 0 {
                        push_output(&mut self.queue, Output::SendRemote(Some(remote), SourceHint::Sources(sources)));
                    }
                } else {
                    push_output(&mut self.queue, Output::SendRemote(Some(remote), SourceHint::SubscribeOk(session)));
                }
                assert(self@.queue =~= hint_remote_spec(s, now_ms, remote, cmd@).queue);
            },
            SourceHint::SubscribeOk(session) => {
                if session == self.session_id {
                    self.next_hop = Some(remote);
                }
            },
            SourceHint::Unsubscribe(session) => {
                if self.remote_subscribers.remove(remote) {
                    push_output(&mut self.queue, Output::SendRemote(Some(remote), SourceHint::UnsubscribeOk(session)));
                    if self.local_subscribers.len() == 0 && self.remote_subscribers.is_empty() {
                        push_output(&mut self.queue, Output::SendRemote(None, SourceHint::Unsubscribe(self.session_id)));
                    }
                } else {
                    push_output(&mut self.queue, Output::SendRemote(Some(remote), SourceHint::UnsubscribeOk(session)));
                }
                assert(self@.queue =~= hint_remote_spec(s, now_ms, remote, cmd@).queue);
            },
            SourceHint::UnsubscribeOk(session) => {
                if session == self.session_id {
                    self.next_hop = None;
                }
            },
            SourceHint::Sources(sources) => {
                let mut i: usize = 0;
                while i < sources.len()
                    invariant
                        self.wf(),
                        i <= sources@.len(),
                        self@ == snapshot_sources(s, now_ms, sources@.take(i as int)),
                    decreases sources@.len() - i,
                {
                    proof {
                        assert(sources@.take(i + 1).drop_last() =~= sources@.take(i as int));
                    }
                    self.take_snapshot_source(now_ms, sources[i]);
                    i = i + 1;
                }
                assert(sources@.take(i as int) =~= sources@);
            },
        }
    }

    /// Hands out the oldest output.
    pub fn pop_output(&mut self) -> (r: Option<Output>)
        requires
            old(self).wf(),
        ensures
            final(self).wf(),
            old(self)@.queue.len() == 0 ==> r is None && final(self)@ == old(self)@,
            old(self)@.queue.len() > 0 ==> r is Some && r->0@ == old(self)@.queue[0]
                && final(self)@ == (SourceHintState { queue: old(self)@.queue.drop_first(), ..old(self)@ }),
    {
        let ghost q = self.queue@;
        let r = self.queue.pop_front();
        proof {
            if q.len() > 0 {
                assert(outputs(q.drop_first()) =~= outputs(q).drop_first());
            }
        }
        r
    }

    /// Nothing is known or wanted of the channel any more.
    pub fn should_clear(&self) -> (r: bool)
        ensures
            r == (self@.local_sources.len() == 0 && self@.remote_sources.len() == 0 && self@.local_subscribers.len() == 0
                && self@.remote_subscribers.len() == 0),
    {
        self.local_sources.len() == 0 && self.remote_sources.is_empty() && self.local_subscribers.len() == 0 && self.remote_subscribers.is_empty()
    }
}

proof fn lemma_send_each_avoids(addrs: Seq<PeerAddr>, except: PeerAddr, m: SourceHintView)
    ensures
        forall|k: int| 0 <= k < send_each(addrs, Some(except), m).len() ==> !(#[trigger] send_each(addrs, Some(except), m)[k] matches OutputView::SendRemote(
            Some(a),
            _,
        ) && a == except),
    decreases addrs.len(),
{
    if addrs.len() > 0 {
        lemma_send_each_avoids(addrs.drop_last(), except, m);
    }
}

/// A registration or unregistration relayed by this node never goes back to the neighbour
/// it came from.
pub proof fn law_notice_not_sent_back(s: SourceHintState, now: u64, remote: PeerAddr, msg: SourceHintView)
    requires
        msg is Register || msg is Unregister,
    ensures
        ({
            let t = hint_remote_spec(s, now, remote, msg);
            forall|k: int| s.queue.len() <= k < t.queue.len() ==> !(#[trigger] t.queue[k] matches OutputView::SendRemote(Some(a), _) && a == remote)
        }),
{
    let t = hint_remote_spec(s, now, remote, msg);
    let m = match msg {
        SourceHintView::Register { source, .. } => SourceHintView::Register { source, to_root: false },
        SourceHintView::Unregister { source, .. } => SourceHintView::Unregister { source, to_root: false },
        _ => msg,
    };
    let subs = keys_of(s.remote_subscribers);
    lemma_send_each_avoids(subs, remote, m);
    assert forall|k: int| s.queue.len() <= k < t.queue.len() implies !(#[trigger] t.queue[k] matches OutputView::SendRemote(Some(a), _) && a == remote) by {
        let to_root = match msg {
            SourceHintView::Register { to_root, .. } => to_root,
            SourceHintView::Unregister { to_root, .. } => to_root,
            _ => false,
        };
        if !to_root && s.next_hop != Some(remote) {
        } else {
            let q1len: int = if to_root { 1 } else { 0 };
            let e = send_each(subs, Some(remote), m);
            if k >= s.queue.len() + q1len && k < s.queue.len() + q1len + e.len() {
                assert(t.queue[k] == e[k - s.queue.len() - q1len]);
            }
        }
    }
}

/// Notices relayed from a neighbour that is not the next hop are ignored.
pub proof fn law_relayed_notice_from_other_ignored(s: SourceHintState, now: u64, remote: PeerAddr, source: NodeId)
    requires
        s.next_hop != Some(remote),
    ensures
        hint_remote_spec(s, now, remote, SourceHintView::Register { source, to_root: false }) == s,
        hint_remote_spec(s, now, remote, SourceHintView::Unregister { source, to_root: false }) == s,
{
}

/// A local actor that subscribes and then unsubscribes leaves the local subscribers as they were.
pub proof fn law_local_subscribe_unsubscribe(s: SourceHintState, actor: FeatureControlActor)
    requires
        s.local_subscribers.no_duplicates(),
        !s.local_subscribers.contains(actor),
    ensures
        hint_local_spec(hint_local_spec(s, actor, LocalCmd::Subscribe), actor, LocalCmd::Unsubscribe).local_subscribers == s.local_subscribers,
{
    let l = s.local_subscribers.push(actor);
    assert(l.contains(actor)) by {
        assert(l[l.len() - 1] == actor);
    }
    let i = l.index_of(actor);
    assert(l[i] == actor);
    if i != l.len() - 1 {
        assert(s.local_subscribers.contains(actor)) by {
            assert(s.local_subscribers[i] == actor);
        }
    }
    assert(swap_removed(l, i) =~= s.local_subscribers);
}

} // verus!
