//! The pubsub worker: it keeps the route table of each relay (the source it takes data
//! from, the local and remote consumers it gives data to), turns the controller's commands
//! into network messages and relays published data.

use std::collections::VecDeque;
use vstd::prelude::*;

use super::msg::{PubsubMessage, PubsubMessageView, RelayControl, RelayId, RelayWorkerControl, SourceHint};
use super::{ChannelControl, ChannelControlView, ChannelEvent, ChannelEventView, Control, Event, ToController, ToControllerView, ToWorker, ToWorkerView};
use crate::types::{copy_addrs, first_index, swap_remove_first_actor, swap_remove_first_addr, swap_removed_first, FeatureControlActor, NodeId, PeerAddr};

verus! {

/// The route table of one relay on a worker.
pub struct WorkerRelay {
    source: Option<PeerAddr>,
    locals: Vec<FeatureControlActor>,
    remotes: Vec<PeerAddr>,
    remotes_uuid: Vec<(PeerAddr, u64)>,
}

/// Mathematical form of a [`WorkerRelay`]: the source, the local consumers, the remote
/// consumers, and the session each remote consumer subscribed with.
pub struct WorkerRelayView {
    pub source: Option<PeerAddr>,
    pub locals: Seq<FeatureControlActor>,
    pub remotes: Seq<PeerAddr>,
    pub remotes_uuid: Seq<(PeerAddr, u64)>,
}

impl View for WorkerRelay {
    type V = WorkerRelayView;

    closed spec fn view(&self) -> WorkerRelayView {
        WorkerRelayView { source: self.source, locals: self.locals@, remotes: self.remotes@, remotes_uuid: self.remotes_uuid@ }
    }
}

pub open spec fn relay_empty(r: WorkerRelayView) -> bool {
    r.locals.len() == 0 && r.remotes.len() == 0
}

impl WorkerRelay {
    fn new() -> (r: Self)
        ensures
            r@ == empty_relay(),
    {
        let r = WorkerRelay { source: None, locals: Vec::new(), remotes: Vec::new(), remotes_uuid: Vec::new() };
        assert(r@.locals =~= Seq::empty());
        assert(r@.remotes =~= Seq::empty());
        assert(r@.remotes_uuid =~= Seq::empty());
        r
    }

    /// The relay has no consumer.
    pub fn is_empty(&self) -> (r: bool)
        ensures
            r == relay_empty(self@),
    {
        self.locals.len() == 0 && self.remotes.len() == 0
    }
}

pub open spec fn empty_relay() -> WorkerRelayView {
    WorkerRelayView { source: None, locals: Seq::empty(), remotes: Seq::empty(), remotes_uuid: Seq::empty() }
}

/// An output of the worker.
#[derive(Debug, PartialEq, Eq)]
pub enum WorkerOutput {
    ToController(ToController),
    Event(FeatureControlActor, Event),
    ForwardControlToController(FeatureControlActor, Control),
    RawDirect2(PeerAddr, PubsubMessage),
    RawBroadcast2(Vec<PeerAddr>, PubsubMessage),
    OnResourceEmpty,
}

/// Mathematical form of [`WorkerOutput`].
pub enum WorkerOutputView {
    ToController(ToControllerView),
    Event(FeatureControlActor, (super::msg::ChannelId, ChannelEventView)),
    ForwardControlToController(FeatureControlActor, (super::msg::ChannelId, ChannelControlView)),
    RawDirect2(PeerAddr, PubsubMessageView),
    RawBroadcast2(Seq<PeerAddr>, PubsubMessageView),
    OnResourceEmpty,
}

impl View for WorkerOutput {
    type V = WorkerOutputView;

    open spec fn view(&self) -> WorkerOutputView {
        match self {
            WorkerOutput::ToController(c) => WorkerOutputView::ToController(c@),
            WorkerOutput::Event(a, e) => WorkerOutputView::Event(*a, e@),
            WorkerOutput::ForwardControlToController(a, c) => WorkerOutputView::ForwardControlToController(*a, c@),
            WorkerOutput::RawDirect2(d, m) => WorkerOutputView::RawDirect2(*d, m@),
            WorkerOutput::RawBroadcast2(d, m) => WorkerOutputView::RawBroadcast2(d@, m@),
            WorkerOutput::OnResourceEmpty => WorkerOutputView::OnResourceEmpty,
        }
    }
}

/// An input of the worker: a command of the controller (the flag tells whether it was
/// sent to every worker), or a control of a local actor.
#[derive(Debug, PartialEq, Eq)]
pub enum WorkerInput {
    FromController(bool, ToWorker),
    Control(FeatureControlActor, Control),
}

/// Mathematical form of [`WorkerInput`].
pub enum WorkerInputView {
    FromController(bool, ToWorkerView),
    Control(FeatureControlActor, (super::msg::ChannelId, ChannelControlView)),
}

impl View for WorkerInput {
    type V = WorkerInputView;

    open spec fn view(&self) -> WorkerInputView {
        match self {
            WorkerInput::FromController(b, t) => WorkerInputView::FromController(*b, t@),
            WorkerInput::Control(a, c) => WorkerInputView::Control(*a, c@),
        }
    }
}

/// Mathematical state of a [`PubSubFeatureWorker`].
pub struct WorkerView {
    pub relays: Seq<(RelayId, WorkerRelayView)>,
    pub queue: Seq<WorkerOutputView>,
    pub shutdown: bool,
}

/// The pubsub feature on a worker.
pub struct PubSubFeatureWorker {
    relays: Vec<(RelayId, WorkerRelay)>,
    queue: VecDeque<WorkerOutput>,
    shutdown: bool,
}

pub open spec fn worker_outputs(q: Seq<WorkerOutput>) -> Seq<WorkerOutputView> {
    q.map_values(|o: WorkerOutput| o@)
}

impl View for PubSubFeatureWorker {
    type V = WorkerView;

    closed spec fn view(&self) -> WorkerView {
        WorkerView {
            relays: self.relays@.map_values(|e: (RelayId, WorkerRelay)| (e.0, e.1@)),
            queue: worker_outputs(self.queue@),
            shutdown: self.shutdown,
        }
    }
}

pub open spec fn has_relay(rs: Seq<(RelayId, WorkerRelayView)>, id: RelayId) -> bool {
    exists|i: int| 0 <= i < rs.len() && #[trigger] rs[i].0 == id
}

pub open spec fn relay_index(rs: Seq<(RelayId, WorkerRelayView)>, id: RelayId) -> int {
    choose|i: int| 0 <= i < rs.len() && #[trigger] rs[i].0 == id
}

/// The route table of `id`, or an empty one.
pub open spec fn relay_of(rs: Seq<(RelayId, WorkerRelayView)>, id: RelayId) -> WorkerRelayView {
    if has_relay(rs, id) {
        rs[relay_index(rs, id)].1
    } else {
        empty_relay()
    }
}

/// The route tables with the one of `id` replaced by `r` (or added at the end).
pub open spec fn set_relay(rs: Seq<(RelayId, WorkerRelayView)>, id: RelayId, r: WorkerRelayView) -> Seq<(RelayId, WorkerRelayView)> {
    if has_relay(rs, id) {
        rs.update(relay_index(rs, id), (id, r))
    } else {
        rs.push((id, r))
    }
}

/// The route tables with the one of `id` replaced by `r`, or dropped when `r` has no consumer.
pub open spec fn store_relay(rs: Seq<(RelayId, WorkerRelayView)>, id: RelayId, r: WorkerRelayView) -> Seq<(RelayId, WorkerRelayView)> {
    if relay_empty(r) {
        rs.remove(relay_index(rs, id))
    } else {
        rs.update(relay_index(rs, id), (id, r))
    }
}

pub open spec fn ids_unique(rs: Seq<(RelayId, WorkerRelayView)>) -> bool {
    forall|i: int, j: int| #![trigger rs[i], rs[j]] 0 <= i < rs.len() && 0 <= j < rs.len() && i != j ==> rs[i].0 != rs[j].0
}

/// `m` to each remote consumer with the session it subscribed with, in order.
pub open spec fn route_changed_to(uuids: Seq<(PeerAddr, u64)>, id: RelayId) -> Seq<WorkerOutputView> {
    uuids.map_values(|e: (PeerAddr, u64)| WorkerOutputView::RawDirect2(e.0, PubsubMessageView::Control(id, RelayControl::RouteChanged(e.1))))
}

/// `data` from `source` to each of `locals`, in order.
pub open spec fn data_to_locals(locals: Seq<FeatureControlActor>, channel: super::msg::ChannelId, source: NodeId, data: Seq<u8>) -> Seq<WorkerOutputView> {
    locals.map_values(|a: FeatureControlActor| WorkerOutputView::Event(a, (channel, ChannelEventView::SourceData(source, data))))
}

/// `uuids` with the session of `a` set to `uuid` (added at the end when `a` is new).
pub open spec fn set_uuid(uuids: Seq<(PeerAddr, u64)>, a: PeerAddr, uuid: u64) -> Seq<(PeerAddr, u64)> {
    if exists|i: int| 0 <= i < uuids.len() && #[trigger] uuids[i].0 == a {
        let i = choose|i: int| 0 <= i < uuids.len() && #[trigger] uuids[i].0 == a;
        uuids.update(i, (a, uuid))
    } else {
        uuids.push((a, uuid))
    }
}

pub open spec fn uuids_unique(uuids: Seq<(PeerAddr, u64)>) -> bool {
    forall|i: int, j: int| #![trigger uuids[i], uuids[j]] 0 <= i < uuids.len() && 0 <= j < uuids.len() && i != j ==> uuids[i].0 != uuids[j].0
}

pub open spec fn direct(to: PeerAddr, id: RelayId, c: RelayControl) -> WorkerOutputView {
    WorkerOutputView::RawDirect2(to, PubsubMessageView::Control(id, c))
}

/// What a command of the controller about relay `id` does. `route` is the next hop the
/// router gives towards the relay's source node.
pub open spec fn relay_control_spec(w: WorkerView, route: Option<PeerAddr>, id: RelayId, control: RelayWorkerControl) -> WorkerView {
    let rs = w.relays;
    let r = relay_of(rs, id);
    match control {
        RelayWorkerControl::SendSub(uuid, remote) => {
            let dest = if remote is Some { remote } else { route };
            match dest {
                Some(d) => WorkerView { queue: w.queue.push(direct(d, id, RelayControl::Sub(uuid))), ..w },
                None => w,
            }
        },
        RelayWorkerControl::SendFeedback(fb, remote) => WorkerView { queue: w.queue.push(direct(remote, id, RelayControl::Feedback(fb))), ..w },
        RelayWorkerControl::SendUnsub(uuid, remote) => WorkerView { queue: w.queue.push(direct(remote, id, RelayControl::Unsub(uuid))), ..w },
        RelayWorkerControl::SendSubOk(uuid, remote) => WorkerView { queue: w.queue.push(direct(remote, id, RelayControl::SubOK(uuid))), ..w },
        RelayWorkerControl::SendUnsubOk(uuid, remote) => WorkerView { queue: w.queue.push(direct(remote, id, RelayControl::UnsubOK(uuid))), ..w },
        RelayWorkerControl::SendRouteChanged => {
            if has_relay(rs, id) {
                WorkerView { queue: w.queue + route_changed_to(r.remotes_uuid, id), ..w }
            } else {
                w
            }
        },
        RelayWorkerControl::RouteSetSource(source) => WorkerView { relays: set_relay(rs, id, WorkerRelayView { source: Some(source), ..r }), ..w },
        RelayWorkerControl::RouteDelSource(source) => {
            if has_relay(rs, id) && r.source == Some(source) {
                WorkerView { relays: set_relay(rs, id, WorkerRelayView { source: None, ..r }), ..w }
            } else {
                w
            }
        },
        RelayWorkerControl::RouteSetLocal(actor) => WorkerView { relays: set_relay(rs, id, WorkerRelayView { locals: r.locals.push(actor), ..r }), ..w },
        RelayWorkerControl::RouteDelLocal(actor) => {
            if has_relay(rs, id) {
                WorkerView { relays: store_relay(rs, id, WorkerRelayView { locals: swap_removed_first(r.locals, actor), ..r }), ..w }
            } else {
                w
            }
        },
        RelayWorkerControl::RouteSetRemote(remote, uuid) => WorkerView {
            relays: set_relay(rs, id, WorkerRelayView { remotes: r.remotes.push(remote), remotes_uuid: set_uuid(r.remotes_uuid, remote, uuid), ..r }),
            ..w
        },
        RelayWorkerControl::RouteDelRemote(remote) => {
            if has_relay(rs, id) {
                WorkerView { relays: store_relay(rs, id, WorkerRelayView { remotes: swap_removed_first(r.remotes, remote), ..r }), ..w }
            } else {
                w
            }
        },
    }
}

/// Published data of relay `id`: to each local consumer, then once to all remote ones.
pub open spec fn publish_spec(w: WorkerView, id: RelayId, data: Seq<u8>) -> WorkerView {
    let r = relay_of(w.relays, id);
    if has_relay(w.relays, id) {
        let q = w.queue + data_to_locals(r.locals, id.0, id.1, data);
        if r.remotes.len() > 0 {
            WorkerView { queue: q.push(WorkerOutputView::RawBroadcast2(r.remotes, PubsubMessageView::Data(id, data))), ..w }
        } else {
            WorkerView { queue: q, ..w }
        }
    } else {
        w
    }
}

/// What an input does on a worker of node `node_id`. `route` is the next hop the router
/// gives towards the input's destination: the relay's source node for a subscription, the
/// channel's key for a source hint.
pub open spec fn worker_input_spec(w: WorkerView, node_id: NodeId, route: Option<PeerAddr>, input: WorkerInputView) -> WorkerView {
    match input {
        WorkerInputView::FromController(_, ToWorkerView::RelayControl(id, control)) => relay_control_spec(w, route, id, control),
        WorkerInputView::FromController(_, ToWorkerView::SourceHint(channel, remote, hint)) => {
            let dest = if remote is Some { remote } else { route };
            match dest {
                Some(d) => WorkerView { queue: w.queue.push(WorkerOutputView::RawDirect2(d, PubsubMessageView::SourceHint(channel, hint))), ..w },
                None => w,
            }
        },
        WorkerInputView::FromController(_, ToWorkerView::RelayData(id, data)) => {
            let r = relay_of(w.relays, id);
            if has_relay(w.relays, id) && r.remotes.len() > 0 {
                WorkerView { queue: w.queue.push(WorkerOutputView::RawBroadcast2(r.remotes, PubsubMessageView::Data(id, data))), ..w }
            } else {
                w
            }
        },
        WorkerInputView::Control(actor, (channel, control)) => {
            match control {
                ChannelControlView::PubData(data) => publish_spec(w, super::msg::RelayId(channel, node_id), data),
                _ => WorkerView { queue: w.queue.push(WorkerOutputView::ForwardControlToController(actor, (channel, control))), ..w },
            }
        },
    }
}

/// What a message from the neighbour `remote` does: controls and source hints go to the
/// controller; data is relayed only when it comes from the relay's source.
pub open spec fn worker_network_spec(w: WorkerView, remote: PeerAddr, msg: PubsubMessageView) -> WorkerView {
    match msg {
        PubsubMessageView::Control(id, control) => WorkerView {
            queue: w.queue.push(WorkerOutputView::ToController(ToControllerView::RelayControl(remote, id, control))),
            ..w
        },
        PubsubMessageView::SourceHint(channel, hint) => WorkerView {
            queue: w.queue.push(WorkerOutputView::ToController(ToControllerView::SourceHint(remote, channel, hint))),
            ..w
        },
        PubsubMessageView::Data(id, data) => {
            if relay_of(w.relays, id).source == Some(remote) {
                publish_spec(w, id, data)
            } else {
                w
            }
        },
    }
}

proof fn lemma_relay_index(rs: Seq<(RelayId, WorkerRelayView)>, id: RelayId, i: int)
    requires
        ids_unique(rs),
        0 <= i < rs.len(),
        rs[i].0 == id,
    ensures
        has_relay(rs, id),
        relay_index(rs, id) == i,
{
    let c = relay_index(rs, id);
    assert(rs[c].0 == id);
}

pub open spec fn worker_wf(w: WorkerView) -> bool {
    &&& ids_unique(w.relays)
    &&& forall|i: int| 0 <= i < w.relays.len() ==> uuids_unique(#[trigger] w.relays[i].1.remotes_uuid)
}

fn push_worker_output(queue: &mut VecDeque<WorkerOutput>, o: WorkerOutput)
    ensures
        worker_outputs(final(queue)@) == worker_outputs(old(queue)@).push(o@),
{
    let ghost q = queue@;
    queue.push_back(o);
    assert(worker_outputs(queue@) =~= worker_outputs(q).push(o@));
}

impl PubSubFeatureWorker {
    pub closed spec fn wf(&self) -> bool {
        worker_wf(self@)
    }

    /// A worker with no relay.
    pub fn new() -> (w: Self)
        ensures
            w.wf(),
            w@ == (WorkerView { relays: Seq::empty(), queue: Seq::empty(), shutdown: false }),
    {
        let w = PubSubFeatureWorker { relays: Vec::new(), queue: VecDeque::new(), shutdown: false };
        assert(w@.relays =~= Seq::empty());
        assert(w@.queue =~= Seq::empty());
        w
    }

    fn find_relay(&self, id: RelayId) -> (r: Option<usize>)
        requires
            self.wf(),
        ensures
            match r {
                Some(i) => has_relay(self@.relays, id) && i == relay_index(self@.relays, id) && i < self@.relays.len(),
                None => !has_relay(self@.relays, id),
            },
    {
        let ghost rs = self@.relays;
        let mut i: usize = 0;
        while i < self.relays.len()
            invariant
                self.wf(),
                rs == self@.relays,
                i <= rs.len(),
                forall|k: int| 0 <= k < i ==> rs[k].0 != id,
            decreases rs.len() - i,
        {
            if self.relays[i].0 == id {
                proof {
                    assert(rs[i as int].0 == id);
                    lemma_relay_index(rs, id, i as int);
                }
                return Some(i);
            }
            i = i + 1;
        }
        None
    }

    /// Takes the route table of `id` out (an empty one where there is none), with where it goes back.
    fn take_relay(&mut self, id: RelayId) -> (r: (usize, WorkerRelay))
        requires
            old(self).wf(),
        ensures
            r.1@ == relay_of(old(self)@.relays, id),
            r.0 <= final(self)@.relays.len(),
            final(self)@.queue == old(self)@.queue,
            final(self)@.shutdown == old(self)@.shutdown,
            ids_unique(final(self)@.relays),
            forall|i: int| 0 <= i < final(self)@.relays.len() ==> uuids_unique(#[trigger] final(self)@.relays[i].1.remotes_uuid),
            forall|k: int| 0 <= k < final(self)@.relays.len() ==> (#[trigger] final(self)@.relays[k]).0 != id,
            has_relay(old(self)@.relays, id) ==> final(self)@.relays.insert(r.0 as int, (id, r.1@)) == old(self)@.relays
                && r.0 == relay_index(old(self)@.relays, id) && final(self)@.relays == old(self)@.relays.remove(r.0 as int),
            !has_relay(old(self)@.relays, id) ==> final(self)@.relays == old(self)@.relays && r.0 == old(self)@.relays.len(),
    {
        let ghost rs = self@.relays;
        match self.find_relay(id) {
            Some(i) => {
                let (_, rel) = self.relays.remove(i);
                proof {
                    let after = self@.relays;
                    assert(after =~= rs.remove(i as int));
                    assert(after.insert(i as int, (id, rel@)) =~= rs);
                    assert forall|a: int, b: int| #![trigger after[a], after[b]] 0 <= a < after.len() && 0 <= b < after.len() && a != b implies after[a].0 != after[b].0 by {
                        let a2 = if a < i { a } else { a + 1 };
                        let b2 = if b < i { b } else { b + 1 };
                        assert(after[a] == rs[a2] && after[b] == rs[b2]);
                    }
                    assert forall|k: int| 0 <= k < after.len() implies uuids_unique(#[trigger] after[k].1.remotes_uuid) by {
                        let k2 = if k < i { k } else { k + 1 };
                        assert(after[k] == rs[k2]);
                    }
                    assert forall|k: int| 0 <= k < after.len() implies (#[trigger] after[k]).0 != id by {
                        let k2 = if k < i { k } else { k + 1 };
                        assert(after[k] == rs[k2]);
                        assert(rs[i as int].0 == id);
                    }
                }
                (i, rel)
            },
            None => {
                let len = self.relays.len();
                (len, WorkerRelay::new())
            },
        }
    }

    /// Puts the route table of `id` back where it was taken from, or drops it when `drop` holds.
    fn put_relay(&mut self, at: usize, id: RelayId, rel: WorkerRelay)
        requires
            at <= old(self)@.relays.len(),
            ids_unique(old(self)@.relays),
            forall|i: int| 0 <= i < old(self)@.relays.len() ==> uuids_unique(#[trigger] old(self)@.relays[i].1.remotes_uuid),
            forall|k: int| 0 <= k < old(self)@.relays.len() ==> (#[trigger] old(self)@.relays[k]).0 != id,
            uuids_unique(rel@.remotes_uuid),
        ensures
            final(self).wf(),
            final(self)@ == (WorkerView { relays: old(self)@.relays.insert(at as int, (id, rel@)), ..old(self)@ }),
    {
        let ghost rs = self@.relays;
        self.relays.insert(at, (id, rel));
        proof {
            let after = self@.relays;
            assert(after =~= rs.insert(at as int, (id, rel@)));
            assert forall|a: int, b: int| #![trigger after[a], after[b]] 0 <= a < after.len() && 0 <= b < after.len() && a != b implies after[a].0 != after[b].0 by {
                if a != at && b != at {
                    let a2 = if a < at { a } else { a - 1 };
                    let b2 = if b < at { b } else { b - 1 };
                    assert(after[a] == rs[a2] && after[b] == rs[b2]);
                } else if a == at {
                    let b2 = if b < at { b } else { b - 1 };
                    assert(after[b] == rs[b2]);
                } else {
                    let a2 = if a < at { a } else { a - 1 };
                    assert(after[a] == rs[a2]);
                }
            }
            assert forall|k: int| 0 <= k < after.len() implies uuids_unique(#[trigger] after[k].1.remotes_uuid) by {
                if k != at {
                    let k2 = if k < at { k } else { k - 1 };
                    assert(after[k] == rs[k2]);
                }
            }
        }
    }
}

proof fn lemma_put_back(rs: Seq<(RelayId, WorkerRelayView)>, taken: Seq<(RelayId, WorkerRelayView)>, id: RelayId, at: int, r: WorkerRelayView)
    requires
        ids_unique(rs),
        has_relay(rs, id) ==> at == relay_index(rs, id) && taken == rs.remove(at),
        !has_relay(rs, id) ==> taken == rs && at == rs.len(),
    ensures
        taken.insert(at, (id, r)) == set_relay(rs, id, r),
        has_relay(rs, id) ==> taken == store_relay(rs, id, r) || !relay_empty(r),
        has_relay(rs, id) && !relay_empty(r) ==> taken.insert(at, (id, r)) == store_relay(rs, id, r),
{
    if has_relay(rs, id) {
        let i = relay_index(rs, id);
        assert(rs[i].0 == id);
        assert(taken.insert(at, (id, r)) =~= rs.update(at, (id, r)));
    } else {
        assert(taken.insert(at, (id, r)) =~= rs.push((id, r)));
    }
}

fn set_uuid_exec(uuids: &mut Vec<(PeerAddr, u64)>, a: PeerAddr, uuid: u64)
    requires
        uuids_unique(old(uuids)@),
    ensures
        uuids_unique(final(uuids)@),
        final(uuids)@ == set_uuid(old(uuids)@, a, uuid),
{
    let ghost u = uuids@;
    let mut i: usize = 0;
    while i < uuids.len()
        invariant
            uuids@ == u,
            u == old(uuids)@,
            uuids_unique(u),
            i <= u.len(),
            forall|k: int| 0 <= k < i ==> u[k].0 != a,
        decreases u.len() - i,
    {
        if uuids[i].0 == a {
            proof {
                assert(u[i as int].0 == a);
                let c = choose|c: int| 0 <= c < u.len() && #[trigger] u[c].0 == a;
                assert(u[c].0 == a);
                assert(c == i);
            }
            uuids.set(i, (a, uuid));
            proof {
                let v = uuids@;
                assert forall|x: int, y: int| #![trigger v[x], v[y]] 0 <= x < v.len() && 0 <= y < v.len() && x != y implies v[x].0 != v[y].0 by {
                    assert(u[x].0 != u[y].0);
                }
            }
            return;
        }
        i = i + 1;
    }
    uuids.push((a, uuid));
    proof {
        let v = uuids@;
        assert forall|x: int, y: int| #![trigger v[x], v[y]] 0 <= x < v.len() && 0 <= y < v.len() && x != y implies v[x].0 != v[y].0 by {
            if x < u.len() && y < u.len() {
                assert(v[x] == u[x] && v[y] == u[y]);
            } else if x < u.len() {
                assert(v[x] == u[x]);
            } else {
                assert(v[y] == u[y]);
            }
        }
    }
}

impl PubSubFeatureWorker {
    fn send_control(&mut self, to: PeerAddr, id: RelayId, c: RelayControl)
        ensures
            final(self)@ == (WorkerView { queue: old(self)@.queue.push(direct(to, id, c)), ..old(self)@ }),
            final(self).wf() == old(self).wf(),
    {
        push_worker_output(&mut self.queue, WorkerOutput::RawDirect2(to, PubsubMessage::Control(id, c)));
    }

    fn send_route_changed(&mut self, id: RelayId)
        requires
            old(self).wf(),
        ensures
            final(self).wf(),
            final(self)@ == relay_control_spec(old(self)@, None, id, RelayWorkerControl::SendRouteChanged),
    {
        let ghost w = self@;
        match self.find_relay(id) {
            Some(i) => {
                let ghost uuids = w.relays[i as int].1.remotes_uuid;
                let n = self.relays[i].1.remotes_uuid.len();
                let mut k: usize = 0;
                while k < n
                    invariant
                        i < self@.relays.len(),
                        self@.relays == w.relays,
                        self@.shutdown == w.shutdown,
                        self.wf(),
                        uuids == self@.relays[i as int].1.remotes_uuid,
                        n == uuids.len(),
                        k <= n,
                        self@.queue == w.queue + route_changed_to(uuids.take(k as int), id),
                    decreases n - k,
                {
                    let e = self.relays[i].1.remotes_uuid[k];
                    self.send_control(e.0, id, RelayControl::RouteChanged(e.1));
                    proof {
                        assert(uuids.take(k + 1) =~= uuids.take(k as int).push(e));
                        assert(self@.queue =~= w.queue + route_changed_to(uuids.take(k + 1), id));
                    }
                    k = k + 1;
                }
                assert(uuids.take(k as int) =~= uuids);
            },
            None => {},
        }
    }

    /// Applies a route change from the controller to the route table of `id`.
    fn route_change(&mut self, id: RelayId, control: RelayWorkerControl)
        requires
            old(self).wf(),
            control is RouteSetSource || control is RouteDelSource || control is RouteSetLocal || control is RouteDelLocal
                || control is RouteSetRemote || control is RouteDelRemote,
        ensures
            final(self).wf(),
            final(self)@ == relay_control_spec(old(self)@, None, id, control),
    {
        let ghost w = self@;
        let ghost rs = w.relays;
        let creates = match control {
            RelayWorkerControl::RouteSetSource(_) | RelayWorkerControl::RouteSetLocal(_) | RelayWorkerControl::RouteSetRemote(_, _) => true,
            _ => false,
        };
        if !creates && self.find_relay(id).is_none() {
            return;
        }
        let (at, mut rel) = self.take_relay(id);
        let ghost taken = self@.relays;
        proof {
            if has_relay(rs, id) {
                assert(rs[relay_index(rs, id)].0 == id);
                assert(rs[relay_index(rs, id)].1.remotes_uuid == rel@.remotes_uuid);
            }
            assert(uuids_unique(rel@.remotes_uuid));
        }
        match control {
            RelayWorkerControl::RouteSetSource(source) => {
                rel.source = Some(source);
            },
            RelayWorkerControl::RouteDelSource(source) => {
                if rel.source == Some(source) {
                    rel.source = None;
                }
            },
            RelayWorkerControl::RouteSetLocal(actor) => {
                rel.locals.push(actor);
            },
            RelayWorkerControl::RouteDelLocal(actor) => {
                swap_remove_first_actor(&mut rel.locals, actor);
            },
            RelayWorkerControl::RouteSetRemote(remote, uuid) => {
                rel.remotes.push(remote);
                set_uuid_exec(&mut rel.remotes_uuid, remote, uuid);
            },
            RelayWorkerControl::RouteDelRemote(remote) => {
                swap_remove_first_addr(&mut rel.remotes, remote);
            },
            _ => {},
        }
        let ghost r = rel@;
        proof {
            lemma_put_back(rs, taken, id, at as int, r);
        }
        let drops = match control {
            RelayWorkerControl::RouteDelLocal(_) | RelayWorkerControl::RouteDelRemote(_) => rel.is_empty(),
            _ => false,
        };
        if drops {
            proof {
                assert(taken =~= rs.remove(relay_index(rs, id)));
                assert forall|k: int| 0 <= k < taken.len() implies uuids_unique(#[trigger] self@.relays[k].1.remotes_uuid) by {}
            }
        } else {
            self.put_relay(at, id, rel);
        }
        proof {
            if control is RouteDelSource {
                if !(rel@.source == None::<PeerAddr> && relay_of(rs, id).source == Some(control->RouteDelSource_0)) {
                    assert(r == relay_of(rs, id));
                    assert(self@.relays =~= rs) by {
                        let i = relay_index(rs, id);
                        assert(rs[i].0 == id);
                        assert(rs.update(i, (id, r)) =~= rs);
                    }
                }
            }
        }
    }
}

impl PubSubFeatureWorker {
    /// Sends `data` of relay `id` to its local consumers and, in one message, to its remote ones.
    fn publish(&mut self, id: RelayId, data: Vec<u8>)
        requires
            old(self).wf(),
        ensures
            final(self).wf(),
            final(self)@ == publish_spec(old(self)@, id, data@),
    {
        let ghost w = self@;
        match self.find_relay(id) {
            Some(i) => {
                let ghost locals = w.relays[i as int].1.locals;
                let n = self.relays[i].1.locals.len();
                let mut k: usize = 0;
                while k < n
                    invariant
                        i < self@.relays.len(),
                        self@.relays == w.relays,
                        self@.shutdown == w.shutdown,
                        self.wf(),
                        locals == self@.relays[i as int].1.locals,
                        n == locals.len(),
                        k <= n,
                        self@.queue == w.queue + data_to_locals(locals.take(k as int), id.0, id.1, data@),
                    decreases n - k,
                {
                    let actor = self.relays[i].1.locals[k];
                    let copy = crate::dht_kv::msg::copy_bytes(&data);
                    push_worker_output(&mut self.queue, WorkerOutput::Event(actor, Event(id.0, ChannelEvent::SourceData(id.1, copy))));
                    proof {
                        assert(locals.take(k + 1) =~= locals.take(k as int).push(actor));
                        assert(self@.queue =~= w.queue + data_to_locals(locals.take(k + 1), id.0, id.1, data@));
                    }
                    k = k + 1;
                }
                assert(locals.take(k as int) =~= locals);
                if self.relays[i].1.remotes.len() > 0 {
                    let remotes = copy_addrs(&self.relays[i].1.remotes);
                    push_worker_output(&mut self.queue, WorkerOutput::RawBroadcast2(remotes, PubsubMessage::Data(id, data)));
                }
            },
            None => {},
        }
    }

    /// Handles an input on the worker of node `node_id`. `route` is the next hop the router
    /// gives towards the input's destination: the relay's source node for a subscription
    /// without a chosen next hop, the channel's key for a source hint without an address.
    pub fn on_input(&mut self, node_id: NodeId, route: Option<PeerAddr>, input: WorkerInput)
        requires
            old(self).wf(),
        ensures
            final(self).wf(),
            final(self)@ == worker_input_spec(old(self)@, node_id, route, input@),
    {
        match input {
            WorkerInput::FromController(_, ToWorker::RelayControl(id, control)) => match control {
                RelayWorkerControl::SendSub(uuid, remote) => {
                    let dest = match remote {
                        Some(r) => Some(r),
                        None => route,
                    };
                    match dest {
                        Some(d) => self.send_control(d, id, RelayControl::Sub(uuid)),
                        None => {},
                    }
                },
                RelayWorkerControl::SendFeedback(fb, remote) => self.send_control(remote, id, RelayControl::Feedback(fb)),
                RelayWorkerControl::SendUnsub(uuid, remote) => self.send_control(remote, id, RelayControl::Unsub(uuid)),
                RelayWorkerControl::SendSubOk(uuid, remote) => self.send_control(remote, id, RelayControl::SubOK(uuid)),
                RelayWorkerControl::SendUnsubOk(uuid, remote) => self.send_control(remote, id, RelayControl::UnsubOK(uuid)),
                RelayWorkerControl::SendRouteChanged => self.send_route_changed(id),
                _ => self.route_change(id, control),
            },
            WorkerInput::FromController(_, ToWorker::SourceHint(channel, remote, hint)) => {
                let dest = match remote {
                    Some(r) => Some(r),
                    None => route,
                };
                match dest {
                    Some(d) => push_worker_output(&mut self.queue, WorkerOutput::RawDirect2(d, PubsubMessage::SourceHint(channel, hint))),
                    None => {},
                }
            },
            WorkerInput::FromController(_, ToWorker::RelayData(id, data)) => {
                match self.find_relay(id) {
                    Some(i) => {
                        if self.relays[i].1.remotes.len() > 0 {
                            let remotes = copy_addrs(&self.relays[i].1.remotes);
                            push_worker_output(&mut self.queue, WorkerOutput::RawBroadcast2(remotes, PubsubMessage::Data(id, data)));
                        }
                    },
                    None => {},
                }
            },
            WorkerInput::Control(actor, control) => {
                let Control(channel, c) = control;
                match c {
                    ChannelControl::PubData(data) => self.publish(RelayId(channel, node_id), data),
                    other => push_worker_output(&mut self.queue, WorkerOutput::ForwardControlToController(actor, Control(channel, other))),
                }
            },
        }
    }

    /// Handles a message received from the neighbour `remote`.
    pub fn on_network_msg(&mut self, remote: PeerAddr, msg: PubsubMessage)
        requires
            old(self).wf(),
        ensures
            final(self).wf(),
            final(self)@ == worker_network_spec(old(self)@, remote, msg@),
    {
        match msg {
            PubsubMessage::Control(id, control) => {
                push_worker_output(&mut self.queue, WorkerOutput::ToController(ToController::RelayControl(remote, id, control)));
            },
            PubsubMessage::SourceHint(channel, hint) => {
                push_worker_output(&mut self.queue, WorkerOutput::ToController(ToController::SourceHint(remote, channel, hint)));
            },
            PubsubMessage::Data(id, data) => {
                match self.find_relay(id) {
                    Some(i) => {
                        if self.relays[i].1.source == Some(remote) {
                            self.publish(id, data);
                        }
                    },
                    None => {},
                }
            },
        }
    }

    /// The worker is shutting down.
    pub fn on_shutdown(&mut self)
        requires
            old(self).wf(),
        ensures
            final(self).wf(),
            final(self)@ == (WorkerView { shutdown: true, ..old(self)@ }),
    {
        self.shutdown = true;
    }

    /// Shut down with nothing left to hand out.
    pub fn is_empty(&self) -> (r: bool)
        ensures
            r == (self@.shutdown && self@.queue.len() == 0),
    {
        self.shutdown && self.queue.len() == 0
    }

    /// The output that tells the worker is done.
    pub fn empty_event(&self) -> (r: WorkerOutput)
        ensures
            r@ == WorkerOutputView::OnResourceEmpty,
    {
        WorkerOutput::OnResourceEmpty
    }

    /// Hands out the oldest output.
    pub fn pop_output(&mut self) -> (r: Option<WorkerOutput>)
        requires
            old(self).wf(),
        ensures
            final(self).wf(),
            old(self)@.queue.len() == 0 ==> r is None && final(self)@ == old(self)@,
            old(self)@.queue.len() > 0 ==> r is Some && r->0@ == old(self)@.queue[0]
                && final(self)@ == (WorkerView { queue: old(self)@.queue.drop_first(), ..old(self)@ }),
    {
        let ghost q = self.queue@;
        let r = self.queue.pop_front();
        proof {
            if q.len() > 0 {
                assert(worker_outputs(q.drop_first()) =~= worker_outputs(q).drop_first());
            }
        }
        r
    }

    /// The route table of `id`, if the worker has one.
    pub fn relay(&self, id: RelayId) -> (r: Option<&WorkerRelay>)
        requires
            self.wf(),
        ensures
            has_relay(self@.relays, id) ==> r is Some && r->0@ == relay_of(self@.relays, id),
            !has_relay(self@.relays, id) ==> r is None,
    {
        match self.find_relay(id) {
            Some(i) => Some(&self.relays[i].1),
            None => None,
        }
    }
}

/// A local consumer added to and then removed from a relay the worker did not know leaves
/// the worker's route tables as they were.
pub proof fn law_local_route_set_del(w: WorkerView, id: RelayId, actor: FeatureControlActor)
    requires
        worker_wf(w),
        !has_relay(w.relays, id),
    ensures
        relay_control_spec(
            relay_control_spec(w, None, id, RelayWorkerControl::RouteSetLocal(actor)),
            None,
            id,
            RelayWorkerControl::RouteDelLocal(actor),
        ).relays == w.relays,
{
    let r = WorkerRelayView { locals: seq![actor], ..empty_relay() };
    assert(empty_relay().locals.push(actor) =~= seq![actor]);
    let rs = w.relays.push((id, r));
    assert(rs[w.relays.len() as int].0 == id);
    let i = relay_index(rs, id);
    assert(rs[i].0 == id);
    if i < w.relays.len() {
        assert(w.relays[i].0 == id);
    }
    assert(i == w.relays.len());
    assert(r.locals.contains(actor)) by {
        assert(r.locals[0] == actor);
    }
    let f = first_index(r.locals, actor);
    assert(r.locals[f] == actor);
    assert(swap_removed_first(r.locals, actor).len() == 0);
    assert(rs.remove(i) =~= w.relays);
}

/// Data is only taken from the relay's source: from any other neighbour it is dropped.
pub proof fn law_data_only_from_source(w: WorkerView, remote: PeerAddr, id: RelayId, data: Seq<u8>)
    requires
        relay_of(w.relays, id).source != Some(remote),
    ensures
        worker_network_spec(w, remote, PubsubMessageView::Data(id, data)) == w,
{
}

} // verus!
