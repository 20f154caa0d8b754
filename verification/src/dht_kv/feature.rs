//! The DHT key-value feature: the local and the remote storage of a node together.

use vstd::prelude::*;

use super::msg::NodeSession;
use super::storage::{
    live_waits, local_storage_control_spec, local_storage_server_spec, remote_storage_spec, tick_local_maps, tick_remote_maps, Control, Event, EventView,
    LocalStorage, LocalStorageOutput, LocalStorageOutputView, LocalStorageView, RemoteCommand, RemoteCommandView, RemoteStorage, RemoteStorageView,
};
use crate::base::ForwardingWorker;
use crate::types::{FeatureControlActor, NodeId, RouteRule};

verus! {

/// The identifier of the DHT key-value feature.
pub const FEATURE_ID: u8 = 4;

/// What the controller sends to the workers (nothing is ever sent).
#[derive(Debug, Clone, Copy, PartialEq, Eq, Structural)]
pub struct ToWorker;

/// What a worker sends to the controller (nothing is ever sent).
#[derive(Debug, Clone, Copy, PartialEq, Eq, Structural)]
pub struct ToController;

/// Timestamps stay below this bound, which leaves room for the timeouts of the maps.
pub const TIME_LIMIT_MS: u64 = 0xffff_ffff_ffff_0000;

/// An output of the DHT: an event for a local actor, or a message to route.
#[derive(Debug, PartialEq, Eq)]
pub enum InternalOutput {
    Local(FeatureControlActor, Event),
    Remote(RouteRule, RemoteCommand),
}

/// Mathematical form of [`InternalOutput`].
pub enum InternalOutputView {
    Local(FeatureControlActor, EventView),
    Remote(RouteRule, RemoteCommandView),
}

impl View for InternalOutput {
    type V = InternalOutputView;

    open spec fn view(&self) -> InternalOutputView {
        match self {
            InternalOutput::Local(a, e) => InternalOutputView::Local(*a, e@),
            InternalOutput::Remote(r, c) => InternalOutputView::Remote(*r, c@),
        }
    }
}

/// Mathematical state of a [`DhtKvInternal`].
pub struct InternalView {
    pub session: NodeSession,
    pub local: LocalStorageView,
    pub remote: RemoteStorageView,
}

/// The local and the remote storage of a node.
pub struct DhtKvInternal {
    session: NodeSession,
    local: LocalStorage,
    remote: RemoteStorage,
}

impl View for DhtKvInternal {
    type V = InternalView;

    closed spec fn view(&self) -> InternalView {
        InternalView { session: self.session, local: self.local@, remote: self.remote@ }
    }
}

/// What a message from another node does: a client's command goes to the remote storage,
/// a storing node's event to the local storage.
pub open spec fn internal_remote_spec(s: InternalView, now: u64, cmd: RemoteCommandView) -> InternalView {
    match cmd {
        RemoteCommandView::Client(remote, c) => InternalView { remote: remote_storage_spec(s.remote, now, remote, c), ..s },
        RemoteCommandView::Server(remote, e) => InternalView { local: local_storage_server_spec(s.local, now, remote, e), ..s },
    }
}

/// The next output: the local storage's first, as commands of this session; then the
/// remote storage's, routed to the node they answer.
pub open spec fn internal_pop_spec(s: InternalView) -> (InternalView, Option<InternalOutputView>) {
    if s.local.queue.len() > 0 {
        let o = match s.local.queue[0] {
            LocalStorageOutputView::Remote(rule, c) => InternalOutputView::Remote(rule, RemoteCommandView::Client(s.session, c)),
            LocalStorageOutputView::Local(a, e) => InternalOutputView::Local(a, e),
        };
        (InternalView { local: LocalStorageView { queue: s.local.queue.drop_first(), ..s.local }, ..s }, Some(o))
    } else if s.remote.queue.len() > 0 {
        let (to, e) = s.remote.queue[0];
        (
            InternalView { remote: RemoteStorageView { queue: s.remote.queue.drop_first(), ..s.remote }, ..s },
            Some(InternalOutputView::Remote(RouteRule::ToNode(to.0), RemoteCommandView::Server(s.session, e))),
        )
    } else {
        (s, None)
    }
}

impl DhtKvInternal {
    pub closed spec fn wf(&self) -> bool {
        &&& self.local.wf()
        &&& self.remote.wf()
    }

    pub fn new(session: NodeSession) -> (r: Self)
        ensures
            r.wf(),
            r@.session == session,
            r@.local == (LocalStorageView { session, maps: Seq::empty(), waits: Seq::empty(), queue: Seq::empty(), req_id_seed: 0 }),
            r@.remote == (RemoteStorageView { session, maps: Seq::empty(), queue: Seq::empty() }),
    {
        DhtKvInternal { session, local: LocalStorage::new(session), remote: RemoteStorage::new(session) }
    }

    /// Periodic work of both storages.
    pub fn on_tick(&mut self, now: u64)
        requires
            old(self).wf(),
            now <= TIME_LIMIT_MS,
        ensures
            final(self).wf(),
            final(self)@.session == old(self)@.session,
            final(self)@.local == (LocalStorageView {
                maps: tick_local_maps(old(self)@.local.maps, now).0,
                waits: live_waits(old(self)@.local.waits, now),
                queue: old(self)@.local.queue + tick_local_maps(old(self)@.local.maps, now).1,
                ..old(self)@.local
            }),
            final(self)@.remote == (RemoteStorageView {
                maps: tick_remote_maps(old(self)@.remote.maps, now).0,
                queue: old(self)@.remote.queue + tick_remote_maps(old(self)@.remote.maps, now).1,
                ..old(self)@.remote
            }),
    {
        self.local.on_tick(now);
        self.remote.on_tick(now);
    }

    /// A control of a local actor.
    pub fn on_local(&mut self, now: u64, actor: FeatureControlActor, control: Control)
        requires
            old(self).wf(),
            now <= TIME_LIMIT_MS,
            control is MapGet ==> old(self)@.local.req_id_seed < u64::MAX,
        ensures
            final(self).wf(),
            final(self)@ == (InternalView { local: local_storage_control_spec(old(self)@.local, now, actor, control@), ..old(self)@ }),
    {
        self.local.on_local(now, actor, control);
    }

    /// A message from another node.
    pub fn on_remote(&mut self, now: u64, cmd: RemoteCommand)
        requires
            old(self).wf(),
            now <= TIME_LIMIT_MS,
        ensures
            final(self).wf(),
            final(self)@ == internal_remote_spec(old(self)@, now, cmd@),
    {
        match cmd {
            RemoteCommand::Client(remote, c) => self.remote.on_remote(now, remote, c),
            RemoteCommand::Server(remote, e) => self.local.on_server(now, remote, e),
        }
    }

    /// Hands out the next output.
    pub fn pop_action(&mut self) -> (r: Option<InternalOutput>)
        requires
            old(self).wf(),
        ensures
            final(self).wf(),
            (final(self)@, match r {
                Some(o) => Some(o@),
                None => None,
            }) == internal_pop_spec(old(self)@),
    {
        match self.local.pop_action() {
            Some(LocalStorageOutput::Remote(rule, cmd)) => Some(InternalOutput::Remote(rule, RemoteCommand::Client(self.session, cmd))),
            Some(LocalStorageOutput::Local(actor, event)) => Some(InternalOutput::Local(actor, event)),
            None => match self.remote.pop_action() {
                Some((to, cmd)) => Some(InternalOutput::Remote(RouteRule::ToNode(to.0), RemoteCommand::Server(self.session, cmd))),
                None => None,
            },
        }
    }
}

/// An input of the DHT feature: a control of a local actor, or a decoded message from
/// this node or from the network (with whether it came over a secure connection).
#[derive(Debug, PartialEq, Eq)]
pub enum FeatureInput {
    Control(FeatureControlActor, Control),
    Local(RemoteCommand),
    Net(bool, RemoteCommand),
}

/// The DHT key-value feature of a node.
pub struct DhtKvFeature {
    internal: DhtKvInternal,
}

impl View for DhtKvFeature {
    type V = InternalView;

    closed spec fn view(&self) -> InternalView {
        self.internal@
    }
}

impl DhtKvFeature {
    pub closed spec fn wf(&self) -> bool {
        self.internal.wf()
    }

    /// The feature of node `node_id` running session `session`.
    pub fn new(node_id: NodeId, session: u64) -> (r: Self)
        ensures
            r.wf(),
            r@.session == NodeSession(node_id, session),
            r@.local == (LocalStorageView {
                session: NodeSession(node_id, session),
                maps: Seq::empty(),
                waits: Seq::empty(),
                queue: Seq::empty(),
                req_id_seed: 0,
            }),
            r@.remote == (RemoteStorageView { session: NodeSession(node_id, session), maps: Seq::empty(), queue: Seq::empty() }),
    {
        DhtKvFeature { internal: DhtKvInternal::new(NodeSession(node_id, session)) }
    }

    /// A tick.
    pub fn on_tick(&mut self, now: u64)
        requires
            old(self).wf(),
            now <= TIME_LIMIT_MS,
        ensures
            final(self).wf(),
            final(self)@.session == old(self)@.session,
            final(self)@.local == (LocalStorageView {
                maps: tick_local_maps(old(self)@.local.maps, now).0,
                waits: live_waits(old(self)@.local.waits, now),
                queue: old(self)@.local.queue + tick_local_maps(old(self)@.local.maps, now).1,
                ..old(self)@.local
            }),
            final(self)@.remote == (RemoteStorageView {
                maps: tick_remote_maps(old(self)@.remote.maps, now).0,
                queue: old(self)@.remote.queue + tick_remote_maps(old(self)@.remote.maps, now).1,
                ..old(self)@.remote
            }),
    {
        self.internal.on_tick(now);
    }

    /// Handles an input; messages from the network are only taken over secure connections.
    pub fn on_input(&mut self, now_ms: u64, input: FeatureInput)
        requires
            old(self).wf(),
            now_ms <= TIME_LIMIT_MS,
            input matches FeatureInput::Control(_, c) && c is MapGet ==> old(self)@.local.req_id_seed < u64::MAX,
        ensures
            final(self).wf(),
            final(self)@ == match input {
                FeatureInput::Control(actor, control) => InternalView { local: local_storage_control_spec(old(self)@.local, now_ms, actor, control@), ..old(self)@ },
                FeatureInput::Local(cmd) => internal_remote_spec(old(self)@, now_ms, cmd@),
                FeatureInput::Net(secure, cmd) => if secure {
                    internal_remote_spec(old(self)@, now_ms, cmd@)
                } else {
                    old(self)@
                },
            },
    {
        match input {
            FeatureInput::Control(actor, control) => self.internal.on_local(now_ms, actor, control),
            FeatureInput::Local(cmd) => self.internal.on_remote(now_ms, cmd),
            FeatureInput::Net(secure, cmd) => {
                if secure {
                    self.internal.on_remote(now_ms, cmd);
                }
            },
        }
    }

    /// Hands out the next output.
    pub fn pop_output(&mut self) -> (r: Option<InternalOutput>)
        requires
            old(self).wf(),
        ensures
            final(self).wf(),
            (final(self)@, match r {
                Some(o) => Some(o@),
                None => None,
            }) == internal_pop_spec(old(self)@),
    {
        self.internal.pop_action()
    }
}

/// The DHT key-value feature on a worker: it hands every control and message on to the
/// controller.
pub type DhtKvFeatureWorker = ForwardingWorker<Control, ToWorker>;

} // verus!
