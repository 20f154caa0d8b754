//! The maps a node stores for others (the remote storage) and the maps its own actors use
//! (the local storage), with the messages between them.

use std::collections::VecDeque;
use vstd::prelude::*;

use super::client_map::{on_control_spec, on_server_spec, on_tick_spec as local_tick_spec, LocalMap, LocalMapOutput, LocalMapOutputView, LocalMapView, UNSUB_TIMEOUT_MS};
use super::msg::{
    ClientMapCommand, ClientMapCommandView, DhtMap, GetError, Key, MapControl, MapControlView, MapEvent, MapEventView, NodeSession, ServerMapEvent,
    ServerMapEventView, Version,
};
use super::server_map::{on_client_spec, on_tick_spec as remote_tick_spec, RemoteMap, RemoteMapView, SlotEntryView, TIMEOUT_MS};
use crate::types::{FeatureControlActor, RouteRule};

verus! {

/// A command from a client node to the node that stores a map.
#[derive(Debug, PartialEq, Eq)]
pub enum ClientCommand {
    MapCmd(DhtMap, ClientMapCommand),
    MapGet(DhtMap, u64),
}

/// Mathematical form of [`ClientCommand`].
pub enum ClientCommandView {
    MapCmd(DhtMap, ClientMapCommandView),
    MapGet(DhtMap, u64),
}

impl View for ClientCommand {
    type V = ClientCommandView;

    open spec fn view(&self) -> ClientCommandView {
        match self {
            ClientCommand::MapCmd(m, c) => ClientCommandView::MapCmd(*m, c@),
            ClientCommand::MapGet(m, id) => ClientCommandView::MapGet(*m, *id),
        }
    }
}

/// A stored value: its key, the session that wrote it, its version and its bytes.
pub type MapValue = (Key, NodeSession, Version, Vec<u8>);

/// Mathematical form of [`MapValue`].
pub type MapValueView = (Key, NodeSession, Version, Seq<u8>);

pub open spec fn values_view(v: Seq<MapValue>) -> Seq<MapValueView> {
    v.map_values(|x: MapValue| (x.0, x.1, x.2, x.3@))
}

/// An event from the node that stores a map to a client node.
#[derive(Debug, PartialEq, Eq)]
pub enum ServerEvent {
    MapEvent(DhtMap, ServerMapEvent),
    MapGetRes(DhtMap, u64, Vec<MapValue>),
}

/// Mathematical form of [`ServerEvent`].
pub enum ServerEventView {
    MapEvent(DhtMap, ServerMapEventView),
    MapGetRes(DhtMap, u64, Seq<MapValueView>),
}

impl View for ServerEvent {
    type V = ServerEventView;

    open spec fn view(&self) -> ServerEventView {
        match self {
            ServerEvent::MapEvent(m, e) => ServerEventView::MapEvent(*m, e@),
            ServerEvent::MapGetRes(m, id, v) => ServerEventView::MapGetRes(*m, *id, values_view(v@)),
        }
    }
}

/// A message between nodes of the DHT, with the session of its sender.
#[derive(Debug, PartialEq, Eq)]
pub enum RemoteCommand {
    Client(NodeSession, ClientCommand),
    Server(NodeSession, ServerEvent),
}

/// Mathematical form of [`RemoteCommand`].
pub enum RemoteCommandView {
    Client(NodeSession, ClientCommandView),
    Server(NodeSession, ServerEventView),
}

impl View for RemoteCommand {
    type V = RemoteCommandView;

    open spec fn view(&self) -> RemoteCommandView {
        match self {
            RemoteCommand::Client(s, c) => RemoteCommandView::Client(*s, c@),
            RemoteCommand::Server(s, e) => RemoteCommandView::Server(*s, e@),
        }
    }
}

/// The route to the node that stores `map`: the one closest to its key.
pub open spec fn route_spec(map: DhtMap) -> RouteRule {
    RouteRule::ToKey(map.0 as u32)
}

pub fn route(map: DhtMap) -> (r: RouteRule)
    ensures
        r == route_spec(map),
{
    RouteRule::ToKey(map.0 as u32)
}

// ---- the remote storage --------------------------------------------------------------------

/// Mathematical state of a [`RemoteStorage`].
pub struct RemoteStorageView {
    pub session: NodeSession,
    pub maps: Seq<(DhtMap, RemoteMapView)>,
    pub queue: Seq<(NodeSession, ServerEventView)>,
}

/// The maps this node stores for others.
pub struct RemoteStorage {
    session: NodeSession,
    maps: Vec<(DhtMap, RemoteMap)>,
    queue: VecDeque<(NodeSession, ServerEvent)>,
}

pub open spec fn server_queue(q: Seq<(NodeSession, ServerEvent)>) -> Seq<(NodeSession, ServerEventView)> {
    q.map_values(|p: (NodeSession, ServerEvent)| (p.0, p.1@))
}

impl View for RemoteStorage {
    type V = RemoteStorageView;

    closed spec fn view(&self) -> RemoteStorageView {
        RemoteStorageView {
            session: self.session,
            maps: self.maps@.map_values(|e: (DhtMap, RemoteMap)| (e.0, e.1@)),
            queue: server_queue(self.queue@),
        }
    }
}

pub open spec fn has_map<M>(maps: Seq<(DhtMap, M)>, key: DhtMap) -> bool {
    exists|i: int| 0 <= i < maps.len() && #[trigger] maps[i].0 == key
}

pub open spec fn map_index<M>(maps: Seq<(DhtMap, M)>, key: DhtMap) -> int {
    choose|i: int| 0 <= i < maps.len() && #[trigger] maps[i].0 == key
}

pub open spec fn map_keys_unique<M>(maps: Seq<(DhtMap, M)>) -> bool {
    forall|i: int, j: int| #![trigger maps[i], maps[j]] 0 <= i < maps.len() && 0 <= j < maps.len() && i != j ==> maps[i].0 != maps[j].0
}

/// The events a stored map queued, as events of `key`.
pub open spec fn map_events(key: DhtMap, q: Seq<(NodeSession, ServerMapEventView)>) -> Seq<(NodeSession, ServerEventView)> {
    q.map_values(|p: (NodeSession, ServerMapEventView)| (p.0, ServerEventView::MapEvent(key, p.1)))
}

/// What every stored value gives in a read answer, in slot order.
pub open spec fn dump_spec(slots: Seq<SlotEntryView>) -> Seq<MapValueView> {
    slots.map_values(|e: SlotEntryView| (e.key, e.source, e.value.version, e.value.data))
}

pub open spec fn empty_remote_map(session: NodeSession) -> RemoteMapView {
    RemoteMapView { session, slots: Seq::empty(), events: Seq::empty(), subs: Seq::empty(), queue: Seq::empty() }
}

/// What a command of a client does: a map command goes to the map (created by a command
/// that creates, ignored otherwise); when it is answered, the answer goes first and the
/// map's queued events follow. A read is answered with every stored value (none for an
/// unknown map).
pub open spec fn remote_storage_spec(s: RemoteStorageView, now: u64, remote: NodeSession, cmd: ClientCommandView) -> RemoteStorageView {
    match cmd {
        ClientCommandView::MapCmd(key, c) => {
            if !has_map(s.maps, key) && !c.is_creator() {
                s
            } else {
                let m = if has_map(s.maps, key) {
                    s.maps[map_index(s.maps, key)].1
                } else {
                    empty_remote_map(s.session)
                };
                let maps = if has_map(s.maps, key) {
                    s.maps
                } else {
                    s.maps.push((key, m))
                };
                let i = map_index(maps, key);
                let (m1, ev) = on_client_spec(m, now, remote, c);
                match ev {
                    Some(e) => RemoteStorageView {
                        maps: maps.update(i, (key, RemoteMapView { queue: Seq::empty(), ..m1 })),
                        queue: s.queue.push((remote, ServerEventView::MapEvent(key, e))) + map_events(key, m1.queue),
                        ..s
                    },
                    None => RemoteStorageView { maps: maps.update(i, (key, m1)), ..s },
                }
            }
        },
        ClientCommandView::MapGet(key, id) => {
            let values = if has_map(s.maps, key) {
                dump_spec(s.maps[map_index(s.maps, key)].1.slots)
            } else {
                Seq::empty()
            };
            RemoteStorageView { queue: s.queue.push((remote, ServerEventView::MapGetRes(key, id, values))), ..s }
        },
    }
}

/// The stored maps after a tick of each, in order, with the events they queued; maps left
/// empty are dropped.
pub open spec fn tick_remote_maps(maps: Seq<(DhtMap, RemoteMapView)>, now: u64) -> (Seq<(DhtMap, RemoteMapView)>, Seq<(NodeSession, ServerEventView)>)
    decreases maps.len(),
{
    if maps.len() == 0 {
        (Seq::empty(), Seq::empty())
    } else {
        let (rest, out) = tick_remote_maps(maps.drop_last(), now);
        let (key, m) = maps.last();
        let m1 = remote_tick_spec(m, now);
        let m2 = RemoteMapView { queue: Seq::empty(), ..m1 };
        let out2 = out + map_events(key, m1.queue);
        if m2.slots.len() == 0 && m2.subs.len() == 0 && m2.events.len() == 0 {
            (rest, out2)
        } else {
            (rest.push((key, m2)), out2)
        }
    }
}

fn push_server_event(queue: &mut VecDeque<(NodeSession, ServerEvent)>, to: NodeSession, e: ServerEvent)
    ensures
        server_queue(final(queue)@) == server_queue(old(queue)@).push((to, e@)),
{
    let ghost q = queue@;
    queue.push_back((to, e));
    assert(server_queue(queue@) =~= server_queue(q).push((to, e@)));
}

/// Moves the events `map` queued to `queue`, as events of `key`.
fn drain_remote_map(key: DhtMap, map: &mut RemoteMap, queue: &mut VecDeque<(NodeSession, ServerEvent)>)
    requires
        old(map).wf(),
    ensures
        final(map).wf(),
        final(map)@ == (RemoteMapView { queue: Seq::empty(), ..old(map)@ }),
        server_queue(final(queue)@) == server_queue(old(queue)@) + map_events(key, old(map)@.queue),
{
    let ghost m0 = map@;
    let ghost q0 = server_queue(queue@);
    let ghost mut taken: Seq<(NodeSession, ServerMapEventView)> = Seq::empty();
    loop
        invariant
            map.wf(),
            m0.queue == taken + map@.queue,
            map@ == (RemoteMapView { queue: map@.queue, ..m0 }),
            server_queue(queue@) == q0 + map_events(key, taken),
        ensures
            map@.queue.len() == 0,
        decreases map@.queue.len(),
    {
        match map.pop_action() {
            Some((session, event)) => {
                let ghost ev = event@;
                push_server_event(queue, session, ServerEvent::MapEvent(key, event));
                proof {
                    assert(map_events(key, taken.push((session, ev))) =~= map_events(key, taken).push((session, ServerEventView::MapEvent(key, ev))));
                    taken = taken.push((session, ev));
                    assert(m0.queue =~= taken + map@.queue);
                    assert(server_queue(queue@) =~= q0 + map_events(key, taken));
                }
            },
            None => {
                assert(taken =~= m0.queue);
                break;
            },
        }
    }
    assert(map@.queue =~= Seq::<(NodeSession, ServerMapEventView)>::empty());
}

impl RemoteStorage {
    pub closed spec fn wf(&self) -> bool {
        &&& map_keys_unique(self@.maps)
        &&& forall|i: int| 0 <= i < self.maps@.len() ==> (#[trigger] self.maps@[i]).1.wf()
        &&& forall|i: int| 0 <= i < self.maps@.len() ==> (#[trigger] self.maps@[i]).1@.session == self.session
    }

    pub fn new(session: NodeSession) -> (r: Self)
        ensures
            r.wf(),
            r@ == (RemoteStorageView { session, maps: Seq::empty(), queue: Seq::empty() }),
    {
        let r = RemoteStorage { session, maps: Vec::new(), queue: VecDeque::new() };
        assert(r@.maps =~= Seq::empty());
        assert(r@.queue =~= Seq::empty());
        r
    }

    fn find_map(&self, key: DhtMap) -> (r: Option<usize>)
        requires
            self.wf(),
        ensures
            match r {
                Some(i) => has_map(self@.maps, key) && i == map_index(self@.maps, key) && i < self@.maps.len(),
                None => !has_map(self@.maps, key),
            },
    {
        let mut i: usize = 0;
        while i < self.maps.len()
            invariant
                self.wf(),
                i <= self@.maps.len(),
                forall|k: int| 0 <= k < i ==> self@.maps[k].0 != key,
            decreases self@.maps.len() - i,
        {
            if self.maps[i].0 == key {
                proof {
                    assert(self@.maps[i as int].0 == key);
                    let c = map_index(self@.maps, key);
                    assert(self@.maps[c].0 == key);
                }
                return Some(i);
            }
            i = i + 1;
        }
        None
    }

    /// Handles a command of the client `remote`.
    #[verifier::rlimit(30)]
    pub fn on_remote(&mut self, now: u64, remote: NodeSession, cmd: ClientCommand)
        requires
            old(self).wf(),
            now <= u64::MAX - TIMEOUT_MS,
        ensures
            final(self).wf(),
            final(self)@ == remote_storage_spec(old(self)@, now, remote, cmd@),
    {
        let ghost s = self@;
        match cmd {
            ClientCommand::MapCmd(key, c) => {
                let i = match self.find_map(key) {
                    Some(i) => i,
                    None => {
                        if !c.is_creator() {
                            return;
                        }
                        let m = RemoteMap::new(self.session);
                        self.maps.push((key, m));
                        proof {
                            let ms = self@.maps;
                            assert(ms =~= s.maps.push((key, empty_remote_map(s.session))));
                            assert forall|a: int, b: int| #![trigger ms[a], ms[b]] 0 <= a < ms.len() && 0 <= b < ms.len() && a != b implies ms[a].0 != ms[b].0 by {
                                if a < s.maps.len() && b < s.maps.len() {
                                    assert(ms[a] == s.maps[a] && ms[b] == s.maps[b]);
                                } else if a < s.maps.len() {
                                    assert(ms[a] == s.maps[a]);
                                } else {
                                    assert(ms[b] == s.maps[b]);
                                }
                            }
                            let c2 = map_index(ms, key);
                            assert(ms[s.maps.len() as int].0 == key);
                            assert(ms[c2].0 == key);
                        }
                        self.maps.len() - 1
                    },
                };
                let ghost maps1 = self@.maps;
                let (k, mut map) = self.maps.remove(i);
                let ghost mid = self.maps@;
                let ev = map.on_client(now, remote, c);
                match ev {
                    Some(e) => {
                        push_server_event(&mut self.queue, remote, ServerEvent::MapEvent(key, e));
                        drain_remote_map(key, &mut map, &mut self.queue);
                    },
                    None => {},
                }
                self.maps.insert(i, (k, map));
                proof {
                    let ms = self@.maps;
                    assert(ms =~= maps1.update(i as int, (key, map@)));
                    assert forall|a: int, b: int| #![trigger ms[a], ms[b]] 0 <= a < ms.len() && 0 <= b < ms.len() && a != b implies ms[a].0 != ms[b].0 by {
                        assert(maps1[a].0 != maps1[b].0);
                    }
                    assert forall|a: int| 0 <= a < self.maps@.len() implies (#[trigger] self.maps@[a]).1.wf() && self.maps@[a].1@.session == self.session by {
                        if a != i {
                            let a2 = if a < i { a } else { a - 1 };
                            assert(self.maps@[a] == mid[a2]);
                        }
                    }
                }
            },
            ClientCommand::MapGet(key, id) => {
                let values = match self.find_map(key) {
                    Some(i) => self.maps[i].1.dump(),
                    None => Vec::new(),
                };
                proof {
                    let v = if has_map(s.maps, key) {
                        dump_spec(s.maps[map_index(s.maps, key)].1.slots)
                    } else {
                        Seq::empty()
                    };
                    assert(values_view(values@) =~= v);
                }
                push_server_event(&mut self.queue, remote, ServerEvent::MapGetRes(key, id, values));
            },
        }
    }
}

proof fn lemma_tick_remote_keys(maps: Seq<(DhtMap, RemoteMapView)>, now: u64)
    ensures
        forall|k: int| 0 <= k < tick_remote_maps(maps, now).0.len() ==> exists|j: int| 0 <= j < maps.len() && maps[j].0 == (#[trigger] tick_remote_maps(maps, now).0[k]).0,
        map_keys_unique(maps) ==> map_keys_unique(tick_remote_maps(maps, now).0),
    decreases maps.len(),
{
    if maps.len() > 0 {
        let d = maps.drop_last();
        lemma_tick_remote_keys(d, now);
        let rest = tick_remote_maps(d, now).0;
        let r = tick_remote_maps(maps, now).0;
        assert forall|k: int| 0 <= k < r.len() implies exists|j: int| 0 <= j < maps.len() && maps[j].0 == (#[trigger] r[k]).0 by {
            if k < rest.len() {
                let j = choose|j: int| 0 <= j < d.len() && d[j].0 == rest[k].0;
                assert(maps[j] == d[j]);
            } else {
                assert(maps[maps.len() - 1].0 == r[k].0);
            }
        }
        if map_keys_unique(maps) {
            assert(map_keys_unique(d)) by {
                assert forall|a: int, b: int| #![trigger d[a], d[b]] 0 <= a < d.len() && 0 <= b < d.len() && a != b implies d[a].0 != d[b].0 by {
                    assert(maps[a] == d[a] && maps[b] == d[b]);
                }
            }
            assert forall|a: int, b: int| #![trigger r[a], r[b]] 0 <= a < r.len() && 0 <= b < r.len() && a != b implies r[a].0 != r[b].0 by {
                if a < rest.len() && b < rest.len() {
                    assert(r[a] == rest[a] && r[b] == rest[b]);
                } else if a < rest.len() {
                    let j = choose|j: int| 0 <= j < d.len() && d[j].0 == rest[a].0;
                    assert(maps[j] == d[j]);
                    assert(r[b].0 == maps[maps.len() - 1].0);
                } else {
                    let j = choose|j: int| 0 <= j < d.len() && d[j].0 == rest[b].0;
                    assert(maps[j] == d[j]);
                    assert(r[a].0 == maps[maps.len() - 1].0);
                }
            }
        }
    }
}

impl RemoteStorage {
    /// Periodic work of every stored map; the maps left empty are dropped.
    pub fn on_tick(&mut self, now: u64)
        requires
            old(self).wf(),
            now <= u64::MAX - TIMEOUT_MS,
        ensures
            final(self).wf(),
            final(self)@ == (RemoteStorageView {
                maps: tick_remote_maps(old(self)@.maps, now).0,
                queue: old(self)@.queue + tick_remote_maps(old(self)@.maps, now).1,
                ..old(self)@
            }),
    {
        let ghost s = self@;
        let mut pending: Vec<(DhtMap, RemoteMap)> = Vec::new();
        std::mem::swap(&mut pending, &mut self.maps);
        let ghost orig = pending@;
        let total = pending.len();
        assert(self.maps@ =~= Seq::<(DhtMap, RemoteMap)>::empty());
        assert(self@.maps =~= tick_remote_maps(s.maps.take(0), now).0);
        assert(self@.queue =~= s.queue + tick_remote_maps(s.maps.take(0), now).1);
        let mut i: usize = 0;
        while pending.len() > 0
            invariant
                now <= u64::MAX - TIMEOUT_MS,
                orig.len() == s.maps.len(),
                orig.len() == total,
                forall|k: int| 0 <= k < orig.len() ==> (#[trigger] orig[k]).1.wf() && orig[k].1@.session == s.session && (orig[k].0, orig[k].1@) == s.maps[k],
                map_keys_unique(s.maps),
                i <= orig.len(),
                pending@ == orig.skip(i as int),
                self.session == s.session,
                self@.maps == tick_remote_maps(s.maps.take(i as int), now).0,
                self@.queue == s.queue + tick_remote_maps(s.maps.take(i as int), now).1,
                forall|k: int| 0 <= k < self.maps@.len() ==> (#[trigger] self.maps@[k]).1.wf() && self.maps@[k].1@.session == s.session,
            decreases pending@.len(),
        {
            let (key, mut map) = pending.remove(0);
            proof {
                assert(orig.skip(i as int)[0] == orig[i as int]);
                assert(pending@ =~= orig.skip(i + 1));
                assert(s.maps.take(i + 1).drop_last() =~= s.maps.take(i as int));
                assert(s.maps.take(i + 1).last() == s.maps[i as int]);
                assert((key, map@) == s.maps[i as int]);
            }
            let ghost before = self@;
            map.on_tick(now);
            let ghost m1 = map@;
            drain_remote_map(key, &mut map, &mut self.queue);
            if !map.should_clean() {
                self.maps.push((key, map));
            }
            proof {
                let t = tick_remote_maps(s.maps.take(i + 1), now);
                assert(self@.queue =~= s.queue + t.1);
                assert(self@.maps =~= t.0);
            }
            i = i + 1;
        }
        proof {
            assert(s.maps.take(i as int) =~= s.maps);
            lemma_tick_remote_keys(s.maps, now);
        }
    }

    /// Hands out the oldest event to send, with the node it goes to.
    pub fn pop_action(&mut self) -> (r: Option<(NodeSession, ServerEvent)>)
        requires
            old(self).wf(),
        ensures
            final(self).wf(),
            old(self)@.queue.len() == 0 ==> r is None && final(self)@ == old(self)@,
            old(self)@.queue.len() > 0 ==> (r matches Some((to, e)) && (to, e@) == old(self)@.queue[0]) && final(self)@ == (RemoteStorageView {
                queue: old(self)@.queue.drop_first(),
                ..old(self)@
            }),
    {
        let ghost q = self.queue@;
        let r = self.queue.pop_front();
        proof {
            if q.len() > 0 {
                assert(server_queue(q.drop_first()) =~= server_queue(q).drop_first());
            }
        }
        r
    }
}

// ---- the local storage ---------------------------------------------------------------------

/// A read of a map is answered within this time, or forgotten.
pub const MAP_GET_TIMEOUT_MS: u64 = 5000;

/// What a local actor asks of the DHT.
#[derive(Debug, PartialEq, Eq)]
pub enum Control {
    MapCmd(DhtMap, MapControl),
    MapGet(DhtMap),
}

/// Mathematical form of [`Control`].
pub enum ControlView {
    MapCmd(DhtMap, MapControlView),
    MapGet(DhtMap),
}

impl View for Control {
    type V = ControlView;

    open spec fn view(&self) -> ControlView {
        match self {
            Control::MapCmd(m, c) => ControlView::MapCmd(*m, c@),
            Control::MapGet(m) => ControlView::MapGet(*m),
        }
    }
}

/// What the DHT tells a local actor: a change of a map it subscribed to, or the answer to a read.
#[derive(Debug, PartialEq, Eq)]
pub enum Event {
    MapEvent(DhtMap, MapEvent),
    MapGetRes(DhtMap, Result<Vec<MapValue>, GetError>),
}

/// Mathematical form of [`Event`].
pub enum EventView {
    MapEvent(DhtMap, MapEventView),
    MapGetRes(DhtMap, Result<Seq<MapValueView>, GetError>),
}

impl View for Event {
    type V = EventView;

    open spec fn view(&self) -> EventView {
        match self {
            Event::MapEvent(m, e) => EventView::MapEvent(*m, e@),
            Event::MapGetRes(m, Ok(v)) => EventView::MapGetRes(*m, Ok(values_view(v@))),
            Event::MapGetRes(m, Err(e)) => EventView::MapGetRes(*m, Err(*e)),
        }
    }
}

/// An output of the local storage: an event for a local actor, or a command to route.
#[derive(Debug, PartialEq, Eq)]
pub enum LocalStorageOutput {
    Local(FeatureControlActor, Event),
    Remote(RouteRule, ClientCommand),
}

/// Mathematical form of [`LocalStorageOutput`].
pub enum LocalStorageOutputView {
    Local(FeatureControlActor, EventView),
    Remote(RouteRule, ClientCommandView),
}

impl View for LocalStorageOutput {
    type V = LocalStorageOutputView;

    open spec fn view(&self) -> LocalStorageOutputView {
        match self {
            LocalStorageOutput::Local(a, e) => LocalStorageOutputView::Local(*a, e@),
            LocalStorageOutput::Remote(r, c) => LocalStorageOutputView::Remote(*r, c@),
        }
    }
}

pub open spec fn local_queue(q: Seq<LocalStorageOutput>) -> Seq<LocalStorageOutputView> {
    q.map_values(|o: LocalStorageOutput| o@)
}

/// A read waiting for its answer: the map and request id, the actor that asked, and the
/// request id again (its time field holds the request id).
pub type GetWait = ((DhtMap, u64), (FeatureControlActor, u64));

/// Mathematical state of a [`LocalStorage`].
pub struct LocalStorageView {
    pub session: NodeSession,
    pub maps: Seq<(DhtMap, LocalMapView)>,
    pub waits: Seq<GetWait>,
    pub queue: Seq<LocalStorageOutputView>,
    pub req_id_seed: u64,
}

/// The maps this node's actors use.
pub struct LocalStorage {
    session: NodeSession,
    maps: Vec<(DhtMap, LocalMap)>,
    map_get_waits: Vec<GetWait>,
    queue: VecDeque<LocalStorageOutput>,
    req_id_seed: u64,
}

impl View for LocalStorage {
    type V = LocalStorageView;

    closed spec fn view(&self) -> LocalStorageView {
        LocalStorageView {
            session: self.session,
            maps: self.maps@.map_values(|e: (DhtMap, LocalMap)| (e.0, e.1@)),
            waits: self.map_get_waits@,
            queue: local_queue(self.queue@),
            req_id_seed: self.req_id_seed,
        }
    }
}

/// The outputs a local map queued, as outputs of `key`.
pub open spec fn map_outputs(key: DhtMap, q: Seq<LocalMapOutputView>) -> Seq<LocalStorageOutputView> {
    q.map_values(
        |o: LocalMapOutputView|
            match o {
                LocalMapOutputView::Local(a, e) => LocalStorageOutputView::Local(a, EventView::MapEvent(key, e)),
                LocalMapOutputView::Remote(c) => LocalStorageOutputView::Remote(route_spec(key), ClientCommandView::MapCmd(key, c)),
            },
    )
}

pub open spec fn empty_local_map(session: NodeSession) -> LocalMapView {
    LocalMapView { session, slots: Seq::empty(), subscribers: Seq::empty(), sub_state: super::client_map::SubState::NotSub, queue: Seq::empty() }
}

/// The maps with the one of `key` changed to `m1` and its command `cmd`: the command is sent
/// first, then the outputs the map queued.
pub open spec fn after_map(s: LocalStorageView, maps: Seq<(DhtMap, LocalMapView)>, key: DhtMap, m1: LocalMapView, cmd: Option<ClientMapCommandView>) -> LocalStorageView {
    let q = match cmd {
        Some(c) => s.queue.push(LocalStorageOutputView::Remote(route_spec(key), ClientCommandView::MapCmd(key, c))),
        None => s.queue,
    };
    LocalStorageView { maps: maps.update(map_index(maps, key), (key, LocalMapView { queue: Seq::empty(), ..m1 })), queue: q + map_outputs(key, m1.queue), ..s }
}

pub open spec fn has_wait(waits: Seq<GetWait>, k: (DhtMap, u64)) -> bool {
    exists|i: int| 0 <= i < waits.len() && #[trigger] waits[i].0 == k
}

pub open spec fn wait_index(waits: Seq<GetWait>, k: (DhtMap, u64)) -> int {
    choose|i: int| 0 <= i < waits.len() && #[trigger] waits[i].0 == k
}

/// What a control of a local actor does: a map command goes to the map (created by a
/// command that creates, ignored otherwise); a read is sent with a new request id.
pub open spec fn local_storage_control_spec(s: LocalStorageView, now: u64, actor: FeatureControlActor, control: ControlView) -> LocalStorageView {
    match control {
        ControlView::MapCmd(key, c) => {
            if !has_map(s.maps, key) && !c.is_creator() {
                s
            } else {
                let maps = if has_map(s.maps, key) {
                    s.maps
                } else {
                    s.maps.push((key, empty_local_map(s.session)))
                };
                let (m1, cmd) = on_control_spec(maps[map_index(maps, key)].1, now, actor, c);
                after_map(s, maps, key, m1, cmd)
            }
        },
        ControlView::MapGet(key) => {
            let id = s.req_id_seed;
            LocalStorageView {
                waits: s.waits.push(((key, id), (actor, id))),
                queue: s.queue.push(LocalStorageOutputView::Remote(route_spec(key), ClientCommandView::MapGet(key, id))),
                req_id_seed: (id + 1) as u64,
                ..s
            }
        },
    }
}

/// What an event of the node storing a map does: a map event goes to the map (ignored for
/// an unknown map); a read answer goes to the actor that asked, once.
pub open spec fn local_storage_server_spec(s: LocalStorageView, now: u64, remote: NodeSession, ev: ServerEventView) -> LocalStorageView {
    match ev {
        ServerEventView::MapEvent(key, e) => {
            if has_map(s.maps, key) {
                let (m1, cmd) = on_server_spec(s.maps[map_index(s.maps, key)].1, now, remote, e);
                after_map(s, s.maps, key, m1, cmd)
            } else {
                s
            }
        },
        ServerEventView::MapGetRes(key, id, values) => {
            if has_wait(s.waits, (key, id)) {
                let i = wait_index(s.waits, (key, id));
                LocalStorageView {
                    waits: s.waits.remove(i),
                    queue: s.queue.push(LocalStorageOutputView::Local(s.waits[i].1.0, EventView::MapGetRes(key, Ok(values)))),
                    ..s
                }
            } else {
                s
            }
        },
    }
}

/// The local maps after a tick of each, in order, with the outputs they queued; maps left
/// without slots, subscribers or subscription are dropped.
pub open spec fn tick_local_maps(maps: Seq<(DhtMap, LocalMapView)>, now: u64) -> (Seq<(DhtMap, LocalMapView)>, Seq<LocalStorageOutputView>)
    decreases maps.len(),
{
    if maps.len() == 0 {
        (Seq::empty(), Seq::empty())
    } else {
        let (rest, out) = tick_local_maps(maps.drop_last(), now);
        let (key, m) = maps.last();
        let m1 = local_tick_spec(m, now);
        let m2 = LocalMapView { queue: Seq::empty(), ..m1 };
        let out2 = out + map_outputs(key, m1.queue);
        if m2.slots.len() == 0 && m2.subscribers.len() == 0 && m2.sub_state is NotSub {
            (rest, out2)
        } else {
            (rest.push((key, m2)), out2)
        }
    }
}

/// The reads still waiting at `now`.
pub open spec fn live_waits(waits: Seq<GetWait>, now: u64) -> Seq<GetWait>
    decreases waits.len(),
{
    if waits.len() == 0 {
        Seq::empty()
    } else if now < waits.last().1.1 + MAP_GET_TIMEOUT_MS {
        live_waits(waits.drop_last(), now).push(waits.last())
    } else {
        live_waits(waits.drop_last(), now)
    }
}

fn push_local_output(queue: &mut VecDeque<LocalStorageOutput>, o: LocalStorageOutput)
    ensures
        local_queue(final(queue)@) == local_queue(old(queue)@).push(o@),
{
    let ghost q = queue@;
    queue.push_back(o);
    assert(local_queue(queue@) =~= local_queue(q).push(o@));
}

/// Moves the outputs `map` queued to `queue`, as outputs of `key`.
fn drain_local_map(key: DhtMap, map: &mut LocalMap, queue: &mut VecDeque<LocalStorageOutput>)
    requires
        old(map).wf(),
    ensures
        final(map).wf(),
        final(map)@ == (LocalMapView { queue: Seq::empty(), ..old(map)@ }),
        local_queue(final(queue)@) == local_queue(old(queue)@) + map_outputs(key, old(map)@.queue),
{
    let ghost m0 = map@;
    let ghost q0 = local_queue(queue@);
    let ghost mut taken: Seq<LocalMapOutputView> = Seq::empty();
    loop
        invariant
            map.wf(),
            m0.queue == taken + map@.queue,
            map@ == (LocalMapView { queue: map@.queue, ..m0 }),
            local_queue(queue@) == q0 + map_outputs(key, taken),
        ensures
            map@.queue.len() == 0,
        decreases map@.queue.len(),
    {
        match map.pop_action() {
            Some(out) => {
                let ghost ov = out@;
                let o = match out {
                    LocalMapOutput::Local(actor, event) => LocalStorageOutput::Local(actor, Event::MapEvent(key, event)),
                    LocalMapOutput::Remote(cmd) => LocalStorageOutput::Remote(route(key), ClientCommand::MapCmd(key, cmd)),
                };
                push_local_output(queue, o);
                proof {
                    assert(map_outputs(key, taken.push(ov)) =~= map_outputs(key, taken).push(o@));
                    taken = taken.push(ov);
                    assert(m0.queue =~= taken + map@.queue);
                    assert(local_queue(queue@) =~= q0 + map_outputs(key, taken));
                }
            },
            None => {
                assert(taken =~= m0.queue);
                break;
            },
        }
    }
    assert(map@.queue =~= Seq::<LocalMapOutputView>::empty());
}

impl LocalStorage {
    pub closed spec fn wf(&self) -> bool {
        &&& map_keys_unique(self@.maps)
        &&& forall|i: int| 0 <= i < self.maps@.len() ==> (#[trigger] self.maps@[i]).1.wf()
        &&& forall|i: int| 0 <= i < self.maps@.len() ==> (#[trigger] self.maps@[i]).1@.session == self.session
        &&& forall|i: int| 0 <= i < self@.waits.len() ==> (#[trigger] self@.waits[i]).0.1 < self.req_id_seed
        &&& forall|i: int, j: int| #![trigger self@.waits[i], self@.waits[j]] 0 <= i < self@.waits.len() && 0 <= j < self@.waits.len() && i != j
            ==> self@.waits[i].0 != self@.waits[j].0
    }

    pub fn new(session: NodeSession) -> (r: Self)
        ensures
            r.wf(),
            r@ == (LocalStorageView { session, maps: Seq::empty(), waits: Seq::empty(), queue: Seq::empty(), req_id_seed: 0 }),
    {
        let r = LocalStorage { session, maps: Vec::new(), map_get_waits: Vec::new(), queue: VecDeque::new(), req_id_seed: 0 };
        assert(r@.maps =~= Seq::empty());
        assert(r@.waits =~= Seq::empty());
        assert(r@.queue =~= Seq::empty());
        r
    }

    fn find_map(&self, key: DhtMap) -> (r: Option<usize>)
        requires
            self.wf(),
        ensures
            match r {
                Some(i) => has_map(self@.maps, key) && i == map_index(self@.maps, key) && i < self@.maps.len(),
                None => !has_map(self@.maps, key),
            },
    {
        let mut i: usize = 0;
        while i < self.maps.len()
            invariant
                self.wf(),
                i <= self@.maps.len(),
                forall|k: int| 0 <= k < i ==> self@.maps[k].0 != key,
            decreases self@.maps.len() - i,
        {
            if self.maps[i].0 == key {
                proof {
                    assert(self@.maps[i as int].0 == key);
                    let c = map_index(self@.maps, key);
                    assert(self@.maps[c].0 == key);
                }
                return Some(i);
            }
            i = i + 1;
        }
        None
    }

    /// Puts the map taken out at `i` back after a change, with its command and outputs queued.
    fn put_back(&mut self, i: usize, key: DhtMap, map: LocalMap, cmd: Option<ClientMapCommand>, Ghost(maps): Ghost<Seq<(DhtMap, LocalMapView)>>, Ghost(mid): Ghost<Seq<(DhtMap, LocalMap)>>)
        requires
            map.wf(),
            map@.session == old(self).session,
            i <= old(self).maps@.len(),
            old(self).maps@ == mid,
            maps.len() == mid.len() + 1,
            map_keys_unique(maps),
            i < maps.len(),
            maps[i as int].0 == key,
            forall|k: int| 0 <= k < mid.len() ==> (#[trigger] mid[k]).1.wf() && mid[k].1@.session == old(self).session,
            forall|k: int| 0 <= k < mid.len() ==> (mid[k].0, mid[k].1@) == maps[if k < i { k } else { k + 1 }],
            forall|w: int| 0 <= w < old(self)@.waits.len() ==> (#[trigger] old(self)@.waits[w]).0.1 < old(self).req_id_seed,
            forall|a: int, b: int| #![trigger old(self)@.waits[a], old(self)@.waits[b]] 0 <= a < old(self)@.waits.len() && 0 <= b < old(self)@.waits.len() && a != b
                ==> old(self)@.waits[a].0 != old(self)@.waits[b].0,
        ensures
            final(self).wf(),
            final(self)@ == after_map(
                LocalStorageView { maps: maps, ..old(self)@ },
                maps,
                key,
                LocalMapView { ..map@ },
                match cmd {
                    Some(c) => Some(c@),
                    None => None,
                },
            ),
    {
        let ghost m1 = map@;
        let mut map = map;
        match cmd {
            Some(c) => push_local_output(&mut self.queue, LocalStorageOutput::Remote(route(key), ClientCommand::MapCmd(key, c))),
            None => {},
        }
        drain_local_map(key, &mut map, &mut self.queue);
        self.maps.insert(i, (key, map));
        proof {
            let ms = self@.maps;
            let c = map_index(maps, key);
            assert(maps[c].0 == key);
            assert(c == i);
            assert(ms =~= maps.update(i as int, (key, LocalMapView { queue: Seq::empty(), ..m1 })));
            assert forall|a: int, b: int| #![trigger ms[a], ms[b]] 0 <= a < ms.len() && 0 <= b < ms.len() && a != b implies ms[a].0 != ms[b].0 by {
                assert(maps[a].0 != maps[b].0);
            }
            assert forall|a: int| 0 <= a < self.maps@.len() implies (#[trigger] self.maps@[a]).1.wf() && self.maps@[a].1@.session == self.session by {
                if a != i {
                    let a2 = if a < i { a } else { a - 1 };
                    assert(self.maps@[a] == mid[a2]);
                }
            }
        }
    }
}

impl LocalStorage {
    /// Takes out the map of `key`, creating it first when `create` holds; the view of the
    /// maps before the taking, and where the map was, are returned with it.
    fn take_map(&mut self, key: DhtMap, create: bool) -> (r: Option<(usize, LocalMap, Ghost<Seq<(DhtMap, LocalMapView)>>)>)
        requires
            old(self).wf(),
        ensures
            match r {
                Some((i, map, g)) => {
                    let maps = g@;
                    &&& (has_map(old(self)@.maps, key) || create)
                    &&& maps == if has_map(old(self)@.maps, key) {
                        old(self)@.maps
                    } else {
                        old(self)@.maps.push((key, empty_local_map(old(self).session)))
                    }
                    &&& map_keys_unique(maps)
                    &&& i < maps.len()
                    &&& maps[i as int].0 == key
                    &&& map@ == maps[i as int].1
                    &&& map.wf()
                    &&& map@.session == old(self).session
                    &&& final(self).maps@.len() + 1 == maps.len()
                    &&& i <= final(self).maps@.len()
                    &&& forall|k: int| 0 <= k < final(self).maps@.len() ==> (#[trigger] final(self).maps@[k]).1.wf() && final(self).maps@[k].1@.session == old(self).session
                    &&& forall|k: int| 0 <= k < final(self).maps@.len() ==> (final(self).maps@[k].0, final(self).maps@[k].1@) == maps[if k < i { k } else { k + 1 }]
                },
                None => !has_map(old(self)@.maps, key) && !create && *final(self) == *old(self),
            },
            final(self).session == old(self).session,
            final(self).queue == old(self).queue,
            final(self).map_get_waits == old(self).map_get_waits,
            final(self).req_id_seed == old(self).req_id_seed,
    {
        let ghost s = self@;
        let i = match self.find_map(key) {
            Some(i) => i,
            None => {
                if !create {
                    return None;
                }
                let m = LocalMap::new(self.session);
                self.maps.push((key, m));
                proof {
                    let ms = self@.maps;
                    assert(ms =~= s.maps.push((key, empty_local_map(s.session))));
                    assert forall|a: int, b: int| #![trigger ms[a], ms[b]] 0 <= a < ms.len() && 0 <= b < ms.len() && a != b implies ms[a].0 != ms[b].0 by {
                        if a < s.maps.len() && b < s.maps.len() {
                            assert(ms[a] == s.maps[a] && ms[b] == s.maps[b]);
                        } else if a < s.maps.len() {
                            assert(ms[a] == s.maps[a]);
                        } else {
                            assert(ms[b] == s.maps[b]);
                        }
                    }
                }
                self.maps.len() - 1
            },
        };
        let ghost maps = self@.maps;
        let ghost before = self.maps@;
        let (k, map) = self.maps.remove(i);
        proof {
            assert(maps[i as int] == (k, map@));
            assert forall|j: int| 0 <= j < self.maps@.len() implies (self.maps@[j].0, self.maps@[j].1@) == maps[if j < i { j } else { j + 1 }] by {
                assert(self.maps@[j] == before[if j < i { j } else { j + 1 }]);
            }
            assert forall|j: int| 0 <= j < self.maps@.len() implies (#[trigger] self.maps@[j]).1.wf() && self.maps@[j].1@.session == s.session by {
                assert(self.maps@[j] == before[if j < i { j } else { j + 1 }]);
            }
        }
        Some((i, map, Ghost(maps)))
    }

    /// Handles a control of a local actor.
    pub fn on_local(&mut self, now: u64, actor: FeatureControlActor, control: Control)
        requires
            old(self).wf(),
            now <= u64::MAX - UNSUB_TIMEOUT_MS,
            control is MapGet ==> old(self)@.req_id_seed < u64::MAX,
        ensures
            final(self).wf(),
            final(self)@ == local_storage_control_spec(old(self)@, now, actor, control@),
    {
        let ghost s = self@;
        match control {
            Control::MapCmd(key, c) => {
                let create = c.is_creator();
                match self.take_map(key, create) {
                    Some((i, mut map, g)) => {
                        let ghost mid = self.maps@;
                        let cmd = map.on_control(now, actor, c);
                        self.put_back(i, key, map, cmd, g, Ghost(mid));
                    },
                    None => {},
                }
            },
            Control::MapGet(key) => {
                let req_id = self.req_id_seed;
                self.req_id_seed = req_id + 1;
                self.map_get_waits.push(((key, req_id), (actor, req_id)));
                push_local_output(&mut self.queue, LocalStorageOutput::Remote(route(key), ClientCommand::MapGet(key, req_id)));
                proof {
                    let w = self@.waits;
                    assert forall|a: int, b: int| #![trigger w[a], w[b]] 0 <= a < w.len() && 0 <= b < w.len() && a != b implies w[a].0 != w[b].0 by {
                        if a < s.waits.len() && b < s.waits.len() {
                            assert(w[a] == s.waits[a] && w[b] == s.waits[b]);
                        } else if a < s.waits.len() {
                            assert(w[a] == s.waits[a]);
                        } else {
                            assert(w[b] == s.waits[b]);
                        }
                    }
                }
            },
        }
    }

    /// Handles an event from the node `remote` that stores a map.
    pub fn on_server(&mut self, now: u64, remote: NodeSession, cmd: ServerEvent)
        requires
            old(self).wf(),
            now <= u64::MAX - UNSUB_TIMEOUT_MS,
        ensures
            final(self).wf(),
            final(self)@ == local_storage_server_spec(old(self)@, now, remote, cmd@),
    {
        let ghost s = self@;
        match cmd {
            ServerEvent::MapEvent(key, e) => {
                match self.take_map(key, false) {
                    Some((i, mut map, g)) => {
                        let ghost mid = self.maps@;
                        let c = map.on_server(now, remote, e);
                        self.put_back(i, key, map, c, g, Ghost(mid));
                    },
                    None => {},
                }
            },
            ServerEvent::MapGetRes(key, id, values) => {
                let ghost w = s.waits;
                let mut i: usize = 0;
                while i < self.map_get_waits.len()
                    invariant
                        self@ == s,
                        s == old(self)@,
                        cmd@ == (ServerEventView::MapGetRes(key, id, values_view(values@))),
                        self.wf(),
                        w == self@.waits,
                        i <= w.len(),
                        forall|k: int| 0 <= k < i ==> w[k].0 != (key, id),
                    decreases w.len() - i,
                {
                    let wk = self.map_get_waits[i].0;
                    if wk.0 == key && wk.1 == id {
                        proof {
                            assert(w[i as int].0 == (key, id));
                            let c = wait_index(w, (key, id));
                            assert(w[c].0 == (key, id));
                            assert(c == i);
                        }
                        let (_, (actor, _)) = self.map_get_waits.remove(i);
                        push_local_output(&mut self.queue, LocalStorageOutput::Local(actor, Event::MapGetRes(key, Ok(values))));
                        proof {
                            let w2 = self@.waits;
                            assert(w2 =~= w.remove(i as int));
                            assert(actor == w[i as int].1.0);
                            assert forall|a: int| 0 <= a < w2.len() implies (#[trigger] w2[a]).0.1 < self.req_id_seed by {
                                assert(w2[a] == w[if a < i { a } else { a + 1 }]);
                            }
                            assert forall|a: int, b: int| #![trigger w2[a], w2[b]] 0 <= a < w2.len() && 0 <= b < w2.len() && a != b implies w2[a].0 != w2[b].0 by {
                                let a2 = if a < i { a } else { a + 1 };
                                let b2 = if b < i { b } else { b + 1 };
                                assert(w2[a] == w[a2] && w2[b] == w[b2]);
                            }
                        }
                        return;
                    }
                    i = i + 1;
                }
            },
        }
    }

    /// Hands out the oldest output.
    pub fn pop_action(&mut self) -> (r: Option<LocalStorageOutput>)
        requires
            old(self).wf(),
        ensures
            final(self).wf(),
            old(self)@.queue.len() == 0 ==> r is None && final(self)@ == old(self)@,
            old(self)@.queue.len() > 0 ==> r is Some && r->0@ == old(self)@.queue[0]
                && final(self)@ == (LocalStorageView { queue: old(self)@.queue.drop_first(), ..old(self)@ }),
    {
        let ghost q = self.queue@;
        let r = self.queue.pop_front();
        proof {
            if q.len() > 0 {
                assert(local_queue(q.drop_first()) =~= local_queue(q).drop_first());
            }
        }
        r
    }
}

proof fn lemma_tick_local_keys(maps: Seq<(DhtMap, LocalMapView)>, now: u64)
    ensures
        forall|k: int| 0 <= k < tick_local_maps(maps, now).0.len() ==> exists|j: int| 0 <= j < maps.len() && maps[j].0 == (#[trigger] tick_local_maps(maps, now).0[k]).0,
        map_keys_unique(maps) ==> map_keys_unique(tick_local_maps(maps, now).0),
    decreases maps.len(),
{
    if maps.len() > 0 {
        let d = maps.drop_last();
        lemma_tick_local_keys(d, now);
        let rest = tick_local_maps(d, now).0;
        let r = tick_local_maps(maps, now).0;
        assert forall|k: int| 0 <= k < r.len() implies exists|j: int| 0 <= j < maps.len() && maps[j].0 == (#[trigger] r[k]).0 by {
            if k < rest.len() {
                let j = choose|j: int| 0 <= j < d.len() && d[j].0 == rest[k].0;
                assert(maps[j] == d[j]);
            } else {
                assert(maps[maps.len() - 1].0 == r[k].0);
            }
        }
        if map_keys_unique(maps) {
            assert(map_keys_unique(d)) by {
                assert forall|a: int, b: int| #![trigger d[a], d[b]] 0 <= a < d.len() && 0 <= b < d.len() && a != b implies d[a].0 != d[b].0 by {
                    assert(maps[a] == d[a] && maps[b] == d[b]);
                }
            }
            assert forall|a: int, b: int| #![trigger r[a], r[b]] 0 <= a < r.len() && 0 <= b < r.len() && a != b implies r[a].0 != r[b].0 by {
                if a < rest.len() && b < rest.len() {
                    assert(r[a] == rest[a] && r[b] == rest[b]);
                } else if a < rest.len() {
                    let j = choose|j: int| 0 <= j < d.len() && d[j].0 == rest[a].0;
                    assert(maps[j] == d[j]);
                    assert(r[b].0 == maps[maps.len() - 1].0);
                } else {
                    let j = choose|j: int| 0 <= j < d.len() && d[j].0 == rest[b].0;
                    assert(maps[j] == d[j]);
                    assert(r[a].0 == maps[maps.len() - 1].0);
                }
            }
        }
    }
}

proof fn lemma_live_waits(waits: Seq<GetWait>, now: u64)
    ensures
        forall|k: int| 0 <= k < live_waits(waits, now).len() ==> exists|j: int| 0 <= j < waits.len() && waits[j] == #[trigger] live_waits(waits, now)[k],
        (forall|a: int, b: int| #![trigger waits[a], waits[b]] 0 <= a < waits.len() && 0 <= b < waits.len() && a != b ==> waits[a].0 != waits[b].0) ==> (forall|
            a: int,
            b: int,
        |
            #![trigger live_waits(waits, now)[a], live_waits(waits, now)[b]]
            0 <= a < live_waits(waits, now).len() && 0 <= b < live_waits(waits, now).len() && a != b ==> live_waits(waits, now)[a].0 != live_waits(
                waits,
                now,
            )[b].0),
    decreases waits.len(),
{
    if waits.len() > 0 {
        let d = waits.drop_last();
        lemma_live_waits(d, now);
        let rest = live_waits(d, now);
        let r = live_waits(waits, now);
        assert forall|k: int| 0 <= k < r.len() implies exists|j: int| 0 <= j < waits.len() && waits[j] == #[trigger] r[k] by {
            if k < rest.len() {
                let j = choose|j: int| 0 <= j < d.len() && d[j] == rest[k];
                assert(waits[j] == d[j]);
            } else {
                assert(waits[waits.len() - 1] == r[k]);
            }
        }
        if forall|a: int, b: int| #![trigger waits[a], waits[b]] 0 <= a < waits.len() && 0 <= b < waits.len() && a != b ==> waits[a].0 != waits[b].0 {
            assert forall|a: int, b: int| #![trigger d[a], d[b]] 0 <= a < d.len() && 0 <= b < d.len() && a != b implies d[a].0 != d[b].0 by {
                assert(waits[a] == d[a] && waits[b] == d[b]);
            }
            assert forall|a: int, b: int| #![trigger r[a], r[b]] 0 <= a < r.len() && 0 <= b < r.len() && a != b implies r[a].0 != r[b].0 by {
                if a < rest.len() && b < rest.len() {
                    assert(r[a] == rest[a] && r[b] == rest[b]);
                } else if a < rest.len() {
                    let j = choose|j: int| 0 <= j < d.len() && d[j] == rest[a];
                    assert(waits[j] == d[j]);
                    assert(r[b] == waits[waits.len() - 1]);
                } else {
                    let j = choose|j: int| 0 <= j < d.len() && d[j] == rest[b];
                    assert(waits[j] == d[j]);
                    assert(r[a] == waits[waits.len() - 1]);
                }
            }
        }
    }
}

impl LocalStorage {
    /// Periodic work of every map (the maps left unused are dropped), and the reads not
    /// answered in time are forgotten.
    pub fn on_tick(&mut self, now: u64)
        requires
            old(self).wf(),
            now <= u64::MAX - UNSUB_TIMEOUT_MS,
        ensures
            final(self).wf(),
            final(self)@ == (LocalStorageView {
                maps: tick_local_maps(old(self)@.maps, now).0,
                waits: live_waits(old(self)@.waits, now),
                queue: old(self)@.queue + tick_local_maps(old(self)@.maps, now).1,
                ..old(self)@
            }),
    {
        let ghost s = self@;
        let mut pending: Vec<(DhtMap, LocalMap)> = Vec::new();
        std::mem::swap(&mut pending, &mut self.maps);
        let ghost orig = pending@;
        let total = pending.len();
        assert(self.maps@ =~= Seq::<(DhtMap, LocalMap)>::empty());
        assert(self@.maps =~= tick_local_maps(s.maps.take(0), now).0);
        assert(self@.queue =~= s.queue + tick_local_maps(s.maps.take(0), now).1);
        let mut i: usize = 0;
        while pending.len() > 0
            invariant
                now <= u64::MAX - UNSUB_TIMEOUT_MS,
                orig.len() == s.maps.len(),
                orig.len() == total,
                forall|k: int| 0 <= k < orig.len() ==> (#[trigger] orig[k]).1.wf() && orig[k].1@.session == s.session && (orig[k].0, orig[k].1@) == s.maps[k],
                map_keys_unique(s.maps),
                i <= orig.len(),
                pending@ == orig.skip(i as int),
                self.session == s.session,
                self@.waits == s.waits,
                self.req_id_seed == s.req_id_seed,
                self@.maps == tick_local_maps(s.maps.take(i as int), now).0,
                self@.queue == s.queue + tick_local_maps(s.maps.take(i as int), now).1,
                forall|k: int| 0 <= k < self.maps@.len() ==> (#[trigger] self.maps@[k]).1.wf() && self.maps@[k].1@.session == s.session,
            decreases pending@.len(),
        {
            let (key, mut map) = pending.remove(0);
            proof {
                assert(orig.skip(i as int)[0] == orig[i as int]);
                assert(pending@ =~= orig.skip(i + 1));
                assert(s.maps.take(i + 1).drop_last() =~= s.maps.take(i as int));
                assert(s.maps.take(i + 1).last() == s.maps[i as int]);
                assert((key, map@) == s.maps[i as int]);
            }
            map.on_tick(now);
            drain_local_map(key, &mut map, &mut self.queue);
            if !map.should_cleanup() {
                self.maps.push((key, map));
            }
            proof {
                let t = tick_local_maps(s.maps.take(i + 1), now);
                assert(self@.queue =~= s.queue + t.1);
                assert(self@.maps =~= t.0);
            }
            i = i + 1;
        }
        proof {
            assert(s.maps.take(i as int) =~= s.maps);
            lemma_tick_local_keys(s.maps, now);
        }
        let mut kept: Vec<GetWait> = Vec::new();
        let mut j: usize = 0;
        while j < self.map_get_waits.len()
            invariant
                self@.waits == s.waits,
                j <= s.waits.len(),
                kept@ == live_waits(s.waits.take(j as int), now),
            decreases s.waits.len() - j,
        {
            let w = self.map_get_waits[j];
            proof {
                assert(s.waits.take(j + 1).drop_last() =~= s.waits.take(j as int));
                assert(s.waits.take(j + 1).last() == w);
            }
            let id = (w.1).1;
            if now < id || now - id < MAP_GET_TIMEOUT_MS {
                kept.push(w);
            }
            j = j + 1;
        }
        proof {
            assert(s.waits.take(j as int) =~= s.waits);
            lemma_live_waits(s.waits, now);
        }
        self.map_get_waits = kept;
        proof {
            let w = self@.waits;
            assert forall|a: int| 0 <= a < w.len() implies (#[trigger] w[a]).0.1 < self.req_id_seed by {
                let b = choose|b: int| 0 <= b < s.waits.len() && s.waits[b] == live_waits(s.waits, now)[a];
            }
        }
    }
}

/// A read is answered once, to the actor that asked: the answer carrying its request id
/// reaches that actor and ends the wait, and a repeated answer changes nothing.
pub proof fn law_get_answered_once(s: LocalStorageView, now: u64, actor: FeatureControlActor, key: DhtMap, remote: NodeSession, values: Seq<MapValueView>)
    requires
        forall|i: int| 0 <= i < s.waits.len() ==> (#[trigger] s.waits[i]).0.1 < s.req_id_seed,
        s.req_id_seed < u64::MAX,
    ensures
        ({
            let id = s.req_id_seed;
            let s1 = local_storage_control_spec(s, now, actor, ControlView::MapGet(key));
            let s2 = local_storage_server_spec(s1, now, remote, ServerEventView::MapGetRes(key, id, values));
            &&& s1.queue == s.queue.push(LocalStorageOutputView::Remote(route_spec(key), ClientCommandView::MapGet(key, id)))
            &&& s2.queue == s1.queue.push(LocalStorageOutputView::Local(actor, EventView::MapGetRes(key, Ok(values))))
            &&& s2.waits == s.waits
            &&& local_storage_server_spec(s2, now, remote, ServerEventView::MapGetRes(key, id, values)) == s2
        }),
{
    let id = s.req_id_seed;
    let s1 = local_storage_control_spec(s, now, actor, ControlView::MapGet(key));
    let w = s1.waits;
    let n = s.waits.len() as int;
    assert(w[n].0 == (key, id));
    let i = wait_index(w, (key, id));
    assert(w[i].0 == (key, id));
    if i < n {
        assert(s.waits[i].0.1 < id);
    }
    assert(i == n);
    assert(w.remove(n) =~= s.waits);
    let s2 = local_storage_server_spec(s1, now, remote, ServerEventView::MapGetRes(key, id, values));
    assert(!has_wait(s2.waits, (key, id))) by {
        if has_wait(s2.waits, (key, id)) {
            let j = choose|j: int| 0 <= j < s2.waits.len() && #[trigger] s2.waits[j].0 == (key, id);
            assert(s.waits[j].0.1 < id);
        }
    }
}

} // verus!
