//! The storing side of a DHT map: it keeps the values written by every source,
//! forwards each change to the subscribers of the map and resends it until they
//! acknowledge it.

use std::collections::VecDeque;
use vstd::prelude::*;

use super::msg::{copy_bytes, ClientMapCommand, ClientMapCommandView, Key, NodeSession, ServerMapEvent, ServerMapEventView, Version};

verus! {

/// A change is resent to a subscriber when it has not been acknowledged within this time.
pub const RESEND_MS: u64 = 200;
/// A subscriber, or a change waiting for acknowledgements, is dropped after this time.
pub const TIMEOUT_MS: u64 = 10000;

/// What a slot holds once a value was written into it.
pub struct SlotValue {
    pub version: Version,
    pub data: Seq<u8>,
    pub live_at: u64,
}

/// The value of one sub-key written by one source.
#[derive(Debug)]
pub enum MapSlot {
    Unspecific,
    Stored { data: Vec<u8>, version: Version, live_at: u64 },
}

impl View for MapSlot {
    type V = Option<SlotValue>;

    open spec fn view(&self) -> Option<SlotValue> {
        match self {
            MapSlot::Unspecific => None,
            MapSlot::Stored { data, version, live_at } => Some(SlotValue { version: *version, data: data@, live_at: *live_at }),
        }
    }
}

/// Whether a write of `version` is accepted by a slot holding `slot`.
pub open spec fn accepts_set(slot: Option<SlotValue>, version: Version) -> bool {
    match slot {
        None => true,
        Some(v) => v.version.0 < version.0,
    }
}

/// Whether a delete carrying `version` is accepted by a slot holding `slot`.
pub open spec fn accepts_del(slot: Option<SlotValue>, version: Version) -> bool {
    match slot {
        None => false,
        Some(v) => version.0 >= v.version.0,
    }
}

impl MapSlot {
    pub fn new() -> (s: Self)
        ensures
            s@ is None,
    {
        MapSlot::Unspecific
    }

    /// Writes a value; a slot that already holds a value accepts only a strictly newer version.
    pub fn set(&mut self, now: u64, new_version: Version, new_data: Vec<u8>) -> (r: bool)
        ensures
            r == accepts_set(old(self)@, new_version),
            r ==> final(self)@ == Some(SlotValue { version: new_version, data: new_data@, live_at: now }),
            !r ==> final(self)@ == old(self)@,
    {
        match self {
            MapSlot::Unspecific => {
                *self = MapSlot::Stored { data: new_data, version: new_version, live_at: now };
                true
            },
            MapSlot::Stored { version, data, live_at } => {
                if version.0 < new_version.0 {
                    *version = new_version;
                    *data = new_data;
                    *live_at = now;
                    true
                } else {
                    false
                }
            },
        }
    }

    /// Deletes the value when the request's version is not older than the stored one,
    /// and returns the version that was deleted.
    pub fn del(&mut self, _now: u64, version: Version) -> (r: Option<Version>)
        ensures
            accepts_del(old(self)@, version) ==> r == Some(old(self)@.unwrap().version) && final(self)@ is None,
            !accepts_del(old(self)@, version) ==> r is None && final(self)@ == old(self)@,
    {
        match self {
            MapSlot::Unspecific => None,
            MapSlot::Stored { version: current_version, .. } => {
                if version.0 >= current_version.0 {
                    let del_version = *current_version;
                    *self = MapSlot::Unspecific;
                    Some(del_version)
                } else {
                    None
                }
            },
        }
    }

    /// The stored version and value, if any.
    pub fn dump(&self) -> (r: Option<(Version, Vec<u8>)>)
        ensures
            r is None <==> self@ is None,
            r is Some ==> r.unwrap().0 == self@.unwrap().version && r.unwrap().1@ == self@.unwrap().data,
    {
        match self {
            MapSlot::Unspecific => None,
            MapSlot::Stored { version, data, .. } => Some((*version, copy_bytes(data))),
        }
    }
}

} // verus!

verus! {

/// A slot of the map: a value written by `source` under `key`.
pub struct SlotEntryView {
    pub key: Key,
    pub source: NodeSession,
    pub value: SlotValue,
}

/// A change that waits for the acknowledgements of `remotes`.
pub struct WaitAcksView {
    pub key: Key,
    pub source: NodeSession,
    pub event: ServerMapEventView,
    pub remotes: Seq<NodeSession>,
    pub last_send_ms: u64,
}

/// A subscriber of the map.
pub struct SubView {
    pub node: NodeSession,
    pub id: u64,
    pub last_ts: u64,
}

/// Mathematical state of a [`RemoteMap`]: entries are kept in the order in which they were
/// first created, and `queue` holds the messages not yet handed out, oldest first.
pub struct RemoteMapView {
    pub session: NodeSession,
    pub slots: Seq<SlotEntryView>,
    pub events: Seq<WaitAcksView>,
    pub subs: Seq<SubView>,
    pub queue: Seq<(NodeSession, ServerMapEventView)>,
}

// ---- lookups --------------------------------------------------------------------------------

pub open spec fn slot_matches(e: SlotEntryView, key: Key, source: NodeSession) -> bool {
    e.key == key && e.source == source
}

pub open spec fn has_slot(s: Seq<SlotEntryView>, key: Key, source: NodeSession) -> bool {
    exists|i: int| 0 <= i < s.len() && #[trigger] slot_matches(s[i], key, source)
}

pub open spec fn slot_index(s: Seq<SlotEntryView>, key: Key, source: NodeSession) -> int {
    choose|i: int| 0 <= i < s.len() && #[trigger] slot_matches(s[i], key, source)
}

/// The value stored for `key` by `source`.
pub open spec fn slot_of(s: Seq<SlotEntryView>, key: Key, source: NodeSession) -> Option<SlotValue> {
    if has_slot(s, key, source) {
        Some(s[slot_index(s, key, source)].value)
    } else {
        None
    }
}

pub open spec fn slots_unique(s: Seq<SlotEntryView>) -> bool {
    forall|i: int, j: int|
        #![trigger s[i], s[j]]
        0 <= i < s.len() && 0 <= j < s.len() && i != j ==> !slot_matches(s[i], s[j].key, s[j].source)
}

pub open spec fn event_matches(e: WaitAcksView, key: Key, source: NodeSession) -> bool {
    e.key == key && e.source == source
}

pub open spec fn has_event(s: Seq<WaitAcksView>, key: Key, source: NodeSession) -> bool {
    exists|i: int| 0 <= i < s.len() && #[trigger] event_matches(s[i], key, source)
}

pub open spec fn event_index(s: Seq<WaitAcksView>, key: Key, source: NodeSession) -> int {
    choose|i: int| 0 <= i < s.len() && #[trigger] event_matches(s[i], key, source)
}

pub open spec fn events_unique(s: Seq<WaitAcksView>) -> bool {
    forall|i: int, j: int|
        #![trigger s[i], s[j]]
        0 <= i < s.len() && 0 <= j < s.len() && i != j ==> !event_matches(s[i], s[j].key, s[j].source)
}

pub open spec fn has_sub(s: Seq<SubView>, node: NodeSession) -> bool {
    exists|i: int| 0 <= i < s.len() && #[trigger] s[i].node == node
}

pub open spec fn sub_index(s: Seq<SubView>, node: NodeSession) -> int {
    choose|i: int| 0 <= i < s.len() && #[trigger] s[i].node == node
}

pub open spec fn subs_unique(s: Seq<SubView>) -> bool {
    forall|i: int, j: int|
        #![trigger s[i], s[j]]
        0 <= i < s.len() && 0 <= j < s.len() && i != j ==> s[i].node != s[j].node
}

} // verus!

verus! {

// ---- transitions ----------------------------------------------------------------------------

/// The subscribers other than `source`, in subscription order.
pub open spec fn fanout(subs: Seq<SubView>, source: NodeSession) -> Seq<NodeSession>
    decreases subs.len(),
{
    if subs.len() == 0 {
        Seq::empty()
    } else {
        let rest = fanout(subs.drop_last(), source);
        if subs.last().node != source {
            rest.push(subs.last().node)
        } else {
            rest
        }
    }
}

/// One message carrying `ev` to each of `remotes`, in order.
pub open spec fn addressed(remotes: Seq<NodeSession>, ev: ServerMapEventView) -> Seq<(NodeSession, ServerMapEventView)>
    decreases remotes.len(),
{
    if remotes.len() == 0 {
        Seq::empty()
    } else {
        addressed(remotes.drop_last(), ev).push((remotes.last(), ev))
    }
}

/// `s` without any occurrence of `x`.
pub open spec fn without(s: Seq<NodeSession>, x: NodeSession) -> Seq<NodeSession>
    decreases s.len(),
{
    if s.len() == 0 {
        Seq::empty()
    } else {
        let rest = without(s.drop_last(), x);
        if s.last() != x {
            rest.push(s.last())
        } else {
            rest
        }
    }
}

/// Replaces the waiting change of the same key and source, or appends it.
pub open spec fn upsert_event(events: Seq<WaitAcksView>, w: WaitAcksView) -> Seq<WaitAcksView> {
    if has_event(events, w.key, w.source) {
        events.update(event_index(events, w.key, w.source), w)
    } else {
        events.push(w)
    }
}

/// Sends `ev` to every subscriber but `source` and waits for their acknowledgements.
/// Nothing happens while the map has no subscriber.
pub open spec fn fire_event(m: RemoteMapView, now: u64, key: Key, source: NodeSession, ev: ServerMapEventView) -> RemoteMapView {
    if m.subs.len() == 0 {
        m
    } else {
        let remotes = fanout(m.subs, source);
        RemoteMapView {
            events: upsert_event(m.events, WaitAcksView { key, source, event: ev, remotes, last_send_ms: now }),
            queue: m.queue + addressed(remotes, ev),
            ..m
        }
    }
}

/// Adds `remote` to the waiters of the change of `key` by `source`, creating that change
/// (carrying `ev`) where none is waiting.
pub open spec fn add_waiter(events: Seq<WaitAcksView>, key: Key, source: NodeSession, ev: ServerMapEventView, remote: NodeSession, now: u64) -> Seq<WaitAcksView> {
    if has_event(events, key, source) {
        let i = event_index(events, key, source);
        let w = events[i];
        events.update(i, WaitAcksView {
            remotes: if w.remotes.contains(remote) { w.remotes } else { w.remotes.push(remote) },
            ..w
        })
    } else {
        events.push(WaitAcksView { key, source, event: ev, remotes: seq![remote], last_send_ms: now })
    }
}

/// The value of a slot as an `OnSet` event.
pub open spec fn slot_event(e: SlotEntryView) -> ServerMapEventView {
    ServerMapEventView::OnSet { key: e.key, source: e.source, version: e.value.version, data: e.value.data }
}

/// Sends to `remote` every value of `slots` that `remote` did not write itself.
pub open spec fn sub_events(events: Seq<WaitAcksView>, queue: Seq<(NodeSession, ServerMapEventView)>, slots: Seq<SlotEntryView>, now: u64, remote: NodeSession) -> (Seq<WaitAcksView>, Seq<(NodeSession, ServerMapEventView)>)
    decreases slots.len(),
{
    if slots.len() == 0 {
        (events, queue)
    } else {
        let (e, q) = sub_events(events, queue, slots.drop_last(), now, remote);
        let s = slots.last();
        if s.source == remote {
            (e, q)
        } else {
            (add_waiter(e, s.key, s.source, slot_event(s), remote, now), q.push((remote, slot_event(s))))
        }
    }
}

pub open spec fn fire_sub_events(m: RemoteMapView, now: u64, remote: NodeSession) -> RemoteMapView {
    let (events, queue) = sub_events(m.events, m.queue, m.slots, now, remote);
    RemoteMapView { events, queue, ..m }
}

/// Replaces the subscriber with the same node, or appends it.
pub open spec fn upsert_sub(subs: Seq<SubView>, s: SubView) -> Seq<SubView> {
    if has_sub(subs, s.node) {
        subs.update(sub_index(subs, s.node), s)
    } else {
        subs.push(s)
    }
}

/// Removes `remote` from the waiters of the change of `key` by `session` when it acknowledges
/// the version that the change carries; a change acknowledged by all its waiters is dropped.
pub open spec fn on_ack(m: RemoteMapView, remote: NodeSession, key: Key, session: NodeSession, acked: Version, is_set: bool) -> RemoteMapView {
    if !has_event(m.events, key, session) {
        m
    } else {
        let i = event_index(m.events, key, session);
        let w = m.events[i];
        let matching = match w.event {
            ServerMapEventView::OnSet { version, .. } => is_set && version == acked,
            ServerMapEventView::OnDel { version, .. } => !is_set && version == acked,
            _ => false,
        };
        if matching {
            let remotes = without(w.remotes, remote);
            if remotes.len() == 0 {
                RemoteMapView { events: m.events.remove(i), ..m }
            } else {
                RemoteMapView { events: m.events.update(i, WaitAcksView { remotes, ..w }), ..m }
            }
        } else {
            m
        }
    }
}

/// What [`RemoteMap::on_client`] does with a command from `remote`: the new state and the reply.
pub open spec fn on_client_spec(m: RemoteMapView, now: u64, remote: NodeSession, cmd: ClientMapCommandView) -> (RemoteMapView, Option<ServerMapEventView>) {
    match cmd {
        ClientMapCommandView::SetValue(key, version, data) => {
            if accepts_set(slot_of(m.slots, key, remote), version) {
                let entry = SlotEntryView { key, source: remote, value: SlotValue { version, data, live_at: now } };
                let slots = if has_slot(m.slots, key, remote) {
                    m.slots.update(slot_index(m.slots, key, remote), entry)
                } else {
                    m.slots.push(entry)
                };
                let ev = ServerMapEventView::OnSet { key, source: remote, version, data };
                (fire_event(RemoteMapView { slots, ..m }, now, key, remote, ev), Some(ServerMapEventView::SetOk(key, version)))
            } else {
                (m, None)
            }
        },
        ClientMapCommandView::Del(key, version) => {
            if accepts_del(slot_of(m.slots, key, remote), version) {
                let deleted = slot_of(m.slots, key, remote).unwrap().version;
                let slots = m.slots.remove(slot_index(m.slots, key, remote));
                let ev = ServerMapEventView::OnDel { key, source: remote, version: deleted };
                (fire_event(RemoteMapView { slots, ..m }, now, key, remote, ev), Some(ServerMapEventView::DelOk(key, deleted)))
            } else {
                (m, None)
            }
        },
        ClientMapCommandView::Sub(id, locked) => {
            let m1 = RemoteMapView { subs: upsert_sub(m.subs, SubView { node: remote, id, last_ts: now }), ..m };
            if !has_sub(m.subs, remote) || locked != Some(m.session) {
                (fire_sub_events(m1, now, remote), Some(ServerMapEventView::SubOk(id)))
            } else {
                (m1, Some(ServerMapEventView::SubOk(id)))
            }
        },
        ClientMapCommandView::Unsub(id) => {
            if has_sub(m.subs, remote) && m.subs[sub_index(m.subs, remote)].id == id {
                (RemoteMapView { subs: m.subs.remove(sub_index(m.subs, remote)), ..m }, Some(ServerMapEventView::UnsubOk(id)))
            } else {
                (m, None)
            }
        },
        ClientMapCommandView::OnSetAck(key, session, acked) => (on_ack(m, remote, key, session, acked, true), None),
        ClientMapCommandView::OnDelAck(key, session, acked) => (on_ack(m, remote, key, session, acked, false), None),
    }
}

/// The subscribers that were heard from within the timeout.
pub open spec fn live_subs(subs: Seq<SubView>, now: u64) -> Seq<SubView>
    decreases subs.len(),
{
    if subs.len() == 0 {
        Seq::empty()
    } else {
        let rest = live_subs(subs.drop_last(), now);
        if now >= subs.last().last_ts + TIMEOUT_MS {
            rest
        } else {
            rest.push(subs.last())
        }
    }
}

/// Waiting changes after a tick, with the messages resent: a change older than the timeout is
/// dropped, one not acknowledged within the resend time is sent again to its waiters.
pub open spec fn tick_events(events: Seq<WaitAcksView>, now: u64) -> (Seq<WaitAcksView>, Seq<(NodeSession, ServerMapEventView)>)
    decreases events.len(),
{
    if events.len() == 0 {
        (Seq::empty(), Seq::empty())
    } else {
        let (e, q) = tick_events(events.drop_last(), now);
        let w = events.last();
        if now >= TIMEOUT_MS + w.last_send_ms {
            (e, q)
        } else if now >= RESEND_MS + w.last_send_ms {
            let w2 = WaitAcksView { last_send_ms: if w.remotes.len() > 0 { now } else { w.last_send_ms }, ..w };
            (e.push(w2), q + addressed(w.remotes, w.event))
        } else {
            (e.push(w), q)
        }
    }
}

pub open spec fn on_tick_spec(m: RemoteMapView, now: u64) -> RemoteMapView {
    let (events, resent) = tick_events(m.events, now);
    RemoteMapView { subs: live_subs(m.subs, now), events, queue: m.queue + resent, ..m }
}

} // verus!

verus! {

struct SlotEntry {
    key: Key,
    source: NodeSession,
    slot: MapSlot,
}

impl SlotEntry {
    spec fn view(&self) -> SlotEntryView {
        SlotEntryView { key: self.key, source: self.source, value: self.slot@.unwrap() }
    }
}

struct WaitAcksEvent {
    key: Key,
    source: NodeSession,
    event: ServerMapEvent,
    remotes: Vec<NodeSession>,
    last_send_ms: u64,
}

impl WaitAcksEvent {
    spec fn view(&self) -> WaitAcksView {
        WaitAcksView { key: self.key, source: self.source, event: self.event@, remotes: self.remotes@, last_send_ms: self.last_send_ms }
    }
}

struct SubSlot {
    node: NodeSession,
    id: u64,
    last_ts: u64,
}

impl SubSlot {
    spec fn view(&self) -> SubView {
        SubView { node: self.node, id: self.id, last_ts: self.last_ts }
    }
}

/// The part of a DHT map that a node stores for the other nodes.
pub struct RemoteMap {
    session: NodeSession,
    slots: Vec<SlotEntry>,
    slots_event: Vec<WaitAcksEvent>,
    subs: Vec<SubSlot>,
    queue: VecDeque<(NodeSession, ServerMapEvent)>,
}

pub open spec fn queue_view(q: Seq<(NodeSession, ServerMapEvent)>) -> Seq<(NodeSession, ServerMapEventView)> {
    q.map_values(|p: (NodeSession, ServerMapEvent)| (p.0, p.1@))
}

/// Every timestamp that the map holds leaves room for the timeout to be added to it.
pub open spec fn times_bounded(m: RemoteMapView) -> bool {
    &&& forall|i: int| 0 <= i < m.subs.len() ==> #[trigger] m.subs[i].last_ts <= u64::MAX - TIMEOUT_MS
    &&& forall|i: int| 0 <= i < m.events.len() ==> #[trigger] m.events[i].last_send_ms <= u64::MAX - TIMEOUT_MS
}

impl View for RemoteMap {
    type V = RemoteMapView;

    closed spec fn view(&self) -> RemoteMapView {
        RemoteMapView {
            session: self.session,
            slots: self.slots@.map_values(|e: SlotEntry| e.view()),
            events: self.slots_event@.map_values(|e: WaitAcksEvent| e.view()),
            subs: self.subs@.map_values(|e: SubSlot| e.view()),
            queue: queue_view(self.queue@),
        }
    }
}

impl RemoteMap {
    /// Well-formedness: one entry per key, every slot holds a value, timestamps are bounded.
    pub closed spec fn wf(&self) -> bool {
        &&& forall|i: int| 0 <= i < self.slots@.len() ==> (#[trigger] self.slots@[i]).slot@ is Some
        &&& slots_unique(self@.slots)
        &&& events_unique(self@.events)
        &&& subs_unique(self@.subs)
        &&& times_bounded(self@)
    }

    /// A valid map holds at most one slot per key and source.
    pub proof fn lemma_slots_unique(&self)
        requires
            self.wf(),
        ensures
            slots_unique(self@.slots),
    {
    }

    pub fn new(session: NodeSession) -> (m: Self)
        ensures
            m.wf(),
            m@ == (RemoteMapView { session, slots: Seq::empty(), events: Seq::empty(), subs: Seq::empty(), queue: Seq::empty() }),
    {
        let m = RemoteMap { session, slots: Vec::new(), slots_event: Vec::new(), subs: Vec::new(), queue: VecDeque::new() };
        assert(m@.slots =~= Seq::empty());
        assert(m@.events =~= Seq::empty());
        assert(m@.subs =~= Seq::empty());
        assert(m@.queue =~= Seq::empty());
        m
    }

    /// Hands out the oldest pending message.
    pub fn pop_action(&mut self) -> (r: Option<(NodeSession, ServerMapEvent)>)
        requires
            old(self).wf(),
        ensures
            final(self).wf(),
            old(self)@.queue.len() == 0 ==> r is None && final(self)@ == old(self)@,
            old(self)@.queue.len() > 0 ==> r is Some && (r.unwrap().0, r.unwrap().1@) == old(self)@.queue[0]
                && final(self)@ == (RemoteMapView { queue: old(self)@.queue.drop_first(), ..old(self)@ }),
    {
        let r = self.queue.pop_front();
        proof {
            assert(self@.queue =~= old(self)@.queue.drop_first() || r is None);
            if r is None {
                assert(self@ == old(self)@);
            } else {
                assert(self@.queue =~= old(self)@.queue.drop_first());
            }
        }
        r
    }

    /// A map with no value, no subscriber and no waiting change can be dropped.
    pub fn should_clean(&self) -> (r: bool)
        ensures
            r == (self@.slots.len() == 0 && self@.subs.len() == 0 && self@.events.len() == 0),
    {
        self.slots.len() == 0 && self.subs.len() == 0 && self.slots_event.len() == 0
    }

    /// Every stored value with its key, source and version, in slot order.
    pub fn dump(&self) -> (r: Vec<(Key, NodeSession, Version, Vec<u8>)>)
        requires
            self.wf(),
        ensures
            r@.len() == self@.slots.len(),
            forall|i: int| 0 <= i < r@.len() ==> {
                let e = #[trigger] self@.slots[i];
                &&& r@[i].0 == e.key
                &&& r@[i].1 == e.source
                &&& r@[i].2 == e.value.version
                &&& r@[i].3@ == e.value.data
            },
    {
        let mut out: Vec<(Key, NodeSession, Version, Vec<u8>)> = Vec::new();
        let mut i: usize = 0;
        while i < self.slots.len()
            invariant
                self.wf(),
                i <= self.slots@.len(),
                out@.len() == i,
                forall|k: int| 0 <= k < i ==> {
                    let e = #[trigger] self@.slots[k];
                    &&& out@[k].0 == e.key
                    &&& out@[k].1 == e.source
                    &&& out@[k].2 == e.value.version
                    &&& out@[k].3@ == e.value.data
                },
            decreases self.slots@.len() - i,
        {
            let e = &self.slots[i];
            assert(self.slots@[i as int].slot@ is Some);
            match e.slot.dump() {
                Some((version, data)) => {
                    out.push((e.key, e.source, version, data));
                },
                None => {},
            }
            i = i + 1;
        }
        out
    }
}

} // verus!

verus! {

// ---- lemmas on the ordered entry lists --------------------------------------------------------

proof fn lemma_upsert_event(events: Seq<WaitAcksView>, w: WaitAcksView)
    requires
        events_unique(events),
    ensures
        events_unique(upsert_event(events, w)),
        has_event(upsert_event(events, w), w.key, w.source),
        upsert_event(events, w).len() >= events.len(),
        forall|k: int|
            0 <= k < events.len() && !event_matches(events[k], w.key, w.source) ==> #[trigger] upsert_event(events, w)[k] == events[k],
{
    let r = upsert_event(events, w);
    if has_event(events, w.key, w.source) {
        let i = event_index(events, w.key, w.source);
        assert(event_matches(events[i], w.key, w.source));
        assert(event_matches(r[i], w.key, w.source));
        assert forall|a: int, b: int| #![trigger r[a], r[b]] 0 <= a < r.len() && 0 <= b < r.len() && a != b implies !event_matches(r[a], r[b].key, r[b].source) by {
            assert(events[a] == r[a] || a == i);
            assert(events[b] == r[b] || b == i);
            if a == i {
                assert(!event_matches(events[b], events[a].key, events[a].source) || b == a);
            } else if b == i {
                assert(!event_matches(events[a], events[b].key, events[b].source));
            }
        }
        assert forall|k: int| 0 <= k < events.len() && !event_matches(events[k], w.key, w.source) implies #[trigger] r[k] == events[k] by {
            assert(k != i);
        }
    } else {
        assert(event_matches(r[events.len() as int], w.key, w.source));
        assert forall|a: int, b: int| #![trigger r[a], r[b]] 0 <= a < r.len() && 0 <= b < r.len() && a != b implies !event_matches(r[a], r[b].key, r[b].source) by {
            if a == events.len() {
                assert(!event_matches(events[b], w.key, w.source));
            } else if b == events.len() {
                assert(!event_matches(events[a], w.key, w.source));
            } else {
                assert(r[a] == events[a] && r[b] == events[b]);
            }
        }
    }
}

proof fn lemma_upsert_sub(subs: Seq<SubView>, s: SubView)
    requires
        subs_unique(subs),
    ensures
        subs_unique(upsert_sub(subs, s)),
        forall|k: int| 0 <= k < upsert_sub(subs, s).len() ==> #[trigger] upsert_sub(subs, s)[k] == s || exists|j: int| 0 <= j < subs.len() && subs[j] == upsert_sub(subs, s)[k],
{
    let r = upsert_sub(subs, s);
    if has_sub(subs, s.node) {
        let i = sub_index(subs, s.node);
        assert(subs[i].node == s.node);
        assert forall|a: int, b: int| #![trigger r[a], r[b]] 0 <= a < r.len() && 0 <= b < r.len() && a != b implies r[a].node != r[b].node by {
            assert(subs[a].node != subs[b].node);
        }
        assert forall|k: int| 0 <= k < r.len() implies #[trigger] r[k] == s || exists|j: int| 0 <= j < subs.len() && subs[j] == r[k] by {
            if k != i {
                assert(subs[k] == r[k]);
            }
        }
    } else {
        assert forall|a: int, b: int| #![trigger r[a], r[b]] 0 <= a < r.len() && 0 <= b < r.len() && a != b implies r[a].node != r[b].node by {
            if a == subs.len() {
                assert(subs[b].node != s.node);
            } else if b == subs.len() {
                assert(subs[a].node != s.node);
            } else {
                assert(r[a] == subs[a] && r[b] == subs[b]);
            }
        }
        assert forall|k: int| 0 <= k < r.len() implies #[trigger] r[k] == s || exists|j: int| 0 <= j < subs.len() && subs[j] == r[k] by {
            if k < subs.len() {
                assert(subs[k] == r[k]);
            }
        }
    }
}

proof fn lemma_live_subs(subs: Seq<SubView>, now: u64)
    ensures
        forall|k: int| 0 <= k < live_subs(subs, now).len() ==> exists|j: int| 0 <= j < subs.len() && subs[j] == #[trigger] live_subs(subs, now)[k],
        subs_unique(subs) ==> subs_unique(live_subs(subs, now)),
    decreases subs.len(),
{
    if subs.len() > 0 {
        let d = subs.drop_last();
        lemma_live_subs(d, now);
        let rest = live_subs(d, now);
        let r = live_subs(subs, now);
        assert forall|k: int| 0 <= k < r.len() implies exists|j: int| 0 <= j < subs.len() && subs[j] == #[trigger] r[k] by {
            if k < rest.len() {
                let j = choose|j: int| 0 <= j < d.len() && d[j] == rest[k];
                assert(subs[j] == r[k]);
            } else {
                assert(subs[subs.len() - 1] == r[k]);
            }
        }
        if subs_unique(subs) {
            assert(subs_unique(d)) by {
                assert forall|a: int, b: int| #![trigger d[a], d[b]] 0 <= a < d.len() && 0 <= b < d.len() && a != b implies d[a].node != d[b].node by {
                    assert(subs[a] == d[a] && subs[b] == d[b]);
                }
            }
            assert forall|a: int, b: int| #![trigger r[a], r[b]] 0 <= a < r.len() && 0 <= b < r.len() && a != b implies r[a].node != r[b].node by {
                if a < rest.len() && b < rest.len() {
                } else if a < rest.len() {
                    let j = choose|j: int| 0 <= j < d.len() && d[j] == rest[a];
                    assert(subs[j] == r[a]);
                    assert(r[b] == subs[subs.len() - 1]);
                } else {
                    let j = choose|j: int| 0 <= j < d.len() && d[j] == rest[b];
                    assert(subs[j] == r[b]);
                    assert(r[a] == subs[subs.len() - 1]);
                }
            }
        }
    }
}

proof fn lemma_tick_events(events: Seq<WaitAcksView>, now: u64)
    ensures
        forall|k: int|
            #![trigger tick_events(events, now).0[k]]
            0 <= k < tick_events(events, now).0.len() ==> exists|j: int|
                0 <= j < events.len() && #[trigger] event_matches(events[j], tick_events(events, now).0[k].key, tick_events(events, now).0[k].source)
                    && (tick_events(events, now).0[k].last_send_ms == events[j].last_send_ms || tick_events(events, now).0[k].last_send_ms == now),
        events_unique(events) ==> events_unique(tick_events(events, now).0),
    decreases events.len(),
{
    if events.len() > 0 {
        let d = events.drop_last();
        lemma_tick_events(d, now);
        let rest = tick_events(d, now).0;
        let r = tick_events(events, now).0;
        let last = events.len() - 1;
        assert forall|k: int| #![trigger r[k]] 0 <= k < r.len() implies exists|j: int|
            0 <= j < events.len() && #[trigger] event_matches(events[j], r[k].key, r[k].source) && (r[k].last_send_ms == events[j].last_send_ms || r[k].last_send_ms == now) by {
            if k < rest.len() {
                let j = choose|j: int|
                    0 <= j < d.len() && #[trigger] event_matches(d[j], rest[k].key, rest[k].source) && (rest[k].last_send_ms == d[j].last_send_ms || rest[k].last_send_ms == now);
                assert(events[j] == d[j]);
                assert(event_matches(events[j], r[k].key, r[k].source));
            } else {
                assert(event_matches(events[last], r[k].key, r[k].source));
            }
        }
        if events_unique(events) {
            assert(events_unique(d)) by {
                assert forall|a: int, b: int| #![trigger d[a], d[b]] 0 <= a < d.len() && 0 <= b < d.len() && a != b implies !event_matches(d[a], d[b].key, d[b].source) by {
                    assert(events[a] == d[a] && events[b] == d[b]);
                }
            }
            assert forall|a: int, b: int| #![trigger r[a], r[b]] 0 <= a < r.len() && 0 <= b < r.len() && a != b implies !event_matches(r[a], r[b].key, r[b].source) by {
                if a < rest.len() && b < rest.len() {
                } else if a < rest.len() {
                    let j = choose|j: int|
                        0 <= j < d.len() && #[trigger] event_matches(d[j], rest[a].key, rest[a].source) && (rest[a].last_send_ms == d[j].last_send_ms || rest[a].last_send_ms == now);
                    assert(events[j] == d[j]);
                    assert(!event_matches(events[j], events[last].key, events[last].source));
                } else {
                    let j = choose|j: int|
                        0 <= j < d.len() && #[trigger] event_matches(d[j], rest[b].key, rest[b].source) && (rest[b].last_send_ms == d[j].last_send_ms || rest[b].last_send_ms == now);
                    assert(events[j] == d[j]);
                    assert(!event_matches(events[j], events[last].key, events[last].source));
                }
            }
        }
    }
}

} // verus!

verus! {

impl RemoteMap {
    fn find_slot(&self, key: Key, source: NodeSession) -> (r: Option<usize>)
        requires
            self.wf(),
        ensures
            match r {
                Some(i) => i < self.slots@.len() && has_slot(self@.slots, key, source) && i == slot_index(self@.slots, key, source),
                None => !has_slot(self@.slots, key, source),
            },
    {
        let mut i: usize = 0;
        while i < self.slots.len()
            invariant
                self.wf(),
                i <= self.slots@.len(),
                forall|k: int| 0 <= k < i ==> !slot_matches(#[trigger] self@.slots[k], key, source),
            decreases self.slots@.len() - i,
        {
            if self.slots[i].key == key && self.slots[i].source == source {
                proof {
                    let s = self@.slots;
                    assert(slot_matches(s[i as int], key, source));
                    let j = slot_index(s, key, source);
                    assert(slot_matches(s[j], key, source));
                    assert(!slot_matches(s[j], s[i as int].key, s[i as int].source) || j == i);
                }
                return Some(i);
            }
            i = i + 1;
        }
        None
    }

    fn find_event(&self, key: Key, source: NodeSession) -> (r: Option<usize>)
        requires
            self.wf(),
        ensures
            match r {
                Some(i) => i < self.slots_event@.len() && has_event(self@.events, key, source) && i == event_index(self@.events, key, source),
                None => !has_event(self@.events, key, source),
            },
    {
        let mut i: usize = 0;
        while i < self.slots_event.len()
            invariant
                self.wf(),
                i <= self.slots_event@.len(),
                forall|k: int| 0 <= k < i ==> !event_matches(#[trigger] self@.events[k], key, source),
            decreases self.slots_event@.len() - i,
        {
            if self.slots_event[i].key == key && self.slots_event[i].source == source {
                proof {
                    let s = self@.events;
                    assert(event_matches(s[i as int], key, source));
                    let j = event_index(s, key, source);
                    assert(event_matches(s[j], key, source));
                    assert(!event_matches(s[j], s[i as int].key, s[i as int].source) || j == i);
                }
                return Some(i);
            }
            i = i + 1;
        }
        None
    }

    fn find_sub(&self, node: NodeSession) -> (r: Option<usize>)
        requires
            self.wf(),
        ensures
            match r {
                Some(i) => i < self.subs@.len() && has_sub(self@.subs, node) && i == sub_index(self@.subs, node),
                None => !has_sub(self@.subs, node),
            },
    {
        let mut i: usize = 0;
        while i < self.subs.len()
            invariant
                self.wf(),
                i <= self.subs@.len(),
                forall|k: int| 0 <= k < i ==> (#[trigger] self@.subs[k]).node != node,
            decreases self.subs@.len() - i,
        {
            if self.subs[i].node == node {
                proof {
                    let s = self@.subs;
                    assert(s[i as int].node == node);
                    let j = sub_index(s, node);
                    assert(s[j].node == node);
                    assert(s[j].node != s[i as int].node || j == i);
                }
                return Some(i);
            }
            i = i + 1;
        }
        None
    }
}

} // verus!

verus! {

proof fn lemma_queue_push(q: Seq<(NodeSession, ServerMapEvent)>, x: (NodeSession, ServerMapEvent))
    ensures
        queue_view(q.push(x)) == queue_view(q).push((x.0, x.1@)),
{
    assert(queue_view(q.push(x)) =~= queue_view(q).push((x.0, x.1@)));
}

proof fn lemma_addressed_push(remotes: Seq<NodeSession>, r: NodeSession, ev: ServerMapEventView)
    ensures
        addressed(remotes.push(r), ev) == addressed(remotes, ev).push((r, ev)),
{
    assert(remotes.push(r).drop_last() =~= remotes);
}

impl RemoteMap {
    fn upsert_wait(&mut self, w: WaitAcksEvent)
        requires
            old(self).wf(),
            w.last_send_ms <= u64::MAX - TIMEOUT_MS,
        ensures
            final(self).wf(),
            final(self)@ == (RemoteMapView { events: upsert_event(old(self)@.events, w.view()), ..old(self)@ }),
    {
        let ghost wv = w.view();
        let ghost old_events = self@.events;
        match self.find_event(w.key, w.source) {
            Some(i) => {
                self.slots_event.set(i, w);
            },
            None => {
                self.slots_event.push(w);
            },
        }
        proof {
            lemma_upsert_event(old_events, wv);
            assert(self@.events =~= upsert_event(old_events, wv));
            assert forall|k: int| 0 <= k < self@.events.len() implies #[trigger] self@.events[k].last_send_ms <= u64::MAX - TIMEOUT_MS by {
                if k < old_events.len() && self@.events[k] != wv {
                    assert(self.slots_event@[k] == old(self).slots_event@[k]);
                }
            }
        }
    }

    /// Sends `event` to every subscriber but `source` and waits for their acknowledgements.
    fn fire_event(&mut self, now: u64, key: Key, source: NodeSession, event: ServerMapEvent)
        requires
            old(self).wf(),
            now <= u64::MAX - TIMEOUT_MS,
        ensures
            final(self).wf(),
            final(self)@ == fire_event(old(self)@, now, key, source, event@),
    {
        if self.subs.len() == 0 {
            return;
        }
        let ghost m0 = self@;
        let mut remotes: Vec<NodeSession> = Vec::new();
        let mut i: usize = 0;
        while i < self.subs.len()
            invariant
                self.wf(),
                i <= self.subs@.len(),
                self@ == (RemoteMapView { queue: m0.queue + addressed(remotes@, event@), ..m0 }),
                remotes@ == fanout(m0.subs.take(i as int), source),
            decreases self.subs@.len() - i,
        {
            let r = self.subs[i].node;
            proof {
                assert(m0.subs.take(i + 1).drop_last() =~= m0.subs.take(i as int));
                assert(m0.subs.take(i + 1).last() == m0.subs[i as int]);
            }
            if r != source {
                let ghost q = self.queue@;
                let ghost rs = remotes@;
                remotes.push(r);
                let e = event.clone();
                self.queue.push_back((r, e));
                proof {
                    lemma_queue_push(q, (r, e));
                    lemma_addressed_push(rs, r, event@);
                    assert(self@.queue =~= m0.queue + addressed(remotes@, event@));
                }
            }
            i = i + 1;
        }
        proof {
            assert(m0.subs.take(i as int) =~= m0.subs);
        }
        self.upsert_wait(WaitAcksEvent { key, source, event, remotes, last_send_ms: now });
    }
}

} // verus!

verus! {

/// Whether `v` holds `x`.
fn contains_session(v: &Vec<NodeSession>, x: NodeSession) -> (r: bool)
    ensures
        r == v@.contains(x),
{
    let mut i: usize = 0;
    while i < v.len()
        invariant
            i <= v@.len(),
            forall|k: int| 0 <= k < i ==> v@[k] != x,
        decreases v@.len() - i,
    {
        if v[i] == x {
            assert(v@[i as int] == x);
            return true;
        }
        i = i + 1;
    }
    false
}

fn copy_sessions(v: &Vec<NodeSession>) -> (r: Vec<NodeSession>)
    ensures
        r@ == v@,
{
    let mut r: Vec<NodeSession> = Vec::new();
    let mut i: usize = 0;
    while i < v.len()
        invariant
            i <= v@.len(),
            r@ == v@.take(i as int),
        decreases v@.len() - i,
    {
        r.push(v[i]);
        assert(v@.take(i + 1) =~= v@.take(i as int).push(v@[i as int]));
        i = i + 1;
    }
    assert(v@.take(i as int) =~= v@);
    r
}

impl RemoteMap {
    fn add_waiter(&mut self, key: Key, source: NodeSession, event: &ServerMapEvent, remote: NodeSession, now: u64)
        requires
            old(self).wf(),
            now <= u64::MAX - TIMEOUT_MS,
        ensures
            final(self).wf(),
            final(self)@ == (RemoteMapView { events: add_waiter(old(self)@.events, key, source, event@, remote, now), ..old(self)@ }),
    {
        let ghost events0 = self@.events;
        match self.find_event(key, source) {
            Some(j) => {
                let present = contains_session(&self.slots_event[j].remotes, remote);
                if !present {
                    let ghost w0 = events0[j as int];
                    let mut remotes = copy_sessions(&self.slots_event[j].remotes);
                    remotes.push(remote);
                    let nw = WaitAcksEvent {
                        key: self.slots_event[j].key,
                        source: self.slots_event[j].source,
                        event: self.slots_event[j].event.clone(),
                        remotes,
                        last_send_ms: self.slots_event[j].last_send_ms,
                    };
                    proof {
                        assert(event_matches(events0[j as int], key, source));
                        assert(nw.view() == WaitAcksView { remotes: w0.remotes.push(remote), ..w0 });
                    }
                    let ghost nwv = nw.view();
                    self.upsert_wait(nw);
                    proof {
                        assert(upsert_event(events0, nwv) == add_waiter(events0, key, source, event@, remote, now));
                    }
                } else {
                    proof {
                        assert(events0.update(j as int, events0[j as int]) =~= events0);
                    }
                }
            },
            None => {
                let mut remotes: Vec<NodeSession> = Vec::new();
                remotes.push(remote);
                proof {
                    assert(remotes@ =~= seq![remote]);
                }
                let nw = WaitAcksEvent { key, source, event: event.clone(), remotes, last_send_ms: now };
                let ghost nwv = nw.view();
                self.upsert_wait(nw);
                proof {
                    assert(upsert_event(events0, nwv) == add_waiter(events0, key, source, event@, remote, now));
                }
            },
        }
    }

    /// Sends to `remote` every value that it did not write itself.
    fn fire_sub_events(&mut self, now: u64, remote: NodeSession)
        requires
            old(self).wf(),
            now <= u64::MAX - TIMEOUT_MS,
        ensures
            final(self).wf(),
            final(self)@ == fire_sub_events(old(self)@, now, remote),
    {
        let ghost m0 = self@;
        let mut i: usize = 0;
        while i < self.slots.len()
            invariant
                self.wf(),
                i <= self.slots@.len(),
                now <= u64::MAX - TIMEOUT_MS,
                self@ == (RemoteMapView {
                    events: sub_events(m0.events, m0.queue, m0.slots.take(i as int), now, remote).0,
                    queue: sub_events(m0.events, m0.queue, m0.slots.take(i as int), now, remote).1,
                    ..m0
                }),
            decreases self.slots@.len() - i,
        {
            proof {
                assert(m0.slots.take(i + 1).drop_last() =~= m0.slots.take(i as int));
                assert(m0.slots.take(i + 1).last() == m0.slots[i as int]);
                assert(self.slots@[i as int].slot@ is Some);
            }
            let key = self.slots[i].key;
            let src = self.slots[i].source;
            if src != remote {
                match self.slots[i].slot.dump() {
                    Some((version, data)) => {
                        let event = ServerMapEvent::OnSet { key, version, source: src, data };
                        proof {
                            assert(event@ == slot_event(m0.slots[i as int]));
                        }
                        self.add_waiter(key, src, &event, remote, now);
                        let ghost q = self.queue@;
                        self.queue.push_back((remote, event));
                        proof {
                            lemma_queue_push(q, (remote, event));
                        }
                    },
                    None => {},
                }
            }
            i = i + 1;
        }
        proof {
            assert(m0.slots.take(i as int) =~= m0.slots);
        }
    }
}

} // verus!

verus! {

/// `v` without any occurrence of `x`.
fn remove_session(v: &Vec<NodeSession>, x: NodeSession) -> (r: Vec<NodeSession>)
    ensures
        r@ == without(v@, x),
{
    let mut r: Vec<NodeSession> = Vec::new();
    let mut i: usize = 0;
    while i < v.len()
        invariant
            i <= v@.len(),
            r@ == without(v@.take(i as int), x),
        decreases v@.len() - i,
    {
        proof {
            assert(v@.take(i + 1).drop_last() =~= v@.take(i as int));
            assert(v@.take(i + 1).last() == v@[i as int]);
        }
        if v[i] != x {
            r.push(v[i]);
        }
        i = i + 1;
    }
    assert(v@.take(i as int) =~= v@);
    r
}

proof fn lemma_remove_unique_events(s: Seq<WaitAcksView>, i: int)
    requires
        events_unique(s),
        0 <= i < s.len(),
    ensures
        events_unique(s.remove(i)),
{
    let r = s.remove(i);
    assert forall|a: int, b: int| #![trigger r[a], r[b]] 0 <= a < r.len() && 0 <= b < r.len() && a != b implies !event_matches(r[a], r[b].key, r[b].source) by {
        let a2 = if a < i { a } else { a + 1 };
        let b2 = if b < i { b } else { b + 1 };
        assert(r[a] == s[a2] && r[b] == s[b2]);
    }
}

proof fn lemma_remove_unique_slots(s: Seq<SlotEntryView>, i: int)
    requires
        slots_unique(s),
        0 <= i < s.len(),
    ensures
        slots_unique(s.remove(i)),
{
    let r = s.remove(i);
    assert forall|a: int, b: int| #![trigger r[a], r[b]] 0 <= a < r.len() && 0 <= b < r.len() && a != b implies !slot_matches(r[a], r[b].key, r[b].source) by {
        let a2 = if a < i { a } else { a + 1 };
        let b2 = if b < i { b } else { b + 1 };
        assert(r[a] == s[a2] && r[b] == s[b2]);
    }
}

proof fn lemma_remove_unique_subs(s: Seq<SubView>, i: int)
    requires
        subs_unique(s),
        0 <= i < s.len(),
    ensures
        subs_unique(s.remove(i)),
{
    let r = s.remove(i);
    assert forall|a: int, b: int| #![trigger r[a], r[b]] 0 <= a < r.len() && 0 <= b < r.len() && a != b implies r[a].node != r[b].node by {
        let a2 = if a < i { a } else { a + 1 };
        let b2 = if b < i { b } else { b + 1 };
        assert(r[a] == s[a2] && r[b] == s[b2]);
    }
}

impl RemoteMap {
    fn on_ack(&mut self, remote: NodeSession, key: Key, session: NodeSession, acked: Version, is_set: bool)
        requires
            old(self).wf(),
        ensures
            final(self).wf(),
            final(self)@ == on_ack(old(self)@, remote, key, session, acked, is_set),
    {
        let ghost m0 = self@;
        match self.find_event(key, session) {
            None => {},
            Some(i) => {
                let matching = match &self.slots_event[i].event {
                    ServerMapEvent::OnSet { version, .. } => is_set && *version == acked,
                    ServerMapEvent::OnDel { version, .. } => !is_set && *version == acked,
                    _ => false,
                };
                if matching {
                    let remotes = remove_session(&self.slots_event[i].remotes, remote);
                    if remotes.len() == 0 {
                        self.slots_event.remove(i);
                        proof {
                            lemma_remove_unique_events(m0.events, i as int);
                            assert(self@.events =~= m0.events.remove(i as int));
                        }
                    } else {
                        let nw = WaitAcksEvent {
                            key: self.slots_event[i].key,
                            source: self.slots_event[i].source,
                            event: self.slots_event[i].event.clone(),
                            remotes,
                            last_send_ms: self.slots_event[i].last_send_ms,
                        };
                        let ghost nwv = nw.view();
                        proof {
                            assert(event_matches(m0.events[i as int], key, session));
                            assert(m0.events[i as int].last_send_ms <= u64::MAX - TIMEOUT_MS);
                            assert(bounded_event(nwv));
                        }
                        self.upsert_wait(nw);
                        proof {
                            assert(upsert_event(m0.events, nwv) =~= m0.events.update(i as int, nwv));
                        }
                    }
                }
            },
        }
    }
}

pub open spec fn bounded_event(w: WaitAcksView) -> bool {
    w.last_send_ms <= u64::MAX - TIMEOUT_MS
}

} // verus!

verus! {

pub open spec fn opt_event_view(r: Option<ServerMapEvent>) -> Option<ServerMapEventView> {
    match r {
        Some(e) => Some(e@),
        None => None,
    }
}

impl RemoteMap {
    /// Handles a command of the client `remote` and returns the reply owed to it; the changes
    /// it causes for the other subscribers are queued.
    pub fn on_client(&mut self, now: u64, remote: NodeSession, cmd: ClientMapCommand) -> (r: Option<ServerMapEvent>)
        requires
            old(self).wf(),
            now <= u64::MAX - TIMEOUT_MS,
        ensures
            final(self).wf(),
            (final(self)@, opt_event_view(r)) == on_client_spec(old(self)@, now, remote, cmd@),
    {
        let ghost m0 = self@;
        match cmd {
            ClientMapCommand::SetValue(key, version, data) => {
                let ghost d = data@;
                match self.find_slot(key, remote) {
                    Some(i) => {
                        proof {
                            assert(slot_matches(m0.slots[i as int], key, remote));
                            assert(self.slots@[i as int].slot@ is Some);
                        }
                        let accepted = match &self.slots[i].slot {
                            MapSlot::Stored { version: cur, .. } => cur.0 < version.0,
                            MapSlot::Unspecific => true,
                        };
                        if !accepted {
                            return None;
                        }
                        let mut slot = MapSlot::new();
                        let ok = slot.set(now, version, copy_bytes(&data));
                        assert(ok);
                        self.slots.set(i, SlotEntry { key, source: remote, slot });
                        proof {
                            let s = self@.slots;
                            assert(s =~= m0.slots.update(i as int, SlotEntryView { key, source: remote, value: SlotValue { version, data: d, live_at: now } }));
                            assert forall|a: int, b: int| #![trigger s[a], s[b]] 0 <= a < s.len() && 0 <= b < s.len() && a != b implies !slot_matches(s[a], s[b].key, s[b].source) by {
                                assert(!slot_matches(m0.slots[a], m0.slots[b].key, m0.slots[b].source));
                            }
                            assert forall|k: int| 0 <= k < self.slots@.len() implies (#[trigger] self.slots@[k]).slot@ is Some by {
                                if k != i {
                                    assert(self.slots@[k] == old(self).slots@[k]);
                                }
                            }
                        }
                    },
                    None => {
                        let mut slot = MapSlot::new();
                        slot.set(now, version, copy_bytes(&data));
                        self.slots.push(SlotEntry { key, source: remote, slot });
                        proof {
                            let s = self@.slots;
                            assert(s =~= m0.slots.push(SlotEntryView { key, source: remote, value: SlotValue { version, data: d, live_at: now } }));
                            assert forall|a: int, b: int| #![trigger s[a], s[b]] 0 <= a < s.len() && 0 <= b < s.len() && a != b implies !slot_matches(s[a], s[b].key, s[b].source) by {
                                if a == m0.slots.len() {
                                    assert(!slot_matches(m0.slots[b], key, remote));
                                } else if b == m0.slots.len() {
                                    assert(!slot_matches(m0.slots[a], key, remote));
                                } else {
                                    assert(!slot_matches(m0.slots[a], m0.slots[b].key, m0.slots[b].source));
                                }
                            }
                            assert forall|k: int| 0 <= k < self.slots@.len() implies (#[trigger] self.slots@[k]).slot@ is Some by {
                                if k < m0.slots.len() {
                                    assert(self.slots@[k] == old(self).slots@[k]);
                                }
                            }
                        }
                    },
                }
                self.fire_event(now, key, remote, ServerMapEvent::OnSet { key, version, source: remote, data });
                Some(ServerMapEvent::SetOk(key, version))
            },
            ClientMapCommand::Del(key, req_version) => {
                let i = match self.find_slot(key, remote) {
                    Some(i) => i,
                    None => {
                        return None;
                    },
                };
                proof {
                    assert(slot_matches(m0.slots[i as int], key, remote));
                    assert(self.slots@[i as int].slot@ is Some);
                }
                let current = match &self.slots[i].slot {
                    MapSlot::Stored { version: cur, .. } => *cur,
                    MapSlot::Unspecific => Version(0),
                };
                if req_version.0 < current.0 {
                    return None;
                }
                let mut entry = self.slots.remove(i);
                let deleted = entry.slot.del(now, req_version);
                proof {
                    lemma_remove_unique_slots(m0.slots, i as int);
                    assert(self@.slots =~= m0.slots.remove(i as int));
                    assert(deleted == Some(current));
                }
                self.fire_event(now, key, remote, ServerMapEvent::OnDel { key, version: current, source: remote });
                Some(ServerMapEvent::DelOk(key, current))
            },
            ClientMapCommand::Sub(id, locked_session) => {
                let existed = match self.find_sub(remote) {
                    Some(j) => {
                        self.subs.set(j, SubSlot { node: remote, id, last_ts: now });
                        true
                    },
                    None => {
                        self.subs.push(SubSlot { node: remote, id, last_ts: now });
                        false
                    },
                };
                proof {
                    lemma_upsert_sub(m0.subs, SubView { node: remote, id, last_ts: now });
                    assert(self@.subs =~= upsert_sub(m0.subs, SubView { node: remote, id, last_ts: now }));
                    assert forall|k: int| 0 <= k < self@.subs.len() implies #[trigger] self@.subs[k].last_ts <= u64::MAX - TIMEOUT_MS by {
                        if self@.subs[k] != (SubView { node: remote, id, last_ts: now }) {
                            let j = choose|j: int| 0 <= j < m0.subs.len() && m0.subs[j] == self@.subs[k];
                            assert(m0.subs[j].last_ts <= u64::MAX - TIMEOUT_MS);
                        }
                    }
                }
                let relocked = match locked_session {
                    Some(s) => s != self.session,
                    None => true,
                };
                if !existed || relocked {
                    self.fire_sub_events(now, remote);
                }
                Some(ServerMapEvent::SubOk(id))
            },
            ClientMapCommand::Unsub(id) => {
                let j = match self.find_sub(remote) {
                    Some(j) => j,
                    None => {
                        return None;
                    },
                };
                if self.subs[j].id == id {
                    self.subs.remove(j);
                    proof {
                        lemma_remove_unique_subs(m0.subs, j as int);
                        assert(self@.subs =~= m0.subs.remove(j as int));
                    }
                    Some(ServerMapEvent::UnsubOk(id))
                } else {
                    None
                }
            },
            ClientMapCommand::OnSetAck(key, session, acked_version) => {
                self.on_ack(remote, key, session, acked_version, true);
                None
            },
            ClientMapCommand::OnDelAck(key, session, acked_version) => {
                self.on_ack(remote, key, session, acked_version, false);
                None
            },
        }
    }
}

} // verus!

verus! {

impl RemoteMap {
    /// Drops the subscribers not heard from within the timeout, drops the changes that waited
    /// longer than the timeout and resends those not acknowledged within the resend time.
    pub fn on_tick(&mut self, now: u64)
        requires
            old(self).wf(),
            now <= u64::MAX - TIMEOUT_MS,
        ensures
            final(self).wf(),
            final(self)@ == on_tick_spec(old(self)@, now),
    {
        let ghost m0 = self@;
        let mut subs: Vec<SubSlot> = Vec::new();
        let mut i: usize = 0;
        while i < self.subs.len()
            invariant
                self@ == m0,
                self.wf(),
                i <= self.subs@.len(),
                subs@.map_values(|e: SubSlot| e.view()) == live_subs(m0.subs.take(i as int), now),
            decreases self.subs@.len() - i,
        {
            proof {
                assert(m0.subs.take(i + 1).drop_last() =~= m0.subs.take(i as int));
                assert(m0.subs.take(i + 1).last() == m0.subs[i as int]);
                assert(m0.subs[i as int].last_ts <= u64::MAX - TIMEOUT_MS);
            }
            if now < self.subs[i].last_ts + TIMEOUT_MS {
                let ghost before = subs@;
                subs.push(SubSlot { node: self.subs[i].node, id: self.subs[i].id, last_ts: self.subs[i].last_ts });
                proof {
                    assert(subs@.map_values(|e: SubSlot| e.view()) =~= before.map_values(|e: SubSlot| e.view()).push(m0.subs[i as int]));
                }
            }
            i = i + 1;
        }
        proof {
            assert(m0.subs.take(i as int) =~= m0.subs);
        }
        self.subs = subs;

        let mut events: Vec<WaitAcksEvent> = Vec::new();
        let mut i: usize = 0;
        while i < self.slots_event.len()
            invariant
                self.slots_event@.map_values(|e: WaitAcksEvent| e.view()) == m0.events,
                times_bounded(m0),
                now <= u64::MAX - TIMEOUT_MS,
                i <= self.slots_event@.len(),
                self@.session == m0.session,
                self@.slots == m0.slots,
                self@.subs == live_subs(m0.subs, now),
                forall|k: int| 0 <= k < self.slots@.len() ==> (#[trigger] self.slots@[k]).slot@ is Some,
                events@.map_values(|e: WaitAcksEvent| e.view()) == tick_events(m0.events.take(i as int), now).0,
                self@.queue == m0.queue + tick_events(m0.events.take(i as int), now).1,
            decreases self.slots_event@.len() - i,
        {
            proof {
                assert(m0.events.take(i + 1).drop_last() =~= m0.events.take(i as int));
                assert(m0.events.take(i + 1).last() == m0.events[i as int]);
                assert(m0.events[i as int].last_send_ms <= u64::MAX - TIMEOUT_MS);
            }
            let last_send = self.slots_event[i].last_send_ms;
            if now >= TIMEOUT_MS + last_send {
            } else if now >= RESEND_MS + last_send {
                let ghost q0 = self@.queue;
                let ghost w = m0.events[i as int];
                let n = self.slots_event[i].remotes.len();
                let mut j: usize = 0;
                while j < n
                    invariant
                        self.slots_event@.map_values(|e: WaitAcksEvent| e.view()) == m0.events,
                        i < self.slots_event@.len(),
                        w == m0.events[i as int],
                        n == w.remotes.len(),
                        j <= n,
                        self@.queue == q0 + addressed(w.remotes.take(j as int), w.event),
                        self@.session == m0.session,
                        self@.slots == m0.slots,
                        self@.subs == live_subs(m0.subs, now),
                        forall|k: int| 0 <= k < self.slots@.len() ==> (#[trigger] self.slots@[k]).slot@ is Some,
                    decreases n - j,
                {
                    let r = self.slots_event[i].remotes[j];
                    let e = self.slots_event[i].event.clone();
                    let ghost q = self.queue@;
                    self.queue.push_back((r, e));
                    proof {
                        lemma_queue_push(q, (r, e));
                        assert(w.remotes.take(j + 1) =~= w.remotes.take(j as int).push(r));
                        lemma_addressed_push(w.remotes.take(j as int), r, w.event);
                        assert(self@.queue =~= q0 + addressed(w.remotes.take(j + 1), w.event));
                    }
                    j = j + 1;
                }
                proof {
                    assert(w.remotes.take(j as int) =~= w.remotes);
                    assert(self@.queue =~= m0.queue + tick_events(m0.events.take(i + 1), now).1);
                }
                let new_last = if n > 0 { now } else { last_send };
                let ghost before = events@;
                events.push(WaitAcksEvent {
                    key: self.slots_event[i].key,
                    source: self.slots_event[i].source,
                    event: self.slots_event[i].event.clone(),
                    remotes: copy_sessions(&self.slots_event[i].remotes),
                    last_send_ms: new_last,
                });
                proof {
                    assert(events@.map_values(|e: WaitAcksEvent| e.view()) =~= before.map_values(|e: WaitAcksEvent| e.view()).push(
                        WaitAcksView { last_send_ms: new_last, ..w },
                    ));
                }
            } else {
                let ghost before = events@;
                events.push(WaitAcksEvent {
                    key: self.slots_event[i].key,
                    source: self.slots_event[i].source,
                    event: self.slots_event[i].event.clone(),
                    remotes: copy_sessions(&self.slots_event[i].remotes),
                    last_send_ms: last_send,
                });
                proof {
                    assert(events@.map_values(|e: WaitAcksEvent| e.view()) =~= before.map_values(|e: WaitAcksEvent| e.view()).push(
                        m0.events[i as int],
                    ));
                    assert(m0.queue + tick_events(m0.events.take(i + 1), now).1 == self@.queue);
                }
            }
            i = i + 1;
        }
        proof {
            assert(m0.events.take(i as int) =~= m0.events);
        }
        self.slots_event = events;
        proof {
            lemma_live_subs(m0.subs, now);
            lemma_tick_events(m0.events, now);
            let s = self@.subs;
            assert forall|k: int| 0 <= k < s.len() implies #[trigger] s[k].last_ts <= u64::MAX - TIMEOUT_MS by {
                let j = choose|j: int| 0 <= j < m0.subs.len() && m0.subs[j] == live_subs(m0.subs, now)[k];
                assert(m0.subs[j].last_ts <= u64::MAX - TIMEOUT_MS);
            }
            let e = self@.events;
            assert forall|k: int| 0 <= k < e.len() implies #[trigger] e[k].last_send_ms <= u64::MAX - TIMEOUT_MS by {
                let j = choose|j: int|
                    0 <= j < m0.events.len() && #[trigger] event_matches(m0.events[j], e[k].key, e[k].source) && (e[k].last_send_ms
                        == m0.events[j].last_send_ms || e[k].last_send_ms == now);
                assert(m0.events[j].last_send_ms <= u64::MAX - TIMEOUT_MS);
            }
            assert(self@ == on_tick_spec(m0, now));
        }
    }
}

} // verus!

verus! {

// ---- laws ---------------------------------------------------------------------------------------

/// A value that a source writes with a version newer than the one it wrote before is stored
/// and acknowledged; a write that is not newer changes nothing and is not acknowledged.
pub proof fn law_set_then_stored(m: RemoteMapView, now: u64, remote: NodeSession, key: Key, version: Version, data: Seq<u8>)
    requires
        slots_unique(m.slots),
    ensures
        ({
            let (m2, r) = on_client_spec(m, now, remote, ClientMapCommandView::SetValue(key, version, data));
            if accepts_set(slot_of(m.slots, key, remote), version) {
                &&& slot_of(m2.slots, key, remote) == Some(SlotValue { version, data, live_at: now })
                &&& r == Some(ServerMapEventView::SetOk(key, version))
            } else {
                m2 == m && r is None
            }
        }),
{
    let (m2, r) = on_client_spec(m, now, remote, ClientMapCommandView::SetValue(key, version, data));
    if accepts_set(slot_of(m.slots, key, remote), version) {
        let entry = SlotEntryView { key, source: remote, value: SlotValue { version, data, live_at: now } };
        let slots = m2.slots;
        if has_slot(m.slots, key, remote) {
            let i = slot_index(m.slots, key, remote);
            assert(slot_matches(slots[i], key, remote));
            let j = slot_index(slots, key, remote);
            assert(slot_matches(slots[j], key, remote));
            if j != i {
                assert(slot_matches(m.slots[j], key, remote));
                assert(!slot_matches(m.slots[j], m.slots[i].key, m.slots[i].source));
            }
        } else {
            let i = m.slots.len() as int;
            assert(slot_matches(slots[i], key, remote));
            let j = slot_index(slots, key, remote);
            assert(slot_matches(slots[j], key, remote));
            if j != i {
                assert(slot_matches(m.slots[j], key, remote));
            }
        }
    }
}

/// A delete from the source of a value, carrying a version not older than the stored one,
/// removes the value and is acknowledged with the deleted version.
pub proof fn law_del_removes(m: RemoteMapView, now: u64, remote: NodeSession, key: Key, version: Version)
    requires
        slots_unique(m.slots),
        accepts_del(slot_of(m.slots, key, remote), version),
    ensures
        ({
            let (m2, r) = on_client_spec(m, now, remote, ClientMapCommandView::Del(key, version));
            &&& slot_of(m2.slots, key, remote) is None
            &&& r == Some(ServerMapEventView::DelOk(key, slot_of(m.slots, key, remote).unwrap().version))
        }),
{
    let (m2, r) = on_client_spec(m, now, remote, ClientMapCommandView::Del(key, version));
    let i = slot_index(m.slots, key, remote);
    assert(slot_matches(m.slots[i], key, remote));
    if has_slot(m2.slots, key, remote) {
        let j = slot_index(m2.slots, key, remote);
        assert(slot_matches(m2.slots[j], key, remote));
        let j2 = if j < i { j } else { j + 1 };
        assert(m2.slots[j] == m.slots[j2]);
        assert(!slot_matches(m.slots[j2], m.slots[i].key, m.slots[i].source));
    }
}

proof fn lemma_fanout_excludes(subs: Seq<SubView>, source: NodeSession)
    ensures
        forall|k: int| 0 <= k < fanout(subs, source).len() ==> #[trigger] fanout(subs, source)[k] != source,
    decreases subs.len(),
{
    if subs.len() > 0 {
        lemma_fanout_excludes(subs.drop_last(), source);
        let rest = fanout(subs.drop_last(), source);
        let f = fanout(subs, source);
        assert forall|k: int| 0 <= k < f.len() implies #[trigger] f[k] != source by {
            if k < rest.len() {
                assert(f[k] == rest[k]);
            }
        }
    }
}

proof fn lemma_addressed(remotes: Seq<NodeSession>, ev: ServerMapEventView)
    ensures
        addressed(remotes, ev).len() == remotes.len(),
        forall|k: int| 0 <= k < remotes.len() ==> #[trigger] addressed(remotes, ev)[k] == (remotes[k], ev),
    decreases remotes.len(),
{
    if remotes.len() > 0 {
        lemma_addressed(remotes.drop_last(), ev);
    }
}

/// A change written by a source is forwarded to the other subscribers only, never back to
/// the source itself.
pub proof fn law_changes_not_sent_to_source(m: RemoteMapView, now: u64, remote: NodeSession, cmd: ClientMapCommandView)
    requires
        cmd is SetValue || cmd is Del,
    ensures
        ({
            let m2 = on_client_spec(m, now, remote, cmd).0;
            &&& m2.queue.len() >= m.queue.len()
            &&& m2.queue.subrange(0, m.queue.len() as int) == m.queue
            &&& forall|k: int| m.queue.len() <= k < m2.queue.len() ==> (#[trigger] m2.queue[k]).0 != remote
        }),
{
    let m2 = on_client_spec(m, now, remote, cmd).0;
    let (key, ev) = match cmd {
        ClientMapCommandView::SetValue(key, version, data) => (key, ServerMapEventView::OnSet { key, source: remote, version, data }),
        ClientMapCommandView::Del(key, _) => (key, ServerMapEventView::OnDel { key, source: remote, version: slot_of(m.slots, key, remote).unwrap().version }),
        _ => (Key(0), ServerMapEventView::SubOk(0)),
    };
    lemma_fanout_excludes(m.subs, remote);
    lemma_addressed(fanout(m.subs, remote), ev);
    if m2.queue != m.queue {
        assert(m2.queue == m.queue + addressed(fanout(m.subs, remote), ev));
        assert(m2.queue.subrange(0, m.queue.len() as int) =~= m.queue);
        assert forall|k: int| m.queue.len() <= k < m2.queue.len() implies (#[trigger] m2.queue[k]).0 != remote by {
            assert(m2.queue[k] == addressed(fanout(m.subs, remote), ev)[k - m.queue.len()]);
        }
    } else {
        assert(m2.queue.subrange(0, m.queue.len() as int) =~= m.queue);
    }
}

/// Every message that replaying `slots` to `remote` adds is addressed to `remote` and carries
/// a value written by another source.
proof fn lemma_sub_events_others(events: Seq<WaitAcksView>, queue: Seq<(NodeSession, ServerMapEventView)>, slots: Seq<SlotEntryView>, now: u64, remote: NodeSession)
    ensures
        ({
            let q2 = sub_events(events, queue, slots, now, remote).1;
            &&& q2.len() >= queue.len()
            &&& q2.subrange(0, queue.len() as int) == queue
            &&& forall|k: int|
                queue.len() <= k < q2.len() ==> (#[trigger] q2[k]).0 == remote && (q2[k].1 matches ServerMapEventView::OnSet { source, .. } && source
                    != remote)
        }),
    decreases slots.len(),
{
    if slots.len() > 0 {
        lemma_sub_events_others(events, queue, slots.drop_last(), now, remote);
        let q1 = sub_events(events, queue, slots.drop_last(), now, remote).1;
        let q2 = sub_events(events, queue, slots, now, remote).1;
        if slots.last().source != remote {
            assert(q2 == q1.push((remote, slot_event(slots.last()))));
            assert(q2.subrange(0, queue.len() as int) =~= q1.subrange(0, queue.len() as int));
            assert forall|k: int| queue.len() <= k < q2.len() implies (#[trigger] q2[k]).0 == remote && (q2[k].1 matches ServerMapEventView::OnSet {
                source,
                ..
            } && source != remote) by {
                if k < q1.len() {
                    assert(q2[k] == q1[k]);
                }
            }
        }
    } else {
        assert(queue.subrange(0, queue.len() as int) =~= queue);
    }
}

/// A subscription replays to the new subscriber the values written by others only: every
/// message it queues goes to the subscriber and carries a value whose source is another node.
pub proof fn law_replay_excludes_own_writes(m: RemoteMapView, now: u64, remote: NodeSession, id: u64, locked: Option<NodeSession>)
    ensures
        ({
            let m2 = on_client_spec(m, now, remote, ClientMapCommandView::Sub(id, locked)).0;
            &&& m2.queue.len() >= m.queue.len()
            &&& m2.queue.subrange(0, m.queue.len() as int) == m.queue
            &&& forall|k: int|
                m.queue.len() <= k < m2.queue.len() ==> (#[trigger] m2.queue[k]).0 == remote && (m2.queue[k].1 matches ServerMapEventView::OnSet {
                    source,
                    ..
                } && source != remote)
        }),
{
    lemma_sub_events_others(m.events, m.queue, m.slots, now, remote);
    assert(m.queue.subrange(0, m.queue.len() as int) =~= m.queue);
}

} // verus!
