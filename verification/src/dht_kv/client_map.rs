//! The client side of a DHT map: the values that this node writes, the values that it
//! learned from the storing node, and its subscription to the map.

use std::collections::VecDeque;
use vstd::prelude::*;

use super::msg::{bytes_of, copy_bytes, ClientMapCommand, ClientMapCommandView, Key, MapControl, MapControlView, MapEvent, MapEventView, NodeSession, ServerMapEvent, ServerMapEventView, Version};
use crate::types::{contains_actor, FeatureControlActor};

verus! {

/// A write or delete is resent when it has not been acknowledged within this time.
pub const RESEND_MS: u64 = 200;
/// The current state of a local value is sent again after this time, to avoid drifting apart.
pub const SYNC_MS: u64 = 1500;
/// An unsubscription that is not acknowledged within this time is given up.
pub const UNSUB_TIMEOUT_MS: u64 = 10000;

/// The state of one sub-key of a map, as seen by a client.
#[derive(Debug)]
pub enum MapSlot {
    Unspecific { key: Key },
    Remote { key: Key, version: Version, value: Option<Vec<u8>> },
    Local { key: Key, value: Option<Vec<u8>>, version: Version, syncing: bool, last_sync: u64 },
}

/// Mathematical form of [`MapSlot`].
pub enum SlotView {
    Unspecific { key: Key },
    Remote { key: Key, version: Version, value: Option<Seq<u8>> },
    Local { key: Key, value: Option<Seq<u8>>, version: Version, syncing: bool, last_sync: u64 },
}

pub open spec fn opt_bytes(v: Option<Vec<u8>>) -> Option<Seq<u8>> {
    match v {
        Some(d) => Some(d@),
        None => None,
    }
}

impl View for MapSlot {
    type V = SlotView;

    open spec fn view(&self) -> SlotView {
        match self {
            MapSlot::Unspecific { key } => SlotView::Unspecific { key: *key },
            MapSlot::Remote { key, version, value } => SlotView::Remote { key: *key, version: *version, value: opt_bytes(*value) },
            MapSlot::Local { key, value, version, syncing, last_sync } => SlotView::Local {
                key: *key,
                value: opt_bytes(*value),
                version: *version,
                syncing: *syncing,
                last_sync: *last_sync,
            },
        }
    }
}

impl SlotView {
    pub open spec fn key(self) -> Key {
        match self {
            SlotView::Unspecific { key } => key,
            SlotView::Remote { key, .. } => key,
            SlotView::Local { key, .. } => key,
        }
    }

    /// The value the slot holds, if any.
    pub open spec fn data(self) -> Option<Seq<u8>> {
        match self {
            SlotView::Unspecific { .. } => None,
            SlotView::Remote { value, .. } => value,
            SlotView::Local { value, .. } => value,
        }
    }

    /// Timestamps leave room for the longest delay to be added to them.
    pub open spec fn time_bounded(self) -> bool {
        match self {
            SlotView::Local { last_sync, .. } => last_sync <= u64::MAX - UNSUB_TIMEOUT_MS,
            _ => true,
        }
    }

    /// A local write: the slot becomes local with `data`, versioned by the current time.
    pub open spec fn set(self, now: u64, data: Seq<u8>) -> (SlotView, ClientMapCommandView) {
        (
            SlotView::Local { key: self.key(), value: Some(data), version: Version(now), syncing: true, last_sync: now },
            ClientMapCommandView::SetValue(self.key(), Version(now), data),
        )
    }

    /// A local delete: only a local value can be deleted.
    pub open spec fn del(self, now: u64) -> (SlotView, Option<ClientMapCommandView>) {
        match self {
            SlotView::Local { key, version, .. } => (
                SlotView::Local { key, value: None, version, syncing: true, last_sync: now },
                Some(ClientMapCommandView::Del(key, version)),
            ),
            _ => (self, None),
        }
    }

    /// Whether a local slot is due to be sent again.
    pub open spec fn sync_due(self, now: u64, force: bool) -> bool {
        match self {
            SlotView::Local { syncing, last_sync, .. } => (syncing && now >= last_sync + RESEND_MS) || now >= last_sync + SYNC_MS || force,
            _ => false,
        }
    }

    /// Resends the current state of a local slot when it is due.
    pub open spec fn sync(self, now: u64, force: bool) -> (SlotView, Option<ClientMapCommandView>) {
        match self {
            SlotView::Local { key, value, version, syncing, last_sync } => {
                if self.sync_due(now, force) {
                    (
                        SlotView::Local { key, value, version, syncing, last_sync: now },
                        Some(
                            match value {
                                Some(d) => ClientMapCommandView::SetValue(key, version, d),
                                None => ClientMapCommandView::Del(key, version),
                            },
                        ),
                    )
                } else {
                    (self, None)
                }
            },
            _ => (self, None),
        }
    }

    /// The write of `version` was acknowledged.
    pub open spec fn set_ok(self, version: Version) -> SlotView {
        match self {
            SlotView::Local { key, value, version: v, syncing, last_sync } => {
                if v == version && value is Some {
                    SlotView::Local { key, value, version: v, syncing: false, last_sync }
                } else {
                    self
                }
            },
            _ => self,
        }
    }

    /// The delete of `version` was acknowledged.
    pub open spec fn del_ok(self, version: Version) -> SlotView {
        match self {
            SlotView::Local { key, value, version: v, syncing, last_sync } => {
                if v == version && value is None {
                    SlotView::Local { key, value, version: v, syncing: false, last_sync }
                } else {
                    self
                }
            },
            _ => self,
        }
    }

    /// A value written by another node: a newer version replaces the slot, the same version is
    /// only acknowledged, an older one or a local slot is ignored.
    pub open spec fn on_set(self, key: Key, source: NodeSession, version: Version, data: Seq<u8>) -> (SlotView, Option<(ClientMapCommandView, bool)>) {
        match self {
            SlotView::Unspecific { .. } => (
                SlotView::Remote { key, version, value: Some(data) },
                Some((ClientMapCommandView::OnSetAck(key, source, version), true)),
            ),
            SlotView::Remote { version: old_version, .. } => {
                if old_version.0 < version.0 {
                    (SlotView::Remote { key, version, value: Some(data) }, Some((ClientMapCommandView::OnSetAck(key, source, version), true)))
                } else if old_version.0 == version.0 {
                    (self, Some((ClientMapCommandView::OnSetAck(key, source, version), false)))
                } else {
                    (self, None)
                }
            },
            _ => (self, None),
        }
    }

    /// A delete by another node of a remote value whose version is not newer than the delete's.
    pub open spec fn on_del(self, key: Key, source: NodeSession, version: Version) -> (SlotView, Option<ClientMapCommandView>) {
        match self {
            SlotView::Remote { version: old_version, .. } => {
                if old_version.0 <= version.0 {
                    (SlotView::Unspecific { key }, Some(ClientMapCommandView::OnDelAck(key, source, version)))
                } else {
                    (self, None)
                }
            },
            _ => (self, None),
        }
    }

    /// A slot with nothing to keep or to send can be dropped.
    pub open spec fn should_cleanup(self) -> bool {
        match self {
            SlotView::Unspecific { .. } => true,
            SlotView::Remote { value, .. } => value is None,
            SlotView::Local { value, syncing, .. } => value is None && !syncing,
        }
    }
}

pub open spec fn opt_cmd_view(c: Option<ClientMapCommand>) -> Option<ClientMapCommandView> {
    match c {
        Some(c) => Some(c@),
        None => None,
    }
}

impl MapSlot {
    pub fn new(key: Key) -> (s: Self)
        ensures
            s@ == (SlotView::Unspecific { key }),
    {
        MapSlot::Unspecific { key }
    }

    /// The value the slot holds, if any.
    pub fn data(&self) -> (r: Option<&[u8]>)
        ensures
            match r {
                Some(d) => self@.data() == Some(d@),
                None => self@.data() is None,
            },
    {
        match self {
            MapSlot::Unspecific { .. } => None,
            MapSlot::Remote { value, .. } => match value {
                Some(v) => Some(v.as_slice()),
                None => None,
            },
            MapSlot::Local { value, .. } => match value {
                Some(v) => Some(v.as_slice()),
                None => None,
            },
        }
    }

    /// Writes a local value, which overrides any value of the slot even when not yet synced or
    /// learned from another node.
    pub fn set(&mut self, now: u64, new_data: Vec<u8>) -> (r: Option<ClientMapCommand>)
        ensures
            (final(self)@, opt_cmd_view(r)) == (old(self)@.set(now, new_data@).0, Some(old(self)@.set(now, new_data@).1)),
    {
        let key = match self {
            MapSlot::Unspecific { key } => *key,
            MapSlot::Remote { key, .. } => *key,
            MapSlot::Local { key, .. } => *key,
        };
        let version = Version(now);
        *self = MapSlot::Local { key, value: Some(copy_bytes(&new_data)), version, syncing: true, last_sync: now };
        Some(ClientMapCommand::SetValue(key, version, new_data))
    }

    /// Deletes a local value; a value of another node cannot be deleted here.
    pub fn del(&mut self, now: u64) -> (r: Option<ClientMapCommand>)
        ensures
            (final(self)@, opt_cmd_view(r)) == old(self)@.del(now),
    {
        match self {
            MapSlot::Unspecific { .. } | MapSlot::Remote { .. } => None,
            MapSlot::Local { key, value, version, syncing, last_sync } => {
                *value = None;
                *syncing = true;
                *last_sync = now;
                Some(ClientMapCommand::Del(*key, *version))
            },
        }
    }

    /// Resends the last command of a local slot that was not acknowledged within the resend
    /// time, and the current state of any local slot after the sync time.
    pub fn sync(&mut self, now: u64, force: bool) -> (r: Option<ClientMapCommand>)
        requires
            old(self)@.time_bounded(),
        ensures
            (final(self)@, opt_cmd_view(r)) == old(self)@.sync(now, force),
    {
        match self {
            MapSlot::Unspecific { .. } | MapSlot::Remote { .. } => None,
            MapSlot::Local { key, value, version, syncing, last_sync } => {
                if (*syncing && now >= *last_sync + RESEND_MS) || now >= *last_sync + SYNC_MS || force {
                    *last_sync = now;
                    match value {
                        Some(value) => Some(ClientMapCommand::SetValue(*key, *version, copy_bytes(value))),
                        None => Some(ClientMapCommand::Del(*key, *version)),
                    }
                } else {
                    None
                }
            },
        }
    }

    pub fn set_ok(&mut self, version: Version)
        ensures
            final(self)@ == old(self)@.set_ok(version),
    {
        match self {
            MapSlot::Unspecific { .. } | MapSlot::Remote { .. } => {},
            MapSlot::Local { version: slot_version, syncing, value, .. } => {
                if *slot_version == version && value.is_some() {
                    *syncing = false;
                }
            },
        }
    }

    pub fn del_ok(&mut self, version: Version)
        ensures
            final(self)@ == old(self)@.del_ok(version),
    {
        match self {
            MapSlot::Unspecific { .. } | MapSlot::Remote { .. } => {},
            MapSlot::Local { version: slot_version, syncing, value, .. } => {
                if *slot_version == version && value.is_none() {
                    *syncing = false;
                }
            },
        }
    }

    /// Takes a value written by another node; the acknowledgement is owed also for a value
    /// already held, so that the storing node stops resending it. The flag tells whether the
    /// slot changed.
    pub fn on_set(&mut self, _now: u64, key: Key, source: NodeSession, version: Version, data: Vec<u8>) -> (r: Option<(ClientMapCommand, bool)>)
        ensures
            final(self)@ == old(self)@.on_set(key, source, version, data@).0,
            match (r, old(self)@.on_set(key, source, version, data@).1) {
                (Some((c, u)), Some((cv, uv))) => c@ == cv && u == uv,
                (None, None) => true,
                _ => false,
            },
    {
        match self {
            MapSlot::Unspecific { .. } => {
                *self = MapSlot::Remote { key, version, value: Some(data) };
                Some((ClientMapCommand::OnSetAck(key, source, version), true))
            },
            MapSlot::Remote { version: old_version, .. } => {
                if old_version.0 < version.0 {
                    *self = MapSlot::Remote { key, version, value: Some(data) };
                    Some((ClientMapCommand::OnSetAck(key, source, version), true))
                } else if old_version.0 == version.0 {
                    Some((ClientMapCommand::OnSetAck(key, source, version), false))
                } else {
                    None
                }
            },
            _ => None,
        }
    }

    /// Takes a delete by another node.
    pub fn on_del(&mut self, _now: u64, key: Key, source: NodeSession, version: Version) -> (r: Option<ClientMapCommand>)
        ensures
            (final(self)@, opt_cmd_view(r)) == old(self)@.on_del(key, source, version),
    {
        match self {
            MapSlot::Remote { version: old_version, .. } => {
                if old_version.0 <= version.0 {
                    *self = MapSlot::Unspecific { key };
                    Some(ClientMapCommand::OnDelAck(key, source, version))
                } else {
                    None
                }
            },
            _ => None,
        }
    }

    pub fn should_cleanup(&self) -> (r: bool)
        ensures
            r == self@.should_cleanup(),
    {
        match self {
            MapSlot::Unspecific { .. } => true,
            MapSlot::Remote { value, .. } => value.is_none(),
            MapSlot::Local { value, syncing, .. } => value.is_none() && !*syncing,
        }
    }
}

} // verus!

verus! {

/// The subscription of this node to the map at the storing node.
#[allow(inconsistent_fields)]
#[derive(Debug, Clone, Copy, PartialEq, Eq, Structural)]
pub enum SubState {
    NotSub,
    Subscribing { id: u64, sent_ts: u64 },
    Subscribed { id: u64, remote: NodeSession, sync_ts: u64 },
    Unsubscribing { id: u64, started_at: u64, remote: Option<NodeSession>, sent_ts: u64 },
}

/// What a map hands out: a command for the storing node, or an event for a local subscriber.
#[derive(Debug, PartialEq, Eq)]
pub enum LocalMapOutput {
    Remote(ClientMapCommand),
    Local(FeatureControlActor, MapEvent),
}

/// Mathematical form of [`LocalMapOutput`].
pub enum LocalMapOutputView {
    Remote(ClientMapCommandView),
    Local(FeatureControlActor, MapEventView),
}

impl View for LocalMapOutput {
    type V = LocalMapOutputView;

    open spec fn view(&self) -> LocalMapOutputView {
        match self {
            LocalMapOutput::Remote(c) => LocalMapOutputView::Remote(c@),
            LocalMapOutput::Local(a, e) => LocalMapOutputView::Local(*a, e@),
        }
    }
}

/// A slot of the map: the state of `key` as written by `source`.
pub struct ClientEntryView {
    pub key: Key,
    pub source: NodeSession,
    pub slot: SlotView,
}

/// Mathematical state of a [`LocalMap`]: slots in creation order, subscribers in
/// subscription order, and the outputs not yet handed out, oldest first.
pub struct LocalMapView {
    pub session: NodeSession,
    pub slots: Seq<ClientEntryView>,
    pub subscribers: Seq<FeatureControlActor>,
    pub sub_state: SubState,
    pub queue: Seq<LocalMapOutputView>,
}

pub open spec fn entry_matches(e: ClientEntryView, key: Key, source: NodeSession) -> bool {
    e.key == key && e.source == source
}

pub open spec fn has_entry(s: Seq<ClientEntryView>, key: Key, source: NodeSession) -> bool {
    exists|i: int| 0 <= i < s.len() && #[trigger] entry_matches(s[i], key, source)
}

pub open spec fn entry_index(s: Seq<ClientEntryView>, key: Key, source: NodeSession) -> int {
    choose|i: int| 0 <= i < s.len() && #[trigger] entry_matches(s[i], key, source)
}

pub open spec fn entries_unique(s: Seq<ClientEntryView>) -> bool {
    forall|i: int, j: int|
        #![trigger s[i], s[j]]
        0 <= i < s.len() && 0 <= j < s.len() && i != j ==> !entry_matches(s[i], s[j].key, s[j].source)
}

/// The slots with an (empty) slot for `key` by `source` added where none exists.
pub open spec fn ensure_entry(s: Seq<ClientEntryView>, key: Key, source: NodeSession) -> Seq<ClientEntryView> {
    if has_entry(s, key, source) {
        s
    } else {
        s.push(ClientEntryView { key, source, slot: SlotView::Unspecific { key } })
    }
}

/// The slots with the slot of `key` by `source` (which must exist) replaced by `slot`.
pub open spec fn update_entry(s: Seq<ClientEntryView>, key: Key, source: NodeSession, slot: SlotView) -> Seq<ClientEntryView> {
    s.update(entry_index(s, key, source), ClientEntryView { key, source, slot })
}

/// One event for each of `subs`, in order.
pub open spec fn to_all(subs: Seq<FeatureControlActor>, ev: MapEventView) -> Seq<LocalMapOutputView>
    decreases subs.len(),
{
    if subs.len() == 0 {
        Seq::empty()
    } else {
        to_all(subs.drop_last(), ev).push(LocalMapOutputView::Local(subs.last(), ev))
    }
}

pub open spec fn fire(m: LocalMapView, ev: MapEventView) -> LocalMapView {
    LocalMapView { queue: m.queue + to_all(m.subscribers, ev), ..m }
}

/// The values of `slots` reported to `actor`; with `only_local`, only those written by `session`.
pub open spec fn restored(slots: Seq<ClientEntryView>, actor: FeatureControlActor, session: NodeSession, only_local: bool) -> Seq<LocalMapOutputView>
    decreases slots.len(),
{
    if slots.len() == 0 {
        Seq::empty()
    } else {
        let rest = restored(slots.drop_last(), actor, session, only_local);
        let e = slots.last();
        if only_local && session != e.source {
            rest
        } else {
            match e.slot.data() {
                Some(d) => rest.push(LocalMapOutputView::Local(actor, MapEventView::OnSet(e.key, e.source.0, d))),
                None => rest,
            }
        }
    }
}

/// Every slot synced, with the commands that the syncing sends.
pub open spec fn sync_all(slots: Seq<ClientEntryView>, now: u64, force: bool) -> (Seq<ClientEntryView>, Seq<LocalMapOutputView>)
    decreases slots.len(),
{
    if slots.len() == 0 {
        (Seq::empty(), Seq::empty())
    } else {
        let (s, q) = sync_all(slots.drop_last(), now, force);
        let e = slots.last();
        let (slot, cmd) = e.slot.sync(now, force);
        (
            s.push(ClientEntryView { slot, ..e }),
            match cmd {
                Some(c) => q.push(LocalMapOutputView::Remote(c)),
                None => q,
            },
        )
    }
}

pub open spec fn sync_slots(m: LocalMapView, now: u64, force: bool) -> LocalMapView {
    let (slots, out) = sync_all(m.slots, now, force);
    LocalMapView { slots, queue: m.queue + out, ..m }
}

/// The slots that still hold something.
pub open spec fn kept(slots: Seq<ClientEntryView>) -> Seq<ClientEntryView>
    decreases slots.len(),
{
    if slots.len() == 0 {
        Seq::empty()
    } else if slots.last().slot.should_cleanup() {
        kept(slots.drop_last())
    } else {
        kept(slots.drop_last()).push(slots.last())
    }
}

/// Events from the storing node are taken only from the node this map is subscribed at.
pub open spec fn accepts_from(st: SubState, remote: NodeSession) -> bool {
    match st {
        SubState::Subscribed { remote: locked, .. } => locked == remote,
        _ => false,
    }
}

/// `s` without `a`.
pub open spec fn without_actor(s: Seq<FeatureControlActor>, a: FeatureControlActor) -> Seq<FeatureControlActor>
    decreases s.len(),
{
    if s.len() == 0 {
        Seq::empty()
    } else if s.last() == a {
        without_actor(s.drop_last(), a)
    } else {
        without_actor(s.drop_last(), a).push(s.last())
    }
}

/// What [`LocalMap::on_control`] does with a command of `actor`: the new state and the
/// command owed to the storing node.
pub open spec fn on_control_spec(m: LocalMapView, now: u64, actor: FeatureControlActor, control: MapControlView) -> (LocalMapView, Option<ClientMapCommandView>) {
    match control {
        MapControlView::SetValue(key, data) => {
            let slots0 = ensure_entry(m.slots, key, m.session);
            let (slot, cmd) = slots0[entry_index(slots0, key, m.session)].slot.set(now, data);
            let m1 = LocalMapView { slots: update_entry(slots0, key, m.session, slot), ..m };
            (fire(m1, MapEventView::OnSet(key, m.session.0, data)), Some(cmd))
        },
        MapControlView::Del(key) => {
            if !has_entry(m.slots, key, m.session) {
                (m, None)
            } else {
                let (slot, cmd) = m.slots[entry_index(m.slots, key, m.session)].slot.del(now);
                match cmd {
                    Some(c) => {
                        let m1 = LocalMapView { slots: update_entry(m.slots, key, m.session, slot), ..m };
                        (fire(m1, MapEventView::OnDel(key, m.session.0)), Some(c))
                    },
                    None => (m, None),
                }
            }
        },
        MapControlView::Sub => {
            if m.subscribers.contains(actor) {
                (m, None)
            } else if m.subscribers.len() == 0 {
                (
                    LocalMapView {
                        subscribers: m.subscribers.push(actor),
                        sub_state: SubState::Subscribing { id: now, sent_ts: now },
                        queue: m.queue + restored(m.slots, actor, m.session, true),
                        ..m
                    },
                    Some(ClientMapCommandView::Sub(now, None)),
                )
            } else {
                (
                    LocalMapView { subscribers: m.subscribers.push(actor), queue: m.queue + restored(m.slots, actor, m.session, false), ..m },
                    None,
                )
            }
        },
        MapControlView::Unsub => {
            if !m.subscribers.contains(actor) {
                (m, None)
            } else {
                let subscribers = without_actor(m.subscribers, actor);
                if subscribers.len() > 0 {
                    (LocalMapView { subscribers, ..m }, None)
                } else {
                    match m.sub_state {
                        SubState::Subscribed { id, remote, .. } => (
                            LocalMapView {
                                subscribers,
                                sub_state: SubState::Unsubscribing { id, remote: Some(remote), started_at: now, sent_ts: now },
                                ..m
                            },
                            Some(ClientMapCommandView::Unsub(id)),
                        ),
                        SubState::Subscribing { id, .. } => (
                            LocalMapView { subscribers, sub_state: SubState::Unsubscribing { id, remote: None, started_at: now, sent_ts: now }, ..m },
                            Some(ClientMapCommandView::Unsub(id)),
                        ),
                        _ => (LocalMapView { subscribers, ..m }, None),
                    }
                }
            }
        },
    }
}

/// What [`LocalMap::on_server`] does with an event from the storing node `remote`.
pub open spec fn on_server_spec(m: LocalMapView, now: u64, remote: NodeSession, ev: ServerMapEventView) -> (LocalMapView, Option<ClientMapCommandView>) {
    match ev {
        ServerMapEventView::SetOk(key, version) => {
            if has_entry(m.slots, key, m.session) {
                let slot = m.slots[entry_index(m.slots, key, m.session)].slot.set_ok(version);
                (LocalMapView { slots: update_entry(m.slots, key, m.session, slot), ..m }, None)
            } else {
                (m, None)
            }
        },
        ServerMapEventView::DelOk(key, version) => {
            if has_entry(m.slots, key, m.session) {
                let slot = m.slots[entry_index(m.slots, key, m.session)].slot.del_ok(version);
                (LocalMapView { slots: update_entry(m.slots, key, m.session, slot), ..m }, None)
            } else {
                (m, None)
            }
        },
        ServerMapEventView::SubOk(id) => {
            match m.sub_state {
                SubState::Subscribing { id: sub_id, .. } => {
                    if sub_id == id {
                        (fire(LocalMapView { sub_state: SubState::Subscribed { id, remote, sync_ts: now }, ..m }, MapEventView::OnRelaySelected(remote.0)), None)
                    } else {
                        (m, None)
                    }
                },
                SubState::Subscribed { id: sub_id, remote: locked, .. } => {
                    if sub_id == id {
                        let m1 = LocalMapView { sub_state: SubState::Subscribed { id: sub_id, remote, sync_ts: now }, ..m };
                        if locked.0 != remote.0 {
                            (fire(sync_slots(m1, now, true), MapEventView::OnRelaySelected(remote.0)), None)
                        } else {
                            (m1, None)
                        }
                    } else {
                        (m, None)
                    }
                },
                _ => (m, None),
            }
        },
        ServerMapEventView::UnsubOk(id) => {
            match m.sub_state {
                SubState::Unsubscribing { id: sub_id, remote: locked, .. } => {
                    let expected = match locked {
                        Some(l) => l,
                        None => remote,
                    };
                    if sub_id == id && expected == remote {
                        (LocalMapView { sub_state: SubState::NotSub, ..m }, None)
                    } else {
                        (m, None)
                    }
                },
                _ => (m, None),
            }
        },
        ServerMapEventView::OnSet { key, source, version, data } => {
            if !accepts_from(m.sub_state, remote) {
                (m, None)
            } else {
                let slots0 = ensure_entry(m.slots, key, source);
                let (slot, res) = slots0[entry_index(slots0, key, source)].slot.on_set(key, source, version, data);
                let m1 = LocalMapView { slots: update_entry(slots0, key, source, slot), ..m };
                match res {
                    Some((ack, updated)) => {
                        if updated {
                            (fire(m1, MapEventView::OnSet(key, source.0, data)), Some(ack))
                        } else {
                            (m1, Some(ack))
                        }
                    },
                    None => (m1, None),
                }
            }
        },
        ServerMapEventView::OnDel { key, source, version } => {
            if !accepts_from(m.sub_state, remote) {
                (m, None)
            } else {
                let slots0 = ensure_entry(m.slots, key, source);
                let (slot, res) = slots0[entry_index(slots0, key, source)].slot.on_del(key, source, version);
                let m1 = LocalMapView { slots: update_entry(slots0, key, source, slot), ..m };
                match res {
                    Some(ack) => (fire(m1, MapEventView::OnDel(key, source.0)), Some(ack)),
                    None => (m1, None),
                }
            }
        },
    }
}

/// The subscription after a tick, with the command it resends, if any.
pub open spec fn tick_sub(st: SubState, now: u64) -> (SubState, Option<ClientMapCommandView>) {
    match st {
        SubState::NotSub => (st, None),
        SubState::Subscribing { id, sent_ts } => {
            if now >= sent_ts + RESEND_MS {
                (SubState::Subscribing { id, sent_ts: now }, Some(ClientMapCommandView::Sub(id, None)))
            } else {
                (st, None)
            }
        },
        SubState::Subscribed { id, remote, sync_ts } => {
            if now >= sync_ts + SYNC_MS {
                (SubState::Subscribed { id, remote, sync_ts: now }, Some(ClientMapCommandView::Sub(id, Some(remote))))
            } else {
                (st, None)
            }
        },
        SubState::Unsubscribing { id, started_at, remote, sent_ts } => {
            if now >= started_at + UNSUB_TIMEOUT_MS {
                (SubState::NotSub, None)
            } else if now >= sent_ts + RESEND_MS {
                (SubState::Unsubscribing { id, started_at, remote, sent_ts: now }, Some(ClientMapCommandView::Unsub(id)))
            } else {
                (st, None)
            }
        },
    }
}

/// What [`LocalMap::on_tick`] does: resends the subscription state when due, syncs the local
/// slots and drops the slots that hold nothing.
pub open spec fn on_tick_spec(m: LocalMapView, now: u64) -> LocalMapView {
    let (st, cmd) = tick_sub(m.sub_state, now);
    let q1 = match cmd {
        Some(c) => m.queue.push(LocalMapOutputView::Remote(c)),
        None => m.queue,
    };
    let m2 = sync_slots(LocalMapView { sub_state: st, queue: q1, ..m }, now, false);
    LocalMapView { slots: kept(m2.slots), ..m2 }
}

} // verus!

verus! {

struct ClientEntry {
    key: Key,
    source: NodeSession,
    slot: MapSlot,
}

impl ClientEntry {
    spec fn view(&self) -> ClientEntryView {
        ClientEntryView { key: self.key, source: self.source, slot: self.slot@ }
    }
}

/// The state of one map at a client: its slots, its local subscribers and its subscription
/// at the storing node. One source may hold a value for a sub-key beside other sources.
pub struct LocalMap {
    session: NodeSession,
    slots: Vec<ClientEntry>,
    subscribers: Vec<FeatureControlActor>,
    sub_state: SubState,
    queue: VecDeque<LocalMapOutput>,
}

pub open spec fn out_view(q: Seq<LocalMapOutput>) -> Seq<LocalMapOutputView> {
    q.map_values(|o: LocalMapOutput| o@)
}

/// The subscription's timestamps leave room for the longest delay to be added to them.
pub open spec fn sub_time_bounded(st: SubState) -> bool {
    match st {
        SubState::NotSub => true,
        SubState::Subscribing { sent_ts, .. } => sent_ts <= u64::MAX - UNSUB_TIMEOUT_MS,
        SubState::Subscribed { sync_ts, .. } => sync_ts <= u64::MAX - UNSUB_TIMEOUT_MS,
        SubState::Unsubscribing { started_at, sent_ts, .. } => started_at <= u64::MAX - UNSUB_TIMEOUT_MS && sent_ts <= u64::MAX
            - UNSUB_TIMEOUT_MS,
    }
}

/// The invariant of a [`LocalMapView`].
pub open spec fn local_map_wf(m: LocalMapView) -> bool {
    &&& entries_unique(m.slots)
    &&& forall|i: int| 0 <= i < m.slots.len() ==> (#[trigger] m.slots[i]).slot.key() == m.slots[i].key && m.slots[i].slot.time_bounded()
    &&& m.subscribers.no_duplicates()
    &&& m.subscribers.len() > 0 ==> (m.sub_state is Subscribing || m.sub_state is Subscribed)
    &&& sub_time_bounded(m.sub_state)
}

impl View for LocalMap {
    type V = LocalMapView;

    closed spec fn view(&self) -> LocalMapView {
        LocalMapView {
            session: self.session,
            slots: self.slots@.map_values(|e: ClientEntry| e.view()),
            subscribers: self.subscribers@,
            sub_state: self.sub_state,
            queue: out_view(self.queue@),
        }
    }
}

proof fn lemma_out_push(q: Seq<LocalMapOutput>, x: LocalMapOutput)
    ensures
        out_view(q.push(x)) == out_view(q).push(x@),
{
    assert(out_view(q.push(x)) =~= out_view(q).push(x@));
}

impl LocalMap {
    pub closed spec fn wf(&self) -> bool {
        local_map_wf(self@)
    }

    pub fn new(session: NodeSession) -> (m: Self)
        ensures
            m.wf(),
            m@ == (LocalMapView { session, slots: Seq::empty(), subscribers: Seq::empty(), sub_state: SubState::NotSub, queue: Seq::empty() }),
    {
        let m = LocalMap { session, slots: Vec::new(), subscribers: Vec::new(), sub_state: SubState::NotSub, queue: VecDeque::new() };
        assert(m@.slots =~= Seq::empty());
        assert(m@.subscribers =~= Seq::empty());
        assert(m@.queue =~= Seq::empty());
        m
    }

    /// Hands out the oldest pending output.
    pub fn pop_action(&mut self) -> (r: Option<LocalMapOutput>)
        requires
            old(self).wf(),
        ensures
            final(self).wf(),
            old(self)@.queue.len() == 0 ==> r is None && final(self)@ == old(self)@,
            old(self)@.queue.len() > 0 ==> r is Some && r.unwrap()@ == old(self)@.queue[0] && final(self)@ == (LocalMapView {
                queue: old(self)@.queue.drop_first(),
                ..old(self)@
            }),
    {
        let r = self.queue.pop_front();
        proof {
            if r is None {
                assert(self@ == old(self)@);
            } else {
                assert(self@.queue =~= old(self)@.queue.drop_first());
            }
        }
        r
    }

    /// A map with no slot, no subscriber and no subscription can be dropped.
    pub fn should_cleanup(&self) -> (r: bool)
        ensures
            r == (self@.slots.len() == 0 && self@.subscribers.len() == 0 && self@.sub_state is NotSub),
    {
        self.slots.len() == 0 && self.subscribers.len() == 0 && match self.sub_state {
            SubState::NotSub => true,
            _ => false,
        }
    }

    fn find_entry(&self, key: Key, source: NodeSession) -> (r: Option<usize>)
        requires
            self.wf(),
        ensures
            match r {
                Some(i) => i < self.slots@.len() && has_entry(self@.slots, key, source) && i == entry_index(self@.slots, key, source),
                None => !has_entry(self@.slots, key, source),
            },
    {
        let mut i: usize = 0;
        while i < self.slots.len()
            invariant
                self.wf(),
                i <= self.slots@.len(),
                forall|k: int| 0 <= k < i ==> !entry_matches(#[trigger] self@.slots[k], key, source),
            decreases self.slots@.len() - i,
        {
            if self.slots[i].key == key && self.slots[i].source == source {
                proof {
                    let s = self@.slots;
                    assert(entry_matches(s[i as int], key, source));
                    let j = entry_index(s, key, source);
                    assert(entry_matches(s[j], key, source));
                    assert(!entry_matches(s[j], s[i as int].key, s[i as int].source) || j == i);
                }
                return Some(i);
            }
            i = i + 1;
        }
        None
    }

    /// The index of the slot of `key` by `source`, creating it empty where it does not exist.
    fn ensure_slot(&mut self, key: Key, source: NodeSession) -> (i: usize)
        requires
            old(self).wf(),
        ensures
            final(self).wf(),
            final(self)@ == (LocalMapView { slots: ensure_entry(old(self)@.slots, key, source), ..old(self)@ }),
            i < final(self)@.slots.len(),
            i == entry_index(final(self)@.slots, key, source),
            has_entry(final(self)@.slots, key, source),
    {
        match self.find_entry(key, source) {
            Some(i) => i,
            None => {
                let ghost s0 = self@.slots;
                self.slots.push(ClientEntry { key, source, slot: MapSlot::new(key) });
                let i = self.slots.len() - 1;
                proof {
                    let s = self@.slots;
                    assert(s =~= ensure_entry(s0, key, source));
                    assert(entry_matches(s[i as int], key, source));
                    assert forall|a: int, b: int| #![trigger s[a], s[b]] 0 <= a < s.len() && 0 <= b < s.len() && a != b implies !entry_matches(s[a], s[b].key, s[b].source) by {
                        if a == i {
                            assert(!entry_matches(s0[b], key, source));
                        } else if b == i {
                            assert(!entry_matches(s0[a], key, source));
                        } else {
                            assert(s[a] == s0[a] && s[b] == s0[b]);
                        }
                    }
                    let j = entry_index(s, key, source);
                    assert(entry_matches(s[j], key, source));
                    assert(!entry_matches(s[j], s[i as int].key, s[i as int].source) || j == i);
                    assert forall|k: int| 0 <= k < s.len() implies (#[trigger] s[k]).slot.key() == s[k].key && s[k].slot.time_bounded() by {
                        if k < s0.len() {
                            assert(s[k] == s0[k]);
                        }
                    }
                }
                i
            },
        }
    }
}

} // verus!

verus! {

proof fn lemma_update_keeps_wf(m: LocalMapView, i: int, slot: SlotView)
    requires
        local_map_wf(m),
        0 <= i < m.slots.len(),
        slot.key() == m.slots[i].key,
        slot.time_bounded(),
    ensures
        local_map_wf(LocalMapView { slots: m.slots.update(i, ClientEntryView { slot, ..m.slots[i] }), ..m }),
{
    let s = m.slots.update(i, ClientEntryView { slot, ..m.slots[i] });
    assert forall|a: int, b: int| #![trigger s[a], s[b]] 0 <= a < s.len() && 0 <= b < s.len() && a != b implies !entry_matches(s[a], s[b].key, s[b].source) by {
        assert(!entry_matches(m.slots[a], m.slots[b].key, m.slots[b].source));
    }
    assert forall|k: int| 0 <= k < s.len() implies (#[trigger] s[k]).slot.key() == s[k].key && s[k].slot.time_bounded() by {
        if k != i {
            assert(s[k] == m.slots[k]);
        }
    }
}

impl LocalMap {
    /// Replaces the slot at `i` by what `f` makes of it; the caller proves the result.
    fn take_slot(&mut self, i: usize) -> (slot: MapSlot)
        requires
            i < old(self).slots@.len(),
        ensures
            slot@ == old(self)@.slots[i as int].slot,
            final(self).slots@.len() == old(self).slots@.len(),
            final(self)@ == (LocalMapView {
                slots: old(self)@.slots.update(i as int, ClientEntryView { slot: SlotView::Unspecific { key: old(self)@.slots[i as int].key }, ..old(self)@.slots[i as int] }),
                ..old(self)@
            }),
    {
        let e = self.slots.remove(i);
        let ghost s0 = old(self)@.slots;
        self.slots.insert(i, ClientEntry { key: e.key, source: e.source, slot: MapSlot::new(e.key) });
        proof {
            assert(self@.slots =~= s0.update(i as int, ClientEntryView { slot: SlotView::Unspecific { key: s0[i as int].key }, ..s0[i as int] }));
        }
        e.slot
    }

    fn put_slot(&mut self, i: usize, slot: MapSlot)
        requires
            i < old(self).slots@.len(),
        ensures
            final(self)@ == (LocalMapView { slots: old(self)@.slots.update(i as int, ClientEntryView { slot: slot@, ..old(self)@.slots[i as int] }), ..old(self)@ }),
    {
        let key = self.slots[i].key;
        let source = self.slots[i].source;
        self.slots.set(i, ClientEntry { key, source, slot });
        proof {
            assert(self@.slots =~= old(self)@.slots.update(i as int, ClientEntryView { slot: slot@, ..old(self)@.slots[i as int] }));
        }
    }
}

} // verus!

verus! {

proof fn lemma_to_all_push(subs: Seq<FeatureControlActor>, a: FeatureControlActor, ev: MapEventView)
    ensures
        to_all(subs.push(a), ev) == to_all(subs, ev).push(LocalMapOutputView::Local(a, ev)),
{
    assert(subs.push(a).drop_last() =~= subs);
}

impl LocalMap {
    /// Reports `event` to every local subscriber.
    fn fire_event(&mut self, event: MapEvent)
        requires
            old(self).wf(),
        ensures
            final(self).wf(),
            final(self)@ == fire(old(self)@, event@),
    {
        let ghost m0 = self@;
        let mut i: usize = 0;
        while i < self.subscribers.len()
            invariant
                i <= self.subscribers@.len(),
                self@ == (LocalMapView { queue: m0.queue + to_all(m0.subscribers.take(i as int), event@), ..m0 }),
            decreases self.subscribers@.len() - i,
        {
            let a = self.subscribers[i];
            let ghost q = self.queue@;
            let e = event.clone();
            self.queue.push_back(LocalMapOutput::Local(a, e));
            proof {
                lemma_out_push(q, LocalMapOutput::Local(a, e));
                assert(m0.subscribers.take(i + 1) =~= m0.subscribers.take(i as int).push(a));
                lemma_to_all_push(m0.subscribers.take(i as int), a, event@);
                assert(self@.queue =~= m0.queue + to_all(m0.subscribers.take(i + 1), event@));
            }
            i = i + 1;
        }
        proof {
            assert(m0.subscribers.take(i as int) =~= m0.subscribers);
        }
    }

    /// Reports to `actor` the values held, only those written by this node with `only_local`.
    fn restore_events(&mut self, actor: FeatureControlActor, only_local: bool)
        requires
            old(self).wf(),
        ensures
            final(self).wf(),
            final(self)@ == (LocalMapView { queue: old(self)@.queue + restored(old(self)@.slots, actor, old(self)@.session, only_local), ..old(self)@ }),
    {
        let ghost m0 = self@;
        let mut i: usize = 0;
        while i < self.slots.len()
            invariant
                i <= self.slots@.len(),
                self@ == (LocalMapView { queue: m0.queue + restored(m0.slots.take(i as int), actor, m0.session, only_local), ..m0 }),
            decreases self.slots@.len() - i,
        {
            proof {
                assert(m0.slots.take(i + 1).drop_last() =~= m0.slots.take(i as int));
                assert(m0.slots.take(i + 1).last() == m0.slots[i as int]);
            }
            let source = self.slots[i].source;
            if !(only_local && self.session != source) {
                let key = self.slots[i].key;
                match self.slots[i].slot.data() {
                    Some(data) => {
                        let ghost q = self.queue@;
                        let out = LocalMapOutput::Local(actor, MapEvent::OnSet(key, source.0, bytes_of(data)));
                        self.queue.push_back(out);
                        proof {
                            lemma_out_push(q, out);
                            assert(self@.queue =~= m0.queue + restored(m0.slots.take(i + 1), actor, m0.session, only_local));
                        }
                    },
                    None => {},
                }
            }
            i = i + 1;
        }
        proof {
            assert(m0.slots.take(i as int) =~= m0.slots);
        }
    }
}

} // verus!

verus! {

proof fn lemma_sync_all(s: Seq<ClientEntryView>, now: u64, force: bool)
    ensures
        sync_all(s, now, force).0.len() == s.len(),
        forall|k: int| 0 <= k < s.len() ==> #[trigger] sync_all(s, now, force).0[k] == (ClientEntryView { slot: s[k].slot.sync(now, force).0, ..s[k] }),
    decreases s.len(),
{
    if s.len() > 0 {
        lemma_sync_all(s.drop_last(), now, force);
        let r = sync_all(s, now, force).0;
        assert forall|k: int| 0 <= k < s.len() implies #[trigger] r[k] == (ClientEntryView { slot: s[k].slot.sync(now, force).0, ..s[k] }) by {
            if k < s.len() - 1 {
                assert(s.drop_last()[k] == s[k]);
            }
        }
    }
}

proof fn lemma_kept(s: Seq<ClientEntryView>)
    ensures
        forall|k: int| 0 <= k < kept(s).len() ==> exists|j: int| 0 <= j < s.len() && s[j] == #[trigger] kept(s)[k],
        entries_unique(s) ==> entries_unique(kept(s)),
    decreases s.len(),
{
    if s.len() > 0 {
        let d = s.drop_last();
        lemma_kept(d);
        let rest = kept(d);
        let r = kept(s);
        assert forall|k: int| 0 <= k < r.len() implies exists|j: int| 0 <= j < s.len() && s[j] == #[trigger] r[k] by {
            if k < rest.len() {
                let j = choose|j: int| 0 <= j < d.len() && d[j] == rest[k];
                assert(s[j] == r[k]);
            } else {
                assert(s[s.len() - 1] == r[k]);
            }
        }
        if entries_unique(s) {
            assert(entries_unique(d)) by {
                assert forall|a: int, b: int| #![trigger d[a], d[b]] 0 <= a < d.len() && 0 <= b < d.len() && a != b implies !entry_matches(d[a], d[b].key, d[b].source) by {
                    assert(s[a] == d[a] && s[b] == d[b]);
                }
            }
            assert forall|a: int, b: int| #![trigger r[a], r[b]] 0 <= a < r.len() && 0 <= b < r.len() && a != b implies !entry_matches(r[a], r[b].key, r[b].source) by {
                if a < rest.len() && b < rest.len() {
                } else if a < rest.len() {
                    let j = choose|j: int| 0 <= j < d.len() && d[j] == rest[a];
                    assert(s[j] == r[a]);
                    assert(r[b] == s[s.len() - 1]);
                } else {
                    let j = choose|j: int| 0 <= j < d.len() && d[j] == rest[b];
                    assert(s[j] == r[b]);
                    assert(r[a] == s[s.len() - 1]);
                }
            }
        }
    }
}

impl LocalMap {
    /// Syncs every slot and queues the commands that the syncing sends.
    fn sync_slots(&mut self, now: u64, force: bool)
        requires
            old(self).wf(),
            now <= u64::MAX - UNSUB_TIMEOUT_MS,
        ensures
            final(self).wf(),
            final(self)@ == sync_slots(old(self)@, now, force),
    {
        let ghost m0 = self@;
        proof {
            lemma_sync_all(m0.slots, now, force);
            assert(m0.slots.take(0) =~= Seq::<ClientEntryView>::empty());
            assert(sync_all(m0.slots.take(0), now, force).0 + m0.slots.skip(0) =~= m0.slots);
            assert(m0.queue + sync_all(m0.slots.take(0), now, force).1 =~= m0.queue);
        }
        let mut i: usize = 0;
        while i < self.slots.len()
            invariant
                self.wf(),
                now <= u64::MAX - UNSUB_TIMEOUT_MS,
                i <= self.slots@.len(),
                self.slots@.len() == m0.slots.len(),
                forall|k: int| 0 <= k < m0.slots.len() ==> #[trigger] sync_all(m0.slots, now, force).0[k] == (ClientEntryView {
                    slot: m0.slots[k].slot.sync(now, force).0,
                    ..m0.slots[k]
                }),
                self@ == (LocalMapView {
                    slots: sync_all(m0.slots.take(i as int), now, force).0 + m0.slots.skip(i as int),
                    queue: m0.queue + sync_all(m0.slots.take(i as int), now, force).1,
                    ..m0
                }),
            decreases self.slots@.len() - i,
        {
            let ghost m1 = self@;
            proof {
                assert(m0.slots.take(i + 1).drop_last() =~= m0.slots.take(i as int));
                assert(m0.slots.take(i + 1).last() == m0.slots[i as int]);
                lemma_sync_all(m0.slots.take(i as int), now, force);
                lemma_sync_all(m0.slots.take(i + 1), now, force);
                assert(m1.slots[i as int] == m0.slots[i as int]);
            }
            let mut slot = self.take_slot(i);
            let cmd = slot.sync(now, force);
            self.put_slot(i, slot);
            proof {
                lemma_update_keeps_wf(m1, i as int, slot@);
                assert(self@.slots =~= sync_all(m0.slots.take(i + 1), now, force).0 + m0.slots.skip(i + 1));
            }
            match cmd {
                Some(c) => {
                    let ghost q = self.queue@;
                    self.queue.push_back(LocalMapOutput::Remote(c));
                    proof {
                        lemma_out_push(q, LocalMapOutput::Remote(c));
                    }
                },
                None => {},
            }
            proof {
                assert(self@.queue =~= m0.queue + sync_all(m0.slots.take(i + 1), now, force).1);
            }
            i = i + 1;
        }
        proof {
            assert(m0.slots.take(i as int) =~= m0.slots);
            assert(m0.slots.skip(i as int) =~= Seq::<ClientEntryView>::empty());
            assert(self@.slots =~= sync_all(m0.slots, now, force).0);
        }
    }

    /// Drops the slots that hold nothing.
    fn cleanup_slots(&mut self)
        requires
            old(self).wf(),
        ensures
            final(self).wf(),
            final(self)@ == (LocalMapView { slots: kept(old(self)@.slots), ..old(self)@ }),
    {
        let ghost m0 = self@;
        let mut rest: Vec<ClientEntry> = Vec::new();
        std::mem::swap(&mut rest, &mut self.slots);
        let ghost n = rest@.len();
        let mut out: Vec<ClientEntry> = Vec::new();
        while rest.len() > 0
            invariant
                rest@.len() <= n,
                n == m0.slots.len(),
                rest@.map_values(|e: ClientEntry| e.view()) == m0.slots.skip(n - rest@.len()),
                out@.map_values(|e: ClientEntry| e.view()) == kept(m0.slots.take(n - rest@.len())),
                self@ == (LocalMapView { slots: Seq::empty(), ..m0 }),
            decreases rest@.len(),
        {
            let ghost k = n - rest@.len();
            let ghost r0 = rest@;
            let e = rest.remove(0);
            proof {
                assert(r0.map_values(|e: ClientEntry| e.view())[0] == e.view());
                assert(m0.slots.skip(k)[0] == m0.slots[k]);
                assert(e.view() == m0.slots[k]);
                assert forall|j: int| 0 <= j < rest@.len() implies #[trigger] rest@[j] == r0[j + 1] by {}
                assert forall|j: int| 0 <= j < rest@.len() implies r0.map_values(|e: ClientEntry| e.view())[j + 1] == #[trigger] m0.slots.skip(k + 1)[j] by {
                    assert(m0.slots.skip(k)[j + 1] == m0.slots.skip(k + 1)[j]);
                }
                assert(rest@.map_values(|e: ClientEntry| e.view()) =~= m0.slots.skip(k + 1));
                assert(m0.slots.take(k + 1).drop_last() =~= m0.slots.take(k));
                assert(m0.slots.take(k + 1).last() == m0.slots[k]);
            }
            if !e.slot.should_cleanup() {
                let ghost o = out@;
                out.push(e);
                proof {
                    assert(out@.map_values(|e: ClientEntry| e.view()) =~= o.map_values(|e: ClientEntry| e.view()).push(m0.slots[k]));
                }
            }
        }
        proof {
            assert(m0.slots.take(n as int) =~= m0.slots);
        }
        self.slots = out;
        proof {
            lemma_kept(m0.slots);
            let s = self@.slots;
            assert forall|k: int| 0 <= k < s.len() implies (#[trigger] s[k]).slot.key() == s[k].key && s[k].slot.time_bounded() by {
                let j = choose|j: int| 0 <= j < m0.slots.len() && m0.slots[j] == kept(m0.slots)[k];
                assert(m0.slots[j].slot.key() == m0.slots[j].key);
            }
        }
    }
}

} // verus!

verus! {

proof fn lemma_without_actor(s: Seq<FeatureControlActor>, a: FeatureControlActor)
    ensures
        forall|x: FeatureControlActor| #[trigger] without_actor(s, a).contains(x) <==> (s.contains(x) && x != a),
        s.no_duplicates() ==> without_actor(s, a).no_duplicates(),
    decreases s.len(),
{
    if s.len() > 0 {
        let d = s.drop_last();
        lemma_without_actor(d, a);
        let r = without_actor(s, a);
        let rest = without_actor(d, a);
        assert forall|x: FeatureControlActor| #[trigger] r.contains(x) <==> (s.contains(x) && x != a) by {
            if s.contains(x) && x != a {
                let j = choose|j: int| 0 <= j < s.len() && s[j] == x;
                if j < d.len() {
                    assert(d[j] == x);
                    assert(d.contains(x));
                    assert(rest.contains(x));
                    let k = choose|k: int| 0 <= k < rest.len() && rest[k] == x;
                    assert(r[k] == x);
                } else {
                    assert(r[r.len() - 1] == x);
                }
            }
            if r.contains(x) {
                let k = choose|k: int| 0 <= k < r.len() && r[k] == x;
                if k < rest.len() {
                    assert(rest[k] == x);
                    assert(rest.contains(x));
                    let j = choose|j: int| 0 <= j < d.len() && d[j] == x;
                    assert(s[j] == x);
                } else {
                    assert(s[s.len() - 1] == x);
                }
            }
        }
        if s.no_duplicates() {
            assert(d.no_duplicates()) by {
                assert forall|i: int, j: int| 0 <= i < d.len() && 0 <= j < d.len() && i != j implies d[i] != d[j] by {
                    assert(s[i] == d[i] && s[j] == d[j]);
                }
            }
            if s.last() != a {
                assert(!d.contains(s.last())) by {
                    if d.contains(s.last()) {
                        let j = choose|j: int| 0 <= j < d.len() && d[j] == s.last();
                        assert(s[j] == s[s.len() - 1]);
                    }
                }
                assert(!rest.contains(s.last()));
                assert forall|i: int, j: int| 0 <= i < r.len() && 0 <= j < r.len() && i != j implies r[i] != r[j] by {
                    if i < rest.len() && j < rest.len() {
                    } else if i < rest.len() {
                        assert(rest.contains(r[i]));
                    } else {
                        assert(rest.contains(r[j]));
                    }
                }
            }
        }
    }
}

/// `v` without `a`.
fn remove_actor(v: &Vec<FeatureControlActor>, a: FeatureControlActor) -> (r: Vec<FeatureControlActor>)
    ensures
        r@ == without_actor(v@, a),
{
    let mut r: Vec<FeatureControlActor> = Vec::new();
    let mut i: usize = 0;
    while i < v.len()
        invariant
            i <= v@.len(),
            r@ == without_actor(v@.take(i as int), a),
        decreases v@.len() - i,
    {
        proof {
            assert(v@.take(i + 1).drop_last() =~= v@.take(i as int));
            assert(v@.take(i + 1).last() == v@[i as int]);
        }
        if v[i] != a {
            r.push(v[i]);
        }
        i = i + 1;
    }
    assert(v@.take(i as int) =~= v@);
    r
}

impl LocalMap {
    /// Handles a command of a local `actor` and returns the command owed to the storing node.
    pub fn on_control(&mut self, now: u64, actor: FeatureControlActor, control: MapControl) -> (r: Option<ClientMapCommand>)
        requires
            old(self).wf(),
            now <= u64::MAX - UNSUB_TIMEOUT_MS,
        ensures
            final(self).wf(),
            (final(self)@, opt_cmd_view(r)) == on_control_spec(old(self)@, now, actor, control@),
    {
        let ghost m0 = self@;
        match control {
            MapControl::SetValue(key, data) => {
                let session = self.session;
                let i = self.ensure_slot(key, session);
                let ghost m1 = self@;
                let mut slot = self.take_slot(i);
                let ev_data = copy_bytes(&data);
                let out = slot.set(now, data);
                self.put_slot(i, slot);
                proof {
                    assert(entry_matches(m1.slots[i as int], key, session));
                    lemma_update_keeps_wf(m1, i as int, slot@);
                    assert(self@.slots =~= update_entry(m1.slots, key, session, slot@));
                }
                self.fire_event(MapEvent::OnSet(key, session.0, ev_data));
                out
            },
            MapControl::Del(key) => {
                let session = self.session;
                let i = match self.find_entry(key, session) {
                    Some(i) => i,
                    None => {
                        return None;
                    },
                };
                let mut slot = self.take_slot(i);
                let out = slot.del(now);
                self.put_slot(i, slot);
                proof {
                    assert(entry_matches(m0.slots[i as int], key, session));
                    lemma_update_keeps_wf(m0, i as int, slot@);
                    assert(self@.slots =~= update_entry(m0.slots, key, session, slot@));
                    if out is None {
                        assert(self@.slots =~= m0.slots);
                    }
                }
                match out {
                    Some(c) => {
                        self.fire_event(MapEvent::OnDel(key, session.0));
                        Some(c)
                    },
                    None => None,
                }
            },
            MapControl::Sub => {
                let send_sub = self.subscribers.len() == 0;
                if contains_actor(&self.subscribers, actor) {
                    return None;
                }
                self.subscribers.push(actor);
                proof {
                    assert forall|i: int, j: int| 0 <= i < self@.subscribers.len() && 0 <= j < self@.subscribers.len() && i != j implies self@.subscribers[i] != self@.subscribers[j] by {
                        if i == m0.subscribers.len() as int {
                            assert(!m0.subscribers.contains(actor));
                            assert(m0.subscribers[j] != actor);
                        } else if j == m0.subscribers.len() as int {
                            assert(m0.subscribers[i] != actor);
                        }
                    }
                }
                if send_sub {
                    self.sub_state = SubState::Subscribing { sent_ts: now, id: now };
                    self.restore_events(actor, true);
                    Some(ClientMapCommand::Sub(now, None))
                } else {
                    self.restore_events(actor, false);
                    None
                }
            },
            MapControl::Unsub => {
                if !contains_actor(&self.subscribers, actor) {
                    return None;
                }
                let remaining = remove_actor(&self.subscribers, actor);
                proof {
                    lemma_without_actor(m0.subscribers, actor);
                }
                self.subscribers = remaining;
                if self.subscribers.len() == 0 {
                    match self.sub_state {
                        SubState::Subscribed { id, remote, .. } => {
                            self.sub_state = SubState::Unsubscribing { id, remote: Some(remote), started_at: now, sent_ts: now };
                            Some(ClientMapCommand::Unsub(id))
                        },
                        SubState::Subscribing { id, .. } => {
                            self.sub_state = SubState::Unsubscribing { id, remote: None, started_at: now, sent_ts: now };
                            Some(ClientMapCommand::Unsub(id))
                        },
                        _ => None,
                    }
                } else {
                    None
                }
            },
        }
    }
}

} // verus!

verus! {

impl LocalMap {
    fn accept_event(&self, remote: NodeSession) -> (r: bool)
        ensures
            r == accepts_from(self@.sub_state, remote),
    {
        match &self.sub_state {
            SubState::Subscribed { remote: locked_remote, .. } => *locked_remote == remote,
            _ => false,
        }
    }

    /// Handles an event from the storing node `remote` and returns the acknowledgement owed
    /// to it. Values and deletes are taken only from the node this map is subscribed at.
    pub fn on_server(&mut self, now: u64, remote: NodeSession, cmd: ServerMapEvent) -> (r: Option<ClientMapCommand>)
        requires
            old(self).wf(),
            now <= u64::MAX - UNSUB_TIMEOUT_MS,
        ensures
            final(self).wf(),
            (final(self)@, opt_cmd_view(r)) == on_server_spec(old(self)@, now, remote, cmd@),
    {
        let ghost m0 = self@;
        let session = self.session;
        match cmd {
            ServerMapEvent::SetOk(key, version) => {
                let i = match self.find_entry(key, session) {
                    Some(i) => i,
                    None => {
                        return None;
                    },
                };
                let mut slot = self.take_slot(i);
                slot.set_ok(version);
                self.put_slot(i, slot);
                proof {
                    assert(entry_matches(m0.slots[i as int], key, session));
                    lemma_update_keeps_wf(m0, i as int, slot@);
                    assert(self@.slots =~= update_entry(m0.slots, key, session, slot@));
                }
                None
            },
            ServerMapEvent::DelOk(key, version) => {
                let i = match self.find_entry(key, session) {
                    Some(i) => i,
                    None => {
                        return None;
                    },
                };
                let mut slot = self.take_slot(i);
                slot.del_ok(version);
                self.put_slot(i, slot);
                proof {
                    assert(entry_matches(m0.slots[i as int], key, session));
                    lemma_update_keeps_wf(m0, i as int, slot@);
                    assert(self@.slots =~= update_entry(m0.slots, key, session, slot@));
                }
                None
            },
            ServerMapEvent::SubOk(id) => {
                match self.sub_state {
                    SubState::Subscribing { id: sub_id, .. } => {
                        if sub_id == id {
                            self.sub_state = SubState::Subscribed { id, remote, sync_ts: now };
                            self.fire_event(MapEvent::OnRelaySelected(remote.0));
                        }
                    },
                    SubState::Subscribed { id: sub_id, remote: locked, .. } => {
                        if sub_id == id {
                            self.sub_state = SubState::Subscribed { id: sub_id, remote, sync_ts: now };
                            if locked.0 != remote.0 {
                                self.sync_slots(now, true);
                                self.fire_event(MapEvent::OnRelaySelected(remote.0));
                            }
                        }
                    },
                    _ => {},
                }
                None
            },
            ServerMapEvent::UnsubOk(id) => {
                match self.sub_state {
                    SubState::Unsubscribing { id: sub_id, remote: locked, .. } => {
                        let expected = match locked {
                            Some(l) => l,
                            None => remote,
                        };
                        if sub_id == id && expected == remote {
                            self.sub_state = SubState::NotSub;
                        }
                    },
                    _ => {},
                }
                None
            },
            ServerMapEvent::OnSet { key, version, source, data } => {
                if !self.accept_event(remote) {
                    return None;
                }
                let i = self.ensure_slot(key, source);
                let ghost m1 = self@;
                let mut slot = self.take_slot(i);
                let ev_data = copy_bytes(&data);
                let res = slot.on_set(now, key, source, version, data);
                self.put_slot(i, slot);
                proof {
                    assert(entry_matches(m1.slots[i as int], key, source));
                    lemma_update_keeps_wf(m1, i as int, slot@);
                    assert(self@.slots =~= update_entry(m1.slots, key, source, slot@));
                }
                match res {
                    Some((event, updated)) => {
                        if updated {
                            self.fire_event(MapEvent::OnSet(key, source.0, ev_data));
                        }
                        Some(event)
                    },
                    None => None,
                }
            },
            ServerMapEvent::OnDel { key, version, source } => {
                if !self.accept_event(remote) {
                    return None;
                }
                let i = self.ensure_slot(key, source);
                let ghost m1 = self@;
                let mut slot = self.take_slot(i);
                let res = slot.on_del(now, key, source, version);
                self.put_slot(i, slot);
                proof {
                    assert(entry_matches(m1.slots[i as int], key, source));
                    lemma_update_keeps_wf(m1, i as int, slot@);
                    assert(self@.slots =~= update_entry(m1.slots, key, source, slot@));
                }
                match res {
                    Some(event) => {
                        self.fire_event(MapEvent::OnDel(key, source.0));
                        Some(event)
                    },
                    None => None,
                }
            },
        }
    }

    /// Resends the subscription state when due, syncs the local slots and drops the slots
    /// that hold nothing.
    pub fn on_tick(&mut self, now: u64)
        requires
            old(self).wf(),
            now <= u64::MAX - UNSUB_TIMEOUT_MS,
        ensures
            final(self).wf(),
            final(self)@ == on_tick_spec(old(self)@, now),
    {
        let ghost m0 = self@;
        let (st, cmd) = match self.sub_state {
            SubState::NotSub => (SubState::NotSub, None),
            SubState::Subscribing { id, sent_ts } => {
                if now >= sent_ts + RESEND_MS {
                    (SubState::Subscribing { id, sent_ts: now }, Some(ClientMapCommand::Sub(id, None)))
                } else {
                    (SubState::Subscribing { id, sent_ts }, None)
                }
            },
            SubState::Subscribed { id, remote, sync_ts } => {
                if now >= sync_ts + SYNC_MS {
                    (SubState::Subscribed { id, remote, sync_ts: now }, Some(ClientMapCommand::Sub(id, Some(remote))))
                } else {
                    (SubState::Subscribed { id, remote, sync_ts }, None)
                }
            },
            SubState::Unsubscribing { id, started_at, remote, sent_ts } => {
                if now >= started_at + UNSUB_TIMEOUT_MS {
                    (SubState::NotSub, None)
                } else if now >= sent_ts + RESEND_MS {
                    (SubState::Unsubscribing { id, started_at, remote, sent_ts: now }, Some(ClientMapCommand::Unsub(id)))
                } else {
                    (SubState::Unsubscribing { id, started_at, remote, sent_ts }, None)
                }
            },
        };
        proof {
            assert(st == tick_sub(m0.sub_state, now).0);
            assert(opt_cmd_view(cmd) == tick_sub(m0.sub_state, now).1);
        }
        self.sub_state = st;
        match cmd {
            Some(c) => {
                let ghost q = self.queue@;
                self.queue.push_back(LocalMapOutput::Remote(c));
                proof {
                    lemma_out_push(q, LocalMapOutput::Remote(c));
                }
            },
            None => {},
        }
        self.sync_slots(now, false);
        self.cleanup_slots();
    }
}

} // verus!

verus! {

impl LocalMap {
    /// The number of slots held.
    pub fn slot_count(&self) -> (r: usize)
        ensures
            r == self@.slots.len(),
    {
        self.slots.len()
    }
}

/// A value or delete from a storing node that this map is not subscribed at is ignored.
pub proof fn law_reject_unknown_relay(m: LocalMapView, now: u64, remote: NodeSession, ev: ServerMapEventView)
    requires
        ev is OnSet || ev is OnDel,
        !accepts_from(m.sub_state, remote),
    ensures
        on_server_spec(m, now, remote, ev) == (m, None::<ClientMapCommandView>),
{
}

/// A local write is announced to the storing node with the current time as version, and
/// reported to every local subscriber.
pub proof fn law_local_set(m: LocalMapView, now: u64, actor: FeatureControlActor, key: Key, data: Seq<u8>)
    requires
        local_map_wf(m),
    ensures
        ({
            let (m2, r) = on_control_spec(m, now, actor, MapControlView::SetValue(key, data));
            &&& r == Some(ClientMapCommandView::SetValue(key, Version(now), data))
            &&& m2.queue == m.queue + to_all(m.subscribers, MapEventView::OnSet(key, m.session.0, data))
            &&& has_entry(m2.slots, key, m.session)
            &&& m2.slots[entry_index(m2.slots, key, m.session)].slot.data() == Some(data)
        }),
{
    let s0 = ensure_entry(m.slots, key, m.session);
    let i = entry_index(s0, key, m.session);
    if has_entry(m.slots, key, m.session) {
        let j = entry_index(m.slots, key, m.session);
        assert(entry_matches(m.slots[j], key, m.session));
        assert(m.slots[j].slot.key() == key);
    } else {
        let n = m.slots.len() as int;
        assert(entry_matches(s0[n], key, m.session));
        assert(entry_matches(s0[i], key, m.session));
        if i != n {
            assert(entry_matches(m.slots[i], key, m.session));
        }
    }
    assert(entry_matches(s0[i], key, m.session));
    let (m2, r) = on_control_spec(m, now, actor, MapControlView::SetValue(key, data));
    assert(entry_matches(m2.slots[i], key, m.session));
    let k = entry_index(m2.slots, key, m.session);
    assert(entry_matches(m2.slots[k], key, m.session));
    if k != i {
        assert(entry_matches(s0[k], key, m.session));
        if has_entry(m.slots, key, m.session) {
            assert(!entry_matches(m.slots[k], m.slots[i].key, m.slots[i].source));
        } else {
            assert(entry_matches(m.slots[k], key, m.session) || k == m.slots.len());
        }
    }
}

/// The event that tells `actor` of the value slot `e` holds.
pub open spec fn value_event(actor: FeatureControlActor, e: ClientEntryView) -> LocalMapOutputView {
    LocalMapOutputView::Local(actor, MapEventView::OnSet(e.key, e.source.0, e.slot.data()->Some_0))
}

proof fn lemma_restored_all(slots: Seq<ClientEntryView>, actor: FeatureControlActor, session: NodeSession)
    ensures
        forall|i: int| 0 <= i < slots.len() && (#[trigger] slots[i]).slot.data() is Some ==> restored(slots, actor, session, false).contains(
            value_event(actor, slots[i]),
        ),
        forall|k: int|
            #![trigger restored(slots, actor, session, false)[k]]
            0 <= k < restored(slots, actor, session, false).len() ==> exists|i: int|
            0 <= i < slots.len() && (#[trigger] slots[i]).slot.data() is Some && restored(slots, actor, session, false)[k] == value_event(actor, slots[i]),
    decreases slots.len(),
{
    if slots.len() > 0 {
        let init = slots.drop_last();
        lemma_restored_all(init, actor, session);
        let rest = restored(init, actor, session, false);
        let r = restored(slots, actor, session, false);
        let n = slots.len() - 1;
        assert forall|i: int| 0 <= i < slots.len() && (#[trigger] slots[i]).slot.data() is Some implies r.contains(value_event(actor, slots[i])) by {
            if i < n {
                assert(init[i] == slots[i]);
                let k = choose|k: int| 0 <= k < rest.len() && rest[k] == value_event(actor, init[i]);
                assert(r[k] == rest[k]);
            } else {
                assert(r[r.len() - 1] == value_event(actor, slots[i]));
            }
        }
        assert forall|k: int| #![trigger r[k]] 0 <= k < r.len() implies exists|i: int|
            0 <= i < slots.len() && (#[trigger] slots[i]).slot.data() is Some && r[k] == value_event(actor, slots[i]) by {
            if k < rest.len() {
                assert(r[k] == rest[k]);
                let i = choose|i: int| 0 <= i < init.len() && (#[trigger] init[i]).slot.data() is Some && rest[k] == value_event(actor, init[i]);
                assert(init[i] == slots[i]);
            } else {
                assert(r[k] == value_event(actor, slots[n]));
            }
        }
    }
}

/// An actor that subscribes to a map that has subscribers already is told, at once, of every
/// value the map holds, whoever wrote it: the outputs gain one `OnSet` for the actor per slot
/// that holds a value, and nothing else; no command goes to the storing node.
pub proof fn law_late_subscriber_gets_every_value(m: LocalMapView, now: u64, actor: FeatureControlActor)
    requires
        m.subscribers.len() > 0,
        !m.subscribers.contains(actor),
    ensures
        ({
            let (m2, r) = on_control_spec(m, now, actor, MapControlView::Sub);
            let added = m2.queue.skip(m.queue.len() as int);
            &&& r is None
            &&& m2.subscribers == m.subscribers.push(actor)
            &&& m2.queue.len() >= m.queue.len()
            &&& m2.queue.take(m.queue.len() as int) == m.queue
            &&& forall|i: int| 0 <= i < m.slots.len() && (#[trigger] m.slots[i]).slot.data() is Some ==> added.contains(value_event(actor, m.slots[i]))
            &&& forall|k: int| #![trigger added[k]] 0 <= k < added.len() ==> exists|i: int|
                0 <= i < m.slots.len() && (#[trigger] m.slots[i]).slot.data() is Some && added[k] == value_event(actor, m.slots[i])
        }),
{
    lemma_restored_all(m.slots, actor, m.session);
    let (m2, r) = on_control_spec(m, now, actor, MapControlView::Sub);
    assert(m2.queue.skip(m.queue.len() as int) =~= restored(m.slots, actor, m.session, false));
    assert(m2.queue.take(m.queue.len() as int) =~= m.queue);
}

} // verus!
