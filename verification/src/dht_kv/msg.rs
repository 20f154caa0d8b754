//! Messages exchanged between DHT clients and the node that stores a map.

use vstd::prelude::*;

use crate::types::NodeId;

verus! {

/// Identifier of a map (its route key is the low 32 bits).
#[derive(Debug, Clone, Copy, PartialEq, Eq, Structural, Hash)]
pub struct DhtMap(pub u64);

/// Sub-key inside a map.
#[derive(Debug, Clone, Copy, PartialEq, Eq, Structural, Hash)]
pub struct Key(pub u64);

/// Version of a value; newer writes carry greater versions.
#[derive(Debug, Clone, Copy, PartialEq, Eq, Structural, Hash)]
pub struct Version(pub u64);

/// Sequence number.
#[derive(Debug, Clone, Copy, PartialEq, Eq, Structural, Hash)]
pub struct DhtSeq(pub u64);

/// A node together with the session it runs; a restarted node has a new session.
#[derive(Debug, Clone, Copy, PartialEq, Eq, Structural, Hash)]
pub struct NodeSession(pub NodeId, pub u64);

} // verus!

verus! {

/// Why a value was deleted.
#[derive(Debug, Clone, Copy, PartialEq, Eq, Structural)]
pub enum DelReason {
    Timeout,
    Remote,
}

/// Error of a map read.
#[derive(Debug, Clone, Copy, PartialEq, Eq, Structural)]
pub enum GetError {
    Timeout,
    NotFound,
}

/// A command that a user gives to a map.
#[derive(Debug, PartialEq, Eq)]
pub enum MapControl {
    SetValue(Key, Vec<u8>),
    Del(Key),
    Sub,
    Unsub,
}

/// Mathematical form of [`MapControl`].
pub enum MapControlView {
    SetValue(Key, Seq<u8>),
    Del(Key),
    Sub,
    Unsub,
}

impl View for MapControl {
    type V = MapControlView;

    open spec fn view(&self) -> MapControlView {
        match self {
            MapControl::SetValue(k, d) => MapControlView::SetValue(*k, d@),
            MapControl::Del(k) => MapControlView::Del(*k),
            MapControl::Sub => MapControlView::Sub,
            MapControl::Unsub => MapControlView::Unsub,
        }
    }
}

impl MapControlView {
    pub open spec fn is_creator(self) -> bool {
        self is SetValue || self is Sub
    }
}

impl MapControl {
    /// A command that may create the map where it does not exist yet.
    pub fn is_creator(&self) -> (r: bool)
        ensures
            r == self@.is_creator(),
    {
        match self {
            MapControl::SetValue(_, _) | MapControl::Sub => true,
            _ => false,
        }
    }
}

/// An event that a map reports to its subscribers.
#[derive(Debug, PartialEq, Eq)]
pub enum MapEvent {
    OnSet(Key, NodeId, Vec<u8>),
    OnDel(Key, NodeId),
    OnRelaySelected(NodeId),
}

/// Mathematical form of [`MapEvent`].
pub enum MapEventView {
    OnSet(Key, NodeId, Seq<u8>),
    OnDel(Key, NodeId),
    OnRelaySelected(NodeId),
}

impl View for MapEvent {
    type V = MapEventView;

    open spec fn view(&self) -> MapEventView {
        match self {
            MapEvent::OnSet(k, n, d) => MapEventView::OnSet(*k, *n, d@),
            MapEvent::OnDel(k, n) => MapEventView::OnDel(*k, *n),
            MapEvent::OnRelaySelected(n) => MapEventView::OnRelaySelected(*n),
        }
    }
}

impl Clone for MapEvent {
    fn clone(&self) -> (r: Self)
        ensures
            r@ == self@,
    {
        match self {
            MapEvent::OnSet(k, n, d) => MapEvent::OnSet(*k, *n, copy_bytes(d)),
            MapEvent::OnDel(k, n) => MapEvent::OnDel(*k, *n),
            MapEvent::OnRelaySelected(n) => MapEvent::OnRelaySelected(*n),
        }
    }
}

/// Copies a byte vector.
pub fn copy_bytes(d: &Vec<u8>) -> (r: Vec<u8>)
    ensures
        r@ == d@,
{
    let r = d.clone();
    assert(r@ =~= d@);
    r
}

/// A command that a client sends to the node that stores a map.
#[derive(Debug, PartialEq, Eq)]
pub enum ClientMapCommand {
    SetValue(Key, Version, Vec<u8>),
    Del(Key, Version),
    Sub(u64, Option<NodeSession>),
    Unsub(u64),
    OnSetAck(Key, NodeSession, Version),
    OnDelAck(Key, NodeSession, Version),
}

/// Mathematical form of [`ClientMapCommand`].
pub enum ClientMapCommandView {
    SetValue(Key, Version, Seq<u8>),
    Del(Key, Version),
    Sub(u64, Option<NodeSession>),
    Unsub(u64),
    OnSetAck(Key, NodeSession, Version),
    OnDelAck(Key, NodeSession, Version),
}

impl View for ClientMapCommand {
    type V = ClientMapCommandView;

    open spec fn view(&self) -> ClientMapCommandView {
        match self {
            ClientMapCommand::SetValue(k, v, d) => ClientMapCommandView::SetValue(*k, *v, d@),
            ClientMapCommand::Del(k, v) => ClientMapCommandView::Del(*k, *v),
            ClientMapCommand::Sub(id, s) => ClientMapCommandView::Sub(*id, *s),
            ClientMapCommand::Unsub(id) => ClientMapCommandView::Unsub(*id),
            ClientMapCommand::OnSetAck(k, s, v) => ClientMapCommandView::OnSetAck(*k, *s, *v),
            ClientMapCommand::OnDelAck(k, s, v) => ClientMapCommandView::OnDelAck(*k, *s, *v),
        }
    }
}

impl ClientMapCommandView {
    pub open spec fn is_creator(self) -> bool {
        self is SetValue || self is Sub
    }
}

impl ClientMapCommand {
    /// A command that may create the map on the storing node where it does not exist yet.
    pub fn is_creator(&self) -> (r: bool)
        ensures
            r == self@.is_creator(),
    {
        match self {
            ClientMapCommand::SetValue(_, _, _) => true,
            ClientMapCommand::Sub(_, _) => true,
            _ => false,
        }
    }
}

/// An event that the storing node sends back to a client.
#[derive(Debug, PartialEq, Eq)]
pub enum ServerMapEvent {
    SetOk(Key, Version),
    DelOk(Key, Version),
    SubOk(u64),
    UnsubOk(u64),
    OnSet { key: Key, source: NodeSession, version: Version, data: Vec<u8> },
    OnDel { key: Key, source: NodeSession, version: Version },
}

/// Mathematical form of [`ServerMapEvent`].
pub enum ServerMapEventView {
    SetOk(Key, Version),
    DelOk(Key, Version),
    SubOk(u64),
    UnsubOk(u64),
    OnSet { key: Key, source: NodeSession, version: Version, data: Seq<u8> },
    OnDel { key: Key, source: NodeSession, version: Version },
}

impl View for ServerMapEvent {
    type V = ServerMapEventView;

    open spec fn view(&self) -> ServerMapEventView {
        match self {
            ServerMapEvent::SetOk(k, v) => ServerMapEventView::SetOk(*k, *v),
            ServerMapEvent::DelOk(k, v) => ServerMapEventView::DelOk(*k, *v),
            ServerMapEvent::SubOk(id) => ServerMapEventView::SubOk(*id),
            ServerMapEvent::UnsubOk(id) => ServerMapEventView::UnsubOk(*id),
            ServerMapEvent::OnSet { key, source, version, data } => ServerMapEventView::OnSet {
                key: *key,
                source: *source,
                version: *version,
                data: data@,
            },
            ServerMapEvent::OnDel { key, source, version } => ServerMapEventView::OnDel {
                key: *key,
                source: *source,
                version: *version,
            },
        }
    }
}

impl Clone for ServerMapEvent {
    fn clone(&self) -> (r: Self)
        ensures
            r@ == self@,
    {
        match self {
            ServerMapEvent::SetOk(k, v) => ServerMapEvent::SetOk(*k, *v),
            ServerMapEvent::DelOk(k, v) => ServerMapEvent::DelOk(*k, *v),
            ServerMapEvent::SubOk(id) => ServerMapEvent::SubOk(*id),
            ServerMapEvent::UnsubOk(id) => ServerMapEvent::UnsubOk(*id),
            ServerMapEvent::OnSet { key, source, version, data } => ServerMapEvent::OnSet {
                key: *key,
                source: *source,
                version: *version,
                data: copy_bytes(data),
            },
            ServerMapEvent::OnDel { key, source, version } => ServerMapEvent::OnDel {
                key: *key,
                source: *source,
                version: *version,
            },
        }
    }
}

} // verus!

verus! {

/// Copies a byte slice into a new vector.
pub fn bytes_of(d: &[u8]) -> (r: Vec<u8>)
    ensures
        r@ == d@,
{
    let mut r: Vec<u8> = Vec::new();
    let mut i: usize = 0;
    while i < d.len()
        invariant
            i <= d@.len(),
            r@ == d@.take(i as int),
        decreases d@.len() - i,
    {
        r.push(d[i]);
        assert(d@.take(i + 1) =~= d@.take(i as int).push(d@[i as int]));
        i = i + 1;
    }
    assert(d@.take(i as int) =~= d@);
    r
}

} // verus!
