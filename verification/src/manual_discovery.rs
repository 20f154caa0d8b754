//! Discovery by tags: a node writes its address under the DHT map of each of its local tags
//! and subscribes to the maps of the tags it connects to; it connects to every node that
//! writes its address there, retries the ones it is not connected to, and disconnects, after
//! a while, from the nodes whose address was deleted.

use std::collections::VecDeque;
use vstd::prelude::*;

use crate::base::{ConnId, ConnectionEvent, NodeAddr, NodeAddrView};
use crate::dht_kv::msg::{copy_bytes, DhtMap, Key, MapControl, MapControlView, MapEvent};
use crate::dht_kv::storage::{Control, ControlView};
use crate::node_conns::{valid_nodes, with_conn, without_conn, NodeConns};
use crate::table::{find_key, has_key, key_index, lemma_push_unique, lemma_remove_unique, remove_key, unique_keys, upsert, upsert_vec, without_key};
use crate::types::NodeId;

verus! {

/// The identifier of the discovery service.
pub const SERVICE_ID: u8 = 0;
/// How often the nodes not connected are connected to again.
pub const RETRY_CONNECT_MS: u64 = 60_000;
/// How long a node whose address was deleted stays connected.
pub const WAIT_DISCONNECT_MS: u64 = 60_000;

/// An output: a command to the DHT, or a connection to open or to close.
#[derive(Debug, PartialEq, Eq)]
pub enum Output {
    Kv(Control),
    ConnectTo(NodeAddr),
    DisconnectFrom(NodeId),
}

/// Mathematical form of [`Output`].
pub enum OutputView {
    Kv(ControlView),
    ConnectTo(NodeAddrView),
    DisconnectFrom(NodeId),
}

impl View for Output {
    type V = OutputView;

    open spec fn view(&self) -> OutputView {
        match self {
            Output::Kv(c) => OutputView::Kv(c@),
            Output::ConnectTo(a) => OutputView::ConnectTo(a@),
            Output::DisconnectFrom(n) => OutputView::DisconnectFrom(*n),
        }
    }
}

pub open spec fn outputs_view(q: Seq<Output>) -> Seq<OutputView> {
    q.map_values(|o: Output| o@)
}

/// Mathematical state of a [`ManualDiscoveryService`]: this node, the outputs not yet handed
/// out, the address of each node found under a tag, the connections of each node, when each
/// node whose address was deleted was so, and when the nodes were last connected to again.
#[verifier::ext_equal]
pub struct ManualView {
    pub node_id: NodeId,
    pub queue: Seq<OutputView>,
    pub nodes: Seq<(u64, NodeAddr)>,
    pub conns: Seq<(u64, Seq<ConnId>)>,
    pub removing: Seq<(u64, u64)>,
    pub last_retry_ms: u64,
}

/// The discovery service of a node.
pub struct ManualDiscoveryService {
    node_id: NodeId,
    queue: VecDeque<Output>,
    nodes: Vec<(u64, NodeAddr)>,
    conns: NodeConns,
    removing_list: Vec<(u64, u64)>,
    last_retry_ms: u64,
}

impl View for ManualDiscoveryService {
    type V = ManualView;

    closed spec fn view(&self) -> ManualView {
        ManualView {
            node_id: self.node_id,
            queue: outputs_view(self.queue@),
            nodes: self.nodes@,
            conns: self.conns@,
            removing: self.removing_list@,
            last_retry_ms: self.last_retry_ms,
        }
    }
}

/// Each node occurs at most once in each table.
pub open spec fn valid(s: ManualView) -> bool {
    &&& unique_keys(s.nodes)
    &&& valid_nodes(s.conns)
    &&& unique_keys(s.removing)
}

/// The commands that write `addr` under each of `local_maps` and subscribe to each of
/// `connect_maps`, in order.
pub open spec fn initial_commands(addr: Seq<u8>, local_maps: Seq<u64>, connect_maps: Seq<u64>) -> Seq<OutputView> {
    local_maps.map_values(|m: u64| OutputView::Kv(ControlView::MapCmd(DhtMap(m), MapControlView::SetValue(Key(0), addr)))) + connect_maps.map_values(
        |m: u64| OutputView::Kv(ControlView::MapCmd(DhtMap(m), MapControlView::Sub)),
    )
}

/// A connection to each node found that has no connection, in order.
pub open spec fn retries(nodes: Seq<(u64, NodeAddr)>, conns: Seq<(u64, Seq<ConnId>)>) -> Seq<OutputView>
    decreases nodes.len(),
{
    if nodes.len() == 0 {
        Seq::empty()
    } else if has_key(conns, nodes.last().0) {
        retries(nodes.drop_last(), conns)
    } else {
        retries(nodes.drop_last(), conns).push(OutputView::ConnectTo(nodes.last().1@))
    }
}

/// Of the nodes whose address was deleted, the ones still waiting at `now`, in order, and a
/// disconnection from each of the others whose address did not come back.
pub open spec fn due_removals(removing: Seq<(u64, u64)>, nodes: Seq<(u64, NodeAddr)>, now: u64) -> (Seq<(u64, u64)>, Seq<OutputView>)
    decreases removing.len(),
{
    if removing.len() == 0 {
        (Seq::empty(), Seq::empty())
    } else {
        let (kept, out) = due_removals(removing.drop_last(), nodes, now);
        let (k, ts) = removing.last();
        if now >= ts + WAIT_DISCONNECT_MS && !has_key(nodes, k) {
            (kept, out.push(OutputView::DisconnectFrom(k as NodeId)))
        } else {
            (kept.push((k, ts)), out)
        }
    }
}

/// A tick at `now`.
pub open spec fn tick_spec(s: ManualView, now: u64) -> ManualView {
    let s1 = if s.last_retry_ms + RETRY_CONNECT_MS <= now {
        ManualView { last_retry_ms: now, queue: s.queue + retries(s.nodes, s.conns), ..s }
    } else {
        s
    };
    ManualView {
        removing: due_removals(s1.removing, s1.nodes, now).0,
        queue: s1.queue + due_removals(s1.removing, s1.nodes, now).1,
        ..s1
    }
}

/// What a connection event does.
pub open spec fn connection_spec(s: ManualView, ev: ConnectionEvent) -> ManualView {
    match ev {
        ConnectionEvent::Connected(ctx) => ManualView { conns: with_conn(s.conns, ctx.node, ctx.conn), ..s },
        ConnectionEvent::Disconnected(ctx) => ManualView { conns: without_conn(s.conns, ctx.node, ctx.conn), ..s },
        _ => s,
    }
}

/// What an event of a map at `now` does; `decoded` is the value of a write decoded as a node
/// address, when it is one.
pub open spec fn map_event_spec(s: ManualView, now: u64, event: MapEvent, decoded: Option<NodeAddr>) -> ManualView {
    match event {
        MapEvent::OnSet(_, source, _) => {
            if source == s.node_id {
                s
            } else {
                match decoded {
                    Some(addr) => ManualView {
                        nodes: upsert(s.nodes, source as u64, addr),
                        queue: s.queue.push(OutputView::ConnectTo(addr@)),
                        removing: without_key(s.removing, source as u64),
                        ..s
                    },
                    None => s,
                }
            }
        },
        MapEvent::OnDel(_, source) => ManualView {
            nodes: without_key(s.nodes, source as u64),
            removing: if has_key(s.removing, source as u64) { s.removing } else { s.removing.push((source as u64, now)) },
            ..s
        },
        MapEvent::OnRelaySelected(_) => s,
    }
}

/// A node whose address is deleted and not written again is disconnected from once the
/// waiting time has passed, and then forgotten.
pub proof fn law_deleted_node_disconnected(s: ManualView, t: u64, now: u64, key: Key, node: NodeId)
    requires
        valid(s),
        now >= t + WAIT_DISCONNECT_MS,
        now < s.last_retry_ms + RETRY_CONNECT_MS,
        s.removing.len() == 0,
    ensures
        ({
            let s1 = map_event_spec(s, t, MapEvent::OnDel(key, node), None);
            let s2 = tick_spec(s1, now);
            &&& s2.queue == s1.queue.push(OutputView::DisconnectFrom(node))
            &&& !has_key(s2.removing, node as u64)
        }),
{
    let s1 = map_event_spec(s, t, MapEvent::OnDel(key, node), None);
    let r = s1.removing;
    assert(r =~= seq![(node as u64, t)]);
    if has_key(s.nodes, node as u64) {
        lemma_remove_unique(s.nodes, key_index(s.nodes, node as u64));
    }
    assert(!has_key(s1.nodes, node as u64)) by {
        if has_key(s.nodes, node as u64) {
            let i = key_index(s.nodes, node as u64);
            assert(s.nodes[i].0 == node as u64);
        }
    }
    assert(r.drop_last() =~= Seq::<(u64, u64)>::empty());
    let e = due_removals(r.drop_last(), s1.nodes, now);
    assert(e.0 =~= Seq::<(u64, u64)>::empty() && e.1 =~= Seq::<OutputView>::empty());
    assert(r.last() == (node as u64, t));
    assert((node as u64) as NodeId == node);
    let d = due_removals(r, s1.nodes, now);
    assert(d.0 =~= Seq::<(u64, u64)>::empty());
    assert(d.1 =~= seq![OutputView::DisconnectFrom(node)]);
}

/// Queues `o`.
fn push_output(queue: &mut VecDeque<Output>, o: Output)
    ensures
        outputs_view(final(queue)@) == outputs_view(old(queue)@).push(o@),
{
    let ghost q = queue@;
    queue.push_back(o);
    assert(outputs_view(queue@) =~= outputs_view(q).push(o@));
}

impl ManualDiscoveryService {
    pub open spec fn wf(&self) -> bool {
        valid(self@)
    }

    /// The service of node `node_id`, whose address encodes to `addr`: it writes the address
    /// under each map of `local_maps` (the maps of its local tags) and subscribes to each map
    /// of `connect_maps` (those of the tags it connects to).
    pub fn new(node_id: NodeId, addr: Vec<u8>, local_maps: Vec<u64>, connect_maps: Vec<u64>) -> (r: Self)
        ensures
            r.wf(),
            r@ == (ManualView {
                node_id,
                queue: initial_commands(addr@, local_maps@, connect_maps@),
                nodes: Seq::empty(),
                conns: Seq::empty(),
                removing: Seq::empty(),
                last_retry_ms: 0,
            }),
    {
        let mut queue: VecDeque<Output> = VecDeque::new();
        let ghost first = local_maps@.map_values(
            |m: u64| OutputView::Kv(ControlView::MapCmd(DhtMap(m), MapControlView::SetValue(Key(0), addr@))),
        );
        let ghost second = connect_maps@.map_values(|m: u64| OutputView::Kv(ControlView::MapCmd(DhtMap(m), MapControlView::Sub)));
        let mut i: usize = 0;
        assert(outputs_view(queue@) =~= first.take(0));
        while i < local_maps.len()
            invariant
                i <= local_maps@.len(),
                first == local_maps@.map_values(
                    |m: u64| OutputView::Kv(ControlView::MapCmd(DhtMap(m), MapControlView::SetValue(Key(0), addr@))),
                ),
                outputs_view(queue@) == first.take(i as int),
            decreases local_maps@.len() - i,
        {
            let o = Output::Kv(Control::MapCmd(DhtMap(local_maps[i]), MapControl::SetValue(Key(0), copy_bytes(&addr))));
            push_output(&mut queue, o);
            assert(first.take(i + 1) =~= first.take(i as int).push(o@));
            i = i + 1;
        }
        assert(first.take(i as int) =~= first);
        let mut j: usize = 0;
        assert(first + second.take(0) =~= first);
        while j < connect_maps.len()
            invariant
                j <= connect_maps@.len(),
                second == connect_maps@.map_values(|m: u64| OutputView::Kv(ControlView::MapCmd(DhtMap(m), MapControlView::Sub))),
                outputs_view(queue@) == first + second.take(j as int),
            decreases connect_maps@.len() - j,
        {
            let o = Output::Kv(Control::MapCmd(DhtMap(connect_maps[j]), MapControl::Sub));
            push_output(&mut queue, o);
            assert(first + second.take(j + 1) =~= (first + second.take(j as int)).push(o@));
            j = j + 1;
        }
        assert(second.take(j as int) =~= second);
        ManualDiscoveryService { node_id, queue, nodes: Vec::new(), conns: NodeConns::new(), removing_list: Vec::new(), last_retry_ms: 0 }
    }

    pub fn service_id(&self) -> (r: u8)
        ensures
            r == SERVICE_ID,
    {
        SERVICE_ID
    }

    /// Connects again to each node found that has no connection.
    fn retry_connect(&mut self)
        requires
            old(self).wf(),
        ensures
            final(self).wf(),
            final(self)@ == (ManualView { queue: old(self)@.queue + retries(old(self)@.nodes, old(self)@.conns), ..old(self)@ }),
    {
        let ghost s0 = self@;
        let mut i: usize = 0;
        proof {
            assert(s0.nodes.take(0) =~= Seq::<(u64, NodeAddr)>::empty());
            assert(s0.queue + Seq::<OutputView>::empty() =~= s0.queue);
        }
        while i < self.nodes.len()
            invariant
                self.wf(),
                i <= s0.nodes.len(),
                self@ == (ManualView { queue: s0.queue + retries(s0.nodes.take(i as int), s0.conns), ..s0 }),
            decreases s0.nodes.len() - i,
        {
            proof {
                assert(s0.nodes.take(i + 1).drop_last() =~= s0.nodes.take(i as int));
                assert(s0.nodes.take(i + 1).last() == s0.nodes[i as int]);
            }
            let k = self.nodes[i].0;
            if !self.conns.has_node_key(k) {
                let a = self.nodes[i].1.duplicate();
                push_output(&mut self.queue, Output::ConnectTo(a));
                proof {
                    assert(s0.queue + retries(s0.nodes.take(i + 1), s0.conns) =~= (s0.queue + retries(s0.nodes.take(i as int), s0.conns)).push(
                        OutputView::ConnectTo(s0.nodes[i as int].1@),
                    ));
                }
            }
            i = i + 1;
        }
        assert(s0.nodes.take(i as int) =~= s0.nodes);
    }

    /// A tick at `now`: every `RETRY_CONNECT_MS`, the nodes found that have no connection are
    /// connected to again; the nodes whose address was deleted `WAIT_DISCONNECT_MS` or more
    /// ago, and not written again, are disconnected from and forgotten.
    pub fn on_tick(&mut self, now: u64)
        requires
            old(self).wf(),
        ensures
            final(self).wf(),
            final(self)@ == tick_spec(old(self)@, now),
    {
        if now >= self.last_retry_ms && now - self.last_retry_ms >= RETRY_CONNECT_MS {
            self.last_retry_ms = now;
            self.retry_connect();
        }
        let ghost s1 = self@;
        let mut rest: Vec<(u64, u64)> = Vec::new();
        std::mem::swap(&mut rest, &mut self.removing_list);
        let ghost ws = rest@;
        proof {
            assert(ws.take(0) =~= Seq::<(u64, u64)>::empty());
            assert(s1.queue + Seq::<OutputView>::empty() =~= s1.queue);
        }
        let mut i: usize = 0;
        while i < rest.len()
            invariant
                rest@ == ws,
                ws == s1.removing,
                unique_keys(ws),
                i <= ws.len(),
                self.removing_list@ == due_removals(ws.take(i as int), s1.nodes, now).0,
                self@.queue == s1.queue + due_removals(ws.take(i as int), s1.nodes, now).1,
                unique_keys(self.removing_list@),
                forall|a: int, b: int| 0 <= a < self.removing_list@.len() && i <= b < ws.len() ==> #[trigger] self.removing_list@[a].0 != #[trigger] ws[b].0,
                self@.nodes == s1.nodes,
                self@.conns == s1.conns,
                self@.node_id == s1.node_id,
                self@.last_retry_ms == s1.last_retry_ms,
                unique_keys(s1.nodes),
                valid_nodes(s1.conns),
            decreases ws.len() - i,
        {
            let ghost kept0 = self.removing_list@;
            let e = rest[i];
            proof {
                assert(ws.take(i + 1).drop_last() =~= ws.take(i as int));
                assert(ws.take(i + 1).last() == ws[i as int]);
            }
            if now >= e.1 && now - e.1 >= WAIT_DISCONNECT_MS && find_key(&self.nodes, e.0).is_none() {
                push_output(&mut self.queue, Output::DisconnectFrom(e.0 as u32));
            } else {
                proof {
                    assert(!has_key(kept0, e.0)) by {
                        if has_key(kept0, e.0) {
                            let a = choose|a: int| 0 <= a < kept0.len() && #[trigger] kept0[a].0 == e.0;
                            assert(kept0[a].0 != ws[i as int].0);
                        }
                    }
                    lemma_push_unique(kept0, e.0, e.1);
                }
                self.removing_list.push(e);
            }
            proof {
                assert forall|a: int, b: int| 0 <= a < self.removing_list@.len() && i + 1 <= b < ws.len() implies #[trigger] self.removing_list@[a].0
                    != #[trigger] ws[b].0 by {
                    if a < kept0.len() {
                        assert(self.removing_list@[a] == kept0[a]);
                    } else {
                        assert(self.removing_list@[a] == ws[i as int]);
                    }
                }
            }
            i = i + 1;
        }
        proof {
            assert(ws.take(i as int) =~= ws);
        }
    }

    /// Handles a connection event.
    pub fn on_connection(&mut self, ev: ConnectionEvent)
        requires
            old(self).wf(),
        ensures
            final(self).wf(),
            final(self)@ == connection_spec(old(self)@, ev),
    {
        match ev {
            ConnectionEvent::Connected(ctx) => self.conns.add(ctx.node, ctx.conn),
            ConnectionEvent::Disconnected(ctx) => self.conns.remove(ctx.node, ctx.conn),
            _ => {},
        }
    }

    /// Handles an event of a map at `now`; `decoded` is the value of a write decoded as a
    /// node address, when it is one.
    pub fn on_map_event(&mut self, now: u64, event: MapEvent, decoded: Option<NodeAddr>)
        requires
            old(self).wf(),
        ensures
            final(self).wf(),
            final(self)@ == map_event_spec(old(self)@, now, event, decoded),
    {
        let ghost s0 = self@;
        match event {
            MapEvent::OnSet(_, source, _) => {
                if source == self.node_id {
                    return;
                }
                if let Some(addr) = decoded {
                    let a = addr.duplicate();
                    upsert_vec(&mut self.nodes, source as u64, addr);
                    push_output(&mut self.queue, Output::ConnectTo(a));
                    remove_key(&mut self.removing_list, source as u64);
                }
            },
            MapEvent::OnDel(_, source) => {
                remove_key(&mut self.nodes, source as u64);
                if find_key(&self.removing_list, source as u64).is_none() {
                    proof {
                        lemma_push_unique(s0.removing, source as u64, now);
                    }
                    self.removing_list.push((source as u64, now));
                }
            },
            MapEvent::OnRelaySelected(_) => {},
        }
    }

    /// Hands out the oldest output.
    pub fn pop_output(&mut self) -> (r: Option<Output>)
        requires
            old(self).wf(),
        ensures
            final(self).wf(),
            old(self)@.queue.len() == 0 ==> r is None && final(self)@ == old(self)@,
            old(self)@.queue.len() > 0 ==> (r matches Some(o) && o@ == old(self)@.queue[0]),
            old(self)@.queue.len() > 0 ==> final(self)@ == (ManualView { queue: old(self)@.queue.drop_first(), ..old(self)@ }),
    {
        let ghost q = self.queue@;
        let r = self.queue.pop_front();
        proof {
            if q.len() > 0 {
                assert(outputs_view(q.drop_first()) =~= outputs_view(q).drop_first());
            }
        }
        r
    }
}

/// The discovery service on a worker: it has nothing to do.
pub struct ManualDiscoveryServiceWorker {}

impl ManualDiscoveryServiceWorker {
    pub fn service_id(&self) -> (r: u8)
        ensures
            r == SERVICE_ID,
    {
        SERVICE_ID
    }
}

/// A copy of a list of map identifiers.
fn copy_maps(v: &Vec<u64>) -> (r: Vec<u64>)
    ensures
        r@ == v@,
{
    let mut r: Vec<u64> = Vec::new();
    let mut i: usize = 0;
    while i < v.len()
        invariant
            i <= v@.len(),
            r@ == v@.take(i as int),
        decreases v@.len() - i,
    {
        r.push(v[i]);
        proof {
            assert(v@.take(i + 1) =~= v@.take(i as int).push(v@[i as int]));
        }
        i = i + 1;
    }
    assert(v@.take(i as int) =~= v@);
    r
}

/// What a node needs to run the discovery service: its identifier, its address (encoded),
/// and the maps of its local tags and of the tags it connects to.
pub struct ManualDiscoveryServiceBuilder {
    node_id: NodeId,
    addr: Vec<u8>,
    local_maps: Vec<u64>,
    connect_maps: Vec<u64>,
}

impl ManualDiscoveryServiceBuilder {
    pub fn new(node_id: NodeId, addr: Vec<u8>, local_maps: Vec<u64>, connect_maps: Vec<u64>) -> (r: Self)
        ensures
            r.config() == (node_id, addr@, local_maps@, connect_maps@),
    {
        ManualDiscoveryServiceBuilder { node_id, addr, local_maps, connect_maps }
    }

    pub closed spec fn config(&self) -> (NodeId, Seq<u8>, Seq<u64>, Seq<u64>) {
        (self.node_id, self.addr@, self.local_maps@, self.connect_maps@)
    }

    pub fn service_id(&self) -> (r: u8)
        ensures
            r == SERVICE_ID,
    {
        SERVICE_ID
    }

    /// A new service with this configuration.
    pub fn create(&self) -> (r: ManualDiscoveryService)
        ensures
            r.wf(),
            r@ == (ManualView {
                node_id: self.config().0,
                queue: initial_commands(self.config().1, self.config().2, self.config().3),
                nodes: Seq::empty(),
                conns: Seq::empty(),
                removing: Seq::empty(),
                last_retry_ms: 0,
            }),
    {
        ManualDiscoveryService::new(self.node_id, copy_bytes(&self.addr), copy_maps(&self.local_maps), copy_maps(&self.connect_maps))
    }

    /// A new worker.
    pub fn create_worker(&self) -> (r: ManualDiscoveryServiceWorker) {
        ManualDiscoveryServiceWorker {}
    }
}

} // verus!
