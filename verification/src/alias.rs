//! Aliases: a node registers a 64-bit alias and announces it to the nodes running a service;
//! another node finds where an alias lives, locally, from a recent hint, by checking the
//! hinted node, or by scanning the service's nodes.

use std::collections::VecDeque;
use vstd::prelude::*;

use crate::base::{ForwardingWorker, RouteRule};
use crate::table::{find_key, has_key, key_index, lemma_key_index, lemma_push_unique, lemma_remove_unique, lemma_update_unique, remove_key, unique_keys, upsert, upsert_vec, value_of, without_key};
use crate::types::{FeatureControlActor, NodeId, ServiceBroadcastLevel, ServiceId};

verus! {

/// The identifier of the alias feature.
pub const FEATURE_ID: u8 = 6;
/// A hint is used as it is for this long; a check of the hinted node is given this long.
pub const HINT_TIMEOUT_MS: u64 = 2000;
/// A scan is given this long.
pub const SCAN_TIMEOUT_MS: u64 = 5000;

/// What a local actor asks: register or unregister an alias on this node, or find one, with
/// the service (and broadcast level) whose nodes are told or scanned.
#[derive(Debug, Clone, Copy, PartialEq, Eq, Structural)]
pub enum Control {
    Register { alias: u64, service: ServiceId, level: ServiceBroadcastLevel },
    Query { alias: u64, service: ServiceId, level: ServiceBroadcastLevel },
    Unregister { alias: u64 },
}

/// Where an alias was found.
#[derive(Debug, Clone, Copy, PartialEq, Eq, Structural)]
pub enum FoundLocation {
    Local,
    Notify(NodeId),
    CachedHint(NodeId),
    RemoteHint(NodeId),
    RemoteScan(NodeId),
}

/// The answer to a query: where the alias is, or nothing when the search timed out.
#[derive(Debug, Clone, Copy, PartialEq, Eq, Structural)]
pub enum Event {
    QueryResult(u64, Option<FoundLocation>),
}

/// What the controller sends to the workers (nothing is ever sent).
#[derive(Debug, Clone, Copy, PartialEq, Eq, Structural)]
pub struct ToWorker;

/// What a worker sends to the controller (nothing is ever sent).
#[derive(Debug, Clone, Copy, PartialEq, Eq, Structural)]
pub struct ToController;

/// A message between alias features.
#[derive(Debug, Clone, Copy, PartialEq, Eq, Structural)]
pub enum Message {
    Notify(u64),
    Scan(u64),
    Check(u64),
    Found(u64, bool),
}

/// An output: an answer for a local actor, or a message to route (secure, with the default
/// time to live).
#[derive(Debug, Clone, Copy, PartialEq, Eq, Structural)]
pub enum Output {
    Event(FeatureControlActor, Event),
    SendRoute(RouteRule, Message),
}

/// An input: a control of a local actor, or a decoded message from this node or from the
/// network, with whether it came secured and the node it came from.
#[derive(Debug, Clone, Copy, PartialEq, Eq, Structural)]
pub enum FeatureInput {
    Control(FeatureControlActor, Control),
    Local(bool, Option<NodeId>, Message),
    Net(bool, Option<NodeId>, Message),
}

/// How a query goes on: checking the hinted node since a time, or scanning since a time.
#[derive(Debug, Clone, Copy, PartialEq, Eq, Structural)]
pub enum QueryState {
    CheckHint(NodeId, u64),
    Scan(u64),
}

/// The last node known to hold an alias, and when it was learned.
#[derive(Debug, Clone, Copy, PartialEq, Eq, Structural)]
pub struct HintSlot {
    pub node: NodeId,
    pub ts: u64,
}

/// A query in progress: the actors waiting for it, how it goes on, and the service to scan.
struct QuerySlot {
    waiters: Vec<FeatureControlActor>,
    state: QueryState,
    service: ServiceId,
    level: ServiceBroadcastLevel,
}

/// Mathematical form of a query in progress.
#[verifier::ext_equal]
pub struct QuerySlotView {
    pub waiters: Seq<FeatureControlActor>,
    pub state: QueryState,
    pub service: ServiceId,
    pub level: ServiceBroadcastLevel,
}

impl QuerySlot {
    spec fn view(&self) -> QuerySlotView {
        QuerySlotView { waiters: self.waiters@, state: self.state, service: self.service, level: self.level }
    }
}

spec fn entry_view(e: (u64, QuerySlot)) -> (u64, QuerySlotView) {
    (e.0, e.1.view())
}

spec fn queries_view(s: Seq<(u64, QuerySlot)>) -> Seq<(u64, QuerySlotView)> {
    s.map_values(|e: (u64, QuerySlot)| entry_view(e))
}

/// Mathematical state of an [`AliasFeature`]: the queries in progress, the hints and the
/// local aliases (with when each was registered), each keyed by alias in arrival order; the
/// outputs not yet handed out; the next sequence number of a broadcast.
#[verifier::ext_equal]
pub struct AliasView {
    pub queries: Seq<(u64, QuerySlotView)>,
    pub hints: Seq<(u64, HintSlot)>,
    pub locals: Seq<(u64, u64)>,
    pub queue: Seq<Output>,
    pub scan_seq: u16,
}

/// The alias feature of a node.
pub struct AliasFeature {
    queries: Vec<(u64, QuerySlot)>,
    hint_slots: Vec<(u64, HintSlot)>,
    local_slots: Vec<(u64, u64)>,
    queue: VecDeque<Output>,
    scan_seq: u16,
}

impl View for AliasFeature {
    type V = AliasView;

    closed spec fn view(&self) -> AliasView {
        AliasView {
            queries: queries_view(self.queries@),
            hints: self.hint_slots@,
            locals: self.local_slots@,
            queue: self.queue@,
            scan_seq: self.scan_seq,
        }
    }
}

/// Each alias occurs at most once among the queries, the hints and the local aliases.
pub open spec fn valid(s: AliasView) -> bool {
    &&& unique_keys(s.queries)
    &&& unique_keys(s.hints)
    &&& unique_keys(s.locals)
}

/// The sequence number after `x`, wrapping around.
pub open spec fn next_seq(x: u16) -> u16 {
    if x == 0xffff {
        0
    } else {
        (x + 1) as u16
    }
}

/// The answer `result` for each of `waiters`, in order.
pub open spec fn answers(waiters: Seq<FeatureControlActor>, alias: u64, result: Option<FoundLocation>) -> Seq<Output> {
    waiters.map_values(|a: FeatureControlActor| Output::Event(a, Event::QueryResult(alias, result)))
}

/// The message broadcast to the nodes of a service, with the current sequence number.
pub open spec fn broadcast(s: AliasView, service: ServiceId, level: ServiceBroadcastLevel, m: Message) -> Output {
    Output::SendRoute(RouteRule::ToServices(service, level, s.scan_seq), m)
}

/// What a control of a local actor does at `now`.
pub open spec fn control_spec(s: AliasView, now: u64, actor: FeatureControlActor, control: Control) -> AliasView {
    match control {
        Control::Register { alias, service, level } => AliasView {
            locals: upsert(s.locals, alias, now),
            queue: s.queue.push(broadcast(s, service, level, Message::Notify(alias))),
            scan_seq: next_seq(s.scan_seq),
            ..s
        },
        Control::Query { alias, service, level } => {
            if has_key(s.locals, alias) {
                AliasView { queue: s.queue.push(Output::Event(actor, Event::QueryResult(alias, Some(FoundLocation::Local)))), ..s }
            } else if has_key(s.queries, alias) {
                let q = value_of(s.queries, alias);
                AliasView {
                    queries: s.queries.update(key_index(s.queries, alias), (alias, QuerySlotView { waiters: q.waiters.push(actor), ..q })),
                    ..s
                }
            } else if has_key(s.hints, alias) {
                let hint = value_of(s.hints, alias);
                if hint.ts + HINT_TIMEOUT_MS >= now {
                    AliasView {
                        queue: s.queue.push(Output::Event(actor, Event::QueryResult(alias, Some(FoundLocation::CachedHint(hint.node))))),
                        ..s
                    }
                } else {
                    AliasView {
                        queries: s.queries.push(
                            (alias, QuerySlotView { waiters: seq![actor], state: QueryState::CheckHint(hint.node, now), service, level }),
                        ),
                        queue: s.queue.push(Output::SendRoute(RouteRule::ToNode(hint.node), Message::Check(alias))),
                        ..s
                    }
                }
            } else {
                AliasView {
                    queries: s.queries.push((alias, QuerySlotView { waiters: seq![actor], state: QueryState::Scan(now), service, level })),
                    queue: s.queue.push(broadcast(s, service, level, Message::Scan(alias))),
                    scan_seq: next_seq(s.scan_seq),
                    ..s
                }
            }
        },
        Control::Unregister { alias } => AliasView { locals: without_key(s.locals, alias), ..s },
    }
}

/// What a message from node `from` does at `now`.
pub open spec fn remote_spec(s: AliasView, now: u64, from: NodeId, msg: Message) -> AliasView {
    match msg {
        Message::Notify(alias) => {
            let hints = upsert(s.hints, alias, HintSlot { node: from, ts: now });
            if has_key(s.queries, alias) {
                AliasView {
                    hints,
                    queries: without_key(s.queries, alias),
                    queue: s.queue + answers(value_of(s.queries, alias).waiters, alias, Some(FoundLocation::Notify(from))),
                    ..s
                }
            } else {
                AliasView { hints, ..s }
            }
        },
        Message::Scan(alias) => {
            if has_key(s.locals, alias) {
                AliasView { queue: s.queue.push(Output::SendRoute(RouteRule::ToNode(from), Message::Found(alias, true))), ..s }
            } else {
                s
            }
        },
        Message::Check(alias) => AliasView {
            queue: s.queue.push(Output::SendRoute(RouteRule::ToNode(from), Message::Found(alias, has_key(s.locals, alias)))),
            ..s
        },
        Message::Found(alias, found) => {
            let s1 = if found {
                AliasView { hints: upsert(s.hints, alias, HintSlot { node: from, ts: now }), ..s }
            } else {
                s
            };
            if has_key(s.queries, alias) {
                let q = value_of(s.queries, alias);
                match q.state {
                    QueryState::CheckHint(node, _) => {
                        if node != from {
                            s1
                        } else if found {
                            AliasView {
                                queries: without_key(s.queries, alias),
                                queue: s.queue + answers(q.waiters, alias, Some(FoundLocation::RemoteHint(from))),
                                ..s1
                            }
                        } else {
                            AliasView {
                                queries: s.queries.update(key_index(s.queries, alias), (alias, QuerySlotView { state: QueryState::Scan(now), ..q })),
                                queue: s.queue.push(broadcast(s, q.service, q.level, Message::Scan(alias))),
                                scan_seq: next_seq(s.scan_seq),
                                ..s1
                            }
                        }
                    },
                    QueryState::Scan(_) => {
                        if !found {
                            s1
                        } else {
                            AliasView {
                                queries: without_key(s.queries, alias),
                                queue: s.queue + answers(q.waiters, alias, Some(FoundLocation::RemoteScan(from))),
                                ..s1
                            }
                        }
                    },
                }
            } else {
                s1
            }
        },
    }
}

/// What an input does at `now`: a message is taken only when it came secured from a known
/// node.
pub open spec fn input_spec(s: AliasView, now: u64, input: FeatureInput) -> AliasView {
    match input {
        FeatureInput::Control(actor, control) => control_spec(s, now, actor, control),
        FeatureInput::Local(secure, source, msg) | FeatureInput::Net(secure, source, msg) => {
            if secure && source is Some {
                remote_spec(s, now, source->0, msg)
            } else {
                s
            }
        },
    }
}

/// A tick at `now` over the queries, in order: a check of a hint that timed out turns into
/// a scan, whose broadcast takes the next sequence number; a scan that timed out leaves, with
/// its waiters. The result: the queries that stay, the broadcasts, the next sequence
/// number, and the aliases that timed out with their waiters.
pub open spec fn tick_queries(qs: Seq<(u64, QuerySlotView)>, now: u64, seq: u16) -> (
    Seq<(u64, QuerySlotView)>,
    Seq<Output>,
    u16,
    Seq<(u64, Seq<FeatureControlActor>)>,
)
    decreases qs.len(),
{
    if qs.len() == 0 {
        (Seq::empty(), Seq::empty(), seq, Seq::empty())
    } else {
        let (kept, out, seq1, expired) = tick_queries(qs.drop_last(), now, seq);
        let (alias, q) = qs.last();
        match q.state {
            QueryState::CheckHint(_, started) => {
                if now >= started + HINT_TIMEOUT_MS {
                    (
                        kept.push((alias, QuerySlotView { state: QueryState::Scan(now), ..q })),
                        out.push(Output::SendRoute(RouteRule::ToServices(q.service, q.level, seq1), Message::Scan(alias))),
                        next_seq(seq1),
                        expired,
                    )
                } else {
                    (kept.push((alias, q)), out, seq1, expired)
                }
            },
            QueryState::Scan(started) => {
                if now >= started + SCAN_TIMEOUT_MS {
                    (kept, out, seq1, expired.push((alias, q.waiters)))
                } else {
                    (kept.push((alias, q)), out, seq1, expired)
                }
            },
        }
    }
}

/// The answers, with no location, for the waiters of the queries that timed out, in order.
pub open spec fn expired_answers(expired: Seq<(u64, Seq<FeatureControlActor>)>) -> Seq<Output>
    decreases expired.len(),
{
    if expired.len() == 0 {
        Seq::empty()
    } else {
        expired_answers(expired.drop_last()) + answers(expired.last().1, expired.last().0, None)
    }
}

/// A tick at `now`.
pub open spec fn tick_spec(s: AliasView, now: u64) -> AliasView {
    let (kept, out, seq, expired) = tick_queries(s.queries, now, s.scan_seq);
    AliasView { queries: kept, queue: s.queue + out + expired_answers(expired), scan_seq: seq, ..s }
}

/// The sequence number after `x`, wrapping around.
fn next_seq_of(x: u16) -> (r: u16)
    ensures
        r == next_seq(x),
{
    if x == 0xffff {
        0
    } else {
        x + 1
    }
}

/// Queues the answer `result` for each of `waiters`, in order.
fn push_answers(queue: &mut VecDeque<Output>, waiters: &Vec<FeatureControlActor>, alias: u64, result: Option<FoundLocation>)
    ensures
        final(queue)@ == old(queue)@ + answers(waiters@, alias, result),
{
    let ghost q0 = queue@;
    let mut j: usize = 0;
    while j < waiters.len()
        invariant
            j <= waiters@.len(),
            queue@ == q0 + answers(waiters@.take(j as int), alias, result),
        decreases waiters@.len() - j,
    {
        queue.push_back(Output::Event(waiters[j], Event::QueryResult(alias, result)));
        proof {
            assert(answers(waiters@.take(j + 1), alias, result) =~= answers(waiters@.take(j as int), alias, result).push(
                Output::Event(waiters@[j as int], Event::QueryResult(alias, result)),
            ));
        }
        j = j + 1;
    }
    assert(waiters@.take(j as int) =~= waiters@);
}

impl AliasFeature {
    /// Each alias occurs at most once among the queries, the hints and the local aliases.
    pub open spec fn wf(&self) -> bool {
        valid(self@)
    }

    /// A feature with no query, hint or alias, whose first broadcast has sequence number 0.
    pub fn new() -> (r: Self)
        ensures
            r.wf(),
            r@ == (AliasView { queries: Seq::empty(), hints: Seq::empty(), locals: Seq::empty(), queue: Seq::empty(), scan_seq: 0 }),
    {
        let r = AliasFeature { queries: Vec::new(), hint_slots: Vec::new(), local_slots: Vec::new(), queue: VecDeque::new(), scan_seq: 0 };
        assert(r@.queries =~= Seq::empty());
        r
    }

    pub fn feature_type(&self) -> (r: u8)
        ensures
            r == FEATURE_ID,
    {
        FEATURE_ID
    }

    /// The place of the query for `k`, if there is one.
    fn find_query(&self, k: u64) -> (r: Option<usize>)
        requires
            self.wf(),
        ensures
            match r {
                Some(i) => {
                    &&& has_key(self@.queries, k)
                    &&& i == key_index(self@.queries, k)
                    &&& i < self.queries@.len()
                    &&& self.queries@[i as int].0 == k
                    &&& value_of(self@.queries, k) == self.queries@[i as int].1.view()
                },
                None => !has_key(self@.queries, k),
            },
    {
        let ghost qs = self@.queries;
        let mut i: usize = 0;
        while i < self.queries.len()
            invariant
                self.wf(),
                qs == self@.queries,
                qs.len() == self.queries@.len(),
                i <= qs.len(),
                forall|j: int| 0 <= j < i ==> qs[j].0 != k,
            decreases qs.len() - i,
        {
            assert(qs[i as int] == entry_view(self.queries@[i as int]));
            if self.queries[i].0 == k {
                proof {
                    lemma_key_index(qs, k, i as int);
                }
                return Some(i);
            }
            i = i + 1;
        }
        None
    }

    /// Adds `actor` to the waiters of the query at `i`.
    fn add_waiter(&mut self, i: usize, actor: FeatureControlActor)
        requires
            old(self).wf(),
            i < old(self).queries@.len(),
        ensures
            final(self).wf(),
            final(self)@ == (AliasView {
                queries: old(self)@.queries.update(
                    i as int,
                    (old(self)@.queries[i as int].0, QuerySlotView { waiters: old(self)@.queries[i as int].1.waiters.push(actor), ..old(self)@.queries[i as int].1 }),
                ),
                ..old(self)@
            }),
    {
        let ghost s0 = self@;
        let (k, mut slot) = self.queries.remove(i);
        slot.waiters.push(actor);
        self.queries.insert(i, (k, slot));
        proof {
            let q = s0.queries[i as int].1;
            assert(self@.queries =~= s0.queries.update(i as int, (s0.queries[i as int].0, QuerySlotView { waiters: q.waiters.push(actor), ..q })));
            lemma_update_unique(s0.queries, i as int, QuerySlotView { waiters: q.waiters.push(actor), ..q });
        }
    }

    /// Drops the query at `i`, handing out its waiters.
    fn take_query(&mut self, i: usize) -> (r: Vec<FeatureControlActor>)
        requires
            old(self).wf(),
            i < old(self).queries@.len(),
        ensures
            final(self).wf(),
            r@ == old(self)@.queries[i as int].1.waiters,
            final(self)@ == (AliasView { queries: old(self)@.queries.remove(i as int), ..old(self)@ }),
    {
        let ghost s0 = self@;
        let (_, slot) = self.queries.remove(i);
        proof {
            assert(self@.queries =~= s0.queries.remove(i as int));
            lemma_remove_unique(s0.queries, i as int);
        }
        slot.waiters
    }

    /// Sets the query at `i` scanning since `now`.
    fn start_scan(&mut self, i: usize, now: u64)
        requires
            old(self).wf(),
            i < old(self).queries@.len(),
        ensures
            final(self).wf(),
            final(self)@ == (AliasView {
                queries: old(self)@.queries.update(
                    i as int,
                    (old(self)@.queries[i as int].0, QuerySlotView { state: QueryState::Scan(now), ..old(self)@.queries[i as int].1 }),
                ),
                ..old(self)@
            }),
    {
        let ghost s0 = self@;
        let (k, mut slot) = self.queries.remove(i);
        slot.state = QueryState::Scan(now);
        self.queries.insert(i, (k, slot));
        proof {
            let q = s0.queries[i as int].1;
            assert(self@.queries =~= s0.queries.update(i as int, (s0.queries[i as int].0, QuerySlotView { state: QueryState::Scan(now), ..q })));
            lemma_update_unique(s0.queries, i as int, QuerySlotView { state: QueryState::Scan(now), ..q });
        }
    }

    /// Takes the current broadcast sequence number and moves to the next.
    fn gen_seq(&mut self) -> (seq: u16)
        ensures
            seq == old(self)@.scan_seq,
            final(self)@ == (AliasView { scan_seq: next_seq(old(self)@.scan_seq), ..old(self)@ }),
    {
        let seq = self.scan_seq;
        self.scan_seq = next_seq_of(seq);
        seq
    }
}

impl AliasFeature {
    /// Handles a control of a local actor at `now`.
    fn process_control(&mut self, now: u64, actor: FeatureControlActor, control: Control)
        requires
            old(self).wf(),
        ensures
            final(self).wf(),
            final(self)@ == control_spec(old(self)@, now, actor, control),
    {
        let ghost s0 = self@;
        match control {
            Control::Register { alias, service, level } => {
                upsert_vec(&mut self.local_slots, alias, now);
                let seq = self.gen_seq();
                self.queue.push_back(Output::SendRoute(RouteRule::ToServices(service, level, seq), Message::Notify(alias)));
            },
            Control::Query { alias, service, level } => {
                if find_key(&self.local_slots, alias).is_some() {
                    self.queue.push_back(Output::Event(actor, Event::QueryResult(alias, Some(FoundLocation::Local))));
                } else if let Some(i) = self.find_query(alias) {
                    self.add_waiter(i, actor);
                } else if let Some(h) = find_key(&self.hint_slots, alias) {
                    let hint = self.hint_slots[h].1;
                    if now <= hint.ts || now - hint.ts <= HINT_TIMEOUT_MS {
                        self.queue.push_back(Output::Event(actor, Event::QueryResult(alias, Some(FoundLocation::CachedHint(hint.node)))));
                    } else {
                        let slot = QuerySlot { waiters: vec![actor], state: QueryState::CheckHint(hint.node, now), service, level };
                        proof {
                            assert(slot.waiters@ =~= seq![actor]);
                            lemma_push_unique(s0.queries, alias, slot.view());
                        }
                        self.queries.push((alias, slot));
                        self.queue.push_back(Output::SendRoute(RouteRule::ToNode(hint.node), Message::Check(alias)));
                        proof {
                            assert(self@.queries =~= s0.queries.push((alias, slot.view())));
                        }
                    }
                } else {
                    let slot = QuerySlot { waiters: vec![actor], state: QueryState::Scan(now), service, level };
                    proof {
                        assert(slot.waiters@ =~= seq![actor]);
                        lemma_push_unique(s0.queries, alias, slot.view());
                    }
                    self.queries.push((alias, slot));
                    let seq = self.gen_seq();
                    self.queue.push_back(Output::SendRoute(RouteRule::ToServices(service, level, seq), Message::Scan(alias)));
                    proof {
                        assert(self@.queries =~= s0.queries.push((alias, slot.view())));
                    }
                }
            },
            Control::Unregister { alias } => {
                remove_key(&mut self.local_slots, alias);
            },
        }
    }

    /// Handles a message from node `from` at `now`.
    pub fn process_remote(&mut self, now: u64, from: NodeId, msg: Message)
        requires
            old(self).wf(),
        ensures
            final(self).wf(),
            final(self)@ == remote_spec(old(self)@, now, from, msg),
    {
        let ghost s0 = self@;
        match msg {
            Message::Notify(alias) => {
                upsert_vec(&mut self.hint_slots, alias, HintSlot { node: from, ts: now });
                if let Some(i) = self.find_query(alias) {
                    let waiters = self.take_query(i);
                    push_answers(&mut self.queue, &waiters, alias, Some(FoundLocation::Notify(from)));
                }
            },
            Message::Scan(alias) => {
                if find_key(&self.local_slots, alias).is_some() {
                    self.queue.push_back(Output::SendRoute(RouteRule::ToNode(from), Message::Found(alias, true)));
                }
            },
            Message::Check(alias) => {
                let found = find_key(&self.local_slots, alias).is_some();
                self.queue.push_back(Output::SendRoute(RouteRule::ToNode(from), Message::Found(alias, found)));
            },
            Message::Found(alias, found) => {
                if found {
                    upsert_vec(&mut self.hint_slots, alias, HintSlot { node: from, ts: now });
                }
                if let Some(i) = self.find_query(alias) {
                    let state = self.queries[i].1.state;
                    match state {
                        QueryState::CheckHint(node, _) => {
                            if node != from {
                                return;
                            }
                            if found {
                                let waiters = self.take_query(i);
                                push_answers(&mut self.queue, &waiters, alias, Some(FoundLocation::RemoteHint(from)));
                            } else {
                                let service = self.queries[i].1.service;
                                let level = self.queries[i].1.level;
                                self.start_scan(i, now);
                                let seq = self.gen_seq();
                                self.queue.push_back(Output::SendRoute(RouteRule::ToServices(service, level, seq), Message::Scan(alias)));
                            }
                        },
                        QueryState::Scan(_) => {
                            if !found {
                                return;
                            }
                            let waiters = self.take_query(i);
                            push_answers(&mut self.queue, &waiters, alias, Some(FoundLocation::RemoteScan(from)));
                        },
                    }
                }
            },
        }
    }
}

/// The queries that timed out, with their waiters as sequences.
spec fn expired_view(e: Seq<(u64, Vec<FeatureControlActor>)>) -> Seq<(u64, Seq<FeatureControlActor>)> {
    e.map_values(|x: (u64, Vec<FeatureControlActor>)| (x.0, x.1@))
}

impl AliasFeature {
    /// A tick at `now`: a check of a hint that timed out turns into a scan; a scan that timed
    /// out ends, and its waiters learn that the alias was not found.
    pub fn on_tick(&mut self, now: u64)
        requires
            old(self).wf(),
        ensures
            final(self).wf(),
            final(self)@ == tick_spec(old(self)@, now),
    {
        let ghost s0 = self@;
        let ghost qs = s0.queries;
        let ghost n = qs.len();
        let mut rest: Vec<(u64, QuerySlot)> = Vec::new();
        std::mem::swap(&mut rest, &mut self.queries);
        let mut expired: Vec<(u64, Vec<FeatureControlActor>)> = Vec::new();
        proof {
            assert(self@.queries =~= Seq::empty());
            assert(qs.take(0) =~= Seq::empty());
            assert(expired_view(expired@) =~= Seq::empty());
            assert(s0.queue + Seq::empty() =~= s0.queue);
        }
        while rest.len() > 0
            invariant
                unique_keys(qs),
                n == qs.len(),
                rest@.len() <= n,
                forall|b: int| 0 <= b < rest@.len() ==> entry_view(#[trigger] rest@[b]) == qs[n - rest@.len() + b],
                self@.queries == tick_queries(qs.take(n - rest@.len()), now, s0.scan_seq).0,
                self@.queue == s0.queue + tick_queries(qs.take(n - rest@.len()), now, s0.scan_seq).1,
                self@.scan_seq == tick_queries(qs.take(n - rest@.len()), now, s0.scan_seq).2,
                expired_view(expired@) == tick_queries(qs.take(n - rest@.len()), now, s0.scan_seq).3,
                unique_keys(self@.queries),
                forall|a: int, b: int| 0 <= a < self@.queries.len() && n - rest@.len() <= b < n ==> #[trigger] self@.queries[a].0 != #[trigger] qs[b].0,
                self@.hints == s0.hints,
                self@.locals == s0.locals,
            decreases rest@.len(),
        {
            let ghost j = n - rest@.len();
            let ghost kept0 = self@.queries;
            let ghost queue0 = self@.queue;
            let ghost ex0 = expired_view(expired@);
            let ghost raw0 = rest@;
            let (alias, slot) = rest.remove(0);
            proof {
                assert(entry_view(raw0[0]) == qs[j]);
                assert(qs.take(j + 1).drop_last() =~= qs.take(j));
                assert(qs.take(j + 1).last() == qs[j]);
                assert forall|b: int| 0 <= b < rest@.len() implies entry_view(#[trigger] rest@[b]) == qs[n - rest@.len() + b] by {
                    assert(rest@[b] == raw0[b + 1]);
                }
                assert(!has_key(kept0, alias)) by {
                    if has_key(kept0, alias) {
                        let a = choose|a: int| 0 <= a < kept0.len() && #[trigger] kept0[a].0 == alias;
                        assert(kept0[a].0 != qs[j].0);
                    }
                }
            }
            match slot.state {
                QueryState::CheckHint(_, started) => {
                    if now >= started && now - started >= HINT_TIMEOUT_MS {
                        let seq = self.gen_seq();
                        let service = slot.service;
                        let level = slot.level;
                        let moved = QuerySlot { state: QueryState::Scan(now), ..slot };
                        proof {
                            lemma_push_unique(kept0, alias, moved.view());
                        }
                        self.queries.push((alias, moved));
                        self.queue.push_back(Output::SendRoute(RouteRule::ToServices(service, level, seq), Message::Scan(alias)));
                        proof {
                            assert(self@.queries =~= kept0.push((alias, moved.view())));
                        }
                    } else {
                        proof {
                            lemma_push_unique(kept0, alias, slot.view());
                        }
                        self.queries.push((alias, slot));
                        proof {
                            assert(self@.queries =~= kept0.push(qs[j]));
                        }
                    }
                },
                QueryState::Scan(started) => {
                    if now >= started && now - started >= SCAN_TIMEOUT_MS {
                        expired.push((alias, slot.waiters));
                        proof {
                            assert(expired_view(expired@) =~= ex0.push((alias, qs[j].1.waiters)));
                        }
                    } else {
                        proof {
                            lemma_push_unique(kept0, alias, slot.view());
                        }
                        self.queries.push((alias, slot));
                        proof {
                            assert(self@.queries =~= kept0.push(qs[j]));
                        }
                    }
                },
            }
            proof {
                assert forall|a: int, b: int| 0 <= a < self@.queries.len() && n - rest@.len() <= b < n implies #[trigger] self@.queries[a].0
                    != #[trigger] qs[b].0 by {
                    if a < kept0.len() {
                        assert(self@.queries[a] == kept0[a]);
                    } else {
                        assert(self@.queries[a].0 == qs[j].0);
                    }
                }
            }
        }
        let ghost t = tick_queries(qs, now, s0.scan_seq);
        proof {
            assert(qs.take(n as int) =~= qs);
        }
        let ghost ev = expired_view(expired@);
        let mut k: usize = 0;
        proof {
            assert(ev.take(0) =~= Seq::empty());
            assert(s0.queue + t.1 + Seq::empty() =~= s0.queue + t.1);
        }
        while k < expired.len()
            invariant
                ev == expired_view(expired@),
                k <= expired@.len(),
                self@.queries == t.0,
                self@.scan_seq == t.2,
                unique_keys(self@.queries),
                self@.hints == s0.hints,
                self@.locals == s0.locals,
                self@.queue == s0.queue + t.1 + expired_answers(ev.take(k as int)),
            decreases expired@.len() - k,
        {
            let ghost q0 = self@.queue;
            push_answers(&mut self.queue, &expired[k].1, expired[k].0, None);
            proof {
                assert(ev.take(k + 1).drop_last() =~= ev.take(k as int));
                assert(ev.take(k + 1).last() == ev[k as int]);
                assert(ev[k as int] == (expired@[k as int].0, expired@[k as int].1@));
                assert(s0.queue + t.1 + expired_answers(ev.take(k + 1)) =~= q0 + answers(expired@[k as int].1@, expired@[k as int].0, None));
            }
            k = k + 1;
        }
        proof {
            assert(ev.take(k as int) =~= ev);
        }
    }
}

impl AliasFeature {
    /// Handles an input at `now`. A message is taken only when it came secured and from a
    /// known node.
    pub fn on_input(&mut self, now: u64, input: FeatureInput)
        requires
            old(self).wf(),
        ensures
            final(self).wf(),
            final(self)@ == input_spec(old(self)@, now, input),
    {
        match input {
            FeatureInput::Control(actor, control) => self.process_control(now, actor, control),
            FeatureInput::Local(secure, source, msg) => {
                if secure {
                    if let Some(from) = source {
                        self.process_remote(now, from, msg);
                    }
                }
            },
            FeatureInput::Net(secure, source, msg) => {
                if secure {
                    if let Some(from) = source {
                        self.process_remote(now, from, msg);
                    }
                }
            },
        }
    }

    /// Hands out the oldest output.
    pub fn pop_output(&mut self) -> (r: Option<Output>)
        requires
            old(self).wf(),
        ensures
            final(self).wf(),
            old(self)@.queue.len() == 0 ==> r is None && final(self)@ == old(self)@,
            old(self)@.queue.len() > 0 ==> r == Some(old(self)@.queue[0]) && final(self)@ == (AliasView {
                queue: old(self)@.queue.drop_first(),
                ..old(self)@
            }),
    {
        self.queue.pop_front()
    }

    /// The hint kept for `alias`, if any.
    pub fn hint(&self, alias: u64) -> (r: Option<HintSlot>)
        requires
            self.wf(),
        ensures
            r == (if has_key(self@.hints, alias) {
                Some(value_of(self@.hints, alias))
            } else {
                None
            }),
    {
        match find_key(&self.hint_slots, alias) {
            Some(i) => Some(self.hint_slots[i].1),
            None => None,
        }
    }

    /// Keeps `slot` as the hint for `alias`.
    pub fn set_hint(&mut self, alias: u64, slot: HintSlot)
        requires
            old(self).wf(),
        ensures
            final(self).wf(),
            final(self)@ == (AliasView { hints: upsert(old(self)@.hints, alias, slot), ..old(self)@ }),
    {
        upsert_vec(&mut self.hint_slots, alias, slot);
    }
}

impl Default for AliasFeature {
    fn default() -> (r: Self)
        ensures
            r.wf(),
            r@ == (AliasView { queries: Seq::empty(), hints: Seq::empty(), locals: Seq::empty(), queue: Seq::empty(), scan_seq: 0 }),
    {
        AliasFeature::new()
    }
}

/// The alias feature on a worker: it hands every control and message on to the controller.
pub type AliasFeatureWorker = ForwardingWorker<Control, ToWorker>;

/// Whether a query in progress has not yet run out of time at `now`.
pub open spec fn in_time(q: QuerySlotView, now: u64) -> bool {
    match q.state {
        QueryState::CheckHint(_, started) => now < started + HINT_TIMEOUT_MS,
        QueryState::Scan(started) => now < started + SCAN_TIMEOUT_MS,
    }
}

/// A query for an alias registered on this node is answered at once, from here, and
/// changes nothing else.
pub proof fn law_registered_alias_found_locally(
    s: AliasView,
    t1: u64,
    t2: u64,
    owner: FeatureControlActor,
    actor: FeatureControlActor,
    alias: u64,
    service: ServiceId,
    level: ServiceBroadcastLevel,
    service2: ServiceId,
    level2: ServiceBroadcastLevel,
)
    requires
        valid(s),
    ensures
        ({
            let s1 = control_spec(s, t1, owner, Control::Register { alias, service, level });
            let s2 = control_spec(s1, t2, actor, Control::Query { alias, service: service2, level: level2 });
            s2 == AliasView { queue: s1.queue.push(Output::Event(actor, Event::QueryResult(alias, Some(FoundLocation::Local)))), ..s1 }
        }),
{
    let s1 = control_spec(s, t1, owner, Control::Register { alias, service, level });
    if has_key(s.locals, alias) {
        let i = key_index(s.locals, alias);
        assert(s1.locals[i].0 == alias);
    } else {
        assert(s1.locals[s.locals.len() as int].0 == alias);
    }
}

/// An alias unregistered on this node is no longer found here.
pub proof fn law_unregistered_alias_not_local(s: AliasView, now: u64, actor: FeatureControlActor, alias: u64)
    requires
        valid(s),
    ensures
        !has_key(control_spec(s, now, actor, Control::Unregister { alias }).locals, alias),
{
    if has_key(s.locals, alias) {
        lemma_remove_unique(s.locals, key_index(s.locals, alias));
    }
}

/// A notice from a node makes it the hint for the alias, as of now, and ends the query for
/// the alias, if there is one.
pub proof fn law_notify_sets_hint(s: AliasView, now: u64, from: NodeId, alias: u64)
    requires
        valid(s),
    ensures
        ({
            let r = remote_spec(s, now, from, Message::Notify(alias));
            &&& has_key(r.hints, alias)
            &&& value_of(r.hints, alias) == (HintSlot { node: from, ts: now })
            &&& !has_key(r.queries, alias)
        }),
{
    let r = remote_spec(s, now, from, Message::Notify(alias));
    if has_key(s.hints, alias) {
        let i = key_index(s.hints, alias);
        lemma_update_unique(s.hints, i, HintSlot { node: from, ts: now });
        lemma_key_index(r.hints, alias, i);
    } else {
        lemma_push_unique(s.hints, alias, HintSlot { node: from, ts: now });
        lemma_key_index(r.hints, alias, s.hints.len() as int);
    }
    if has_key(s.queries, alias) {
        lemma_remove_unique(s.queries, key_index(s.queries, alias));
    }
}

/// Every query that a tick keeps is still within its time, and a tick changes neither the
/// hints nor the local aliases.
pub proof fn law_tick_keeps_queries_in_time(s: AliasView, now: u64)
    ensures
        forall|i: int| 0 <= i < tick_spec(s, now).queries.len() ==> in_time(#[trigger] tick_spec(s, now).queries[i].1, now),
        tick_spec(s, now).hints == s.hints,
        tick_spec(s, now).locals == s.locals,
{
    lemma_tick_in_time(s.queries, now, s.scan_seq);
}

proof fn lemma_tick_in_time(qs: Seq<(u64, QuerySlotView)>, now: u64, seq: u16)
    ensures
        forall|i: int| 0 <= i < tick_queries(qs, now, seq).0.len() ==> in_time(#[trigger] tick_queries(qs, now, seq).0[i].1, now),
    decreases qs.len(),
{
    if qs.len() > 0 {
        lemma_tick_in_time(qs.drop_last(), now, seq);
        let kept = tick_queries(qs.drop_last(), now, seq).0;
        let r = tick_queries(qs, now, seq).0;
        assert forall|i: int| 0 <= i < r.len() implies in_time(#[trigger] r[i].1, now) by {
            if i < kept.len() {
                assert(r[i] == kept[i]);
            }
        }
    }
}

} // verus!
