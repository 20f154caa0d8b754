//! The consumers of one relay: local subscribers and remote nodes that subscribed through
//! this node, with the route changes that the workers must apply.

use std::collections::VecDeque;
use vstd::prelude::*;

use super::msg::{RelayControl, RelayWorkerControl};
use super::{RELAY_TIMEOUT, TIME_LIMIT_MS};
use crate::types::{lemma_swap_removed, swap_removed, FeatureControlActor, PeerAddr};

verus! {

/// A remote consumer: its address, the session it subscribed with and when it last did.
pub struct RemoteSubView {
    pub addr: PeerAddr,
    pub uuid: u64,
    pub last_sub: u64,
}

/// Mathematical state of [`RelayConsummers`].
pub struct ConsumersView {
    pub remotes: Seq<RemoteSubView>,
    pub locals: Seq<FeatureControlActor>,
    pub queue: Seq<RelayWorkerControl>,
}

struct RelayRemote {
    addr: PeerAddr,
    uuid: u64,
    last_sub: u64,
}

impl RelayRemote {
    spec fn view(&self) -> RemoteSubView {
        RemoteSubView { addr: self.addr, uuid: self.uuid, last_sub: self.last_sub }
    }
}

/// The consumers of one relay.
pub struct RelayConsummers {
    remotes: Vec<RelayRemote>,
    locals: Vec<FeatureControlActor>,
    queue: VecDeque<RelayWorkerControl>,
}

impl View for RelayConsummers {
    type V = ConsumersView;

    closed spec fn view(&self) -> ConsumersView {
        ConsumersView { remotes: self.remotes@.map_values(|r: RelayRemote| r.view()), locals: self.locals@, queue: self.queue@ }
    }
}

pub open spec fn has_remote(s: Seq<RemoteSubView>, a: PeerAddr) -> bool {
    exists|i: int| 0 <= i < s.len() && #[trigger] s[i].addr == a
}

pub open spec fn remote_index(s: Seq<RemoteSubView>, a: PeerAddr) -> int {
    choose|i: int| 0 <= i < s.len() && #[trigger] s[i].addr == a
}

pub open spec fn remotes_unique(s: Seq<RemoteSubView>) -> bool {
    forall|i: int, j: int| #![trigger s[i], s[j]] 0 <= i < s.len() && 0 <= j < s.len() && i != j ==> s[i].addr != s[j].addr
}

/// The invariant of [`ConsumersView`].
pub open spec fn consumers_wf(c: ConsumersView) -> bool {
    &&& remotes_unique(c.remotes)
    &&& c.locals.no_duplicates()
    &&& forall|i: int| 0 <= i < c.remotes.len() ==> (#[trigger] c.remotes[i]).last_sub <= TIME_LIMIT_MS
}

/// The remotes that subscribed again within the timeout.
pub open spec fn live_remotes(s: Seq<RemoteSubView>, now: u64) -> Seq<RemoteSubView>
    decreases s.len(),
{
    if s.len() == 0 {
        Seq::empty()
    } else if now >= s.last().last_sub + RELAY_TIMEOUT {
        live_remotes(s.drop_last(), now)
    } else {
        live_remotes(s.drop_last(), now).push(s.last())
    }
}

/// The route removals of the remotes that timed out, in order.
pub open spec fn timed_out(s: Seq<RemoteSubView>, now: u64) -> Seq<RelayWorkerControl>
    decreases s.len(),
{
    if s.len() == 0 {
        Seq::empty()
    } else if now >= s.last().last_sub + RELAY_TIMEOUT {
        timed_out(s.drop_last(), now).push(RelayWorkerControl::RouteDelRemote(s.last().addr))
    } else {
        timed_out(s.drop_last(), now)
    }
}

pub open spec fn consumers_tick(c: ConsumersView, now: u64) -> ConsumersView {
    ConsumersView { remotes: live_remotes(c.remotes, now), queue: c.queue + timed_out(c.remotes, now), ..c }
}

pub open spec fn consumers_local_sub(c: ConsumersView, actor: FeatureControlActor) -> ConsumersView {
    if c.locals.contains(actor) {
        c
    } else {
        ConsumersView { locals: c.locals.push(actor), queue: c.queue.push(RelayWorkerControl::RouteSetLocal(actor)), ..c }
    }
}

pub open spec fn consumers_local_unsub(c: ConsumersView, actor: FeatureControlActor) -> ConsumersView {
    if c.locals.contains(actor) {
        ConsumersView {
            locals: swap_removed(c.locals, c.locals.index_of(actor)),
            queue: c.queue.push(RelayWorkerControl::RouteDelLocal(actor)),
            ..c
        }
    } else {
        c
    }
}

/// What a control from `remote` does: a `Sub` registers it (or renews it with the same
/// session) and is answered, an `Unsub` with its session removes it; nothing else matters.
pub open spec fn consumers_remote(c: ConsumersView, now: u64, remote: PeerAddr, control: RelayControl) -> ConsumersView {
    match control {
        RelayControl::Sub(uuid) => {
            if has_remote(c.remotes, remote) {
                let i = remote_index(c.remotes, remote);
                if c.remotes[i].uuid == uuid {
                    ConsumersView {
                        remotes: c.remotes.update(i, RemoteSubView { last_sub: now, ..c.remotes[i] }),
                        queue: c.queue.push(RelayWorkerControl::SendSubOk(uuid, remote)),
                        ..c
                    }
                } else {
                    c
                }
            } else {
                ConsumersView {
                    remotes: c.remotes.push(RemoteSubView { addr: remote, uuid, last_sub: now }),
                    queue: c.queue.push(RelayWorkerControl::SendSubOk(uuid, remote)).push(RelayWorkerControl::RouteSetRemote(remote, uuid)),
                    ..c
                }
            }
        },
        RelayControl::Unsub(uuid) => {
            if has_remote(c.remotes, remote) && c.remotes[remote_index(c.remotes, remote)].uuid == uuid {
                ConsumersView {
                    remotes: c.remotes.remove(remote_index(c.remotes, remote)),
                    queue: c.queue.push(RelayWorkerControl::SendUnsubOk(uuid, remote)).push(RelayWorkerControl::RouteDelRemote(remote)),
                    ..c
                }
            } else {
                c
            }
        },
        _ => c,
    }
}

pub open spec fn consumers_disconnected(c: ConsumersView, remote: PeerAddr) -> ConsumersView {
    if has_remote(c.remotes, remote) {
        ConsumersView {
            remotes: c.remotes.remove(remote_index(c.remotes, remote)),
            queue: c.queue.push(RelayWorkerControl::RouteDelRemote(remote)),
            ..c
        }
    } else {
        c
    }
}

pub open spec fn consumers_empty(c: ConsumersView) -> bool {
    c.locals.len() == 0 && c.remotes.len() == 0
}

proof fn lemma_live_remotes(s: Seq<RemoteSubView>, now: u64)
    ensures
        forall|k: int| 0 <= k < live_remotes(s, now).len() ==> exists|j: int| 0 <= j < s.len() && s[j] == #[trigger] live_remotes(s, now)[k],
        remotes_unique(s) ==> remotes_unique(live_remotes(s, now)),
    decreases s.len(),
{
    if s.len() > 0 {
        let d = s.drop_last();
        lemma_live_remotes(d, now);
        let rest = live_remotes(d, now);
        let r = live_remotes(s, now);
        assert forall|k: int| 0 <= k < r.len() implies exists|j: int| 0 <= j < s.len() && s[j] == #[trigger] r[k] by {
            if k < rest.len() {
                let j = choose|j: int| 0 <= j < d.len() && d[j] == rest[k];
                assert(s[j] == r[k]);
            } else {
                assert(s[s.len() - 1] == r[k]);
            }
        }
        if remotes_unique(s) {
            assert(remotes_unique(d)) by {
                assert forall|a: int, b: int| #![trigger d[a], d[b]] 0 <= a < d.len() && 0 <= b < d.len() && a != b implies d[a].addr != d[b].addr by {
                    assert(s[a] == d[a] && s[b] == d[b]);
                }
            }
            assert forall|a: int, b: int| #![trigger r[a], r[b]] 0 <= a < r.len() && 0 <= b < r.len() && a != b implies r[a].addr != r[b].addr by {
                if a < rest.len() && b < rest.len() {
                } else if a < rest.len() {
                    let j = choose|j: int| 0 <= j < d.len() && d[j] == rest[a];
                    assert(s[j] == r[a]);
                    assert(r[b] == s[s.len() - 1]);
                } else {
                    let j = choose|j: int| 0 <= j < d.len() && d[j] == rest[b];
                    assert(s[j] == r[b]);
                    assert(r[a] == s[s.len() - 1]);
                }
            }
        }
    }
}

proof fn lemma_remove_remote(s: Seq<RemoteSubView>, i: int)
    requires
        remotes_unique(s),
        0 <= i < s.len(),
    ensures
        remotes_unique(s.remove(i)),
        forall|k: int| 0 <= k < s.remove(i).len() ==> (#[trigger] s.remove(i)[k]) == s[if k < i { k } else { k + 1 }],
{
    let r = s.remove(i);
    assert forall|a: int, b: int| #![trigger r[a], r[b]] 0 <= a < r.len() && 0 <= b < r.len() && a != b implies r[a].addr != r[b].addr by {
        let a2 = if a < i { a } else { a + 1 };
        let b2 = if b < i { b } else { b + 1 };
        assert(r[a] == s[a2] && r[b] == s[b2]);
    }
}

impl Default for RelayConsummers {
    fn default() -> (c: Self)
        ensures
            c.wf(),
            c@ == (ConsumersView { remotes: Seq::empty(), locals: Seq::empty(), queue: Seq::empty() }),
    {
        RelayConsummers::new()
    }
}

impl RelayConsummers {
    pub closed spec fn wf(&self) -> bool {
        consumers_wf(self@)
    }

    pub fn new() -> (c: Self)
        ensures
            c.wf(),
            c@ == (ConsumersView { remotes: Seq::empty(), locals: Seq::empty(), queue: Seq::empty() }),
    {
        let c = RelayConsummers { remotes: Vec::new(), locals: Vec::new(), queue: VecDeque::new() };
        assert(c@.remotes =~= Seq::empty());
        assert(c@.locals =~= Seq::empty());
        assert(c@.queue =~= Seq::empty());
        c
    }

    fn find_remote(&self, a: PeerAddr) -> (r: Option<usize>)
        requires
            self.wf(),
        ensures
            match r {
                Some(i) => i < self@.remotes.len() && has_remote(self@.remotes, a) && i == remote_index(self@.remotes, a),
                None => !has_remote(self@.remotes, a),
            },
    {
        let mut i: usize = 0;
        while i < self.remotes.len()
            invariant
                self.wf(),
                i <= self@.remotes.len(),
                forall|k: int| 0 <= k < i ==> (#[trigger] self@.remotes[k]).addr != a,
            decreases self@.remotes.len() - i,
        {
            if self.remotes[i].addr == a {
                proof {
                    let s = self@.remotes;
                    let j = remote_index(s, a);
                    assert(s[i as int].addr == a);
                    assert(s[j].addr == a);
                    assert(s[j].addr != s[i as int].addr || j == i);
                }
                return Some(i);
            }
            i = i + 1;
        }
        None
    }

    /// Drops the remote consumers that did not subscribe again within the timeout.
    pub fn on_tick(&mut self, now: u64)
        requires
            old(self).wf(),
        ensures
            final(self).wf(),
            final(self)@ == consumers_tick(old(self)@, now),
    {
        let ghost c0 = self@;
        let mut kept: Vec<RelayRemote> = Vec::new();
        let mut i: usize = 0;
        while i < self.remotes.len()
            invariant
                self.wf(),
                i <= self@.remotes.len(),
                self@.remotes == c0.remotes,
                self@.locals == c0.locals,
                kept@.map_values(|r: RelayRemote| r.view()) == live_remotes(c0.remotes.take(i as int), now),
                self@.queue == c0.queue + timed_out(c0.remotes.take(i as int), now),
            decreases self@.remotes.len() - i,
        {
            proof {
                assert(c0.remotes.take(i + 1).drop_last() =~= c0.remotes.take(i as int));
                assert(c0.remotes.take(i + 1).last() == c0.remotes[i as int]);
                assert(c0.remotes[i as int].last_sub <= TIME_LIMIT_MS);
            }
            let addr = self.remotes[i].addr;
            if now >= self.remotes[i].last_sub + RELAY_TIMEOUT {
                self.queue.push_back(RelayWorkerControl::RouteDelRemote(addr));
            } else {
                let ghost kv = kept@;
                kept.push(RelayRemote { addr, uuid: self.remotes[i].uuid, last_sub: self.remotes[i].last_sub });
                proof {
                    assert(kept@.map_values(|r: RelayRemote| r.view()) =~= kv.map_values(|r: RelayRemote| r.view()).push(c0.remotes[i as int]));
                }
            }
            i = i + 1;
        }
        proof {
            assert(c0.remotes.take(i as int) =~= c0.remotes);
            lemma_live_remotes(c0.remotes, now);
        }
        self.remotes = kept;
        proof {
            let r = self@.remotes;
            assert forall|k: int| 0 <= k < r.len() implies (#[trigger] r[k]).last_sub <= TIME_LIMIT_MS by {
                let j = choose|j: int| 0 <= j < c0.remotes.len() && c0.remotes[j] == live_remotes(c0.remotes, now)[k];
                assert(c0.remotes[j].last_sub <= TIME_LIMIT_MS);
            }
        }
    }

    /// Adds a local subscriber; one already subscribed is ignored.
    pub fn on_local_sub(&mut self, _now: u64, actor: FeatureControlActor)
        requires
            old(self).wf(),
        ensures
            final(self).wf(),
            final(self)@ == consumers_local_sub(old(self)@, actor),
    {
        if crate::types::contains_actor(&self.locals, actor) {
            return;
        }
        let ghost l0 = self@.locals;
        self.locals.push(actor);
        self.queue.push_back(RelayWorkerControl::RouteSetLocal(actor));
        proof {
            assert forall|i: int, j: int| 0 <= i < self@.locals.len() && 0 <= j < self@.locals.len() && i != j implies self@.locals[i] != self@.locals[j] by {
                if i == l0.len() as int {
                    assert(l0[j] != actor);
                } else if j == l0.len() as int {
                    assert(l0[i] != actor);
                }
            }
        }
    }

    /// Removes a local subscriber; an unknown one is ignored.
    pub fn on_local_unsub(&mut self, _now: u64, actor: FeatureControlActor)
        requires
            old(self).wf(),
        ensures
            final(self).wf(),
            final(self)@ == consumers_local_unsub(old(self)@, actor),
    {
        let ghost l0 = self@.locals;
        let mut i: usize = 0;
        while i < self.locals.len()
            invariant
                self.wf(),
                self@.locals == l0,
                self@ == old(self)@,
                i <= l0.len(),
                forall|k: int| 0 <= k < i ==> l0[k] != actor,
            decreases l0.len() - i,
        {
            if self.locals[i] == actor {
                proof {
                    assert(l0.contains(actor));
                    assert(l0.index_of(actor) == i) by {
                        let j = l0.index_of(actor);
                        assert(l0[j] == actor);
                    }
                    lemma_swap_removed(l0, i as int);
                }
                self.queue.push_back(RelayWorkerControl::RouteDelLocal(actor));
                self.locals.swap_remove(i);
                proof {
                    assert(self@.locals =~= swap_removed(l0, i as int));
                }
                return;
            }
            i = i + 1;
        }
    }

    /// Handles a control from the remote node `remote`.
    pub fn on_remote(&mut self, now: u64, remote: PeerAddr, control: RelayControl)
        requires
            old(self).wf(),
            now <= TIME_LIMIT_MS,
        ensures
            final(self).wf(),
            final(self)@ == consumers_remote(old(self)@, now, remote, control),
    {
        let ghost c0 = self@;
        match control {
            RelayControl::Sub(uuid) => {
                match self.find_remote(remote) {
                    Some(i) => {
                        if uuid == self.remotes[i].uuid {
                            self.remotes.set(i, RelayRemote { addr: remote, uuid, last_sub: now });
                            self.queue.push_back(RelayWorkerControl::SendSubOk(uuid, remote));
                            proof {
                                let s = self@.remotes;
                                assert(s =~= c0.remotes.update(i as int, RemoteSubView { last_sub: now, ..c0.remotes[i as int] }));
                                assert forall|a: int, b: int| #![trigger s[a], s[b]] 0 <= a < s.len() && 0 <= b < s.len() && a != b implies s[a].addr != s[b].addr by {
                                    assert(c0.remotes[a].addr != c0.remotes[b].addr);
                                }
                            }
                        }
                    },
                    None => {
                        self.remotes.push(RelayRemote { addr: remote, uuid, last_sub: now });
                        self.queue.push_back(RelayWorkerControl::SendSubOk(uuid, remote));
                        self.queue.push_back(RelayWorkerControl::RouteSetRemote(remote, uuid));
                        proof {
                            let s = self@.remotes;
                            assert(s =~= c0.remotes.push(RemoteSubView { addr: remote, uuid, last_sub: now }));
                            assert forall|a: int, b: int| #![trigger s[a], s[b]] 0 <= a < s.len() && 0 <= b < s.len() && a != b implies s[a].addr != s[b].addr by {
                                if a == c0.remotes.len() {
                                    assert(c0.remotes[b].addr != remote);
                                } else if b == c0.remotes.len() {
                                    assert(c0.remotes[a].addr != remote);
                                } else {
                                    assert(c0.remotes[a].addr != c0.remotes[b].addr);
                                }
                            }
                        }
                    },
                }
            },
            RelayControl::Unsub(uuid) => {
                match self.find_remote(remote) {
                    Some(i) => {
                        if self.remotes[i].uuid == uuid {
                            self.queue.push_back(RelayWorkerControl::SendUnsubOk(uuid, remote));
                            self.queue.push_back(RelayWorkerControl::RouteDelRemote(remote));
                            self.remotes.remove(i);
                            proof {
                                lemma_remove_remote(c0.remotes, i as int);
                                assert(self@.remotes =~= c0.remotes.remove(i as int));
                            }
                        }
                    },
                    None => {},
                }
            },
            _ => {},
        }
    }

    /// Forgets a remote consumer whose connection closed.
    pub fn conn_disconnected(&mut self, _now: u64, remote: PeerAddr)
        requires
            old(self).wf(),
        ensures
            final(self).wf(),
            final(self)@ == consumers_disconnected(old(self)@, remote),
    {
        let ghost c0 = self@;
        match self.find_remote(remote) {
            Some(i) => {
                self.remotes.remove(i);
                self.queue.push_back(RelayWorkerControl::RouteDelRemote(remote));
                proof {
                    lemma_remove_remote(c0.remotes, i as int);
                    assert(self@.remotes =~= c0.remotes.remove(i as int));
                }
            },
            None => {},
        }
    }

    /// No consumer is left.
    pub fn should_clear(&self) -> (r: bool)
        ensures
            r == consumers_empty(self@),
    {
        self.locals.len() == 0 && self.remotes.len() == 0
    }

    /// The local subscribers, and whether some remote consumer exists.
    pub fn relay_dests(&self) -> (r: (&[FeatureControlActor], bool))
        ensures
            r.0@ == self@.locals,
            r.1 == (self@.remotes.len() > 0),
    {
        (self.locals.as_slice(), self.remotes.len() > 0)
    }

    /// Hands out the oldest pending route change.
    pub fn pop_output(&mut self) -> (r: Option<RelayWorkerControl>)
        requires
            old(self).wf(),
        ensures
            final(self).wf(),
            old(self)@.queue.len() == 0 ==> r is None && final(self)@ == old(self)@,
            old(self)@.queue.len() > 0 ==> r == Some(old(self)@.queue[0]) && final(self)@ == (ConsumersView { queue: old(self)@.queue.drop_first(), ..old(self)@ }),
    {
        let r = self.queue.pop_front();
        proof {
            if r is Some {
                assert(self@.queue =~= old(self)@.queue.drop_first());
            }
        }
        r
    }
}

/// A remote node that subscribes and then unsubscribes with the same session leaves the
/// remote consumers as they were.
pub proof fn law_remote_sub_unsub(c: ConsumersView, t1: u64, t2: u64, remote: PeerAddr, uuid: u64)
    requires
        !has_remote(c.remotes, remote),
    ensures
        consumers_remote(consumers_remote(c, t1, remote, RelayControl::Sub(uuid)), t2, remote, RelayControl::Unsub(uuid)).remotes == c.remotes,
{
    let c1 = consumers_remote(c, t1, remote, RelayControl::Sub(uuid));
    let n = c.remotes.len() as int;
    assert(c1.remotes[n].addr == remote);
    let i = remote_index(c1.remotes, remote);
    assert(c1.remotes[i].addr == remote);
    if i < n {
        assert(c.remotes[i].addr == remote);
    }
    assert(c1.remotes.remove(n) =~= c.remotes);
}

} // verus!
