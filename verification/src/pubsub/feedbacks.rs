//! Aggregation of the feedback that subscribers send back to a source: the latest feedback
//! of each sender is kept per kind until it times out, and every new one triggers a merged
//! feedback of all the live ones.

use std::collections::VecDeque;
use vstd::prelude::*;

use super::msg::{can_merge, merge, Feedback};
use super::TIME_LIMIT_MS;
use crate::types::{FeatureControlActor, PeerAddr};

verus! {

/// Who sent a feedback.
#[derive(Debug, Clone, Copy, PartialEq, Eq, Structural)]
pub enum FeedbackSource {
    Local(FeatureControlActor),
    Remote(PeerAddr),
}

/// The feedbacks of one kind: the latest one of each sender, with the time it came.
#[derive(Debug)]
pub struct SingleFeedbackKind {
    kind: u8,
    feedbacks: Vec<(FeedbackSource, Feedback, u64)>,
    feedbacks_updated: bool,
    last_feedback_ts: Option<u64>,
}

/// Mathematical form of [`SingleFeedbackKind`].
pub struct KindView {
    pub kind: u8,
    pub feedbacks: Seq<(FeedbackSource, Feedback, u64)>,
    pub updated: bool,
    pub last_feedback_ts: Option<u64>,
}

impl View for SingleFeedbackKind {
    type V = KindView;

    closed spec fn view(&self) -> KindView {
        KindView { kind: self.kind, feedbacks: self.feedbacks@, updated: self.feedbacks_updated, last_feedback_ts: self.last_feedback_ts }
    }
}

pub open spec fn has_source(s: Seq<(FeedbackSource, Feedback, u64)>, src: FeedbackSource) -> bool {
    exists|i: int| 0 <= i < s.len() && #[trigger] s[i].0 == src
}

pub open spec fn source_index(s: Seq<(FeedbackSource, Feedback, u64)>, src: FeedbackSource) -> int {
    choose|i: int| 0 <= i < s.len() && #[trigger] s[i].0 == src
}

pub open spec fn sources_unique(s: Seq<(FeedbackSource, Feedback, u64)>) -> bool {
    forall|i: int, j: int| #![trigger s[i], s[j]] 0 <= i < s.len() && 0 <= j < s.len() && i != j ==> s[i].0 != s[j].0
}

/// The feedbacks with that of `src` replaced, or appended.
pub open spec fn upsert_feedback(s: Seq<(FeedbackSource, Feedback, u64)>, src: FeedbackSource, fb: Feedback, now: u64) -> Seq<(FeedbackSource, Feedback, u64)> {
    if has_source(s, src) {
        s.update(source_index(s, src), (src, fb, now))
    } else {
        s.push((src, fb, now))
    }
}

/// The merge of all the feedbacks, from the first to the last.
pub open spec fn aggregate(s: Seq<(FeedbackSource, Feedback, u64)>) -> Option<Feedback>
    decreases s.len(),
{
    if s.len() == 0 {
        None
    } else {
        match aggregate(s.drop_last()) {
            None => Some(s.last().1),
            Some(a) => Some(merge(a, s.last().1)),
        }
    }
}

/// Whether merging the feedbacks one after the other never overflows.
pub open spec fn aggregate_ok(s: Seq<(FeedbackSource, Feedback, u64)>) -> bool
    decreases s.len(),
{
    if s.len() == 0 {
        true
    } else {
        aggregate_ok(s.drop_last()) && match aggregate(s.drop_last()) {
            None => true,
            Some(a) => can_merge(a, s.last().1),
        }
    }
}

/// The feedbacks that have not timed out at `now`.
pub open spec fn alive(s: Seq<(FeedbackSource, Feedback, u64)>, now: u64) -> Seq<(FeedbackSource, Feedback, u64)>
    decreases s.len(),
{
    if s.len() == 0 {
        Seq::empty()
    } else if now < s.last().2 + s.last().1.timeout_ms {
        alive(s.drop_last(), now).push(s.last())
    } else {
        alive(s.drop_last(), now)
    }
}

/// What [`SingleFeedbackKind::process_feedbacks`] does: after an update it merges the
/// feedbacks (those that timed out included) and then drops the timed-out ones; otherwise
/// it only drops them.
pub open spec fn process_kind(k: KindView, now: u64) -> (KindView, Option<Feedback>) {
    if !k.updated {
        (KindView { feedbacks: alive(k.feedbacks, now), ..k }, None)
    } else {
        let agg = aggregate(k.feedbacks);
        let k2 = KindView { feedbacks: alive(k.feedbacks, now), updated: false, ..k };
        let held = match (k.last_feedback_ts, agg) {
            (Some(last), Some(fb)) => now < last + fb.interval_ms,
            _ => false,
        };
        (k2, if held { None } else { agg })
    }
}

/// The invariant of a kind: one entry per sender, bounded timestamps, and no interval hold.
pub open spec fn kind_wf(k: KindView) -> bool {
    &&& sources_unique(k.feedbacks)
    &&& forall|i: int| 0 <= i < k.feedbacks.len() ==> (#[trigger] k.feedbacks[i]).2 <= TIME_LIMIT_MS
    &&& k.last_feedback_ts is None
}

proof fn lemma_upsert_feedback(s: Seq<(FeedbackSource, Feedback, u64)>, src: FeedbackSource, fb: Feedback, now: u64)
    requires
        sources_unique(s),
    ensures
        sources_unique(upsert_feedback(s, src, fb, now)),
        forall|k: int|
            0 <= k < upsert_feedback(s, src, fb, now).len() ==> #[trigger] upsert_feedback(s, src, fb, now)[k] == (src, fb, now) || exists|j: int|
                0 <= j < s.len() && s[j] == upsert_feedback(s, src, fb, now)[k],
{
    let r = upsert_feedback(s, src, fb, now);
    if has_source(s, src) {
        let i = source_index(s, src);
        assert(s[i].0 == src);
        assert forall|a: int, b: int| #![trigger r[a], r[b]] 0 <= a < r.len() && 0 <= b < r.len() && a != b implies r[a].0 != r[b].0 by {
            assert(s[a].0 != s[b].0);
        }
        assert forall|k: int| 0 <= k < r.len() implies #[trigger] r[k] == (src, fb, now) || exists|j: int| 0 <= j < s.len() && s[j] == r[k] by {
            if k != i {
                assert(s[k] == r[k]);
            }
        }
    } else {
        assert forall|a: int, b: int| #![trigger r[a], r[b]] 0 <= a < r.len() && 0 <= b < r.len() && a != b implies r[a].0 != r[b].0 by {
            if a == s.len() {
                assert(s[b].0 != src);
            } else if b == s.len() {
                assert(s[a].0 != src);
            } else {
                assert(r[a] == s[a] && r[b] == s[b]);
            }
        }
        assert forall|k: int| 0 <= k < r.len() implies #[trigger] r[k] == (src, fb, now) || exists|j: int| 0 <= j < s.len() && s[j] == r[k] by {
            if k < s.len() {
                assert(s[k] == r[k]);
            }
        }
    }
}

proof fn lemma_alive(s: Seq<(FeedbackSource, Feedback, u64)>, now: u64)
    ensures
        forall|k: int| 0 <= k < alive(s, now).len() ==> exists|j: int| 0 <= j < s.len() && s[j] == #[trigger] alive(s, now)[k],
        sources_unique(s) ==> sources_unique(alive(s, now)),
        alive(s, now).len() <= s.len(),
    decreases s.len(),
{
    if s.len() > 0 {
        let d = s.drop_last();
        lemma_alive(d, now);
        let rest = alive(d, now);
        let r = alive(s, now);
        assert forall|k: int| 0 <= k < r.len() implies exists|j: int| 0 <= j < s.len() && s[j] == #[trigger] r[k] by {
            if k < rest.len() {
                let j = choose|j: int| 0 <= j < d.len() && d[j] == rest[k];
                assert(s[j] == r[k]);
            } else {
                assert(s[s.len() - 1] == r[k]);
            }
        }
        if sources_unique(s) {
            assert(sources_unique(d)) by {
                assert forall|a: int, b: int| #![trigger d[a], d[b]] 0 <= a < d.len() && 0 <= b < d.len() && a != b implies d[a].0 != d[b].0 by {
                    assert(s[a] == d[a] && s[b] == d[b]);
                }
            }
            assert forall|a: int, b: int| #![trigger r[a], r[b]] 0 <= a < r.len() && 0 <= b < r.len() && a != b implies r[a].0 != r[b].0 by {
                if a < rest.len() && b < rest.len() {
                } else if a < rest.len() {
                    let j = choose|j: int| 0 <= j < d.len() && d[j] == rest[a];
                    assert(s[j] == r[a]);
                    assert(r[b] == s[s.len() - 1]);
                } else {
                    let j = choose|j: int| 0 <= j < d.len() && d[j] == rest[b];
                    assert(s[j] == r[b]);
                    assert(r[a] == s[s.len() - 1]);
                }
            }
        }
    }
}

proof fn lemma_alive_wf(k: KindView, now: u64)
    requires
        kind_wf(k),
    ensures
        kind_wf(KindView { feedbacks: alive(k.feedbacks, now), ..k }),
        kind_wf(KindView { feedbacks: alive(k.feedbacks, now), updated: false, ..k }),
{
    lemma_alive(k.feedbacks, now);
    let r = alive(k.feedbacks, now);
    assert forall|i: int| 0 <= i < r.len() implies (#[trigger] r[i]).2 <= TIME_LIMIT_MS by {
        let j = choose|j: int| 0 <= j < k.feedbacks.len() && k.feedbacks[j] == r[i];
        assert(k.feedbacks[j].2 <= TIME_LIMIT_MS);
    }
}

impl SingleFeedbackKind {
    pub closed spec fn wf(&self) -> bool {
        kind_wf(self@)
    }

    fn find_source(&self, src: FeedbackSource) -> (r: Option<usize>)
        requires
            self.wf(),
        ensures
            match r {
                Some(i) => i < self@.feedbacks.len() && has_source(self@.feedbacks, src) && i == source_index(self@.feedbacks, src),
                None => !has_source(self@.feedbacks, src),
            },
    {
        let mut i: usize = 0;
        while i < self.feedbacks.len()
            invariant
                self.wf(),
                i <= self@.feedbacks.len(),
                forall|k: int| 0 <= k < i ==> (#[trigger] self@.feedbacks[k]).0 != src,
            decreases self@.feedbacks.len() - i,
        {
            if self.feedbacks[i].0 == src {
                proof {
                    let s = self@.feedbacks;
                    let j = source_index(s, src);
                    assert(s[i as int].0 == src);
                    assert(s[j].0 == src);
                    assert(s[j].0 != s[i as int].0 || j == i);
                }
                return Some(i);
            }
            i = i + 1;
        }
        None
    }

    /// Keeps `fb` as the latest feedback of `source`.
    fn on_feedback(&mut self, now: u64, source: FeedbackSource, fb: Feedback)
        requires
            old(self).wf(),
            now <= TIME_LIMIT_MS,
        ensures
            final(self).wf(),
            final(self)@ == (KindView { feedbacks: upsert_feedback(old(self)@.feedbacks, source, fb, now), updated: true, ..old(self)@ }),
    {
        self.feedbacks_updated = true;
        match self.find_source(source) {
            Some(index) => {
                self.feedbacks.set(index, (source, fb, now));
            },
            None => {
                self.feedbacks.push((source, fb, now));
            },
        }
        proof {
            let s0 = old(self)@.feedbacks;
            lemma_upsert_feedback(s0, source, fb, now);
            assert(self@.feedbacks =~= upsert_feedback(s0, source, fb, now));
            let r = self@.feedbacks;
            assert forall|i: int| 0 <= i < r.len() implies (#[trigger] r[i]).2 <= TIME_LIMIT_MS by {
                if r[i] != (source, fb, now) {
                    let j = choose|j: int| 0 <= j < s0.len() && s0[j] == r[i];
                    assert(s0[j].2 <= TIME_LIMIT_MS);
                }
            }
        }
    }

    pub fn on_local_feedback(&mut self, now: u64, actor: FeatureControlActor, fb: Feedback)
        requires
            old(self).wf(),
            now <= TIME_LIMIT_MS,
        ensures
            final(self).wf(),
            final(self)@ == (KindView {
                feedbacks: upsert_feedback(old(self)@.feedbacks, FeedbackSource::Local(actor), fb, now),
                updated: true,
                ..old(self)@
            }),
    {
        self.on_feedback(now, FeedbackSource::Local(actor), fb)
    }

    pub fn on_remote_feedback(&mut self, now: u64, remote: PeerAddr, fb: Feedback)
        requires
            old(self).wf(),
            now <= TIME_LIMIT_MS,
        ensures
            final(self).wf(),
            final(self)@ == (KindView {
                feedbacks: upsert_feedback(old(self)@.feedbacks, FeedbackSource::Remote(remote), fb, now),
                updated: true,
                ..old(self)@
            }),
    {
        self.on_feedback(now, FeedbackSource::Remote(remote), fb)
    }

    /// Drops the timed-out feedbacks; after an update, also returns the merge of the
    /// feedbacks held before the drop.
    pub fn process_feedbacks(&mut self, now: u64) -> (r: Option<Feedback>)
        requires
            old(self).wf(),
            old(self)@.updated ==> aggregate_ok(old(self)@.feedbacks),
        ensures
            final(self).wf(),
            (final(self)@, r) == process_kind(old(self)@, now),
    {
        let ghost k0 = self@;
        let mut agg: Option<Feedback> = None;
        if self.feedbacks_updated {
            self.feedbacks_updated = false;
            let mut i: usize = 0;
            while i < self.feedbacks.len()
                invariant
                    i <= self@.feedbacks.len(),
                    self@.feedbacks == k0.feedbacks,
                    aggregate_ok(k0.feedbacks),
                    agg == aggregate(k0.feedbacks.take(i as int)),
                    aggregate_ok(k0.feedbacks.take(i as int)),
                decreases self@.feedbacks.len() - i,
            {
                proof {
                    assert(k0.feedbacks.take(i + 1).drop_last() =~= k0.feedbacks.take(i as int));
                    assert(k0.feedbacks.take(i + 1).last() == k0.feedbacks[i as int]);
                    lemma_aggregate_ok_prefix(k0.feedbacks, i + 1);
                }
                let fb = self.feedbacks[i].1;
                agg = match agg {
                    Some(a) => Some(a + fb),
                    None => Some(fb),
                };
                i = i + 1;
            }
            proof {
                assert(k0.feedbacks.take(i as int) =~= k0.feedbacks);
            }
        }
        self.retain_alive(now);
        if let Some(last_fb_ts) = self.last_feedback_ts {
            if let Some(fb) = agg {
                if now < last_fb_ts + fb.interval_ms as u64 {
                    return None;
                }
            }
        }
        agg
    }

    /// Drops the feedbacks that timed out at `now`.
    fn retain_alive(&mut self, now: u64)
        requires
            old(self).wf(),
        ensures
            final(self).wf(),
            final(self)@ == (KindView { feedbacks: alive(old(self)@.feedbacks, now), ..old(self)@ }),
    {
        let ghost s0 = self@.feedbacks;
        let mut kept: Vec<(FeedbackSource, Feedback, u64)> = Vec::new();
        let mut i: usize = 0;
        while i < self.feedbacks.len()
            invariant
                i <= self@.feedbacks.len(),
                self@.feedbacks == s0,
                self.wf(),
                kept@ == alive(s0.take(i as int), now),
            decreases self@.feedbacks.len() - i,
        {
            proof {
                assert(s0.take(i + 1).drop_last() =~= s0.take(i as int));
                assert(s0.take(i + 1).last() == s0[i as int]);
                assert(s0[i as int].2 <= TIME_LIMIT_MS);
            }
            let e = self.feedbacks[i];
            if now < e.2 + e.1.timeout_ms as u64 {
                kept.push(e);
            }
            i = i + 1;
        }
        proof {
            assert(s0.take(i as int) =~= s0);
            lemma_alive_wf(old(self)@, now);
        }
        self.feedbacks = kept;
    }
}

proof fn lemma_aggregate_ok_prefix(s: Seq<(FeedbackSource, Feedback, u64)>, n: int)
    requires
        aggregate_ok(s),
        0 <= n <= s.len(),
    ensures
        aggregate_ok(s.take(n)),
    decreases s.len() - n,
{
    if n < s.len() {
        lemma_aggregate_ok_prefix(s, n + 1);
        assert(s.take(n + 1).drop_last() =~= s.take(n));
    } else {
        assert(s.take(n) =~= s);
    }
}

} // verus!

verus! {

/// The feedbacks of all kinds for one relay, and the merged feedbacks to send.
#[derive(Debug)]
pub struct FeedbacksAggerator {
    feedbacks: Vec<SingleFeedbackKind>,
    queue: VecDeque<Feedback>,
}

/// Mathematical form of [`FeedbacksAggerator`].
pub struct AggView {
    pub kinds: Seq<KindView>,
    pub queue: Seq<Feedback>,
}

impl View for FeedbacksAggerator {
    type V = AggView;

    closed spec fn view(&self) -> AggView {
        AggView { kinds: self.feedbacks@.map_values(|k: SingleFeedbackKind| k@), queue: self.queue@ }
    }
}

pub open spec fn has_kind(s: Seq<KindView>, kind: u8) -> bool {
    exists|i: int| 0 <= i < s.len() && #[trigger] s[i].kind == kind
}

pub open spec fn kind_index(s: Seq<KindView>, kind: u8) -> int {
    choose|i: int| 0 <= i < s.len() && #[trigger] s[i].kind == kind
}

/// The feedbacks held for `kind`.
pub open spec fn kind_feedbacks(s: Seq<KindView>, kind: u8) -> Seq<(FeedbackSource, Feedback, u64)> {
    if has_kind(s, kind) {
        s[kind_index(s, kind)].feedbacks
    } else {
        Seq::empty()
    }
}

/// The invariant of an aggregator: valid kinds, one per kind, none with a pending update.
pub open spec fn agg_wf(a: AggView) -> bool {
    &&& forall|i: int| 0 <= i < a.kinds.len() ==> kind_wf(#[trigger] a.kinds[i]) && !a.kinds[i].updated
    &&& forall|i: int, j: int| #![trigger a.kinds[i], a.kinds[j]] 0 <= i < a.kinds.len() && 0 <= j < a.kinds.len() && i != j ==> a.kinds[i].kind != a.kinds[j].kind
}

/// Whether a new feedback of `src` can be merged with the others of its kind without overflow.
pub open spec fn accepts_feedback(a: AggView, now: u64, src: FeedbackSource, fb: Feedback) -> bool {
    aggregate_ok(upsert_feedback(kind_feedbacks(a.kinds, fb.kind), src, fb, now))
}

/// What a new feedback does: it is kept as the latest of its sender, the timed-out ones of
/// its kind are dropped, and the merge of the kind's feedbacks is queued.
pub open spec fn on_feedback_spec(a: AggView, now: u64, src: FeedbackSource, fb: Feedback) -> AggView {
    let fbs = upsert_feedback(kind_feedbacks(a.kinds, fb.kind), src, fb, now);
    let k = KindView { kind: fb.kind, feedbacks: alive(fbs, now), updated: false, last_feedback_ts: None };
    AggView {
        kinds: if has_kind(a.kinds, fb.kind) { a.kinds.update(kind_index(a.kinds, fb.kind), k) } else { a.kinds.push(k) },
        queue: a.queue.push(aggregate(fbs).unwrap()),
    }
}

/// The kinds after a tick: timed-out feedbacks dropped, kinds left empty removed.
pub open spec fn tick_kinds(s: Seq<KindView>, now: u64) -> Seq<KindView>
    decreases s.len(),
{
    if s.len() == 0 {
        Seq::empty()
    } else {
        let k = s.last();
        let k2 = KindView { feedbacks: alive(k.feedbacks, now), ..k };
        if k2.feedbacks.len() > 0 {
            tick_kinds(s.drop_last(), now).push(k2)
        } else {
            tick_kinds(s.drop_last(), now)
        }
    }
}

proof fn lemma_aggregate_some(s: Seq<(FeedbackSource, Feedback, u64)>)
    ensures
        s.len() > 0 ==> aggregate(s) is Some,
    decreases s.len(),
{
    if s.len() > 1 {
        lemma_aggregate_some(s.drop_last());
    }
}

proof fn lemma_upsert_nonempty(s: Seq<(FeedbackSource, Feedback, u64)>, src: FeedbackSource, fb: Feedback, now: u64)
    ensures
        upsert_feedback(s, src, fb, now).len() > 0,
{
}

impl Default for FeedbacksAggerator {
    fn default() -> (a: Self)
        ensures
            a.wf(),
            a@.kinds.len() == 0,
            a@.queue.len() == 0,
    {
        FeedbacksAggerator::new()
    }
}

impl FeedbacksAggerator {
    pub closed spec fn wf(&self) -> bool {
        &&& agg_wf(self@)
        &&& forall|i: int| 0 <= i < self.feedbacks@.len() ==> (#[trigger] self.feedbacks@[i]).wf()
    }

    pub fn new() -> (a: Self)
        ensures
            a.wf(),
            a@.kinds.len() == 0,
            a@.queue.len() == 0,
    {
        let a = FeedbacksAggerator { feedbacks: Vec::new(), queue: VecDeque::new() };
        assert(a@.kinds =~= Seq::<KindView>::empty());
        a
    }

    /// Drops the timed-out feedbacks and the kinds left without any.
    pub fn on_tick(&mut self, now: u64)
        requires
            old(self).wf(),
        ensures
            final(self).wf(),
            final(self)@ == (AggView { kinds: tick_kinds(old(self)@.kinds, now), queue: old(self)@.queue }),
    {
        self.process_feedbacks(now);
    }

    /// Takes a feedback of a local subscriber.
    pub fn on_local_feedback(&mut self, now: u64, actor: FeatureControlActor, fb: Feedback)
        requires
            old(self).wf(),
            now <= TIME_LIMIT_MS,
            accepts_feedback(old(self)@, now, FeedbackSource::Local(actor), fb),
        ensures
            final(self).wf(),
            final(self)@ == on_feedback_spec(old(self)@, now, FeedbackSource::Local(actor), fb),
    {
        self.on_feedback(now, FeedbackSource::Local(actor), fb)
    }

    /// Takes a feedback of a remote subscriber.
    pub fn on_remote_feedback(&mut self, now: u64, remote: PeerAddr, fb: Feedback)
        requires
            old(self).wf(),
            now <= TIME_LIMIT_MS,
            accepts_feedback(old(self)@, now, FeedbackSource::Remote(remote), fb),
        ensures
            final(self).wf(),
            final(self)@ == on_feedback_spec(old(self)@, now, FeedbackSource::Remote(remote), fb),
    {
        self.on_feedback(now, FeedbackSource::Remote(remote), fb)
    }

    /// Hands out the oldest merged feedback.
    pub fn pop_output(&mut self) -> (r: Option<Feedback>)
        requires
            old(self).wf(),
        ensures
            final(self).wf(),
            old(self)@.queue.len() == 0 ==> r is None && final(self)@ == old(self)@,
            old(self)@.queue.len() > 0 ==> r == Some(old(self)@.queue[0]) && final(self)@ == (AggView { queue: old(self)@.queue.drop_first(), ..old(self)@ }),
    {
        let r = self.queue.pop_front();
        proof {
            if r is Some {
                assert(self@.queue =~= old(self)@.queue.drop_first());
            }
        }
        r
    }

    /// The number of kinds for which feedbacks are held.
    pub fn kinds_len(&self) -> (r: usize)
        ensures
            r == self@.kinds.len(),
    {
        self.feedbacks.len()
    }

    fn on_feedback(&mut self, now: u64, src: FeedbackSource, fb: Feedback)
        requires
            old(self).wf(),
            now <= TIME_LIMIT_MS,
            accepts_feedback(old(self)@, now, src, fb),
        ensures
            final(self).wf(),
            final(self)@ == on_feedback_spec(old(self)@, now, src, fb),
    {
        let ghost a0 = self@;
        let i = self.get_fb_kind(fb.kind);
        let ghost a1 = self@;
        let ghost f1 = self.feedbacks@;
        let mut kind = self.feedbacks.remove(i);
        proof {
            assert(kind@ == a1.kinds[i as int]);
            assert(kind@.feedbacks == kind_feedbacks(a0.kinds, fb.kind));
        }
        kind.on_feedback(now, src, fb);
        let out = kind.process_feedbacks(now);
        proof {
            let fbs = upsert_feedback(kind_feedbacks(a0.kinds, fb.kind), src, fb, now);
            lemma_upsert_nonempty(kind_feedbacks(a0.kinds, fb.kind), src, fb, now);
            lemma_aggregate_some(fbs);
            assert(out == Some(aggregate(fbs).unwrap()));
        }
        self.feedbacks.insert(i, kind);
        match out {
            Some(x) => {
                self.queue.push_back(x);
            },
            None => {},
        }
        proof {
            let k = KindView {
                kind: fb.kind,
                feedbacks: alive(upsert_feedback(kind_feedbacks(a0.kinds, fb.kind), src, fb, now), now),
                updated: false,
                last_feedback_ts: None,
            };
            assert(kind@ == k);
            assert(self@.kinds =~= a1.kinds.update(i as int, k));
            if has_kind(a0.kinds, fb.kind) {
                assert(a1.kinds == a0.kinds);
            } else {
                assert(a1.kinds == a0.kinds.push(KindView { kind: fb.kind, feedbacks: Seq::empty(), updated: false, last_feedback_ts: None }));
                assert(a1.kinds.update(i as int, k) =~= a0.kinds.push(k));
            }
            let ks = self@.kinds;
            assert forall|a: int, b: int| #![trigger ks[a], ks[b]] 0 <= a < ks.len() && 0 <= b < ks.len() && a != b implies ks[a].kind != ks[b].kind by {
                assert(a1.kinds[a].kind == ks[a].kind && a1.kinds[b].kind == ks[b].kind);
            }
            assert forall|j: int| 0 <= j < self.feedbacks@.len() implies (#[trigger] self.feedbacks@[j]).wf() by {
                if j != i {
                    assert(self.feedbacks@[j] == f1[j]);
                }
            }
        }
    }

    /// The index of the kind `kind`, created empty where missing.
    fn get_fb_kind(&mut self, kind: u8) -> (i: usize)
        requires
            old(self).wf(),
        ensures
            final(self).wf(),
            i < final(self)@.kinds.len(),
            final(self)@.kinds[i as int].kind == kind,
            final(self)@.kinds[i as int].feedbacks == kind_feedbacks(old(self)@.kinds, kind),
            final(self)@.queue == old(self)@.queue,
            has_kind(old(self)@.kinds, kind) ==> final(self)@.kinds == old(self)@.kinds && i == kind_index(old(self)@.kinds, kind),
            !has_kind(old(self)@.kinds, kind) ==> final(self)@.kinds == old(self)@.kinds.push(
                KindView { kind, feedbacks: Seq::empty(), updated: false, last_feedback_ts: None },
            ) && i == old(self)@.kinds.len(),
    {
        let mut i: usize = 0;
        while i < self.feedbacks.len()
            invariant
                self.wf(),
                i <= self.feedbacks@.len(),
                forall|k: int| 0 <= k < i ==> (#[trigger] self@.kinds[k]).kind != kind,
            decreases self.feedbacks@.len() - i,
        {
            if self.feedbacks[i].kind == kind {
                proof {
                    let s = self@.kinds;
                    assert(s[i as int].kind == kind);
                    let j = kind_index(s, kind);
                    assert(s[j].kind == kind);
                    assert(s[j].kind != s[i as int].kind || j == i);
                }
                return i;
            }
            i = i + 1;
        }
        let new = SingleFeedbackKind { kind, feedbacks: Vec::new(), feedbacks_updated: false, last_feedback_ts: None };
        assert(new@.feedbacks =~= Seq::<(FeedbackSource, Feedback, u64)>::empty());
        let ghost a0 = self@;
        self.feedbacks.push(new);
        proof {
            assert(self@.kinds =~= a0.kinds.push(new@));
            let ks = self@.kinds;
            assert forall|a: int, b: int| #![trigger ks[a], ks[b]] 0 <= a < ks.len() && 0 <= b < ks.len() && a != b implies ks[a].kind != ks[b].kind by {
                if a < a0.kinds.len() && b < a0.kinds.len() {
                    assert(a0.kinds[a] == ks[a] && a0.kinds[b] == ks[b]);
                } else if a < a0.kinds.len() {
                    assert(a0.kinds[a] == ks[a]);
                } else {
                    assert(a0.kinds[b] == ks[b]);
                }
            }
            assert forall|j: int| 0 <= j < self.feedbacks@.len() implies (#[trigger] self.feedbacks@[j]).wf() by {
                if j < a0.kinds.len() {
                    assert(self.feedbacks@[j] == old(self).feedbacks@[j]);
                }
            }
        }
        self.feedbacks.len() - 1
    }

    fn process_feedbacks(&mut self, now: u64)
        requires
            old(self).wf(),
        ensures
            final(self).wf(),
            final(self)@ == (AggView { kinds: tick_kinds(old(self)@.kinds, now), queue: old(self)@.queue }),
    {
        let ghost a0 = self@;
        let mut rest: Vec<SingleFeedbackKind> = Vec::new();
        std::mem::swap(&mut rest, &mut self.feedbacks);
        let ghost n = rest@.len();
        let mut kept: Vec<SingleFeedbackKind> = Vec::new();
        while rest.len() > 0
            invariant
                rest@.len() <= n,
                n == a0.kinds.len(),
                agg_wf(a0),
                forall|j: int| 0 <= j < rest@.len() ==> (#[trigger] rest@[j]).wf(),
                forall|j: int| 0 <= j < kept@.len() ==> (#[trigger] kept@[j]).wf() && !kept@[j]@.updated,
                rest@.map_values(|k: SingleFeedbackKind| k@) == a0.kinds.skip(n - rest@.len()),
                kept@.map_values(|k: SingleFeedbackKind| k@) == tick_kinds(a0.kinds.take(n - rest@.len()), now),
                self@.queue == a0.queue,
                self.feedbacks@.len() == 0,
            decreases rest@.len(),
        {
            let ghost k = n - rest@.len();
            let ghost r0 = rest@;
            let mut kind = rest.remove(0);
            proof {
                assert(r0.map_values(|k: SingleFeedbackKind| k@)[0] == kind@);
                assert(a0.kinds.skip(k)[0] == a0.kinds[k]);
                assert(kind@ == a0.kinds[k]);
                assert forall|j: int| 0 <= j < rest@.len() implies #[trigger] rest@[j] == r0[j + 1] by {}
                assert(rest@.map_values(|k: SingleFeedbackKind| k@) =~= a0.kinds.skip(k + 1)) by {
                    assert forall|j: int| 0 <= j < rest@.len() implies r0.map_values(|k: SingleFeedbackKind| k@)[j + 1] == #[trigger] a0.kinds.skip(k + 1)[j] by {
                        assert(a0.kinds.skip(k)[j + 1] == a0.kinds.skip(k + 1)[j]);
                    }
                }
                assert(a0.kinds.take(k + 1).drop_last() =~= a0.kinds.take(k));
                assert(a0.kinds.take(k + 1).last() == a0.kinds[k]);
                assert(kind_wf(a0.kinds[k]) && !a0.kinds[k].updated);
                assert(r0[0].wf());
            }
            let out = kind.process_feedbacks(now);
            assert(out is None);
            if kind.feedbacks.len() > 0 {
                let ghost kv = kept@;
                kept.push(kind);
                proof {
                    assert(kept@.map_values(|k: SingleFeedbackKind| k@) =~= kv.map_values(|k: SingleFeedbackKind| k@).push(kind@));
                }
            }
        }
        proof {
            assert(a0.kinds.take(n as int) =~= a0.kinds);
        }
        self.feedbacks = kept;
        proof {
            lemma_tick_kinds(a0.kinds, now);
        }
    }
}

proof fn lemma_tick_kinds(s: Seq<KindView>, now: u64)
    requires
        forall|i: int| 0 <= i < s.len() ==> kind_wf(#[trigger] s[i]) && !s[i].updated,
        forall|i: int, j: int| #![trigger s[i], s[j]] 0 <= i < s.len() && 0 <= j < s.len() && i != j ==> s[i].kind != s[j].kind,
    ensures
        agg_wf(AggView { kinds: tick_kinds(s, now), queue: Seq::empty() }),
        forall|k: int| 0 <= k < tick_kinds(s, now).len() ==> exists|j: int| 0 <= j < s.len() && s[j].kind == (#[trigger] tick_kinds(s, now)[k]).kind,
    decreases s.len(),
{
    if s.len() > 0 {
        let d = s.drop_last();
        assert forall|i: int, j: int| #![trigger d[i], d[j]] 0 <= i < d.len() && 0 <= j < d.len() && i != j implies d[i].kind != d[j].kind by {
            assert(s[i] == d[i] && s[j] == d[j]);
        }
        assert forall|i: int| 0 <= i < d.len() implies kind_wf(#[trigger] d[i]) && !d[i].updated by {
            assert(s[i] == d[i]);
        }
        lemma_tick_kinds(d, now);
        let rest = tick_kinds(d, now);
        let r = tick_kinds(s, now);
        let last = s.len() - 1;
        lemma_alive_wf(s[last], now);
        assert forall|k: int| 0 <= k < r.len() implies exists|j: int| 0 <= j < s.len() && s[j].kind == (#[trigger] r[k]).kind by {
            if k < rest.len() {
                let j = choose|j: int| 0 <= j < d.len() && d[j].kind == rest[k].kind;
                assert(s[j] == d[j]);
            } else {
                assert(s[last].kind == r[k].kind);
            }
        }
        assert forall|a: int, b: int| #![trigger r[a], r[b]] 0 <= a < r.len() && 0 <= b < r.len() && a != b implies r[a].kind != r[b].kind by {
            if a < rest.len() && b < rest.len() {
                assert(r[a] == rest[a] && r[b] == rest[b]);
            } else if a < rest.len() {
                let j = choose|j: int| 0 <= j < d.len() && d[j].kind == rest[a].kind;
                assert(s[j] == d[j]);
                assert(s[j].kind != s[last].kind);
            } else if b < rest.len() {
                let j = choose|j: int| 0 <= j < d.len() && d[j].kind == rest[b].kind;
                assert(s[j] == d[j]);
                assert(s[j].kind != s[last].kind);
            }
        }
        assert forall|i: int| 0 <= i < r.len() implies kind_wf(#[trigger] r[i]) && !r[i].updated by {
            if i < rest.len() {
                assert(r[i] == rest[i]);
            }
        }
    }
}

} // verus!
