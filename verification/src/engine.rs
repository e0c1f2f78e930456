//! Subscription registry and the decision logic of the command engine.
//!
//! The engine's worker drains a channel of [`Event`] commands one at a time
//! and keeps the registry consistent with the requests it issues to the
//! broker client: a topic is inserted only when a subscribe request is
//! issued, and removed only when an unsubscribe request is issued.  The
//! functions here decide, for each command, what the next registry state is
//! and whether a request must reach the broker; the surrounding process
//! performs the request itself.

use vstd::prelude::*;

verus! {

use crate::topic::{lemma_seq_lt_total, lemma_seq_lt_trans, seq_lt, topic_eq, topic_lt};

/// A subscribe or unsubscribe command, consumed exactly once by the
/// engine's worker.
#[derive(Debug, PartialEq, Eq)]
pub enum Event {
    Subscribe(String),
    Unsubscribe(String),
}

/// The topic a command speaks of.
pub open spec fn event_topic(e: Event) -> Seq<char> {
    match e {
        Event::Subscribe(t) => t@,
        Event::Unsubscribe(t) => t@,
    }
}

/// A registry view is strictly increasing: sorted, and free of duplicates.
pub open spec fn topics_sorted(s: Seq<Seq<char>>) -> bool {
    forall|i: int, j: int| 0 <= i < j < s.len() ==> seq_lt(s[i], s[j])
}

/// Insertion into a sorted sequence of topics; a topic already present is
/// left alone.
pub open spec fn sorted_insert(s: Seq<Seq<char>>, t: Seq<char>) -> Seq<Seq<char>>
    decreases s.len(),
{
    if s.len() == 0 {
        seq![t]
    } else if seq_lt(t, s[0]) {
        seq![t] + s
    } else if t == s[0] {
        s
    } else {
        seq![s[0]] + sorted_insert(s.drop_first(), t)
    }
}

/// Removal from a sorted sequence of topics; an absent topic leaves the
/// sequence unchanged.
pub open spec fn sorted_remove(s: Seq<Seq<char>>, t: Seq<char>) -> Seq<Seq<char>>
    decreases s.len(),
{
    if s.len() == 0 {
        s
    } else if s[0] == t {
        s.drop_first()
    } else {
        seq![s[0]] + sorted_remove(s.drop_first(), t)
    }
}

/// What a subscribe command does: the next registry view, and whether a
/// subscribe request is issued to the broker client.
pub open spec fn spec_subscribe(s: Seq<Seq<char>>, t: Seq<char>) -> (Seq<Seq<char>>, bool) {
    if s.contains(t) {
        (s, false)
    } else {
        (sorted_insert(s, t), true)
    }
}

/// What an unsubscribe command does: the next registry view, and whether an
/// unsubscribe request is issued to the broker client.
pub open spec fn spec_unsubscribe(s: Seq<Seq<char>>, t: Seq<char>) -> (Seq<Seq<char>>, bool) {
    if s.contains(t) {
        (sorted_remove(s, t), true)
    } else {
        (s, false)
    }
}

/// One step of the worker: apply a command to a registry view.
pub open spec fn spec_apply(s: Seq<Seq<char>>, e: Event) -> (Seq<Seq<char>>, bool) {
    match e {
        Event::Subscribe(t) => spec_subscribe(s, t@),
        Event::Unsubscribe(t) => spec_unsubscribe(s, t@),
    }
}

/// Commands applied one at a time, in submission order.
pub open spec fn spec_apply_all(s: Seq<Seq<char>>, es: Seq<Event>) -> Seq<Seq<char>>
    decreases es.len(),
{
    if es.len() == 0 {
        s
    } else {
        spec_apply_all(spec_apply(s, es[0]).0, es.skip(1))
    }
}

/// The index where `t` stands, or would be inserted, in a sorted sequence.
pub open spec fn spec_lower_bound(s: Seq<Seq<char>>, t: Seq<char>) -> int
    decreases s.len(),
{
    if s.len() == 0 {
        0
    } else if seq_lt(s[0], t) {
        1 + spec_lower_bound(s.drop_first(), t)
    } else {
        0
    }
}

pub proof fn lemma_lower_bound(s: Seq<Seq<char>>, t: Seq<char>)
    ensures
        0 <= spec_lower_bound(s, t) <= s.len(),
        forall|j: int| 0 <= j < spec_lower_bound(s, t) ==> seq_lt(s[j], t),
        spec_lower_bound(s, t) < s.len() ==> !seq_lt(s[spec_lower_bound(s, t)], t),
    decreases s.len(),
{
    if s.len() > 0 && seq_lt(s[0], t) {
        let d = s.drop_first();
        lemma_lower_bound(d, t);
        assert forall|j: int| 0 <= j < spec_lower_bound(s, t) implies seq_lt(s[j], t) by {
            if j > 0 {
                assert(s[j] == d[j - 1]);
            }
        }
        if spec_lower_bound(s, t) < s.len() {
            assert(s[spec_lower_bound(s, t)] == d[spec_lower_bound(s, t) - 1]);
        }
    }
}

/// At a lower-bound index, membership is decided by a single comparison.
pub proof fn lemma_lower_bound_contains(s: Seq<Seq<char>>, t: Seq<char>, i: int)
    requires
        topics_sorted(s),
        0 <= i <= s.len(),
        forall|j: int| 0 <= j < i ==> seq_lt(s[j], t),
        i < s.len() ==> !seq_lt(s[i], t),
    ensures
        s.contains(t) <==> (i < s.len() && s[i] == t),
{
    if i < s.len() && s[i] == t {
        assert(s.contains(t));
    } else if s.contains(t) {
        let k = choose|k: int| 0 <= k < s.len() && s[k] == t;
        if k < i {
            lemma_seq_lt_total(s[k], t);
        } else {
            assert(k > i || (k == i && i < s.len()));
            if k == i {
                assert(false);
            } else {
                // k > i, so i < s.len(); s[i] comes before t in the order
                lemma_seq_lt_total(s[i], t);
                if seq_lt(t, s[i]) {
                    lemma_seq_lt_trans(t, s[i], s[k]);
                    lemma_seq_lt_total(t, s[k]);
                }
            }
        }
    }
}

/// What `sorted_insert` yields at the lower-bound index.
pub proof fn lemma_sorted_insert_at(s: Seq<Seq<char>>, t: Seq<char>, i: int)
    requires
        topics_sorted(s),
        0 <= i <= s.len(),
        forall|j: int| 0 <= j < i ==> seq_lt(s[j], t),
        i < s.len() ==> !seq_lt(s[i], t),
    ensures
        i < s.len() && s[i] == t ==> sorted_insert(s, t) == s,
        !(i < s.len() && s[i] == t) ==> sorted_insert(s, t) == s.subrange(0, i) + seq![t]
            + s.subrange(i, s.len() as int),
    decreases i,
{
    if i == 0 {
        if s.len() == 0 {
            assert(sorted_insert(s, t) =~= s.subrange(0, 0) + seq![t] + s.subrange(0, 0));
        } else {
            lemma_seq_lt_total(t, s[0]);
            if seq_lt(t, s[0]) {
                assert(seq![t] + s =~= s.subrange(0, 0) + seq![t] + s.subrange(0, s.len() as int));
            }
        }
    } else {
        assert(seq_lt(s[0], t));
        lemma_seq_lt_total(t, s[0]);
        let d = s.drop_first();
        assert(topics_sorted(d)) by {
            assert(forall|k: int| 0 <= k < d.len() ==> d[k] == #[trigger] s[k + 1]);
        }
        assert(forall|j: int| 0 <= j < i - 1 ==> seq_lt(#[trigger] d[j], t));
        assert(i - 1 < d.len() ==> !seq_lt(d[i - 1], t));
        lemma_sorted_insert_at(d, t, i - 1);
        if i < s.len() && s[i] == t {
            assert(d[i - 1] == t);
            assert(seq![s[0]] + d =~= s);
        } else {
            assert(sorted_insert(s, t) == seq![s[0]] + (d.subrange(0, i - 1) + seq![t]
                + d.subrange(i - 1, d.len() as int)));
            assert(seq![s[0]] + (d.subrange(0, i - 1) + seq![t] + d.subrange(
                i - 1,
                d.len() as int,
            )) =~= s.subrange(0, i) + seq![t] + s.subrange(i, s.len() as int));
        }
    }
}

/// Removing a topic that stands nowhere in the sequence changes nothing.
pub proof fn lemma_sorted_remove_absent(s: Seq<Seq<char>>, t: Seq<char>)
    requires
        forall|j: int| 0 <= j < s.len() ==> s[j] != t,
    ensures
        sorted_remove(s, t) == s,
    decreases s.len(),
{
    if s.len() > 0 {
        let d = s.drop_first();
        assert(forall|j: int| 0 <= j < d.len() ==> #[trigger] d[j] == s[j + 1]);
        lemma_sorted_remove_absent(d, t);
        assert(seq![s[0]] + d =~= s);
    }
}

/// What `sorted_remove` yields at the lower-bound index.
pub proof fn lemma_sorted_remove_at(s: Seq<Seq<char>>, t: Seq<char>, i: int)
    requires
        topics_sorted(s),
        0 <= i <= s.len(),
        forall|j: int| 0 <= j < i ==> seq_lt(s[j], t),
        i < s.len() ==> !seq_lt(s[i], t),
    ensures
        i < s.len() && s[i] == t ==> sorted_remove(s, t) == s.subrange(0, i) + s.subrange(
            i + 1,
            s.len() as int,
        ),
        !(i < s.len() && s[i] == t) ==> sorted_remove(s, t) == s,
    decreases i,
{
    if i == 0 {
        if s.len() == 0 {
        } else if s[0] == t {
            assert(s.drop_first() =~= s.subrange(0, 0) + s.subrange(1, s.len() as int));
        } else {
            lemma_seq_lt_total(t, s[0]);
            assert(seq_lt(t, s[0]));
            assert forall|j: int| 0 <= j < s.len() implies s[j] != t by {
                if j > 0 {
                    lemma_seq_lt_trans(t, s[0], s[j]);
                }
                lemma_seq_lt_total(t, s[j]);
            }
            lemma_sorted_remove_absent(s, t);
        }
    } else {
        assert(seq_lt(s[0], t));
        lemma_seq_lt_total(s[0], t);
        let d = s.drop_first();
        assert(topics_sorted(d)) by {
            assert(forall|k: int| 0 <= k < d.len() ==> d[k] == #[trigger] s[k + 1]);
        }
        assert(forall|j: int| 0 <= j < i - 1 ==> seq_lt(#[trigger] d[j], t));
        assert(i - 1 < d.len() ==> !seq_lt(d[i - 1], t));
        lemma_sorted_remove_at(d, t, i - 1);
        if i < s.len() && s[i] == t {
            assert(d[i - 1] == t);
            assert(sorted_remove(s, t) == seq![s[0]] + (d.subrange(0, i - 1) + d.subrange(
                i,
                d.len() as int,
            )));
            assert(seq![s[0]] + (d.subrange(0, i - 1) + d.subrange(i, d.len() as int)) =~= s
                .subrange(0, i) + s.subrange(i + 1, s.len() as int));
        } else {
            assert(seq![s[0]] + d =~= s);
        }
    }
}

/// The authoritative set of currently subscribed topics.
///
/// Topics are kept sorted by code point, so iteration order is stable and
/// deterministic, and a topic stands in the registry at most once.  The
/// view is the sorted sequence of topics.
pub struct Registry {
    topics: Vec<String>,
}

impl View for Registry {
    type V = Seq<Seq<char>>;

    closed spec fn view(&self) -> Seq<Seq<char>> {
        self.topics@.map(|i: int, s: String| s@)
    }
}

impl Registry {
    /// The registry's sequence of topics is strictly increasing.
    pub open spec fn wf(self) -> bool {
        topics_sorted(self@)
    }

    /// An empty registry.
    pub fn new() -> (r: Registry)
        ensures
            r@ == Seq::<Seq<char>>::empty(),
            r.wf(),
    {
        let r = Registry { topics: Vec::new() };
        proof {
            assert(r@ =~= Seq::<Seq<char>>::empty());
        }
        r
    }

    /// How many topics are subscribed.
    pub fn len(&self) -> (n: usize)
        ensures
            n == self@.len(),
    {
        self.topics.len()
    }

    /// The topic at a position of the sorted order.
    pub fn get(&self, i: usize) -> (t: &String)
        requires
            i < self@.len(),
        ensures
            t@ == self@[i as int],
    {
        &self.topics[i]
    }

    /// The first position whose topic does not sort before `t`.
    fn lower_bound(&self, t: &str) -> (i: usize)
        requires
            self.wf(),
        ensures
            i == spec_lower_bound(self@, t@),
            i <= self@.len(),
            forall|j: int| 0 <= j < i ==> seq_lt(self@[j], t@),
            i < self@.len() ==> !seq_lt(self@[i as int], t@),
    {
        proof {
            lemma_lower_bound(self@, t@);
        }
        let ghost s = self@;
        let n = self.topics.len();
        let mut i: usize = 0;
        loop
            invariant
                i <= n,
                n == s.len(),
                s == self@,
                self.wf(),
                forall|j: int| 0 <= j < i ==> seq_lt(s[j], t@),
                i <= spec_lower_bound(s, t@),
            decreases n - i,
        {
            proof {
                lemma_lower_bound(s, t@);
            }
            if i == n {
                return i;
            }
            if !topic_lt(self.topics[i].as_str(), t) {
                proof {
                    if i < spec_lower_bound(s, t@) {
                        assert(seq_lt(s[i as int], t@));
                    }
                }
                return i;
            }
            proof {
                if i == spec_lower_bound(s, t@) {
                    assert(!seq_lt(s[i as int], t@));
                }
            }
            i = i + 1;
        }
    }

    /// Whether `t` is currently subscribed.
    pub fn contains(&self, t: &str) -> (r: bool)
        requires
            self.wf(),
        ensures
            r == self@.contains(t@),
    {
        let i = self.lower_bound(t);
        proof {
            lemma_lower_bound_contains(self@, t@, i as int);
        }
        if i < self.topics.len() {
            topic_eq(self.topics[i].as_str(), t)
        } else {
            false
        }
    }

    /// Apply a subscribe command: insert the topic unless it is already
    /// present, and say whether a subscribe request is owed to the broker.
    pub fn subscribe(&mut self, topic: String) -> (issued: bool)
        requires
            old(self).wf(),
        ensures
            final(self).wf(),
            (final(self)@, issued) == spec_subscribe(old(self)@, topic@),
            issued == !old(self)@.contains(topic@),
    {
        let ghost s = self@;
        let i = self.lower_bound(topic.as_str());
        proof {
            lemma_lower_bound_contains(s, topic@, i as int);
            lemma_sorted_insert_at(s, topic@, i as int);
        }
        let present = i < self.topics.len() && topic_eq(self.topics[i].as_str(), topic.as_str());
        if present {
            return false;
        }
        self.topics.insert(i, topic);
        proof {
            assert(self@ =~= s.subrange(0, i as int) + seq![topic@] + s.subrange(
                i as int,
                s.len() as int,
            ));
            assert forall|p: int, q: int| 0 <= p < q < self@.len() implies seq_lt(
                self@[p],
                self@[q],
            ) by {
                lemma_registry_insert_sorted(s, topic@, i as int, p, q);
            }
        }
        true
    }

    /// Apply an unsubscribe command: remove the topic if it is present, and
    /// say whether an unsubscribe request is owed to the broker.
    pub fn unsubscribe(&mut self, topic: &str) -> (issued: bool)
        requires
            old(self).wf(),
        ensures
            final(self).wf(),
            (final(self)@, issued) == spec_unsubscribe(old(self)@, topic@),
            issued == old(self)@.contains(topic@),
    {
        let ghost s = self@;
        let i = self.lower_bound(topic);
        proof {
            lemma_lower_bound_contains(s, topic@, i as int);
            lemma_sorted_remove_at(s, topic@, i as int);
        }
        let present = i < self.topics.len() && topic_eq(self.topics[i].as_str(), topic);
        if !present {
            return false;
        }
        let _ = self.topics.remove(i);
        proof {
            assert(self@ =~= s.subrange(0, i as int) + s.subrange(i as int + 1, s.len() as int));
            assert forall|p: int, q: int| 0 <= p < q < self@.len() implies seq_lt(
                self@[p],
                self@[q],
            ) by {
                let pp = if p < i { p } else { p + 1 };
                let qq = if q < i { q } else { q + 1 };
                assert(self@[p] == s[pp]);
                assert(self@[q] == s[qq]);
            }
        }
        true
    }
}

/// Index bookkeeping behind the sortedness of an insertion.
pub proof fn lemma_registry_insert_sorted(
    s: Seq<Seq<char>>,
    t: Seq<char>,
    i: int,
    p: int,
    q: int,
)
    requires
        topics_sorted(s),
        0 <= i <= s.len(),
        forall|j: int| 0 <= j < i ==> seq_lt(s[j], t),
        i < s.len() ==> !seq_lt(s[i], t),
        i < s.len() ==> s[i] != t,
        0 <= p < q < s.len() + 1,
    ensures
        seq_lt(
            (s.subrange(0, i) + seq![t] + s.subrange(i, s.len() as int))[p],
            (s.subrange(0, i) + seq![t] + s.subrange(i, s.len() as int))[q],
        ),
{
    let r = s.subrange(0, i) + seq![t] + s.subrange(i, s.len() as int);
    assert forall|k: int| i < k < r.len() implies seq_lt(t, #[trigger] r[k]) by {
        assert(r[k] == s[k - 1]);
        lemma_seq_lt_total(t, s[i]);
        if k - 1 > i {
            lemma_seq_lt_trans(t, s[i], s[k - 1]);
        }
    }
    if p < i {
        assert(r[p] == s[p]);
    }
    if q < i {
        assert(r[q] == s[q]);
    }
    if p < i && q < i {
    } else if p < i && q == i {
        assert(r[q] == t);
    } else if p == i {
        assert(r[p] == t);
    } else if p > i && q > i {
        assert(r[p] == s[p - 1]);
        assert(r[q] == s[q - 1]);
    } else if p < i && q > i {
        lemma_seq_lt_trans(s[p], t, r[q]);
    }
}

/// One worker cycle: apply a single command to the registry; the result
/// says whether a broker request is owed for it.
pub fn apply_event(reg: &mut Registry, event: &Event) -> (issued: bool)
    requires
        old(reg).wf(),
    ensures
        final(reg).wf(),
        (final(reg)@, issued) == spec_apply(old(reg)@, *event),
{
    match event {
        Event::Subscribe(t) => reg.subscribe(t.clone()),
        Event::Unsubscribe(t) => reg.unsubscribe(t.as_str()),
    }
}

/// Subscribe to each topic of a batch, in the given order, as the engine
/// does with the initial topics; there is no atomicity across the batch.
pub fn subscribe_all(reg: &mut Registry, topics: &Vec<String>)
    requires
        old(reg).wf(),
    ensures
        final(reg).wf(),
        final(reg)@ == spec_apply_all(
            old(reg)@,
            topics@.map(|i: int, t: String| Event::Subscribe(t)),
        ),
{
    let ghost events = topics@.map(|i: int, t: String| Event::Subscribe(t));
    proof {
        assert(events.skip(0) =~= events);
    }
    let mut k: usize = 0;
    while k < topics.len()
        invariant
            k <= topics.len(),
            reg.wf(),
            events == topics@.map(|i: int, t: String| Event::Subscribe(t)),
            spec_apply_all(reg@, events.skip(k as int)) == spec_apply_all(old(reg)@, events),
        decreases topics.len() - k,
    {
        let ghost pre = reg@;
        let _ = reg.subscribe(topics[k].clone());
        proof {
            assert(events.skip(k as int)[0] == Event::Subscribe(topics@[k as int]));
            assert(spec_apply(pre, events.skip(k as int)[0]).0 == reg@);
            assert(events.skip(k as int).skip(1) =~= events.skip(k as int + 1));
        }
        k = k + 1;
    }
    proof {
        assert(events.skip(topics@.len() as int) =~= Seq::<Event>::empty());
    }
}

/// Subscribing twice in a row leaves one entry and issues at most one
/// request: the second command is a silent no-op.
pub proof fn lemma_subscribe_idempotent(s: Seq<Seq<char>>, t: Seq<char>)
    requires
        topics_sorted(s),
    ensures
        spec_subscribe(spec_subscribe(s, t).0, t).0 == spec_subscribe(s, t).0,
        spec_subscribe(spec_subscribe(s, t).0, t).1 == false,
        spec_subscribe(s, t).0.contains(t),
        forall|p: int, q: int|
            0 <= p < q < spec_subscribe(s, t).0.len() ==> spec_subscribe(s, t).0[p]
                != spec_subscribe(s, t).0[q],
{
    let i = spec_lower_bound(s, t);
    lemma_lower_bound(s, t);
    lemma_lower_bound_contains(s, t, i);
    lemma_sorted_insert_at(s, t, i);
    let r = spec_subscribe(s, t).0;
    assert(topics_sorted(r)) by {
        if !s.contains(t) {
            assert forall|p: int, q: int| 0 <= p < q < r.len() implies seq_lt(r[p], r[q]) by {
                lemma_registry_insert_sorted(s, t, i, p, q);
            }
        }
    }
    assert(r.contains(t)) by {
        if s.contains(t) {
        } else {
            assert(r[i] == t);
        }
    }
    assert forall|p: int, q: int| 0 <= p < q < r.len() implies r[p] != r[q] by {
        lemma_seq_lt_total(r[p], r[q]);
    }
}

/// Unsubscribing from an absent topic is a no-op: the registry is unchanged
/// and no request reaches the broker.
pub proof fn lemma_unsubscribe_absent(s: Seq<Seq<char>>, t: Seq<char>)
    requires
        !s.contains(t),
    ensures
        spec_unsubscribe(s, t) == (s, false),
{
}

/// Subscribe to `a`, subscribe to `b`, unsubscribe from `a`, starting from
/// an empty registry: the final state holds exactly `b`, whatever the two
/// topics are, as long as they differ.
pub proof fn lemma_command_ordering(a: Seq<char>, b: Seq<char>)
    requires
        a != b,
    ensures
        spec_unsubscribe(spec_subscribe(spec_subscribe(Seq::empty(), a).0, b).0, a).0 == seq![b],
{
    let s0 = Seq::<Seq<char>>::empty();
    let s1 = spec_subscribe(s0, a).0;
    assert(!s0.contains(a));
    assert(s1 == sorted_insert(s0, a));
    assert(s1 =~= seq![a]);
    assert(!s1.contains(b)) by {
        if s1.contains(b) {
            assert(s1[0] == b);
        }
    }
    let s2 = spec_subscribe(s1, b).0;
    assert(s2 == sorted_insert(seq![a], b));
    lemma_seq_lt_total(a, b);
    if seq_lt(b, a) {
        assert(s2 =~= seq![b] + seq![a]);
        assert(s2.contains(a)) by {
            assert(s2[1] == a);
        }
        let s3 = spec_unsubscribe(s2, a).0;
        assert(s2[0] == b && b != a);
        assert(s3 == seq![s2[0]] + sorted_remove(s2.drop_first(), a));
        assert(s2.drop_first() =~= seq![a]);
        assert(sorted_remove(seq![a], a) =~= Seq::<Seq<char>>::empty());
        assert(s3 =~= seq![b]);
    } else {
        assert(seq![a].drop_first() =~= Seq::<Seq<char>>::empty());
        assert(sorted_insert(Seq::<Seq<char>>::empty(), b) =~= seq![b]);
        assert(s2 =~= seq![a] + seq![b]);
        assert(s2.contains(a)) by {
            assert(s2[0] == a);
        }
        let s3 = spec_unsubscribe(s2, a).0;
        assert(s3 =~= s2.drop_first());
        assert(s3 =~= seq![b]);
    }
}

} // verus!
