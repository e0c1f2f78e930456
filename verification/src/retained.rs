//! Latest retained message per topic.
//!
//! Maps each topic to the most recent message published on it: one entry
//! per topic, overwritten on every new publish, never pruned.  Entries are
//! kept sorted by topic, so iteration order is stable.  The view is a
//! `Map` from topic to message value.

use vstd::prelude::*;

verus! {

use crate::engine::{
    lemma_lower_bound, lemma_lower_bound_contains, lemma_registry_insert_sorted,
    spec_lower_bound, topics_sorted,
};
use crate::notification::{Publish, PublishView};
use crate::topic::{lemma_seq_lt_total, seq_lt, topic_eq, topic_lt};

/// The map an entry sequence denotes: later entries win.
pub open spec fn map_of(es: Seq<(String, Publish)>) -> Map<Seq<char>, PublishView>
    decreases es.len(),
{
    if es.len() == 0 {
        Map::empty()
    } else {
        map_of(es.drop_last()).insert(es.last().0@, es.last().1@)
    }
}

/// The keys of an entry sequence, in order.
pub open spec fn keys_of(es: Seq<(String, Publish)>) -> Seq<Seq<char>> {
    es.map(|i: int, e: (String, Publish)| e.0@)
}

/// With pairwise distinct keys, the denoted map reads off the entries.
pub proof fn lemma_map_of_entries(es: Seq<(String, Publish)>)
    requires
        forall|i: int, j: int| 0 <= i < j < es.len() ==> es[i].0@ != es[j].0@,
    ensures
        forall|k: Seq<char>|
            #[trigger] map_of(es).dom().contains(k) <==> keys_of(es).contains(k),
        forall|i: int|
            0 <= i < es.len() ==> map_of(es).dom().contains(#[trigger] es[i].0@) && map_of(
                es,
            )[es[i].0@] == es[i].1@,
    decreases es.len(),
{
    if es.len() > 0 {
        let prefix = es.drop_last();
        lemma_map_of_entries(prefix);
        assert forall|k: Seq<char>|
            #[trigger] map_of(es).dom().contains(k) <==> keys_of(es).contains(k) by {
            if map_of(es).dom().contains(k) {
                if k == es.last().0@ {
                    assert(keys_of(es)[es.len() - 1] == k);
                    assert(keys_of(es).contains(k));
                } else {
                    assert(map_of(prefix).dom().contains(k));
                    let i = choose|i: int|
                        0 <= i < keys_of(prefix).len() && keys_of(prefix)[i] == k;
                    assert(keys_of(es)[i] == k);
                    assert(keys_of(es).contains(k));
                }
            }
            if keys_of(es).contains(k) {
                let i = choose|i: int| 0 <= i < keys_of(es).len() && keys_of(es)[i] == k;
                if i == es.len() - 1 {
                    assert(map_of(es).dom().contains(k));
                } else {
                    assert(keys_of(prefix)[i] == k);
                    assert(keys_of(prefix).contains(k));
                    assert(map_of(prefix).dom().contains(k));
                }
            }
        }
        assert forall|i: int| 0 <= i < es.len() implies map_of(es).dom().contains(
            #[trigger] es[i].0@,
        ) && map_of(es)[es[i].0@] == es[i].1@ by {
            if i == es.len() - 1 {
            } else {
                assert(prefix[i] == es[i]);
                assert(es[i].0@ != es[es.len() - 1].0@);
            }
        }
    }
}

/// The retained-message map: topic to the last message published on it.
pub struct RetainedMap {
    entries: Vec<(String, Publish)>,
}

impl View for RetainedMap {
    type V = Map<Seq<char>, PublishView>;

    closed spec fn view(&self) -> Map<Seq<char>, PublishView> {
        map_of(self.entries@)
    }
}

impl RetainedMap {
    /// The entries' keys, in storage order.
    pub closed spec fn key_seq(&self) -> Seq<Seq<char>> {
        keys_of(self.entries@)
    }

    /// Entries are strictly sorted by topic: deterministic order, one entry
    /// per topic.
    pub closed spec fn wf(&self) -> bool {
        topics_sorted(self.key_seq())
    }

    /// Keys are distinct whenever the map is well formed.
    proof fn lemma_wf_distinct(&self)
        requires
            self.wf(),
        ensures
            forall|i: int, j: int|
                0 <= i < j < self.entries@.len() ==> self.entries@[i].0@ != self.entries@[j].0@,
    {
        assert forall|i: int, j: int| 0 <= i < j < self.entries@.len() implies self.entries@[i].0@
            != self.entries@[j].0@ by {
            assert(seq_lt(self.key_seq()[i], self.key_seq()[j]));
            lemma_seq_lt_total(self.key_seq()[i], self.key_seq()[j]);
        }
    }

    /// An empty map.
    pub fn new() -> (r: RetainedMap)
        ensures
            r@ == Map::<Seq<char>, PublishView>::empty(),
            r.wf(),
            r.key_seq() == Seq::<Seq<char>>::empty(),
    {
        let r = RetainedMap { entries: Vec::new() };
        proof {
            assert(r.key_seq() =~= Seq::<Seq<char>>::empty());
        }
        r
    }

    /// How many topics have a retained message.
    pub fn len(&self) -> (n: usize)
        ensures
            n == self.key_seq().len(),
    {
        self.entries.len()
    }

    /// The entry at a position of the sorted order.
    pub fn entry_at(&self, i: usize) -> (e: &(String, Publish))
        requires
            self.wf(),
            i < self.key_seq().len(),
        ensures
            e.0@ == self.key_seq()[i as int],
            self@.dom().contains(e.0@),
            self@[e.0@] == e.1@,
    {
        proof {
            self.lemma_wf_distinct();
            lemma_map_of_entries(self.entries@);
        }
        &self.entries[i]
    }

    /// The first position whose key does not sort before `t`.
    fn lower_bound(&self, t: &str) -> (i: usize)
        requires
            self.wf(),
        ensures
            i <= self.key_seq().len(),
            forall|j: int| 0 <= j < i ==> seq_lt(self.key_seq()[j], t@),
            i < self.key_seq().len() ==> !seq_lt(self.key_seq()[i as int], t@),
    {
        let ghost ks = self.key_seq();
        proof {
            lemma_lower_bound(ks, t@);
        }
        let n = self.entries.len();
        let mut i: usize = 0;
        loop
            invariant
                i <= n,
                n == ks.len(),
                ks == self.key_seq(),
                self.wf(),
                forall|j: int| 0 <= j < i ==> seq_lt(ks[j], t@),
                i <= spec_lower_bound(ks, t@),
            decreases n - i,
        {
            proof {
                lemma_lower_bound(ks, t@);
            }
            if i == n {
                return i;
            }
            if !topic_lt(self.entries[i].0.as_str(), t) {
                proof {
                    if i < spec_lower_bound(ks, t@) {
                        assert(seq_lt(ks[i as int], t@));
                    }
                }
                return i;
            }
            proof {
                if i == spec_lower_bound(ks, t@) {
                    assert(!seq_lt(ks[i as int], t@));
                }
            }
            i = i + 1;
        }
    }

    /// The retained message for a topic, if one was published.
    pub fn get(&self, t: &str) -> (r: Option<&Publish>)
        requires
            self.wf(),
        ensures
            match r {
                Some(p) => self@.dom().contains(t@) && self@[t@] == p@,
                None => !self@.dom().contains(t@),
            },
    {
        proof {
            self.lemma_wf_distinct();
            lemma_map_of_entries(self.entries@);
        }
        let i = self.lower_bound(t);
        proof {
            lemma_lower_bound_contains(self.key_seq(), t@, i as int);
        }
        if i < self.entries.len() && topic_eq(self.entries[i].0.as_str(), t) {
            proof {
                assert(self.entries@[i as int].0@ == t@);
            }
            Some(&self.entries[i].1)
        } else {
            proof {
                if self@.dom().contains(t@) {
                    assert(self.key_seq().contains(t@));
                }
            }
            None
        }
    }

    /// Record `msg` as the retained message of its topic, replacing any
    /// earlier one; no other topic is affected.
    pub fn upsert(&mut self, msg: Publish)
        requires
            old(self).wf(),
        ensures
            final(self).wf(),
            final(self)@ == old(self)@.insert(msg.topic@, msg@),
    {
        let ghost es = self.entries@;
        let ghost ks = self.key_seq();
        proof {
            self.lemma_wf_distinct();
            lemma_map_of_entries(es);
        }
        let i = self.lower_bound(msg.topic.as_str());
        proof {
            lemma_lower_bound_contains(ks, msg.topic@, i as int);
        }
        let found = i < self.entries.len() && topic_eq(
            self.entries[i].0.as_str(),
            msg.topic.as_str(),
        );
        let ghost key = msg.topic@;
        let ghost value = msg@;
        if found {
            let topic = msg.topic.clone();
            self.entries.set(i, (topic, msg));
            proof {
                assert(self.key_seq() =~= ks.update(i as int, key));
                assert(self.key_seq() =~= ks);
                self.lemma_wf_distinct();
                lemma_map_of_entries(self.entries@);
                assert forall|k: Seq<char>| #![all_triggers] true implies {
                    (self@.dom().contains(k) <==> old(self)@.insert(key, value).dom().contains(k))
                    && (self@.dom().contains(k) ==> self@[k] == old(self)@.insert(key, value)[k])
                } by {
                    if k == key {
                        assert(self.entries@[i as int].0@ == k);
                    } else {
                        if self@.dom().contains(k) {
                            let j = choose|j: int|
                                0 <= j < self.key_seq().len() && self.key_seq()[j] == k;
                            assert(es[j] == self.entries@[j]);
                        }
                        if old(self)@.dom().contains(k) {
                            let j = choose|j: int| 0 <= j < ks.len() && ks[j] == k;
                            assert(self.entries@[j] == es[j]);
                            assert(self.key_seq()[j] == k);
                        }
                    }
                }
                assert(self@ =~= old(self)@.insert(key, value));
            }
        } else {
            proof {
                assert(!ks.contains(key));
                assert(forall|j: int| 0 <= j < ks.len() ==> ks[j] != key);
            }
            let topic = msg.topic.clone();
            self.entries.insert(i, (topic, msg));
            proof {
                assert(self.key_seq() =~= ks.subrange(0, i as int) + seq![key] + ks.subrange(
                    i as int,
                    ks.len() as int,
                ));
                assert forall|p: int, q: int| 0 <= p < q < self.key_seq().len() implies seq_lt(
                    self.key_seq()[p],
                    self.key_seq()[q],
                ) by {
                    lemma_registry_insert_sorted(ks, key, i as int, p, q);
                }
                self.lemma_wf_distinct();
                lemma_map_of_entries(self.entries@);
                assert forall|k: Seq<char>| #![all_triggers] true implies {
                    (self@.dom().contains(k) <==> old(self)@.insert(key, value).dom().contains(k))
                    && (self@.dom().contains(k) ==> self@[k] == old(self)@.insert(key, value)[k])
                } by {
                    if k == key {
                        assert(self.entries@[i as int].0@ == k);
                    } else {
                        if self@.dom().contains(k) {
                            let j = choose|j: int|
                                0 <= j < self.key_seq().len() && self.key_seq()[j] == k;
                            let jj = if j < i as int { j } else { j - 1 };
                            assert(self.entries@[j] == es[jj]);
                            assert(ks[jj] == k);
                        }
                        if old(self)@.dom().contains(k) {
                            let j = choose|j: int| 0 <= j < ks.len() && ks[j] == k;
                            let jj = if j < i as int { j } else { j + 1 };
                            assert(self.entries@[jj] == es[j]);
                            assert(self.key_seq()[jj] == k);
                        }
                    }
                }
                assert(self@ =~= old(self)@.insert(key, value));
            }
        }
    }
}

} // verus!
