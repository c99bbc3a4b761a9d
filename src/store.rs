//! The topic store: the latest value of each topic and when it came.
use vstd::prelude::*;

verus! {

/// The latest value of one topic and the time, in milliseconds, it came in.
pub struct TopicEntry {
    pub topic: String,
    pub value: String,
    pub last_update: u64,
}

/// One entry per topic; an update overwrites the entry of its topic.
pub struct TopicStore {
    pub entries: Vec<TopicEntry>,
}

/// No two entries of `s` share a topic.
pub open spec fn topics_distinct(s: Seq<TopicEntry>) -> bool {
    forall|i: int, j: int|
        0 <= i < s.len() && 0 <= j < s.len() && i != j ==> #[trigger] s[i].topic@ != #[trigger] s[j].topic@
}

/// Some entry of `s` is for topic `t`.
pub open spec fn has_topic(s: Seq<TopicEntry>, t: Seq<char>) -> bool {
    exists|i: int| 0 <= i < s.len() && #[trigger] s[i].topic@ == t
}

/// The index of the entry of `s` for topic `t`.
pub open spec fn index_of(s: Seq<TopicEntry>, t: Seq<char>) -> int {
    choose|i: int| 0 <= i < s.len() && #[trigger] s[i].topic@ == t
}

/// Topic to latest value.
pub open spec fn values_of(s: Seq<TopicEntry>) -> Map<Seq<char>, Seq<char>> {
    Map::new(|t: Seq<char>| has_topic(s, t), |t: Seq<char>| s[index_of(s, t)].value@)
}

/// Topic to time of the latest value.
pub open spec fn stamps_of(s: Seq<TopicEntry>) -> Map<Seq<char>, u64> {
    Map::new(|t: Seq<char>| has_topic(s, t), |t: Seq<char>| s[index_of(s, t)].last_update)
}

/// With distinct topics, the entry for a topic is the one that holds it.
pub proof fn lemma_index_of(s: Seq<TopicEntry>, i: int)
    requires
        topics_distinct(s),
        0 <= i < s.len(),
    ensures
        has_topic(s, s[i].topic@),
        index_of(s, s[i].topic@) == i,
{
    assert(has_topic(s, s[i].topic@));
}

impl TopicStore {
    pub open spec fn wf(&self) -> bool {
        topics_distinct(self.entries@)
    }

    /// Topic to latest value.
    pub open spec fn values(&self) -> Map<Seq<char>, Seq<char>> {
        values_of(self.entries@)
    }

    /// Topic to time of the latest value.
    pub open spec fn stamps(&self) -> Map<Seq<char>, u64> {
        stamps_of(self.entries@)
    }

    /// An empty store.
    pub fn new() -> (r: TopicStore)
        ensures
            r.wf(),
            r.values() == Map::<Seq<char>, Seq<char>>::empty(),
            r.stamps() == Map::<Seq<char>, u64>::empty(),
    {
        let r = TopicStore { entries: Vec::new() };
        assert(r.values() =~= Map::<Seq<char>, Seq<char>>::empty());
        assert(r.stamps() =~= Map::<Seq<char>, u64>::empty());
        r
    }

    /// The number of topics held.
    pub fn len(&self) -> (r: usize)
        requires
            self.wf(),
        ensures
            r == self.values().len(),
    {
        proof {
            self.lemma_len();
        }
        self.entries.len()
    }

    proof fn lemma_len(&self)
        requires
            self.wf(),
        ensures
            self.values().len() == self.entries@.len(),
    {
        let s = self.entries@;
        let f = |i: int| s[i].topic@;
        let dom = Set::new(|i: int| 0 <= i < s.len());
        assert(dom =~= vstd::set_lib::set_int_range(0, s.len() as int));
        vstd::set_lib::lemma_int_range(0, s.len() as int);
        assert forall|a: int, b: int| dom.contains(a) && dom.contains(b) && #[trigger] f(a) == #[trigger] f(b) implies a == b by {}
        vstd::set_lib::lemma_map_size(dom, dom.map(f), f);
        assert(self.values().dom() =~= dom.map(f)) by {
            assert forall|t: Seq<char>| self.values().dom().contains(t) implies dom.map(f).contains(t) by {
                let i = index_of(s, t);
                assert(dom.contains(i) && f(i) == t);
            }
        }
    }

    /// Records `value` as the latest value of `topic`, received at `now`.
    pub fn upsert(&mut self, topic: String, value: String, now: u64)
        requires
            old(self).wf(),
        ensures
            final(self).wf(),
            final(self).values() == old(self).values().insert(topic@, value@),
            final(self).stamps() == old(self).stamps().insert(topic@, now),
    {
        let ghost t = topic@;
        let ghost v = value@;
        let n = self.entries.len();
        let mut i: usize = 0;
        while i < n
            invariant
                n == self.entries.len(),
                self.entries == old(self).entries,
                topic@ == t,
                value@ == v,
                self.wf(),
                i <= n,
                forall|j: int| 0 <= j < i ==> #[trigger] self.entries@[j].topic@ != t,
            decreases n - i,
        {
            let cur = &self.entries[i];
            let same = cur.topic.eq(&topic);
            if same {
                let ghost s0 = self.entries@;
                let e = TopicEntry { topic, value, last_update: now };
                self.entries.set(i, e);
                proof {
                    let s1 = self.entries@;
                    assert forall|a: int, b: int|
                        0 <= a < s1.len() && 0 <= b < s1.len() && a != b
                        implies #[trigger] s1[a].topic@ != #[trigger] s1[b].topic@ by {
                        assert(s0[a].topic@ != s0[b].topic@);
                    }
                    assert forall|u: Seq<char>| has_topic(s1, u) == has_topic(s0, u) by {
                        if has_topic(s0, u) {
                            let j = index_of(s0, u);
                            assert(s1[j].topic@ == u);
                        }
                        if has_topic(s1, u) {
                            let j = index_of(s1, u);
                            assert(s0[j].topic@ == u);
                        }
                    }
                    assert forall|u: Seq<char>| #[trigger] has_topic(s1, u) implies index_of(s1, u) == index_of(s0, u) by {
                        let j = index_of(s1, u);
                        lemma_index_of(s1, j);
                        lemma_index_of(s0, j);
                    }
                    lemma_index_of(s1, i as int);
                    assert(values_of(s1) =~= values_of(s0).insert(t, v));
                    assert(stamps_of(s1) =~= stamps_of(s0).insert(t, now));
                }
                return;
            }
            assert(self.entries@[i as int].topic@ != t);
            i = i + 1;
        }
        let ghost s0 = self.entries@;
        self.entries.push(TopicEntry { topic, value, last_update: now });
        proof {
            let s1 = self.entries@;
            assert(s1[n as int].topic@ == t);
            assert forall|a: int, b: int|
                0 <= a < s1.len() && 0 <= b < s1.len() && a != b
                implies #[trigger] s1[a].topic@ != #[trigger] s1[b].topic@ by {
                if a < n && b < n {
                    assert(s0[a].topic@ != s0[b].topic@);
                }
            }
            assert forall|u: Seq<char>| #[trigger] has_topic(s1, u) == (has_topic(s0, u) || u == t) by {
                if has_topic(s0, u) {
                    let j = index_of(s0, u);
                    assert(s1[j].topic@ == u);
                }
                if has_topic(s1, u) && u != t {
                    let j = index_of(s1, u);
                    assert(s0[j].topic@ == u);
                }
            }
            assert forall|u: Seq<char>| #[trigger] has_topic(s0, u) implies index_of(s1, u) == index_of(s0, u) by {
                let j = index_of(s0, u);
                lemma_index_of(s0, j);
                lemma_index_of(s1, j);
            }
            lemma_index_of(s1, n as int);
            assert(values_of(s1) =~= values_of(s0).insert(t, v));
            assert(stamps_of(s1) =~= stamps_of(s0).insert(t, now));
        }
    }
}

} // verus!
