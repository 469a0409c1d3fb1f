//! The topic registry: the set of currently known topics, one per name, in
//! the order in which they were first observed.

use vstd::prelude::*;

use crate::topic::{record_of, RecordModel, Topic, TopicInfo, TopicModel};

verus! {

/// Some entry of `s` carries the name `n`.
pub open spec fn has_name(s: Seq<TopicModel>, n: Seq<char>) -> bool {
    exists|i: int| 0 <= i < s.len() && (#[trigger] s[i]).name == n
}

/// No two entries of `s` carry the same name.
pub open spec fn names_unique(s: Seq<TopicModel>) -> bool {
    forall|i: int, j: int|
        0 <= i < s.len() && 0 <= j < s.len() && i != j
            ==> (#[trigger] s[i]).name != (#[trigger] s[j]).name
}

/// `s` after observing `t`: the entry of the same name is replaced in place,
/// or `t` is appended when its name is new.
pub open spec fn upserted(s: Seq<TopicModel>, t: TopicModel) -> Seq<TopicModel> {
    if has_name(s, t.name) {
        let i = choose|i: int| 0 <= i < s.len() && (#[trigger] s[i]).name == t.name;
        s.update(i, t)
    } else {
        s.push(t)
    }
}

/// `s` after observing each of `ts` in turn.
pub open spec fn upsert_each(s: Seq<TopicModel>, ts: Seq<TopicModel>) -> Seq<TopicModel>
    decreases ts.len(),
{
    if ts.len() == 0 {
        s
    } else {
        upserted(upsert_each(s, ts.drop_last()), ts.last())
    }
}

/// A topic is fresh at `now` unless it was last seen more than `grace_period`
/// before `now`.
pub open spec fn is_fresh(t: TopicModel, now: u64, grace_period: u64) -> bool {
    now <= t.last_seen + grace_period
}

/// `s` with its stale entries removed, the others kept in order.
pub open spec fn without_stale(s: Seq<TopicModel>, now: u64, grace_period: u64) -> Seq<TopicModel> {
    s.filter(fresh_at(now, grace_period))
}

/// The test of freshness at `now`, as a predicate.
pub open spec fn fresh_at(now: u64, grace_period: u64) -> spec_fn(TopicModel) -> bool {
    |t: TopicModel| is_fresh(t, now, grace_period)
}

/// The records that clients see of `s`, in the same order.
pub open spec fn records_of(s: Seq<TopicModel>) -> Seq<RecordModel> {
    s.map_values(|t: TopicModel| record_of(t))
}

/// The values of a sequence of stored topics.
pub open spec fn models_of(v: Seq<Topic>) -> Seq<TopicModel> {
    v.map_values(|t: Topic| t@)
}

/// The values of a sequence of client records.
pub open spec fn records_in(v: Seq<TopicInfo>) -> Seq<RecordModel> {
    v.map_values(|t: TopicInfo| t@)
}

/// The store of known topics.
pub struct Registry {
    topics: Vec<Topic>,
}

impl View for Registry {
    type V = Seq<TopicModel>;

    closed spec fn view(&self) -> Seq<TopicModel> {
        models_of(self.topics@)
    }
}

impl Registry {
    /// Names are unique within the registry.
    pub open spec fn wf(&self) -> bool {
        names_unique(self@)
    }

    /// An empty registry.
    pub fn new() -> (r: Registry)
        ensures
            r.wf(),
            r@ == Seq::<TopicModel>::empty(),
    {
        let r = Registry { topics: Vec::new() };
        assert(r@ =~= Seq::<TopicModel>::empty());
        r
    }

    /// The number of known topics.
    pub fn len(&self) -> (r: usize)
        ensures
            r == self@.len(),
    {
        self.topics.len()
    }

    /// Where `name` stands in the registry, if it is known.
    pub fn position(&self, name: &String) -> (r: Option<usize>)
        requires
            self.wf(),
        ensures
            r is None <==> !has_name(self@, name@),
            r matches Some(i) ==> i < self@.len() && self@[i as int].name == name@,
    {
        let mut i: usize = 0;
        while i < self.topics.len()
            invariant
                i <= self.topics@.len(),
                self@.len() == self.topics@.len(),
                forall|k: int| 0 <= k < i ==> (#[trigger] self@[k]).name != name@,
            decreases self.topics@.len() - i,
        {
            assert(self@[i as int] == self.topics@[i as int]@);
            if self.topics[i].name == *name {
                return Some(i);
            }
            i = i + 1;
        }
        None
    }

    /// Inserts `topic`, or refreshes the entry of the same name with its type
    /// and timestamp, keeping that entry's place.
    pub fn upsert(&mut self, topic: Topic)
        requires
            old(self).wf(),
        ensures
            final(self).wf(),
            final(self)@ == upserted(old(self)@, topic@),
    {
        let ghost t = topic@;
        let ghost s = self@;
        proof {
            lemma_upserted(s, t);
        }
        match self.position(&topic.name) {
            Some(i) => {
                proof {
                    let j = choose|j: int| 0 <= j < s.len() && (#[trigger] s[j]).name == t.name;
                    assert(s[i as int].name == t.name);
                    assert(j == i);
                }
                self.topics[i] = topic;
                assert(self@ =~= s.update(i as int, t));
            },
            None => {
                self.topics.push(topic);
                assert(self@ =~= s.push(t));
            },
        }
    }

    /// Removes every topic last seen more than `grace_period` before `now`,
    /// keeping the order of the others.
    pub fn evict_stale(&mut self, now: u64, grace_period: u64)
        requires
            old(self).wf(),
        ensures
            final(self).wf(),
            final(self)@ == without_stale(old(self)@, now, grace_period),
    {
        let ghost s = self@;
        let mut kept: Vec<Topic> = Vec::new();
        let mut i: usize = 0;
        while i < self.topics.len()
            invariant
                i <= self.topics@.len(),
                self@ == s,
                models_of(kept@) == s.take(i as int).filter(fresh_at(now, grace_period)),
            decreases self.topics@.len() - i,
        {
            proof {
                reveal(Seq::filter);
                assert(s.take(i + 1).drop_last() =~= s.take(i as int));
                assert(s[i as int] == self.topics@[i as int]@);
            }
            let seen = self.topics[i].last_seen;
            let keep = now <= seen || now - seen <= grace_period;
            assert(keep == is_fresh(s[i as int], now, grace_period));
            if keep {
                let t = self.topics[i].duplicate();
                kept.push(t);
                assert(models_of(kept@) =~= s.take(i + 1).filter(fresh_at(now, grace_period)));
            } else {
                assert(models_of(kept@) =~= s.take(i + 1).filter(fresh_at(now, grace_period)));
            }
            i = i + 1;
        }
        assert(s.take(i as int) =~= s);
        self.topics = kept;
        proof {
            lemma_filter_keeps_unique(s, fresh_at(now, grace_period));
        }
    }

    /// A point-in-time copy of every topic, in registry order.
    pub fn snapshot(&self) -> (r: Vec<Topic>)
        ensures
            models_of(r@) == self@,
    {
        let mut out: Vec<Topic> = Vec::new();
        let mut i: usize = 0;
        while i < self.topics.len()
            invariant
                i <= self.topics@.len(),
                models_of(out@) == self@.take(i as int),
            decreases self.topics@.len() - i,
        {
            assert(self@[i as int] == self.topics@[i as int]@);
            let ghost prev = out@;
            let t = self.topics[i].duplicate();
            out.push(t);
            assert(models_of(prev).len() == i);
            assert forall|k: int| 0 <= k < i implies models_of(out@)[k] == models_of(prev)[k] by {
                assert(out@[k] == prev[k]);
            }
            assert(models_of(out@) =~= self@.take(i + 1));
            i = i + 1;
        }
        assert(self@.take(i as int) =~= self@);
        out
    }

    /// The `{name, type}` record of every topic, in registry order.
    pub fn list_topics(&self) -> (r: Vec<TopicInfo>)
        ensures
            records_in(r@) == records_of(self@),
    {
        let mut out: Vec<TopicInfo> = Vec::new();
        let mut i: usize = 0;
        while i < self.topics.len()
            invariant
                i <= self.topics@.len(),
                records_in(out@) == records_of(self@.take(i as int)),
            decreases self.topics@.len() - i,
        {
            assert(self@[i as int] == self.topics@[i as int]@);
            let ghost prev = out@;
            let r = self.topics[i].info();
            out.push(r);
            assert(records_in(prev).len() == i);
            assert forall|k: int|
                0 <= k < i + 1 implies records_in(out@)[k] == records_of(self@.take(i + 1))[k] by {
                if k < i {
                    assert(out@[k] == prev[k]);
                    assert(records_in(prev)[k] == records_of(self@.take(i as int))[k]);
                }
            }
            assert(records_in(out@) =~= records_of(self@.take(i + 1)));
            i = i + 1;
        }
        assert(self@.take(i as int) =~= self@);
        out
    }
}

/// Observing `t` keeps names unique; afterwards the entry named like `t` is
/// `t`, and every other entry stands where it stood before.
pub proof fn lemma_upserted(s: Seq<TopicModel>, t: TopicModel)
    requires
        names_unique(s),
    ensures
        names_unique(upserted(s, t)),
        forall|n: Seq<char>| has_name(upserted(s, t), n) <==> (has_name(s, n) || n == t.name),
        forall|i: int|
            0 <= i < upserted(s, t).len() ==> if (#[trigger] upserted(s, t)[i]).name == t.name {
                upserted(s, t)[i] == t
            } else {
                i < s.len() && upserted(s, t)[i] == s[i]
            },
{
    let r = upserted(s, t);
    if has_name(s, t.name) {
        let p = choose|i: int| 0 <= i < s.len() && (#[trigger] s[i]).name == t.name;
        assert forall|n: Seq<char>| has_name(r, n) <==> (has_name(s, n) || n == t.name) by {
            if has_name(s, n) {
                let k = choose|k: int| 0 <= k < s.len() && (#[trigger] s[k]).name == n;
                if k == p {
                    assert(r[p].name == n);
                } else {
                    assert(r[k].name == n);
                }
            }
            if n == t.name {
                assert(r[p].name == n);
            }
            if has_name(r, n) {
                let k = choose|k: int| 0 <= k < r.len() && (#[trigger] r[k]).name == n;
                if k != p {
                    assert(s[k].name == n);
                }
            }
        }
    } else {
        assert forall|n: Seq<char>| has_name(r, n) <==> (has_name(s, n) || n == t.name) by {
            if has_name(s, n) {
                let k = choose|k: int| 0 <= k < s.len() && (#[trigger] s[k]).name == n;
                assert(r[k].name == n);
            }
            if n == t.name {
                assert(r[s.len() as int].name == n);
            }
            if has_name(r, n) {
                let k = choose|k: int| 0 <= k < r.len() && (#[trigger] r[k]).name == n;
                if k < s.len() {
                    assert(s[k].name == n);
                }
            }
        }
        assert forall|i: int| 0 <= i < s.len() implies (#[trigger] s[i]).name != t.name by {
            if s[i].name == t.name {
                assert(has_name(s, t.name));
            }
        }
    }
}

/// Filtering keeps names unique.
pub proof fn lemma_filter_keeps_unique(s: Seq<TopicModel>, keep: spec_fn(TopicModel) -> bool)
    requires
        names_unique(s),
    ensures
        names_unique(s.filter(keep)),
    decreases s.len(),
{
    reveal(Seq::filter);
    if s.len() > 0 {
        let rest = s.drop_last();
        assert(names_unique(rest));
        lemma_filter_keeps_unique(rest, keep);
        let f = rest.filter(keep);
        if keep(s.last()) {
            assert forall|i: int|
                0 <= i < f.len() implies (#[trigger] f[i]).name != s.last().name by {
                assert(f.contains(f[i]));
                rest.lemma_filter_contains_rev(keep, f[i]);
                let k = choose|k: int| 0 <= k < rest.len() && rest[k] == f[i];
                assert(s[k] == rest[k]);
            }
            assert(names_unique(f.push(s.last())));
        }
    }
}

} // verus!
