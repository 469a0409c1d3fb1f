//! What holds of the registry across whole sequences of operations.

use vstd::prelude::*;

use crate::poller::{reconciled, stamp_all};
use crate::registry::{
    has_name, lemma_filter_keeps_unique, lemma_upserted, names_unique, upsert_each, upserted,
    without_stale,
};
use crate::topic::{RecordModel, TopicModel};

verus! {

/// An operation that changes the registry.
pub enum RegistryOp {
    /// One topic observed.
    Upsert(TopicModel),
    /// Eviction of the topics stale at the given time, with the given grace
    /// period.
    EvictStale(u64, u64),
    /// A successful discovery: the live records, the time, the grace period.
    Discover(Seq<RecordModel>, u64, u64),
}

/// The registry `s` after the operation `op`.
pub open spec fn apply_op(s: Seq<TopicModel>, op: RegistryOp) -> Seq<TopicModel> {
    match op {
        RegistryOp::Upsert(t) => upserted(s, t),
        RegistryOp::EvictStale(now, grace_period) => without_stale(s, now, grace_period),
        RegistryOp::Discover(live, now, grace_period) => reconciled(s, live, now, grace_period),
    }
}

/// The registry `s` after each of `ops` in turn.
pub open spec fn apply_ops(s: Seq<TopicModel>, ops: Seq<RegistryOp>) -> Seq<TopicModel>
    decreases ops.len(),
{
    if ops.len() == 0 {
        s
    } else {
        apply_op(apply_ops(s, ops.drop_last()), ops.last())
    }
}

/// Some record of `live` carries the name `n`.
pub open spec fn reports_name(live: Seq<RecordModel>, n: Seq<char>) -> bool {
    exists|i: int| 0 <= i < live.len() && (#[trigger] live[i]).name == n
}

/// The operation observes a topic named `n`.
pub open spec fn observes(op: RegistryOp, n: Seq<char>) -> bool {
    match op {
        RegistryOp::Upsert(t) => t.name == n,
        RegistryOp::EvictStale(_, _) => false,
        RegistryOp::Discover(live, _, _) => reports_name(live, n),
    }
}

/// Observing each of `ts` in turn keeps names unique, and the names known
/// afterwards are those known before and those of `ts`.
pub proof fn lemma_upsert_each(s: Seq<TopicModel>, ts: Seq<TopicModel>)
    requires
        names_unique(s),
    ensures
        names_unique(upsert_each(s, ts)),
        forall|n: Seq<char>|
            has_name(upsert_each(s, ts), n) <==> (has_name(s, n) || has_name(ts, n)),
    decreases ts.len(),
{
    if ts.len() > 0 {
        let prev = ts.drop_last();
        lemma_upsert_each(s, prev);
        lemma_upserted(upsert_each(s, prev), ts.last());
        assert forall|n: Seq<char>|
            has_name(ts, n) <==> (has_name(prev, n) || n == ts.last().name) by {
            if has_name(prev, n) {
                let k = choose|k: int| 0 <= k < prev.len() && (#[trigger] prev[k]).name == n;
                assert(ts[k].name == n);
            }
            if n == ts.last().name {
                assert(ts[ts.len() - 1].name == n);
            }
            if has_name(ts, n) {
                let k = choose|k: int| 0 <= k < ts.len() && (#[trigger] ts[k]).name == n;
                if k < ts.len() - 1 {
                    assert(prev[k].name == n);
                }
            }
        }
    }
}

/// Evicting keeps names unique and brings in no name.
pub proof fn lemma_evict_names(s: Seq<TopicModel>, now: u64, grace_period: u64)
    requires
        names_unique(s),
    ensures
        names_unique(without_stale(s, now, grace_period)),
        forall|n: Seq<char>| has_name(without_stale(s, now, grace_period), n) ==> has_name(s, n),
{
    let r = without_stale(s, now, grace_period);
    lemma_filter_keeps_unique(s, crate::registry::fresh_at(now, grace_period));
    assert forall|n: Seq<char>| has_name(r, n) implies has_name(s, n) by {
        let k = choose|k: int| 0 <= k < r.len() && (#[trigger] r[k]).name == n;
        assert(r.contains(r[k]));
        s.lemma_filter_contains_rev(crate::registry::fresh_at(now, grace_period), r[k]);
        let j = choose|j: int| 0 <= j < s.len() && s[j] == r[k];
        assert(s[j].name == n);
    }
}

/// A discovery keeps names unique, and the names known afterwards are among
/// those known before and those it reported.
pub proof fn lemma_discover_names(
    s: Seq<TopicModel>,
    live: Seq<RecordModel>,
    now: u64,
    grace_period: u64,
)
    requires
        names_unique(s),
    ensures
        names_unique(reconciled(s, live, now, grace_period)),
        forall|n: Seq<char>|
            has_name(reconciled(s, live, now, grace_period), n)
                ==> (has_name(s, n) || reports_name(live, n)),
{
    let ts = stamp_all(live, now);
    lemma_upsert_each(s, ts);
    lemma_evict_names(upsert_each(s, ts), now, grace_period);
    assert forall|n: Seq<char>| has_name(ts, n) implies reports_name(live, n) by {
        let k = choose|k: int| 0 <= k < ts.len() && (#[trigger] ts[k]).name == n;
        assert(live[k].name == n);
    }
}

/// Any sequence of operations keeps names unique.
pub proof fn lemma_ops_keep_unique(s: Seq<TopicModel>, ops: Seq<RegistryOp>)
    requires
        names_unique(s),
    ensures
        names_unique(apply_ops(s, ops)),
    decreases ops.len(),
{
    if ops.len() > 0 {
        let prev = apply_ops(s, ops.drop_last());
        lemma_ops_keep_unique(s, ops.drop_last());
        match ops.last() {
            RegistryOp::Upsert(t) => lemma_upserted(prev, t),
            RegistryOp::EvictStale(now, g) => lemma_evict_names(prev, now, g),
            RegistryOp::Discover(live, now, g) => lemma_discover_names(prev, live, now, g),
        }
    }
}

/// Once a name is absent from the registry, as after its eviction, it stays
/// absent through any sequence of upserts, evictions and discoveries none of
/// which observes it.
pub proof fn lemma_absent_stays_absent(s: Seq<TopicModel>, ops: Seq<RegistryOp>, n: Seq<char>)
    requires
        names_unique(s),
        !has_name(s, n),
        forall|k: int| 0 <= k < ops.len() ==> !observes(#[trigger] ops[k], n),
    ensures
        !has_name(apply_ops(s, ops), n),
    decreases ops.len(),
{
    if ops.len() > 0 {
        let rest = ops.drop_last();
        assert forall|k: int| 0 <= k < rest.len() implies !observes(#[trigger] rest[k], n) by {
            assert(rest[k] == ops[k]);
        }
        lemma_absent_stays_absent(s, rest, n);
        lemma_ops_keep_unique(s, rest);
        let prev = apply_ops(s, rest);
        assert(!observes(ops[ops.len() - 1], n));
        match ops.last() {
            RegistryOp::Upsert(t) => lemma_upserted(prev, t),
            RegistryOp::EvictStale(now, g) => lemma_evict_names(prev, now, g),
            RegistryOp::Discover(live, now, g) => lemma_discover_names(prev, live, now, g),
        }
    }
}

/// After any sequence of upserts into an empty registry, it holds exactly one
/// entry for each distinct name upserted, and that entry is the most recent
/// upsert of its name: its type and timestamp come from it.
pub proof fn lemma_upserts_keep_latest(ups: Seq<TopicModel>)
    ensures
        names_unique(upsert_each(Seq::empty(), ups)),
        forall|n: Seq<char>| has_name(upsert_each(Seq::empty(), ups), n) <==> has_name(ups, n),
        forall|i: int|
            0 <= i < upsert_each(Seq::empty(), ups).len() ==> exists|j: int|
                0 <= j < ups.len() && #[trigger] upsert_each(Seq::empty(), ups)[i] == ups[j]
                    && forall|k: int| j < k < ups.len() ==> (#[trigger] ups[k]).name != ups[j].name,
    decreases ups.len(),
{
    let e = Seq::<TopicModel>::empty();
    lemma_upsert_each(e, ups);
    if ups.len() > 0 {
        let prev = ups.drop_last();
        let t = ups.last();
        let r0 = upsert_each(e, prev);
        let r = upsert_each(e, ups);
        lemma_upserts_keep_latest(prev);
        lemma_upserted(r0, t);
        assert forall|i: int| 0 <= i < r.len() implies exists|j: int|
            0 <= j < ups.len() && #[trigger] r[i] == ups[j]
                && forall|k: int| j < k < ups.len() ==> (#[trigger] ups[k]).name != ups[j].name by {
            if r[i].name == t.name {
                assert(r[i] == ups[ups.len() - 1]);
            } else {
                assert(r[i] == r0[i]);
                let j = choose|j: int|
                    0 <= j < prev.len() && #[trigger] r0[i] == prev[j]
                        && forall|k: int|
                            j < k < prev.len() ==> (#[trigger] prev[k]).name != prev[j].name;
                assert(r[i] == ups[j]);
                assert forall|k: int|
                    j < k < ups.len() implies (#[trigger] ups[k]).name != ups[j].name by {
                    if k < prev.len() {
                        assert(ups[k] == prev[k]);
                    }
                }
            }
        }
    }
}

} // verus!
