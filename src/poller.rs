//! Discovery: reconciling what the middleware reports into the registry, and
//! the poller's decisions between polls. Running the polls, waiting and
//! talking to the middleware are left to the caller, which hands each outcome
//! to [`Poller::step`] and performs the action that comes back.

use vstd::prelude::*;

use crate::registry::{records_in, upsert_each, without_stale, Registry};
use crate::topic::{stamped, RecordModel, TopicInfo, TopicModel};

verus! {

/// The stored topics for records observed at time `now`, in the same order.
pub open spec fn stamp_all(live: Seq<RecordModel>, now: u64) -> Seq<TopicModel> {
    live.map_values(|r: RecordModel| stamped(r, now))
}

/// `s` after a successful discovery at `now` that reported `live`: every live
/// topic is observed in the order reported, then stale topics are evicted.
pub open spec fn reconciled(
    s: Seq<TopicModel>,
    live: Seq<RecordModel>,
    now: u64,
    grace_period: u64,
) -> Seq<TopicModel> {
    without_stale(upsert_each(s, stamp_all(live, now)), now, grace_period)
}

/// Reconciles the outcome of a successful discovery at `now` into `registry`.
pub fn reconcile(registry: &mut Registry, live: &Vec<TopicInfo>, now: u64, grace_period: u64)
    requires
        old(registry).wf(),
    ensures
        final(registry).wf(),
        final(registry)@ == reconciled(old(registry)@, records_in(live@), now, grace_period),
{
    let ghost s = registry@;
    let ghost stamped_all = stamp_all(records_in(live@), now);
    let mut i: usize = 0;
    while i < live.len()
        invariant
            i <= live@.len(),
            stamped_all == stamp_all(records_in(live@), now),
            registry.wf(),
            registry@ == upsert_each(s, stamped_all.take(i as int)),
        decreases live@.len() - i,
    {
        let t = live[i].stamp(now);
        proof {
            assert(stamped_all.take(i + 1).drop_last() =~= stamped_all.take(i as int));
            assert(stamped_all.take(i + 1).last() == t@);
        }
        registry.upsert(t);
        i = i + 1;
    }
    assert(stamped_all.take(i as int) =~= stamped_all);
    registry.evict_stale(now, grace_period);
}

/// What the middleware's discovery query came back with.
pub enum PollEvent {
    /// The live topics, as reported.
    Discovered(Vec<TopicInfo>),
    /// The middleware could not be reached.
    Unavailable,
    /// Teardown was requested.
    Shutdown,
}

/// What the caller does next.
#[derive(Clone, Copy, Debug, PartialEq, Eq, Structural)]
pub enum PollAction {
    /// Wait this long, then query the middleware again.
    PollAfter(u64),
    /// Poll no more.
    Stop,
}

/// The poller's settings and whether it has been torn down.
pub struct Poller {
    pub interval: u64,
    pub grace_period: u64,
    pub stopped: bool,
}

impl Poller {
    /// A running poller that polls every `interval` and evicts topics unseen
    /// for longer than `grace_period`.
    pub fn new(interval: u64, grace_period: u64) -> (r: Poller)
        ensures
            r.interval == interval,
            r.grace_period == grace_period,
            !r.stopped,
    {
        Poller { interval, grace_period, stopped: false }
    }

    /// Handles the outcome of one poll made at `now`. A successful one is
    /// reconciled into `registry`; a failed one changes nothing and is retried
    /// after the usual interval; teardown stops all further polls.
    pub fn step(&mut self, registry: &mut Registry, event: PollEvent, now: u64) -> (action:
        PollAction)
        requires
            old(registry).wf(),
        ensures
            final(registry).wf(),
            final(self).interval == old(self).interval,
            final(self).grace_period == old(self).grace_period,
            old(self).stopped ==> {
                &&& final(registry)@ == old(registry)@
                &&& final(self).stopped
                &&& action == PollAction::Stop
            },
            !old(self).stopped ==> match event {
                PollEvent::Discovered(live) => {
                    &&& final(registry)@ == reconciled(
                        old(registry)@,
                        records_in(live@),
                        now,
                        old(self).grace_period,
                    )
                    &&& !final(self).stopped
                    &&& action == PollAction::PollAfter(old(self).interval)
                },
                PollEvent::Unavailable => {
                    &&& final(registry)@ == old(registry)@
                    &&& !final(self).stopped
                    &&& action == PollAction::PollAfter(old(self).interval)
                },
                PollEvent::Shutdown => {
                    &&& final(registry)@ == old(registry)@
                    &&& final(self).stopped
                    &&& action == PollAction::Stop
                },
            },
    {
        if self.stopped {
            return PollAction::Stop;
        }
        match event {
            PollEvent::Discovered(live) => {
                reconcile(registry, &live, now, self.grace_period);
                PollAction::PollAfter(self.interval)
            },
            PollEvent::Unavailable => PollAction::PollAfter(self.interval),
            PollEvent::Shutdown => {
                self.stopped = true;
                PollAction::Stop
            },
        }
    }
}

} // verus!
