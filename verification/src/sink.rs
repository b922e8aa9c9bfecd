//! The sink: the one funnel that every accepted record passes through. It
//! counts the record, has it stored, keeps the store within its ceiling, and
//! publishes the record.
//!
//! The store may live elsewhere, behind operations that take time and can
//! fail. The sink therefore comes in two forms: as steps, each naming the
//! store operation to perform next, and as one call on a store held in memory.

use vstd::prelude::*;
use crate::broadcast::{rounds_up, Broadcaster};
use crate::message::SyslogMessage;
use crate::stats::{counted, Stats, no_stats};
use crate::store::{inserted, BoundedStore};

verus! {

/// How many of its oldest records a store that holds `count` must give up to
/// respect the ceiling `max_logs`: none while it is within the ceiling;
/// otherwise all but `max_logs / 2`.
pub open spec fn eviction_size(count: u64, max_logs: u64) -> u64 {
    if count > max_logs {
        (count - max_logs / 2) as u64
    } else {
        0
    }
}

/// How many records are left once a store that holds `count` has settled.
pub open spec fn settled(count: u64, max_logs: u64) -> int {
    count - eviction_size(count, max_logs)
}

/// How many of its oldest records a store that holds `count` must give up.
pub fn eviction_count(count: u64, max_logs: u64) -> (n: u64)
    ensures
        n == eviction_size(count, max_logs),
{
    if count > max_logs {
        count - max_logs / 2
    } else {
        0
    }
}

/// A store over its ceiling settles at half the ceiling, rounded down, which is
/// within the ceiling and no more than the ceiling less its half; a store
/// within its ceiling is left alone. Either way it ends within the ceiling.
pub proof fn lemma_settled(count: u64, max_logs: u64)
    ensures
        count > max_logs ==> settled(count, max_logs) == max_logs / 2,
        count <= max_logs ==> settled(count, max_logs) == count,
        settled(count, max_logs) <= max_logs,
        count > max_logs ==> settled(count, max_logs) <= max_logs - max_logs / 2,
        count > max_logs && max_logs % 2 == 0 ==> settled(count, max_logs) == max_logs - max_logs
            / 2,
{
}

/// What the sink does next for a record.
#[derive(Clone, Copy, Debug, PartialEq, Eq, Structural)]
pub enum SinkStep {
    /// Insert the record into the store.
    Insert,
    /// Ask the store how many records it holds.
    Count,
    /// Delete so many of the store's oldest records.
    Evict(u64),
    /// Publish the record; the store is done with.
    Publish,
}

/// How the store answered.
#[derive(Clone, Copy, Debug, PartialEq, Eq, Structural)]
pub enum StoreReply {
    /// The operation was carried out.
    Done,
    /// The store holds so many records.
    Holds(u64),
    /// The operation failed.
    Failed,
}

/// The step that follows `step` once the store has answered. A failure never
/// stops the record: it is published whether or not it was stored.
pub open spec fn step_after(step: SinkStep, reply: StoreReply, max_logs: u64) -> SinkStep {
    match step {
        SinkStep::Insert => SinkStep::Count,
        SinkStep::Count => match reply {
            StoreReply::Holds(count) => if count > max_logs {
                SinkStep::Evict(eviction_size(count, max_logs))
            } else {
                SinkStep::Publish
            },
            _ => SinkStep::Publish,
        },
        SinkStep::Evict(_) => SinkStep::Publish,
        SinkStep::Publish => SinkStep::Publish,
    }
}

/// The step that follows `step` once the store has answered.
pub fn next_step(step: SinkStep, reply: StoreReply, max_logs: u64) -> (next: SinkStep)
    ensures
        next == step_after(step, reply, max_logs),
{
    match step {
        SinkStep::Insert => SinkStep::Count,
        SinkStep::Count => match reply {
            StoreReply::Holds(count) => {
                if count > max_logs {
                    SinkStep::Evict(eviction_count(count, max_logs))
                } else {
                    SinkStep::Publish
                }
            },
            _ => SinkStep::Publish,
        },
        SinkStep::Evict(_) => SinkStep::Publish,
        SinkStep::Publish => SinkStep::Publish,
    }
}

/// Whatever the store answers, the record is published after three answers at
/// the latest, and records are only ever deleted after the store was found
/// over its ceiling, down to half of it.
pub proof fn lemma_steps(first: StoreReply, second: StoreReply, third: StoreReply, max_logs: u64)
    ensures
        step_after(
            step_after(step_after(SinkStep::Insert, first, max_logs), second, max_logs),
            third,
            max_logs,
        ) == SinkStep::Publish,
        ({
            let after_two = step_after(
                step_after(SinkStep::Insert, first, max_logs),
                second,
                max_logs,
            );
            after_two matches SinkStep::Evict(n) ==> second matches StoreReply::Holds(count)
                && count > max_logs && count - n == max_logs / 2
        }),
{
}

/// The state that all sources share: the statistics, the broadcaster, and the
/// store's ceiling.
pub struct Pipeline {
    pub stats: Stats,
    pub broadcaster: Broadcaster,
    pub max_logs: u64,
}

impl Pipeline {
    /// Whether the pipeline is in order. It is when it is made, and every
    /// operation keeps it so.
    pub open spec fn wf(&self) -> bool {
        self.broadcaster.wf()
    }

    /// A pipeline with empty statistics and no subscriber, for a store of at
    /// most `max_logs` records and subscribers that may fall `capacity`
    /// records behind, or the next power of two.
    pub fn new(max_logs: u64, capacity: usize) -> (p: Self)
        requires
            0 < capacity <= usize::MAX / 2,
        ensures
            p.wf(),
            p.max_logs == max_logs,
            p.stats@ == no_stats(),
            rounds_up(p.broadcaster@.capacity, capacity as nat),
            p.broadcaster@.sent == 0,
            p.broadcaster@.subscribers.dom() == Set::<usize>::empty(),
    {
        Pipeline { stats: Stats::new(), broadcaster: Broadcaster::new(capacity), max_logs }
    }

    /// Takes a record in: counts it, and names the first store operation.
    pub fn begin(&mut self, msg: &SyslogMessage) -> (step: SinkStep)
        ensures
            step == SinkStep::Insert,
            final(self).stats@ == counted(
                old(self).stats@,
                msg.facility,
                msg.severity,
                msg.source_ip@,
            ),
            final(self).broadcaster == old(self).broadcaster,
            final(self).max_logs == old(self).max_logs,
    {
        self.stats.record(msg.facility, msg.severity, msg.source_ip.as_str());
        SinkStep::Insert
    }

    /// The step that follows `step` once the store has answered.
    pub fn advance(&self, step: SinkStep, reply: StoreReply) -> (next: SinkStep)
        ensures
            next == step_after(step, reply, self.max_logs),
    {
        next_step(step, reply, self.max_logs)
    }

    /// Publishes a record to the subscribers: the last step.
    pub fn finish(&mut self, msg: SyslogMessage)
        requires
            old(self).wf(),
        ensures
            final(self).wf(),
            final(self).broadcaster@ == old(self).broadcaster@.published(msg@),
            final(self).stats == old(self).stats,
            final(self).max_logs == old(self).max_logs,
    {
        self.broadcaster.publish(msg);
    }

    /// Sinks a record into a store held in memory: counts it, inserts it,
    /// makes the store give up its oldest records where it is over its
    /// ceiling, and publishes the record. Afterwards the store is within its
    /// ceiling.
    #[verifier::rlimit(40)]
    pub fn sink(&mut self, store: &mut BoundedStore, msg: SyslogMessage)
        requires
            old(self).wf(),
            old(store).wf(),
        ensures
            final(self).wf(),
            final(store).wf(),
            final(self).max_logs == old(self).max_logs,
            final(self).stats@ == counted(
                old(self).stats@,
                msg.facility,
                msg.severity,
                msg.source_ip@,
            ),
            final(self).broadcaster@ == old(self).broadcaster@.published(msg@),
            final(store)@ == kept(inserted(old(store)@, msg@), old(self).max_logs),
            final(store)@.len() <= old(self).max_logs,
    {
        let mut step = self.begin(&msg);
        let ghost held = old(store)@;
        let mut rounds: u8 = 0;
        while step != SinkStep::Publish
            invariant
                store.wf(),
                self.wf(),
                self.max_logs == old(self).max_logs,
                self.broadcaster == old(self).broadcaster,
                self.stats@ == counted(
                    old(self).stats@,
                    msg.facility,
                    msg.severity,
                    msg.source_ip@,
                ),
                held == old(store)@,
                match step {
                    SinkStep::Insert => store@ == held && rounds == 0,
                    SinkStep::Count => store@ == inserted(held, msg@) && rounds == 1,
                    SinkStep::Evict(n) => store@ == inserted(held, msg@) && store@.len()
                        > self.max_logs && n == store@.len() - self.max_logs / 2 && rounds == 2,
                    SinkStep::Publish => store@ == kept(inserted(held, msg@), self.max_logs),
                },
            decreases 3 - rounds,
        {
            let reply = match step {
                SinkStep::Insert => {
                    let _ = store.insert(msg.clone());
                    StoreReply::Done
                },
                SinkStep::Count => StoreReply::Holds(store.count() as u64),
                SinkStep::Evict(n) => {
                    let _ = store.delete_oldest(n);
                    StoreReply::Done
                },
                SinkStep::Publish => StoreReply::Done,
            };
            step = self.advance(step, reply);
            rounds = rounds + 1;
        }
        self.finish(msg);
    }

    /// Forgets the statistics, once the store has been emptied. Where emptying
    /// the store failed, nothing is forgotten. Tells whether it was.
    pub fn cleared(&mut self, store_emptied: bool) -> (done: bool)
        ensures
            done == store_emptied,
            final(self).stats@ == if store_emptied {
                no_stats()
            } else {
                old(self).stats@
            },
            final(self).broadcaster == old(self).broadcaster,
            final(self).max_logs == old(self).max_logs,
    {
        if store_emptied {
            self.stats.clear();
        }
        store_emptied
    }
}

/// What a store keeps of `records` under the ceiling `max_logs`: all of them
/// while they are within the ceiling, else the newest `max_logs / 2`.
pub open spec fn kept<T>(records: Seq<T>, max_logs: u64) -> Seq<T> {
    if records.len() > max_logs {
        records.skip(records.len() - max_logs / 2)
    } else {
        records
    }
}

} // verus!
