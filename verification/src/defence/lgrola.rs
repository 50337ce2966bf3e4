//! LGRola: every subtask goes to one provider; at the end of a task the
//! providers whose usage lies far above that of the others are banned for a
//! number of tasks that grows with each offence.

use vstd::prelude::*;
use crate::defence::{
    assign_in_turn, assigned_in_turn, record_usage, recorded, usage_view, Assignment, BanDuration,
    DefenceMechanismCommon, Offer,
};
use crate::error::SimulationError;
use crate::fixed::Fixed;
use crate::id::Id;
use crate::id_map::{
    distinct, index_of, keyed, lemma_entry_at, lemma_index_of, lemma_pushed, value_of, IdMap,
};
use crate::task::{Status, SubTask, Task};

verus! {

/// How far above the upper quartile, in interquartile ranges, a usage must
/// lie to count as an outlier, in raw units (1.5).
pub const OUTLIER_FACTOR_RAW: u64 = 1_500_000_000;

/// The figures that the end of a task works on. The caller computes them
/// from the usages recorded.
#[derive(Debug)]
pub struct OutlierStatistics {
    /// For each provider with recorded usages, in the order of the records:
    /// the geometric mean of its usages.
    pub per_provider: Vec<Fixed>,
    /// The upper quartile of `per_provider`.
    pub upper_quartile: Fixed,
    /// The interquartile range of `per_provider`.
    pub interquartile_range: Fixed,
    /// For each of the same providers: for how many tasks it is banned if it
    /// is an outlier, which is the exponential of the number of its
    /// collisions counting this one, rounded up.
    pub ban_lengths: Vec<u64>,
}

impl OutlierStatistics {
    /// The usage above which a provider is an outlier: the upper quartile
    /// plus one and a half interquartile ranges.
    pub open spec fn threshold_spec(&self) -> Fixed {
        self.interquartile_range.times_spec(Fixed { raw: OUTLIER_FACTOR_RAW }).plus_spec(
            self.upper_quartile,
        )
    }

    pub fn threshold(&self) -> (r: Fixed)
        ensures
            r == self.threshold_spec(),
    {
        self.interquartile_range.times(Fixed::from_raw(OUTLIER_FACTOR_RAW)).plus(
            self.upper_quartile,
        )
    }
}

/// The bans one completed task later: each finite ban counts one task less,
/// and a ban that has no task left is lifted.
pub open spec fn decayed(bans: Seq<(Id, BanDuration)>) -> Seq<(Id, BanDuration)>
    decreases bans.len(),
{
    if bans.len() == 0 {
        Seq::empty()
    } else if bans.last().1.decremented().is_expired_spec() {
        decayed(bans.drop_last())
    } else {
        decayed(bans.drop_last()).push((bans.last().0, bans.last().1.decremented()))
    }
}

/// Every finite ban decreases by exactly one with each completed task and is
/// lifted when it reaches zero; a ban for good stays.
pub proof fn lemma_decayed(bans: Seq<(Id, BanDuration)>)
    requires
        distinct(bans),
    ensures
        distinct(decayed(bans)),
        forall|k: Id| #[trigger]
            keyed(decayed(bans), k) <==> (keyed(bans, k) && !value_of(
                bans,
                k,
            ).decremented().is_expired_spec()),
        forall|k: Id|
            keyed(decayed(bans), k) ==> #[trigger] value_of(decayed(bans), k) == value_of(
                bans,
                k,
            ).decremented(),
    decreases bans.len(),
{
    if bans.len() > 0 {
        let rest = bans.drop_last();
        let id = bans.last().0;
        let ban = bans.last().1;
        assert(bans =~= rest.push((id, ban)));
        assert(distinct(rest)) by {
            assert forall|i: int, j: int| 0 <= i < j < rest.len() implies (#[trigger] rest[i]).0 != (
            #[trigger] rest[j]).0 by {
                assert(bans[i].0 != bans[j].0);
            }
        }
        assert(!keyed(rest, id)) by {
            if keyed(rest, id) {
                let i = index_of(rest, id);
                assert(bans[i].0 != bans[bans.len() - 1].0);
            }
        }
        lemma_decayed(rest);
        lemma_pushed(rest, id, ban);
        let d = decayed(rest);
        if !ban.decremented().is_expired_spec() {
            lemma_pushed(d, id, ban.decremented());
        }
        assert forall|k: Id| #[trigger]
            keyed(decayed(bans), k) <==> (keyed(bans, k) && !value_of(
                bans,
                k,
            ).decremented().is_expired_spec()) by {
            assert(keyed(rest.push((id, ban)), k) <==> (k == id || keyed(rest, k)));
            if k == id || keyed(rest, k) {
                assert(value_of(rest.push((id, ban)), k) == if k == id {
                    ban
                } else {
                    value_of(rest, k)
                });
            }
        }
        assert forall|k: Id| keyed(decayed(bans), k) implies #[trigger] value_of(decayed(bans), k)
            == value_of(bans, k).decremented() by {
            assert(keyed(rest.push((id, ban)), k) <==> (k == id || keyed(rest, k)));
            if k == id || keyed(rest, k) {
                assert(value_of(rest.push((id, ban)), k) == if k == id {
                    ban
                } else {
                    value_of(rest, k)
                });
            }
        }
    }
}

/// Lets one completed task pass over the bans.
pub fn decay(blacklist: &mut IdMap<BanDuration>)
    requires
        old(blacklist).wf(),
    ensures
        final(blacklist).wf(),
        final(blacklist).entries@ == decayed(old(blacklist).entries@),
{
    let mut kept: Vec<(Id, BanDuration)> = Vec::new();
    let n: usize = blacklist.entries.len();
    let mut i: usize = 0;
    while i < n
        invariant
            *blacklist == *old(blacklist),
            n == blacklist.entries@.len(),
            0 <= i <= n,
            kept@ == decayed(blacklist.entries@.subrange(0, i as int)),
        decreases n - i,
    {
        proof {
            assert(blacklist.entries@.subrange(0, i + 1).drop_last() =~= blacklist.entries@.subrange(
                0,
                i as int,
            ));
        }
        let entry = blacklist.entries[i];
        let mut ban = entry.1;
        ban.decrement();
        if !ban.is_expired() {
            kept.push((entry.0, ban));
        }
        i = i + 1;
    }
    proof {
        assert(blacklist.entries@.subrange(0, n as int) =~= blacklist.entries@);
        lemma_decayed(blacklist.entries@);
    }
    blacklist.entries = kept;
}

/// One more than `c`, as far as the counter goes.
pub open spec fn raised(c: u32) -> u32 {
    if c < u32::MAX {
        (c + 1) as u32
    } else {
        c
    }
}

/// One less than `c`, but not below zero.
pub open spec fn eased(c: u32) -> u32 {
    if c > 0 {
        (c - 1) as u32
    } else {
        0
    }
}

/// The LGRola defence.
#[derive(Debug)]
pub struct LGRola {
    pub common: DefenceMechanismCommon,
    /// The usages reported during the current task, by provider.
    pub task_usages: IdMap<Vec<Fixed>>,
    /// How often each provider has been found an outlier, less the tasks in
    /// which it was not.
    pub collisions: IdMap<u32>,
}

impl LGRola {
    pub open spec fn wf(&self) -> bool {
        self.common.wf() && self.task_usages.wf() && self.collisions.wf()
    }

    /// The usages recorded, by provider.
    pub open spec fn records(&self) -> Seq<(Id, Seq<Fixed>)> {
        usage_view(self.task_usages.entries@)
    }

    /// Whether usages of `k` were recorded during the task.
    pub open spec fn took_part(&self, k: Id) -> bool {
        keyed(self.task_usages.entries@, k)
    }

    /// Whether `k` took part and its usage lies above the threshold.
    pub open spec fn outlier(&self, stats: &OutlierStatistics, k: Id) -> bool {
        self.took_part(k) && stats.per_provider@[index_of(self.task_usages.entries@, k)].raw
            > stats.threshold_spec().raw
    }

    /// The collisions counted against `k`.
    pub open spec fn collisions_of(&self, k: Id) -> u32 {
        if self.collisions.contains(k) {
            self.collisions.value(k)
        } else {
            0
        }
    }

    pub fn new(requestor_id: Id) -> (r: LGRola)
        ensures
            r.wf(),
            r.common.requestor_id == requestor_id,
            r.task_usages.entries@.len() == 0,
            r.collisions.entries@.len() == 0,
            r.common.ratings.entries@.len() == 0,
            r.common.blacklisted_set.entries@.len() == 0,
            forall|id: Id| !r.common.rated(id) && !r.common.banned(id),
    {
        LGRola {
            common: DefenceMechanismCommon::new(requestor_id),
            task_usages: IdMap::new(),
            collisions: IdMap::new(),
        }
    }

    /// The number of collisions that `provider_id` will have if it is found
    /// an outlier when the current task ends.
    pub fn next_collisions(&self, provider_id: Id) -> (r: u32)
        requires
            self.wf(),
        ensures
            r == raised(self.collisions_of(provider_id)),
    {
        let current: u32 = match self.collisions.get(provider_id) {
            Some(c) => *c,
            None => 0,
        };
        if current < u32::MAX {
            current + 1
        } else {
            current
        }
    }

    /// Hands out waiting subtasks of `task`, one to each provider in the
    /// ranking of the offers that pass the filter.
    pub fn assign_subtasks(&mut self, task: &mut Task, bids: Vec<Offer>) -> (r: Result<
        Vec<Assignment>,
        SimulationError,
    >)
        requires
            old(self).wf(),
            old(task).wf(),
        ensures
            *final(self) == *old(self),
            assigned_in_turn(&old(self).common, old(task), final(task), bids@, r),
    {
        assign_in_turn(&self.common, task, bids)
    }

    /// What recording a report does to this defence, and what it returns.
    pub open spec fn verified(
        &self,
        after: &LGRola,
        provider_id: Id,
        reported_usage: Option<Fixed>,
        r: Status,
    ) -> bool {
        &&& after.wf()
        &&& after.common == self.common
        &&& after.collisions == self.collisions
        &&& match reported_usage {
                Some(usage) => r == Status::Done && after.records() == recorded(
                    self.records(),
                    provider_id,
                    usage,
                ),
                None => r == Status::Cancelled && *after == *self,
            }
    }

    /// Records what `provider_id` reports: a usage makes the subtask done and
    /// is kept for the end of the task; no usage cancels the subtask.
    pub fn verify_subtask(
        &mut self,
        subtask: &SubTask,
        provider_id: Id,
        reported_usage: Option<Fixed>,
    ) -> (r: Status)
        requires
            old(self).wf(),
        ensures
            old(self).verified(final(self), provider_id, reported_usage, r),
    {
        match reported_usage {
            Some(usage) => {
                record_usage(&mut self.task_usages, provider_id, usage);
                Status::Done
            },
            None => Status::Cancelled,
        }
    }

    /// What the end of a task does to this defence.
    pub open spec fn completed(&self, after: &LGRola, stats: &OutlierStatistics) -> bool {
        &&& after.wf()
        &&& after.common.requestor_id == self.common.requestor_id
        &&& after.common.ratings == self.common.ratings
        &&& after.task_usages.entries@.len() == 0
        &&& forall|k: Id| #[trigger]
                after.collisions.contains(k) <==> (self.collisions.contains(k) || self.took_part(k))
        &&& forall|k: Id| #[trigger]
                after.collisions_of(k) == if self.outlier(stats, k) {
                    raised(self.collisions_of(k))
                } else if self.took_part(k) {
                    eased(self.collisions_of(k))
                } else {
                    self.collisions_of(k)
                }
        &&& forall|k: Id| #[trigger]
                after.common.banned(k) <==> (self.outlier(stats, k) || (self.common.banned(k) && !self.common.ban(k).decremented().is_expired_spec()))
        &&& forall|k: Id|
                self.outlier(stats, k) ==> #[trigger] after.common.ban(k)
                    == BanDuration::Until(
                    stats.ban_lengths@[index_of(self.task_usages.entries@, k)],
                )
        &&& forall|k: Id|
                !self.outlier(stats, k) && self.common.banned(k) && !self.common.ban(k).decremented().is_expired_spec() ==> #[trigger] after.common.ban(k) == self.common.ban(k).decremented()
    }

    /// Ends the task. One task passes over the bans. Then every provider
    /// that took part is judged: an outlier has its collisions raised by one
    /// and is banned for the number of tasks that `stats` gives for it; any
    /// other has its collisions eased by one. The usages recorded are
    /// forgotten. Ratings stay as they are.
    pub fn complete_task(&mut self, stats: &OutlierStatistics)
        requires
            old(self).wf(),
            stats.per_provider@.len() == old(self).task_usages.entries@.len(),
            stats.ban_lengths@.len() == old(self).task_usages.entries@.len(),
        ensures
            old(self).completed(final(self), stats),
    {
        proof {
            lemma_decayed(self.common.blacklisted_set.entries@);
        }
        decay(&mut self.common.blacklisted_set);
        let threshold = stats.threshold();
        let ghost records = self.task_usages.entries@;
        let n: usize = self.task_usages.len();
        let mut i: usize = 0;
        while i < n
            invariant
                old(self).wf(),
                self.wf(),
                self.task_usages == old(self).task_usages,
                self.common.ratings == old(self).common.ratings,
                self.common.requestor_id == old(self).common.requestor_id,
                records == old(self).task_usages.entries@,
                n == records.len(),
                stats.per_provider@.len() == n,
                stats.ban_lengths@.len() == n,
                threshold == stats.threshold_spec(),
                0 <= i <= n,
                forall|k: Id| #[trigger]
                    self.collisions.contains(k) <==> (old(self).collisions.contains(k) || (old(
                        self,
                    ).took_part(k) && index_of(records, k) < i)),
                forall|k: Id| #[trigger]
                    self.collisions_of(k) == if old(self).outlier(stats, k) && index_of(records, k)
                        < i {
                        raised(old(self).collisions_of(k))
                    } else if old(self).took_part(k) && index_of(records, k) < i {
                        eased(old(self).collisions_of(k))
                    } else {
                        old(self).collisions_of(k)
                    },
                forall|k: Id| #[trigger]
                    self.common.banned(k) <==> ((old(self).outlier(stats, k) && index_of(records, k)
                        < i) || (old(self).common.banned(k) && !old(self).common.ban(
                        k,
                    ).decremented().is_expired_spec())),
                forall|k: Id|
                    old(self).outlier(stats, k) && index_of(records, k) < i
                        ==> #[trigger] self.common.ban(k) == BanDuration::Until(
                        stats.ban_lengths@[index_of(records, k)],
                    ),
                forall|k: Id|
                    !(old(self).outlier(stats, k) && index_of(records, k) < i) && old(
                        self,
                    ).common.banned(k) && !old(self).common.ban(k).decremented().is_expired_spec()
                        ==> #[trigger] self.common.ban(k) == old(self).common.ban(k).decremented(),
            decreases n - i,
        {
            let id = self.task_usages.entries[i].0;
            let usage = stats.per_provider[i];
            proof {
                lemma_entry_at(records, i as int);
            }
            let ghost before = *self;
            if usage.raw > threshold.raw {
                let collisions = self.next_collisions(id);
                let _ = self.collisions.insert(id, collisions);
                let _ = self.common.blacklisted_set.insert(
                    id,
                    BanDuration::Until(stats.ban_lengths[i]),
                );
            } else {
                let current: u32 = match self.collisions.get(id) {
                    Some(c) => *c,
                    None => 0,
                };
                let lower: u32 = if current > 0 {
                    current - 1
                } else {
                    0
                };
                let _ = self.collisions.insert(id, lower);
            }
            proof {
                assert forall|k: Id| k != id && old(self).took_part(k) implies index_of(records, k)
                    != i by {
                    lemma_index_of(records, k);
                }
                assert forall|k: Id| #[trigger]
                    self.collisions.contains(k) <==> (old(self).collisions.contains(k) || (old(
                        self,
                    ).took_part(k) && index_of(records, k) < i + 1)) by {
                    assert(before.collisions.contains(k) <==> (old(self).collisions.contains(k)
                        || (old(self).took_part(k) && index_of(records, k) < i)));
                }
                assert forall|k: Id| #[trigger]
                    self.collisions_of(k) == if old(self).outlier(stats, k) && index_of(records, k)
                        < i + 1 {
                        raised(old(self).collisions_of(k))
                    } else if old(self).took_part(k) && index_of(records, k) < i + 1 {
                        eased(old(self).collisions_of(k))
                    } else {
                        old(self).collisions_of(k)
                    } by {
                    let _ = before.collisions_of(k);
                    if k != id && before.collisions.contains(k) {
                        assert(self.collisions.value(k) == before.collisions.value(k));
                    }
                }
                assert forall|k: Id| #[trigger]
                    self.common.banned(k) <==> ((old(self).outlier(stats, k) && index_of(records, k)
                        < i + 1) || (old(self).common.banned(k) && !old(self).common.ban(
                        k,
                    ).decremented().is_expired_spec())) by {
                    assert(before.common.banned(k) <==> ((old(self).outlier(stats, k) && index_of(
                        records,
                        k,
                    ) < i) || (old(self).common.banned(k) && !old(self).common.ban(
                        k,
                    ).decremented().is_expired_spec())));
                }
                assert forall|k: Id|
                    old(self).outlier(stats, k) && index_of(records, k) < i + 1
                        implies #[trigger] self.common.ban(k) == BanDuration::Until(
                    stats.ban_lengths@[index_of(records, k)],
                ) by {
                    if k != id {
                        assert(before.common.banned(k));
                        let _ = before.common.ban(k);
                    }
                }
                assert forall|k: Id|
                    !(old(self).outlier(stats, k) && index_of(records, k) < i + 1) && old(
                        self,
                    ).common.banned(k) && !old(self).common.ban(k).decremented().is_expired_spec()
                        implies #[trigger] self.common.ban(k) == old(self).common.ban(
                    k,
                ).decremented() by {
                    assert(before.common.banned(k));
                    let _ = before.common.ban(k);
                }
            }
            i = i + 1;
        }
        proof {
            assert forall|k: Id| old(self).took_part(k) implies index_of(records, k) < n by {
                lemma_index_of(records, k);
            }
        }
        let ghost judged = *self;
        self.task_usages.clear();
        proof {
            assert forall|k: Id| #[trigger]
                self.collisions_of(k) == if old(self).outlier(stats, k) {
                    raised(old(self).collisions_of(k))
                } else if old(self).took_part(k) {
                    eased(old(self).collisions_of(k))
                } else {
                    old(self).collisions_of(k)
                } by {
                let _ = judged.collisions_of(k);
                if old(self).took_part(k) {
                    lemma_index_of(records, k);
                }
            }
        }
    }
}

} // verus!
