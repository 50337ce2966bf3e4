//! CTasks: every subtask goes to one provider, and at the end of a task each
//! provider's usage is held against that of the others.

use vstd::prelude::*;
use crate::defence::{
    assign_in_turn, assigned_in_turn, record_usage, recorded, usage_view, Assignment, BanDuration,
    DefenceMechanismCommon, MAX_RATING_RAW, Offer,
};
use crate::error::SimulationError;
use crate::fixed::Fixed;
use crate::id::Id;
use crate::id_map::{index_of, keyed, lemma_entry_at, lemma_index_of, IdMap};
use crate::task::{Status, SubTask, Task};

verus! {

/// The means that the rating update of a finished task works on. Each is a
/// geometric mean, which the caller computes from the usages recorded.
#[derive(Debug)]
pub struct UsageMeans {
    /// For each provider with recorded usages, in the order of the records:
    /// the mean of its usages.
    pub per_provider: Vec<Fixed>,
    /// The mean of `per_provider`.
    pub overall_usage: Fixed,
    /// The mean of the ratings of the same providers.
    pub overall_rating: Fixed,
}

/// The rating of a provider after a task: the old rating times the square
/// root of the provider's usage relative to the mean usage, over its rating
/// relative to the mean rating.
pub open spec fn adjusted(rating: Fixed, usage: Fixed, mean_usage: Fixed, mean_rating: Fixed) -> Fixed {
    rating.times_spec(
        usage.over_spec(mean_usage).over_spec(rating.over_spec(mean_rating)).sqrt_spec(),
    )
}

/// The CTasks defence.
#[derive(Debug)]
pub struct CTasks {
    pub common: DefenceMechanismCommon,
    /// The usages reported during the current task, by provider.
    pub task_usages: IdMap<Vec<Fixed>>,
}

impl CTasks {
    pub open spec fn wf(&self) -> bool {
        self.common.wf() && self.task_usages.wf()
    }

    /// The usages recorded, by provider.
    pub open spec fn records(&self) -> Seq<(Id, Seq<Fixed>)> {
        usage_view(self.task_usages.entries@)
    }

    /// Whether usages of `k` were recorded during the task.
    pub open spec fn took_part(&self, k: Id) -> bool {
        keyed(self.task_usages.entries@, k)
    }

    /// The rating that `k`, which took part, gets at the end of the task.
    pub open spec fn new_rating(&self, means: &UsageMeans, k: Id) -> Fixed {
        adjusted(
            self.common.rating(k),
            means.per_provider@[index_of(self.task_usages.entries@, k)],
            means.overall_usage,
            means.overall_rating,
        )
    }

    /// Whether `k` took part and gets a rating above 2.0.
    pub open spec fn struck(&self, means: &UsageMeans, k: Id) -> bool {
        self.took_part(k) && self.new_rating(means, k).raw > MAX_RATING_RAW
    }

    /// `i` is the first record of a provider without a rating.
    pub open spec fn first_unrated_record(&self, i: int) -> bool {
        &&& 0 <= i < self.task_usages.entries@.len()
        &&& !self.common.rated(self.task_usages.entries@[i].0)
        &&& forall|j: int| 0 <= j < i ==> self.common.rated((#[trigger] self.task_usages.entries@[j]).0)
    }

    pub fn new(requestor_id: Id) -> (r: CTasks)
        ensures
            r.wf(),
            r.common.requestor_id == requestor_id,
            r.task_usages.entries@.len() == 0,
            r.common.ratings.entries@.len() == 0,
            r.common.blacklisted_set.entries@.len() == 0,
            forall|id: Id| !r.common.rated(id) && !r.common.banned(id),
    {
        CTasks { common: DefenceMechanismCommon::new(requestor_id), task_usages: IdMap::new() }
    }

    /// Hands out waiting subtasks of `task`, one to each provider in the
    /// ranking of the offers that pass the filter.
    pub fn assign_subtasks(&mut self, task: &mut Task, bids: Vec<Offer>) -> (r: Result<
        Vec<Assignment>,
        SimulationError,
    >)
        requires
            old(self).wf(),
            old(task).wf(),
        ensures
            *final(self) == *old(self),
            assigned_in_turn(&old(self).common, old(task), final(task), bids@, r),
    {
        assign_in_turn(&self.common, task, bids)
    }

    /// What recording a report does to this defence, and what it returns.
    pub open spec fn verified(
        &self,
        after: &CTasks,
        provider_id: Id,
        reported_usage: Option<Fixed>,
        r: Status,
    ) -> bool {
        &&& after.wf()
        &&& after.common == self.common
        &&& match reported_usage {
                Some(usage) => r == Status::Done && after.records() == recorded(
                    self.records(),
                    provider_id,
                    usage,
                ),
                None => r == Status::Cancelled && *after == *self,
            }
    }

    /// Records what `provider_id` reports: a usage makes the subtask done and
    /// is kept for the end of the task; no usage cancels the subtask.
    pub fn verify_subtask(
        &mut self,
        subtask: &SubTask,
        provider_id: Id,
        reported_usage: Option<Fixed>,
    ) -> (r: Status)
        requires
            old(self).wf(),
        ensures
            old(self).verified(final(self), provider_id, reported_usage, r),
    {
        match reported_usage {
            Some(usage) => {
                record_usage(&mut self.task_usages, provider_id, usage);
                Status::Done
            },
            None => Status::Cancelled,
        }
    }

    /// What the end of a task does to this defence, and what it returns.
    pub open spec fn completed(
        &self,
        after: &CTasks,
        means: &UsageMeans,
        r: Result<(), SimulationError>,
    ) -> bool {
        &&& match r {
                Ok(()) => {
                    &&& after.wf()
                    &&& after.common.requestor_id == self.common.requestor_id
                    &&& after.task_usages.entries@.len() == 0
                    &&& forall|k: Id| self.took_part(k) ==> self.common.rated(k)
                    &&& forall|k: Id| #[trigger] after.common.rated(k) <==> self.common.rated(k)
                    &&& forall|k: Id|
                        self.common.rated(k) ==> #[trigger] after.common.rating(k)
                            == if self.took_part(k) {
                            self.new_rating(means, k)
                        } else {
                            self.common.rating(k)
                        }
                    &&& forall|k: Id| #[trigger]
                        after.common.banned(k) <==> (self.common.banned(k) || self.struck(means, k))
                    &&& forall|k: Id|
                        self.common.banned(k) && !self.struck(means, k)
                            ==> #[trigger] after.common.ban(k) == self.common.ban(k)
                    &&& forall|k: Id|
                        self.struck(means, k) ==> #[trigger] after.common.ban(k)
                            == BanDuration::Indefinitely
                },
                Err(e) => {
                    &&& *after == *self
                    &&& exists|i: int|
                        self.first_unrated_record(i) && e == SimulationError::RatingNotFound(
                            self.common.requestor_id,
                            #[trigger] self.task_usages.entries@[i].0,
                        )
                },
            }
    }

    /// Ends the task: every provider that took part gets its new rating, a
    /// provider whose new rating is above 2.0 is banned for good, and the
    /// usages recorded are forgotten. Fails, and changes nothing, where a
    /// provider that took part has no rating.
    pub fn complete_task(&mut self, means: &UsageMeans) -> (r: Result<(), SimulationError>)
        requires
            old(self).wf(),
            means.per_provider@.len() == old(self).task_usages.entries@.len(),
        ensures
            old(self).completed(final(self), means, r),
    {
        let n: usize = self.task_usages.len();
        let mut c: usize = 0;
        while c < n
            invariant
                *self == *old(self),
                n == self.task_usages.entries@.len(),
                0 <= c <= n,
                forall|j: int| 0 <= j < c ==> self.common.rated((#[trigger] self.task_usages.entries@[j]).0),
            decreases n - c,
        {
            let id = self.task_usages.entries[c].0;
            if !self.common.ratings.contains_key(id) {
                proof {
                    assert(self.first_unrated_record(c as int));
                }
                return Err(SimulationError::RatingNotFound(self.common.requestor_id, id));
            }
            c = c + 1;
        }
        proof {
            assert forall|k: Id| old(self).took_part(k) implies old(self).common.rated(k) by {
                lemma_index_of(self.task_usages.entries@, k);
                let j = index_of(self.task_usages.entries@, k);
                assert(self.common.rated(self.task_usages.entries@[j].0));
            }
        }
        let ghost records = self.task_usages.entries@;
        let mut i: usize = 0;
        while i < n
            invariant
                old(self).wf(),
                self.common.wf(),
                self.task_usages == old(self).task_usages,
                records == old(self).task_usages.entries@,
                n == records.len(),
                means.per_provider@.len() == n,
                0 <= i <= n,
                self.common.requestor_id == old(self).common.requestor_id,
                forall|k: Id| old(self).took_part(k) ==> old(self).common.rated(k),
                forall|k: Id| #[trigger] self.common.rated(k) <==> old(self).common.rated(k),
                forall|k: Id|
                    old(self).common.rated(k) ==> #[trigger] self.common.rating(k) == if old(
                        self,
                    ).took_part(k) && index_of(records, k) < i {
                        old(self).new_rating(means, k)
                    } else {
                        old(self).common.rating(k)
                    },
                forall|k: Id| #[trigger]
                    self.common.banned(k) <==> (old(self).common.banned(k) || (old(self).struck(
                        means,
                        k,
                    ) && index_of(records, k) < i)),
                forall|k: Id|
                    old(self).common.banned(k) && !(old(self).struck(means, k) && index_of(
                        records,
                        k,
                    ) < i) ==> #[trigger] self.common.ban(k) == old(self).common.ban(k),
                forall|k: Id|
                    old(self).struck(means, k) && index_of(records, k) < i
                        ==> #[trigger] self.common.ban(k) == BanDuration::Indefinitely,
            decreases n - i,
        {
            let id = self.task_usages.entries[i].0;
            proof {
                lemma_entry_at(records, i as int);
                assert(old(self).took_part(id));
                assert(old(self).common.rated(id));
                assert(self.common.rated(id));
            }
            let ghost before = self.common;
            let rating = match self.common.get_provider_rating(id) {
                Some(rating) => rating,
                None => {
                    proof {
                        assert(false);
                    }
                    return Ok(());
                },
            };
            let usage = means.per_provider[i];
            let rating_relative_to_mean = rating.over(means.overall_rating);
            let usage_relative_to_mean = usage.over(means.overall_usage);
            let adjustment_factor = usage_relative_to_mean.over(rating_relative_to_mean).sqrt();
            let new_rating = rating.times(adjustment_factor);
            assert(new_rating == old(self).new_rating(means, id));
            let outcome = self.common.assign_rating(id, new_rating, new_rating.raw > MAX_RATING_RAW);
            assert(outcome is Ok);
            proof {
                assert forall|k: Id| old(self).common.rated(k) implies #[trigger] self.common.rating(
                    k,
                ) == if old(self).took_part(k) && index_of(records, k) < i + 1 {
                    old(self).new_rating(means, k)
                } else {
                    old(self).common.rating(k)
                } by {
                    assert(before.rated(k));
                    if old(self).took_part(k) && k != id {
                        lemma_index_of(records, k);
                    }
                }
                assert forall|k: Id| #[trigger]
                    self.common.banned(k) <==> (old(self).common.banned(k) || (old(self).struck(
                        means,
                        k,
                    ) && index_of(records, k) < i + 1)) by {
                    if old(self).took_part(k) && k != id {
                        lemma_index_of(records, k);
                    }
                }
                assert forall|k: Id|
                    old(self).common.banned(k) && !(old(self).struck(means, k) && index_of(
                        records,
                        k,
                    ) < i + 1) implies #[trigger] self.common.ban(k) == old(self).common.ban(k) by {
                    assert(before.banned(k));
                    if old(self).took_part(k) && k != id {
                        lemma_index_of(records, k);
                    }
                }
                assert forall|k: Id|
                    old(self).struck(means, k) && index_of(records, k) < i + 1
                        implies #[trigger] self.common.ban(k) == BanDuration::Indefinitely by {
                    if k != id {
                        lemma_index_of(records, k);
                        assert(before.banned(k));
                    }
                }
            }
            i = i + 1;
        }
        proof {
            assert forall|k: Id| old(self).took_part(k) implies index_of(records, k) < n by {
                lemma_index_of(records, k);
            }
        }
        self.task_usages.clear();
        Ok(())
    }
}

} // verus!
