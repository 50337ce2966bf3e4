//! Redundancy: every subtask goes to two providers, and what the two report
//! is held against each other.
//!
//! Where both deliver, the provider with the higher effective work has its
//! rating multiplied by the square root of the ratio of the two, and the
//! other has its rating divided by it.

use vstd::prelude::*;
use crate::defence::{
    all_rated, first_unrated, least, offers_of, ranked, unbanned, Assignment, BanDuration,
    DefenceMechanismCommon, MAX_RATING_RAW, Offer,
};
use crate::error::SimulationError;
use crate::fixed::Fixed;
use crate::id::Id;
use crate::task::{Status, SubTask, Task, TaskView};
use crate::verification::{
    delivered, lemma_delivered_from, lemma_delivered_len, DEFAULT_FACTOR, VerificationMap,
    VerificationResult,
};

verus! {

/// How many providers get each subtask.
pub const REDUNDANCY_FACTOR: usize = 2;

/// The ratings and bans of `after` are those of `before`, but that `id1` has
/// the rating `new1` and then `id2` the rating `new2`, and that each of them
/// is banned for good where its new rating reaches 2.0.
pub open spec fn ratings_updated(
    before: &DefenceMechanismCommon,
    after: &DefenceMechanismCommon,
    id1: Id,
    new1: Fixed,
    id2: Id,
    new2: Fixed,
) -> bool {
    &&& after.wf()
    &&& after.requestor_id == before.requestor_id
    &&& forall|k: Id| #[trigger] after.rated(k) <==> before.rated(k)
    &&& forall|k: Id|
        before.rated(k) ==> #[trigger] after.rating(k) == if k == id2 {
            new2
        } else if k == id1 {
            new1
        } else {
            before.rating(k)
        }
    &&& forall|k: Id| #[trigger]
        after.banned(k) <==> (before.banned(k) || (k == id1 && new1.raw >= MAX_RATING_RAW) || (k
            == id2 && new2.raw >= MAX_RATING_RAW))
    &&& forall|k: Id|
        before.banned(k) && !(k == id1 && new1.raw >= MAX_RATING_RAW) && !(k == id2 && new2.raw
            >= MAX_RATING_RAW) ==> #[trigger] after.ban(k) == before.ban(k)
    &&& new1.raw >= MAX_RATING_RAW ==> after.ban(id1) == BanDuration::Indefinitely
    &&& new2.raw >= MAX_RATING_RAW ==> after.ban(id2) == BanDuration::Indefinitely
}

/// The square root of the ratio of two effective works.
pub open spec fn adjustment(d1: Fixed, d2: Fixed) -> Fixed {
    d1.over_spec(d2).sqrt_spec()
}

/// The first `pairs` subtasks of `pending`, each to two providers: the
/// subtask at `c` goes to the providers of the offers at `2c` and `2c + 1`.
pub open spec fn paired(offers: Seq<Offer>, pending: Seq<SubTask>, pairs: int) -> Seq<Assignment> {
    Seq::new(
        (2 * pairs) as nat,
        |i: int| (offers[i].0, pending[i / 2], offers[i].1),
    )
}

/// What is known of a subtask once as many results as needed are in.
pub open spec fn verdict(results: Seq<(Id, Fixed)>) -> Status {
    if results.len() == 0 {
        Status::Cancelled
    } else {
        Status::Done
    }
}

/// The redundancy defence.
#[derive(Debug)]
pub struct Redundancy {
    pub common: DefenceMechanismCommon,
    pub verification_map: VerificationMap,
}

impl Redundancy {
    /// Every provider from which a result is held has a rating.
    pub open spec fn results_rated(&self) -> bool {
        forall|key: Id, j: int|
            self.verification_map.awaits(key) && 0 <= j < self.verification_map.received(key).len()
                ==> match #[trigger] self.verification_map.received(key)[j] {
                Some(pair) => self.common.rated(pair.0),
                None => true,
            }
    }

    pub open spec fn wf(&self) -> bool {
        &&& self.common.wf()
        &&& self.verification_map.wf()
        &&& self.verification_map.factor() == DEFAULT_FACTOR
        &&& self.results_rated()
    }

    /// What a report of `reported_usage` by `provider_id` is recorded as: the
    /// usage over the provider's rating.
    pub open spec fn effective_work(
        &self,
        provider_id: Id,
        reported_usage: Option<Fixed>,
    ) -> VerificationResult {
        match reported_usage {
            Some(usage) => Some((provider_id, usage.over_spec(self.common.rating(provider_id)))),
            None => None,
        }
    }

    /// A banned provider gets no subtask: whatever is handed out goes to
    /// providers that are not banned.
    pub proof fn lemma_banned_gets_nothing(
        &self,
        after: &Redundancy,
        task: &Task,
        task_after: &Task,
        bids: Seq<Offer>,
        messages: Vec<Assignment>,
        i: int,
    )
        requires
            self.assigned(after, task, task_after, bids, Ok(messages)),
            0 <= i < messages@.len(),
        ensures
            !self.common.banned(messages@[i].0),
            !after.common.banned(messages@[i].0),
    {
        let open_bids = unbanned(bids, self.common.blacklisted_set.entries@);
        let offers = offers_of(ranked(open_bids, self.common.ratings.entries@));
        crate::defence::lemma_ranked(open_bids, self.common.ratings.entries@);
        crate::defence::lemma_ranked_from(open_bids, self.common.ratings.entries@, i);
        let k = choose|k: int| 0 <= k < open_bids.len() && open_bids[k] == offers[i];
        crate::defence::lemma_unbanned_sound(bids, self.common.blacklisted_set.entries@, k);
    }

    pub fn new(requestor_id: Id) -> (r: Redundancy)
        ensures
            r.wf(),
            r.common.requestor_id == requestor_id,
            r.common.ratings.entries@.len() == 0,
            r.common.blacklisted_set.entries@.len() == 0,
            forall|id: Id| !r.common.rated(id) && !r.common.banned(id),
            forall|key: Id| !r.verification_map.awaits(key),
    {
        Redundancy {
            common: DefenceMechanismCommon::new(requestor_id),
            verification_map: VerificationMap::new(DEFAULT_FACTOR),
        }
    }

    /// Adjusts two ratings after two providers delivered the same subtask
    /// with effective work `p1.1` and `p2.1`: the rating of the first is
    /// multiplied by the square root of `p1.1 / p2.1`, that of the second is
    /// divided by it.
    pub fn update_rating(&mut self, p1: (Id, Fixed), p2: (Id, Fixed)) -> (r: Result<
        (),
        SimulationError,
    >)
        requires
            old(self).wf(),
        ensures
            final(self).verification_map == old(self).verification_map,
            match r {
                Ok(()) => {
                    &&& old(self).common.rated(p1.0)
                    &&& old(self).common.rated(p2.0)
                    &&& final(self).wf()
                    &&& ratings_updated(
                        &old(self).common,
                        &final(self).common,
                        p1.0,
                        old(self).common.rating(p1.0).times_spec(adjustment(p1.1, p2.1)),
                        p2.0,
                        old(self).common.rating(p2.0).over_spec(adjustment(p1.1, p2.1)),
                    )
                },
                Err(e) => {
                    &&& *final(self) == *old(self)
                    &&& !old(self).common.rated(p1.0) ==> e == SimulationError::RatingNotFound(
                        old(self).common.requestor_id,
                        p1.0,
                    )
                    &&& old(self).common.rated(p1.0) ==> !old(self).common.rated(p2.0) && e
                        == SimulationError::RatingNotFound(old(self).common.requestor_id, p2.0)
                },
            },
    {
        let (id1, d1) = p1;
        let (id2, d2) = p2;
        let old1 = match self.common.get_provider_rating(id1) {
            Some(rating) => rating,
            None => {
                return Err(SimulationError::RatingNotFound(self.common.requestor_id, id1));
            },
        };
        let old2 = match self.common.get_provider_rating(id2) {
            Some(rating) => rating,
            None => {
                return Err(SimulationError::RatingNotFound(self.common.requestor_id, id2));
            },
        };
        let ratio = d1.over(d2).sqrt();
        let new1 = old1.times(ratio);
        let new2 = old2.over(ratio);
        let first = self.common.update_provider_rating(id1, new1);
        assert(first is Ok);
        let second = self.common.update_provider_rating(id2, new2);
        assert(second is Ok);
        Ok(())
    }

    /// What handing out subtasks does: to this defence, to the task, and what it returns.
    pub open spec fn assigned(
        &self,
        after: &Redundancy,
        task: &Task,
        task_after: &Task,
        bids: Seq<Offer>,
        r: Result<Vec<Assignment>, SimulationError>,
    ) -> bool {
        &&& after.wf()
        &&& task_after.wf()
        &&& after.common == self.common
        &&& match r {
                Ok(messages) => {
                    let open_bids = unbanned(bids, self.common.blacklisted_set.entries@);
                    let offers = offers_of(ranked(open_bids, self.common.ratings.entries@));
                    let pairs = least(offers.len() as int / 2, task@.pending.len() as int);
                    &&& all_rated(open_bids, self.common.ratings.entries@)
                    &&& messages@ == paired(offers, task@.pending, pairs)
                    &&& task_after@ == (TaskView {
                        in_flight: (task@.in_flight + pairs) as nat,
                        pending: task@.pending.subrange(
                            pairs,
                            task@.pending.len() as int,
                        ),
                        ..task@
                    })
                    &&& forall|c: int|
                        0 <= c < pairs ==> after.verification_map.awaits(
                            (#[trigger] task@.pending[c]).id,
                        ) && after.verification_map.received(task@.pending[c].id).len()
                            == 0
                    &&& forall|key: Id|
                        (forall|c: int| 0 <= c < pairs ==> (#[trigger] task@.pending[c]).id
                            != key) ==> (#[trigger] after.verification_map.awaits(key)
                            <==> self.verification_map.awaits(key))
                    &&& forall|key: Id|
                        (forall|c: int| 0 <= c < pairs ==> (#[trigger] task@.pending[c]).id
                            != key) && self.verification_map.awaits(key)
                            ==> #[trigger] after.verification_map.received(key) == self.verification_map.received(key)
                },
                Err(e) => {
                    &&& *after == *self
                    &&& *task_after == *task
                    &&& exists|k: int|
                        first_unrated(
                            unbanned(bids, self.common.blacklisted_set.entries@),
                            self.common.ratings.entries@,
                            k,
                        ) && e == SimulationError::RatingNotFound(
                            self.common.requestor_id,
                            #[trigger] unbanned(
                                bids,
                                self.common.blacklisted_set.entries@,
                            )[k].0,
                        )
                },
            }
    }

    /// Hands out waiting subtasks of `task`, each to the next two providers
    /// in the ranking of the offers that pass the filter, and awaits two
    /// results for each.
    pub fn assign_subtasks(&mut self, task: &mut Task, bids: Vec<Offer>) -> (r: Result<
        Vec<Assignment>,
        SimulationError,
    >)
        requires
            old(self).wf(),
            old(task).wf(),
        ensures
            old(self).assigned(final(self), old(task), final(task), bids@, r),
    {
        let open_bids = self.common.filter_offers(bids);
        let offers = match self.common.rank_offers(open_bids) {
            Ok(offers) => offers,
            Err(e) => {
                return Err(e);
            },
        };
        let available: usize = task.pending_len();
        let pairs: usize = if offers.len() / 2 < available {
            offers.len() / 2
        } else {
            available
        };
        let ghost pending = task@.pending;
        let mut messages: Vec<Assignment> = Vec::new();
        let mut c: usize = 0;
        let total: usize = offers.len();
        assert(pending.subrange(0, pending.len() as int) =~= pending);
        assert(messages@ =~= paired(offers@, pending, 0));
        while c < pairs
            invariant
                self.wf(),
                task.wf(),
                total == offers@.len(),
                self.common == old(self).common,
                pending == old(task)@.pending,
                pairs <= pending.len(),
                2 * pairs <= offers@.len(),
                0 <= c <= pairs,
                task@ == (TaskView {
                    in_flight: (old(task)@.in_flight + c) as nat,
                    pending: pending.subrange(c as int, pending.len() as int),
                    ..old(task)@
                }),
                messages@ == paired(offers@, pending, c as int),
                forall|j: int|
                    0 <= j < c ==> self.verification_map.awaits((#[trigger] pending[j]).id)
                        && self.verification_map.received(pending[j].id).len() == 0,
                forall|key: Id|
                    (forall|j: int| 0 <= j < c ==> (#[trigger] pending[j]).id != key) ==> (
                    #[trigger] self.verification_map.awaits(key) <==> old(
                        self,
                    ).verification_map.awaits(key)),
                forall|key: Id|
                    (forall|j: int| 0 <= j < c ==> (#[trigger] pending[j]).id != key) && old(
                        self,
                    ).verification_map.awaits(key) ==> #[trigger] self.verification_map.received(
                        key,
                    ) == old(self).verification_map.received(key),
            decreases pairs - c,
        {
            let ghost map_before = self.verification_map;
            let subtask = match task.pop_pending() {
                Some(subtask) => subtask,
                None => {
                    proof {
                        assert(false);
                    }
                    return Ok(messages);
                },
            };
            assert(subtask == pending[c as int]);
            let first = offers[2 * c];
            let second = offers[2 * c + 1];
            messages.push((first.0, subtask, first.1));
            messages.push((second.0, subtask, second.1));
            self.verification_map.insert_key(subtask.id);
            proof {
                assert(task@.pending =~= pending.subrange(c + 1, pending.len() as int));
                assert(messages@ =~= paired(offers@, pending, c + 1));
                assert forall|j: int| 0 <= j < c + 1 implies self.verification_map.awaits(
                    (#[trigger] pending[j]).id,
                ) && self.verification_map.received(pending[j].id).len() == 0 by {
                    if pending[j].id != subtask.id {
                        assert(map_before.awaits(pending[j].id));
                    }
                }
                assert forall|key: Id|
                    (forall|j: int| 0 <= j < c + 1 ==> (#[trigger] pending[j]).id != key) implies (
                #[trigger] self.verification_map.awaits(key) <==> old(
                    self,
                ).verification_map.awaits(key)) by {
                    if forall|j: int| 0 <= j < c + 1 ==> (#[trigger] pending[j]).id != key {
                        assert(pending[c as int].id != key);
                        assert(forall|j: int| 0 <= j < c ==> (#[trigger] pending[j]).id != key);
                    }
                }
                assert forall|key: Id|
                    (forall|j: int| 0 <= j < c + 1 ==> (#[trigger] pending[j]).id != key) && old(
                        self,
                    ).verification_map.awaits(key) implies #[trigger] self.verification_map.received(
                    key,
                ) == old(self).verification_map.received(key) by {
                    assert(pending[c as int].id != key);
                    assert(forall|j: int| 0 <= j < c ==> (#[trigger] pending[j]).id != key);
                    assert(map_before.awaits(key));
                }
                assert forall|key: Id, j: int|
                    self.verification_map.awaits(key) && 0 <= j < self.verification_map.received(
                        key,
                    ).len() implies match #[trigger] self.verification_map.received(key)[j] {
                    Some(pair) => self.common.rated(pair.0),
                    None => true,
                } by {
                    if key != subtask.id {
                        assert(map_before.awaits(key));
                        assert(self.verification_map.received(key) == map_before.received(key));
                        let _ = map_before.received(key)[j];
                    }
                }
            }
            c = c + 1;
        }
        Ok(messages)
    }

    /// What recording a report does to this defence, and what it returns.
    pub open spec fn verified(
        &self,
        after: &Redundancy,
        subtask: &SubTask,
        provider_id: Id,
        reported_usage: Option<Fixed>,
        r: Result<Status, SimulationError>,
    ) -> bool {
        &&& after.wf()
        &&& after.common.requestor_id == self.common.requestor_id
        &&& forall|k: Id| #[trigger] after.common.rated(k) <==> self.common.rated(k)
        &&& forall|k: Id| self.common.banned(k) ==> #[trigger] after.common.banned(k)
        &&& match r {
                Ok(status) => {
                    let result = self.effective_work(provider_id, reported_usage);
                    let all = self.verification_map.received(subtask.id).push(result);
                    let results = delivered(all);
                    &&& reported_usage is Some ==> self.common.rated(provider_id)
                    &&& self.verification_map.awaits(subtask.id)
                    &&& forall|k: Id|
                        k != subtask.id ==> (#[trigger] after.verification_map.awaits(k)
                            <==> self.verification_map.awaits(k))
                    &&& forall|k: Id|
                        k != subtask.id && self.verification_map.awaits(k)
                            ==> #[trigger] after.verification_map.received(k) == self.verification_map.received(k)
                    &&& all.len() < REDUNDANCY_FACTOR ==> {
                        &&& status == Status::Pending
                        &&& after.common == self.common
                        &&& after.verification_map.awaits(subtask.id)
                        &&& after.verification_map.received(subtask.id) == all
                    }
                    &&& all.len() >= REDUNDANCY_FACTOR ==> {
                        &&& status == verdict(results)
                        &&& !after.verification_map.awaits(subtask.id)
                        &&& results.len() < REDUNDANCY_FACTOR ==> after.common == self.common
                        &&& results.len() == REDUNDANCY_FACTOR ==> {
                            let (hi, lo) = if results[0].1.raw > results[1].1.raw {
                                (results[0], results[1])
                            } else {
                                (results[1], results[0])
                            };
                            ratings_updated(
                                &self.common,
                                &after.common,
                                hi.0,
                                self.common.rating(hi.0).times_spec(adjustment(hi.1, lo.1)),
                                lo.0,
                                self.common.rating(lo.0).over_spec(adjustment(hi.1, lo.1)),
                            )
                        }
                    }
                },
                Err(e) => {
                    &&& *after == *self
                    &&& if reported_usage is Some && !self.common.rated(provider_id) {
                        e == SimulationError::RatingNotFound(
                            self.common.requestor_id,
                            provider_id,
                        )
                    } else {
                        !self.verification_map.awaits(subtask.id) && e
                            == SimulationError::VerificationForSubtaskNotFound(
                            self.common.requestor_id,
                            *subtask,
                        )
                    }
                },
            }
    }

    /// Records what `provider_id` reports for `subtask`. The subtask stays
    /// pending until two results are in; then it is cancelled where neither
    /// provider delivered, and done otherwise. Where both delivered, their
    /// ratings are adjusted, the provider with the higher effective work
    /// first.
    pub fn verify_subtask(
        &mut self,
        subtask: &SubTask,
        provider_id: Id,
        reported_usage: Option<Fixed>,
    ) -> (r: Result<Status, SimulationError>)
        requires
            old(self).wf(),
        ensures
            old(self).verified(final(self), subtask, provider_id, reported_usage, r),
    {
        let result: VerificationResult = match reported_usage {
            Some(usage) => match self.common.get_provider_rating(provider_id) {
                Some(rating) => Some((provider_id, usage.over(rating))),
                None => {
                    return Err(
                        SimulationError::RatingNotFound(self.common.requestor_id, provider_id),
                    );
                },
            },
            None => None,
        };
        if !self.verification_map.has_key(subtask.id) {
            return Err(
                SimulationError::VerificationForSubtaskNotFound(
                    self.common.requestor_id,
                    *subtask,
                ),
            );
        }
        let ghost all = self.verification_map.received(subtask.id).push(result);
        proof {
            old(self).verification_map.lemma_awaited_lacks_result(subtask.id);
            assert forall|j: int| 0 <= j < all.len() implies match #[trigger] all[j] {
                Some(pair) => self.common.rated(pair.0),
                None => true,
            } by {
                if j < all.len() - 1 {
                    let _ = old(self).verification_map.received(subtask.id)[j];
                }
            }
        }
        match self.verification_map.insert_verification(subtask.id, result) {
            None => {
                proof {
                    assert forall|key: Id, j: int|
                        self.verification_map.awaits(key) && 0 <= j
                            < self.verification_map.received(key).len() implies match #[trigger] self.verification_map.received(
                        key,
                    )[j] {
                        Some(pair) => self.common.rated(pair.0),
                        None => true,
                    } by {
                        if key != subtask.id {
                            assert(old(self).verification_map.awaits(key));
                            let _ = old(self).verification_map.received(key)[j];
                        } else {
                            let _ = all[j];
                        }
                    }
                }
                Ok(Status::Pending)
            },
            Some(results) => {
                proof {
                    lemma_delivered_len(all);
                    assert forall|key: Id, j: int|
                        self.verification_map.awaits(key) && 0 <= j
                            < self.verification_map.received(key).len() implies match #[trigger] self.verification_map.received(
                        key,
                    )[j] {
                        Some(pair) => self.common.rated(pair.0),
                        None => true,
                    } by {
                        assert(key != subtask.id);
                        assert(old(self).verification_map.awaits(key));
                        let _ = old(self).verification_map.received(key)[j];
                    }
                }
                if results.len() == 0 {
                    Ok(Status::Cancelled)
                } else {
                    if results.len() == REDUNDANCY_FACTOR {
                        proof {
                            lemma_delivered_from(all, 0);
                            lemma_delivered_from(all, 1);
                        }
                        let outcome = if results[0].1.raw > results[1].1.raw {
                            self.update_rating(results[0], results[1])
                        } else {
                            self.update_rating(results[1], results[0])
                        };
                        assert(outcome is Ok);
                    }
                    Ok(Status::Done)
                }
            },
        }
    }

    /// Nothing is left to do at the end of a task.
    pub fn complete_task(&mut self)
        ensures
            *final(self) == *old(self),
    {
    }
}

} // verus!
