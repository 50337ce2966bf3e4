//! Defence mechanisms: how a requestor ranks offers, hands out subtasks,
//! judges what providers report, and bans providers that overstate.

pub mod ctasks;
pub mod lgrola;
pub mod redundancy;

use vstd::prelude::*;
use crate::engine::{ascending, join, joined, lemma_joined, Scheduled};
use crate::error::SimulationError;
use crate::fixed::Fixed;
use crate::id::Id;
use crate::id_map::{distinct, index_of, keyed, lemma_entry_at, value_of, IdMap};
use crate::task::{Status, SubTask, Task, TaskView};
use crate::defence::ctasks::{CTasks, UsageMeans};
use crate::defence::lgrola::{LGRola, OutlierStatistics};
use crate::defence::redundancy::Redundancy;

verus! {

/// The rating from which a provider is banned for good, in raw units (2.0).
pub const MAX_RATING_RAW: u64 = 2_000_000_000;

/// How long a provider stays banned.
#[derive(Clone, Copy, Debug, PartialEq, Eq, Structural)]
pub enum BanDuration {
    /// For this many further completed tasks.
    Until(u64),
    /// For good.
    Indefinitely,
}

impl BanDuration {
    pub open spec fn is_expired_spec(self) -> bool {
        self == BanDuration::Until(0)
    }

    /// The duration one completed task later.
    pub open spec fn decremented(self) -> BanDuration {
        match self {
            BanDuration::Until(n) => if n > 0 {
                BanDuration::Until((n - 1) as u64)
            } else {
                BanDuration::Until(0)
            },
            BanDuration::Indefinitely => BanDuration::Indefinitely,
        }
    }

    /// Whether the ban is over.
    pub fn is_expired(&self) -> (r: bool)
        ensures
            r == self.is_expired_spec(),
    {
        match self {
            BanDuration::Until(n) => *n == 0,
            BanDuration::Indefinitely => false,
        }
    }

    /// Counts one completed task off a finite ban.
    pub fn decrement(&mut self)
        ensures
            *final(self) == old(self).decremented(),
    {
        match *self {
            BanDuration::Until(n) => {
                if n > 0 {
                    *self = BanDuration::Until(n - 1);
                }
            },
            BanDuration::Indefinitely => {},
        }
    }
}

/// An offer: the provider that makes it and the price that it asks per unit of usage.
pub type Offer = (Id, Fixed);

/// A subtask handed out: the provider, the subtask and the price agreed.
pub type Assignment = (Id, SubTask, Fixed);

/// The offers of providers that are not banned, in the order of `bids`.
pub open spec fn unbanned(bids: Seq<Offer>, blacklist: Seq<(Id, BanDuration)>) -> Seq<Offer>
    decreases bids.len(),
{
    if bids.len() == 0 {
        Seq::empty()
    } else if keyed(blacklist, bids.last().0) {
        unbanned(bids.drop_last(), blacklist)
    } else {
        unbanned(bids.drop_last(), blacklist).push(bids.last())
    }
}

/// No offer of a banned provider passes the filter, and nothing passes that
/// was not offered.
pub proof fn lemma_unbanned_sound(bids: Seq<Offer>, blacklist: Seq<(Id, BanDuration)>, k: int)
    requires
        0 <= k < unbanned(bids, blacklist).len(),
    ensures
        !keyed(blacklist, unbanned(bids, blacklist)[k].0),
        bids.contains(unbanned(bids, blacklist)[k]),
        unbanned(bids, blacklist).len() <= bids.len(),
    decreases bids.len(),
{
    if bids.len() > 0 {
        let rest = unbanned(bids.drop_last(), blacklist);
        if k < rest.len() {
            lemma_unbanned_sound(bids.drop_last(), blacklist, k);
            let j = choose|j: int| 0 <= j < bids.drop_last().len() && bids.drop_last()[j] == rest[k];
            assert(bids[j] == rest[k]);
        } else {
            assert(bids[bids.len() - 1] == bids.last());
        }
        lemma_unbanned_len(bids.drop_last(), blacklist);
    }
}

/// The filter lets no more through than was offered.
pub proof fn lemma_unbanned_len(bids: Seq<Offer>, blacklist: Seq<(Id, BanDuration)>)
    ensures
        unbanned(bids, blacklist).len() <= bids.len(),
    decreases bids.len(),
{
    if bids.len() > 0 {
        lemma_unbanned_len(bids.drop_last(), blacklist);
    }
}

/// Every offer of a provider that is not banned passes the filter.
pub proof fn lemma_unbanned_complete(bids: Seq<Offer>, blacklist: Seq<(Id, BanDuration)>, i: int)
    requires
        0 <= i < bids.len(),
        !keyed(blacklist, bids[i].0),
    ensures
        unbanned(bids, blacklist).contains(bids[i]),
    decreases bids.len(),
{
    let rest = unbanned(bids.drop_last(), blacklist);
    if i == bids.len() - 1 {
        assert(unbanned(bids, blacklist)[rest.len() as int] == bids[i]);
    } else {
        lemma_unbanned_complete(bids.drop_last(), blacklist, i);
        let j = choose|j: int| 0 <= j < rest.len() && rest[j] == bids.drop_last()[i];
        assert(unbanned(bids, blacklist)[j] == bids[i]);
    }
}

/// The effective price of an offer: the price asked times the rating of the
/// provider that asks it.
pub open spec fn effective_price(bid: Offer, ratings: Seq<(Id, Fixed)>) -> Fixed {
    bid.1.times_spec(value_of(ratings, bid.0))
}

/// The offers in ascending order of effective price, each with that price;
/// offers of equal effective price keep the order in which they came.
pub open spec fn ranked(bids: Seq<Offer>, ratings: Seq<(Id, Fixed)>) -> Seq<Scheduled<Offer>>
    decreases bids.len(),
{
    if bids.len() == 0 {
        Seq::empty()
    } else {
        joined(
            ranked(bids.drop_last(), ratings),
            Scheduled { time: effective_price(bids.last(), ratings), event: bids.last() },
        )
    }
}

/// The offers of `priced`, without their prices.
pub open spec fn offers_of(priced: Seq<Scheduled<Offer>>) -> Seq<Offer> {
    priced.map_values(|s: Scheduled<Offer>| s.event)
}

/// Ranking keeps every offer and puts them in ascending order of its
/// effective price.
pub proof fn lemma_ranked(bids: Seq<Offer>, ratings: Seq<(Id, Fixed)>)
    ensures
        ascending(ranked(bids, ratings)),
        ranked(bids, ratings).len() == bids.len(),
        forall|k: int|
            0 <= k < bids.len() ==> (#[trigger] ranked(bids, ratings)[k]).time == effective_price(
                ranked(bids, ratings)[k].event,
                ratings,
            ),
        forall|k: int|
            0 <= k < bids.len() ==> bids.contains((#[trigger] ranked(bids, ratings)[k]).event),
    decreases bids.len(),
{
    if bids.len() > 0 {
        let rest = ranked(bids.drop_last(), ratings);
        lemma_ranked(bids.drop_last(), ratings);
        let item = Scheduled { time: effective_price(bids.last(), ratings), event: bids.last() };
        lemma_joined(rest, item, Fixed { raw: 0 });
        let r = ranked(bids, ratings);
        let i = crate::engine::slot(rest, item.time);
        assert forall|k: int| 0 <= k < bids.len() implies (#[trigger] r[k]).time == effective_price(
            r[k].event,
            ratings,
        ) && bids.contains(r[k].event) by {
            if k < i {
                assert(r[k] == rest[k]);
                let j = choose|j: int|
                    0 <= j < bids.drop_last().len() && bids.drop_last()[j] == rest[k].event;
                assert(bids[j] == r[k].event);
            } else if k == i {
                assert(bids[bids.len() - 1] == r[k].event);
            } else {
                assert(r[k] == rest[k - 1]);
                let j = choose|j: int|
                    0 <= j < bids.drop_last().len() && bids.drop_last()[j] == rest[k - 1].event;
                assert(bids[j] == r[k].event);
            }
        }
    }
}

/// Every provider that makes an offer has a rating.
pub open spec fn all_rated(bids: Seq<Offer>, ratings: Seq<(Id, Fixed)>) -> bool {
    forall|i: int| 0 <= i < bids.len() ==> keyed(ratings, (#[trigger] bids[i]).0)
}

/// `k` is the first offer whose provider has no rating.
pub open spec fn first_unrated(bids: Seq<Offer>, ratings: Seq<(Id, Fixed)>, k: int) -> bool {
    &&& 0 <= k < bids.len()
    &&& !keyed(ratings, bids[k].0)
    &&& forall|j: int| 0 <= j < k ==> keyed(ratings, (#[trigger] bids[j]).0)
}

/// The state that every defence mechanism keeps.
#[derive(Debug)]
pub struct DefenceMechanismCommon {
    pub requestor_id: Id,
    /// The requestor's estimate of each provider's usage factor.
    pub ratings: IdMap<Fixed>,
    /// The providers that are banned, and for how long.
    pub blacklisted_set: IdMap<BanDuration>,
}

impl DefenceMechanismCommon {
    pub open spec fn wf(&self) -> bool {
        self.ratings.wf() && self.blacklisted_set.wf()
    }

    pub open spec fn rated(&self, id: Id) -> bool {
        self.ratings.contains(id)
    }

    pub open spec fn rating(&self, id: Id) -> Fixed {
        self.ratings.value(id)
    }

    pub open spec fn banned(&self, id: Id) -> bool {
        self.blacklisted_set.contains(id)
    }

    pub open spec fn ban(&self, id: Id) -> BanDuration {
        self.blacklisted_set.value(id)
    }

    /// The state in which `provider_id` has the rating `rating` and, where
    /// `banish` holds, is banned for good.
    pub open spec fn rating_assigned(
        &self,
        after: &DefenceMechanismCommon,
        provider_id: Id,
        rating: Fixed,
        banish: bool,
    ) -> bool {
        &&& after.wf()
        &&& after.requestor_id == self.requestor_id
        &&& after.ratings.entries@ == self.ratings.entries@.update(
            index_of(self.ratings.entries@, provider_id),
            (provider_id, rating),
        )
        &&& forall|k: Id| #[trigger] after.rated(k) <==> self.rated(k)
        &&& forall|k: Id|
            self.rated(k) ==> #[trigger] after.rating(k) == if k == provider_id {
                rating
            } else {
                self.rating(k)
            }
        &&& forall|k: Id| #[trigger]
            after.banned(k) <==> (self.banned(k) || (banish && k == provider_id))
        &&& forall|k: Id|
            self.banned(k) && !(banish && k == provider_id) ==> #[trigger] after.ban(k) == self.ban(
                k,
            )
        &&& banish ==> after.ban(provider_id) == BanDuration::Indefinitely
        &&& !banish ==> after.blacklisted_set.entries@ == self.blacklisted_set.entries@
    }

    pub fn new(requestor_id: Id) -> (r: DefenceMechanismCommon)
        ensures
            r.wf(),
            r.requestor_id == requestor_id,
            r.ratings.entries@.len() == 0,
            r.blacklisted_set.entries@.len() == 0,
            forall|id: Id| !r.rated(id) && !r.banned(id),
    {
        DefenceMechanismCommon {
            requestor_id,
            ratings: IdMap::new(),
            blacklisted_set: IdMap::new(),
        }
    }

    /// What installing a rating does.
    pub open spec fn rating_installed(
        &self,
        after: &DefenceMechanismCommon,
        provider_id: Id,
        reported_usage: Fixed,
    ) -> bool {
        &&& after.wf()
        &&& after.requestor_id == self.requestor_id
        &&& after.blacklisted_set == self.blacklisted_set
        &&& after.rating(provider_id) == reported_usage
        &&& forall|k: Id| #[trigger] after.rated(k) <==> (k == provider_id || self.rated(k))
        &&& forall|k: Id|
                k != provider_id && self.rated(k) ==> #[trigger] after.rating(k) == self.rating(k)
        &&& self.rated(provider_id) ==> after.ratings.entries@ == self.ratings.entries@.update(
                index_of(self.ratings.entries@, provider_id),
                (provider_id, reported_usage),
            )
        &&& !self.rated(provider_id) ==> after.ratings.entries@ == self.ratings.entries@.push((provider_id, reported_usage))
    }

    /// Installs `reported_usage` as the rating of `provider_id`, in place of
    /// the rating that the provider had, if any.
    pub fn insert_provider_rating(&mut self, provider_id: Id, reported_usage: Fixed)
        requires
            old(self).wf(),
        ensures
            old(self).rating_installed(final(self), provider_id, reported_usage),
    {
        let _ = self.ratings.insert(provider_id, reported_usage);
    }

    /// The rating of `provider_id`.
    pub fn get_provider_rating(&self, provider_id: Id) -> (r: Option<Fixed>)
        requires
            self.wf(),
        ensures
            match r {
                Some(rating) => self.rated(provider_id) && rating == self.rating(provider_id),
                None => !self.rated(provider_id),
            },
    {
        match self.ratings.get(provider_id) {
            Some(rating) => Some(*rating),
            None => None,
        }
    }

    /// Whether `provider_id` is banned.
    pub fn is_blacklisted(&self, provider_id: Id) -> (r: bool)
        ensures
            r == self.banned(provider_id),
    {
        self.blacklisted_set.contains_key(provider_id)
    }

    /// Gives `provider_id` the rating `rating` and, where `banish` holds,
    /// bans it for good.
    pub fn assign_rating(&mut self, provider_id: Id, rating: Fixed, banish: bool) -> (r: Result<
        (),
        SimulationError,
    >)
        requires
            old(self).wf(),
        ensures
            match r {
                Ok(()) => old(self).rated(provider_id) && old(self).rating_assigned(
                    final(self),
                    provider_id,
                    rating,
                    banish,
                ),
                Err(e) => !old(self).rated(provider_id) && *final(self) == *old(self) && e
                    == SimulationError::RatingNotFound(old(self).requestor_id, provider_id),
            },
    {
        if !self.ratings.contains_key(provider_id) {
            return Err(SimulationError::RatingNotFound(self.requestor_id, provider_id));
        }
        let _ = self.ratings.insert(provider_id, rating);
        if banish {
            let _ = self.blacklisted_set.insert(provider_id, BanDuration::Indefinitely);
        }
        Ok(())
    }

    /// Gives `provider_id` the rating `new_rating`. A provider whose rating
    /// reaches 2.0 is banned for good.
    pub fn update_provider_rating(&mut self, provider_id: Id, new_rating: Fixed) -> (r: Result<
        (),
        SimulationError,
    >)
        requires
            old(self).wf(),
        ensures
            match r {
                Ok(()) => old(self).rated(provider_id) && old(self).rating_assigned(
                    final(self),
                    provider_id,
                    new_rating,
                    new_rating.raw >= MAX_RATING_RAW,
                ),
                Err(e) => !old(self).rated(provider_id) && *final(self) == *old(self) && e
                    == SimulationError::RatingNotFound(old(self).requestor_id, provider_id),
            },
            r is Ok && new_rating.raw >= MAX_RATING_RAW ==> final(self).banned(provider_id),
    {
        self.assign_rating(provider_id, new_rating, new_rating.raw >= MAX_RATING_RAW)
    }

    /// The offers of providers that are not banned, in the order of `bids`.
    pub fn filter_offers(&self, bids: Vec<Offer>) -> (r: Vec<Offer>)
        ensures
            r@ == unbanned(bids@, self.blacklisted_set.entries@),
            forall|k: int| 0 <= k < r@.len() ==> !self.banned((#[trigger] r@[k]).0),
    {
        let mut out: Vec<Offer> = Vec::new();
        let n: usize = bids.len();
        let mut i: usize = 0;
        while i < n
            invariant
                n == bids@.len(),
                0 <= i <= n,
                out@ == unbanned(bids@.subrange(0, i as int), self.blacklisted_set.entries@),
            decreases n - i,
        {
            proof {
                assert(bids@.subrange(0, i + 1).drop_last() =~= bids@.subrange(0, i as int));
            }
            let bid = bids[i];
            if !self.blacklisted_set.contains_key(bid.0) {
                out.push(bid);
            }
            i = i + 1;
        }
        proof {
            assert(bids@.subrange(0, n as int) =~= bids@);
            assert forall|k: int| 0 <= k < out@.len() implies !self.banned((#[trigger] out@[k]).0) by {
                lemma_unbanned_sound(bids@, self.blacklisted_set.entries@, k);
            }
        }
        out
    }

    /// The offers in ascending order of effective price; offers of equal
    /// effective price keep their order. Fails on the first offer of a
    /// provider without a rating.
    pub fn rank_offers(&self, bids: Vec<Offer>) -> (r: Result<Vec<Offer>, SimulationError>)
        requires
            self.wf(),
        ensures
            match r {
                Ok(sorted) => {
                    &&& all_rated(bids@, self.ratings.entries@)
                    &&& sorted@ == offers_of(ranked(bids@, self.ratings.entries@))
                },
                Err(e) => exists|k: int|
                    first_unrated(bids@, self.ratings.entries@, k) && e
                        == SimulationError::RatingNotFound(self.requestor_id, #[trigger] bids@[k].0),
            },
    {
        let mut priced: Vec<Scheduled<Offer>> = Vec::new();
        let n: usize = bids.len();
        let mut i: usize = 0;
        while i < n
            invariant
                self.wf(),
                n == bids@.len(),
                0 <= i <= n,
                priced@ == ranked(bids@.subrange(0, i as int), self.ratings.entries@),
                forall|j: int| 0 <= j < i ==> keyed(self.ratings.entries@, (#[trigger] bids@[j]).0),
            decreases n - i,
        {
            proof {
                assert(bids@.subrange(0, i + 1).drop_last() =~= bids@.subrange(0, i as int));
                lemma_ranked(bids@.subrange(0, i as int), self.ratings.entries@);
            }
            let bid = bids[i];
            match self.ratings.get(bid.0) {
                None => {
                    proof {
                        assert(first_unrated(bids@, self.ratings.entries@, i as int));
                    }
                    return Err(SimulationError::RatingNotFound(self.requestor_id, bid.0));
                },
                Some(rating) => {
                    let price = bid.1.times(*rating);
                    join(&mut priced, Scheduled { time: price, event: bid });
                },
            }
            i = i + 1;
        }
        proof {
            assert(bids@.subrange(0, n as int) =~= bids@);
        }
        let mut out: Vec<Offer> = Vec::new();
        let m: usize = priced.len();
        let mut k: usize = 0;
        while k < m
            invariant
                m == priced@.len(),
                0 <= k <= m,
                out@.len() == k,
                forall|j: int| 0 <= j < k ==> out@[j] == (#[trigger] priced@[j]).event,
            decreases m - k,
        {
            out.push(priced[k].event);
            k = k + 1;
        }
        assert(out@ =~= offers_of(priced@));
        Ok(out)
    }
}

/// The first `count` subtasks of `pending`, one to each of the first `count`
/// offers.
pub open spec fn dealt(offers: Seq<Offer>, pending: Seq<SubTask>, count: int) -> Seq<Assignment> {
    Seq::new(count as nat, |i: int| (offers[i].0, pending[i], offers[i].1))
}

/// The smaller of two numbers.
pub open spec fn least(a: int, b: int) -> int {
    if a < b {
        a
    } else {
        b
    }
}

/// What handing out subtasks in turn does to the task, and what it returns.
pub open spec fn assigned_in_turn(
    common: &DefenceMechanismCommon,
    task: &Task,
    task_after: &Task,
    bids: Seq<Offer>,
    r: Result<Vec<Assignment>, SimulationError>,
) -> bool {
    &&& task_after.wf()
    &&& match r {
            Ok(messages) => {
                let open_bids = unbanned(bids, common.blacklisted_set.entries@);
                let offers = offers_of(ranked(open_bids, common.ratings.entries@));
                let count = least(offers.len() as int, task@.pending.len() as int);
                &&& all_rated(open_bids, common.ratings.entries@)
                &&& messages@ == dealt(offers, task@.pending, count)
                &&& task_after@ == (TaskView {
                    in_flight: (task@.in_flight + count) as nat,
                    pending: task@.pending.subrange(count, task@.pending.len() as int),
                    ..task@
                })
            },
            Err(e) => {
                &&& *task_after == *task
                &&& exists|k: int|
                    first_unrated(
                        unbanned(bids, common.blacklisted_set.entries@),
                        common.ratings.entries@,
                        k,
                    ) && e == SimulationError::RatingNotFound(
                        common.requestor_id,
                        #[trigger] unbanned(bids, common.blacklisted_set.entries@)[k].0,
                    )
            },
        }
}

/// Hands out waiting subtasks of `task`, one to each provider in the ranking
/// of the offers that pass the filter, for as long as there are both.
pub fn assign_in_turn(common: &DefenceMechanismCommon, task: &mut Task, bids: Vec<Offer>) -> (r:
    Result<Vec<Assignment>, SimulationError>)
    requires
        common.wf(),
        old(task).wf(),
    ensures
        assigned_in_turn(common, old(task), final(task), bids@, r),
{
    let open_bids = common.filter_offers(bids);
    let offers = match common.rank_offers(open_bids) {
        Ok(offers) => offers,
        Err(e) => {
            return Err(e);
        },
    };
    let available: usize = task.pending_len();
    let count: usize = if offers.len() < available {
        offers.len()
    } else {
        available
    };
    let ghost pending = task@.pending;
    let mut messages: Vec<Assignment> = Vec::new();
    let mut c: usize = 0;
    assert(pending.subrange(0, pending.len() as int) =~= pending);
    assert(messages@ =~= dealt(offers@, pending, 0));
    while c < count
        invariant
            task.wf(),
            pending == old(task)@.pending,
            count <= pending.len(),
            count <= offers@.len(),
            0 <= c <= count,
            task@ == (TaskView {
                in_flight: (old(task)@.in_flight + c) as nat,
                pending: pending.subrange(c as int, pending.len() as int),
                ..old(task)@
            }),
            messages@ == dealt(offers@, pending, c as int),
        decreases count - c,
    {
        let subtask = match task.pop_pending() {
            Some(subtask) => subtask,
            None => {
                proof {
                    assert(false);
                }
                return Ok(messages);
            },
        };
        assert(subtask == pending[c as int]);
        let offer = offers[c];
        messages.push((offer.0, subtask, offer.1));
        proof {
            assert(task@.pending =~= pending.subrange(c + 1, pending.len() as int));
            assert(messages@ =~= dealt(offers@, pending, c + 1));
        }
        c = c + 1;
    }
    Ok(messages)
}

/// The providers of ranked offers are providers of the offers ranked.
pub proof fn lemma_ranked_from(bids: Seq<Offer>, ratings: Seq<(Id, Fixed)>, k: int)
    requires
        0 <= k < offers_of(ranked(bids, ratings)).len(),
    ensures
        bids.contains(offers_of(ranked(bids, ratings))[k]),
{
    lemma_ranked(bids, ratings);
    let _ = ranked(bids, ratings)[k];
}

/// A banned provider gets no subtask: whatever is handed out in turn goes
/// to providers that are not banned.
pub proof fn lemma_banned_gets_nothing(
    common: &DefenceMechanismCommon,
    task: &Task,
    task_after: &Task,
    bids: Seq<Offer>,
    messages: Vec<Assignment>,
    i: int,
)
    requires
        assigned_in_turn(common, task, task_after, bids, Ok(messages)),
        0 <= i < messages@.len(),
    ensures
        !common.banned(messages@[i].0),
{
    let open_bids = unbanned(bids, common.blacklisted_set.entries@);
    let offers = offers_of(ranked(open_bids, common.ratings.entries@));
    lemma_ranked(open_bids, common.ratings.entries@);
    lemma_ranked_from(open_bids, common.ratings.entries@, i);
    let k = choose|k: int| 0 <= k < open_bids.len() && open_bids[k] == offers[i];
    lemma_unbanned_sound(bids, common.blacklisted_set.entries@, k);
}

/// The usages recorded, by provider, with the lists as sequences.
pub open spec fn usage_view(entries: Seq<(Id, Vec<Fixed>)>) -> Seq<(Id, Seq<Fixed>)> {
    entries.map_values(|e: (Id, Vec<Fixed>)| (e.0, e.1@))
}

/// The records once `usage` has been recorded for `provider_id`: at the end
/// of the provider's list, or in a new list behind the others.
pub open spec fn recorded(records: Seq<(Id, Seq<Fixed>)>, provider_id: Id, usage: Fixed) -> Seq<
    (Id, Seq<Fixed>),
> {
    if keyed(records, provider_id) {
        records.update(
            index_of(records, provider_id),
            (provider_id, value_of(records, provider_id).push(usage)),
        )
    } else {
        records.push((provider_id, seq![usage]))
    }
}

/// The records and their view have the same keys at the same places.
pub proof fn lemma_usage_view(entries: Seq<(Id, Vec<Fixed>)>)
    ensures
        usage_view(entries).len() == entries.len(),
        distinct(entries) <==> distinct(usage_view(entries)),
        forall|id: Id| #[trigger] keyed(usage_view(entries), id) <==> keyed(entries, id),
{
    let view = usage_view(entries);
    assert forall|id: Id| #[trigger] keyed(view, id) <==> keyed(entries, id) by {
        if keyed(view, id) {
            let i = index_of(view, id);
            assert(entries[i].0 == id);
        }
        if keyed(entries, id) {
            let i = index_of(entries, id);
            assert(view[i].0 == id);
        }
    }
    if distinct(entries) {
        assert forall|i: int, j: int| 0 <= i < j < view.len() implies (#[trigger] view[i]).0 != (
        #[trigger] view[j]).0 by {
            assert(entries[i].0 != entries[j].0);
        }
    }
    if distinct(view) {
        assert forall|i: int, j: int| 0 <= i < j < entries.len() implies (
        #[trigger] entries[i]).0 != (#[trigger] entries[j]).0 by {
            assert(view[i].0 != view[j].0);
        }
    }
}

/// Records `usage` for `provider_id`.
pub fn record_usage(usages: &mut IdMap<Vec<Fixed>>, provider_id: Id, usage: Fixed)
    requires
        old(usages).wf(),
    ensures
        final(usages).wf(),
        usage_view(final(usages).entries@) == recorded(
            usage_view(old(usages).entries@),
            provider_id,
            usage,
        ),
{
    proof {
        lemma_usage_view(usages.entries@);
    }
    match usages.position(provider_id) {
        Some(i) => {
            usages.entries[i].1.push(usage);
            proof {
                let before = old(usages).entries@;
                let after = usages.entries@;
                assert forall|a: int, b: int| 0 <= a < b < after.len() implies (
                #[trigger] after[a]).0 != (#[trigger] after[b]).0 by {
                    assert(after[a].0 == before[a].0 && after[b].0 == before[b].0);
                }
                lemma_entry_at(usage_view(before), i as int);
                assert(usage_view(after) =~= recorded(usage_view(before), provider_id, usage));
            }
        },
        None => {
            let mut list: Vec<Fixed> = Vec::new();
            list.push(usage);
            proof {
                crate::id_map::lemma_pushed(usages.entries@, provider_id, list);
                assert(list@ =~= seq![usage]);
            }
            usages.entries.push((provider_id, list));
            proof {
                assert(usage_view(usages.entries@) =~= recorded(
                    usage_view(old(usages).entries@),
                    provider_id,
                    usage,
                ));
            }
        },
    }
}

/// The kinds of defence mechanism.
#[derive(Clone, Copy, Debug, PartialEq, Eq, Structural)]
pub enum DefenceMechanismType {
    LGRola,
    CTasks,
    Redundancy,
}

impl DefenceMechanismType {
    /// A defence mechanism of this kind for the requestor `requestor_id`,
    /// without ratings or bans.
    pub fn into_dm(self, requestor_id: Id) -> (r: DefenceMechanism)
        ensures
            r.wf(),
            r.kind() == self,
            r.common().requestor_id == requestor_id,
            r.blank(),
            
    {
        match self {
            DefenceMechanismType::CTasks => DefenceMechanism::CTasks(CTasks::new(requestor_id)),
            DefenceMechanismType::Redundancy => DefenceMechanism::Redundancy(
                Redundancy::new(requestor_id),
            ),
            DefenceMechanismType::LGRola => DefenceMechanism::LGRola(LGRola::new(requestor_id)),
        }
    }
}

/// What a defence needs from its caller at the end of a task.
#[derive(Debug)]
pub enum TaskStatistics {
    /// Nothing: the defence keeps no usages.
    NotNeeded,
    /// The means of the usages recorded, for CTasks.
    Means(UsageMeans),
    /// The means and quartiles of the usages recorded, for LGRola.
    Outliers(OutlierStatistics),
}

/// Which statistics a defence is due, and for how many providers.
#[derive(Clone, Copy, Debug, PartialEq, Eq, Structural)]
pub enum StatisticsDue {
    NotNeeded,
    /// Means of the usages of this many providers.
    Means(usize),
    /// Means, quartiles and ban lengths for this many providers.
    Outliers(usize),
}

/// A defence mechanism.
#[derive(Debug)]
pub enum DefenceMechanism {
    Redundancy(Redundancy),
    CTasks(CTasks),
    LGRola(LGRola),
}

impl DefenceMechanism {
    pub open spec fn wf(&self) -> bool {
        match self {
            DefenceMechanism::Redundancy(m) => m.wf(),
            DefenceMechanism::CTasks(m) => m.wf(),
            DefenceMechanism::LGRola(m) => m.wf(),
        }
    }

    pub open spec fn kind(&self) -> DefenceMechanismType {
        match self {
            DefenceMechanism::Redundancy(_) => DefenceMechanismType::Redundancy,
            DefenceMechanism::CTasks(_) => DefenceMechanismType::CTasks,
            DefenceMechanism::LGRola(_) => DefenceMechanismType::LGRola,
        }
    }

    /// The defence holds nothing yet: no rating, no ban, no result, no
    /// usage, no collision.
    pub open spec fn blank(&self) -> bool {
        &&& self.common().ratings.entries@.len() == 0
        &&& self.common().blacklisted_set.entries@.len() == 0
        &&& forall|id: Id| !self.common().rated(id) && !self.common().banned(id)
        &&& match self {
            DefenceMechanism::Redundancy(m) => forall|key: Id| !m.verification_map.awaits(key),
            DefenceMechanism::CTasks(m) => m.task_usages.entries@.len() == 0,
            DefenceMechanism::LGRola(m) => m.task_usages.entries@.len() == 0
                && m.collisions.entries@.len() == 0,
        }
    }

    /// The ratings and bans.
    pub open spec fn common(&self) -> DefenceMechanismCommon {
        match self {
            DefenceMechanism::Redundancy(m) => m.common,
            DefenceMechanism::CTasks(m) => m.common,
            DefenceMechanism::LGRola(m) => m.common,
        }
    }

    /// The statistics that the end of a task must be given.
    pub open spec fn statistics_due(&self) -> StatisticsDue {
        match self {
            DefenceMechanism::Redundancy(_) => StatisticsDue::NotNeeded,
            DefenceMechanism::CTasks(m) => StatisticsDue::Means(m.task_usages.entries@.len() as usize),
            DefenceMechanism::LGRola(m) => StatisticsDue::Outliers(
                m.task_usages.entries@.len() as usize,
            ),
        }
    }

    /// Whether `stats` are the statistics that the end of a task must be given.
    pub open spec fn accepts(&self, stats: &TaskStatistics) -> bool {
        match (self, stats) {
            (DefenceMechanism::Redundancy(_), _) => true,
            (DefenceMechanism::CTasks(m), TaskStatistics::Means(means)) => means.per_provider@.len()
                == m.task_usages.entries@.len(),
            (DefenceMechanism::LGRola(m), TaskStatistics::Outliers(stats)) => stats.per_provider@.len()
                == m.task_usages.entries@.len() && stats.ban_lengths@.len()
                == m.task_usages.entries@.len(),
            _ => false,
        }
    }

    /// The two differ in their ratings at most.
    pub open spec fn same_but_ratings(&self, after: &DefenceMechanism) -> bool {
        &&& after.common().requestor_id == self.common().requestor_id
        &&& after.common().blacklisted_set == self.common().blacklisted_set
        &&& match (self, after) {
            (DefenceMechanism::Redundancy(a), DefenceMechanism::Redundancy(b)) => a.verification_map
                == b.verification_map,
            (DefenceMechanism::CTasks(a), DefenceMechanism::CTasks(b)) => a.task_usages
                == b.task_usages,
            (DefenceMechanism::LGRola(a), DefenceMechanism::LGRola(b)) => a.task_usages
                == b.task_usages && a.collisions == b.collisions,
            _ => false,
        }
    }

    /// What installing a rating does: to the ratings what it does in the
    /// common state, and nothing to the rest.
    pub open spec fn rating_installed(
        &self,
        after: &DefenceMechanism,
        provider_id: Id,
        reported_usage: Fixed,
    ) -> bool {
        &&& after.wf()
        &&& self.common().rating_installed(&after.common(), provider_id, reported_usage)
        &&& match (self, after) {
            (DefenceMechanism::Redundancy(a), DefenceMechanism::Redundancy(b)) => a.verification_map
                == b.verification_map,
            (DefenceMechanism::CTasks(a), DefenceMechanism::CTasks(b)) => a.task_usages
                == b.task_usages,
            (DefenceMechanism::LGRola(a), DefenceMechanism::LGRola(b)) => a.task_usages
                == b.task_usages && a.collisions == b.collisions,
            _ => false,
        }
    }

    /// What handing out subtasks does.
    pub open spec fn assigned(
        &self,
        after: &DefenceMechanism,
        task: &Task,
        task_after: &Task,
        bids: Seq<Offer>,
        r: Result<Vec<Assignment>, SimulationError>,
    ) -> bool {
        &&& after.wf()
        &&& task_after.wf()
        &&& after.common() == self.common()
        &&& match (self, after) {
            (DefenceMechanism::Redundancy(a), DefenceMechanism::Redundancy(b)) => a.assigned(
                b,
                task,
                task_after,
                bids,
                r,
            ),
            (DefenceMechanism::CTasks(a), DefenceMechanism::CTasks(b)) => a == b
                && assigned_in_turn(&a.common, task, task_after, bids, r),
            (DefenceMechanism::LGRola(a), DefenceMechanism::LGRola(b)) => a == b
                && assigned_in_turn(&a.common, task, task_after, bids, r),
            _ => false,
        }
    }

    /// Whatever is handed out goes to a provider that made one of the
    /// offers and is not banned.
    pub proof fn lemma_assigned_from_bids(
        &self,
        after: &DefenceMechanism,
        task: &Task,
        task_after: &Task,
        bids: Seq<Offer>,
        messages: Vec<Assignment>,
        i: int,
    )
        requires
            self.assigned(after, task, task_after, bids, Ok(messages)),
            0 <= i < messages@.len(),
        ensures
            exists|k: int| 0 <= k < bids.len() && (#[trigger] bids[k]).0 == messages@[i].0,
            !self.common().banned(messages@[i].0),
    {
        let common = self.common();
        let open_bids = unbanned(bids, common.blacklisted_set.entries@);
        let offers = offers_of(ranked(open_bids, common.ratings.entries@));
        lemma_ranked(open_bids, common.ratings.entries@);
        assert(offers[i].0 == messages@[i].0);
        lemma_ranked_from(open_bids, common.ratings.entries@, i);
        let j = choose|j: int| 0 <= j < open_bids.len() && open_bids[j] == offers[i];
        lemma_unbanned_sound(bids, common.blacklisted_set.entries@, j);
        let k = choose|k: int| 0 <= k < bids.len() && bids[k] == open_bids[j];
        assert(bids[k].0 == messages@[i].0);
    }

    /// No rating is lost when a report is recorded.
    pub proof fn lemma_verified_keeps_ratings(
        &self,
        after: &DefenceMechanism,
        subtask: &SubTask,
        provider_id: Id,
        reported_usage: Option<Fixed>,
        r: Result<Status, SimulationError>,
        k: Id,
    )
        requires
            self.common().rated(k),
            self.verified(after, subtask, provider_id, reported_usage, r),
        ensures
            after.common().rated(k),
    {
    }

    /// No rating is lost when subtasks are handed out.
    pub proof fn lemma_assigned_keeps_ratings(
        &self,
        after: &DefenceMechanism,
        task: &Task,
        task_after: &Task,
        bids: Seq<Offer>,
        r: Result<Vec<Assignment>, SimulationError>,
        k: Id,
    )
        requires
            self.common().rated(k),
            self.assigned(after, task, task_after, bids, r),
        ensures
            after.common().rated(k),
    {
    }

    /// No rating is lost when a task ends.
    pub proof fn lemma_completed_keeps_ratings(
        &self,
        after: &DefenceMechanism,
        stats: &TaskStatistics,
        r: Result<(), SimulationError>,
        k: Id,
    )
        requires
            self.common().rated(k),
            self.completed(after, stats, r),
        ensures
            after.common().rated(k),
    {
    }

    /// What recording a report does.
    pub open spec fn verified(
        &self,
        after: &DefenceMechanism,
        subtask: &SubTask,
        provider_id: Id,
        reported_usage: Option<Fixed>,
        r: Result<Status, SimulationError>,
    ) -> bool {
        &&& after.wf()
        &&& after.common().requestor_id == self.common().requestor_id
        &&& match (self, after) {
            (DefenceMechanism::Redundancy(a), DefenceMechanism::Redundancy(b)) => a.verified(
                b,
                subtask,
                provider_id,
                reported_usage,
                r,
            ),
            (DefenceMechanism::CTasks(a), DefenceMechanism::CTasks(b)) => match r {
                Ok(status) => a.verified(b, provider_id, reported_usage, status),
                Err(_) => false,
            },
            (DefenceMechanism::LGRola(a), DefenceMechanism::LGRola(b)) => match r {
                Ok(status) => a.verified(b, provider_id, reported_usage, status),
                Err(_) => false,
            },
            _ => false,
        }
    }

    /// What the end of a task does.
    pub open spec fn completed(
        &self,
        after: &DefenceMechanism,
        stats: &TaskStatistics,
        r: Result<(), SimulationError>,
    ) -> bool {
        match (self, after) {
            (DefenceMechanism::Redundancy(a), DefenceMechanism::Redundancy(b)) => a == b && r is Ok,
            (DefenceMechanism::CTasks(a), DefenceMechanism::CTasks(b)) => match stats {
                TaskStatistics::Means(means) => a.completed(b, means, r),
                _ => false,
            },
            (DefenceMechanism::LGRola(a), DefenceMechanism::LGRola(b)) => match stats {
                TaskStatistics::Outliers(stats) => a.completed(b, stats) && r is Ok,
                _ => false,
            },
            _ => false,
        }
    }

    /// The ratings and bans.
    pub fn as_dm_common(&self) -> (r: &DefenceMechanismCommon)
        ensures
            *r == self.common(),
    {
        match self {
            DefenceMechanism::Redundancy(m) => &m.common,
            DefenceMechanism::CTasks(m) => &m.common,
            DefenceMechanism::LGRola(m) => &m.common,
        }
    }

    /// Which statistics the end of a task must be given.
    pub fn due(&self) -> (r: StatisticsDue)
        ensures
            r == self.statistics_due(),
    {
        match self {
            DefenceMechanism::Redundancy(_) => StatisticsDue::NotNeeded,
            DefenceMechanism::CTasks(m) => StatisticsDue::Means(m.task_usages.len()),
            DefenceMechanism::LGRola(m) => StatisticsDue::Outliers(m.task_usages.len()),
        }
    }

    /// Installs `reported_usage` as the rating of `provider_id`.
    pub fn insert_provider_rating(&mut self, provider_id: Id, reported_usage: Fixed)
        requires
            old(self).wf(),
        ensures
            old(self).rating_installed(final(self), provider_id, reported_usage),
    {
        match self {
            DefenceMechanism::Redundancy(m) => {
                m.common.insert_provider_rating(provider_id, reported_usage);
                proof {
                    assert forall|key: Id, j: int|
                        m.verification_map.awaits(key) && 0 <= j < m.verification_map.received(
                            key,
                        ).len() implies match #[trigger] m.verification_map.received(key)[j] {
                        Some(pair) => m.common.rated(pair.0),
                        None => true,
                    } by {
                        match m.verification_map.received(key)[j] {
                            Some(pair) => {
                                assert(m.common.rated(pair.0) <==> (pair.0 == provider_id || old(self).common().rated(pair.0)));
                            },
                            None => {},
                        }
                    }
                }
            },
            DefenceMechanism::CTasks(m) => {
                m.common.insert_provider_rating(provider_id, reported_usage);
            },
            DefenceMechanism::LGRola(m) => {
                m.common.insert_provider_rating(provider_id, reported_usage);
            },
        }
    }

    /// Hands out waiting subtasks of `task` to the providers that made `bids`.
    pub fn assign_subtasks(&mut self, task: &mut Task, bids: Vec<Offer>) -> (r: Result<
        Vec<Assignment>,
        SimulationError,
    >)
        requires
            old(self).wf(),
            old(task).wf(),
        ensures
            old(self).assigned(final(self), old(task), final(task), bids@, r),
    {
        match self {
            DefenceMechanism::Redundancy(m) => m.assign_subtasks(task, bids),
            DefenceMechanism::CTasks(m) => m.assign_subtasks(task, bids),
            DefenceMechanism::LGRola(m) => m.assign_subtasks(task, bids),
        }
    }

    /// Records what `provider_id` reports for `subtask`, and says what is
    /// then known of the subtask.
    pub fn verify_subtask(
        &mut self,
        subtask: &SubTask,
        provider_id: Id,
        reported_usage: Option<Fixed>,
    ) -> (r: Result<Status, SimulationError>)
        requires
            old(self).wf(),
        ensures
            old(self).verified(final(self), subtask, provider_id, reported_usage, r),
    {
        match self {
            DefenceMechanism::Redundancy(m) => m.verify_subtask(subtask, provider_id, reported_usage),
            DefenceMechanism::CTasks(m) => Ok(m.verify_subtask(subtask, provider_id, reported_usage)),
            DefenceMechanism::LGRola(m) => Ok(m.verify_subtask(subtask, provider_id, reported_usage)),
        }
    }

    /// Does the bookkeeping at the end of a task.
    pub fn complete_task(&mut self, stats: &TaskStatistics) -> (r: Result<(), SimulationError>)
        requires
            old(self).wf(),
            old(self).accepts(stats),
        ensures
            old(self).completed(final(self), stats, r),
            r is Ok ==> final(self).wf(),
            r is Err ==> *final(self) == *old(self),
            final(self).kind() == old(self).kind(),
    {
        match self {
            DefenceMechanism::Redundancy(m) => {
                m.complete_task();
                Ok(())
            },
            DefenceMechanism::CTasks(m) => match stats {
                TaskStatistics::Means(means) => m.complete_task(means),
                _ => Ok(()),
            },
            DefenceMechanism::LGRola(m) => match stats {
                TaskStatistics::Outliers(stats) => {
                    m.complete_task(stats);
                    Ok(())
                },
                _ => Ok(()),
            },
        }
    }
}

} // verus!
