//! Requestors: the buyers of compute.
//!
//! A requestor works on one task at a time. It advertises the task, hands
//! its subtasks to the providers that its defence mechanism picks, has what
//! they report verified, pays, and takes the next task from its queue when
//! every subtask has been computed.

use vstd::prelude::*;
use crate::defence::{
    Assignment, DefenceMechanism, DefenceMechanismType, Offer, StatisticsDue, TaskStatistics,
};
use crate::engine::{Engine, EngineState};
use crate::error::SimulationError;
use crate::fixed::Fixed;
use crate::id::{advance, following, Id, IdSource};
use crate::provider::{bump, bumped};
use crate::task::{Status, SubTask, Task, TaskView};
use crate::task_queue::TaskQueue;
use crate::world::Event;

verus! {

/// The mean time between two tasks of a requestor, in raw units (3600).
pub const MEAN_TASK_ARRIVAL_TIME_RAW: u64 = 3_600_000_000_000;

/// How long a requestor waits before it advertises again a task that still
/// has subtasks to hand out, in raw units (60).
pub const READVERT_DELAY_RAW: u64 = 60_000_000_000;

/// One hundred, in raw units.
pub const HUNDRED_RAW: u64 = 100_000_000_000;

/// What is recorded of a requestor at the end of a run.
#[derive(Clone, Copy, Debug, PartialEq, Eq, Structural)]
pub struct Stats {
    pub run_id: u64,
    pub max_price: Fixed,
    pub budget_factor: Fixed,
    /// The mean cost of a subtask, in per cent of its budget.
    pub mean_cost: Fixed,
    pub num_tasks_advertised: usize,
    pub num_tasks_computed: usize,
    pub num_readvertisements: usize,
    pub num_subtasks_computed: usize,
    pub num_subtasks_cancelled: usize,
}

/// The mean of `count` costs after `cost` has joined `count - 1` costs of
/// the mean `mean`.
pub open spec fn updated_mean(mean: Fixed, cost: Fixed, count: usize) -> Fixed {
    if cost.raw >= mean.raw {
        mean.plus_spec(cost.minus_spec(mean).split_spec(count as u64))
    } else {
        mean.minus_spec(mean.minus_spec(cost).split_spec(count as u64))
    }
}

/// The usage that `benchmarks` gives last for the provider `k`, if any.
pub open spec fn latest(benchmarks: Seq<(Id, Fixed)>, k: Id) -> Option<Fixed>
    decreases benchmarks.len(),
{
    if benchmarks.len() == 0 {
        None
    } else if benchmarks.last().0 == k {
        Some(benchmarks.last().1)
    } else {
        latest(benchmarks.drop_last(), k)
    }
}

/// A requestor.
#[derive(Debug)]
pub struct Requestor {
    pub id: Id,
    pub max_price: Fixed,
    pub budget_factor: Fixed,
    /// The task that the requestor works on.
    pub task: Option<Task>,
    pub task_queue: TaskQueue,
    pub defence_mechanism: DefenceMechanism,
    /// How many payments were made, and their mean cost relative to the budget.
    pub mean_cost: (usize, Fixed),
    pub num_tasks_advertised: usize,
    pub num_tasks_computed: usize,
    pub num_readvertisements: usize,
    pub num_subtasks_computed: usize,
    pub num_subtasks_cancelled: usize,
}

impl Requestor {
    /// Whether the requestor works on a task.
    pub open spec fn busy(&self) -> bool {
        self.task is Some
    }

    /// The task that the requestor works on.
    pub open spec fn current(&self) -> TaskView {
        self.task->0@
    }

    /// The requestor's invariant. Its parts hold theirs; its defence
    /// mechanism works for it; no more tasks were computed than advertised;
    /// and until the counter of advertised tasks is full, every task
    /// advertised is either computed or the current one.
    pub open spec fn wf(&self) -> bool {
        &&& self.task_queue.wf()
        &&& self.defence_mechanism.wf()
        &&& self.defence_mechanism.common().requestor_id == self.id
        &&& self.busy() ==> self.task->0.wf()
        &&& self.num_tasks_computed <= self.num_tasks_advertised
        &&& self.num_tasks_advertised < usize::MAX ==> self.num_tasks_computed + (if self.busy() {
            1int
        } else {
            0int
        }) == self.num_tasks_advertised
    }

    /// Whether the next advertisement takes a task from the queue.
    pub open spec fn will_pull_spec(&self) -> bool {
        !self.busy() && self.task_queue@.tasks.len() > 0
    }

    /// The statistics that the end of the current task must be given.
    pub open spec fn statistics_due_spec(&self) -> StatisticsDue {
        if self.busy() && self.current().is_done() {
            self.defence_mechanism.statistics_due()
        } else {
            StatisticsDue::NotNeeded
        }
    }

    /// What is the same before and after every operation.
    pub open spec fn same_identity(&self, after: &Requestor) -> bool {
        &&& after.id == self.id
        &&& after.max_price == self.max_price
        &&& after.budget_factor == self.budget_factor
    }

    /// What taking a list of benchmarks does: every provider in the list is
    /// rated with the usage that the list gives last for it, and nothing else
    /// changes.
    pub open spec fn all_benchmarked(
        &self,
        after: &Requestor,
        benchmarks: Seq<(Id, Fixed)>,
    ) -> bool {
        &&& after.wf()
        &&& self.same_identity(after)
        &&& after.task == self.task
        &&& after.task_queue == self.task_queue
        &&& after.mean_cost == self.mean_cost
        &&& after.num_tasks_advertised == self.num_tasks_advertised
        &&& after.num_tasks_computed == self.num_tasks_computed
        &&& after.num_readvertisements == self.num_readvertisements
        &&& after.num_subtasks_computed == self.num_subtasks_computed
        &&& after.num_subtasks_cancelled == self.num_subtasks_cancelled
        &&& self.defence_mechanism.same_but_ratings(&after.defence_mechanism)
        &&& forall|k: Id| #[trigger]
            after.defence_mechanism.common().rated(k) <==> (self.defence_mechanism.common().rated(k)
                || latest(benchmarks, k) is Some)
        &&& forall|k: Id|
            after.defence_mechanism.common().rated(k) ==> #[trigger] after.defence_mechanism.common().rating(
                k,
            ) == match latest(benchmarks, k) {
                Some(usage) => usage,
                None => self.defence_mechanism.common().rating(k),
            }
    }

    /// What an advertisement does.
    pub open spec fn advertised(
        &self,
        after: &Requestor,
        engine: EngineState<Event>,
        engine_after: EngineState<Event>,
        first_id: usize,
        next_id: usize,
        arrival_delay: Fixed,
    ) -> bool {
        &&& self.same_identity(after)
        &&& after.defence_mechanism == self.defence_mechanism
        &&& after.mean_cost == self.mean_cost
        &&& after.num_tasks_computed == self.num_tasks_computed
        &&& after.num_subtasks_computed == self.num_subtasks_computed
        &&& after.num_subtasks_cancelled == self.num_subtasks_cancelled
        &&& if self.busy() {
            &&& after.task == self.task
            &&& after.task_queue == self.task_queue
            &&& after.num_tasks_advertised == self.num_tasks_advertised
            &&& next_id == first_id
            &&& if self.current().is_pending() {
                &&& after.num_readvertisements == bumped(self.num_readvertisements)
                &&& engine_after == engine.scheduled(
                    Fixed { raw: READVERT_DELAY_RAW },
                    Event::TaskAdvertisement(self.id),
                )
            } else {
                &&& after.num_readvertisements == self.num_readvertisements
                &&& engine_after == engine
            }
        } else {
            &&& after.num_readvertisements == self.num_readvertisements
            &&& after.task_queue@ == self.task_queue@.popped(first_id)
            &&& next_id == self.task_queue@.counter_after_pop(first_id)
            &&& if self.task_queue@.tasks.len() > 0 {
                &&& after.busy()
                &&& after.current() == self.task_queue@.tasks[0]
                &&& after.num_tasks_advertised == bumped(self.num_tasks_advertised)
                &&& engine_after == engine.scheduled(
                    arrival_delay,
                    Event::TaskAdvertisement(self.id),
                )
            } else {
                &&& !after.busy()
                &&& after.num_tasks_advertised == self.num_tasks_advertised
                &&& engine_after == engine
            }
        }
    }

    /// A requestor under a fresh identifier, with nothing to do.
    pub fn new(ids: &mut IdSource, max_price: Fixed, budget_factor: Fixed, dm_type: DefenceMechanismType) -> (r:
        Requestor)
        ensures
            r.wf(),
            r.id == (Id { value: old(ids).upcoming() }),
            final(ids).upcoming() == following(old(ids).upcoming()),
            r.initial(max_price, budget_factor, dm_type),
    {
        Self::with_id(Id::new(ids), max_price, budget_factor, dm_type)
    }

    /// What holds of a requestor that has just been made.
    pub open spec fn initial(
        &self,
        max_price: Fixed,
        budget_factor: Fixed,
        dm_type: DefenceMechanismType,
    ) -> bool {
        &&& self.max_price == max_price
        &&& self.budget_factor == budget_factor
        &&& !self.busy()
        &&& self.task_queue@.tasks.len() == 0
        &&& self.task_queue@.repeating
        &&& self.defence_mechanism.kind() == dm_type
        &&& self.defence_mechanism.common().requestor_id == self.id
        &&& self.defence_mechanism.blank()
        &&& self.mean_cost == (0usize, Fixed { raw: 0 })
        &&& self.num_tasks_advertised == 0
        &&& self.num_tasks_computed == 0
        &&& self.num_readvertisements == 0
        &&& self.num_subtasks_computed == 0
        &&& self.num_subtasks_cancelled == 0
    }

    /// A requestor under the identifier `id`, with nothing to do.
    pub fn with_id(id: Id, max_price: Fixed, budget_factor: Fixed, dm_type: DefenceMechanismType) -> (r:
        Requestor)
        ensures
            r.wf(),
            r.id == id,
            r.initial(max_price, budget_factor, dm_type),
    {
        Requestor {
            id,
            max_price,
            budget_factor,
            task: None,
            task_queue: TaskQueue::new(),
            defence_mechanism: dm_type.into_dm(id),
            mean_cost: (0, Fixed::zero()),
            num_tasks_advertised: 0,
            num_tasks_computed: 0,
            num_readvertisements: 0,
            num_subtasks_computed: 0,
            num_subtasks_cancelled: 0,
        }
    }

    pub fn id(&self) -> (r: &Id)
        ensures
            *r == self.id,
    {
        &self.id
    }

    pub fn max_price(&self) -> (r: Fixed)
        ensures
            r == self.max_price,
    {
        self.max_price
    }

    pub fn budget_factor(&self) -> (r: Fixed)
        ensures
            r == self.budget_factor,
    {
        self.budget_factor
    }

    pub fn task_queue(&self) -> (r: &TaskQueue)
        ensures
            *r == self.task_queue,
    {
        &self.task_queue
    }

    pub fn task_queue_mut(&mut self) -> (r: &mut TaskQueue)
        ensures
            *r == old(self).task_queue,
            final(self).task_queue == *final(r),
            final(self).id == old(self).id,
            final(self).max_price == old(self).max_price,
            final(self).budget_factor == old(self).budget_factor,
            final(self).task == old(self).task,
            final(self).defence_mechanism == old(self).defence_mechanism,
            final(self).mean_cost == old(self).mean_cost,
            final(self).num_tasks_advertised == old(self).num_tasks_advertised,
            final(self).num_tasks_computed == old(self).num_tasks_computed,
            final(self).num_readvertisements == old(self).num_readvertisements,
            final(self).num_subtasks_computed == old(self).num_subtasks_computed,
            final(self).num_subtasks_cancelled == old(self).num_subtasks_cancelled,
    {
        &mut self.task_queue
    }

    /// The budget of a subtask of the nominal usage `nominal_usage`:
    /// `max price * budget factor * nominal usage`.
    pub open spec fn budget_spec(&self, nominal_usage: Fixed) -> Fixed {
        self.max_price.times_spec(self.budget_factor).times_spec(nominal_usage)
    }

    /// The subtasks of a task made where the identifier counter stood at
    /// `first`: one for each of `nominal_usages`, with the budget that the
    /// requestor gives it, under the identifiers that follow that of the task.
    pub open spec fn subtasks_spec(&self, first: usize, nominal_usages: Seq<Fixed>) -> Seq<SubTask> {
        Seq::new(
            nominal_usages.len(),
            |k: int|
                SubTask {
                    id: Id { value: advance(first, (1 + k) as nat) },
                    nominal_usage: nominal_usages[k],
                    budget: self.budget_spec(nominal_usages[k]),
                },
        )
    }

    /// The task made of `nominal_usages` where the identifier counter stood
    /// at `first`.
    pub open spec fn task_spec(&self, first: usize, nominal_usages: Seq<Fixed>) -> TaskView {
        TaskView {
            id: Id { value: first },
            size: nominal_usages.len(),
            in_flight: 0,
            pending: self.subtasks_spec(first, nominal_usages),
            done: Seq::empty(),
        }
    }

    /// The budget that the requestor gives a subtask of the nominal usage
    /// `nominal_usage`.
    pub fn budget_for(&self, nominal_usage: Fixed) -> (r: Fixed)
        ensures
            r == self.budget_spec(nominal_usage),
    {
        self.max_price.times(self.budget_factor).times(nominal_usage)
    }

    /// A task of one subtask for each of `nominal_usages`, in their order,
    /// each with the budget that the requestor gives it. The task takes the
    /// next identifier, its subtasks those that follow.
    pub fn new_task(&self, ids: &mut IdSource, nominal_usages: &Vec<Fixed>) -> (r: Task)
        requires
            nominal_usages@.len() < usize::MAX,
        ensures
            r.wf(),
            r@ == self.task_spec(old(ids).upcoming(), nominal_usages@),
            final(ids).upcoming() == advance(
                old(ids).upcoming(),
                (1 + nominal_usages@.len()) as nat,
            ),
    {
        let ghost first = ids.upcoming();
        let mut task = Task::new(ids);
        let n: usize = nominal_usages.len();
        let mut i: usize = 0;
        proof {
            assert(advance(first, 1) == following(advance(first, 0)));
            assert(task@.pending =~= self.subtasks_spec(first, nominal_usages@.subrange(0, 0)));
        }
        while i < n
            invariant
                n == nominal_usages@.len(),
                n < usize::MAX,
                0 <= i <= n,
                task.wf(),
                ids.upcoming() == advance(first, (1 + i) as nat),
                task@ == (TaskView {
                    id: Id { value: first },
                    size: i as nat,
                    in_flight: 0,
                    pending: self.subtasks_spec(first, nominal_usages@.subrange(0, i as int)),
                    done: Seq::empty(),
                }),
            decreases n - i,
        {
            let nominal_usage = nominal_usages[i];
            let budget = self.budget_for(nominal_usage);
            let subtask = SubTask::new(ids, nominal_usage, budget);
            task.push_pending(subtask);
            proof {
                assert(advance(first, (1 + i + 1) as nat) == following(
                    advance(first, (1 + i) as nat),
                ));
                assert(task@.pending =~= self.subtasks_spec(
                    first,
                    nominal_usages@.subrange(0, i + 1),
                ));
            }
            i = i + 1;
        }
        proof {
            assert(nominal_usages@.subrange(0, n as int) =~= nominal_usages@);
        }
        task
    }

    /// Whether the next advertisement takes a task from the queue, so that
    /// an arrival delay must be drawn for it.
    pub fn will_pull(&self) -> (r: bool)
        ensures
            r == self.will_pull_spec(),
    {
        self.task.is_none() && !self.task_queue.is_empty()
    }

    /// The mean time between two tasks, for drawing arrival delays.
    pub fn mean_task_arrival_time() -> (r: Fixed)
        ensures
            r.raw == MEAN_TASK_ARRIVAL_TIME_RAW,
    {
        Fixed::from_raw(MEAN_TASK_ARRIVAL_TIME_RAW)
    }

    /// Advertises. With a current task that still has subtasks to hand out,
    /// the advertisement is repeated after the readvertisement delay. With a
    /// current task that has none, nothing happens. Without a current task,
    /// the next task is taken from the queue and its advertisement follows
    /// after `arrival_delay`.
    pub fn advertise(
        &mut self,
        engine: &mut Engine<Event>,
        ids: &mut IdSource,
        arrival_delay: Fixed,
    )
        requires
            old(self).wf(),
            old(engine).wf(),
        ensures
            final(self).wf(),
            final(engine).wf(),
            final(engine)@.now == old(engine)@.now,
            old(self).advertised(
                final(self),
                old(engine)@,
                final(engine)@,
                old(ids).upcoming(),
                final(ids).upcoming(),
                arrival_delay,
            ),
    {
        proof {
            old(engine)@.lemma_scheduled_wf(
                Fixed { raw: READVERT_DELAY_RAW },
                Event::TaskAdvertisement(self.id),
            );
            old(engine)@.lemma_scheduled_wf(arrival_delay, Event::TaskAdvertisement(self.id));
        }
        let pending = match &self.task {
            Some(task) => Some(task.is_pending()),
            None => None,
        };
        match pending {
            Some(is_pending) => {
                if is_pending {
                    self.num_readvertisements = bump(self.num_readvertisements);
                    engine.schedule(
                        Fixed::from_raw(READVERT_DELAY_RAW),
                        Event::TaskAdvertisement(self.id),
                    );
                }
            },
            None => {
                match self.task_queue.pop(ids) {
                    Some(task) => {
                        self.task = Some(task);
                        self.num_tasks_advertised = bump(self.num_tasks_advertised);
                        engine.schedule(arrival_delay, Event::TaskAdvertisement(self.id));
                    },
                    None => {},
                }
            },
        }
    }

    /// What taking a benchmark does.
    pub open spec fn benchmarked(
        &self,
        after: &Requestor,
        provider_id: Id,
        reported_usage: Fixed,
    ) -> bool {
        &&& after.wf()
        &&& self.same_identity(after)
        &&& self.defence_mechanism.rating_installed(
                &after.defence_mechanism,
                provider_id,
                reported_usage,
            )
        &&& after.task == self.task
        &&& after.task_queue == self.task_queue
        &&& after.mean_cost == self.mean_cost
        &&& after.num_tasks_advertised == self.num_tasks_advertised
        &&& after.num_tasks_computed == self.num_tasks_computed
        &&& after.num_readvertisements == self.num_readvertisements
        &&& after.num_subtasks_computed == self.num_subtasks_computed
        &&& after.num_subtasks_cancelled == self.num_subtasks_cancelled
    }

    /// Takes `reported_usage` for the rating of `provider_id`, in place of
    /// the rating that the provider had, if any.
    pub fn receive_benchmark(&mut self, provider_id: Id, reported_usage: Fixed)
        requires
            old(self).wf(),
        ensures
            old(self).benchmarked(final(self), provider_id, reported_usage),
    {
        self.defence_mechanism.insert_provider_rating(provider_id, reported_usage)
    }

    /// What handing out subtasks does, and what it returns.
    pub open spec fn selected(
        &self,
        after: &Requestor,
        bids: Seq<Offer>,
        r: Result<Vec<Assignment>, SimulationError>,
    ) -> bool {
        &&& after.wf()
        &&& self.same_identity(after)
        &&& after.task_queue == self.task_queue
        &&& after.mean_cost == self.mean_cost
        &&& after.num_tasks_advertised == self.num_tasks_advertised
        &&& after.num_tasks_computed == self.num_tasks_computed
        &&& after.num_readvertisements == self.num_readvertisements
        &&& after.num_subtasks_computed == self.num_subtasks_computed
        &&& after.num_subtasks_cancelled == self.num_subtasks_cancelled
        &&& after.busy() == self.busy()
        &&& if self.busy() {
                self.defence_mechanism.assigned(
                    &after.defence_mechanism,
                    &self.task->0,
                    &after.task->0,
                    bids,
                    r,
                )
            } else {
                *after == *self && r == Err::<Vec<Assignment>, SimulationError>(
                    SimulationError::TaskNotFound(self.id),
                )
            }
    }

    /// Takes each of `benchmarks` in turn for the rating of its provider.
    pub fn receive_benchmarks(&mut self, benchmarks: &Vec<(Id, Fixed)>)
        requires
            old(self).wf(),
        ensures
            old(self).all_benchmarked(final(self), benchmarks@),
    {
        let n: usize = benchmarks.len();
        let mut i: usize = 0;
        proof {
            assert(benchmarks@.subrange(0, 0) =~= Seq::<(Id, Fixed)>::empty());
        }
        while i < n
            invariant
                n == benchmarks@.len(),
                0 <= i <= n,
                old(self).all_benchmarked(self, benchmarks@.subrange(0, i as int)),
            decreases n - i,
        {
            let ghost before = *self;
            let ghost done = benchmarks@.subrange(0, i as int);
            let (provider_id, usage) = benchmarks[i];
            self.receive_benchmark(provider_id, usage);
            proof {
                let next = benchmarks@.subrange(0, i + 1);
                assert(next.drop_last() =~= done);
                assert(next.last() == (provider_id, usage));
                assert forall|k: Id| #[trigger]
                    self.defence_mechanism.common().rated(k) <==> (old(self).defence_mechanism.common().rated(k) || latest(next, k) is Some) by {
                    assert(before.defence_mechanism.common().rated(k) <==> (old(self).defence_mechanism.common().rated(k) || latest(done, k) is Some));
                }
                assert forall|k: Id|
                    self.defence_mechanism.common().rated(
                        k,
                    ) implies #[trigger] self.defence_mechanism.common().rating(k) == match latest(
                    next,
                    k,
                ) {
                    Some(usage) => usage,
                    None => old(self).defence_mechanism.common().rating(k),
                } by {
                    if k != provider_id {
                        assert(before.defence_mechanism.common().rated(k));
                    }
                }
            }
            i = i + 1;
        }
        proof {
            assert(benchmarks@.subrange(0, n as int) =~= benchmarks@);
        }
    }

    /// Hands out waiting subtasks of the current task to the providers that
    /// made `bids`, as the defence mechanism decides. Fails, and changes
    /// nothing, without a current task.
    pub fn select_offers(&mut self, bids: Vec<Offer>) -> (r: Result<Vec<Assignment>, SimulationError>)
        requires
            old(self).wf(),
        ensures
            old(self).selected(final(self), bids@, r),
    {
        match &mut self.task {
            Some(task) => self.defence_mechanism.assign_subtasks(task, bids),
            None => Err(SimulationError::TaskNotFound(self.id)),
        }
    }

    /// What a verification result does, once the defence mechanism has
    /// judged it `status`: a subtask done joins the computed ones, a
    /// subtask cancelled waits again, and each is counted.
    pub open spec fn settled(&self, after: &Requestor, subtask: SubTask, status: Status) -> bool {
        &&& after.busy()
        &&& match status {
            Status::Done => {
                &&& after.num_subtasks_computed == bumped(self.num_subtasks_computed)
                &&& after.num_subtasks_cancelled == self.num_subtasks_cancelled
                &&& after.current() == (TaskView {
                    in_flight: (self.current().in_flight - 1) as nat,
                    done: self.current().done.push(subtask),
                    ..self.current()
                })
            },
            Status::Cancelled => {
                &&& after.num_subtasks_computed == self.num_subtasks_computed
                &&& after.num_subtasks_cancelled == bumped(self.num_subtasks_cancelled)
                &&& after.current() == (TaskView {
                    in_flight: (self.current().in_flight - 1) as nat,
                    pending: self.current().pending.push(subtask),
                    ..self.current()
                })
            },
            Status::Pending => {
                &&& after.num_subtasks_computed == self.num_subtasks_computed
                &&& after.num_subtasks_cancelled == self.num_subtasks_cancelled
                &&& after.task == self.task
            },
        }
    }

    /// The error with which a verification result is refused before the
    /// defence mechanism sees it: there is no current task, or no subtask of
    /// it is in flight.
    pub open spec fn refusal(&self, subtask: SubTask) -> Option<SimulationError> {
        if !self.busy() {
            Some(SimulationError::TaskNotFound(self.id))
        } else if self.current().in_flight == 0 {
            Some(SimulationError::VerificationForSubtaskNotFound(self.id, subtask))
        } else {
            None
        }
    }

    /// What a verification result does, and what is returned for it.
    pub open spec fn verified(
        &self,
        after: &Requestor,
        subtask: &SubTask,
        provider_id: Id,
        reported_usage: Option<Fixed>,
        r: Result<Status, SimulationError>,
    ) -> bool {
        &&& after.wf()
        &&& self.same_identity(after)
        &&& after.task_queue == self.task_queue
        &&& after.mean_cost == self.mean_cost
        &&& after.num_tasks_advertised == self.num_tasks_advertised
        &&& after.num_tasks_computed == self.num_tasks_computed
        &&& after.num_readvertisements == self.num_readvertisements
        &&& match self.refusal(*subtask) {
                Some(e) => r == Err::<Status, SimulationError>(e) && *after == *self,
                None => {
                    &&& self.defence_mechanism.verified(
                        &after.defence_mechanism,
                        subtask,
                        provider_id,
                        reported_usage,
                        r,
                    )
                    &&& match r {
                        Ok(status) => self.settled(after, *subtask, status),
                        Err(_) => *after == *self,
                    }
                },
            }
    }

    /// Has what `provider_id` reports for `subtask` judged by the defence
    /// mechanism, and acts on the verdict. Fails, and changes nothing, where
    /// the result is refused or the defence mechanism fails.
    pub fn verify_subtask(
        &mut self,
        subtask: &SubTask,
        provider_id: Id,
        reported_usage: Option<Fixed>,
    ) -> (r: Result<Status, SimulationError>)
        requires
            old(self).wf(),
        ensures
            old(self).verified(final(self), subtask, provider_id, reported_usage, r),
    {
        let in_flight = match &self.task {
            Some(task) => task.in_flight(),
            None => {
                return Err(SimulationError::TaskNotFound(self.id));
            },
        };
        if in_flight == 0 {
            return Err(SimulationError::VerificationForSubtaskNotFound(self.id, *subtask));
        }
        let status = match self.defence_mechanism.verify_subtask(
            subtask,
            provider_id,
            reported_usage,
        ) {
            Ok(status) => status,
            Err(e) => {
                proof {
                    Self::lemma_failed_verification_changes_nothing(
                        &old(self).defence_mechanism,
                        &self.defence_mechanism,
                        subtask,
                        provider_id,
                        reported_usage,
                        e,
                    );
                }
                return Err(e);
            },
        };
        match status {
            Status::Done => {
                self.num_subtasks_computed = bump(self.num_subtasks_computed);
                match &mut self.task {
                    Some(task) => {
                        task.push_done(*subtask);
                    },
                    None => {},
                }
            },
            Status::Cancelled => {
                self.num_subtasks_cancelled = bump(self.num_subtasks_cancelled);
                match &mut self.task {
                    Some(task) => {
                        task.requeue(*subtask);
                    },
                    None => {},
                }
            },
            Status::Pending => {},
        }
        Ok(status)
    }

    /// A defence mechanism that fails to record a report is as it was.
    pub proof fn lemma_failed_verification_changes_nothing(
        before: &DefenceMechanism,
        after: &DefenceMechanism,
        subtask: &SubTask,
        provider_id: Id,
        reported_usage: Option<Fixed>,
        e: SimulationError,
    )
        requires
            before.verified(
                after,
                subtask,
                provider_id,
                reported_usage,
                Err::<Status, SimulationError>(e),
            ),
        ensures
            *after == *before,
    {
    }

    /// The payment for `reported_usage` at the price `bid`.
    pub open spec fn payment(bid: Fixed, reported_usage: Fixed) -> Fixed {
        reported_usage.times_spec(bid)
    }

    /// The cost of a payment relative to the budget of the subtask.
    pub open spec fn cost_wrt_budget(subtask: SubTask, bid: Fixed, reported_usage: Fixed) -> Fixed {
        bid.times_spec(reported_usage).over_spec(subtask.budget)
    }

    /// What a payment does, and what is returned for it.
    pub open spec fn payment_sent(
        &self,
        after: &Requestor,
        subtask: &SubTask,
        bid: Fixed,
        reported_usage: Fixed,
        r: Option<Fixed>,
    ) -> bool {
        &&& r == Some(Self::payment(bid, reported_usage))
        &&& after.mean_cost.0 == bumped(self.mean_cost.0)
        &&& after.mean_cost.1 == updated_mean(
                self.mean_cost.1,
                Self::cost_wrt_budget(*subtask, bid, reported_usage),
                bumped(self.mean_cost.0),
            )
        &&& self.same_identity(after)
        &&& after.task == self.task
        &&& after.task_queue == self.task_queue
        &&& after.defence_mechanism == self.defence_mechanism
        &&& after.num_tasks_advertised == self.num_tasks_advertised
        &&& after.num_tasks_computed == self.num_tasks_computed
        &&& after.num_readvertisements == self.num_readvertisements
        &&& after.num_subtasks_computed == self.num_subtasks_computed
        &&& after.num_subtasks_cancelled == self.num_subtasks_cancelled
    }

    /// Pays `provider_id` for `subtask`: the usage reported, at the price
    /// agreed. The cost relative to the budget enters the mean cost.
    pub fn send_payment(
        &mut self,
        subtask: &SubTask,
        provider_id: Id,
        bid: Fixed,
        reported_usage: Fixed,
    ) -> (r: Option<Fixed>)
        ensures
            old(self).payment_sent(final(self), subtask, bid, reported_usage, r),
    {
        let payment = reported_usage.times(bid);
        let cost = bid.times(reported_usage).over(subtask.budget);
        let count: usize = bump(self.mean_cost.0);
        let mean = self.mean_cost.1;
        let new_mean = if cost.raw >= mean.raw {
            mean.plus(cost.minus(mean).split(count as u64))
        } else {
            mean.minus(mean.minus(cost).split(count as u64))
        };
        self.mean_cost = (count, new_mean);
        Some(payment)
    }

    /// What a verification result that the defence mechanism judged
    /// `status`, followed by the payment for it, does.
    pub open spec fn verified_and_paid(
        &self,
        after: &Requestor,
        subtask: SubTask,
        provider_id: Id,
        bid: Fixed,
        reported_usage: Fixed,
        status: Status,
    ) -> bool {
        exists|verified: Requestor|
            {
                &&& #[trigger] self.verified(
                    &verified,
                    &subtask,
                    provider_id,
                    Some(reported_usage),
                    Ok::<Status, SimulationError>(status),
                )
                &&& verified.payment_sent(
                    after,
                    &subtask,
                    bid,
                    reported_usage,
                    Some(Self::payment(bid, reported_usage)),
                )
            }
    }

    /// Which statistics the end of the current task must be given: none
    /// unless the task is done.
    pub fn statistics_due(&self) -> (r: StatisticsDue)
        requires
            self.wf(),
        ensures
            r == self.statistics_due_spec(),
    {
        match &self.task {
            Some(task) => {
                if task.is_done() {
                    self.defence_mechanism.due()
                } else {
                    StatisticsDue::NotNeeded
                }
            },
            None => StatisticsDue::NotNeeded,
        }
    }

    /// Whether `stats` are what the end of the current task must be given.
    pub open spec fn accepts(&self, stats: &TaskStatistics) -> bool {
        self.busy() && self.current().is_done() ==> self.defence_mechanism.accepts(stats)
    }

    /// What the end of a task does, and what is returned for it.
    pub open spec fn completed(
        &self,
        after: &Requestor,
        stats: &TaskStatistics,
        r: Result<bool, SimulationError>,
    ) -> bool {
        &&& after.wf()
        &&& self.same_identity(after)
        &&& after.task_queue == self.task_queue
        &&& after.mean_cost == self.mean_cost
        &&& after.num_tasks_advertised == self.num_tasks_advertised
        &&& after.num_readvertisements == self.num_readvertisements
        &&& after.num_subtasks_computed == self.num_subtasks_computed
        &&& after.num_subtasks_cancelled == self.num_subtasks_cancelled
        &&& if !self.busy() {
                r == Err::<bool, SimulationError>(SimulationError::TaskNotFound(self.id))
                    && *after == *self
            } else if !self.current().is_done() {
                r == Ok::<bool, SimulationError>(false) && *after == *self
            } else {
                match r {
                    Ok(ended) => {
                        &&& ended
                        &&& self.defence_mechanism.completed(
                            &after.defence_mechanism,
                            stats,
                            Ok(()),
                        )
                        &&& !after.busy()
                        &&& after.num_tasks_computed == bumped(self.num_tasks_computed)
                    },
                    Err(e) => {
                        &&& self.defence_mechanism.completed(
                            &after.defence_mechanism,
                            stats,
                            Err(e),
                        )
                        &&& *after == *self
                    },
                }
            }
    }

    /// Ends the current task if every subtask of it has been computed: the
    /// defence mechanism does its bookkeeping, the task counts as computed,
    /// and the requestor has no current task. Says whether the task ended.
    /// Fails, and changes nothing, without a current task or where the
    /// defence mechanism fails.
    pub fn complete_task(&mut self, stats: &TaskStatistics) -> (r: Result<bool, SimulationError>)
        requires
            old(self).wf(),
            old(self).accepts(stats),
        ensures
            old(self).completed(final(self), stats, r),
    {
        let done = match &self.task {
            Some(task) => task.is_done(),
            None => {
                return Err(SimulationError::TaskNotFound(self.id));
            },
        };
        if !done {
            return Ok(false);
        }
        match self.defence_mechanism.complete_task(stats) {
            Ok(()) => {},
            Err(e) => {
                return Err(e);
            },
        }
        self.num_tasks_computed = bump(self.num_tasks_computed);
        self.task = None;
        Ok(true)
    }

    /// No requestor has computed more tasks than it has advertised.
    pub proof fn lemma_computed_within_advertised(&self)
        requires
            self.wf(),
        ensures
            self.num_tasks_computed <= self.num_tasks_advertised,
    {
    }

    /// The subtasks of the current task are conserved: whatever a
    /// verification result does, the task keeps its size, and every subtask
    /// of it is still waiting, in flight or computed.
    pub proof fn lemma_verification_conserves_subtasks(
        &self,
        after: &Requestor,
        subtask: &SubTask,
        provider_id: Id,
        reported_usage: Option<Fixed>,
        r: Result<Status, SimulationError>,
    )
        requires
            self.wf(),
            self.busy(),
            self.verified(after, subtask, provider_id, reported_usage, r),
        ensures
            after.busy(),
            after.current().size == self.current().size,
            after.current().pending.len() + after.current().done.len() + after.current().in_flight
                == self.current().size,
    {
    }

    /// The subtasks of the current task are conserved when subtasks are
    /// handed out: the task keeps its size, and what no longer waits is in
    /// flight.
    pub proof fn lemma_selection_conserves_subtasks(
        &self,
        after: &Requestor,
        bids: Seq<Offer>,
        r: Result<Vec<Assignment>, SimulationError>,
    )
        requires
            self.wf(),
            self.busy(),
            self.selected(after, bids, r),
        ensures
            after.busy(),
            after.current().size == self.current().size,
            after.current().done == self.current().done,
            after.current().pending.len() + after.current().done.len() + after.current().in_flight
                == self.current().size,
    {
        if r is Err {
            match (&self.defence_mechanism, &after.defence_mechanism) {
                (DefenceMechanism::Redundancy(a), DefenceMechanism::Redundancy(b)) => {
                    assert(a.assigned(b, &self.task->0, &after.task->0, bids, r));
                },
                _ => {},
            }
        }
    }

    /// Under a defence that sends each subtask to one provider, every
    /// verification result settles its subtask and is counted: as computed
    /// or as cancelled.
    pub proof fn lemma_every_result_counts(
        &self,
        after: &Requestor,
        subtask: &SubTask,
        provider_id: Id,
        reported_usage: Option<Fixed>,
        status: Status,
    )
        requires
            self.wf(),
            self.defence_mechanism.kind() != DefenceMechanismType::Redundancy,
            self.verified(after, subtask, provider_id, reported_usage, Ok(status)),
        ensures
            status != Status::Pending,
            reported_usage is Some <==> status == Status::Done,
            status == Status::Done ==> after.num_subtasks_computed == bumped(
                self.num_subtasks_computed,
            ) && after.num_subtasks_cancelled == self.num_subtasks_cancelled,
            status == Status::Cancelled ==> after.num_subtasks_cancelled == bumped(
                self.num_subtasks_cancelled,
            ) && after.num_subtasks_computed == self.num_subtasks_computed,
    {
    }

    /// Whether the requestor has a rating for the provider `k`.
    pub open spec fn rates(&self, k: Id) -> bool {
        self.defence_mechanism.common().rated(k)
    }

    /// A requestor loses no rating when it advertises.
    pub proof fn lemma_advertising_keeps_ratings(
        &self,
        after: &Requestor,
        engine: EngineState<Event>,
        engine_after: EngineState<Event>,
        first_id: usize,
        next_id: usize,
        arrival_delay: Fixed,
        k: Id,
    )
        requires
            self.rates(k),
            self.advertised(after, engine, engine_after, first_id, next_id, arrival_delay),
        ensures
            after.rates(k),
    {
    }

    /// A requestor loses no rating when it hands out subtasks.
    pub proof fn lemma_selection_keeps_ratings(
        &self,
        after: &Requestor,
        bids: Seq<Offer>,
        r: Result<Vec<Assignment>, SimulationError>,
        k: Id,
    )
        requires
            self.rates(k),
            self.selected(after, bids, r),
        ensures
            after.rates(k),
    {
        if self.busy() {
            self.defence_mechanism.lemma_assigned_keeps_ratings(
                &after.defence_mechanism,
                &self.task->0,
                &after.task->0,
                bids,
                r,
                k,
            );
        }
    }

    /// A requestor loses no rating when it has a report verified.
    pub proof fn lemma_verification_keeps_ratings(
        &self,
        after: &Requestor,
        subtask: &SubTask,
        provider_id: Id,
        reported_usage: Option<Fixed>,
        r: Result<Status, SimulationError>,
        k: Id,
    )
        requires
            self.rates(k),
            self.verified(after, subtask, provider_id, reported_usage, r),
        ensures
            after.rates(k),
    {
        if self.refusal(*subtask) is None {
            self.defence_mechanism.lemma_verified_keeps_ratings(
                &after.defence_mechanism,
                subtask,
                provider_id,
                reported_usage,
                r,
                k,
            );
        }
    }

    /// A requestor loses no rating when it pays.
    pub proof fn lemma_payment_keeps_ratings(
        &self,
        after: &Requestor,
        subtask: &SubTask,
        bid: Fixed,
        reported_usage: Fixed,
        r: Option<Fixed>,
        k: Id,
    )
        requires
            self.rates(k),
            self.payment_sent(after, subtask, bid, reported_usage, r),
        ensures
            after.rates(k),
    {
    }

    /// A requestor loses no rating when it ends its task.
    pub proof fn lemma_completion_keeps_ratings(
        &self,
        after: &Requestor,
        stats: &TaskStatistics,
        r: Result<bool, SimulationError>,
        k: Id,
    )
        requires
            self.rates(k),
            self.completed(after, stats, r),
        ensures
            after.rates(k),
    {
        if self.busy() && self.current().is_done() && r is Ok {
            self.defence_mechanism.lemma_completed_keeps_ratings(
                &after.defence_mechanism,
                stats,
                Ok(()),
                k,
            );
        }
    }

    /// What is recorded of the requestor.
    pub open spec fn stats(&self, run_id: u64) -> Stats {
        Stats {
            run_id,
            max_price: self.max_price,
            budget_factor: self.budget_factor,
            mean_cost: self.mean_cost.1.times_spec(Fixed { raw: HUNDRED_RAW }),
            num_tasks_advertised: self.num_tasks_advertised,
            num_tasks_computed: self.num_tasks_computed,
            num_readvertisements: self.num_readvertisements,
            num_subtasks_computed: self.num_subtasks_computed,
            num_subtasks_cancelled: self.num_subtasks_cancelled,
        }
    }

    /// What is recorded of the requestor at the end of the run `run_id`.
    pub fn into_stats(self, run_id: u64) -> (r: Stats)
        ensures
            r == self.stats(run_id),
    {
        self.to_stats(run_id)
    }

    /// What would be recorded of the requestor if the run `run_id` ended now.
    pub fn to_stats(&self, run_id: u64) -> (r: Stats)
        ensures
            r == self.stats(run_id),
    {
        Stats {
            run_id,
            max_price: self.max_price,
            budget_factor: self.budget_factor,
            mean_cost: self.mean_cost.1.times(Fixed::from_raw(HUNDRED_RAW)),
            num_tasks_advertised: self.num_tasks_advertised,
            num_tasks_computed: self.num_tasks_computed,
            num_readvertisements: self.num_readvertisements,
            num_subtasks_computed: self.num_subtasks_computed,
            num_subtasks_cancelled: self.num_subtasks_cancelled,
        }
    }
}

} // verus!
