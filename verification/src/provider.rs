//! Providers: the sellers of compute.
//!
//! A provider asks `(1 + profit margin) * minimum price` per unit of usage.
//! The profit margin falls when the provider accepts a subtask and rises when
//! it has computed one, by a factor that is the exponential of a rate times
//! the time since the margin last moved. The library works out the exponent;
//! the caller raises e to it and hands the factor in.

pub mod linear_usage_inflation;
pub mod regular;
pub mod undercut_budget;

use vstd::prelude::*;
use crate::engine::Engine;
use crate::fixed::Fixed;
use crate::id::Id;
use crate::task::SubTask;
use crate::world::Event;
use crate::provider::linear_usage_inflation::LinearUsageInflationProvider;
use crate::provider::regular::RegularProvider;
use crate::provider::undercut_budget::UndercutBudgetProvider;

verus! {

/// The rate at which the profit margin falls, per unit of time, in raw units (0.00001).
pub const ALPHA_RAW: u64 = 10_000;

/// The rate at which the profit margin rises, per unit of time, in raw units (0.00001).
pub const BETA_RAW: u64 = 10_000;

/// How a provider reports its usage.
#[derive(Clone, Copy, Debug, PartialEq, Eq, PartialOrd, Ord, Hash, Structural)]
pub enum Behaviour {
    Regular,
    LinearUsageInflation,
    UndercutBudget,
}

impl Behaviour {
    /// The name of the behaviour.
    pub fn label(&self) -> (r: &'static str)
        ensures
            r@ == match self {
                Behaviour::Regular => "Regular"@,
                Behaviour::LinearUsageInflation => "Linear usage inflation"@,
                Behaviour::UndercutBudget => "Undercut budget"@,
            },
    {
        match self {
            Behaviour::Regular => "Regular",
            Behaviour::LinearUsageInflation => "Linear usage inflation",
            Behaviour::UndercutBudget => "Undercut budget",
        }
    }
}

/// What is recorded of a provider at the end of a run.
#[derive(Clone, Copy, Debug, PartialEq, Eq, Structural)]
pub struct Stats {
    pub run_id: u64,
    pub behaviour: Behaviour,
    pub min_price: Fixed,
    pub usage_factor: Fixed,
    pub profit_margin: Fixed,
    pub price: Fixed,
    pub revenue: Fixed,
    pub num_subtasks_assigned: usize,
    pub num_subtasks_computed: usize,
    pub num_subtasks_cancelled: usize,
}

/// Whether a provider is free to take a subtask.
#[derive(Clone, Copy, Debug, PartialEq, Eq, Structural)]
pub enum State {
    Idle,
    Busy,
}

/// One more than `n`, as far as the counter goes.
pub open spec fn bumped(n: usize) -> usize {
    if n < usize::MAX {
        (n + 1) as usize
    } else {
        n
    }
}

/// Counts one more on `n`.
pub fn bump(n: usize) -> (r: usize)
    ensures
        r == bumped(n),
{
    if n < usize::MAX {
        n + 1
    } else {
        n
    }
}

/// The state that every provider keeps, whatever its behaviour.
#[derive(Clone, Copy, Debug, PartialEq, Eq, Structural)]
pub struct ProviderCommon {
    pub id: Id,
    pub min_price: Fixed,
    /// The provider's true usage per unit of nominal usage.
    pub usage_factor: Fixed,
    pub state: State,
    pub profit_margin: Fixed,
    /// When the profit margin last moved, or a computation was cancelled.
    pub last_checkpoint: Fixed,
    pub revenue: Fixed,
    pub num_subtasks_assigned: usize,
    pub num_subtasks_computed: usize,
    pub num_subtasks_cancelled: usize,
}

impl ProviderCommon {
    /// The price that the provider asks: `(1 + profit margin) * minimum price`.
    pub open spec fn price_spec(self) -> Fixed {
        (Fixed { raw: crate::fixed::SCALE }).plus_spec(self.profit_margin).times_spec(self.min_price)
    }

    /// The offer that the provider makes: its price if it is idle.
    pub open spec fn offer(self) -> Option<Fixed> {
        if self.state == State::Idle {
            Some(self.price_spec())
        } else {
            None
        }
    }

    /// The time from the last checkpoint to `now`.
    pub open spec fn elapsed_spec(self, now: Fixed) -> Fixed {
        now.minus_spec(self.last_checkpoint)
    }

    /// The usage that the provider expects of `subtask`.
    pub open spec fn expected_usage(self, subtask: SubTask) -> Fixed {
        subtask.nominal_usage.times_spec(self.usage_factor)
    }

    /// Whether the provider will run out of budget on `subtask` at the price `bid`.
    pub open spec fn exceeds_budget(self, subtask: SubTask, bid: Fixed) -> bool {
        self.expected_usage(subtask).times_spec(bid).raw > subtask.budget.raw
    }

    /// How long the provider works on `subtask`: until it is computed, or
    /// until the budget is used up.
    pub open spec fn working_time(self, subtask: SubTask, bid: Fixed) -> Fixed {
        if self.exceeds_budget(subtask, bid) {
            subtask.budget.over_spec(bid)
        } else {
            self.expected_usage(subtask)
        }
    }

    /// The event in which the work on `subtask` ends.
    pub open spec fn outcome(self, subtask: SubTask, requestor_id: Id, bid: Fixed) -> Event {
        if self.exceeds_budget(subtask, bid) {
            Event::SubTaskBudgetExceeded(subtask, requestor_id, self.id)
        } else {
            Event::SubTaskComputed(subtask, requestor_id, self.id, bid)
        }
    }

    /// The provider after it accepted a subtask at the time `now`, its
    /// profit margin lowered by the factor `decay`.
    pub open spec fn engaged(self, now: Fixed, decay: Fixed) -> ProviderCommon {
        ProviderCommon {
            state: State::Busy,
            num_subtasks_assigned: bumped(self.num_subtasks_assigned),
            profit_margin: self.profit_margin.times_spec(decay),
            last_checkpoint: now,
            ..self
        }
    }

    /// The provider after it computed a subtask at the time `now`, its
    /// profit margin raised by the factor `growth`.
    pub open spec fn finished(self, now: Fixed, growth: Fixed) -> ProviderCommon {
        ProviderCommon {
            state: State::Idle,
            num_subtasks_computed: bumped(self.num_subtasks_computed),
            profit_margin: self.profit_margin.times_spec(growth),
            last_checkpoint: now,
            ..self
        }
    }

    /// The provider after it gave up a subtask at the time `now`.
    pub open spec fn cancelled(self, now: Fixed) -> ProviderCommon {
        ProviderCommon {
            state: State::Idle,
            num_subtasks_cancelled: bumped(self.num_subtasks_cancelled),
            last_checkpoint: now,
            ..self
        }
    }

    /// The provider after it was paid, if it was.
    pub open spec fn paid(self, payment: Option<Fixed>) -> ProviderCommon {
        match payment {
            Some(amount) => ProviderCommon { revenue: self.revenue.plus_spec(amount), ..self },
            None => self,
        }
    }

    /// What is recorded of the provider.
    pub open spec fn stats(self, run_id: u64, behaviour: Behaviour) -> Stats {
        Stats {
            run_id,
            behaviour,
            min_price: self.min_price,
            usage_factor: self.usage_factor,
            profit_margin: self.profit_margin,
            price: self.price_spec(),
            revenue: self.revenue,
            num_subtasks_assigned: self.num_subtasks_assigned,
            num_subtasks_computed: self.num_subtasks_computed,
            num_subtasks_cancelled: self.num_subtasks_cancelled,
        }
    }

    /// The price is fixed by the profit margin and the minimum price, and
    /// the profit margin moves only when the provider accepts a subtask or
    /// has computed one: a cancellation and a payment leave margin and
    /// price as they are, and an offer is the price or nothing.
    pub proof fn lemma_price_follows_margin(self, now: Fixed, payment: Option<Fixed>, factor: Fixed)
        ensures
            self.cancelled(now).profit_margin == self.profit_margin,
            self.cancelled(now).price_spec() == self.price_spec(),
            self.paid(payment).profit_margin == self.profit_margin,
            self.paid(payment).price_spec() == self.price_spec(),
            self.offer() is Some ==> self.offer() == Some(self.price_spec()),
            self.engaged(now, factor).min_price == self.min_price,
            self.finished(now, factor).min_price == self.min_price,
            self.engaged(now, factor).profit_margin == self.profit_margin.times_spec(factor),
            self.finished(now, factor).profit_margin == self.profit_margin.times_spec(factor),
    {
    }

    /// An idle provider with a profit margin of 1 that has done nothing yet.
    pub open spec fn initial(id: Id, min_price: Fixed, usage_factor: Fixed) -> ProviderCommon {
        ProviderCommon {
            id,
            min_price,
            usage_factor,
            state: State::Idle,
            profit_margin: Fixed { raw: crate::fixed::SCALE },
            last_checkpoint: Fixed { raw: 0 },
            revenue: Fixed { raw: 0 },
            num_subtasks_assigned: 0,
            num_subtasks_computed: 0,
            num_subtasks_cancelled: 0,
        }
    }

    /// An idle provider with a profit margin of 1 that has done nothing yet.
    pub fn new(id: Id, min_price: Fixed, usage_factor: Fixed) -> (r: ProviderCommon)
        ensures
            r == Self::initial(id, min_price, usage_factor),
    {
        ProviderCommon {
            id,
            min_price,
            usage_factor,
            state: State::Idle,
            profit_margin: Fixed::one(),
            last_checkpoint: Fixed::zero(),
            revenue: Fixed::zero(),
            num_subtasks_assigned: 0,
            num_subtasks_computed: 0,
            num_subtasks_cancelled: 0,
        }
    }

    pub fn id(&self) -> (r: &Id)
        ensures
            *r == self.id,
    {
        &self.id
    }

    pub fn usage_factor(&self) -> (r: Fixed)
        ensures
            r == self.usage_factor,
    {
        self.usage_factor
    }

    /// The price that the provider asks.
    pub fn price(&self) -> (r: Fixed)
        ensures
            r == self.price_spec(),
    {
        Fixed::one().plus(self.profit_margin).times(self.min_price)
    }

    /// The time from the last checkpoint to `now`.
    pub fn elapsed(&self, now: Fixed) -> (r: Fixed)
        ensures
            r == self.elapsed_spec(now),
    {
        now.minus(self.last_checkpoint)
    }

    /// The exponent of the factor by which the profit margin rises over `duration`.
    pub fn growth_exponent(duration: Fixed) -> (r: Fixed)
        ensures
            r == (Fixed { raw: BETA_RAW }).times_spec(duration),
    {
        Fixed::from_raw(BETA_RAW).times(duration)
    }

    /// The exponent, without its sign, of the factor by which the profit
    /// margin falls over `duration`.
    pub fn decay_exponent(duration: Fixed) -> (r: Fixed)
        ensures
            r == (Fixed { raw: ALPHA_RAW }).times_spec(duration),
    {
        Fixed::from_raw(ALPHA_RAW).times(duration)
    }

    /// Raises the profit margin by the factor `growth`.
    pub fn increase_profit_margin(&mut self, growth: Fixed)
        ensures
            *final(self) == (ProviderCommon {
                profit_margin: old(self).profit_margin.times_spec(growth),
                ..*old(self)
            }),
    {
        self.profit_margin = self.profit_margin.times(growth);
    }

    /// Lowers the profit margin by the factor `decay`.
    pub fn decrease_profit_margin(&mut self, decay: Fixed)
        ensures
            *final(self) == (ProviderCommon {
                profit_margin: old(self).profit_margin.times_spec(decay),
                ..*old(self)
            }),
    {
        self.profit_margin = self.profit_margin.times(decay);
    }

    /// The provider's true efficiency, as the baseline for its rating.
    pub fn send_benchmark(&self) -> (r: Fixed)
        ensures
            r == self.usage_factor,
    {
        self.usage_factor
    }

    /// The provider's price, if it is idle.
    pub fn send_offer(&mut self) -> (r: Option<Fixed>)
        ensures
            *final(self) == *old(self),
            r == old(self).offer(),
    {
        match self.state {
            State::Idle => Some(self.price()),
            State::Busy => None,
        }
    }

    /// Accepts `subtask` at the price `bid`: the provider is busy, its profit
    /// margin falls by the factor `decay`, and the end of its work is
    /// scheduled: the subtask computed after the usage that the provider
    /// expects, or the budget used up after `budget / bid`.
    pub fn receive_subtask(
        &mut self,
        engine: &mut Engine<Event>,
        subtask: &SubTask,
        requestor_id: Id,
        bid: Fixed,
        decay: Fixed,
    )
        requires
            old(engine).wf(),
        ensures
            final(engine).wf(),
            *final(self) == old(self).engaged(old(engine)@.now, decay),
            final(engine)@ == old(engine)@.scheduled(
                old(self).working_time(*subtask, bid),
                old(self).outcome(*subtask, requestor_id, bid),
            ),
    {
        self.state = State::Busy;
        self.num_subtasks_assigned = bump(self.num_subtasks_assigned);
        self.decrease_profit_margin(decay);
        self.last_checkpoint = engine.now();
        let expected_usage = subtask.nominal_usage.times(self.usage_factor);
        if expected_usage.times(bid).raw > subtask.budget.raw {
            engine.schedule(
                subtask.budget.over(bid),
                Event::SubTaskBudgetExceeded(*subtask, requestor_id, self.id),
            );
        } else {
            engine.schedule(
                expected_usage,
                Event::SubTaskComputed(*subtask, requestor_id, self.id, bid),
            );
        }
    }

    /// Ends the work on a subtask that was computed: the provider is idle
    /// and its profit margin rises by the factor `growth`.
    pub fn finish_computing(&mut self, now: Fixed, subtask: &SubTask, requestor_id: Id, growth: Fixed)
        ensures
            *final(self) == old(self).finished(now, growth),
    {
        self.state = State::Idle;
        self.num_subtasks_computed = bump(self.num_subtasks_computed);
        self.increase_profit_margin(growth);
        self.last_checkpoint = now;
    }

    /// Adds `payment`, if there is one, to the revenue.
    pub fn receive_payment(&mut self, subtask: &SubTask, requestor_id: Id, payment: Option<Fixed>)
        ensures
            *final(self) == old(self).paid(payment),
            final(self).profit_margin == old(self).profit_margin,
            final(self).price_spec() == old(self).price_spec(),
    {
        match payment {
            Some(amount) => {
                self.revenue = self.revenue.plus(amount);
            },
            None => {},
        }
    }

    /// Ends the work on a subtask whose budget was used up: the provider is
    /// idle; its profit margin stays.
    pub fn cancel_computing(&mut self, now: Fixed, subtask: &SubTask, requestor_id: Id)
        ensures
            *final(self) == old(self).cancelled(now),
            final(self).profit_margin == old(self).profit_margin,
            final(self).price_spec() == old(self).price_spec(),
    {
        self.state = State::Idle;
        self.num_subtasks_cancelled = bump(self.num_subtasks_cancelled);
        self.last_checkpoint = now;
    }

    /// What is recorded of the provider at the end of the run `run_id`.
    pub fn into_stats(self, run_id: u64, behaviour: Behaviour) -> (r: Stats)
        ensures
            r == self.stats(run_id, behaviour),
    {
        Stats {
            run_id,
            behaviour,
            min_price: self.min_price,
            usage_factor: self.usage_factor,
            profit_margin: self.profit_margin,
            price: self.price(),
            revenue: self.revenue,
            num_subtasks_assigned: self.num_subtasks_assigned,
            num_subtasks_computed: self.num_subtasks_computed,
            num_subtasks_cancelled: self.num_subtasks_cancelled,
        }
    }
}

/// A provider of one of the three behaviours.
#[derive(Clone, Copy, Debug, PartialEq, Eq, Structural)]
pub enum Provider {
    Regular(RegularProvider),
    LinearUsageInflation(LinearUsageInflationProvider),
    UndercutBudget(UndercutBudgetProvider),
}

impl Provider {
    /// The state that the provider shares with those of other behaviours.
    pub open spec fn common(self) -> ProviderCommon {
        match self {
            Provider::Regular(p) => p.common,
            Provider::LinearUsageInflation(p) => p.common,
            Provider::UndercutBudget(p) => p.common,
        }
    }

    /// The provider with `common` for its common state.
    pub open spec fn with_common(self, common: ProviderCommon) -> Provider {
        match self {
            Provider::Regular(p) => Provider::Regular(RegularProvider { common, ..p }),
            Provider::LinearUsageInflation(p) => Provider::LinearUsageInflation(
                LinearUsageInflationProvider { common, ..p },
            ),
            Provider::UndercutBudget(p) => Provider::UndercutBudget(
                UndercutBudgetProvider { common, ..p },
            ),
        }
    }

    pub open spec fn behaviour_spec(self) -> Behaviour {
        match self {
            Provider::Regular(_) => Behaviour::Regular,
            Provider::LinearUsageInflation(_) => Behaviour::LinearUsageInflation,
            Provider::UndercutBudget(_) => Behaviour::UndercutBudget,
        }
    }

    /// The usage that the provider reports for `subtask` at the price `bid`,
    /// where `noise` is the factor by which a regular provider's measurement
    /// is off.
    pub open spec fn reported(self, subtask: SubTask, bid: Fixed, noise: Fixed) -> Fixed {
        match self {
            Provider::Regular(p) => p.reported(subtask, noise),
            Provider::LinearUsageInflation(p) => p.reported(subtask, bid),
            Provider::UndercutBudget(p) => p.reported(subtask, bid),
        }
    }

    /// A provider of the behaviour `behaviour` that has done nothing yet.
    /// `parameter` is the inflation factor of a provider that inflates its
    /// usage, the share left unclaimed of one that undercuts the budget, and
    /// nothing to a regular one.
    pub open spec fn initial(
        behaviour: Behaviour,
        parameter: Fixed,
        id: Id,
        min_price: Fixed,
        usage_factor: Fixed,
    ) -> Provider {
        let common = ProviderCommon::initial(id, min_price, usage_factor);
        match behaviour {
            Behaviour::Regular => Provider::Regular(RegularProvider { common }),
            Behaviour::LinearUsageInflation => Provider::LinearUsageInflation(
                LinearUsageInflationProvider { inflation_factor: parameter, common },
            ),
            Behaviour::UndercutBudget => Provider::UndercutBudget(
                UndercutBudgetProvider { epsilon: parameter, common },
            ),
        }
    }

    /// A provider of the behaviour `behaviour` under the identifier `id`.
    pub fn with_behaviour(
        behaviour: Behaviour,
        parameter: Fixed,
        id: Id,
        min_price: Fixed,
        usage_factor: Fixed,
    ) -> (r: Provider)
        ensures
            r == Self::initial(behaviour, parameter, id, min_price, usage_factor),
    {
        match behaviour {
            Behaviour::Regular => Provider::Regular(
                RegularProvider::with_id(id, min_price, usage_factor),
            ),
            Behaviour::LinearUsageInflation => Provider::LinearUsageInflation(
                LinearUsageInflationProvider::with_id(id, min_price, usage_factor, parameter),
            ),
            Behaviour::UndercutBudget => Provider::UndercutBudget(
                UndercutBudgetProvider::with_id(id, min_price, usage_factor, parameter),
            ),
        }
    }

    pub fn behaviour(&self) -> (r: Behaviour)
        ensures
            r == self.behaviour_spec(),
    {
        match self {
            Provider::Regular(_) => Behaviour::Regular,
            Provider::LinearUsageInflation(_) => Behaviour::LinearUsageInflation,
            Provider::UndercutBudget(_) => Behaviour::UndercutBudget,
        }
    }

    pub fn as_provider_common(&self) -> (r: &ProviderCommon)
        ensures
            *r == self.common(),
    {
        match self {
            Provider::Regular(p) => &p.common,
            Provider::LinearUsageInflation(p) => &p.common,
            Provider::UndercutBudget(p) => &p.common,
        }
    }

    pub fn id(&self) -> (r: Id)
        ensures
            r == self.common().id,
    {
        self.as_provider_common().id
    }

    /// Puts `common` in the place of the common state.
    pub fn set_common(&mut self, common: ProviderCommon)
        ensures
            *final(self) == old(self).with_common(common),
    {
        match self {
            Provider::Regular(p) => {
                p.common = common;
            },
            Provider::LinearUsageInflation(p) => {
                p.common = common;
            },
            Provider::UndercutBudget(p) => {
                p.common = common;
            },
        }
    }

    /// The usage that the provider reports for `subtask` at the price `bid`.
    pub fn report_usage(&self, subtask: &SubTask, bid: Fixed, noise: Fixed) -> (r: Fixed)
        ensures
            r == self.reported(*subtask, bid, noise),
    {
        match self {
            Provider::Regular(p) => p.report_usage(subtask, bid, noise),
            Provider::LinearUsageInflation(p) => p.report_usage(subtask, bid),
            Provider::UndercutBudget(p) => p.report_usage(subtask, bid),
        }
    }

    pub fn send_benchmark(&self) -> (r: Fixed)
        ensures
            r == self.common().usage_factor,
    {
        self.as_provider_common().send_benchmark()
    }

    pub fn send_offer(&mut self) -> (r: Option<Fixed>)
        ensures
            *final(self) == *old(self),
            r == old(self).common().offer(),
    {
        let mut common = *self.as_provider_common();
        common.send_offer()
    }

    pub fn receive_subtask(
        &mut self,
        engine: &mut Engine<Event>,
        subtask: &SubTask,
        requestor_id: Id,
        bid: Fixed,
        decay: Fixed,
    )
        requires
            old(engine).wf(),
        ensures
            final(engine).wf(),
            *final(self) == old(self).with_common(
                old(self).common().engaged(old(engine)@.now, decay),
            ),
            final(engine)@ == old(engine)@.scheduled(
                old(self).common().working_time(*subtask, bid),
                old(self).common().outcome(*subtask, requestor_id, bid),
            ),
    {
        let mut common = *self.as_provider_common();
        common.receive_subtask(engine, subtask, requestor_id, bid, decay);
        self.set_common(common);
    }

    pub fn finish_computing(&mut self, now: Fixed, subtask: &SubTask, requestor_id: Id, growth: Fixed)
        ensures
            *final(self) == old(self).with_common(old(self).common().finished(now, growth)),
    {
        let mut common = *self.as_provider_common();
        common.finish_computing(now, subtask, requestor_id, growth);
        self.set_common(common);
    }

    pub fn receive_payment(&mut self, subtask: &SubTask, requestor_id: Id, payment: Option<Fixed>)
        ensures
            *final(self) == old(self).with_common(old(self).common().paid(payment)),
    {
        let mut common = *self.as_provider_common();
        common.receive_payment(subtask, requestor_id, payment);
        self.set_common(common);
    }

    pub fn cancel_computing(&mut self, now: Fixed, subtask: &SubTask, requestor_id: Id)
        ensures
            *final(self) == old(self).with_common(old(self).common().cancelled(now)),
    {
        let mut common = *self.as_provider_common();
        common.cancel_computing(now, subtask, requestor_id);
        self.set_common(common);
    }

    /// What is recorded of the provider at the end of the run `run_id`.
    pub fn into_stats(self, run_id: u64) -> (r: Stats)
        ensures
            r == self.common().stats(run_id, self.behaviour_spec()),
    {
        let behaviour = self.behaviour();
        self.as_provider_common().into_stats(run_id, behaviour)
    }
}

} // verus!
