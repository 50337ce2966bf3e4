use golem_des::engine::Engine;
use golem_des::fixed::Fixed;
use golem_des::id::{Id, IdSource};
use golem_des::provider::{Behaviour, Provider, ProviderCommon, State};
use golem_des::provider::linear_usage_inflation::LinearUsageInflationProvider;
use golem_des::provider::regular::RegularProvider;
use golem_des::provider::undercut_budget::UndercutBudgetProvider;
use golem_des::task::SubTask;
use golem_des::world::Event;
use rand::distributions::{Distribution, Normal};
use rand::SeedableRng;
use rand_chacha::ChaChaRng;

fn fx(x: f64) -> Fixed {
    Fixed::from_raw((x * 1e9).round() as u64)
}

fn fl(x: Fixed) -> f64 {
    x.raw() as f64 / 1e9
}

fn almost(a: f64, b: f64, tolerance: f64) -> bool {
    (a - b).abs() <= tolerance
}

#[test]
fn send_offer() {
    let mut ids = IdSource::new();
    let mut provider = ProviderCommon::new(Id::new(&mut ids), fx(1.0), fx(1.0));
    provider.state = State::Idle;

    assert_eq!(provider.send_offer(), Some(fx(2.0)));

    provider.state = State::Busy;

    assert_eq!(provider.send_offer(), None);
}

#[test]
fn increase_profit_margin() {
    let mut ids = IdSource::new();
    let mut provider = ProviderCommon::new(Id::new(&mut ids), fx(1.0), fx(1.0));

    assert!(almost(fl(provider.profit_margin), 1.0, 1e-5));

    let exponent = ProviderCommon::growth_exponent(fx(1000.0));
    assert_eq!(exponent, fx(0.01));
    provider.increase_profit_margin(fx(fl(exponent).exp()));

    assert!(almost(fl(provider.profit_margin), 1.01005, 1e-5));
}

#[test]
fn decrease_profit_margin() {
    let mut ids = IdSource::new();
    let mut provider = ProviderCommon::new(Id::new(&mut ids), fx(1.0), fx(1.0));

    assert!(almost(fl(provider.profit_margin), 1.0, 1e-5));

    let exponent = ProviderCommon::decay_exponent(fx(1000.0));
    assert_eq!(exponent, fx(0.01));
    provider.decrease_profit_margin(fx((-fl(exponent)).exp()));

    assert!(almost(fl(provider.profit_margin), 0.99004, 1e-5));
}

#[test]
fn linear_usage_inflation_report_usage() {
    let mut ids = IdSource::new();
    let mut provider = LinearUsageInflationProvider::new(&mut ids, fx(0.1), fx(0.5), fx(1.0));
    let subtask = SubTask::new(&mut ids, fx(100.0), fx(100.0));
    assert!(almost(50.0, fl(provider.report_usage(&subtask, fx(1.0))), 1e-3));

    provider.common.num_subtasks_computed = 1;
    assert!(almost(51.0, fl(provider.report_usage(&subtask, fx(1.0))), 1e-3));

    provider.common.num_subtasks_computed = 50;
    assert!(almost(100.0, fl(provider.report_usage(&subtask, fx(1.0))), 1e-3));

    provider.common.num_subtasks_computed = 51;
    assert!(almost(100.0, fl(provider.report_usage(&subtask, fx(1.0))), 1e-3));

    provider.common.num_subtasks_computed = 100;
    assert!(almost(100.0, fl(provider.report_usage(&subtask, fx(1.0))), 1e-3));
}

#[test]
fn regular_report_usage() {
    // The measurement of a regular provider is off by a factor drawn around
    // one with a standard deviation of five per cent; what it reports lies
    // within that jitter of its true usage.
    let mut rng = ChaChaRng::seed_from_u64(7);
    let jitter = Normal::new(0.0, fl(RegularProvider::usage_jitter()));
    let mut ids = IdSource::new();
    let mut provider = RegularProvider::new(&mut ids, fx(0.1), fx(0.25));
    let subtask = SubTask::new(&mut ids, fx(100.0), fx(100.0));

    for bid in [0.1, 0.5, 1.0].iter() {
        let noise = 1.0 + jitter.sample(&mut rng);
        let usage = fl(provider.report_usage(&subtask, fx(*bid), fx(noise)));
        assert!(almost(usage, 25.0 * noise, 1e-6));
        assert!(almost(usage.round(), 25.0, 25.0 * 0.05 * 5.0));
    }
    assert_eq!(provider.report_usage(&subtask, fx(0.1), fx(1.0)), fx(25.0));

    provider.common.usage_factor = fx(0.75);

    for bid in [0.1, 0.5, 1.0].iter() {
        let noise = 1.0 + jitter.sample(&mut rng);
        let usage = fl(provider.report_usage(&subtask, fx(*bid), fx(noise)));
        assert!(almost(usage, 75.0 * noise, 1e-6));
        assert!(almost(usage.round(), 75.0, 75.0 * 0.05 * 5.0));
    }
    assert_eq!(provider.report_usage(&subtask, fx(1.0), fx(1.0)), fx(75.0));
}

#[test]
fn undercut_budget_report_usage() {
    let mut ids = IdSource::new();
    let mut provider = UndercutBudgetProvider::new(&mut ids, fx(0.1), fx(0.1), fx(0.0));
    let subtask = SubTask::new(&mut ids, fx(100.0), fx(100.0));

    assert!(almost(fl(provider.report_usage(&subtask, fx(1.0))), 100.0, 1e-6));
    assert!(almost(fl(provider.report_usage(&subtask, fx(0.1))) * 0.1, 100.0, 1e-6));

    provider.epsilon = fx(0.5);

    assert!(almost(fl(provider.report_usage(&subtask, fx(1.0))), 50.0, 1e-6));
    assert!(almost(fl(provider.report_usage(&subtask, fx(0.1))) * 0.1, 50.0, 1e-6));
    assert_eq!(provider.report_usage(&subtask, fx(1.0)), fx(50.0));
    assert_eq!(provider.report_usage(&subtask, fx(0.1)), fx(500.0));
}

#[test]
fn a_provider_within_budget_schedules_the_computation() {
    let mut engine: Engine<Event> = Engine::new();
    let requestor = Id::from_value(1);
    let mut provider = ProviderCommon::new(Id::from_value(2), fx(1.0), fx(0.5));
    let subtask = SubTask::with_id(Id::from_value(3), fx(100.0), fx(100.0));

    provider.receive_subtask(&mut engine, &subtask, requestor, fx(2.0), fx(0.5));

    assert_eq!(provider.state, State::Busy);
    assert_eq!(provider.num_subtasks_assigned, 1);
    assert_eq!(provider.profit_margin, fx(0.5));
    assert_eq!(provider.send_offer(), None);
    assert_eq!(
        engine.pop(),
        Some(Event::SubTaskComputed(subtask, requestor, Id::from_value(2), fx(2.0)))
    );
    assert_eq!(engine.now(), fx(50.0));

    provider.finish_computing(engine.now(), &subtask, requestor, fx(3.0));
    assert_eq!(provider.state, State::Idle);
    assert_eq!(provider.num_subtasks_computed, 1);
    assert_eq!(provider.profit_margin, fx(1.5));
    assert_eq!(provider.last_checkpoint, fx(50.0));
    assert_eq!(provider.price(), fx(2.5));
    assert_eq!(provider.send_offer(), Some(fx(2.5)));
}

#[test]
fn a_provider_over_budget_schedules_the_cancellation() {
    let mut engine: Engine<Event> = Engine::new();
    let requestor = Id::from_value(1);
    let mut provider = ProviderCommon::new(Id::from_value(2), fx(1.0), fx(0.5));
    let subtask = SubTask::with_id(Id::from_value(3), fx(100.0), fx(100.0));

    provider.receive_subtask(&mut engine, &subtask, requestor, fx(4.0), fx(1.0));

    assert_eq!(
        engine.pop(),
        Some(Event::SubTaskBudgetExceeded(subtask, requestor, Id::from_value(2)))
    );
    assert_eq!(engine.now(), fx(25.0));

    let price = provider.price();
    provider.cancel_computing(engine.now(), &subtask, requestor);
    assert_eq!(provider.state, State::Idle);
    assert_eq!(provider.num_subtasks_cancelled, 1);
    assert_eq!(provider.num_subtasks_computed, 0);
    assert_eq!(provider.price(), price);
    assert_eq!(provider.elapsed(fx(30.0)), fx(5.0));
}

#[test]
fn payments_add_up_and_leave_the_price_alone() {
    let mut provider = ProviderCommon::new(Id::from_value(2), fx(0.5), fx(1.0));
    let subtask = SubTask::with_id(Id::from_value(3), fx(1.0), fx(1.0));
    let price = provider.price();
    assert_eq!(price, fx(1.0));
    provider.receive_payment(&subtask, Id::from_value(1), Some(fx(2.5)));
    provider.receive_payment(&subtask, Id::from_value(1), None);
    provider.receive_payment(&subtask, Id::from_value(1), Some(fx(0.25)));
    assert_eq!(provider.revenue, fx(2.75));
    assert_eq!(provider.price(), price);
    assert_eq!(provider.send_benchmark(), fx(1.0));
}

#[test]
fn a_provider_of_any_behaviour_shares_the_common_steps() {
    let mut engine: Engine<Event> = Engine::new();
    let subtask = SubTask::with_id(Id::from_value(9), fx(10.0), fx(100.0));
    let mut provider = Provider::UndercutBudget(UndercutBudgetProvider::with_id(
        Id::from_value(4),
        fx(1.0),
        fx(1.0),
        fx(0.1),
    ));
    assert_eq!(provider.behaviour(), Behaviour::UndercutBudget);
    assert_eq!(provider.id(), Id::from_value(4));
    assert_eq!(provider.send_offer(), Some(fx(2.0)));
    provider.receive_subtask(&mut engine, &subtask, Id::from_value(1), fx(2.0), fx(1.0));
    assert_eq!(provider.send_offer(), None);
    provider.finish_computing(fx(10.0), &subtask, Id::from_value(1), fx(1.0));
    assert_eq!(provider.report_usage(&subtask, fx(2.0), fx(1.0)), fx(45.0));
    provider.receive_payment(&subtask, Id::from_value(1), Some(fx(90.0)));
    let stats = provider.into_stats(3);
    assert_eq!(stats.run_id, 3);
    assert_eq!(stats.behaviour, Behaviour::UndercutBudget);
    assert_eq!(stats.revenue, fx(90.0));
    assert_eq!(stats.price, fx(2.0));
    assert_eq!(stats.num_subtasks_assigned, 1);
    assert_eq!(stats.num_subtasks_computed, 1);
    assert_eq!(stats.num_subtasks_cancelled, 0);
}

#[test]
fn a_provider_of_a_given_behaviour() {
    let id = Id::from_value(3);
    let subtask = SubTask::with_id(Id::from_value(9), fx(10.0), fx(100.0));
    let regular = Provider::with_behaviour(Behaviour::Regular, fx(7.0), id, fx(1.0), fx(0.5));
    assert_eq!(regular, Provider::Regular(RegularProvider::with_id(id, fx(1.0), fx(0.5))));
    assert_eq!(regular.report_usage(&subtask, fx(2.0), fx(1.1)), fx(5.5));
    let inflating =
        Provider::with_behaviour(Behaviour::LinearUsageInflation, fx(7.0), id, fx(1.0), fx(0.5));
    assert_eq!(
        inflating,
        Provider::LinearUsageInflation(LinearUsageInflationProvider::with_id(
            id,
            fx(1.0),
            fx(0.5),
            fx(7.0)
        ))
    );
    assert_eq!(inflating.report_usage(&subtask, fx(2.0), fx(1.1)), fx(5.0));
    let undercutting =
        Provider::with_behaviour(Behaviour::UndercutBudget, fx(0.2), id, fx(1.0), fx(0.5));
    assert_eq!(undercutting.behaviour(), Behaviour::UndercutBudget);
    assert_eq!(undercutting.report_usage(&subtask, fx(2.0), fx(1.1)), fx(40.0));
    assert_eq!(undercutting.send_benchmark(), fx(0.5));
}
