use golem_des::defence::ctasks::UsageMeans;
use golem_des::defence::lgrola::OutlierStatistics;
use golem_des::defence::{DefenceMechanismType, StatisticsDue, TaskStatistics};
use golem_des::error::SimulationError;
use golem_des::fixed::Fixed;
use golem_des::id::{Id, IdSource};
use golem_des::provider::linear_usage_inflation::LinearUsageInflationProvider;
use golem_des::provider::regular::RegularProvider;
use golem_des::provider::undercut_budget::UndercutBudgetProvider;
use golem_des::provider::{Behaviour, Provider, State};
use golem_des::requestor::Requestor;
use golem_des::task::{Status, SubTask, Task};
use golem_des::world::{Demand, Event, FollowUp, Numerics, World};
use rand::SeedableRng;
use rand_chacha::ChaChaRng;
use statrs::statistics::{OrderStatistics, Statistics};

fn fx(x: f64) -> Fixed {
    Fixed::from_raw((x * 1e9).round() as u64)
}

fn fl(x: Fixed) -> f64 {
    x.raw() as f64 / 1e9
}

fn statistics(world: &World, requestor_id: Id) -> TaskStatistics {
    let requestor = world.get_requestor(requestor_id).unwrap();
    match world.statistics_due(requestor_id).unwrap() {
        StatisticsDue::NotNeeded => TaskStatistics::NotNeeded,
        StatisticsDue::Means(_) => {
            let ctasks = match &requestor.defence_mechanism {
                golem_des::defence::DefenceMechanism::CTasks(ctasks) => ctasks,
                _ => unreachable!(),
            };
            let per_provider: Vec<f64> = ctasks
                .task_usages
                .entries
                .iter()
                .map(|(_, usages)| usages.iter().map(|u| fl(*u)).geometric_mean())
                .collect();
            let ratings: Vec<f64> = ctasks
                .task_usages
                .entries
                .iter()
                .map(|(id, _)| fl(*ctasks.common.ratings.get(*id).unwrap()))
                .collect();
            TaskStatistics::Means(UsageMeans {
                overall_usage: fx(per_provider.iter().geometric_mean()),
                overall_rating: fx(ratings.iter().geometric_mean()),
                per_provider: per_provider.into_iter().map(fx).collect(),
            })
        }
        StatisticsDue::Outliers(_) => {
            let lgrola = match &requestor.defence_mechanism {
                golem_des::defence::DefenceMechanism::LGRola(lgrola) => lgrola,
                _ => unreachable!(),
            };
            let per_provider: Vec<f64> = lgrola
                .task_usages
                .entries
                .iter()
                .map(|(_, usages)| usages.iter().map(|u| fl(*u)).geometric_mean())
                .collect();
            let mut sorted = per_provider.clone();
            let upper_quartile = sorted.upper_quartile();
            let interquartile_range = sorted.interquartile_range();
            TaskStatistics::Outliers(OutlierStatistics {
                ban_lengths: lgrola
                    .task_usages
                    .entries
                    .iter()
                    .map(|(id, _)| (lgrola.next_collisions(*id) as f64).exp().ceil() as u64)
                    .collect(),
                per_provider: per_provider.into_iter().map(fx).collect(),
                upper_quartile: fx(upper_quartile),
                interquartile_range: fx(interquartile_range),
            })
        }
    }
}

fn schedule_advertise(world: &mut World, rng: &mut ChaChaRng) {
    let order = world.requestor_order(rng);
    let delays: Vec<Fixed> = order
        .iter()
        .map(|id| {
            if world.will_pull(*id).unwrap() {
                fx(30.0)
            } else {
                Fixed::zero()
            }
        })
        .collect();
    world.schedule_advertise(&order, &delays).unwrap();
}

fn numerics_for(world: &World, event: &Event) -> Numerics {
    let mut numerics = Numerics {
        decays: Vec::new(),
        growth: Fixed::one(),
        noise: Fixed::one(),
    };
    match *event {
        Event::TaskAdvertisement(_) => {
            numerics.decays = world
                .decay_exponents()
                .into_iter()
                .map(|exponent| fx((-fl(exponent)).exp()))
                .collect();
        }
        Event::SubTaskComputed(_, _, provider_id, _) => {
            numerics.growth = fx(fl(world.growth_exponent(provider_id).unwrap()).exp());
        }
        Event::SubTaskBudgetExceeded(_, _, _) => {}
    }
    numerics
}

/// Runs the world until `until` and returns the times at which events left
/// the engine.
fn run(world: &mut World, rng: &mut ChaChaRng, until: Fixed) -> Vec<Fixed> {
    let mut times = Vec::new();
    world.started();
    schedule_advertise(world, rng);
    while let Some(event) = world.next_event(until) {
        times.push(world.now());
        let numerics = numerics_for(world, &event);
        match world.handle(event, &numerics) {
            Ok(FollowUp::Nothing) => {}
            Ok(FollowUp::Advertise) => schedule_advertise(world, rng),
            Ok(FollowUp::CompleteAndAdvertise(requestor_id)) => {
                let stats = statistics(world, requestor_id);
                world.complete_task(requestor_id, &stats).unwrap();
                schedule_advertise(world, rng);
            }
            // An advertisement that outlived its task finds nothing to hand out.
            Err(SimulationError::TaskNotFound(_)) => {
                assert_eq!(event, Event::TaskAdvertisement(event_requestor(&event)));
            }
            Err(e) => panic!("{:?}", e),
        }
    }
    times
}

fn event_requestor(event: &Event) -> Id {
    match *event {
        Event::TaskAdvertisement(id) => id,
        Event::SubTaskComputed(_, id, _, _) => id,
        Event::SubTaskBudgetExceeded(_, id, _) => id,
    }
}

fn market(defence: DefenceMechanismType, repeating: bool) -> (World, Vec<Id>, Vec<Id>) {
    let mut ids = IdSource::new();
    let mut requestors = Vec::new();
    let mut requestor_ids = Vec::new();
    for _ in 0..2 {
        let mut requestor = Requestor::new(&mut ids, fx(1.0), fx(2.0), defence);
        let mut task = Task::new(&mut ids);
        for nominal_usage in [10.0, 20.0, 30.0].iter() {
            let budget = requestor.budget_for(fx(*nominal_usage));
            task.push_pending(SubTask::new(&mut ids, fx(*nominal_usage), budget));
        }
        requestor.task_queue_mut().push(task);
        requestor.task_queue_mut().repeating = repeating;
        requestor_ids.push(*requestor.id());
        requestors.push(requestor);
    }
    let providers = vec![
        Provider::Regular(RegularProvider::new(&mut ids, fx(0.1), fx(0.5))),
        Provider::Regular(RegularProvider::new(&mut ids, fx(0.2), fx(0.75))),
        Provider::LinearUsageInflation(LinearUsageInflationProvider::new(
            &mut ids,
            fx(0.1),
            fx(0.5),
            fx(1.0),
        )),
        Provider::UndercutBudget(UndercutBudgetProvider::new(
            &mut ids,
            fx(0.1),
            fx(0.5),
            fx(0.01),
        )),
        // So slow and so dear that it always runs out of budget.
        Provider::Regular(RegularProvider::new(&mut ids, fx(0.05), fx(50.0))),
    ];
    let provider_ids = providers.iter().map(|p| p.id()).collect();
    let mut world = World::new(ids);
    world.append_requestors(requestors);
    world.append_providers(providers);
    (world, requestor_ids, provider_ids)
}

#[test]
fn a_replication_keeps_its_books() {
    for defence in [
        DefenceMechanismType::Redundancy,
        DefenceMechanismType::CTasks,
        DefenceMechanismType::LGRola,
    ]
    .iter()
    {
        let (mut world, requestor_ids, provider_ids) = market(*defence, false);
        let mut rng = ChaChaRng::seed_from_u64(1);
        let times = run(&mut world, &mut rng, fx(100_000.0));

        // Time never runs backwards.
        assert!(!times.is_empty());
        for pair in times.windows(2) {
            assert!(pair[0] <= pair[1]);
        }
        assert_eq!(*times.last().unwrap(), world.now());

        for id in requestor_ids.iter() {
            let requestor = world.get_requestor(*id).unwrap();
            assert!(requestor.num_tasks_computed <= requestor.num_tasks_advertised);
            assert_eq!(requestor.num_tasks_advertised, 1);
            if let Some(task) = &requestor.task {
                assert_eq!(task.size(), 3);
                assert_eq!(task.pending_len() + task.in_flight() + task.done_len(), 3);
            } else {
                assert_eq!(requestor.num_tasks_computed, 1);
                assert_eq!(requestor.num_subtasks_computed, 3);
            }
        }
        let mut assigned = 0;
        let mut settled = 0;
        for id in provider_ids.iter() {
            let provider = world.get_provider(*id).unwrap().as_provider_common();
            assigned += provider.num_subtasks_assigned;
            settled += provider.num_subtasks_computed + provider.num_subtasks_cancelled;
            assert_eq!(
                provider.price(),
                Fixed::one().plus(provider.profit_margin).times(provider.min_price)
            );
        }
        assert!(settled <= assigned);
        assert!(assigned > 0);
    }
}

#[test]
fn two_replications_of_one_seed_agree() {
    let mut outcomes = Vec::new();
    for _ in 0..2 {
        let (mut world, _, _) = market(DefenceMechanismType::Redundancy, true);
        let mut rng = ChaChaRng::seed_from_u64(42);
        let times = run(&mut world, &mut rng, fx(5_000.0));
        outcomes.push((times, world.into_stats(0)));
    }
    assert!(outcomes[0].0.len() > 3);
    assert_eq!(outcomes[0], outcomes[1]);
}

#[test]
fn the_order_of_advertisement_is_a_shuffle_of_the_requestors() {
    let mut ids = IdSource::new();
    let mut world = World::new(IdSource::starting_at(1000));
    let mut expected = Vec::new();
    for _ in 0..20 {
        let requestor = Requestor::new(&mut ids, fx(1.0), fx(1.0), DefenceMechanismType::CTasks);
        expected.push(*requestor.id());
        world.push_requestor(requestor);
    }
    let mut rng = ChaChaRng::seed_from_u64(3);
    let order = world.requestor_order(&mut rng);
    assert_ne!(order, expected);
    let mut sorted = order.clone();
    sorted.sort();
    assert_eq!(sorted, expected);
    let again = world.requestor_order(&mut rng);
    assert_ne!(again, order);
}

#[test]
fn startup_hands_every_benchmark_to_every_requestor() {
    let (mut world, requestor_ids, provider_ids) = market(DefenceMechanismType::CTasks, false);
    world.started();
    for id in requestor_ids.iter() {
        let common = world.get_requestor(*id).unwrap().defence_mechanism.as_dm_common();
        assert_eq!(common.ratings.len(), 5);
        assert_eq!(common.get_provider_rating(provider_ids[0]), Some(fx(0.5)));
        assert_eq!(common.get_provider_rating(provider_ids[1]), Some(fx(0.75)));
        assert_eq!(common.get_provider_rating(provider_ids[4]), Some(fx(50.0)));
    }
}

#[test]
fn the_steps_of_an_advertisement() {
    let (mut world, requestor_ids, provider_ids) = market(DefenceMechanismType::CTasks, false);
    let requestor = requestor_ids[0];
    world.started();
    assert_eq!(world.will_pull(requestor), Ok(true));
    assert_eq!(world.advertise(requestor, fx(5.0)), Ok(()));
    assert_eq!(world.next_event(fx(4.0)), None);
    assert_eq!(world.now(), fx(5.0));

    assert_eq!(
        world.collect_offers(),
        vec![
            (provider_ids[0], fx(0.2)),
            (provider_ids[1], fx(0.4)),
            (provider_ids[2], fx(0.2)),
            (provider_ids[3], fx(0.2)),
            (provider_ids[4], fx(0.1)),
        ]
    );
    // Ranked by price times rating: 0.1, 0.1, 0.1, 0.3, 5.0.
    let assignments = world.select_offers(requestor).unwrap();
    assert_eq!(assignments.len(), 3);
    assert_eq!(assignments[0].0, provider_ids[0]);
    assert_eq!(assignments[1].0, provider_ids[2]);
    assert_eq!(assignments[2].0, provider_ids[3]);
    assert_eq!(assignments[0].1.nominal_usage, fx(10.0));
    assert_eq!(assignments[0].1.budget, fx(20.0));

    let (provider, subtask, bid) = assignments[0];
    assert_eq!(world.decay_exponent(provider), Ok(fx(0.00005)));
    assert_eq!(world.receive_subtask(provider, &subtask, requestor, bid, fx(0.5)), Ok(()));
    assert_eq!(world.get_provider(provider).unwrap().as_provider_common().state, State::Busy);
    assert_eq!(world.collect_offers().len(), 4);
    assert_eq!(
        world.next_event(fx(1000.0)),
        Some(Event::SubTaskComputed(subtask, requestor, provider, bid))
    );
    assert_eq!(world.now(), fx(10.0));
    assert_eq!(world.growth_exponent(provider), Ok(fx(0.00005)));
    assert_eq!(
        world.handle_compute(subtask, requestor, provider, bid, fx(2.0), fx(1.0)),
        Ok(Status::Done)
    );
    let common = *world.get_provider(provider).unwrap().as_provider_common();
    assert_eq!(common.state, State::Idle);
    assert_eq!(common.profit_margin, fx(1.0));
    assert_eq!(common.revenue, fx(1.0));
    let books = world.get_requestor(requestor).unwrap();
    assert_eq!(books.num_subtasks_computed, 1);
    assert_eq!(books.mean_cost, (1, fx(0.05)));
    assert_eq!(world.statistics_due(requestor), Ok(StatisticsDue::NotNeeded));
    assert_eq!(world.complete_task(requestor, &TaskStatistics::NotNeeded), Ok(false));

    let (provider, subtask, _) = assignments[1];
    assert_eq!(
        world.handle_budget_exceeded(subtask, requestor, provider),
        Ok(Status::Cancelled)
    );
    assert_eq!(world.get_requestor(requestor).unwrap().num_subtasks_cancelled, 1);
    assert_eq!(
        world.get_provider(provider).unwrap().as_provider_common().num_subtasks_cancelled,
        1
    );
}

#[test]
fn steps_for_actors_that_the_world_does_not_hold() {
    let (mut world, requestor_ids, provider_ids) = market(DefenceMechanismType::Redundancy, false);
    let stranger = Id::from_value(999);
    let subtask = SubTask::with_id(Id::from_value(998), fx(1.0), fx(1.0));
    assert_eq!(world.advertise(stranger, fx(1.0)), Err(SimulationError::RequestorNotFound(stranger)));
    assert_eq!(world.will_pull(stranger), Err(SimulationError::RequestorNotFound(stranger)));
    assert_eq!(world.select_offers(stranger), Err(SimulationError::RequestorNotFound(stranger)));
    assert_eq!(
        world.select_offers(requestor_ids[0]),
        Err(SimulationError::TaskNotFound(requestor_ids[0]))
    );
    assert_eq!(
        world.receive_subtask(stranger, &subtask, requestor_ids[0], fx(1.0), fx(1.0)),
        Err(SimulationError::ProviderNotFound(stranger))
    );
    assert_eq!(
        world.receive_subtask(provider_ids[0], &subtask, stranger, fx(1.0), fx(1.0)),
        Err(SimulationError::RequestorNotFound(stranger))
    );
    assert_eq!(
        world.get_provider(provider_ids[0]).unwrap().as_provider_common().state,
        State::Idle
    );
    assert_eq!(
        world.handle_compute(subtask, stranger, provider_ids[0], fx(1.0), fx(1.0), fx(1.0)),
        Err(SimulationError::RequestorNotFound(stranger))
    );
    assert_eq!(
        world.handle_compute(subtask, requestor_ids[0], stranger, fx(1.0), fx(1.0), fx(1.0)),
        Err(SimulationError::ProviderNotFound(stranger))
    );
    assert_eq!(
        world.handle_compute(subtask, requestor_ids[0], provider_ids[0], fx(1.0), fx(1.0), fx(1.0)),
        Err(SimulationError::TaskNotFound(requestor_ids[0]))
    );
    assert_eq!(
        world.handle_budget_exceeded(subtask, requestor_ids[0], stranger),
        Err(SimulationError::ProviderNotFound(stranger))
    );
    assert_eq!(
        world.complete_task(stranger, &TaskStatistics::NotNeeded),
        Err(SimulationError::RequestorNotFound(stranger))
    );
    assert_eq!(world.decay_exponent(stranger), Err(SimulationError::ProviderNotFound(stranger)));
    assert_eq!(world.statistics_due(stranger), Err(SimulationError::RequestorNotFound(stranger)));
    assert!(world.get_provider(stranger).is_none());
    assert_eq!(
        world.get_provider(provider_ids[2]).unwrap().behaviour(),
        Behaviour::LinearUsageInflation
    );
}

#[test]
fn an_advertisement_in_one_step() {
    let (mut world, requestor_ids, provider_ids) = market(DefenceMechanismType::Redundancy, false);
    let requestor = requestor_ids[1];
    world.started();
    assert_eq!(world.advertise(requestor, fx(5.0)), Ok(()));
    assert_eq!(world.next_event(fx(10.0)), Some(Event::TaskAdvertisement(requestor)));
    assert_eq!(world.decay_exponents(), vec![fx(0.00005); 5]);

    let decays = vec![fx(0.5), fx(0.25), fx(1.0), fx(2.0), fx(4.0)];
    assert_eq!(world.handle_advertise(requestor, &decays), Ok(()));

    // Five offers make two pairs; the slow provider is ranked last and is left out.
    let margins: Vec<(State, Fixed)> = provider_ids
        .iter()
        .map(|id| {
            let common = world.get_provider(*id).unwrap().as_provider_common();
            (common.state, common.profit_margin)
        })
        .collect();
    assert_eq!(
        margins,
        vec![
            (State::Busy, fx(0.5)),
            (State::Busy, fx(0.25)),
            (State::Busy, fx(1.0)),
            (State::Busy, fx(2.0)),
            (State::Idle, fx(1.0)),
        ]
    );
    let task = world.get_requestor(requestor).unwrap().task.as_ref().unwrap();
    assert_eq!((task.pending_len(), task.in_flight(), task.done_len()), (1, 2, 0));

    // The first subtask went to the first and the third provider, which take
    // five units of time for it; the second one to the fourth and the second.
    let mut outcomes = Vec::new();
    while let Some(event) = world.next_event(fx(1000.0)) {
        match event {
            Event::SubTaskComputed(subtask, _, provider, _) => {
                outcomes.push((fl(world.now()), fl(subtask.nominal_usage), provider))
            }
            other => panic!("{:?}", other),
        }
    }
    assert_eq!(
        outcomes,
        vec![
            (10.0, 10.0, provider_ids[0]),
            (10.0, 10.0, provider_ids[2]),
            (15.0, 20.0, provider_ids[3]),
            (20.0, 20.0, provider_ids[1]),
        ]
    );

    assert_eq!(
        world.handle_advertise(Id::from_value(999), &decays),
        Err(SimulationError::RequestorNotFound(Id::from_value(999)))
    );
    assert_eq!(
        world.handle_advertise(requestor_ids[0], &decays),
        Err(SimulationError::TaskNotFound(requestor_ids[0]))
    );
}

#[test]
fn a_round_of_advertisements() {
    let (mut world, requestor_ids, _) = market(DefenceMechanismType::CTasks, false);
    let stranger = Id::from_value(999);
    let order = vec![requestor_ids[1], requestor_ids[0]];
    assert_eq!(
        world.schedule_advertise(&vec![requestor_ids[1], stranger], &vec![fx(1.0), fx(2.0)]),
        Err(SimulationError::RequestorNotFound(stranger))
    );
    assert_eq!(world.next_event(fx(100.0)), None);

    assert_eq!(world.schedule_advertise(&order, &vec![fx(7.0), fx(7.0)]), Ok(()));
    for id in requestor_ids.iter() {
        assert_eq!(world.get_requestor(*id).unwrap().num_tasks_advertised, 1);
    }
    // Both advertisements are due at the same time: they leave in the order
    // in which the requestors advertised.
    assert_eq!(
        world.next_event(fx(100.0)),
        Some(Event::TaskAdvertisement(requestor_ids[1]))
    );
    assert_eq!(
        world.next_event(fx(100.0)),
        Some(Event::TaskAdvertisement(requestor_ids[0]))
    );
    assert_eq!(world.next_event(fx(100.0)), None);
    assert_eq!(world.now(), fx(7.0));
}

#[test]
fn every_event_has_its_step_and_its_sequel() {
    let (mut world, requestor_ids, provider_ids) = market(DefenceMechanismType::CTasks, false);
    let requestor = requestor_ids[0];
    world.started();
    assert_eq!(world.schedule_advertise(&vec![requestor], &vec![fx(1.0)]), Ok(()));
    let event = world.next_event(fx(100.0)).unwrap();
    assert_eq!(event, Event::TaskAdvertisement(requestor));
    let numerics = Numerics {
        decays: vec![fx(1.0); 5],
        growth: fx(1.0),
        noise: fx(1.0),
    };
    assert_eq!(world.handle(event, &numerics), Ok(FollowUp::Nothing));

    let mut computed = 0;
    let mut exceeded = 0;
    while let Some(event) = world.next_event(fx(100.0)) {
        match event {
            Event::SubTaskComputed(_, _, _, _) => {
                assert_eq!(
                    world.handle(event, &numerics),
                    Ok(FollowUp::CompleteAndAdvertise(requestor))
                );
                computed += 1;
            }
            Event::SubTaskBudgetExceeded(_, _, _) => {
                assert_eq!(world.handle(event, &numerics), Ok(FollowUp::Advertise));
                exceeded += 1;
            }
            Event::TaskAdvertisement(_) => panic!("no advertisement was scheduled"),
        }
    }
    assert_eq!((computed, exceeded), (3, 0));
    let books = world.get_requestor(requestor).unwrap();
    assert_eq!(books.num_subtasks_computed, 3);
    assert!(books.task.as_ref().unwrap().is_done());
    assert_eq!(world.statistics_due(requestor), Ok(StatisticsDue::Means(3)));
    let _ = provider_ids;

    assert_eq!(
        world.handle(Event::TaskAdvertisement(Id::from_value(999)), &numerics),
        Err(SimulationError::RequestorNotFound(Id::from_value(999)))
    );
}

#[test]
fn what_a_step_demands() {
    let (mut world, requestor_ids, provider_ids) = market(DefenceMechanismType::CTasks, false);
    let subtask = SubTask::with_id(Id::from_value(50), fx(1.0), fx(1.0));
    world.started();
    assert_eq!(world.schedule_advertise(&vec![requestor_ids[0]], &vec![fx(2000.0)]), Ok(()));
    let advertisement = world.next_event(fx(5000.0)).unwrap();
    match world.demand(advertisement) {
        Ok(Demand::Decays(exponents)) => assert_eq!(exponents, vec![fx(0.02); 5]),
        other => panic!("{:?}", other),
    }
    match world.demand(Event::SubTaskComputed(subtask, requestor_ids[0], provider_ids[0], fx(1.0))) {
        Ok(Demand::Growth { exponent, noise }) => {
            assert_eq!(exponent, fx(0.02));
            assert!(noise);
        }
        other => panic!("{:?}", other),
    }
    match world.demand(Event::SubTaskComputed(subtask, requestor_ids[0], provider_ids[3], fx(1.0))) {
        Ok(Demand::Growth { noise, .. }) => assert!(!noise),
        other => panic!("{:?}", other),
    }
    match world.demand(Event::SubTaskComputed(subtask, requestor_ids[0], Id::from_value(999), fx(1.0))) {
        Err(SimulationError::ProviderNotFound(id)) => assert_eq!(id, Id::from_value(999)),
        other => panic!("{:?}", other),
    }
    match world.demand(Event::SubTaskBudgetExceeded(subtask, requestor_ids[0], provider_ids[0])) {
        Ok(Demand::Nothing) => {}
        other => panic!("{:?}", other),
    }
    assert_eq!(Behaviour::Regular.label(), "Regular");
    assert_eq!(Behaviour::LinearUsageInflation.label(), "Linear usage inflation");
    assert_eq!(Behaviour::UndercutBudget.label(), "Undercut budget");
}

#[test]
fn an_actor_pushed_again_takes_the_place_of_the_first() {
    let mut ids = IdSource::new();
    let mut world = World::new(IdSource::starting_at(100));
    let first = Requestor::new(&mut ids, fx(1.0), fx(1.0), DefenceMechanismType::CTasks);
    let second = Requestor::new(&mut ids, fx(2.0), fx(1.0), DefenceMechanismType::CTasks);
    let again = Requestor::with_id(*first.id(), fx(3.0), fx(1.0), DefenceMechanismType::LGRola);
    let id = *first.id();
    world.push_requestor(first);
    world.push_requestor(second);
    world.push_requestor(again);
    assert_eq!(world.requestors.len(), 2);
    assert_eq!(world.get_requestor(id).unwrap().max_price(), fx(3.0));
    assert_eq!(world.requestors.entries[0].0, id);

    let provider = Provider::Regular(RegularProvider::with_id(Id::from_value(7), fx(1.0), fx(1.0)));
    let replaced = Provider::UndercutBudget(UndercutBudgetProvider::with_id(
        Id::from_value(7),
        fx(2.0),
        fx(1.0),
        fx(0.1),
    ));
    world.push_provider(provider);
    world.push_provider(replaced);
    assert_eq!(world.providers.len(), 1);
    assert_eq!(world.get_provider(Id::from_value(7)), Some(&replaced));
    let (requestors, providers) = world.into_stats(9);
    assert_eq!(requestors.len(), 2);
    assert_eq!(requestors[0].max_price, fx(3.0));
    assert_eq!(requestors[1].max_price, fx(2.0));
    assert_eq!(providers.len(), 1);
    assert_eq!(providers[0].run_id, 9);
    assert_eq!(providers[0].behaviour, Behaviour::UndercutBudget);
    assert_eq!(providers[0].price, fx(4.0));
}
