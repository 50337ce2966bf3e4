use golem_des::defence::ctasks::{CTasks, UsageMeans};
use golem_des::defence::lgrola::{LGRola, OutlierStatistics};
use golem_des::defence::redundancy::Redundancy;
use golem_des::defence::{
    BanDuration, DefenceMechanism, DefenceMechanismCommon, DefenceMechanismType, StatisticsDue,
    TaskStatistics,
};
use golem_des::error::SimulationError;
use golem_des::fixed::Fixed;
use golem_des::id::{Id, IdSource};
use golem_des::task::{Status, SubTask, Task};
use statrs::statistics::{OrderStatistics, Statistics};

fn fx(x: f64) -> Fixed {
    Fixed::from_raw((x * 1e9).round() as u64)
}

fn fl(x: Fixed) -> f64 {
    x.raw() as f64 / 1e9
}

fn almost(a: f64, b: f64, tolerance: f64) -> bool {
    (a - b).abs() <= tolerance
}

fn means_for(ctasks: &CTasks) -> UsageMeans {
    let per_provider: Vec<f64> = ctasks
        .task_usages
        .entries
        .iter()
        .map(|(_, usages)| usages.iter().map(|u| fl(*u)).geometric_mean())
        .collect();
    let ratings: Vec<f64> = ctasks
        .task_usages
        .entries
        .iter()
        .map(|(id, _)| fl(*ctasks.common.ratings.get(*id).unwrap()))
        .collect();
    UsageMeans {
        overall_usage: fx(per_provider.iter().geometric_mean()),
        overall_rating: fx(ratings.iter().geometric_mean()),
        per_provider: per_provider.into_iter().map(fx).collect(),
    }
}

fn statistics_for(lgrola: &LGRola) -> OutlierStatistics {
    let per_provider: Vec<f64> = lgrola
        .task_usages
        .entries
        .iter()
        .map(|(_, usages)| usages.iter().map(|u| fl(*u)).geometric_mean())
        .collect();
    let mut only_usages = per_provider.clone();
    let upper_quartile = only_usages.upper_quartile();
    let interquartile_range = only_usages.interquartile_range();
    let ban_lengths: Vec<u64> = lgrola
        .task_usages
        .entries
        .iter()
        .map(|(id, _)| (lgrola.next_collisions(*id) as f64).exp().ceil() as u64)
        .collect();
    OutlierStatistics {
        per_provider: per_provider.into_iter().map(fx).collect(),
        upper_quartile: fx(upper_quartile),
        interquartile_range: fx(interquartile_range),
        ban_lengths,
    }
}

#[test]
fn rank_offers() {
    let mut ids = IdSource::new();
    let mut dm = DefenceMechanismCommon::new(Id::new(&mut ids));
    let bid1 = (Id::new(&mut ids), fx(2.5)); // (provider_id, bid/offer)
    let bid2 = (Id::new(&mut ids), fx(0.5));
    dm.ratings.insert(bid1.0, fx(0.25));
    dm.ratings.insert(bid2.0, fx(0.75));

    assert_eq!(dm.rank_offers(vec![bid1, bid2]), Ok(vec![bid2, bid1]));
}

#[test]
fn offers_of_equal_effective_price_keep_their_order() {
    let mut dm = DefenceMechanismCommon::new(Id::from_value(0));
    let a = (Id::from_value(1), fx(2.0));
    let b = (Id::from_value(2), fx(1.0));
    let c = (Id::from_value(3), fx(4.0));
    let d = (Id::from_value(4), fx(0.5));
    dm.insert_provider_rating(a.0, fx(0.5));
    dm.insert_provider_rating(b.0, fx(1.0));
    dm.insert_provider_rating(c.0, fx(0.25));
    dm.insert_provider_rating(d.0, fx(1.0));

    assert_eq!(dm.rank_offers(vec![a, b, c, d]), Ok(vec![d, a, b, c]));
    assert_eq!(dm.rank_offers(vec![c, b, d, a]), Ok(vec![d, c, b, a]));
    assert_eq!(dm.rank_offers(vec![]), Ok(vec![]));
}

#[test]
fn ranking_fails_on_the_first_provider_without_a_rating() {
    let mut dm = DefenceMechanismCommon::new(Id::from_value(0));
    let a = (Id::from_value(1), fx(2.0));
    let b = (Id::from_value(2), fx(1.0));
    let c = (Id::from_value(3), fx(1.0));
    dm.insert_provider_rating(a.0, fx(0.5));

    assert_eq!(
        dm.rank_offers(vec![a, b, c]),
        Err(SimulationError::RatingNotFound(Id::from_value(0), b.0))
    );
    assert_eq!(dm.get_provider_rating(a.0), Some(fx(0.5)));
    assert_eq!(dm.get_provider_rating(b.0), None);
}

#[test]
fn filter_offers() {
    let mut ids = IdSource::new();
    let mut dm = DefenceMechanismCommon::new(Id::new(&mut ids));
    let bid1 = (Id::new(&mut ids), fx(1.0)); // (provider_id, bid/offer)
    let bid2 = (Id::new(&mut ids), fx(2.0));

    assert!(dm.blacklisted_set.is_empty());
    assert_eq!(dm.filter_offers(vec![bid1, bid2]), vec![bid1, bid2]);

    dm.blacklisted_set.insert(bid1.0, BanDuration::Indefinitely);

    assert!(!dm.blacklisted_set.is_empty());
    assert_eq!(dm.filter_offers(vec![bid1, bid2]), vec![bid2]);
}

#[test]
fn update_provider_rating() {
    let mut ids = IdSource::new();
    let mut dm = DefenceMechanismCommon::new(Id::new(&mut ids));
    let provider = (Id::new(&mut ids), fx(0.25));

    dm.ratings.insert(provider.0, provider.1);
    assert_eq!(dm.update_provider_rating(provider.0, fx(2.0)), Ok(()));

    assert!(dm.blacklisted_set.contains_key(provider.0));
}

#[test]
fn a_rating_below_the_limit_does_not_ban() {
    let mut dm = DefenceMechanismCommon::new(Id::from_value(0));
    let provider = Id::from_value(1);
    let stranger = Id::from_value(2);
    dm.insert_provider_rating(provider, fx(0.25));

    assert_eq!(dm.update_provider_rating(provider, fx(1.999999999)), Ok(()));
    assert!(!dm.is_blacklisted(provider));
    assert_eq!(dm.get_provider_rating(provider), Some(fx(1.999999999)));

    assert_eq!(
        dm.update_provider_rating(stranger, fx(3.0)),
        Err(SimulationError::RatingNotFound(Id::from_value(0), stranger))
    );
    assert!(!dm.is_blacklisted(stranger));

    // Once banned, a provider stays out of every later selection.
    assert_eq!(dm.update_provider_rating(provider, fx(2.5)), Ok(()));
    assert!(dm.is_blacklisted(provider));
    assert_eq!(dm.update_provider_rating(provider, fx(0.5)), Ok(()));
    assert!(dm.is_blacklisted(provider));
    assert_eq!(
        dm.filter_offers(vec![(provider, fx(0.1)), (stranger, fx(9.0))]),
        vec![(stranger, fx(9.0))]
    );
}

#[test]
fn ban_durations() {
    let mut ban = BanDuration::Until(2);
    assert!(!ban.is_expired());
    ban.decrement();
    assert_eq!(ban, BanDuration::Until(1));
    ban.decrement();
    assert!(ban.is_expired());
    ban.decrement();
    assert_eq!(ban, BanDuration::Until(0));
    let mut ban = BanDuration::Indefinitely;
    ban.decrement();
    assert_eq!(ban, BanDuration::Indefinitely);
    assert!(!ban.is_expired());
}

#[test]
fn ctasks_test_assign_subtasks() {
    let mut ids = IdSource::new();
    let mut ctasks = CTasks::new(Id::new(&mut ids));
    let s1 = SubTask::new(&mut ids, fx(1.0), fx(1.0));
    let s2 = SubTask::new(&mut ids, fx(1.0), fx(1.0));
    let mut task = Task::new(&mut ids);
    task.push_pending(s1);
    task.push_pending(s2);
    let bid1 = (Id::new(&mut ids), fx(1.0));
    let bid2 = (Id::new(&mut ids), fx(2.0));
    ctasks.common.ratings.insert(bid1.0, fx(1.0));
    ctasks.common.ratings.insert(bid2.0, fx(1.0));

    assert_eq!(
        ctasks.assign_subtasks(&mut task, vec![bid1, bid2]),
        Ok(vec![(bid1.0, s1, fx(1.0)), (bid2.0, s2, fx(2.0))])
    );
}

#[test]
fn ctasks_test_complete_task() {
    let mut ids = IdSource::new();
    let mut ctasks = CTasks::new(Id::new(&mut ids));

    let id1 = Id::new(&mut ids);
    let id2 = Id::new(&mut ids);
    let id3 = Id::new(&mut ids);

    ctasks.common.ratings.insert(id1, fx(0.5));
    ctasks.common.ratings.insert(id2, fx(0.1));
    ctasks.common.ratings.insert(id3, fx(0.75));

    ctasks.task_usages.insert(id1, vec![fx(50.0), fx(50.0)]);
    ctasks.task_usages.insert(id3, vec![fx(75.0)]);

    let means = means_for(&ctasks);
    assert_eq!(ctasks.complete_task(&means), Ok(()));

    assert!(almost(fl(*ctasks.common.ratings.get(id1).unwrap()), 0.5, 1e-3));
    assert!(almost(fl(*ctasks.common.ratings.get(id3).unwrap()), 0.75, 1e-3));
    assert!(ctasks.task_usages.is_empty());

    ctasks.task_usages.insert(id1, vec![fx(50.0)]);
    ctasks.task_usages.insert(id2, vec![fx(2020.0)]);
    ctasks.task_usages.insert(id3, vec![fx(75.0)]);

    let means = means_for(&ctasks);
    assert_eq!(ctasks.complete_task(&means), Ok(()));

    assert!(almost(fl(*ctasks.common.ratings.get(id1).unwrap()), 0.2065, 1e-3));
    assert!(almost(fl(*ctasks.common.ratings.get(id2).unwrap()), 0.5869, 1e-3));
    assert!(almost(fl(*ctasks.common.ratings.get(id3).unwrap()), 0.3097, 1e-3));
}

#[test]
fn ctasks_bans_above_the_limit_only() {
    let mut ctasks = CTasks::new(Id::from_value(0));
    let at_limit = Id::from_value(1);
    let above = Id::from_value(2);
    ctasks.common.insert_provider_rating(at_limit, fx(1.0));
    ctasks.common.insert_provider_rating(above, fx(1.0));
    assert_eq!(
        ctasks.verify_subtask(&SubTask::with_id(Id::from_value(7), fx(1.0), fx(1.0)), at_limit, Some(fx(4.0))),
        Status::Done
    );
    assert_eq!(
        ctasks.verify_subtask(&SubTask::with_id(Id::from_value(8), fx(1.0), fx(1.0)), above, Some(fx(9.0))),
        Status::Done
    );
    assert_eq!(
        ctasks.verify_subtask(&SubTask::with_id(Id::from_value(9), fx(1.0), fx(1.0)), above, None),
        Status::Cancelled
    );
    // With both means at one, the new rating is the root of the usage.
    let means = UsageMeans {
        per_provider: vec![fx(4.0), fx(9.0)],
        overall_usage: fx(1.0),
        overall_rating: fx(1.0),
    };
    assert_eq!(ctasks.complete_task(&means), Ok(()));
    assert_eq!(ctasks.common.get_provider_rating(at_limit), Some(fx(2.0)));
    assert_eq!(ctasks.common.get_provider_rating(above), Some(fx(3.0)));
    assert!(!ctasks.common.is_blacklisted(at_limit));
    assert!(ctasks.common.is_blacklisted(above));
    assert_eq!(ctasks.task_usages.len(), 0);
}

#[test]
fn ctasks_fails_without_a_rating_and_changes_nothing() {
    let mut ctasks = CTasks::new(Id::from_value(0));
    let rated = Id::from_value(1);
    let unrated = Id::from_value(2);
    ctasks.common.insert_provider_rating(rated, fx(1.0));
    let subtask = SubTask::with_id(Id::from_value(7), fx(1.0), fx(1.0));
    ctasks.verify_subtask(&subtask, rated, Some(fx(4.0)));
    ctasks.verify_subtask(&subtask, unrated, Some(fx(4.0)));
    let means = UsageMeans {
        per_provider: vec![fx(4.0), fx(4.0)],
        overall_usage: fx(4.0),
        overall_rating: fx(1.0),
    };
    assert_eq!(
        ctasks.complete_task(&means),
        Err(SimulationError::RatingNotFound(Id::from_value(0), unrated))
    );
    assert_eq!(ctasks.common.get_provider_rating(rated), Some(fx(1.0)));
    assert_eq!(ctasks.task_usages.len(), 2);
}

#[test]
fn lgrola_test_assign_subtasks() {
    let mut ids = IdSource::new();
    let mut lgrola = LGRola::new(Id::new(&mut ids));
    let s1 = SubTask::new(&mut ids, fx(1.0), fx(1.0));
    let s2 = SubTask::new(&mut ids, fx(1.0), fx(1.0));
    let mut task = Task::new(&mut ids);
    task.push_pending(s1);
    task.push_pending(s2);
    let bid1 = (Id::new(&mut ids), fx(1.0));
    let bid2 = (Id::new(&mut ids), fx(2.0));
    lgrola.common.ratings.insert(bid1.0, fx(1.0));
    lgrola.common.ratings.insert(bid2.0, fx(1.0));

    assert_eq!(
        lgrola.assign_subtasks(&mut task, vec![bid1, bid2]),
        Ok(vec![(bid1.0, s1, fx(1.0)), (bid2.0, s2, fx(2.0))])
    );
}

#[test]
fn lgrola_test_complete_task() {
    let mut ids = IdSource::new();
    let mut lgrola = LGRola::new(Id::new(&mut ids));
    let subtask = SubTask::new(&mut ids, fx(1.0), fx(1.0));

    for _ in 0..25 {
        let id = Id::new(&mut ids);
        lgrola.common.ratings.insert(id, fx(0.75));
        lgrola.verify_subtask(&subtask, id, Some(fx(50.0)));
    }

    let outlier = (Id::new(&mut ids), fx(0.1));
    lgrola.common.ratings.insert(outlier.0, outlier.1);
    lgrola.task_usages.insert(outlier.0, vec![fx(2000.0)]);

    let stats = statistics_for(&lgrola);
    lgrola.complete_task(&stats);

    assert_eq!(lgrola.common.blacklisted_set.len(), 1);
    assert!(lgrola.common.blacklisted_set.contains_key(outlier.0));
    assert_eq!(
        lgrola.common.blacklisted_set.get(outlier.0),
        Some(&BanDuration::Until(3))
    );
    assert_eq!(lgrola.common.get_provider_rating(outlier.0), Some(fx(0.1)));
    assert!(lgrola.task_usages.is_empty());
}

#[test]
fn lgrola_bans_decay_by_one_with_each_task() {
    let mut lgrola = LGRola::new(Id::from_value(0));
    let short = Id::from_value(1);
    let long = Id::from_value(2);
    let forever = Id::from_value(3);
    lgrola.common.blacklisted_set.insert(short, BanDuration::Until(1));
    lgrola.common.blacklisted_set.insert(long, BanDuration::Until(3));
    lgrola.common.blacklisted_set.insert(forever, BanDuration::Indefinitely);
    let nothing = OutlierStatistics {
        per_provider: vec![],
        upper_quartile: fx(0.0),
        interquartile_range: fx(0.0),
        ban_lengths: vec![],
    };

    lgrola.complete_task(&nothing);
    assert!(!lgrola.common.is_blacklisted(short));
    assert_eq!(lgrola.common.blacklisted_set.get(long), Some(&BanDuration::Until(2)));
    assert_eq!(lgrola.common.blacklisted_set.get(forever), Some(&BanDuration::Indefinitely));

    lgrola.complete_task(&nothing);
    assert_eq!(lgrola.common.blacklisted_set.get(long), Some(&BanDuration::Until(1)));

    lgrola.complete_task(&nothing);
    assert!(!lgrola.common.is_blacklisted(long));
    assert!(lgrola.common.is_blacklisted(forever));
    assert_eq!(lgrola.common.blacklisted_set.len(), 1);
}

#[test]
fn lgrola_counts_collisions_up_and_down() {
    let mut lgrola = LGRola::new(Id::from_value(0));
    let cheat = Id::from_value(1);
    let honest = Id::from_value(2);
    let subtask = SubTask::with_id(Id::from_value(9), fx(1.0), fx(1.0));
    assert_eq!(lgrola.next_collisions(cheat), 1);

    for round in 1..=2u32 {
        lgrola.verify_subtask(&subtask, cheat, Some(fx(100.0)));
        lgrola.verify_subtask(&subtask, honest, Some(fx(10.0)));
        let stats = OutlierStatistics {
            per_provider: vec![fx(100.0), fx(10.0)],
            upper_quartile: fx(20.0),
            interquartile_range: fx(10.0),
            ban_lengths: vec![
                (lgrola.next_collisions(cheat) as f64).exp().ceil() as u64,
                (lgrola.next_collisions(honest) as f64).exp().ceil() as u64,
            ],
        };
        assert_eq!(stats.threshold(), fx(35.0));
        lgrola.complete_task(&stats);
        assert_eq!(lgrola.collisions.get(cheat), Some(&round));
        assert_eq!(lgrola.collisions.get(honest), Some(&0));
        assert!(!lgrola.common.is_blacklisted(honest));
    }
    assert_eq!(lgrola.common.blacklisted_set.get(cheat), Some(&BanDuration::Until(8)));

    lgrola.verify_subtask(&subtask, cheat, Some(fx(35.0)));
    let stats = OutlierStatistics {
        per_provider: vec![fx(35.0)],
        upper_quartile: fx(20.0),
        interquartile_range: fx(10.0),
        ban_lengths: vec![21],
    };
    lgrola.complete_task(&stats);
    assert_eq!(lgrola.collisions.get(cheat), Some(&1));
    assert_eq!(lgrola.common.blacklisted_set.get(cheat), Some(&BanDuration::Until(7)));
}

#[test]
fn update_rating() {
    let mut ids = IdSource::new();
    let mut redundancy = Redundancy::new(Id::new(&mut ids));
    let p1 = (Id::new(&mut ids), 0.25, 25.0); // (provider_id, rating, usage)
    let p2 = (Id::new(&mut ids), 0.75, 75.0);
    redundancy.common.ratings.insert(p1.0, fx(p1.1));
    redundancy.common.ratings.insert(p2.0, fx(p2.1));

    assert_eq!(
        redundancy.update_rating((p1.0, fx(p1.2 / p1.1)), (p2.0, fx(p2.2 / p2.1))),
        Ok(())
    );

    assert!(almost(fl(*redundancy.common.ratings.get(p1.0).unwrap()), 0.25, 1e-5));
    assert!(almost(fl(*redundancy.common.ratings.get(p2.0).unwrap()), 0.75, 1e-5));
    assert!(redundancy.common.blacklisted_set.is_empty());

    assert_eq!(
        redundancy.update_rating((p1.0, fx(200.0)), (p2.0, fx(p2.2 / p2.1))),
        Ok(())
    );

    assert!(almost(fl(*redundancy.common.ratings.get(p1.0).unwrap()), 0.35355, 1e-5));
    assert!(almost(fl(*redundancy.common.ratings.get(p2.0).unwrap()), 0.53033, 1e-5));
    assert!(redundancy.common.blacklisted_set.is_empty());

    assert_eq!(
        redundancy.update_rating((p1.0, fx(4000.0)), (p2.0, fx(p2.2 / p2.1))),
        Ok(())
    );

    assert!(almost(fl(*redundancy.common.ratings.get(p1.0).unwrap()), 2.23607, 1e-5));
    assert!(almost(fl(*redundancy.common.ratings.get(p2.0).unwrap()), 0.08385, 1e-5));
    assert!(redundancy.common.blacklisted_set.contains_key(p1.0));
}

#[test]
fn update_rating_fails_without_a_rating() {
    let mut redundancy = Redundancy::new(Id::from_value(0));
    let rated = Id::from_value(1);
    let unrated = Id::from_value(2);
    redundancy.common.insert_provider_rating(rated, fx(0.5));
    assert_eq!(
        redundancy.update_rating((rated, fx(4.0)), (unrated, fx(1.0))),
        Err(SimulationError::RatingNotFound(Id::from_value(0), unrated))
    );
    assert_eq!(
        redundancy.update_rating((unrated, fx(4.0)), (rated, fx(1.0))),
        Err(SimulationError::RatingNotFound(Id::from_value(0), unrated))
    );
    assert_eq!(redundancy.common.get_provider_rating(rated), Some(fx(0.5)));
}

#[test]
fn assign_subtasks() {
    let mut ids = IdSource::new();
    let mut redundancy = Redundancy::new(Id::new(&mut ids));
    let subtask = SubTask::new(&mut ids, fx(1.0), fx(1.0));
    let mut task = Task::new(&mut ids);
    task.push_pending(subtask);
    let bid1 = (Id::new(&mut ids), fx(1.0));
    let bid2 = (Id::new(&mut ids), fx(2.0));
    redundancy.common.ratings.insert(bid1.0, fx(1.0));
    redundancy.common.ratings.insert(bid2.0, fx(1.0));

    assert_eq!(
        redundancy.assign_subtasks(&mut task, vec![bid1, bid2]),
        Ok(vec![(bid1.0, subtask, fx(1.0)), (bid2.0, subtask, fx(2.0))])
    );
}

#[test]
fn redundancy_hands_out_in_pairs() {
    let mut ids = IdSource::new();
    let mut redundancy = Redundancy::new(Id::new(&mut ids));
    let s1 = SubTask::new(&mut ids, fx(1.0), fx(1.0));
    let s2 = SubTask::new(&mut ids, fx(2.0), fx(2.0));
    let s3 = SubTask::new(&mut ids, fx(3.0), fx(3.0));
    let mut task = Task::new(&mut ids);
    task.push_pending(s1);
    task.push_pending(s2);
    task.push_pending(s3);
    let mut bids = Vec::new();
    for price in [5.0, 1.0, 4.0, 2.0, 3.0].iter() {
        let id = Id::new(&mut ids);
        redundancy.common.insert_provider_rating(id, fx(1.0));
        bids.push((id, fx(*price)));
    }
    let banned = bids[1].0;
    redundancy.common.blacklisted_set.insert(banned, BanDuration::Indefinitely);

    // Four offers are left: two pairs, and the dearest provider of the five
    // shares the second one.
    assert_eq!(
        redundancy.assign_subtasks(&mut task, bids.clone()),
        Ok(vec![
            (bids[3].0, s1, fx(2.0)),
            (bids[4].0, s1, fx(3.0)),
            (bids[2].0, s2, fx(4.0)),
            (bids[0].0, s2, fx(5.0)),
        ])
    );
    assert_eq!((task.pending_len(), task.in_flight()), (1, 2));
    assert!(redundancy.verification_map.has_key(s1.id));
    assert!(redundancy.verification_map.has_key(s2.id));
    assert!(!redundancy.verification_map.has_key(s3.id));
}

#[test]
fn verify_subtask_successful() {
    let mut ids = IdSource::new();
    let mut redundancy = Redundancy::new(Id::new(&mut ids));

    let p1 = (Id::new(&mut ids), fx(0.25), fx(100.0));
    let p2 = (Id::new(&mut ids), fx(0.75), fx(75.0));
    redundancy.common.ratings.insert(p1.0, p1.1);
    redundancy.common.ratings.insert(p2.0, p2.1);

    let subtask = SubTask::new(&mut ids, fx(100.0), fx(100.0));
    redundancy.verification_map.insert_key(*subtask.id());

    assert_eq!(
        redundancy.verify_subtask(&subtask, p1.0, Some(p1.2)),
        Ok(Status::Pending)
    );
    assert_eq!(
        redundancy.verify_subtask(&subtask, p2.0, Some(p2.2)),
        Ok(Status::Done)
    );
}

#[test]
fn verify_subtask_adjusts_both_ratings() {
    let mut redundancy = Redundancy::new(Id::from_value(0));
    let p1 = Id::from_value(1);
    let p2 = Id::from_value(2);
    redundancy.common.insert_provider_rating(p1, fx(0.25));
    redundancy.common.insert_provider_rating(p2, fx(0.75));
    let subtask = SubTask::with_id(Id::from_value(3), fx(100.0), fx(100.0));

    // Effective work 100 / 0.25 = 400 against 75 / 0.75 = 100: the ratio is
    // four, its root two.
    redundancy.verification_map.insert_key(subtask.id);
    assert_eq!(redundancy.verify_subtask(&subtask, p2, Some(fx(75.0))), Ok(Status::Pending));
    assert_eq!(redundancy.verify_subtask(&subtask, p1, Some(fx(100.0))), Ok(Status::Done));
    assert_eq!(redundancy.common.get_provider_rating(p1), Some(fx(0.5)));
    assert_eq!(redundancy.common.get_provider_rating(p2), Some(fx(0.375)));
    assert!(!redundancy.common.is_blacklisted(p1));

    // Effective work 3200 / 0.5 = 6400 against 37.5 / 0.375 = 100: the root
    // of the ratio is eight, and the rating of the first reaches four.
    redundancy.verification_map.insert_key(subtask.id);
    assert_eq!(redundancy.verify_subtask(&subtask, p1, Some(fx(3200.0))), Ok(Status::Pending));
    assert_eq!(redundancy.verify_subtask(&subtask, p2, Some(fx(37.5))), Ok(Status::Done));
    assert_eq!(redundancy.common.get_provider_rating(p1), Some(fx(4.0)));
    assert_eq!(redundancy.common.get_provider_rating(p2), Some(fx(0.046875)));
    assert!(redundancy.common.is_blacklisted(p1));
    assert!(!redundancy.common.is_blacklisted(p2));
    assert_eq!(
        redundancy.common.filter_offers(vec![(p1, fx(1.0)), (p2, fx(1.0))]),
        vec![(p2, fx(1.0))]
    );
}

#[test]
fn verify_subtask_partial_success() {
    {
        let mut ids = IdSource::new();
        let mut redundancy = Redundancy::new(Id::new(&mut ids));

        let p1 = (Id::new(&mut ids), fx(0.25), fx(100.0));
        let p2 = (Id::new(&mut ids), fx(0.75), fx(75.0));
        redundancy.common.ratings.insert(p1.0, p1.1);
        redundancy.common.ratings.insert(p2.0, p2.1);

        let subtask = SubTask::new(&mut ids, fx(100.0), fx(100.0));
        redundancy.verification_map.insert_key(*subtask.id());

        assert_eq!(
            redundancy.verify_subtask(&subtask, p1.0, Some(p1.2)),
            Ok(Status::Pending)
        );
        assert_eq!(
            redundancy.verify_subtask(&subtask, p1.0, None),
            Ok(Status::Done)
        );
    }

    {
        let mut ids = IdSource::new();
        let mut redundancy = Redundancy::new(Id::new(&mut ids));

        let p1 = (Id::new(&mut ids), fx(0.25), fx(100.0));
        let p2 = (Id::new(&mut ids), fx(0.75), fx(75.0));
        redundancy.common.ratings.insert(p1.0, p1.1);
        redundancy.common.ratings.insert(p2.0, p2.1);

        let subtask = SubTask::new(&mut ids, fx(100.0), fx(100.0));
        redundancy.verification_map.insert_key(*subtask.id());

        assert_eq!(
            redundancy.verify_subtask(&subtask, p1.0, None),
            Ok(Status::Pending)
        );
        assert_eq!(
            redundancy.verify_subtask(&subtask, p1.0, Some(p2.2)),
            Ok(Status::Done)
        );
    }
}

#[test]
fn verify_subtask_failed() {
    let mut ids = IdSource::new();
    let mut redundancy = Redundancy::new(Id::new(&mut ids));

    let p1 = (Id::new(&mut ids), fx(0.25), fx(100.0));
    let p2 = (Id::new(&mut ids), fx(0.75), fx(75.0));
    redundancy.common.ratings.insert(p1.0, p1.1);
    redundancy.common.ratings.insert(p2.0, p2.1);

    let subtask = SubTask::new(&mut ids, fx(100.0), fx(100.0));
    redundancy.verification_map.insert_key(*subtask.id());

    assert_eq!(
        redundancy.verify_subtask(&subtask, p1.0, None),
        Ok(Status::Pending)
    );
    assert_eq!(
        redundancy.verify_subtask(&subtask, p2.0, None),
        Ok(Status::Cancelled)
    );
}

#[test]
fn verify_subtask_refuses_what_it_does_not_await() {
    let mut redundancy = Redundancy::new(Id::from_value(0));
    let rated = Id::from_value(1);
    let unrated = Id::from_value(2);
    redundancy.common.insert_provider_rating(rated, fx(0.5));
    let subtask = SubTask::with_id(Id::from_value(3), fx(1.0), fx(1.0));

    assert_eq!(
        redundancy.verify_subtask(&subtask, rated, Some(fx(1.0))),
        Err(SimulationError::VerificationForSubtaskNotFound(Id::from_value(0), subtask))
    );
    redundancy.verification_map.insert_key(subtask.id);
    assert_eq!(
        redundancy.verify_subtask(&subtask, unrated, Some(fx(1.0))),
        Err(SimulationError::RatingNotFound(Id::from_value(0), unrated))
    );
    assert_eq!(redundancy.verify_subtask(&subtask, unrated, None), Ok(Status::Pending));
    assert_eq!(redundancy.verify_subtask(&subtask, rated, Some(fx(1.0))), Ok(Status::Done));
    assert!(!redundancy.verification_map.has_key(subtask.id));
}

#[test]
fn a_defence_of_each_kind() {
    let requestor = Id::from_value(0);
    let provider = Id::from_value(1);
    let subtask = SubTask::with_id(Id::from_value(2), fx(1.0), fx(1.0));
    for kind in [
        DefenceMechanismType::Redundancy,
        DefenceMechanismType::CTasks,
        DefenceMechanismType::LGRola,
    ]
    .iter()
    {
        let mut dm = kind.into_dm(requestor);
        dm.insert_provider_rating(provider, fx(0.5));
        assert_eq!(dm.as_dm_common().requestor_id, requestor);
        assert_eq!(dm.as_dm_common().get_provider_rating(provider), Some(fx(0.5)));
        let mut task = Task::with_id(Id::from_value(3));
        task.push_pending(subtask);
        match kind {
            DefenceMechanismType::Redundancy => {
                assert_eq!(dm.due(), StatisticsDue::NotNeeded);
                assert_eq!(dm.assign_subtasks(&mut task, vec![(provider, fx(1.0))]), Ok(vec![]));
                assert_eq!(dm.complete_task(&TaskStatistics::NotNeeded), Ok(()));
            }
            DefenceMechanismType::CTasks => {
                assert_eq!(
                    dm.assign_subtasks(&mut task, vec![(provider, fx(1.0))]),
                    Ok(vec![(provider, subtask, fx(1.0))])
                );
                assert_eq!(dm.verify_subtask(&subtask, provider, Some(fx(3.0))), Ok(Status::Done));
                assert_eq!(dm.due(), StatisticsDue::Means(1));
                let means = UsageMeans {
                    per_provider: vec![fx(3.0)],
                    overall_usage: fx(3.0),
                    overall_rating: fx(0.5),
                };
                assert_eq!(dm.complete_task(&TaskStatistics::Means(means)), Ok(()));
                assert_eq!(dm.due(), StatisticsDue::Means(0));
            }
            DefenceMechanismType::LGRola => {
                assert_eq!(dm.verify_subtask(&subtask, provider, None), Ok(Status::Cancelled));
                assert_eq!(dm.verify_subtask(&subtask, provider, Some(fx(3.0))), Ok(Status::Done));
                assert_eq!(dm.due(), StatisticsDue::Outliers(1));
                let stats = OutlierStatistics {
                    per_provider: vec![fx(3.0)],
                    upper_quartile: fx(3.0),
                    interquartile_range: fx(0.0),
                    ban_lengths: vec![3],
                };
                assert_eq!(dm.complete_task(&TaskStatistics::Outliers(stats)), Ok(()));
                assert!(!dm.as_dm_common().is_blacklisted(provider));
            }
        }
    }
}
