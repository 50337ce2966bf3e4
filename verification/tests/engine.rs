use golem_des::engine::Engine;
use golem_des::fixed::Fixed;

fn fx(x: f64) -> Fixed {
    Fixed::from_raw((x * 1e9).round() as u64)
}

fn fl(x: Fixed) -> f64 {
    x.raw() as f64 / 1e9
}

fn almost(a: f64, b: f64, tolerance: f64) -> bool {
    (a - b).abs() <= tolerance
}

#[test]
fn event_queue() {
    let mut engine = Engine::new();
    assert!(engine.is_empty());
    assert!(almost(fl(engine.now()), 0.0, 1e-6));

    engine.schedule(fx(2.0), 3);
    engine.schedule(fx(1.0), 2);
    engine.schedule(fx(0.5), 1);

    assert_eq!(engine.pop(), Some(1));
    assert!(almost(fl(engine.now()), 0.5, 1e-6));

    assert_eq!(engine.pop(), Some(2));
    assert!(almost(fl(engine.now()), 1.0, 1e-6));

    assert_eq!(engine.pop(), Some(3));
    assert!(almost(fl(engine.now()), 2.0, 1e-6));

    assert_eq!(engine.pop(), None);
}

#[test]
fn pop_on_empty_engine_keeps_the_clock() {
    let mut engine: Engine<u8> = Engine::new();
    engine.schedule(fx(4.0), 7);
    assert_eq!(engine.pop(), Some(7));
    assert_eq!(engine.now(), fx(4.0));
    assert_eq!(engine.pop(), None);
    assert_eq!(engine.now(), fx(4.0));
    assert_eq!(engine.len(), 0);
}

#[test]
fn events_are_scheduled_relative_to_the_clock() {
    let mut engine = Engine::new();
    engine.schedule(fx(10.0), 'a');
    assert_eq!(engine.pop(), Some('a'));
    engine.schedule(fx(2.5), 'b');
    assert_eq!(engine.pop(), Some('b'));
    assert_eq!(engine.now().raw(), 12_500_000_000);
}

#[test]
fn events_of_equal_time_leave_in_the_order_of_their_arrival() {
    let mut engine = Engine::new();
    engine.schedule(fx(1.0), 1);
    engine.schedule(fx(1.0), 2);
    engine.schedule(fx(0.5), 0);
    engine.schedule(fx(1.0), 3);
    assert_eq!(engine.len(), 4);
    assert_eq!(engine.pop(), Some(0));
    assert_eq!(engine.pop(), Some(1));
    assert_eq!(engine.pop(), Some(2));
    assert_eq!(engine.pop(), Some(3));
}

#[test]
fn time_never_runs_backwards() {
    let mut engine = Engine::new();
    let delays = [7.0, 3.0, 9.0, 3.0, 0.0, 12.5, 1.0];
    let mut label = 0;
    for delay in delays.iter() {
        engine.schedule(fx(*delay), label);
        label += 1;
    }
    let mut last = engine.now();
    let mut popped = 0;
    while let Some(event) = engine.pop() {
        assert!(last <= engine.now());
        last = engine.now();
        popped += 1;
        if event == 4 {
            engine.schedule(fx(0.5), 100);
            engine.schedule(fx(20.0), 101);
        }
    }
    assert_eq!(popped, 9);
    assert_eq!(engine.now(), fx(20.0));
}

#[test]
fn a_time_beyond_the_range_is_capped() {
    let mut engine = Engine::new();
    engine.schedule(Fixed::max_value(), 1);
    assert_eq!(engine.pop(), Some(1));
    engine.schedule(fx(1.0), 2);
    assert_eq!(engine.pop(), Some(2));
    assert_eq!(engine.now(), Fixed::max_value());
}

#[test]
fn a_default_engine_is_a_new_one() {
    let mut engine: Engine<u8> = Engine::default();
    assert!(engine.is_empty());
    assert_eq!(engine.now(), Fixed::zero());
    assert_eq!(engine.pop(), None);
}
