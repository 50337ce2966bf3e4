use golem_des::fixed::Fixed;
use golem_des::id::{Id, IdSource};

fn fx(x: f64) -> Fixed {
    Fixed::from_raw((x * 1e9).round() as u64)
}

#[test]
fn constants() {
    assert_eq!(Fixed::zero().raw(), 0);
    assert_eq!(Fixed::one().raw(), 1_000_000_000);
    assert_eq!(Fixed::max_value().raw(), u64::MAX);
    assert_eq!(Fixed::from_int(60), fx(60.0));
    assert_eq!(Fixed::ratio(1, 20), fx(0.05));
    assert_eq!(Fixed::ratio(1, 3).raw(), 333_333_333);
    assert_eq!(Fixed::ratio(7, 0), Fixed::max_value());
    assert!(Fixed::zero().is_zero());
    assert!(!Fixed::one().is_zero());
}

#[test]
fn sums_and_differences() {
    assert_eq!(fx(1.5).plus(fx(2.25)), fx(3.75));
    assert_eq!(Fixed::max_value().plus(fx(1.0)), Fixed::max_value());
    assert_eq!(fx(5.0).minus(fx(1.5)), fx(3.5));
    assert_eq!(fx(1.5).minus(fx(5.0)), Fixed::zero());
    assert_eq!(fx(3.0).min(fx(2.0)), fx(2.0));
    assert_eq!(fx(2.0).min(fx(3.0)), fx(2.0));
}

#[test]
fn products_and_quotients() {
    assert_eq!(fx(0.1).times(fx(50.0)), fx(5.0));
    assert_eq!(fx(2.5).times(fx(0.25)), fx(0.625));
    assert_eq!(Fixed::from_raw(1).times(Fixed::from_raw(999_999_999)), Fixed::zero());
    assert_eq!(Fixed::max_value().times(fx(2.0)), Fixed::max_value());
    assert_eq!(fx(100.0).over(fx(0.1)), fx(1000.0));
    assert_eq!(fx(1.0).over(fx(3.0)).raw(), 333_333_333);
    assert_eq!(fx(1.0).over(Fixed::zero()), Fixed::max_value());
    assert_eq!(Fixed::zero().over(Fixed::zero()), Fixed::max_value());
    assert_eq!(Fixed::max_value().over(fx(0.5)), Fixed::max_value());
    assert_eq!(fx(0.05).split(1), fx(0.05));
    assert_eq!(fx(1.0).split(3).raw(), 333_333_333);
    assert_eq!(fx(1.0).split(0), Fixed::max_value());
}

#[test]
fn square_roots() {
    assert_eq!(fx(4.0).sqrt(), fx(2.0));
    assert_eq!(fx(0.25).sqrt(), fx(0.5));
    assert_eq!(Fixed::zero().sqrt(), Fixed::zero());
    assert_eq!(fx(2.0).sqrt().raw(), 1_414_213_562);
    assert_eq!(fx(40.0).sqrt().raw(), 6_324_555_320);
    let top = Fixed::max_value().sqrt().raw() as u128;
    let square = u64::MAX as u128 * 1_000_000_000;
    assert!(top * top <= square);
    assert!((top + 1) * (top + 1) > square);
}

#[test]
fn identifiers_are_issued_in_turn() {
    let mut ids = IdSource::new();
    assert_eq!(ids.peek(), 0);
    let a = Id::new(&mut ids);
    let b = Id::new(&mut ids);
    let c = Id::new(&mut ids);
    assert_eq!(a.value(), 0);
    assert_eq!(b.value(), 1);
    assert_eq!(c.value(), 2);
    assert!(a != b && b != c && a != c);
    assert_eq!(ids.peek(), 3);
    assert_eq!(Id::from_value(1), b);
}

#[test]
fn the_identifier_counter_wraps_round() {
    let mut ids = IdSource::starting_at(usize::MAX);
    let last = Id::new(&mut ids);
    assert_eq!(last.value(), usize::MAX);
    let first = Id::new(&mut ids);
    assert_eq!(first.value(), 0);
}
