use bleach_injector::parameter::Parameter;
use bleach_injector::plugin::BleachInjectorParams;
use bleach_injector::range::Range;
use bleach_injector::smoother::{ramp_length, Smoother, SmoothingStyle};
use bleach_injector::units::{LIMIT, ONE};

const HALF: i64 = 500_000_000;

#[test]
fn ramp_of_fifty_milliseconds_at_44100_hertz() {
    assert_eq!(ramp_length(SmoothingStyle::Linear(50), 44_100), 2_205);
    let mut params = BleachInjectorParams::new(44_100);
    assert_eq!(params.threshold.current_value(), ONE);
    params.threshold.set_target(HALF);
    assert_eq!(params.threshold.steps_left(), 2_205);
    let mut value = ONE;
    for _ in 0..2_205 {
        value = params.threshold.next_smoothed_value();
    }
    assert_eq!(value, HALF);
    assert_eq!(params.threshold.steps_left(), 0);
}

#[test]
fn ramp_length_is_rounded_up_and_at_least_one() {
    assert_eq!(ramp_length(SmoothingStyle::Off, 44_100), 1);
    assert_eq!(ramp_length(SmoothingStyle::Linear(0), 44_100), 1);
    assert_eq!(ramp_length(SmoothingStyle::Linear(50), 0), 1);
    assert_eq!(ramp_length(SmoothingStyle::Linear(1), 44_100), 45);
    assert_eq!(ramp_length(SmoothingStyle::Linear(1), 1_000), 1);
    assert_eq!(ramp_length(SmoothingStyle::Linear(1), 1_001), 2);
    assert_eq!(ramp_length(SmoothingStyle::Linear(1_000), 48_000), 48_000);
    assert_eq!(
        ramp_length(SmoothingStyle::Linear(u32::MAX), u32::MAX),
        18_446_744_065_119_618
    );
}

#[test]
fn linear_ramp_steps_evenly_and_lands_exactly() {
    let mut s = Smoother::new(ONE);
    s.set_target(0, 3);
    assert_eq!(s.current(), ONE);
    assert_eq!(s.target(), 0);
    assert_eq!(s.steps_left(), 3);
    assert_eq!(s.next(), 666_666_667);
    assert_eq!(s.next(), 333_333_334);
    assert_eq!(s.next(), 0);
    assert!(s.is_settled());
}

#[test]
fn rising_ramp_never_falls_and_never_overshoots() {
    let mut s = Smoother::new(-7);
    s.set_target(1_000, 13);
    let mut previous = s.current();
    for _ in 0..13 {
        let value = s.next();
        assert!(previous <= value && value <= 1_000);
        previous = value;
    }
    assert_eq!(previous, 1_000);
}

#[test]
fn falling_ramp_never_rises_and_never_undershoots() {
    let mut s = Smoother::new(LIMIT);
    s.set_target(-LIMIT, 7);
    let mut previous = s.current();
    for _ in 0..7 {
        let value = s.next();
        assert!(previous >= value && value >= -LIMIT);
        previous = value;
    }
    assert_eq!(previous, -LIMIT);
}

#[test]
fn settled_smoother_repeats_its_target() {
    let mut s = Smoother::new(HALF);
    for _ in 0..5 {
        assert_eq!(s.next(), HALF);
        assert_eq!(s.steps_left(), 0);
    }
    s.set_target(ONE, 2);
    s.next();
    s.next();
    for _ in 0..5 {
        assert_eq!(s.next(), ONE);
        assert!(s.is_settled());
    }
}

#[test]
fn new_target_restarts_from_the_value_reached() {
    let mut s = Smoother::new(0);
    s.set_target(1_000, 10);
    assert_eq!(s.next(), 100);
    assert_eq!(s.next(), 200);
    s.set_target(0, 4);
    assert_eq!(s.current(), 200);
    assert_eq!(s.next(), 150);
    assert_eq!(s.next(), 100);
    assert_eq!(s.next(), 50);
    assert_eq!(s.next(), 0);
}

#[test]
fn single_step_ramp_jumps() {
    let mut s = Smoother::new(ONE);
    s.set_target(HALF, 1);
    assert_eq!(s.current(), ONE);
    assert_eq!(s.next(), HALF);
}

#[test]
fn ramp_to_the_same_value_stays_put() {
    let mut s = Smoother::new(HALF);
    s.set_target(HALF, 4);
    assert_eq!(s.steps_left(), 4);
    for _ in 0..6 {
        assert_eq!(s.next(), HALF);
    }
    assert_eq!(s.steps_left(), 0);
}

#[test]
fn short_distance_waits_for_the_last_sample() {
    let mut s = Smoother::new(0);
    s.set_target(3, 5);
    assert_eq!(s.next(), 0);
    assert_eq!(s.next(), 0);
    assert_eq!(s.next(), 0);
    assert_eq!(s.next(), 0);
    assert_eq!(s.next(), 3);
}

#[test]
fn reset_drops_the_ramp() {
    let mut s = Smoother::new(0);
    s.set_target(1_000, 10);
    s.next();
    s.reset(42);
    assert_eq!(s.current(), 42);
    assert_eq!(s.target(), 42);
    assert!(s.is_settled());
}

#[test]
fn unsmoothed_parameter_takes_target_on_next_sample() {
    let mut p = Parameter::new(
        "gain",
        "Gain",
        Range::Linear { min: 0, max: 2 * ONE },
        ONE,
        SmoothingStyle::Off,
        48_000,
    )
    .ok()
    .unwrap();
    p.set_target(HALF);
    assert_eq!(p.current_value(), ONE);
    assert_eq!(p.target_value(), HALF);
    assert_eq!(p.next_smoothed_value(), HALF);
    assert_eq!(p.next_smoothed_value(), HALF);
}

#[test]
fn zero_duration_takes_target_on_next_sample() {
    let mut p = Parameter::new(
        "gain",
        "Gain",
        Range::Linear { min: 0, max: 2 * ONE },
        ONE,
        SmoothingStyle::Linear(0),
        48_000,
    )
    .ok()
    .unwrap();
    p.set_target(2 * ONE);
    assert_eq!(p.next_smoothed_value(), 2 * ONE);
}

#[test]
fn logarithmic_ramp_scales_by_equal_ratios() {
    let mut s = Smoother::new(ONE);
    s.set_target_logarithmic(125_000_000, 3);
    assert_eq!(s.current(), ONE);
    assert_eq!(s.steps_left(), 3);
    assert_eq!(s.next(), HALF);
    assert_eq!(s.next(), 250_000_000);
    assert_eq!(s.next(), 125_000_000);
    assert!(s.is_settled());
    s.set_target_logarithmic(ONE, 3);
    assert_eq!(s.next(), 250_000_000);
    assert_eq!(s.next(), HALF);
    assert_eq!(s.next(), ONE);
    assert_eq!(s.next(), ONE);
}

#[test]
fn logarithmic_ramp_of_fifty_milliseconds_at_44100_hertz() {
    let mut p = Parameter::new(
        "threshold",
        "Threshold",
        Range::Linear { min: 1, max: ONE },
        ONE,
        SmoothingStyle::Logarithmic(50),
        44_100,
    )
    .ok()
    .unwrap();
    p.set_target(HALF);
    assert_eq!(p.steps_left(), 2_205);
    assert_eq!(p.next_smoothed_value(), 999_685_698);
    assert_eq!(p.next_smoothed_value(), 999_371_494);
    let mut previous = 999_371_494;
    for _ in 2..2_204 {
        let value = p.next_smoothed_value();
        assert!(HALF <= value && value <= previous);
        previous = value;
    }
    assert_eq!(previous, 500_157_584);
    assert_eq!(p.next_smoothed_value(), HALF);
    assert_eq!(p.steps_left(), 0);
    assert_eq!(p.next_smoothed_value(), HALF);
}

#[test]
fn rising_logarithmic_ramp_never_falls_and_lands_exactly() {
    let mut s = Smoother::new(HALF);
    s.set_target_logarithmic(ONE, 2_205);
    assert_eq!(s.next(), 500_157_200);
    let mut previous = 500_157_200;
    for _ in 1..2_204 {
        let value = s.next();
        assert!(previous <= value && value <= ONE);
        previous = value;
    }
    assert_eq!(previous, 999_681_769);
    assert_eq!(s.next(), ONE);
}

#[test]
fn logarithmic_ramp_across_many_decades() {
    let mut s = Smoother::new(1);
    s.set_target_logarithmic(LIMIT, 4);
    let mut previous = 1;
    for _ in 0..3 {
        let value = s.next();
        assert!(previous <= value && value <= LIMIT);
        previous = value;
    }
    assert_eq!(s.next(), LIMIT);
    s.set_target_logarithmic(1, 4);
    let mut previous = LIMIT;
    for _ in 0..3 {
        let value = s.next();
        assert!(1 <= value && value <= previous);
        previous = value;
    }
    assert_eq!(s.next(), 1);
}

#[test]
fn logarithmic_ramp_to_the_same_value_stays_put() {
    let mut s = Smoother::new(HALF);
    s.set_target_logarithmic(HALF, 3);
    assert_eq!(s.next(), HALF);
    assert_eq!(s.next(), HALF);
    assert_eq!(s.next(), HALF);
    assert!(s.is_settled());
}

#[test]
fn ramp_length_of_a_logarithmic_style() {
    assert_eq!(ramp_length(SmoothingStyle::Logarithmic(50), 44_100), 2_205);
    assert_eq!(ramp_length(SmoothingStyle::Logarithmic(0), 44_100), 1);
}

#[test]
fn following_the_host_does_not_restart_a_ramp() {
    let mut params = BleachInjectorParams::new(44_100);
    assert!(!params.threshold.follow(ONE));
    assert!(!params.threshold.follow(3 * ONE));
    assert_eq!(params.threshold.steps_left(), 0);
    assert!(params.threshold.follow(HALF));
    assert_eq!(params.threshold.steps_left(), 2_205);
    params.threshold.next_smoothed_value();
    assert!(!params.threshold.follow(HALF));
    assert_eq!(params.threshold.steps_left(), 2_204);
    assert!(params.threshold.follow(ONE));
    assert_eq!(params.threshold.steps_left(), 2_205);
    assert_eq!(params.threshold.target_value(), ONE);
}
