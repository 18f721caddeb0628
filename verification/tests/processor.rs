use bleach_injector::parameter::Parameter;
use bleach_injector::plugin::{is_rectangular, BleachInjectorParams, ProcessStatus};
use bleach_injector::processor::{process_block, process_sample};
use bleach_injector::range::Range;
use bleach_injector::smoother::SmoothingStyle;
use bleach_injector::units::ONE;

const HALF: i64 = 500_000_000;

fn fixed_threshold(value: i64) -> Parameter {
    Parameter::new(
        "threshold",
        "Threshold",
        Range::Linear { min: 1, max: ONE },
        value,
        SmoothingStyle::Off,
        44_100,
    )
    .ok()
    .unwrap()
}

#[test]
fn clips_buffer_at_fixed_threshold() {
    let mut threshold = fixed_threshold(HALF);
    let mut buffer = vec![vec![ONE, -ONE, HALF, -HALF]];
    process_block(&mut buffer, &mut threshold);
    assert_eq!(buffer, vec![vec![ONE, -ONE, ONE, -ONE]]);
}

#[test]
fn sample_below_threshold_is_scaled() {
    assert_eq!(process_sample(250_000_000, HALF), HALF);
    assert_eq!(process_sample(-250_000_000, HALF), -HALF);
    assert_eq!(process_sample(100_000_000, 300_000_000), 333_333_333);
    assert_eq!(process_sample(-100_000_000, 300_000_000), -333_333_333);
}

#[test]
fn sample_beyond_threshold_is_full_scale() {
    assert_eq!(process_sample(HALF, HALF), ONE);
    assert_eq!(process_sample(HALF + 1, HALF), ONE);
    assert_eq!(process_sample(i64::MAX, HALF), ONE);
    assert_eq!(process_sample(-HALF, HALF), -ONE);
    assert_eq!(process_sample(i64::MIN, HALF), -ONE);
    assert_eq!(process_sample(i64::MIN, i64::MAX), -ONE);
}

#[test]
fn full_threshold_is_identity() {
    for x in [-ONE, -999_999_999, -HALF, -1, 0, 1, 123_456_789, HALF, ONE] {
        assert_eq!(process_sample(x, ONE), x);
    }
}

#[test]
fn output_stays_within_full_scale() {
    for threshold in [1, 2, 999, HALF, ONE - 1, ONE] {
        for x in [-ONE, -HALF, -3, -1, 0, 1, 3, HALF, ONE] {
            let y = process_sample(x, threshold);
            assert!(-ONE <= y && y <= ONE);
        }
    }
}

#[test]
fn negated_input_gives_negated_output() {
    for threshold in [1, 7, 333_333_333, HALF, ONE, 3 * ONE] {
        for x in [0, 1, 2, 5, 1_000, 333_333_334, HALF, ONE, 2 * ONE] {
            assert_eq!(process_sample(-x, threshold), -process_sample(x, threshold));
        }
    }
}

#[test]
fn zero_input_gives_zero() {
    assert_eq!(process_sample(0, 1), 0);
    assert_eq!(process_sample(0, ONE), 0);
}

#[test]
fn channels_of_a_frame_share_the_smoothed_value() {
    let mut threshold = Parameter::new(
        "threshold",
        "Threshold",
        Range::Linear { min: 1, max: ONE },
        ONE,
        SmoothingStyle::Linear(1),
        4_000,
    )
    .ok()
    .unwrap();
    threshold.set_target(HALF);
    // Four samples of ramp: 0.875, 0.75, 0.625, 0.5, then 0.5 for good.
    let mut buffer = vec![vec![HALF; 6], vec![HALF; 6]];
    process_block(&mut buffer, &mut threshold);
    let expected = vec![
        571_428_571,
        666_666_666,
        800_000_000,
        ONE,
        ONE,
        ONE,
    ];
    assert_eq!(buffer[0], expected);
    assert_eq!(buffer[1], expected);
    assert_eq!(threshold.current_value(), HALF);
    assert_eq!(threshold.steps_left(), 0);
}

#[test]
fn empty_buffer_pulls_no_sample() {
    let mut threshold = fixed_threshold(ONE);
    threshold.set_target(HALF);
    let mut none: Vec<Vec<i64>> = Vec::new();
    process_block(&mut none, &mut threshold);
    assert_eq!(threshold.current_value(), ONE);
    let mut silent = vec![Vec::new(), Vec::new()];
    process_block(&mut silent, &mut threshold);
    assert_eq!(threshold.current_value(), ONE);
}

#[test]
fn process_checks_the_shape_of_the_block() {
    let mut params = BleachInjectorParams::with_threshold(fixed_threshold(HALF)).ok().unwrap();
    let mut ragged = vec![vec![ONE, ONE], vec![ONE]];
    assert!(!is_rectangular(&ragged));
    assert_eq!(params.process(&mut ragged), ProcessStatus::Rejected);
    assert_eq!(ragged, vec![vec![ONE, ONE], vec![ONE]]);
    let mut even = vec![vec![HALF, 250_000_000], vec![-ONE, 0]];
    assert!(is_rectangular(&even));
    assert_eq!(params.process(&mut even), ProcessStatus::Normal);
    assert_eq!(even, vec![vec![ONE, HALF], vec![-ONE, 0]]);
}

#[test]
fn process_rejects_a_threshold_that_reaches_zero() {
    let reaching_zero = Parameter::new(
        "threshold",
        "Threshold",
        Range::Linear { min: 0, max: ONE },
        ONE,
        SmoothingStyle::Off,
        44_100,
    )
    .ok()
    .unwrap();
    let mut params = BleachInjectorParams { threshold: reaching_zero };
    let mut buffer = vec![vec![HALF]];
    assert_eq!(params.process(&mut buffer), ProcessStatus::Rejected);
    assert_eq!(buffer, vec![vec![HALF]]);
}
