use bleach_injector::command::{handle_text, parse_command, run_command, TextCommand};
use bleach_injector::plugin::{BleachInjectorParams, THRESHOLD_MIN};
use bleach_injector::units::ONE;

#[test]
fn malformed_text_command_changes_nothing() {
    let mut params = BleachInjectorParams::default();
    params.threshold.set_target(500_000_000);
    params.threshold.next_smoothed_value();
    let current = params.threshold.current_value();
    let left = params.threshold.steps_left();
    let reply = handle_text("setThreshold abc", &mut params.threshold);
    assert_eq!(reply, "");
    assert_eq!(params.threshold.current_value(), current);
    assert_eq!(params.threshold.target_value(), 500_000_000);
    assert_eq!(params.threshold.steps_left(), left);
}

#[test]
fn commands_are_recognised() {
    assert_eq!(parse_command("getThreshold"), TextCommand::GetThreshold);
    assert_eq!(parse_command("setThreshold 0.25"), TextCommand::SetThreshold(250_000_000));
    assert_eq!(parse_command("setThreshold -1.5"), TextCommand::SetThreshold(-1_500_000_000));
}

#[test]
fn white_space_sets_words_apart() {
    assert_eq!(parse_command("  getThreshold  "), TextCommand::GetThreshold);
    assert_eq!(parse_command("\tsetThreshold \r\n 0.5\n"), TextCommand::SetThreshold(500_000_000));
    assert_eq!(parse_command("setThreshold\x0b1\x0c"), TextCommand::SetThreshold(ONE));
    assert_eq!(parse_command("getThreshold now please"), TextCommand::GetThreshold);
    assert_eq!(parse_command("setThreshold 0.5 0.7"), TextCommand::SetThreshold(500_000_000));
}

#[test]
fn other_lines_are_ignored() {
    assert_eq!(parse_command(""), TextCommand::Ignored);
    assert_eq!(parse_command("   "), TextCommand::Ignored);
    assert_eq!(parse_command("setThreshold"), TextCommand::Ignored);
    assert_eq!(parse_command("setThreshold abc"), TextCommand::Ignored);
    assert_eq!(parse_command("setThreshold 1e3"), TextCommand::Ignored);
    assert_eq!(parse_command("setThreshold0.5"), TextCommand::Ignored);
    assert_eq!(parse_command("SetThreshold 0.5"), TextCommand::Ignored);
    assert_eq!(parse_command("getthreshold"), TextCommand::Ignored);
    assert_eq!(parse_command("getThresholds"), TextCommand::Ignored);
    assert_eq!(parse_command("get Threshold"), TextCommand::Ignored);
    assert_eq!(parse_command("0.5 setThreshold"), TextCommand::Ignored);
    assert_eq!(parse_command("setThreshold\u{a0}0.5"), TextCommand::Ignored);
    assert_eq!(parse_command("жетThreshold"), TextCommand::Ignored);
}

#[test]
fn get_replies_with_the_target_in_decimal() {
    let mut params = BleachInjectorParams::default();
    assert_eq!(handle_text("getThreshold", &mut params.threshold), "1");
    assert_eq!(handle_text("setThreshold 0.25", &mut params.threshold), "");
    assert_eq!(params.threshold.target_value(), 250_000_000);
    assert_eq!(params.threshold.current_value(), ONE);
    assert_eq!(params.threshold.steps_left(), 2_205);
    assert_eq!(handle_text("getThreshold", &mut params.threshold), "0.25");
    assert_eq!(params.threshold.steps_left(), 2_205);
}

#[test]
fn set_is_clamped_to_the_range() {
    let mut params = BleachInjectorParams::default();
    handle_text("setThreshold 0", &mut params.threshold);
    assert_eq!(params.threshold.target_value(), THRESHOLD_MIN);
    handle_text("setThreshold 12.5", &mut params.threshold);
    assert_eq!(params.threshold.target_value(), ONE);
    handle_text("setThreshold -3", &mut params.threshold);
    assert_eq!(params.threshold.target_value(), THRESHOLD_MIN);
    assert_eq!(handle_text("getThreshold", &mut params.threshold), "0.001");
}

#[test]
fn ignored_command_gets_an_empty_reply() {
    let mut params = BleachInjectorParams::default();
    assert_eq!(run_command(TextCommand::Ignored, &mut params.threshold), "");
    assert_eq!(params.threshold.target_value(), ONE);
    assert_eq!(run_command(TextCommand::SetThreshold(500_000_000), &mut params.threshold), "");
    assert_eq!(run_command(TextCommand::GetThreshold, &mut params.threshold), "0.5");
}
