use rusty_pee::aggregate::{
    child_code, default_max, exit_byte, failure_exit_status, run_exit_status, strict_or,
    RunFailure,
};
use rusty_pee::CompatibilityMode;

#[test]
fn default_max_empty_is_zero() {
    assert_eq!(default_max(&[]), 0);
}

#[test]
fn default_max_single_passes_through() {
    assert_eq!(default_max(&[0]), 0);
    assert_eq!(default_max(&[1]), 1);
    assert_eq!(default_max(&[42]), 42);
    assert_eq!(default_max(&[255]), 255);
}

#[test]
fn default_max_matrix() {
    assert_eq!(default_max(&[0, 0]), 0);
    assert_eq!(default_max(&[0, 1]), 1);
    assert_eq!(default_max(&[1, 0]), 1);
    assert_eq!(default_max(&[2, 1]), 2);
    assert_eq!(default_max(&[1, 2]), 2);
    assert_eq!(default_max(&[255, 1]), 255);
}

#[test]
fn strict_or_empty_is_zero() {
    assert_eq!(strict_or(&[]), 0);
}

#[test]
fn strict_or_single_passes_through() {
    assert_eq!(strict_or(&[0]), 0);
    assert_eq!(strict_or(&[1]), 1);
    assert_eq!(strict_or(&[42]), 42);
    assert_eq!(strict_or(&[255]), 255);
}

#[test]
fn strict_or_matrix_matches_moreutils() {
    assert_eq!(strict_or(&[0, 0]), 0);
    assert_eq!(strict_or(&[0, 1]), 1);
    assert_eq!(strict_or(&[1, 0]), 1);
    assert_eq!(strict_or(&[2, 1]), 3);
    assert_eq!(strict_or(&[1, 2]), 3);
    assert_eq!(strict_or(&[255, 1]), 255);
}

#[test]
fn modes_diverge_on_distinct_nonzero_codes() {
    let codes = &[1, 2];
    assert_eq!(default_max(codes), 2, "Default mode: max");
    assert_eq!(strict_or(codes), 3, "Strict mode: bitwise OR");
}

#[test]
fn default_max_of_negative_codes_is_the_largest() {
    assert_eq!(default_max(&[-5, -3, -9]), -3);
}

#[test]
fn strict_or_of_three_codes() {
    assert_eq!(strict_or(&[1, 4, 16]), 21);
}

#[test]
fn success_iff_every_child_succeeded() {
    for codes in [vec![0, 0, 0], vec![0, 3, 0], vec![7]] {
        let all_zero = codes.iter().all(|c| *c == 0);
        assert_eq!(default_max(&codes) == 0, all_zero);
        assert_eq!(strict_or(&codes) == 0, all_zero);
    }
}

#[test]
fn strict_never_below_default_for_exit_codes() {
    for codes in [vec![1, 2], vec![4, 3], vec![255, 128], vec![0]] {
        assert!(strict_or(&codes) >= default_max(&codes));
    }
}

#[test]
fn modes_agree_when_codes_within_largest() {
    assert_eq!(default_max(&[3, 1, 2]), strict_or(&[3, 1, 2]));
    assert_ne!(default_max(&[4, 1]), strict_or(&[4, 1]));
}

#[test]
fn signal_killed_child_contributes_one() {
    assert_eq!(child_code(None), 1);
    assert_eq!(child_code(Some(7)), 7);
}

#[test]
fn exit_byte_passes_range_and_maps_rest_to_one() {
    assert_eq!(exit_byte(0), 0);
    assert_eq!(exit_byte(255), 255);
    assert_eq!(exit_byte(256), 1);
    assert_eq!(exit_byte(-1), 1);
}

#[test]
fn run_exit_status_matrix() {
    assert_eq!(run_exit_status(CompatibilityMode::Default, &[Some(1), Some(2)]), 2);
    assert_eq!(run_exit_status(CompatibilityMode::Strict, &[Some(1), Some(2)]), 3);
    assert_eq!(run_exit_status(CompatibilityMode::Default, &[None, Some(0)]), 1);
    assert_eq!(run_exit_status(CompatibilityMode::Strict, &[None, Some(0)]), 1);
    assert_eq!(run_exit_status(CompatibilityMode::Default, &[]), 0);
    assert_eq!(run_exit_status(CompatibilityMode::Default, &[Some(300)]), 1);
    assert_eq!(run_exit_status(CompatibilityMode::Strict, &[Some(255), Some(1)]), 255);
}

#[test]
fn failure_exit_status_by_mode() {
    assert_eq!(failure_exit_status(CompatibilityMode::Default, RunFailure::SpawnFailed), 127);
    assert_eq!(failure_exit_status(CompatibilityMode::Strict, RunFailure::SpawnFailed), 1);
    assert_eq!(failure_exit_status(CompatibilityMode::Strict, RunFailure::UnknownOption), 2);
    assert_eq!(failure_exit_status(CompatibilityMode::Default, RunFailure::UnknownOption), 2);
    assert_eq!(failure_exit_status(CompatibilityMode::Default, RunFailure::InputFailed), 1);
    assert_eq!(failure_exit_status(CompatibilityMode::Strict, RunFailure::FanOutFailed), 1);
}

#[test]
fn aggregate_ignores_argv_order_and_repeats() {
    assert_eq!(default_max(&[3, 1, 2]), default_max(&[2, 2, 1, 3]));
    assert_eq!(strict_or(&[3, 4, 8]), strict_or(&[8, 4, 4, 3]));
}
