use type_arena::room::PlayerResult;

#[test]
fn perfect_run_scores_full_speed() {
    assert_eq!(PlayerResult::calculate_score(100, 100), 100);
}

#[test]
fn half_accuracy_quarters_the_score() {
    assert_eq!(PlayerResult::calculate_score(100, 50), 25);
}

#[test]
fn zero_speed_scores_zero_for_any_accuracy() {
    assert_eq!(PlayerResult::calculate_score(0, 0), 0);
    assert_eq!(PlayerResult::calculate_score(0, 50), 0);
    assert_eq!(PlayerResult::calculate_score(0, 100), 0);
    assert_eq!(PlayerResult::calculate_score(0, 10_000), 0);
    assert_eq!(PlayerResult::calculate_score(0, u32::MAX), 0);
}

#[test]
fn score_truncates_towards_zero() {
    // 60 * 0.9^2 = 48.6
    assert_eq!(PlayerResult::calculate_score(60, 90), 48);
    // 50 * 1.0^2 = 50
    assert_eq!(PlayerResult::calculate_score(50, 100), 50);
    // 33 * 0.77^2 = 19.56...
    assert_eq!(PlayerResult::calculate_score(33, 77), 19);
}

#[test]
fn accuracy_above_one_hundred_amplifies() {
    // No clamping: 100 * 2.0^2 = 400.
    assert_eq!(PlayerResult::calculate_score(100, 200), 400);
}

#[test]
fn score_is_monotonic_in_speed() {
    let mut last = 0;
    let mut wpm = 0;
    while wpm <= 200 {
        let s = PlayerResult::calculate_score(wpm, 85);
        assert!(s >= last);
        last = s;
        wpm += 1;
    }
}

#[test]
fn score_is_monotonic_in_accuracy_up_to_one_hundred() {
    let mut last = 0;
    let mut accuracy = 0;
    while accuracy <= 100 {
        let s = PlayerResult::calculate_score(120, accuracy);
        assert!(s >= last);
        last = s;
        accuracy += 1;
    }
}

#[test]
fn enormous_inputs_saturate_instead_of_overflowing() {
    assert_eq!(PlayerResult::calculate_score(u32::MAX, u32::MAX), u32::MAX);
}
