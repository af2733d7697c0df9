use type_arena::stats::PlayerStats;

fn fresh() -> PlayerStats {
    PlayerStats::default()
}

#[test]
fn a_fresh_record_is_all_zeros() {
    let s = fresh();
    assert_eq!(s.games_played, 0);
    assert_eq!(s.games_won, 0);
    assert_eq!(s.total_wpm, 0);
    assert_eq!(s.total_accuracy, 0);
    assert_eq!(s.rounds_played, 0);
    assert_eq!(s.best_wpm, 0);
    assert_eq!(s.best_accuracy, 0);
}

#[test]
fn averages_are_zero_with_no_rounds_played() {
    let s = fresh();
    assert_eq!(s.average_wpm(), 0);
    assert_eq!(s.average_accuracy(), 0);
}

#[test]
fn averages_divide_the_accumulated_totals() {
    let mut s = fresh();
    s.update_with_result(60, 90);
    s.update_with_result(71, 95);
    // floor(131 / 2) and floor(185 / 2)
    assert_eq!(s.average_wpm(), 65);
    assert_eq!(s.average_accuracy(), 92);
    assert_eq!(s.rounds_played, 2);
    assert_eq!(s.total_wpm, 131);
    assert_eq!(s.total_accuracy, 185);
}

#[test]
fn one_round_averages_to_itself() {
    let mut s = fresh();
    s.update_with_result(82, 97);
    assert_eq!(s.average_wpm(), 82);
    assert_eq!(s.average_accuracy(), 97);
}

#[test]
fn bests_track_the_maxima() {
    let mut s = fresh();
    s.update_with_result(60, 95);
    s.update_with_result(80, 90);
    s.update_with_result(70, 99);
    assert_eq!(s.best_wpm, 80);
    assert_eq!(s.best_accuracy, 99);
}

#[test]
fn game_counters_grow_one_at_a_time() {
    let mut s = fresh();
    s.record_game_played();
    s.record_game_played();
    s.record_game_won();
    assert_eq!(s.games_played, 2);
    assert_eq!(s.games_won, 1);
    assert_eq!(s.rounds_played, 0);
}
