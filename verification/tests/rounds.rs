use seton::cell::Cell;
use seton::session::{RoundState, Session, SessionConfig};

#[test]
fn fresh_session_is_in_results_with_defaults() {
    let s = Session::new();
    assert_eq!(s.state, RoundState::Results);
    assert_eq!(
        s.config,
        SessionConfig { board_size: 5, n_black: 5, n_white: 5, time_seconds: 30 }
    );
    assert_eq!(s.games_played, 0);
    assert_eq!(s.last_score.correct, 0);
    assert_eq!(s.last_score.wrong_position, 10);
}

#[test]
fn start_generates_and_clears() {
    let mut s = Session::new();
    s.start(1_000);
    assert_eq!(s.state, RoundState::Memorizing);
    assert_eq!(s.time_started_ms, 1_000);
    assert_eq!(s.truth.count(Cell::Black), 5);
    assert_eq!(s.truth.count(Cell::White), 5);
    assert_eq!(s.solution.count(Cell::Empty), 25);
    assert_eq!(s.games_played, 0);
}

#[test]
fn countdown_is_derived_from_start_time() {
    let mut s = Session::new();
    s.start(1_000);
    assert_eq!(s.remaining_ms(1_000), 30_000);
    assert_eq!(s.remaining_ms(2_000), 29_000);
    assert_eq!(s.remaining_ms(0), 30_000);
    assert_eq!(s.remaining_ms(31_000), 0);
    assert_eq!(s.remaining_ms(1_000_000), 0);
}

#[test]
fn tick_moves_to_solving_only_when_time_is_up() {
    let mut s = Session::new();
    s.start(1_000);
    s.tick(30_999);
    assert_eq!(s.state, RoundState::Memorizing);
    s.tick(31_000);
    assert_eq!(s.state, RoundState::Solving);
}

#[test]
fn know_it_skips_the_countdown() {
    let mut s = Session::new();
    s.start(1_000);
    s.know_it();
    assert_eq!(s.state, RoundState::Solving);
    // Outside Memorizing the shortcut is ignored.
    s.know_it();
    assert_eq!(s.state, RoundState::Solving);
}

#[test]
fn clicks_edit_only_the_solution_and_only_while_solving() {
    let mut s = Session::new();
    s.start(0);
    s.toggle_at(1, 1, Cell::Black);
    assert_eq!(s.solution.count(Cell::Empty), 25);
    s.know_it();
    let truth_black = s.truth.count(Cell::Black);
    s.toggle_at(1, 1, Cell::Black);
    assert_eq!(s.solution.get(1, 1), Cell::Black);
    assert_eq!(s.truth.count(Cell::Black), truth_black);
    // A second click on the same cell with the same color clears it.
    s.toggle_at(1, 1, Cell::Black);
    assert_eq!(s.solution.get(1, 1), Cell::Empty);
    // Clicks off the board are ignored.
    s.toggle_at(5, 0, Cell::Black);
    s.toggle_at(0, 5, Cell::White);
    assert_eq!(s.solution.count(Cell::Empty), 25);
}

#[test]
fn session_enforces_capacities() {
    let mut s = Session::new();
    s.set_black_stones(1);
    s.set_white_stones(1);
    s.start(0);
    s.know_it();
    s.toggle_at(0, 0, Cell::Black);
    assert_eq!(s.solution.get(0, 0), Cell::Black);
    // Black is used up: the request falls back to white.
    s.toggle_at(1, 1, Cell::Black);
    assert_eq!(s.solution.get(1, 1), Cell::White);
    // Both are used up: the click places nothing.
    s.toggle_at(2, 2, Cell::Black);
    assert_eq!(s.solution.get(2, 2), Cell::Empty);
    assert_eq!(s.solution.count(Cell::Black), 1);
    assert_eq!(s.solution.count(Cell::White), 1);
}

#[test]
fn done_scores_and_counts_the_round() {
    let mut s = Session::new();
    s.start(0);
    s.know_it();
    s.done();
    assert_eq!(s.state, RoundState::Results);
    assert_eq!(s.games_played, 1);
    assert_eq!(s.last_score.correct, 0);
    assert_eq!(s.last_score.wrong_color, 0);
    assert_eq!(s.last_score.wrong_position, 10);
    assert_eq!(s.last_score.total, 10);
    // Outside Solving the submission is ignored.
    s.done();
    assert_eq!(s.games_played, 1);
}

#[test]
fn configuration_is_frozen_outside_results() {
    let mut s = Session::new();
    s.start(0);
    s.set_board_size(7);
    s.set_black_stones(2);
    s.set_white_stones(3);
    s.set_time_seconds(60);
    assert_eq!(
        s.config,
        SessionConfig { board_size: 5, n_black: 5, n_white: 5, time_seconds: 30 }
    );
    s.know_it();
    s.done();
    s.set_board_size(7);
    s.set_time_seconds(60);
    assert_eq!(s.config.board_size, 7);
    assert_eq!(s.config.time_seconds, 60);
}

#[test]
fn out_of_range_configuration_is_ignored() {
    let mut s = Session::new();
    s.set_board_size(0);
    assert_eq!(s.config.board_size, 5);
    s.set_board_size(100_000);
    assert_eq!(s.config.board_size, 5);
    s.set_time_seconds(0);
    assert_eq!(s.config.time_seconds, 30);
}

#[test]
fn next_round_uses_edited_configuration() {
    let mut s = Session::new();
    s.set_board_size(6);
    s.set_black_stones(4);
    s.set_white_stones(2);
    s.start(0);
    assert_eq!(s.truth.size(), 6);
    assert_eq!(s.truth.count(Cell::Black), 4);
    assert_eq!(s.truth.count(Cell::White), 2);
    assert_eq!(s.solution.size(), 6);
}

#[test]
fn full_round_reproducing_the_truth_scores_full() {
    let mut s = Session::new();
    s.start(0);
    s.know_it();
    let n = s.truth.size();
    for col in 0..n {
        for row in 0..n {
            let c = s.truth.get(col, row);
            if c != Cell::Empty {
                s.toggle_at(col, row, c);
            }
        }
    }
    s.done();
    assert_eq!(s.last_score.correct, 10);
    assert_eq!(s.last_score.wrong_color, 0);
    assert_eq!(s.last_score.wrong_position, 0);
    let (num, den) = s.last_score.percentage_ratio();
    assert_eq!(num, den);
    assert_eq!(num as f64 / den as f64, 1.0);
}

#[test]
fn start_is_ignored_mid_round() {
    let mut s = Session::new();
    s.start(500);
    s.start(900);
    assert_eq!(s.time_started_ms, 500);
    s.know_it();
    s.start(900);
    assert_eq!(s.state, RoundState::Solving);
    assert_eq!(s.time_started_ms, 500);
}
