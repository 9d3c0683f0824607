use vstd::prelude::*;
use vstd::math::min;
use crate::cell::{Cell, cell_value, cell_of_value};
use crate::grid::{
    Grid,
    count_grid,
    lemma_count_grid_absent,
    lemma_count_grid_update,
    lemma_count_row_update,
};
use crate::generate::generate;
use crate::score::{Score, evaluate, count_pos_grid, count_neg_grid};
use crate::toggle::{toggle, spec_toggle};

verus! {

/// Where a round stands. `Results` doubles as the pre-round configuration
/// state: scores are shown and the settings may be edited there, and the
/// next round starts from it.
#[derive(Clone, Copy, Debug, PartialEq, Eq, Structural)]
pub enum RoundState {
    Memorizing,
    Solving,
    Results,
}

/// The settings of a session: the board's side length, how many stones of
/// each color a round places, and how long the memorizing countdown runs.
#[derive(Clone, Copy, Debug, PartialEq, Eq, Structural)]
pub struct SessionConfig {
    pub board_size: usize,
    pub n_black: usize,
    pub n_white: usize,
    pub time_seconds: usize,
}

impl SessionConfig {
    /// The bounds the engine can work within: a drawable board whose cell
    /// count and stone total fit machine integers, and a countdown whose
    /// millisecond equivalent fits a `u64`.
    pub open spec fn wf(&self) -> bool {
        &&& 1 <= self.board_size <= 46340
        &&& self.n_black + self.n_white <= usize::MAX
        &&& 1 <= self.time_seconds <= 0xFFFF_FFFF
    }
}

/// One game session: the configuration, the round state machine, the truth
/// board to memorize, the board the player rebuilds, the last round's
/// score and how many rounds have been completed.
pub struct Session {
    pub config: SessionConfig,
    pub state: RoundState,
    pub truth: Grid,
    pub solution: Grid,
    pub last_score: Score,
    pub games_played: usize,
    pub time_started_ms: u64,
}

impl Session {
    /// What holds of the boards from a round's start to its end: the truth
    /// board was generated from the current configuration (so its stone
    /// counts are the requested ones, capped at the board's capacity), and
    /// the solution never holds more stones of a color than configured.
    pub open spec fn round_setup(&self) -> bool {
        &&& self.truth@.len() == self.config.board_size
        &&& count_grid(self.truth@, 1i8) == min(
            self.config.n_black as int,
            self.config.board_size * self.config.board_size,
        )
        &&& count_grid(self.truth@, 1i8) + count_grid(self.truth@, (-1i8)) == min(
            self.config.n_black + self.config.n_white,
            self.config.board_size * self.config.board_size,
        )
        &&& count_grid(self.solution@, 1i8) <= self.config.n_black
        &&& count_grid(self.solution@, (-1i8)) <= self.config.n_white
    }

    /// A session is well formed when its configuration is, both boards
    /// are, they have one size, and — while a round is running — the
    /// boards still belong to the configuration that started it.
    pub open spec fn wf(&self) -> bool {
        &&& self.config.wf()
        &&& self.truth.wf()
        &&& self.solution.wf()
        &&& self.truth@.len() == self.solution@.len()
        &&& self.state != RoundState::Results ==> self.round_setup()
    }

    /// A fresh session: an all-empty five-by-five board on both sides,
    /// five stones of each color, thirty seconds to memorize, no round
    /// played yet; the initial score is that of an all-empty solution.
    pub fn new() -> (s: Session)
        ensures
            s.wf(),
            s.state == RoundState::Results,
            s.config == (SessionConfig { board_size: 5, n_black: 5, n_white: 5, time_seconds: 30 }),
            s.games_played == 0,
            s.last_score == (Score { correct: 0, wrong_color: 0, wrong_position: 10, total: 10 }),
            s.time_started_ms == 0,
            s.truth@.len() == 5,
            s.solution@.len() == 5,
            forall|i: int, j: int|
                0 <= i < 5 && 0 <= j < 5 ==> #[trigger] s.truth@[i][j] == 0i8
                    && #[trigger] s.solution@[i][j] == 0i8,
    {
        Session {
            config: SessionConfig { board_size: 5, n_black: 5, n_white: 5, time_seconds: 30 },
            state: RoundState::Results,
            truth: Grid::new(5),
            solution: Grid::new(5),
            last_score: Score { correct: 0, wrong_color: 0, wrong_position: 10, total: 10 },
            games_played: 0,
            time_started_ms: 0,
        }
    }

    /// Start a round: generate a fresh truth board from the current
    /// configuration, clear the solution board, record when the countdown
    /// began, and move to `Memorizing`. Anywhere but in `Results` this is
    /// ignored.
    pub fn start(&mut self, now_ms: u64)
        requires
            old(self).wf(),
        ensures
            final(self).wf(),
            old(self).state != RoundState::Results ==> *final(self) == *old(self),
            old(self).state == RoundState::Results ==> {
                &&& final(self).state == RoundState::Memorizing
                &&& final(self).config == old(self).config
                &&& final(self).games_played == old(self).games_played
                &&& final(self).last_score == old(self).last_score
                &&& final(self).time_started_ms == now_ms
                &&& final(self).round_setup()
                &&& final(self).solution@.len() == old(self).config.board_size
                &&& forall|i: int, j: int|
                    0 <= i < old(self).config.board_size && 0 <= j < old(self).config.board_size
                        ==> #[trigger] final(self).solution@[i][j] == 0i8
            },
    {
        match self.state {
            RoundState::Results => {
                let board_size = self.config.board_size;
                self.truth = generate(board_size, self.config.n_black, self.config.n_white);
                self.solution = Grid::new(board_size);
                proof {
                    lemma_count_grid_absent(self.solution@, 1i8);
                    lemma_count_grid_absent(self.solution@, (-1i8));
                }
                self.time_started_ms = now_ms;
                self.state = RoundState::Memorizing;
            },
            _ => {},
        }
    }

    /// The countdown's length in milliseconds.
    pub open spec fn spec_duration_ms(&self) -> int {
        self.config.time_seconds * 1000
    }

    /// Whether the memorizing countdown has run out at `now_ms`. The timer
    /// is derived: it is recomputed from the recorded start on every check,
    /// never scheduled.
    pub open spec fn spec_time_up(&self, now_ms: u64) -> bool {
        now_ms >= self.time_started_ms + self.spec_duration_ms()
    }

    /// Advance the derived countdown: while memorizing, once `now_ms` is
    /// `time_seconds` past the recorded start, the round moves to
    /// `Solving`. In any other state time changes nothing.
    pub fn tick(&mut self, now_ms: u64)
        requires
            old(self).wf(),
        ensures
            final(self).wf(),
            final(self).state == if old(self).state == RoundState::Memorizing
                && old(self).spec_time_up(now_ms) {
                RoundState::Solving
            } else {
                old(self).state
            },
            final(self).config == old(self).config,
            final(self).truth == old(self).truth,
            final(self).solution == old(self).solution,
            final(self).last_score == old(self).last_score,
            final(self).games_played == old(self).games_played,
            final(self).time_started_ms == old(self).time_started_ms,
    {
        if matches!(self.state, RoundState::Memorizing) {
            let elapsed = if now_ms >= self.time_started_ms {
                now_ms - self.time_started_ms
            } else {
                0
            };
            let duration = (self.config.time_seconds as u64) * 1000;
            if elapsed >= duration {
                self.state = RoundState::Solving;
            }
        }
    }

    /// The player declares the position memorized: while memorizing, move
    /// to `Solving` at once, whatever time is left. Ignored elsewhere.
    pub fn know_it(&mut self)
        requires
            old(self).wf(),
        ensures
            final(self).wf(),
            final(self).state == if old(self).state == RoundState::Memorizing {
                RoundState::Solving
            } else {
                old(self).state
            },
            final(self).config == old(self).config,
            final(self).truth == old(self).truth,
            final(self).solution == old(self).solution,
            final(self).last_score == old(self).last_score,
            final(self).games_played == old(self).games_played,
            final(self).time_started_ms == old(self).time_started_ms,
    {
        if matches!(self.state, RoundState::Memorizing) {
            self.state = RoundState::Solving;
        }
    }

    /// How many milliseconds of the memorizing countdown are left at
    /// `now_ms`: the full length before the recorded start, zero once the
    /// time is up.
    pub fn remaining_ms(&self, now_ms: u64) -> (r: u64)
        requires
            self.wf(),
        ensures
            r == if self.spec_time_up(now_ms) {
                0int
            } else if now_ms >= self.time_started_ms {
                self.time_started_ms + self.spec_duration_ms() - now_ms
            } else {
                self.spec_duration_ms()
            },
    {
        let duration = (self.config.time_seconds as u64) * 1000;
        let elapsed = if now_ms >= self.time_started_ms {
            now_ms - self.time_started_ms
        } else {
            0
        };
        if elapsed >= duration {
            0
        } else {
            duration - elapsed
        }
    }

    /// Apply one click to the solution board: while solving and on the
    /// board, the clicked cell takes the value of the placement rule, fed
    /// with the stone counts recomputed from the current solution grid.
    /// Outside `Solving`, or off the board, nothing changes.
    pub fn toggle_at(&mut self, col: usize, row: usize, requested: Cell)
        requires
            old(self).wf(),
        ensures
            final(self).wf(),
            final(self).config == old(self).config,
            final(self).state == old(self).state,
            final(self).truth == old(self).truth,
            final(self).last_score == old(self).last_score,
            final(self).games_played == old(self).games_played,
            final(self).time_started_ms == old(self).time_started_ms,
            if old(self).state == RoundState::Solving && col < old(self).solution@.len() && row
                < old(self).solution@.len() {
                final(self).solution@ == old(self).solution@.update(
                    col as int,
                    old(self).solution@[col as int].update(
                        row as int,
                        cell_value(
                            spec_toggle(
                                cell_of_value(old(self).solution@[col as int][row as int]),
                                requested,
                                count_grid(old(self).solution@, 1i8),
                                count_grid(old(self).solution@, (-1i8)),
                                old(self).config.n_black as int,
                                old(self).config.n_white as int,
                            ),
                        ),
                    ),
                )
            } else {
                final(self).solution == old(self).solution
            },
    {
        if matches!(self.state, RoundState::Solving) {
            let size = self.solution.size();
            if col < size && row < size {
                let black_placed = self.solution.count(Cell::Black);
                let white_placed = self.solution.count(Cell::White);
                let cur = self.solution.get(col, row);
                let new_cell = toggle(
                    cur,
                    requested,
                    black_placed,
                    white_placed,
                    self.config.n_black,
                    self.config.n_white,
                );
                let ghost old_view = self.solution@;
                let ghost old_row = self.solution@[col as int];
                self.solution.set(col, row, new_cell);
                proof {
                    lemma_count_row_update(old_row, 1i8, row as int, cell_value(new_cell));
                    lemma_count_row_update(old_row, (-1i8), row as int, cell_value(new_cell));
                    lemma_count_grid_update(
                        old_view,
                        1i8,
                        col as int,
                        old_row.update(row as int, cell_value(new_cell)),
                    );
                    lemma_count_grid_update(
                        old_view,
                        (-1i8),
                        col as int,
                        old_row.update(row as int, cell_value(new_cell)),
                    );
                }
            }
        }
    }

    /// The player submits the rebuilt board: while solving, score it
    /// against the truth, remember the score, count the completed round,
    /// and move to `Results`. Ignored elsewhere.
    pub fn done(&mut self)
        requires
            old(self).wf(),
        ensures
            final(self).wf(),
            old(self).state != RoundState::Solving ==> *final(self) == *old(self),
            old(self).state == RoundState::Solving ==> {
                &&& final(self).state == RoundState::Results
                &&& final(self).config == old(self).config
                &&& final(self).truth == old(self).truth
                &&& final(self).solution == old(self).solution
                &&& final(self).time_started_ms == old(self).time_started_ms
                &&& final(self).last_score.correct == count_pos_grid(
                    old(self).truth@,
                    old(self).solution@,
                )
                &&& final(self).last_score.wrong_color == count_neg_grid(
                    old(self).truth@,
                    old(self).solution@,
                )
                &&& final(self).last_score.total == old(self).config.n_black
                    + old(self).config.n_white
                &&& final(self).last_score.wrong_position == final(self).last_score.total
                    - final(self).last_score.correct - final(self).last_score.wrong_color
                &&& final(self).last_score.consistent()
                &&& final(self).games_played == if old(self).games_played < usize::MAX {
                    old(self).games_played + 1
                } else {
                    usize::MAX as int
                }
            },
    {
        if matches!(self.state, RoundState::Solving) {
            let sc = evaluate(
                &self.truth,
                &self.solution,
                self.config.n_black,
                self.config.n_white,
            );
            self.last_score = sc;
            if self.games_played < usize::MAX {
                self.games_played = self.games_played + 1;
            }
            self.state = RoundState::Results;
        }
    }

    /// Change the board's side length for the next round. Accepted only in
    /// `Results` and only within the engine's board range; otherwise
    /// nothing changes.
    pub fn set_board_size(&mut self, value: usize)
        requires
            old(self).wf(),
        ensures
            final(self).wf(),
            if old(self).state == RoundState::Results && 1 <= value <= 46340 {
                *final(self) == (Session {
                    config: SessionConfig { board_size: value, ..old(self).config },
                    ..*old(self)
                })
            } else {
                *final(self) == *old(self)
            },
    {
        if matches!(self.state, RoundState::Results) && 1 <= value && value <= 46340 {
            self.config.board_size = value;
        }
    }

    /// Change how many black stones the next round places. Accepted only
    /// in `Results`, and only while the stone total still fits the
    /// machine; otherwise nothing changes.
    pub fn set_black_stones(&mut self, value: usize)
        requires
            old(self).wf(),
        ensures
            final(self).wf(),
            if old(self).state == RoundState::Results && value + old(self).config.n_white
                <= usize::MAX {
                *final(self) == (Session {
                    config: SessionConfig { n_black: value, ..old(self).config },
                    ..*old(self)
                })
            } else {
                *final(self) == *old(self)
            },
    {
        if matches!(self.state, RoundState::Results) && value <= usize::MAX - self.config.n_white {
            self.config.n_black = value;
        }
    }

    /// Change how many white stones the next round places. Accepted only
    /// in `Results`, and only while the stone total still fits the
    /// machine; otherwise nothing changes.
    pub fn set_white_stones(&mut self, value: usize)
        requires
            old(self).wf(),
        ensures
            final(self).wf(),
            if old(self).state == RoundState::Results && value + old(self).config.n_black
                <= usize::MAX {
                *final(self) == (Session {
                    config: SessionConfig { n_white: value, ..old(self).config },
                    ..*old(self)
                })
            } else {
                *final(self) == *old(self)
            },
    {
        if matches!(self.state, RoundState::Results) && value <= usize::MAX - self.config.n_black {
            self.config.n_white = value;
        }
    }

    /// Change the memorizing countdown for the next round. Accepted only
    /// in `Results` and only for lengths whose millisecond equivalent the
    /// engine can track; otherwise nothing changes.
    pub fn set_time_seconds(&mut self, value: usize)
        requires
            old(self).wf(),
        ensures
            final(self).wf(),
            if old(self).state == RoundState::Results && 1 <= value <= 0xFFFF_FFFF {
                *final(self) == (Session {
                    config: SessionConfig { time_seconds: value, ..old(self).config },
                    ..*old(self)
                })
            } else {
                *final(self) == *old(self)
            },
    {
        if matches!(self.state, RoundState::Results) && 1 <= value && value <= 0xFFFF_FFFF {
            self.config.time_seconds = value;
        }
    }
}

/// Capacity enforcement at the session level: a click never pushes either
/// stone count of the solution grid over its configured cap — whatever
/// cell and color are clicked, a well-formed mid-round session stays
/// within `n_black` black and `n_white` white stones.
pub proof fn lemma_session_capacity(s: Session)
    requires
        s.wf(),
        s.state != RoundState::Results,
    ensures
        count_grid(s.solution@, 1i8) <= s.config.n_black,
        count_grid(s.solution@, (-1i8)) <= s.config.n_white,
{
}

} // verus!
