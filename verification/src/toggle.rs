use vstd::prelude::*;
use crate::cell::{Cell, spec_opposite};

verus! {

/// The placement rule applied when the player clicks a cell asking for
/// `requested` (black for the primary button, white for the secondary one):
///
/// - an empty cell takes the requested color, unless that color's capacity
///   is already used up, in which case it falls back to the opposite color,
///   unless that capacity is also used up, in which case it stays empty;
/// - a cell already holding the requested color is cleared;
/// - a cell holding the opposite color is cleared as well (a click on a
///   foreign stone removes it, it does not repaint it);
/// - asking for no color changes nothing.
pub open spec fn spec_toggle(
    cur: Cell,
    requested: Cell,
    black_placed: int,
    white_placed: int,
    black_cap: int,
    white_cap: int,
) -> Cell {
    if requested == Cell::Empty {
        cur
    } else if cur != Cell::Empty {
        Cell::Empty
    } else {
        let requested_free = if requested == Cell::Black {
            black_placed < black_cap
        } else {
            white_placed < white_cap
        };
        let opposite_free = if requested == Cell::Black {
            white_placed < white_cap
        } else {
            black_placed < black_cap
        };
        if requested_free {
            requested
        } else if opposite_free {
            spec_opposite(requested)
        } else {
            Cell::Empty
        }
    }
}

/// The new value of a clicked cell. `cur` is what the cell holds now,
/// `black_placed` and `white_placed` are the stone counts of the current
/// solution grid, and the caps are the session's configured counts.
pub fn toggle(
    cur: Cell,
    requested: Cell,
    black_placed: usize,
    white_placed: usize,
    black_cap: usize,
    white_cap: usize,
) -> (new: Cell)
    ensures
        new == spec_toggle(
            cur,
            requested,
            black_placed as int,
            white_placed as int,
            black_cap as int,
            white_cap as int,
        ),
{
    if matches!(requested, Cell::Empty) {
        cur
    } else if !matches!(cur, Cell::Empty) {
        Cell::Empty
    } else {
        let requested_free = if matches!(requested, Cell::Black) {
            black_placed < black_cap
        } else {
            white_placed < white_cap
        };
        let opposite_free = if matches!(requested, Cell::Black) {
            white_placed < white_cap
        } else {
            black_placed < black_cap
        };
        if requested_free {
            requested
        } else if opposite_free {
            requested.opposite()
        } else {
            Cell::Empty
        }
    }
}

/// Clicking the same color on an empty cell twice brings the cell back to
/// empty: a click on any occupied cell clears it, and a first click that
/// placed nothing (both capacities used up) leaves the counts as they were,
/// so the second click places nothing either.
pub proof fn lemma_toggle_twice_empty(
    requested: Cell,
    black_placed1: int,
    white_placed1: int,
    black_placed2: int,
    white_placed2: int,
    black_cap: int,
    white_cap: int,
)
    requires
        requested != Cell::Empty,
        spec_toggle(Cell::Empty, requested, black_placed1, white_placed1, black_cap, white_cap)
            != Cell::Empty || (black_placed2 == black_placed1 && white_placed2 == white_placed1),
    ensures
        spec_toggle(
            spec_toggle(
                Cell::Empty,
                requested,
                black_placed1,
                white_placed1,
                black_cap,
                white_cap,
            ),
            requested,
            black_placed2,
            white_placed2,
            black_cap,
            white_cap,
        ) == Cell::Empty,
{
}

/// Capacity is enforced: once the black count has reached its cap, no click
/// produces another black stone, and likewise for white.
pub proof fn lemma_toggle_capacity(
    cur: Cell,
    requested: Cell,
    black_placed: int,
    white_placed: int,
    black_cap: int,
    white_cap: int,
)
    ensures
        black_placed >= black_cap && cur != Cell::Black ==> spec_toggle(
            cur,
            requested,
            black_placed,
            white_placed,
            black_cap,
            white_cap,
        ) != Cell::Black,
        white_placed >= white_cap && cur != Cell::White ==> spec_toggle(
            cur,
            requested,
            black_placed,
            white_placed,
            black_cap,
            white_cap,
        ) != Cell::White,
{
}

} // verus!
