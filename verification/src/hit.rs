use vstd::prelude::*;
use vstd::arithmetic::div_mod::{lemma_multiply_divide_lt, lemma_fundamental_div_mod_converse};

verus! {

// Cursor-to-cell mapping. Positions are whole screen pixels: the cursor,
// the screen center and the board origin are pixel coordinates, the board's
// edge-to-edge side length a pixel count. The fractional column of the
// spot `d` pixels right of the board center is `n * (1/2 + d / side)`,
// which floors to `(n * (side + 2 d)) div (2 side)`; the row is computed
// the same way on the vertical axis and then flipped, so that row `0` is
// the bottom row of the screen layout while pixel rows grow downwards.

/// The cell coordinate of a spot `d` pixels from the board center along one
/// axis: the floor of `n * (1/2 + d / side)`.
pub open spec fn spec_cell_coord(d: int, side: int, n: int) -> int {
    (n * (side + 2 * d)) / (2 * side)
}

/// Whether a spot `d` pixels from the board center along one axis falls
/// within the board: its fractional coordinate lies in `[0, n)`, which for
/// positive `side` amounts to `-side <= 2 d < side`.
pub open spec fn spec_on_axis(d: int, side: int) -> bool {
    -side <= 2 * d < side
}

/// Where a cursor offset `(dx, dy)` from the board center lands: `None`
/// off the board, otherwise the column from the horizontal axis and the
/// flipped row from the vertical one.
pub open spec fn spec_hit(dx: int, dy: int, side: int, n: int) -> Option<(int, int)> {
    if spec_on_axis(dx, side) && spec_on_axis(dy, side) {
        Some((spec_cell_coord(dx, side, n), n - 1 - spec_cell_coord(dy, side, n)))
    } else {
        None
    }
}

/// Where a cursor at `(cursor_x, cursor_y)` lands on a board whose center
/// sits `(origin_x, origin_y)` from the screen center `(center_x, center_y)`.
pub open spec fn spec_map_cursor(
    cursor_x: int,
    cursor_y: int,
    center_x: int,
    center_y: int,
    origin_x: int,
    origin_y: int,
    side: int,
    n: int,
) -> Option<(int, int)> {
    spec_hit(cursor_x - center_x - origin_x, cursor_y - center_y - origin_y, side, n)
}

proof fn lemma_coord_in_range(d: int, side: int, n: int)
    requires
        1 <= side,
        1 <= n,
        spec_on_axis(d, side),
    ensures
        0 <= spec_cell_coord(d, side, n) < n,
{
    assert(0 <= n * (side + 2 * d) && n * (side + 2 * d) < (2 * side) * n) by (nonlinear_arith)
        requires
            1 <= side,
            1 <= n,
            -side <= 2 * d < side,
    ;
    lemma_multiply_divide_lt(n * (side + 2 * d), 2 * side, n);
}

/// The cell under the cursor, or `None` when the cursor is off the board.
///
/// `(cursor_x, cursor_y)` is the pointer position, `(center_x, center_y)`
/// the screen center and `(origin_x, origin_y)` the board center relative
/// to it, all in pixels; `side` is the board's edge-to-edge pixel length
/// and `board_size` the number of cells along each edge. The returned pair
/// is `(column, row)`, the row flipped as the screen layout draws it.
pub fn map_cursor(
    cursor_x: i64,
    cursor_y: i64,
    center_x: i64,
    center_y: i64,
    origin_x: i64,
    origin_y: i64,
    side: i64,
    board_size: usize,
) -> (r: Option<(usize, usize)>)
    requires
        1 <= side <= 0x4000_0000,
        -0x4000_0000 <= cursor_x <= 0x4000_0000,
        -0x4000_0000 <= cursor_y <= 0x4000_0000,
        -0x4000_0000 <= center_x <= 0x4000_0000,
        -0x4000_0000 <= center_y <= 0x4000_0000,
        -0x4000_0000 <= origin_x <= 0x4000_0000,
        -0x4000_0000 <= origin_y <= 0x4000_0000,
        1 <= board_size <= 46340,
    ensures
        ({
            let hit = spec_map_cursor(
                cursor_x as int,
                cursor_y as int,
                center_x as int,
                center_y as int,
                origin_x as int,
                origin_y as int,
                side as int,
                board_size as int,
            );
            match r {
                Some(cell) => hit == Some((cell.0 as int, cell.1 as int)) && cell.0 < board_size
                    && cell.1 < board_size,
                None => hit is None,
            }
        }),
{
    let dx = cursor_x - center_x - origin_x;
    let dy = cursor_y - center_y - origin_y;
    let two_side = 2 * side;
    if 2 * dx >= -side && 2 * dx < side && 2 * dy >= -side && 2 * dy < side {
        let n = board_size as i64;
        proof {
            assert(0 <= n * (side + 2 * dx) && n * (side + 2 * dx) <= 46340 * (2
                * 0x4000_0000int) && 0 <= n * (side + 2 * dy) && n * (side + 2 * dy) <= 46340 * (
            2 * 0x4000_0000int)) by (nonlinear_arith)
                requires
                    1 <= side <= 0x4000_0000,
                    1 <= n <= 46340,
                    -side <= 2 * dx < side,
                    -side <= 2 * dy < side,
            ;
            lemma_coord_in_range(dx as int, side as int, n as int);
            lemma_coord_in_range(dy as int, side as int, n as int);
        }
        let num_x = n * (side + 2 * dx);
        let num_y = n * (side + 2 * dy);
        let col = (num_x as u64) / (two_side as u64);
        let raw_row = (num_y as u64) / (two_side as u64);
        let row = board_size - 1 - (raw_row as usize);
        Some((col as usize, row))
    } else {
        None
    }
}

/// A cursor exactly at the board center lands on the middle cell of an
/// odd-sized board, in both coordinates.
pub proof fn lemma_center_hits_middle(side: int, n: int)
    requires
        1 <= side,
        1 <= n,
        n % 2 == 1,
    ensures
        spec_hit(0, 0, side, n) == Some(((n - 1) / 2, (n - 1) / 2)),
{
    let q = (n - 1) / 2;
    assert(n == 2 * q + 1);
    assert(n * side == q * (2 * side) + side) by (nonlinear_arith)
        requires
            n == 2 * q + 1,
    ;
    lemma_fundamental_div_mod_converse(n * side, 2 * side, q, side);
    assert(spec_cell_coord(0, side, n) == q);
}

/// A cursor strictly outside the board's square on either axis — more than
/// half the side length from its center — hits no cell.
pub proof fn lemma_outside_misses(dx: int, dy: int, side: int, n: int)
    requires
        2 * dx < -side || 2 * dx > side || 2 * dy < -side || 2 * dy > side,
    ensures
        spec_hit(dx, dy, side, n) is None,
{
}

} // verus!
