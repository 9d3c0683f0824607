use seton::cell::Cell;
use seton::hit::map_cursor;
use seton::toggle::toggle;

#[test]
fn toggle_places_requested_color() {
    assert_eq!(toggle(Cell::Empty, Cell::Black, 0, 0, 5, 5), Cell::Black);
    assert_eq!(toggle(Cell::Empty, Cell::White, 0, 0, 5, 5), Cell::White);
}

#[test]
fn toggle_same_color_twice_returns_to_empty() {
    let first = toggle(Cell::Empty, Cell::Black, 2, 2, 5, 5);
    assert_eq!(first, Cell::Black);
    let second = toggle(first, Cell::Black, 3, 2, 5, 5);
    assert_eq!(second, Cell::Empty);
}

#[test]
fn toggle_removes_foreign_stone() {
    assert_eq!(toggle(Cell::White, Cell::Black, 0, 1, 5, 5), Cell::Empty);
    assert_eq!(toggle(Cell::Black, Cell::White, 1, 0, 5, 5), Cell::Empty);
}

#[test]
fn toggle_falls_back_when_capacity_reached() {
    // Black is used up: a black request on an empty cell yields white.
    assert_eq!(toggle(Cell::Empty, Cell::Black, 5, 0, 5, 5), Cell::White);
    // White is used up: a white request on an empty cell yields black.
    assert_eq!(toggle(Cell::Empty, Cell::White, 0, 5, 5, 5), Cell::Black);
}

#[test]
fn toggle_does_nothing_when_both_capacities_reached() {
    assert_eq!(toggle(Cell::Empty, Cell::Black, 5, 5, 5, 5), Cell::Empty);
    assert_eq!(toggle(Cell::Empty, Cell::White, 5, 5, 5, 5), Cell::Empty);
}

#[test]
fn toggle_without_color_changes_nothing() {
    assert_eq!(toggle(Cell::Black, Cell::Empty, 1, 0, 5, 5), Cell::Black);
    assert_eq!(toggle(Cell::Empty, Cell::Empty, 0, 0, 5, 5), Cell::Empty);
}

#[test]
fn cursor_at_board_center_hits_middle_cell() {
    let r = map_cursor(0, 0, 0, 0, 0, 0, 100, 5);
    assert_eq!(r, Some((2, 2)));
}

#[test]
fn cursor_outside_board_hits_nothing() {
    // More than half the side length to the right of the board center.
    assert_eq!(map_cursor(51, 0, 0, 0, 0, 0, 100, 5), None);
    // More than half the side length below it.
    assert_eq!(map_cursor(0, 51, 0, 0, 0, 0, 100, 5), None);
    assert_eq!(map_cursor(-51, 0, 0, 0, 0, 0, 100, 5), None);
    assert_eq!(map_cursor(0, -51, 0, 0, 0, 0, 100, 5), None);
}

#[test]
fn cursor_edges_follow_half_open_interval() {
    // The left edge belongs to the first column, the right edge to no cell.
    assert_eq!(map_cursor(-50, 0, 0, 0, 0, 0, 100, 5), Some((0, 2)));
    assert_eq!(map_cursor(50, 0, 0, 0, 0, 0, 100, 5), None);
}

#[test]
fn cursor_rows_are_flipped() {
    // A cursor above the board center (smaller pixel row) lands on a high
    // row index, one below it on a low row index.
    assert_eq!(map_cursor(0, -49, 0, 0, 0, 0, 100, 5), Some((2, 4)));
    assert_eq!(map_cursor(0, 49, 0, 0, 0, 0, 100, 5), Some((2, 0)));
}

#[test]
fn cursor_respects_screen_center_and_origin() {
    // Screen center at (400, 300), board shifted 60 right and 40 up of it:
    // the board center sits at (460, 260) in window pixels.
    assert_eq!(map_cursor(460, 260, 400, 300, 60, -40, 100, 5), Some((2, 2)));
    assert_eq!(map_cursor(419, 260, 400, 300, 60, -40, 100, 5), Some((0, 2)));
    assert_eq!(map_cursor(400, 300, 400, 300, 60, -40, 100, 5), None);
}
