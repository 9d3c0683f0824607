use seton::cell::Cell;
use seton::generate::generate;
use seton::grid::Grid;

#[test]
fn empty_grid_reads_empty() {
    let g = Grid::new(4);
    assert_eq!(g.size(), 4);
    for i in 0..4 {
        for j in 0..4 {
            assert_eq!(g.get(i, j), Cell::Empty);
        }
    }
    assert_eq!(g.count(Cell::Empty), 16);
    assert_eq!(g.count(Cell::Black), 0);
    assert_eq!(g.count(Cell::White), 0);
}

#[test]
fn set_then_get_roundtrip() {
    let mut g = Grid::new(3);
    g.set(0, 2, Cell::Black);
    g.set(2, 1, Cell::White);
    assert_eq!(g.get(0, 2), Cell::Black);
    assert_eq!(g.get(2, 1), Cell::White);
    assert_eq!(g.get(1, 1), Cell::Empty);
    assert_eq!(g.count(Cell::Black), 1);
    assert_eq!(g.count(Cell::White), 1);
    assert_eq!(g.count(Cell::Empty), 7);
    g.set(0, 2, Cell::Empty);
    assert_eq!(g.get(0, 2), Cell::Empty);
    assert_eq!(g.count(Cell::Black), 0);
}

#[test]
fn cell_values_encode_sign() {
    assert_eq!(Cell::Empty.value(), 0);
    assert_eq!(Cell::Black.value(), 1);
    assert_eq!(Cell::White.value(), -1);
    assert_eq!(Cell::from_value(1), Cell::Black);
    assert_eq!(Cell::from_value(-1), Cell::White);
    assert_eq!(Cell::from_value(0), Cell::Empty);
    assert_eq!(Cell::Black.opposite(), Cell::White);
    assert_eq!(Cell::White.opposite(), Cell::Black);
}

#[test]
fn generate_places_exact_counts() {
    let g = generate(4, 3, 2);
    assert_eq!(g.size(), 4);
    assert_eq!(g.count(Cell::Black), 3);
    assert_eq!(g.count(Cell::White), 2);
    assert_eq!(g.count(Cell::Empty), 11);
}

#[test]
fn generate_clamps_oversupply_jointly() {
    // Nine cells cannot hold thirteen stones: the seven black ones all fit,
    // white absorbs the shortfall.
    let g = generate(3, 7, 6);
    assert_eq!(g.count(Cell::Black), 7);
    assert_eq!(g.count(Cell::Black) + g.count(Cell::White), 9);
    assert_eq!(g.count(Cell::Empty), 0);
}

#[test]
fn generate_caps_black_alone() {
    let g = generate(2, 10, 0);
    assert_eq!(g.count(Cell::Black), 4);
    assert_eq!(g.count(Cell::White), 0);
}

#[test]
fn generate_full_board_leaves_nothing_empty() {
    let g = generate(5, 12, 13);
    assert_eq!(g.count(Cell::Black), 12);
    assert_eq!(g.count(Cell::White), 13);
    for i in 0..5 {
        for j in 0..5 {
            assert_ne!(g.get(i, j), Cell::Empty);
        }
    }
}

#[test]
fn generate_single_cell_board() {
    let g = generate(1, 1, 0);
    assert_eq!(g.count(Cell::Black), 1);
    assert_eq!(g.get(0, 0), Cell::Black);
}

#[test]
fn generate_without_stones_is_empty() {
    let g = generate(3, 0, 0);
    assert_eq!(g.count(Cell::Empty), 9);
}
