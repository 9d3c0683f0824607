use seton::cell::Cell;
use seton::generate::generate;
use seton::grid::Grid;
use seton::score::evaluate;

fn copy_of(g: &Grid) -> Grid {
    let n = g.size();
    let mut c = Grid::new(n);
    for i in 0..n {
        for j in 0..n {
            c.set(i, j, g.get(i, j));
        }
    }
    c
}

fn swapped_of(g: &Grid) -> Grid {
    let n = g.size();
    let mut c = Grid::new(n);
    for i in 0..n {
        for j in 0..n {
            c.set(i, j, g.get(i, j).opposite());
        }
    }
    c
}

#[test]
fn identical_solution_scores_full() {
    let truth = generate(5, 5, 5);
    let solution = copy_of(&truth);
    let sc = evaluate(&truth, &solution, 5, 5);
    assert_eq!(sc.correct, 10);
    assert_eq!(sc.wrong_color, 0);
    assert_eq!(sc.wrong_position, 0);
    assert_eq!(sc.total, 10);
    let (num, den) = sc.percentage_ratio();
    assert_eq!((num, den), (20, 20));
    assert_eq!(num as f64 / den as f64, 1.0);
}

#[test]
fn empty_solution_scores_nothing() {
    let truth = generate(5, 5, 5);
    let solution = Grid::new(5);
    let sc = evaluate(&truth, &solution, 5, 5);
    assert_eq!(sc.correct, 0);
    assert_eq!(sc.wrong_color, 0);
    assert_eq!(sc.wrong_position, 10);
    let (num, den) = sc.percentage_ratio();
    assert_eq!((num, den), (0, 20));
    assert_eq!(num as f64 / den as f64, 0.0);
}

#[test]
fn swapped_solution_scores_half_everywhere() {
    let truth = generate(4, 3, 4);
    let solution = swapped_of(&truth);
    let sc = evaluate(&truth, &solution, 3, 4);
    assert_eq!(sc.correct, 0);
    assert_eq!(sc.wrong_color, 7);
    assert_eq!(sc.wrong_position, 0);
    let (num, den) = sc.percentage_ratio();
    assert_eq!((num, den), (7, 14));
    assert_eq!(num as f64 / den as f64, 0.5);
}

#[test]
fn mixed_solution_counts_each_kind() {
    // Truth: black at (0,0), white at (1,1), two stones requested.
    let mut truth = Grid::new(3);
    truth.set(0, 0, Cell::Black);
    truth.set(1, 1, Cell::White);
    // Solution: black in place at (0,0), black instead of white at (1,1).
    let mut solution = Grid::new(3);
    solution.set(0, 0, Cell::Black);
    solution.set(1, 1, Cell::Black);
    let sc = evaluate(&truth, &solution, 1, 1);
    assert_eq!(sc.correct, 1);
    assert_eq!(sc.wrong_color, 1);
    assert_eq!(sc.wrong_position, 0);
    let (num, den) = sc.percentage_ratio();
    assert_eq!((num, den), (3, 4));
}

#[test]
fn misplaced_stone_earns_nothing() {
    let mut truth = Grid::new(3);
    truth.set(0, 0, Cell::Black);
    let mut solution = Grid::new(3);
    solution.set(2, 2, Cell::Black);
    let sc = evaluate(&truth, &solution, 1, 0);
    assert_eq!(sc.correct, 0);
    assert_eq!(sc.wrong_color, 0);
    assert_eq!(sc.wrong_position, 1);
}

#[test]
fn extra_capacity_counts_as_missing() {
    // Three stones requested, only two fit the truth the player matched.
    let mut truth = Grid::new(2);
    truth.set(0, 0, Cell::Black);
    truth.set(1, 1, Cell::White);
    let solution = copy_of(&truth);
    let sc = evaluate(&truth, &solution, 2, 1);
    assert_eq!(sc.correct, 2);
    assert_eq!(sc.wrong_color, 0);
    assert_eq!(sc.wrong_position, 1);
    assert_eq!(sc.total, 3);
}
