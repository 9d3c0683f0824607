use vstd::prelude::*;
use crate::cell::valid_value;
use crate::grid::{Grid, count_row, count_grid, grid_view_wf};

verus! {

// Scoring compares the truth grid and the player's solution cell by cell
// through the signed product of their encodings (`0` empty, `+1` black,
// `-1` white): a positive product is a stone reproduced in place with the
// right color, a negative product a stone reproduced in place with the
// wrong color.

/// How many positions of a row carry the same color in both rows: the
/// entries whose product is positive.
pub open spec fn count_pos_row(t: Seq<i8>, s: Seq<i8>) -> int
    decreases t.len(),
{
    if t.len() == 0 || s.len() == 0 {
        0
    } else {
        count_pos_row(t.drop_last(), s.drop_last()) + if t.last() * s.last() > 0 {
            1int
        } else {
            0int
        }
    }
}

/// How many positions of a row carry opposite colors: the entries whose
/// product is negative.
pub open spec fn count_neg_row(t: Seq<i8>, s: Seq<i8>) -> int
    decreases t.len(),
{
    if t.len() == 0 || s.len() == 0 {
        0
    } else {
        count_neg_row(t.drop_last(), s.drop_last()) + if t.last() * s.last() < 0 {
            1int
        } else {
            0int
        }
    }
}

/// How many entries of a row are occupied at all.
pub open spec fn count_nonzero_row(t: Seq<i8>) -> int
    decreases t.len(),
{
    if t.len() == 0 {
        0
    } else {
        count_nonzero_row(t.drop_last()) + if t.last() != 0 {
            1int
        } else {
            0int
        }
    }
}

/// How many cells of the whole grids agree on an occupied cell.
pub open spec fn count_pos_grid(t: Seq<Seq<i8>>, s: Seq<Seq<i8>>) -> int
    decreases t.len(),
{
    if t.len() == 0 || s.len() == 0 {
        0
    } else {
        count_pos_grid(t.drop_last(), s.drop_last()) + count_pos_row(t.last(), s.last())
    }
}

/// How many cells of the whole grids hold opposite colors.
pub open spec fn count_neg_grid(t: Seq<Seq<i8>>, s: Seq<Seq<i8>>) -> int
    decreases t.len(),
{
    if t.len() == 0 || s.len() == 0 {
        0
    } else {
        count_neg_grid(t.drop_last(), s.drop_last()) + count_neg_row(t.last(), s.last())
    }
}

/// How many cells of a grid are occupied at all.
pub open spec fn count_nonzero_grid(g: Seq<Seq<i8>>) -> int
    decreases g.len(),
{
    if g.len() == 0 {
        0
    } else {
        count_nonzero_grid(g.drop_last()) + count_nonzero_row(g.last())
    }
}

/// How many stones a grid holds: its black cells plus its white cells.
pub open spec fn stones(g: Seq<Seq<i8>>) -> int {
    count_grid(g, 1i8) + count_grid(g, (-1i8))
}

/// Every entry of a row encodes a cell.
pub open spec fn row_values_valid(t: Seq<i8>) -> bool {
    forall|j: int| 0 <= j < t.len() ==> valid_value(#[trigger] t[j])
}

/// Every entry of a grid encodes a cell.
pub open spec fn grid_values_valid(g: Seq<Seq<i8>>) -> bool {
    forall|i: int| 0 <= i < g.len() ==> row_values_valid(#[trigger] g[i])
}

/// The two grids have the same shape, row by row.
pub open spec fn same_shape(t: Seq<Seq<i8>>, s: Seq<Seq<i8>>) -> bool {
    &&& t.len() == s.len()
    &&& forall|i: int| 0 <= i < t.len() ==> t[i].len() == (#[trigger] s[i]).len()
}

pub proof fn lemma_wf_values_valid(g: Seq<Seq<i8>>)
    requires
        grid_view_wf(g),
    ensures
        grid_values_valid(g),
{
}

pub proof fn lemma_count_pos_row_take_step(t: Seq<i8>, s: Seq<i8>, j: int)
    requires
        0 <= j < t.len(),
        j < s.len(),
    ensures
        count_pos_row(t.take(j + 1), s.take(j + 1)) == count_pos_row(t.take(j), s.take(j)) + if t[j]
            * s[j] > 0 {
            1int
        } else {
            0int
        },
        count_neg_row(t.take(j + 1), s.take(j + 1)) == count_neg_row(t.take(j), s.take(j)) + if t[j]
            * s[j] < 0 {
            1int
        } else {
            0int
        },
{
    assert(t.take(j + 1).drop_last() =~= t.take(j));
    assert(s.take(j + 1).drop_last() =~= s.take(j));
    assert(t.take(j + 1).last() == t[j]);
    assert(s.take(j + 1).last() == s[j]);
}

pub proof fn lemma_count_pos_grid_take_step(t: Seq<Seq<i8>>, s: Seq<Seq<i8>>, i: int)
    requires
        0 <= i < t.len(),
        i < s.len(),
    ensures
        count_pos_grid(t.take(i + 1), s.take(i + 1)) == count_pos_grid(t.take(i), s.take(i))
            + count_pos_row(t[i], s[i]),
        count_neg_grid(t.take(i + 1), s.take(i + 1)) == count_neg_grid(t.take(i), s.take(i))
            + count_neg_row(t[i], s[i]),
{
    assert(t.take(i + 1).drop_last() =~= t.take(i));
    assert(s.take(i + 1).drop_last() =~= s.take(i));
    assert(t.take(i + 1).last() == t[i]);
    assert(s.take(i + 1).last() == s[i]);
}

/// In one row, right-color and wrong-color matches are disjoint and each
/// sits on an occupied truth cell.
pub proof fn lemma_pos_neg_le_nonzero_row(t: Seq<i8>, s: Seq<i8>)
    requires
        t.len() == s.len(),
    ensures
        0 <= count_pos_row(t, s),
        0 <= count_neg_row(t, s),
        count_pos_row(t, s) + count_neg_row(t, s) <= count_nonzero_row(t),
    decreases t.len(),
{
    if t.len() > 0 {
        lemma_pos_neg_le_nonzero_row(t.drop_last(), s.drop_last());
        assert(t.last() * s.last() > 0 ==> t.last() != 0) by (nonlinear_arith);
        assert(t.last() * s.last() < 0 ==> t.last() != 0) by (nonlinear_arith);
    }
}

/// Over whole grids, right-color and wrong-color matches together never
/// outnumber the truth's stones.
pub proof fn lemma_pos_neg_le_nonzero_grid(t: Seq<Seq<i8>>, s: Seq<Seq<i8>>)
    requires
        same_shape(t, s),
    ensures
        0 <= count_pos_grid(t, s),
        0 <= count_neg_grid(t, s),
        count_pos_grid(t, s) + count_neg_grid(t, s) <= count_nonzero_grid(t),
    decreases t.len(),
{
    if t.len() > 0 {
        lemma_pos_neg_le_nonzero_grid(t.drop_last(), s.drop_last());
        lemma_pos_neg_le_nonzero_row(t.last(), s.last());
    }
}

/// For a row of well-formed cell encodings, the occupied entries are the
/// black ones and the white ones.
pub proof fn lemma_nonzero_eq_counts_row(t: Seq<i8>)
    requires
        row_values_valid(t),
    ensures
        count_nonzero_row(t) == count_row(t, 1i8) + count_row(t, (-1i8)),
    decreases t.len(),
{
    if t.len() > 0 {
        assert(row_values_valid(t.drop_last()));
        lemma_nonzero_eq_counts_row(t.drop_last());
    }
}

/// For a grid of well-formed cell encodings, the occupied cells are the
/// black ones and the white ones.
pub proof fn lemma_nonzero_eq_counts_grid(g: Seq<Seq<i8>>)
    requires
        grid_values_valid(g),
    ensures
        count_nonzero_grid(g) == stones(g),
    decreases g.len(),
{
    if g.len() > 0 {
        assert(grid_values_valid(g.drop_last()));
        lemma_nonzero_eq_counts_grid(g.drop_last());
        lemma_nonzero_eq_counts_row(g.last());
    }
}

/// A solution identical to the truth reproduces every stone with the right
/// color and none with the wrong one.
pub proof fn lemma_score_identical_row(t: Seq<i8>)
    ensures
        count_pos_row(t, t) == count_nonzero_row(t),
        count_neg_row(t, t) == 0,
    decreases t.len(),
{
    if t.len() > 0 {
        lemma_score_identical_row(t.drop_last());
        assert(t.last() * t.last() > 0 <==> t.last() != 0) by (nonlinear_arith);
        assert(!(t.last() * t.last() < 0)) by (nonlinear_arith);
    }
}

/// A solution identical to the truth scores every stone as correct:
/// right-color matches are exactly the truth's occupied cells and there
/// are no wrong-color matches.
pub proof fn lemma_score_identical_grid(g: Seq<Seq<i8>>)
    ensures
        count_pos_grid(g, g) == count_nonzero_grid(g),
        count_neg_grid(g, g) == 0,
    decreases g.len(),
{
    if g.len() > 0 {
        lemma_score_identical_grid(g.drop_last());
        lemma_score_identical_row(g.last());
    }
}

pub proof fn lemma_score_empty_row(t: Seq<i8>, s: Seq<i8>)
    requires
        forall|j: int| 0 <= j < s.len() ==> s[j] == 0,
    ensures
        count_pos_row(t, s) == 0,
        count_neg_row(t, s) == 0,
    decreases t.len(),
{
    if t.len() > 0 && s.len() > 0 {
        assert(forall|j: int| 0 <= j < s.drop_last().len() ==> s.drop_last()[j] == 0);
        lemma_score_empty_row(t.drop_last(), s.drop_last());
        assert(s.last() == 0);
        assert(t.last() * 0 == 0) by (nonlinear_arith);
    }
}

/// An all-empty solution reproduces nothing: no right-color and no
/// wrong-color matches, so every stone of the truth counts as missing.
pub proof fn lemma_score_empty_grid(t: Seq<Seq<i8>>, s: Seq<Seq<i8>>)
    requires
        forall|i: int, j: int| 0 <= i < s.len() && 0 <= j < s[i].len() ==> #[trigger] s[i][j] == 0,
    ensures
        count_pos_grid(t, s) == 0,
        count_neg_grid(t, s) == 0,
    decreases t.len(),
{
    if t.len() > 0 && s.len() > 0 {
        assert(forall|i: int, j: int|
            0 <= i < s.drop_last().len() && 0 <= j < s.drop_last()[i].len()
                ==> #[trigger] s.drop_last()[i][j] == 0);
        lemma_score_empty_grid(t.drop_last(), s.drop_last());
        lemma_score_empty_row(t.last(), s.last());
    }
}

/// The encoding with every stone's color swapped; empty cells stay empty.
pub open spec fn flip_value(v: i8) -> i8 {
    if v == 1 {
        (-1i8)
    } else if v == -1 {
        1i8
    } else {
        v
    }
}

/// A row with every stone's color swapped.
pub open spec fn flip_row(s: Seq<i8>) -> Seq<i8> {
    s.map_values(|v: i8| flip_value(v))
}

/// A grid with every stone's color swapped.
pub open spec fn flip_grid(s: Seq<Seq<i8>>) -> Seq<Seq<i8>> {
    s.map_values(|r: Seq<i8>| flip_row(r))
}

pub proof fn lemma_score_flip_row(t: Seq<i8>, s: Seq<i8>)
    requires
        row_values_valid(s),
    ensures
        count_pos_row(t, flip_row(s)) == count_neg_row(t, s),
        count_neg_row(t, flip_row(s)) == count_pos_row(t, s),
    decreases t.len(),
{
    if t.len() > 0 && s.len() > 0 {
        assert(flip_row(s).drop_last() =~= flip_row(s.drop_last()));
        assert(row_values_valid(s.drop_last()));
        lemma_score_flip_row(t.drop_last(), s.drop_last());
        assert(flip_row(s).last() == flip_value(s.last()));
        assert(valid_value(s.last()));
        assert(t.last() * flip_value(s.last()) > 0 <==> t.last() * s.last() < 0)
            by (nonlinear_arith)
            requires
                valid_value(s.last()),
        ;
        assert(t.last() * flip_value(s.last()) < 0 <==> t.last() * s.last() > 0)
            by (nonlinear_arith)
            requires
                valid_value(s.last()),
        ;
    }
}

/// Swapping every stone's color in the solution swaps the two match
/// counts: the right-color matches become exactly the cells that were
/// wrong-color matches, and the other way round.
pub proof fn lemma_score_flip_grid(t: Seq<Seq<i8>>, s: Seq<Seq<i8>>)
    requires
        grid_values_valid(s),
    ensures
        count_pos_grid(t, flip_grid(s)) == count_neg_grid(t, s),
        count_neg_grid(t, flip_grid(s)) == count_pos_grid(t, s),
    decreases t.len(),
{
    if t.len() > 0 && s.len() > 0 {
        assert(flip_grid(s).drop_last() =~= flip_grid(s.drop_last()));
        assert(grid_values_valid(s.drop_last()));
        lemma_score_flip_grid(t.drop_last(), s.drop_last());
        assert(flip_grid(s).last() == flip_row(s.last()));
        lemma_score_flip_row(t.last(), s.last());
    }
}

/// A solution that is the truth with every stone's color swapped scores no
/// stone as correct and every stone of the truth as wrong-colored.
pub proof fn lemma_score_swapped_truth(g: Seq<Seq<i8>>)
    requires
        grid_values_valid(g),
    ensures
        count_pos_grid(g, flip_grid(g)) == 0,
        count_neg_grid(g, flip_grid(g)) == count_nonzero_grid(g),
{
    lemma_score_flip_grid(g, g);
    lemma_score_identical_grid(g);
}

pub proof fn lemma_count_nonzero_row_bounds(t: Seq<i8>)
    ensures
        0 <= count_nonzero_row(t) <= t.len(),
    decreases t.len(),
{
    if t.len() > 0 {
        lemma_count_nonzero_row_bounds(t.drop_last());
    }
}

/// A row whose occupied count is its length has no empty entry.
pub proof fn lemma_full_row(t: Seq<i8>)
    requires
        count_nonzero_row(t) == t.len(),
    ensures
        forall|j: int| 0 <= j < t.len() ==> t[j] != 0,
    decreases t.len(),
{
    if t.len() > 0 {
        lemma_count_nonzero_row_bounds(t.drop_last());
        lemma_full_row(t.drop_last());
        assert(forall|j: int| 0 <= j < t.len() - 1 ==> t[j] == t.drop_last()[j]);
    }
}

pub proof fn lemma_count_nonzero_grid_bounds(g: Seq<Seq<i8>>, n: int)
    requires
        0 <= n,
        forall|i: int| 0 <= i < g.len() ==> (#[trigger] g[i]).len() == n,
    ensures
        0 <= count_nonzero_grid(g) <= g.len() * n,
    decreases g.len(),
{
    if g.len() > 0 {
        lemma_count_nonzero_grid_bounds(g.drop_last(), n);
        lemma_count_nonzero_row_bounds(g.last());
        assert((g.len() - 1) * n == g.len() * n - n) by (nonlinear_arith);
    }
}

proof fn lemma_full_grid_rec(g: Seq<Seq<i8>>, n: int)
    requires
        0 <= n,
        forall|i: int| 0 <= i < g.len() ==> (#[trigger] g[i]).len() == n,
        count_nonzero_grid(g) == g.len() * n,
    ensures
        forall|i: int, j: int| 0 <= i < g.len() && 0 <= j < n ==> #[trigger] g[i][j] != 0,
    decreases g.len(),
{
    if g.len() > 0 {
        lemma_count_nonzero_grid_bounds(g.drop_last(), n);
        lemma_count_nonzero_row_bounds(g.last());
        assert((g.len() - 1) * n == g.len() * n - n) by (nonlinear_arith);
        lemma_full_grid_rec(g.drop_last(), n);
        assert(g[g.len() - 1].len() == n);
        assert(count_nonzero_row(g.last()) == n);
        lemma_full_row(g.last());
        assert forall|i: int, j: int|
            0 <= i < g.len() && 0 <= j < n implies #[trigger] g[i][j] != 0 by {
            if i == g.len() - 1 {
                assert(g[i] == g.last());
                assert(g.last()[j] != 0);
            } else {
                assert(g.drop_last()[i][j] != 0);
                assert(g[i][j] == g.drop_last()[i][j]);
            }
        }
    }
}

/// Pigeonhole on the generated counts: a well-formed board holding as many
/// stones as it has cells — as generation leaves it whenever the requested
/// stones meet or exceed the board's capacity — has no empty cell at all.
pub proof fn lemma_oversupplied_board_is_full(g: Seq<Seq<i8>>)
    requires
        grid_view_wf(g),
        stones(g) == g.len() * g.len(),
    ensures
        forall|i: int, j: int| 0 <= i < g.len() && 0 <= j < g.len() ==> #[trigger] g[i][j] != 0,
{
    lemma_wf_values_valid(g);
    lemma_nonzero_eq_counts_grid(g);
    lemma_full_grid_rec(g, g.len() as int);
}

/// Round trip: when every requested stone fits on the board, a solution
/// identical to the truth scores all `n_black + n_white` stones as correct
/// and none as wrong-colored, so nothing is missing and the normalized
/// score is a full one.
pub proof fn lemma_score_round_trip(t: Seq<Seq<i8>>, n_black: int, n_white: int)
    requires
        grid_values_valid(t),
        stones(t) == n_black + n_white,
    ensures
        count_pos_grid(t, t) == n_black + n_white,
        count_neg_grid(t, t) == 0,
        n_black + n_white - count_pos_grid(t, t) - count_neg_grid(t, t) == 0,
{
    lemma_score_identical_grid(t);
    lemma_nonzero_eq_counts_grid(t);
}

/// The outcome of one round: `correct` stones reproduced in place with the
/// right color, `wrong_color` reproduced in place with the wrong color,
/// `wrong_position` stones missing or misplaced, out of `total` stones
/// asked for. The normalized score gives full credit for a correct stone
/// and half credit for a wrong-colored one: `(2 * correct + wrong_color)`
/// out of `(2 * total)`, as `percentage_ratio` returns it.
#[derive(Clone, Copy, Debug, PartialEq, Eq, Structural)]
pub struct Score {
    pub correct: usize,
    pub wrong_color: usize,
    pub wrong_position: usize,
    pub total: usize,
}

impl Score {
    /// The three parts account for every stone asked for.
    pub open spec fn consistent(&self) -> bool {
        self.correct + self.wrong_color + self.wrong_position == self.total
    }

    /// The normalized score as an exact fraction: numerator and
    /// denominator, in half-credit units. A perfect round returns
    /// `(2 * total, 2 * total)`, a fraction of one.
    pub fn percentage_ratio(&self) -> (r: (usize, usize))
        requires
            self.consistent(),
            self.total <= 0x4000_0000,
        ensures
            r.0 == 2 * self.correct + self.wrong_color,
            r.1 == 2 * self.total,
    {
        (2 * self.correct + self.wrong_color, 2 * self.total)
    }
}

/// Compare the truth against the player's solution and count, over every
/// cell, the stones reproduced with the right color and those reproduced
/// with the wrong color; the rest of the `n_black + n_white` stones asked
/// for count as missing or misplaced.
pub fn evaluate(truth: &Grid, solution: &Grid, n_black: usize, n_white: usize) -> (sc: Score)
    requires
        truth.wf(),
        solution.wf(),
        truth@.len() == solution@.len(),
        n_black + n_white <= usize::MAX,
        stones(truth@) <= n_black + n_white,
    ensures
        sc.correct == count_pos_grid(truth@, solution@),
        sc.wrong_color == count_neg_grid(truth@, solution@),
        sc.total == n_black + n_white,
        sc.wrong_position == sc.total - sc.correct - sc.wrong_color,
        sc.consistent(),
{
    let size = truth.size();
    let mut correct: usize = 0;
    let mut wrong_color: usize = 0;
    proof {
        assert(truth@.take(0) =~= Seq::<Seq<i8>>::empty());
        assert(solution@.take(0) =~= Seq::<Seq<i8>>::empty());
    }
    for i in 0..size
        invariant
            truth.wf(),
            solution.wf(),
            truth@.len() == size,
            solution@.len() == size,
            size <= 46340,
            correct == count_pos_grid(truth@.take(i as int), solution@.take(i as int)),
            wrong_color == count_neg_grid(truth@.take(i as int), solution@.take(i as int)),
            correct + wrong_color <= i * size,
    {
        proof {
            assert(truth@[i as int].take(0) =~= Seq::<i8>::empty());
            assert(solution@[i as int].take(0) =~= Seq::<i8>::empty());
        }
        let mut row_pos: usize = 0;
        let mut row_neg: usize = 0;
        for j in 0..size
            invariant
                truth.wf(),
                solution.wf(),
                truth@.len() == size,
                solution@.len() == size,
                size <= 46340,
                i < size,
                row_pos == count_pos_row(
                    truth@[i as int].take(j as int),
                    solution@[i as int].take(j as int),
                ),
                row_neg == count_neg_row(
                    truth@[i as int].take(j as int),
                    solution@[i as int].take(j as int),
                ),
                row_pos + row_neg <= j,
        {
            let tv = truth.get(i, j).value();
            let sv = solution.get(i, j).value();
            proof {
                lemma_count_pos_row_take_step(truth@[i as int], solution@[i as int], j as int);
                assert(valid_value(truth@[i as int][j as int]) && valid_value(
                    solution@[i as int][j as int],
                ));
                assert(tv == truth@[i as int][j as int] && sv == solution@[i as int][j as int]);
                assert((tv * sv > 0 <==> (tv == sv && tv != 0)) && (tv * sv < 0 <==> (tv != 0 && sv
                    != 0 && tv != sv))) by (nonlinear_arith)
                    requires
                        valid_value(tv),
                        valid_value(sv),
                ;
            }
            if tv == sv && tv != 0 {
                row_pos = row_pos + 1;
            } else if tv != 0 && sv != 0 {
                row_neg = row_neg + 1;
            }
        }
        proof {
            assert(truth@[i as int].take(size as int) =~= truth@[i as int]);
            assert(solution@[i as int].take(size as int) =~= solution@[i as int]);
            lemma_count_pos_grid_take_step(truth@, solution@, i as int);
            assert((i + 1) * size == i * size + size) by (nonlinear_arith);
            assert(i * size <= 46340 * 46340) by (nonlinear_arith)
                requires
                    0 <= i < size <= 46340,
            ;
        }
        correct = correct + row_pos;
        wrong_color = wrong_color + row_neg;
    }
    proof {
        assert(truth@.take(size as int) =~= truth@);
        assert(solution@.take(size as int) =~= solution@);
        lemma_pos_neg_le_nonzero_grid(truth@, solution@);
        lemma_wf_values_valid(truth@);
        lemma_nonzero_eq_counts_grid(truth@);
    }
    let total = n_black + n_white;
    Score { correct, wrong_color, wrong_position: total - correct - wrong_color, total }
}

} // verus!
