use vstd::prelude::*;
use vstd::arithmetic::div_mod::{
    lemma_fundamental_div_mod,
    lemma_mod_bound,
    lemma_multiply_divide_lt,
};
use vstd::math::min;
use crate::cell::Cell;
use crate::grid::{
    Grid,
    count_grid,
    lemma_count_grid_absent,
    lemma_count_grid_update,
    lemma_count_row_update,
};

verus! {

/// Relies on `rand::seq::index::sample`: exactly `amount` distinct indices
/// drawn from `0..length`, in random order; panics when `amount > length`.
#[verifier::external_body]
fn sample_indices(length: usize, amount: usize) -> (r: Vec<usize>)
    requires
        amount <= length,
    ensures
        r@.len() == amount,
        forall|i: int| 0 <= i < r@.len() ==> #[trigger] r@[i] < length,
        forall|i: int, j: int| 0 <= i < j < r@.len() ==> r@[i] != r@[j],
{
    rand::seq::index::sample(&mut rand::rng(), length, amount).into_vec()
}

/// A fresh truth board: a uniformly random subset of the cells receives
/// stones, the first `n_black` of the randomly ordered subset black and the
/// rest white. The subset holds `n_black + n_white` cells, silently capped
/// at the board's capacity when more stones are asked for than fit; black
/// and white cells are disjoint by construction, every other cell is empty.
pub fn generate(board_size: usize, n_black: usize, n_white: usize) -> (g: Grid)
    requires
        1 <= board_size <= 46340,
        n_black + n_white <= usize::MAX,
    ensures
        g.wf(),
        g@.len() == board_size,
        count_grid(g@, 1i8) == min(n_black as int, (board_size * board_size) as int),
        count_grid(g@, 1i8) + count_grid(g@, (-1i8)) == min(
            (n_black + n_white) as int,
            (board_size * board_size) as int,
        ),
{
    proof {
        assert(board_size * board_size <= 46340 * 46340) by (nonlinear_arith)
            requires
                1 <= board_size <= 46340,
        ;
    }
    let cells = board_size * board_size;
    let total = n_black + n_white;
    let k = if total < cells {
        total
    } else {
        cells
    };
    let idxs = sample_indices(cells, k);
    let mut g = Grid::new(board_size);
    proof {
        lemma_count_grid_absent(g@, 1i8);
        lemma_count_grid_absent(g@, (-1i8));
    }
    for t in 0..k
        invariant
            g.wf(),
            g@.len() == board_size,
            1 <= board_size <= 46340,
            cells == board_size * board_size,
            k <= idxs@.len(),
            idxs@.len() == k,
            k <= cells,
            forall|s: int| 0 <= s < idxs@.len() ==> #[trigger] idxs@[s] < cells,
            forall|s1: int, s2: int| 0 <= s1 < s2 < idxs@.len() ==> idxs@[s1] != idxs@[s2],
            count_grid(g@, 1i8) == min(t as int, n_black as int),
            count_grid(g@, (-1i8)) == t - min(t as int, n_black as int),
            forall|a: int, b: int|
                0 <= a < board_size && 0 <= b < board_size && g@[a][b] != 0 ==> exists|s: int|
                    0 <= s < t && #[trigger] idxs@[s] == a * board_size + b,
    {
        let u = idxs[t];
        let i = u / board_size;
        let j = u % board_size;
        proof {
            lemma_multiply_divide_lt(u as int, board_size as int, board_size as int);
            lemma_mod_bound(u as int, board_size as int);
            lemma_fundamental_div_mod(u as int, board_size as int);
            assert(u == i * board_size + j) by (nonlinear_arith)
                requires
                    u == board_size * (u as int / board_size as int) + u as int % board_size as int,
                    i == u as int / board_size as int,
                    j == u as int % board_size as int,
            ;
            // The chosen indices are distinct, so this cell has not been
            // touched yet and still holds no stone.
            if g@[i as int][j as int] != 0 {
                let s = choose|s: int| 0 <= s < t && #[trigger] idxs@[s] == i * board_size + j;
                assert(idxs@[s] == idxs@[t as int]);
                assert(false);
            }
        }
        let color = if t < n_black {
            Cell::Black
        } else {
            Cell::White
        };
        let ghost old_view = g@;
        let ghost old_row = g@[i as int];
        g.set(i, j, color);
        proof {
            lemma_count_row_update(old_row, 1i8, j as int, if t < n_black { 1i8 } else { (-1i8) });
            lemma_count_row_update(
                old_row,
                (-1i8),
                j as int,
                if t < n_black { 1i8 } else { (-1i8) },
            );
            lemma_count_grid_update(
                old_view,
                1i8,
                i as int,
                old_row.update(j as int, if t < n_black { 1i8 } else { (-1i8) }),
            );
            lemma_count_grid_update(
                old_view,
                (-1i8),
                i as int,
                old_row.update(j as int, if t < n_black { 1i8 } else { (-1i8) }),
            );
            assert forall|a: int, b: int|
                0 <= a < board_size && 0 <= b < board_size && g@[a][b] != 0 implies exists|s: int|
                0 <= s < t + 1 && #[trigger] idxs@[s] == a * board_size + b by {
                if a == i as int && b == j as int {
                    assert(idxs@[t as int] == a * board_size + b);
                } else {
                    assert(g@[a][b] == old_view[a][b]);
                    assert(exists|s: int|
                        0 <= s < t && #[trigger] idxs@[s] == a * board_size + b);
                    let s = choose|s: int|
                        0 <= s < t && #[trigger] idxs@[s] == a * board_size + b;
                    assert(0 <= s < t + 1 && idxs@[s] == a * board_size + b);
                }
            }
        }
    }
    g
}

} // verus!
