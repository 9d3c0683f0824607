use vstd::prelude::*;
use crate::cell::{Cell, cell_value, cell_of_value, valid_value};

verus! {

// A board is stored as a square `ndarray::Array2<i8>`, as a rendering shell
// expects to read it. Verus refuses a declaration of `ndarray::ArrayBase`
// itself (its generics carry an outside trait bound), so the array sits in
// an opaque holder of this crate: what it holds is named by `array2_cells`,
// and the three operations the boards need stand behind trusted wrappers
// whose contracts speak over that name.
#[verifier::external_body]
pub struct CellArray {
    arr: ndarray::Array2<i8>,
}

/// What the held two-dimensional `i8` array contains: row `i`, column `j`
/// of the mathematical grid is entry `[i][j]`.
pub uninterp spec fn array2_cells(a: CellArray) -> Seq<Seq<i8>>;

/// Relies on `ndarray::ArrayBase::zeros`: an `n` by `n` array of zeroes.
/// The bound keeps the cell count far below `isize::MAX`, on whose
/// overflow the shape computation panics.
#[verifier::external_body]
fn array2_zeros(n: usize) -> (a: CellArray)
    requires
        n <= 46340,
    ensures
        array2_cells(a).len() == n,
        forall|i: int| 0 <= i < n ==> (#[trigger] array2_cells(a)[i]).len() == n,
        forall|i: int, j: int|
            0 <= i < n && 0 <= j < n ==> #[trigger] array2_cells(a)[i][j] == 0i8,
{
    CellArray { arr: ndarray::Array2::zeros([n, n]) }
}

/// Relies on `ndarray`'s `Index<[usize; 2]>`: reads the entry at `[i, j]`.
#[verifier::external_body]
fn array2_get(a: &CellArray, i: usize, j: usize) -> (v: i8)
    requires
        i < array2_cells(*a).len(),
        j < array2_cells(*a)[i as int].len(),
    ensures
        v == array2_cells(*a)[i as int][j as int],
{
    a.arr[[i, j]]
}

/// Relies on `ndarray`'s `IndexMut<[usize; 2]>`: writes the entry at `[i, j]`
/// and leaves every other entry in place.
#[verifier::external_body]
fn array2_set(a: &mut CellArray, i: usize, j: usize, v: i8)
    requires
        i < array2_cells(*old(a)).len(),
        j < array2_cells(*old(a))[i as int].len(),
    ensures
        array2_cells(*final(a)) == array2_cells(*old(a)).update(
            i as int,
            array2_cells(*old(a))[i as int].update(j as int, v),
        ),
{
    a.arr[[i, j]] = v;
}

/// How many entries of one row hold the value `v`.
pub open spec fn count_row(row: Seq<i8>, v: i8) -> int
    decreases row.len(),
{
    if row.len() == 0 {
        0
    } else {
        count_row(row.drop_last(), v) + if row.last() == v {
            1int
        } else {
            0int
        }
    }
}

/// How many entries of the whole grid hold the value `v`.
pub open spec fn count_grid(g: Seq<Seq<i8>>, v: i8) -> int
    decreases g.len(),
{
    if g.len() == 0 {
        0
    } else {
        count_grid(g.drop_last(), v) + count_row(g.last(), v)
    }
}

pub proof fn lemma_count_row_bounds(row: Seq<i8>, v: i8)
    ensures
        0 <= count_row(row, v) <= row.len(),
    decreases row.len(),
{
    if row.len() > 0 {
        lemma_count_row_bounds(row.drop_last(), v);
    }
}

/// Counting one more entry of a row extends the count by whether it is `v`.
pub proof fn lemma_count_row_take_step(row: Seq<i8>, v: i8, j: int)
    requires
        0 <= j < row.len(),
    ensures
        count_row(row.take(j + 1), v) == count_row(row.take(j), v) + if row[j] == v {
            1int
        } else {
            0int
        },
{
    assert(row.take(j + 1).drop_last() =~= row.take(j));
    assert(row.take(j + 1).last() == row[j]);
}

/// Replacing one entry moves the count by the entry that leaves and the one
/// that arrives.
pub proof fn lemma_count_row_update(row: Seq<i8>, v: i8, j: int, x: i8)
    requires
        0 <= j < row.len(),
    ensures
        count_row(row.update(j, x), v) == count_row(row, v) - (if row[j] == v {
            1int
        } else {
            0int
        }) + (if x == v {
            1int
        } else {
            0int
        }),
    decreases row.len(),
{
    let up = row.update(j, x);
    if j == row.len() - 1 {
        assert(up.drop_last() =~= row.drop_last());
        assert(up.last() == x);
    } else {
        assert(up.drop_last() =~= row.drop_last().update(j, x));
        assert(up.last() == row.last());
        lemma_count_row_update(row.drop_last(), v, j, x);
    }
}

/// Counting one more row of a grid extends the count by that row's count.
pub proof fn lemma_count_grid_take_step(g: Seq<Seq<i8>>, v: i8, i: int)
    requires
        0 <= i < g.len(),
    ensures
        count_grid(g.take(i + 1), v) == count_grid(g.take(i), v) + count_row(g[i], v),
{
    assert(g.take(i + 1).drop_last() =~= g.take(i));
    assert(g.take(i + 1).last() == g[i]);
}

/// Replacing one row moves the grid count by the row that leaves and the one
/// that arrives.
pub proof fn lemma_count_grid_update(g: Seq<Seq<i8>>, v: i8, i: int, row: Seq<i8>)
    requires
        0 <= i < g.len(),
    ensures
        count_grid(g.update(i, row), v) == count_grid(g, v) - count_row(g[i], v) + count_row(
            row,
            v,
        ),
    decreases g.len(),
{
    let up = g.update(i, row);
    if i == g.len() - 1 {
        assert(up.drop_last() =~= g.drop_last());
        assert(up.last() == row);
    } else {
        assert(up.drop_last() =~= g.drop_last().update(i, row));
        assert(up.last() == g.last());
        lemma_count_grid_update(g.drop_last(), v, i, row);
    }
}

pub proof fn lemma_count_grid_bounds(g: Seq<Seq<i8>>, v: i8, m: int)
    requires
        forall|i: int| 0 <= i < g.len() ==> (#[trigger] g[i]).len() <= m,
        0 <= m,
    ensures
        0 <= count_grid(g, v) <= g.len() * m,
    decreases g.len(),
{
    if g.len() > 0 {
        lemma_count_grid_bounds(g.drop_last(), v, m);
        lemma_count_row_bounds(g.last(), v);
        assert((g.len() - 1) * m == g.len() * m - m) by (nonlinear_arith);
    }
}

/// A value held by no entry of a row is counted zero times.
pub proof fn lemma_count_row_absent(row: Seq<i8>, v: i8)
    requires
        forall|j: int| 0 <= j < row.len() ==> row[j] != v,
    ensures
        count_row(row, v) == 0,
    decreases row.len(),
{
    if row.len() > 0 {
        lemma_count_row_absent(row.drop_last(), v);
    }
}

/// A value held by no entry of a grid is counted zero times.
pub proof fn lemma_count_grid_absent(g: Seq<Seq<i8>>, v: i8)
    requires
        forall|i: int, j: int| 0 <= i < g.len() && 0 <= j < g[i].len() ==> #[trigger] g[i][j]
            != v,
    ensures
        count_grid(g, v) == 0,
    decreases g.len(),
{
    if g.len() > 0 {
        lemma_count_grid_absent(g.drop_last(), v);
        lemma_count_row_absent(g.last(), v);
    }
}

/// A square grid is well formed when it is a non-degenerate square no wider
/// than `46340` (so a cell count fits comfortably in machine integers) and
/// every entry encodes a cell.
pub open spec fn grid_view_wf(g: Seq<Seq<i8>>) -> bool {
    &&& 1 <= g.len() <= 46340
    &&& forall|i: int| 0 <= i < g.len() ==> (#[trigger] g[i]).len() == g.len()
    &&& forall|i: int, j: int|
        0 <= i < g.len() && 0 <= j < g.len() ==> valid_value(#[trigger] g[i][j])
}

/// A square board of cells, of side length `size`.
pub struct Grid {
    arr: CellArray,
    size: usize,
}

impl View for Grid {
    type V = Seq<Seq<i8>>;

    closed spec fn view(&self) -> Seq<Seq<i8>> {
        array2_cells(self.arr)
    }
}

impl Grid {
    /// The stored side length agrees with the array's shape.
    pub closed spec fn size_linked(&self) -> bool {
        self.size == self@.len()
    }

    /// A grid is well formed when its view is and its side length is stored.
    pub open spec fn wf(&self) -> bool {
        &&& self.size_linked()
        &&& grid_view_wf(self@)
    }

    /// A fresh all-empty grid of the given side length.
    pub fn new(size: usize) -> (g: Grid)
        requires
            1 <= size <= 46340,
        ensures
            g.wf(),
            g@.len() == size,
            forall|i: int, j: int| 0 <= i < size && 0 <= j < size ==> #[trigger] g@[i][j] == 0i8,
    {
        Grid { arr: array2_zeros(size), size }
    }

    /// The side length of the board.
    pub fn size(&self) -> (n: usize)
        requires
            self.wf(),
        ensures
            n == self@.len(),
    {
        self.size
    }

    /// The cell at row `i`, column `j`.
    pub fn get(&self, i: usize, j: usize) -> (c: Cell)
        requires
            self.wf(),
            i < self@.len(),
            j < self@.len(),
        ensures
            c == cell_of_value(self@[i as int][j as int]),
    {
        Cell::from_value(array2_get(&self.arr, i, j))
    }

    /// Replace the cell at row `i`, column `j`.
    pub fn set(&mut self, i: usize, j: usize, c: Cell)
        requires
            old(self).wf(),
            i < old(self)@.len(),
            j < old(self)@.len(),
        ensures
            final(self).wf(),
            final(self)@ == old(self)@.update(
                i as int,
                old(self)@[i as int].update(j as int, cell_value(c)),
            ),
    {
        array2_set(&mut self.arr, i, j, c.value());
    }

    /// How many cells of the board hold `c`, recomputed from the grid itself.
    pub fn count(&self, c: Cell) -> (n: usize)
        requires
            self.wf(),
        ensures
            n == count_grid(self@, cell_value(c)),
    {
        let size = self.size();
        let v = c.value();
        let mut total: usize = 0;
        proof {
            assert(self@.take(0) =~= Seq::<Seq<i8>>::empty());
        }
        for i in 0..size
            invariant
                self.wf(),
                size == self@.len(),
                v == cell_value(c),
                total == count_grid(self@.take(i as int), v),
                total <= i * size,
                size <= 46340,
        {
            let mut row_total: usize = 0;
            proof {
                assert(self@[i as int].take(0) =~= Seq::<i8>::empty());
            }
            for j in 0..size
                invariant
                    self.wf(),
                    size == self@.len(),
                    v == cell_value(c),
                    i < size,
                    row_total == count_row(self@[i as int].take(j as int), v),
                    row_total <= j,
                    size <= 46340,
            {
                let w = array2_get(&self.arr, i, j);
                proof {
                    lemma_count_row_take_step(self@[i as int], v, j as int);
                }
                if w == v {
                    row_total = row_total + 1;
                }
            }
            proof {
                assert(self@[i as int].take(size as int) =~= self@[i as int]);
                lemma_count_grid_take_step(self@, v, i as int);
                lemma_count_grid_bounds(self@.take(i as int), v, size as int);
                lemma_count_row_bounds(self@[i as int], v);
                assert((i + 1) * size == i * size + size) by (nonlinear_arith);
                assert(i * size <= 46340 * 46340) by (nonlinear_arith)
                    requires
                        0 <= i < size <= 46340,
                ;
            }
            total = total + row_total;
        }
        proof {
            assert(self@.take(size as int) =~= self@);
        }
        total
    }
}

} // verus!
