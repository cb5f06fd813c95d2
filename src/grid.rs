//! Per-pixel buffers held in ndarray's two-dimensional arrays.
//!
//! The contents of a grid are named by `count_cells` and `sum_cells`: the
//! value at `[x][y]` is the element at index `(x, y)`.
use vstd::prelude::*;
use ndarray::Array2;

verus! {

/// Per-pixel counters, held in an ndarray array of `w` by `h` elements.
#[verifier::external_body]
pub struct CountGrid {
    cells: Array2<u64>,
}

/// Per-pixel signed sums, held in an ndarray array of `w` by `h` elements.
#[verifier::external_body]
pub struct SumGrid {
    cells: Array2<i128>,
}

/// The counters of a count grid, row `x` holding the cells `(x, y)`.
pub uninterp spec fn count_cells(g: CountGrid) -> Seq<Seq<int>>;

/// The values of a sum grid, row `x` holding the cells `(x, y)`.
pub uninterp spec fn sum_cells(g: SumGrid) -> Seq<Seq<int>>;

/// A `w` by `h` table of zeros.
pub open spec fn zero_table(w: int, h: int) -> Seq<Seq<int>> {
    Seq::new(w as nat, |i: int| Seq::new(h as nat, |j: int| 0int))
}

/// Whether `(x, y)` indexes a cell of the table.
pub open spec fn in_table(t: Seq<Seq<int>>, x: int, y: int) -> bool {
    0 <= x < t.len() && 0 <= y < t[x].len()
}

/// The table with the cell `(x, y)` replaced by `v`.
pub open spec fn table_set(t: Seq<Seq<int>>, x: int, y: int, v: int) -> Seq<Seq<int>> {
    t.update(x, t[x].update(y, v))
}

/// Relies on ndarray's `Array2::zeros`: a `w` by `h` array of zeros. It
/// panics when the product of the nonzero sides exceeds `isize::MAX` (so a
/// zero side does not keep a huge other side from panicking), and (through
/// `vec!`) when the bytes of its 8-byte elements exceed `isize::MAX`; both
/// sides at least one and `w * h * 8 <= isize::MAX` rule out both.
#[verifier::external_body]
pub(crate) fn zero_counts(w: usize, h: usize) -> (r: CountGrid)
    requires
        w >= 1,
        h >= 1,
        w * h * 8 <= isize::MAX,
    ensures
        count_cells(r) == zero_table(w as int, h as int),
{
    CountGrid { cells: Array2::<u64>::zeros((w, h)) }
}

/// Relies on ndarray's `Array2::zeros`: a `w` by `h` array of zeros. It
/// panics when the product of the nonzero sides exceeds `isize::MAX` (so a
/// zero side does not keep a huge other side from panicking), and (through
/// `vec!`) when the bytes of its 16-byte elements exceed `isize::MAX`; both
/// sides at least one and `w * h * 16 <= isize::MAX` rule out both.
#[verifier::external_body]
pub(crate) fn zero_sums(w: usize, h: usize) -> (r: SumGrid)
    requires
        w >= 1,
        h >= 1,
        w * h * 16 <= isize::MAX,
    ensures
        sum_cells(r) == zero_table(w as int, h as int),
{
    SumGrid { cells: Array2::<i128>::zeros((w, h)) }
}

/// Relies on ndarray's `Index<(usize, usize)>`: the element at `(x, y)`; it
/// panics only out of bounds.
#[verifier::external_body]
pub(crate) fn count_at(a: &CountGrid, x: usize, y: usize) -> (r: u64)
    requires
        in_table(count_cells(*a), x as int, y as int),
    ensures
        r == count_cells(*a)[x as int][y as int],
{
    a.cells[(x, y)]
}

/// Relies on ndarray's `Index<(usize, usize)>`: the element at `(x, y)`; it
/// panics only out of bounds.
#[verifier::external_body]
pub(crate) fn sum_at(a: &SumGrid, x: usize, y: usize) -> (r: i128)
    requires
        in_table(sum_cells(*a), x as int, y as int),
    ensures
        r == sum_cells(*a)[x as int][y as int],
{
    a.cells[(x, y)]
}

/// Relies on ndarray's `IndexMut<(usize, usize)>`: only the element at
/// `(x, y)` changes; it panics only out of bounds.
#[verifier::external_body]
pub(crate) fn set_count(a: &mut CountGrid, x: usize, y: usize, v: u64)
    requires
        in_table(count_cells(*old(a)), x as int, y as int),
    ensures
        count_cells(*final(a)) == table_set(count_cells(*old(a)), x as int, y as int, v as int),
{
    a.cells[(x, y)] = v;
}

/// Relies on ndarray's `IndexMut<(usize, usize)>`: only the element at
/// `(x, y)` changes; it panics only out of bounds.
#[verifier::external_body]
pub(crate) fn set_sum(a: &mut SumGrid, x: usize, y: usize, v: i128)
    requires
        in_table(sum_cells(*old(a)), x as int, y as int),
    ensures
        sum_cells(*final(a)) == table_set(sum_cells(*old(a)), x as int, y as int, v as int),
{
    a.cells[(x, y)] = v;
}

} // verus!
