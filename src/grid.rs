//! The working buffer as a two-dimensional `ndarray` array of raw codes,
//! one row per scan, seen by the proofs through its cells in row-major order.
use vstd::prelude::*;

verus! {

/// A two-dimensional `ndarray` array of raw codes, one row per scan.
#[verifier::external_body]
pub struct ScanGrid {
    cells: ndarray::Array2<u32>,
}

/// The cells of a two-dimensional array in logical row-major order, the
/// order in which `ndarray` visits them.
pub uninterp spec fn array_cells(a: ScanGrid) -> Seq<u32>;

/// The shape of a two-dimensional array: rows and columns.
pub uninterp spec fn array_shape(a: ScanGrid) -> (nat, nat);

/// Relies on `ndarray::Array::zeros`: a `rows` by `cols` array of zeros.
#[verifier::external_body]
pub(crate) fn zeros(rows: usize, cols: usize) -> (a: ScanGrid)
    requires
        rows >= 1,
        cols >= 1,
        rows * cols * 4 <= isize::MAX,
    ensures
        array_shape(a) == (rows as nat, cols as nat),
        array_cells(a) == Seq::new((rows * cols) as nat, |i: int| 0u32),
{
    ScanGrid { cells: ndarray::Array2::<u32>::zeros((rows, cols)) }
}

/// Relies on indexing `ndarray::Array2` by `[row, col]`: the cell at that
/// position.
#[verifier::external_body]
pub(crate) fn cell(a: &ScanGrid, row: usize, col: usize) -> (v: u32)
    requires
        row < array_shape(*a).0,
        col < array_shape(*a).1,
    ensures
        v == array_cells(*a)[row * array_shape(*a).1 + col],
{
    a.cells[[row, col]]
}

/// Relies on mutable indexing of `ndarray::Array2` by `[row, col]`: writes
/// that cell and no other.
#[verifier::external_body]
pub(crate) fn set_cell(a: &mut ScanGrid, row: usize, col: usize, v: u32)
    requires
        row < array_shape(*old(a)).0,
        col < array_shape(*old(a)).1,
    ensures
        array_shape(*final(a)) == array_shape(*old(a)),
        array_cells(*final(a)) == array_cells(*old(a)).update(
            row * array_shape(*old(a)).1 + col,
            v,
        ),
{
    a.cells[[row, col]] = v;
}

/// The grid is `rows` scans of `cols` codes.
pub open spec fn grid_holds(g: ScanGrid, rows: nat, cols: nat) -> bool {
    &&& array_shape(g) == (rows, cols)
    &&& array_cells(g).len() == rows * cols
    &&& rows * cols <= usize::MAX
}

/// A row-major position inside a grid names a row inside it.
proof fn lemma_position(i: nat, rows: nat, cols: nat)
    requires
        cols >= 1,
        i < rows * cols,
    ensures
        i / cols < rows,
        i % cols < cols,
        (i / cols) * cols + i % cols == i,
{
    vstd::arithmetic::div_mod::lemma_fundamental_div_mod(i as int, cols as int);
    assert((i / cols) * cols == cols * (i / cols)) by (nonlinear_arith);
    if i / cols >= rows {
        assert((i / cols) * cols >= rows * cols) by (nonlinear_arith)
            requires
                i / cols >= rows,
                cols >= 1,
        ;
    }
}

/// The code at row-major position `i`.
pub(crate) fn code_at(g: &ScanGrid, cols: usize, i: usize) -> (v: u32)
    requires
        cols >= 1,
        grid_holds(*g, array_shape(*g).0, cols as nat),
        i < array_cells(*g).len(),
    ensures
        v == array_cells(*g)[i as int],
{
    proof {
        lemma_position(i as nat, array_shape(*g).0, cols as nat);
    }
    cell(g, i / cols, i % cols)
}

/// Writes `v` at row-major position `i`.
pub(crate) fn put_code_at(g: &mut ScanGrid, cols: usize, i: usize, v: u32)
    requires
        cols >= 1,
        grid_holds(*old(g), array_shape(*old(g)).0, cols as nat),
        i < array_cells(*old(g)).len(),
    ensures
        array_shape(*final(g)) == array_shape(*old(g)),
        array_cells(*final(g)) == array_cells(*old(g)).update(i as int, v),
{
    proof {
        lemma_position(i as nat, array_shape(*g).0, cols as nat);
    }
    set_cell(g, i / cols, i % cols, v);
}

} // verus!
