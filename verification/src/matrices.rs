//! Shape and index discipline of the matrix kernel.
//!
//! The transform matrices are square grids of floating-point values held by
//! the caller. What can be proved about them is their bookkeeping: when an
//! index or a multiplication is rejected, and how the entries move under
//! transposition and submatrix extraction (the row/column deletion at the
//! heart of cofactor expansion). Those movements are pure index arithmetic
//! and are verified here for grids of any element type, stored row-major.

use vstd::prelude::*;

verus! {

/// Why a matrix operation was rejected.
#[derive(Copy, Clone, Debug, PartialEq, Eq, Structural)]
pub enum MatrixError {
    /// A read or write outside the matrix.
    IndexError,
    /// A product of matrices whose inner dimensions differ.
    IncompatibleMultiplication,
    /// A determinant of a non-square matrix.
    DeterminantError,
    /// A minor taken outside the matrix.
    MinorError,
    /// An inverse of a matrix whose determinant vanishes.
    InversionError,
}

/// A read or write at `(row, col)` is accepted exactly inside the bounds.
pub fn check_index(rows: usize, cols: usize, row: usize, col: usize) -> (r: Result<
    (),
    MatrixError,
>)
    ensures
        r is Ok <==> (row < rows && col < cols),
        r is Err ==> r->Err_0 == MatrixError::IndexError,
{
    if row < rows && col < cols {
        Ok(())
    } else {
        Err(MatrixError::IndexError)
    }
}

/// A minor at `(row, col)` deletes that row and column, so it is accepted
/// exactly inside the bounds.
pub fn check_minor_index(rows: usize, cols: usize, row: usize, col: usize) -> (r: Result<
    (),
    MatrixError,
>)
    ensures
        r is Ok <==> (row < rows && col < cols),
        r is Err ==> r->Err_0 == MatrixError::MinorError,
{
    if row < rows && col < cols {
        Ok(())
    } else {
        Err(MatrixError::MinorError)
    }
}

/// A product is formed exactly when the left width equals the right height.
pub fn check_mul_compatible(cols_left: usize, rows_right: usize) -> (r: Result<(), MatrixError>)
    ensures
        r is Ok <==> cols_left == rows_right,
        r is Err ==> r->Err_0 == MatrixError::IncompatibleMultiplication,
{
    if cols_left == rows_right {
        Ok(())
    } else {
        Err(MatrixError::IncompatibleMultiplication)
    }
}

/// A determinant exists exactly for square matrices.
pub fn check_square(rows: usize, cols: usize) -> (r: Result<(), MatrixError>)
    ensures
        r is Ok <==> rows == cols,
        r is Err ==> r->Err_0 == MatrixError::DeterminantError,
{
    if rows == cols {
        Ok(())
    } else {
        Err(MatrixError::DeterminantError)
    }
}

/// Entry `(i, j)` of a row-major grid with `dim` columns.
pub open spec fn grid_entry<T>(s: Seq<T>, dim: int, i: int, j: int) -> T {
    s[i * dim + j]
}

/// Where row `i` of a submatrix came from when row `skip` was deleted.
pub open spec fn source_index(i: int, skip: int) -> int {
    if i < skip {
        i
    } else {
        i + 1
    }
}

/// Executable form of `source_index`.
fn source_index_exec(i: usize, skip: usize) -> (r: usize)
    requires
        i < usize::MAX,
    ensures
        r == source_index(i as int, skip as int),
{
    if i < skip {
        i
    } else {
        i + 1
    }
}

/// The 3x3 submatrix of a row-major 4x4 grid, deleting `row` and `col`.
/// Entry `(i, j)` of the result is entry `(source_index(i, row),
/// source_index(j, col))` of the input.
pub fn submatrix4<T: Copy>(vals: &Vec<T>, row: usize, col: usize) -> (r: Vec<T>)
    requires
        vals@.len() == 16,
        row < 4,
        col < 4,
    ensures
        r@.len() == 9,
        forall|i: int, j: int|
            0 <= i < 3 && 0 <= j < 3 ==> #[trigger] grid_entry(r@, 3, i, j) == grid_entry(
                vals@,
                4,
                source_index(i, row as int),
                source_index(j, col as int),
            ),
{
    submatrix_grid(vals, 4, row, col)
}

/// The 2x2 submatrix of a row-major 3x3 grid, deleting `row` and `col`.
pub fn submatrix3<T: Copy>(vals: &Vec<T>, row: usize, col: usize) -> (r: Vec<T>)
    requires
        vals@.len() == 9,
        row < 3,
        col < 3,
    ensures
        r@.len() == 4,
        forall|i: int, j: int|
            0 <= i < 2 && 0 <= j < 2 ==> #[trigger] grid_entry(r@, 2, i, j) == grid_entry(
                vals@,
                3,
                source_index(i, row as int),
                source_index(j, col as int),
            ),
{
    submatrix_grid(vals, 3, row, col)
}

/// Row/column deletion on a row-major `dim` by `dim` grid.
fn submatrix_grid<T: Copy>(vals: &Vec<T>, dim: usize, row: usize, col: usize) -> (r: Vec<T>)
    requires
        1 <= dim,
        dim * dim == vals@.len(),
        row < dim,
        col < dim,
    ensures
        r@.len() == (dim - 1) * (dim - 1),
        forall|i: int, j: int|
            0 <= i < dim - 1 && 0 <= j < dim - 1 ==> #[trigger] grid_entry(r@, dim - 1, i, j)
                == grid_entry(
                vals@,
                dim as int,
                source_index(i, row as int),
                source_index(j, col as int),
            ),
{
    let n = vals.len();
    let d = dim - 1;
    let ghost dd = d as int;
    let mut r: Vec<T> = Vec::new();
    let mut i: usize = 0;
    while i < d
        invariant
            1 <= dim,
            dim * dim == vals@.len(),
            n == vals@.len(),
            row < dim,
            col < dim,
            d == dim - 1,
            dd == d as int,
            i <= d,
            r@.len() == i * dd,
            forall|a: int, b: int|
                0 <= a < i && 0 <= b < dd ==> #[trigger] grid_entry(r@, dd, a, b) == grid_entry(
                    vals@,
                    dim as int,
                    source_index(a, row as int),
                    source_index(b, col as int),
                ),
        decreases d - i,
    {
        let si = source_index_exec(i, row);
        let mut j: usize = 0;
        while j < d
            invariant
                1 <= dim,
                dim * dim == vals@.len(),
                n == vals@.len(),
                row < dim,
                col < dim,
                d == dim - 1,
                dd == d as int,
                i < d,
                j <= d,
                si == source_index(i as int, row as int),
                si < dim,
                r@.len() == i * dd + j,
                forall|a: int, b: int|
                    0 <= a < i && 0 <= b < dd ==> #[trigger] grid_entry(r@, dd, a, b)
                        == grid_entry(
                        vals@,
                        dim as int,
                        source_index(a, row as int),
                        source_index(b, col as int),
                    ),
                forall|b: int|
                    0 <= b < j ==> #[trigger] grid_entry(r@, dd, i as int, b) == grid_entry(
                        vals@,
                        dim as int,
                        source_index(i as int, row as int),
                        source_index(b, col as int),
                    ),
            decreases d - j,
        {
            let sj = source_index_exec(j, col);
            proof {
                lemma_grid_index_bound(si as int, sj as int, dim as int);
                lemma_prefix_length(i as int, j as int, dd);
            }
            let ghost pre = r@;
            let v = vals[si * dim + sj];
            r.push(v);
            proof {
                assert forall|a: int, b: int| 0 <= a < i && 0 <= b < dd implies #[trigger]
                grid_entry(r@, dd, a, b) == grid_entry(
                    vals@,
                    dim as int,
                    source_index(a, row as int),
                    source_index(b, col as int),
                ) by {
                    lemma_prefix_index(a, b, i as int, j as int, dd);
                    assert(grid_entry(pre, dd, a, b) == pre[a * dd + b]);
                    assert(r@[a * dd + b] == pre[a * dd + b]);
                }
                assert forall|b: int| 0 <= b < j + 1 implies #[trigger] grid_entry(
                    r@,
                    dd,
                    i as int,
                    b,
                ) == grid_entry(
                    vals@,
                    dim as int,
                    source_index(i as int, row as int),
                    source_index(b, col as int),
                ) by {
                    if b < j {
                        assert(grid_entry(pre, dd, i as int, b) == pre[i as int * dd + b]);
                        assert(r@[i as int * dd + b] == pre[i as int * dd + b]);
                    } else {
                        assert(r@[i as int * dd + b] == vals@[si as int * dim + sj as int]);
                    }
                }
            }
            j = j + 1;
        }
        i = i + 1;
        proof {
            assert((i - 1) * dd + dd == i * dd) by (nonlinear_arith);
            assert forall|a: int, b: int| 0 <= a < i && 0 <= b < dd implies #[trigger] grid_entry(
                r@,
                dd,
                a,
                b,
            ) == grid_entry(
                vals@,
                dim as int,
                source_index(a, row as int),
                source_index(b, col as int),
            ) by {}
        }
    }
    proof {
        assert(i * dd == dd * dd) by (nonlinear_arith)
            requires
                i == dd,
        ;
    }
    r
}

/// A row-major position inside the grid stays inside the backing storage.
proof fn lemma_grid_index_bound(i: int, j: int, dim: int)
    requires
        0 <= i < dim,
        0 <= j < dim,
    ensures
        0 <= i * dim + j < dim * dim,
{
    assert(i * dim + j < dim * dim) by (nonlinear_arith)
        requires
            0 <= i < dim,
            0 <= j < dim,
    ;
    assert(0 <= i * dim) by (nonlinear_arith)
        requires
            0 <= i,
            0 < dim,
    ;
}

/// A slot in a finished row lies before the slot being written.
proof fn lemma_prefix_index(a: int, b: int, i: int, j: int, dd: int)
    requires
        0 <= a < i,
        0 <= b < dd,
        0 <= j,
    ensures
        0 <= a * dd + b < i * dd + j,
{
    assert(0 <= a * dd + b && a * dd + b < i * dd + j) by (nonlinear_arith)
        requires
            0 <= a < i,
            0 <= b < dd,
            0 <= j,
    ;
}

/// The slots written so far never outgrow the grid.
proof fn lemma_prefix_length(i: int, j: int, dd: int)
    requires
        0 <= j <= dd,
        0 <= i < dd,
    ensures
        0 <= i * dd + j <= dd * dd,
{
    assert(0 <= i * dd + j <= dd * dd) by (nonlinear_arith)
        requires
            0 <= j <= dd,
            0 <= i < dd,
    ;
}

/// Transposition of a row-major `dim` by `dim` grid: entry `(i, j)` of the
/// result is entry `(j, i)` of the input.
pub fn transpose_grid<T: Copy>(vals: &Vec<T>, dim: usize) -> (r: Vec<T>)
    requires
        dim * dim == vals@.len(),
    ensures
        r@.len() == dim * dim,
        forall|i: int, j: int|
            0 <= i < dim && 0 <= j < dim ==> #[trigger] grid_entry(r@, dim as int, i, j)
                == grid_entry(vals@, dim as int, j, i),
{
    let n = vals.len();
    let ghost dd = dim as int;
    let mut r: Vec<T> = Vec::new();
    let mut i: usize = 0;
    while i < dim
        invariant
            dim * dim == vals@.len(),
            n == vals@.len(),
            dd == dim as int,
            i <= dim,
            r@.len() == i * dd,
            forall|a: int, b: int|
                0 <= a < i && 0 <= b < dd ==> #[trigger] grid_entry(r@, dd, a, b) == grid_entry(
                    vals@,
                    dd,
                    b,
                    a,
                ),
        decreases dim - i,
    {
        let mut j: usize = 0;
        while j < dim
            invariant
                dim * dim == vals@.len(),
                n == vals@.len(),
                dd == dim as int,
                i < dim,
                j <= dim,
                r@.len() == i * dd + j,
                forall|a: int, b: int|
                    0 <= a < i && 0 <= b < dd ==> #[trigger] grid_entry(r@, dd, a, b)
                        == grid_entry(vals@, dd, b, a),
                forall|b: int|
                    0 <= b < j ==> #[trigger] grid_entry(r@, dd, i as int, b) == grid_entry(
                        vals@,
                        dd,
                        b,
                        i as int,
                    ),
            decreases dim - j,
        {
            proof {
                lemma_grid_index_bound(j as int, i as int, dim as int);
                lemma_prefix_length(i as int, j as int, dd);
            }
            let ghost pre = r@;
            let v = vals[j * dim + i];
            r.push(v);
            proof {
                assert forall|a: int, b: int| 0 <= a < i && 0 <= b < dd implies #[trigger]
                grid_entry(r@, dd, a, b) == grid_entry(vals@, dd, b, a) by {
                    lemma_prefix_index(a, b, i as int, j as int, dd);
                    assert(grid_entry(pre, dd, a, b) == pre[a * dd + b]);
                    assert(r@[a * dd + b] == pre[a * dd + b]);
                }
                assert forall|b: int| 0 <= b < j + 1 implies #[trigger] grid_entry(
                    r@,
                    dd,
                    i as int,
                    b,
                ) == grid_entry(vals@, dd, b, i as int) by {
                    if b < j {
                        assert(grid_entry(pre, dd, i as int, b) == pre[i as int * dd + b]);
                        assert(r@[i as int * dd + b] == pre[i as int * dd + b]);
                    } else {
                        assert(r@[i as int * dd + b] == vals@[j as int * dd + i as int]);
                    }
                }
            }
            j = j + 1;
        }
        i = i + 1;
        proof {
            assert((i - 1) * dd + dd == i * dd) by (nonlinear_arith);
        }
    }
    proof {
        assert(i * dd == dd * dd) by (nonlinear_arith)
            requires
                i == dd,
        ;
    }
    r
}

} // verus!
