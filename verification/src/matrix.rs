//! Trusted boundary around `nalgebra`'s dynamically sized matrices, which the
//! piece and board types use as their grid storage.
//!
//! `nalgebra::DMatrix` itself cannot be declared to the verifier (its storage
//! type carries an outside trait bound), so each matrix is held in a private
//! field of an opaque struct here. A matrix is modelled by the sequence of its
//! rows (`bool_mat_rows`, `cell_mat_rows`) together with its column count
//! (`bool_mat_width`, `cell_mat_width`); the column count cannot be recovered
//! from the row sequence alone when the matrix has zero rows. Every row of a
//! matrix has exactly the column count many entries; the wrappers state that
//! fact where callers need it.

use vstd::prelude::*;

verus! {

/// A `nalgebra` matrix of booleans: the grid of a piece shape.
#[verifier::external_body]
#[derive(Debug)]
pub struct BoolMat {
    inner: nalgebra::DMatrix<bool>,
}

/// A `nalgebra` matrix of cell markers: the grid of a board.
#[verifier::external_body]
#[derive(Debug)]
pub struct CellMat {
    inner: nalgebra::DMatrix<u8>,
}

/// The rows of a boolean matrix, top to bottom, each row left to right.
pub uninterp spec fn bool_mat_rows(m: BoolMat) -> Seq<Seq<bool>>;

/// The column count of a boolean matrix.
pub uninterp spec fn bool_mat_width(m: BoolMat) -> nat;

/// Relies on `DMatrix::from_row_iterator`: the matrix is filled with the
/// iterator's elements in row-major order.
#[verifier::external_body]
pub(crate) fn bool_mat_from_rows(nrows: usize, ncols: usize, data: Vec<bool>) -> (m: BoolMat)
    requires
        data.len() == nrows * ncols,
    ensures
        bool_mat_rows(m) == Seq::new(
            nrows as nat,
            |i: int| data@.subrange(i * ncols, i * ncols + ncols),
        ),
        bool_mat_width(m) == ncols,
{
    BoolMat { inner: nalgebra::DMatrix::from_row_iterator(nrows, ncols, data.into_iter()) }
}

/// Relies on `Matrix::nrows`.
#[verifier::external_body]
pub(crate) fn bool_mat_nrows(m: &BoolMat) -> (r: usize)
    ensures
        r == bool_mat_rows(*m).len(),
{
    m.inner.nrows()
}

/// Relies on `Matrix::ncols`. Every row of a matrix has exactly the column
/// count many entries.
#[verifier::external_body]
pub(crate) fn bool_mat_ncols(m: &BoolMat) -> (r: usize)
    ensures
        r == bool_mat_width(*m),
        forall|i: int|
            0 <= i < bool_mat_rows(*m).len() ==> (#[trigger] bool_mat_rows(*m)[i]).len() == r,
{
    m.inner.ncols()
}

/// Relies on `Matrix::index` for a `(row, column)` pair.
#[verifier::external_body]
pub(crate) fn bool_mat_get(m: &BoolMat, r: usize, c: usize) -> (b: bool)
    requires
        r < bool_mat_rows(*m).len(),
        c < bool_mat_width(*m),
    ensures
        b == bool_mat_rows(*m)[r as int][c as int],
{
    m.inner[(r, c)]
}

/// Relies on `Matrix::transpose`: rows and columns are swapped. Every row of
/// a matrix has exactly the column count many entries.
#[verifier::external_body]
pub(crate) fn bool_mat_transpose(m: &BoolMat) -> (t: BoolMat)
    ensures
        bool_mat_rows(t).len() == bool_mat_width(*m),
        bool_mat_width(t) == bool_mat_rows(*m).len(),
        forall|i: int|
            0 <= i < bool_mat_rows(t).len() ==> (#[trigger] bool_mat_rows(t)[i]).len()
                == bool_mat_width(t),
        forall|i: int, j: int|
            0 <= i < bool_mat_width(*m) && 0 <= j < bool_mat_rows(*m).len() ==> (
            #[trigger] bool_mat_rows(t)[i][j]) == bool_mat_rows(*m)[j][i],
{
    BoolMat { inner: m.inner.transpose() }
}

/// Relies on `Matrix`'s `PartialEq`: equal exactly when the shapes and all
/// entries are equal.
#[verifier::external_body]
pub(crate) fn bool_mat_eq(a: &BoolMat, b: &BoolMat) -> (r: bool)
    ensures
        r == (bool_mat_rows(*a) =~~= bool_mat_rows(*b) && bool_mat_width(*a) == bool_mat_width(*b)),
{
    a.inner == b.inner
}

/// Relies on `Matrix`'s `Clone`: the copy has the same shape and entries.
#[verifier::external_body]
pub(crate) fn bool_mat_clone(m: &BoolMat) -> (r: BoolMat)
    ensures
        bool_mat_rows(r) == bool_mat_rows(*m),
        bool_mat_width(r) == bool_mat_width(*m),
{
    BoolMat { inner: m.inner.clone() }
}

/// The rows of a cell-marker matrix, top to bottom, each row left to right.
pub uninterp spec fn cell_mat_rows(m: CellMat) -> Seq<Seq<u8>>;

/// The column count of a cell-marker matrix.
pub uninterp spec fn cell_mat_width(m: CellMat) -> nat;

/// Relies on `DMatrix::from_element`: every entry is the given element.
#[verifier::external_body]
pub(crate) fn cell_mat_from_element(nrows: usize, ncols: usize, e: u8) -> (m: CellMat)
    requires
        nrows * ncols <= usize::MAX,
    ensures
        cell_mat_rows(m) == Seq::new(nrows as nat, |i: int| Seq::new(ncols as nat, |j: int| e)),
        cell_mat_width(m) == ncols,
{
    CellMat { inner: nalgebra::DMatrix::from_element(nrows, ncols, e) }
}

/// Relies on `Matrix::nrows`.
#[verifier::external_body]
pub(crate) fn cell_mat_nrows(m: &CellMat) -> (r: usize)
    ensures
        r == cell_mat_rows(*m).len(),
{
    m.inner.nrows()
}

/// Relies on `Matrix::ncols`. Every row of a matrix has exactly the column
/// count many entries.
#[verifier::external_body]
pub(crate) fn cell_mat_ncols(m: &CellMat) -> (r: usize)
    ensures
        r == cell_mat_width(*m),
        forall|i: int|
            0 <= i < cell_mat_rows(*m).len() ==> (#[trigger] cell_mat_rows(*m)[i]).len() == r,
{
    m.inner.ncols()
}

/// Relies on `Matrix::index` for a `(row, column)` pair.
#[verifier::external_body]
pub(crate) fn cell_mat_get(m: &CellMat, r: usize, c: usize) -> (v: u8)
    requires
        r < cell_mat_rows(*m).len(),
        c < cell_mat_width(*m),
    ensures
        v == cell_mat_rows(*m)[r as int][c as int],
{
    m.inner[(r, c)]
}

/// Relies on `Matrix::index_mut` for a `(row, column)` pair: one entry is
/// replaced, the rest of the matrix is unchanged.
#[verifier::external_body]
pub(crate) fn cell_mat_set(m: &mut CellMat, r: usize, c: usize, v: u8)
    requires
        r < cell_mat_rows(*old(m)).len(),
        c < cell_mat_width(*old(m)),
    ensures
        cell_mat_rows(*final(m)) == cell_mat_rows(*old(m)).update(
            r as int,
            cell_mat_rows(*old(m))[r as int].update(c as int, v),
        ),
        cell_mat_width(*final(m)) == cell_mat_width(*old(m)),
{
    m.inner[(r, c)] = v;
}

/// Relies on `Matrix`'s `Clone`: the copy has the same shape and entries.
#[verifier::external_body]
pub(crate) fn cell_mat_clone(m: &CellMat) -> (r: CellMat)
    ensures
        cell_mat_rows(r) == cell_mat_rows(*m),
        cell_mat_width(r) == cell_mat_width(*m),
{
    CellMat { inner: m.inner.clone() }
}

} // verus!
