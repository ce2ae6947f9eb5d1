//! Pieces: immutable polyomino shapes on a boolean grid.
//!
//! A piece is modelled by the sequence of its grid rows (its view) together
//! with its column count. A well-formed piece has at least one row, at least
//! one column, rectangular rows, and at least one marked cell.

use vstd::prelude::*;
use vstd::string::StrSliceExecFns;

use crate::matrix::BoolMat;
use crate::matrix::bool_mat_clone;
use crate::matrix::bool_mat_eq;
use crate::matrix::bool_mat_from_rows;
use crate::matrix::bool_mat_get;
use crate::matrix::bool_mat_ncols;
use crate::matrix::bool_mat_nrows;
use crate::matrix::bool_mat_rows;
use crate::matrix::bool_mat_transpose;
use crate::matrix::bool_mat_width;

verus! {

/// Why a shape description was rejected.
#[derive(Debug, Clone, Copy, PartialEq, Eq, Structural)]
pub enum BlockError {
    /// The rows of the description do not all have the same length.
    DimensionMismatch,
    /// The description marks no cell at all.
    EmptyBlock,
}

/// An immutable polyomino shape on a rectangular boolean grid; `true` means
/// "this cell is part of the shape".
#[derive(Debug)]
pub struct Block {
    data: BoolMat,
}

/// The number of `true` entries of one grid row.
pub open spec fn row_cells(r: Seq<bool>) -> nat
    decreases r.len(),
{
    if r.len() == 0 {
        0
    } else {
        row_cells(r.drop_last()) + if r.last() {
            1nat
        } else {
            0nat
        }
    }
}

/// The number of `true` entries of a whole grid.
pub open spec fn grid_cells(g: Seq<Seq<bool>>) -> nat
    decreases g.len(),
{
    if g.len() == 0 {
        0
    } else {
        grid_cells(g.drop_last()) + row_cells(g.last())
    }
}

impl View for Block {
    type V = Seq<Seq<bool>>;

    closed spec fn view(&self) -> Seq<Seq<bool>> {
        bool_mat_rows(self.data)
    }
}

impl Block {
    /// The column count of the grid.
    pub closed spec fn width(&self) -> nat {
        bool_mat_width(self.data)
    }

    /// A valid piece: a non-empty rectangular grid with at least one marked
    /// cell, small enough to index with `usize`.
    pub open spec fn wf(&self) -> bool {
        &&& self@.len() >= 1
        &&& self.width() >= 1
        &&& self@.len() * self.width() <= usize::MAX
        &&& forall|i: int| 0 <= i < self@.len() ==> (#[trigger] self@[i]).len() == self.width()
        &&& grid_cells(self@) >= 1
    }

    /// Builds a piece from its cells, given in row-major order.
    pub fn from_cells(nrows: usize, ncols: usize, data: Vec<bool>) -> (b: Block)
        requires
            nrows >= 1,
            ncols >= 1,
            data.len() == nrows * ncols,
            exists|k: int| 0 <= k < data.len() && data[k],
        ensures
            b.wf(),
            b@.len() == nrows,
            b.width() == ncols,
            forall|i: int, j: int|
                0 <= i < nrows && 0 <= j < ncols ==> #[trigger] b@[i][j] == data@[i * ncols + j],
    {
        let ghost d = data@;
        let m = bool_mat_from_rows(nrows, ncols, data);
        let b = Block { data: m };
        proof {
            assert forall|i: int| 0 <= i < nrows implies (#[trigger] b@[i]).len() == ncols by {
                lemma_row_major_bounds(i, 0, nrows as int, ncols as int);
                assert(b@[i] == d.subrange(i * ncols, i * ncols + ncols));
            }
            assert forall|i: int, j: int| 0 <= i < nrows && 0 <= j < ncols implies #[trigger] b@[i][j]
                == d[i * ncols + j] by {
                lemma_row_major_bounds(i, j, nrows as int, ncols as int);
                assert(b@[i] == d.subrange(i * ncols, i * ncols + ncols));
            }
            let k = choose|k: int| 0 <= k < d.len() && d[k];
            let i = k / (ncols as int);
            let j = k % (ncols as int);
            lemma_row_major_decompose(k, nrows as int, ncols as int);
            assert(b@[i][j] == d[i * ncols + j]);
            assert(is_marked(b@, i, j));
            lemma_grid_cells_at_least_one(b@, i, j);
        }
        b
    }

    /// Builds a piece from a textual shape description: one line per row,
    /// `#` for an occupied cell, any other character for an unoccupied one.
    /// Rejected with `DimensionMismatch` when the lines do not all have the
    /// same length, and with `EmptyBlock` when no cell at all is marked.
    pub fn from_str(s: &str) -> (r: Result<Block, BlockError>)
        ensures
            match r {
                Ok(b) => rectangular(parse_grid(s@)) && grid_cells(parse_grid(s@)) >= 1 && b.wf()
                    && b@ == parse_grid(s@),
                Err(BlockError::DimensionMismatch) => !rectangular(parse_grid(s@)),
                Err(BlockError::EmptyBlock) => rectangular(parse_grid(s@)) && grid_cells(
                    parse_grid(s@),
                ) == 0,
            },
    {
        let n = s.unicode_len();
        let mut rows: Vec<Vec<bool>> = Vec::new();
        let mut cur: Vec<bool> = Vec::new();
        let ghost mut done: Seq<Seq<char>> = Seq::empty();
        let ghost mut cur_chars: Seq<char> = Seq::empty();
        let mut i: usize = 0;
        proof {
            assert(s@.skip(0) =~~= s@);
            assert(row_of_chars(Seq::<char>::empty()) =~~= Seq::<bool>::empty());
            assert(glue(Seq::<char>::empty(), text_lines(s@)) =~~= text_lines(s@));
            assert(done + glue(cur_chars, text_lines(s@)) =~~= text_lines(s@));
        }
        while i < n
            invariant
                n == s@.len(),
                i <= n,
                rows@.len() == done.len(),
                forall|k: int| 0 <= k < done.len() ==> (#[trigger] rows@[k])@ == row_of_chars(done[k]),
                cur@ == row_of_chars(cur_chars),
                text_lines(s@) == done + glue(cur_chars, text_lines(s@.skip(i as int))),
            decreases n - i,
        {
            let c = s.get_char(i);
            let ghost tail = s@.skip(i as int);
            let newline_after = if c == '\r' && i + 1 < n {
                s.get_char(i + 1) == '\n'
            } else {
                false
            };
            if c == '\n' || newline_after {
                let step: usize = if c == '\n' {
                    1
                } else {
                    2
                };
                proof {
                    assert(tail[0] == s@[i as int]);
                    if c == '\n' {
                        assert(tail.skip(1) =~~= s@.skip(i + 1));
                        assert(text_lines(tail) == seq![Seq::<char>::empty()] + text_lines(
                            s@.skip(i + step),
                        ));
                    } else {
                        assert(tail[1] == s@[i + 1]);
                        assert(tail.skip(2) =~~= s@.skip(i + 2));
                        assert(text_lines(tail) == seq![Seq::<char>::empty()] + text_lines(
                            s@.skip(i + step),
                        ));
                    }
                    let rest = text_lines(s@.skip(i + step));
                    assert(glue(cur_chars, text_lines(tail)) =~~= seq![cur_chars] + rest);
                    assert(glue(Seq::<char>::empty(), rest) =~~= rest);
                    assert(done.push(cur_chars) + glue(Seq::<char>::empty(), rest) =~~= done + glue(
                        cur_chars,
                        text_lines(tail),
                    ));
                }
                rows.push(cur);
                cur = Vec::new();
                proof {
                    done = done.push(cur_chars);
                    cur_chars = Seq::<char>::empty();
                    assert(row_of_chars(cur_chars) =~~= Seq::<bool>::empty());
                }
                i = i + step;
            } else {
                proof {
                    assert(tail[0] == s@[i as int]);
                    assert(tail.skip(1) =~~= s@.skip(i + 1));
                    let rest = text_lines(s@.skip(i + 1));
                    assert(text_lines(tail) == glue(seq![c], rest));
                    lemma_glue_push(cur_chars, c, rest);
                    assert(cur@.push(c == '#') =~~= row_of_chars(cur_chars.push(c)));
                }
                cur.push(c == '#');
                proof {
                    cur_chars = cur_chars.push(c);
                }
                i = i + 1;
            }
        }
        proof {
            assert(s@.skip(n as int) =~~= Seq::<char>::empty());
            assert(text_lines(Seq::<char>::empty()) =~~= Seq::<Seq<char>>::empty());
        }
        if cur.len() > 0 {
            proof {
                assert(cur_chars.len() > 0);
                assert(glue(cur_chars, Seq::<Seq<char>>::empty()) =~~= seq![cur_chars]);
            }
            rows.push(cur);
            proof {
                done = done.push(cur_chars);
                assert(text_lines(s@) =~~= done);
            }
        } else {
            proof {
                assert(cur_chars.len() == 0);
                assert(glue(cur_chars, Seq::<Seq<char>>::empty()) =~~= Seq::<Seq<char>>::empty());
                assert(text_lines(s@) =~~= done);
            }
        }
        let ghost g = parse_grid(s@);
        proof {
            assert(g.len() == rows@.len());
            assert forall|k: int| 0 <= k < rows@.len() implies g[k] == (#[trigger] rows@[k])@ by {
                assert(g[k] == row_of_chars(done[k]));
            }
        }
        if rows.len() == 0 {
            proof {
                assert(g =~~= Seq::<Seq<bool>>::empty());
            }
            return Err(BlockError::EmptyBlock);
        }
        let nrows = rows.len();
        let w0 = rows[0].len();
        let mut k: usize = 1;
        while k < nrows
            invariant
                g == parse_grid(s@),
                nrows == rows@.len(),
                g.len() == rows@.len(),
                forall|t: int| 0 <= t < rows@.len() ==> g[t] == (#[trigger] rows@[t])@,
                w0 == rows@[0]@.len(),
                1 <= k <= nrows,
                forall|t: int| 0 <= t < k ==> (#[trigger] rows@[t])@.len() == w0,
            decreases nrows - k,
        {
            if rows[k].len() != w0 {
                proof {
                    assert(g[k as int] == rows@[k as int]@);
                    assert(g[0] == rows@[0]@);
                    assert(g[k as int].len() != g[0].len());
                    assert(!rectangular(g));
                }
                return Err(BlockError::DimensionMismatch);
            }
            k = k + 1;
        }
        proof {
            assert forall|x: int, y: int| 0 <= x < g.len() && 0 <= y < g.len() implies (
            #[trigger] g[x]).len() == (#[trigger] g[y]).len() by {
                assert(g[x] == rows@[x]@);
                assert(g[y] == rows@[y]@);
            }
            assert(rectangular(g));
        }
        let mut data: Vec<bool> = Vec::new();
        let mut a: usize = 0;
        proof {
            assert(0 * w0 == 0) by (nonlinear_arith);
        }
        while a < nrows
            invariant
                g == parse_grid(s@),
                nrows == rows@.len(),
                g.len() == rows@.len(),
                forall|t: int| 0 <= t < rows@.len() ==> g[t] == (#[trigger] rows@[t])@,
                forall|t: int| 0 <= t < rows@.len() ==> (#[trigger] rows@[t])@.len() == w0,
                a <= nrows,
                data@.len() == a * w0,
                forall|u: int|
                    0 <= u < data@.len() ==> #[trigger] data@[u] == g[u / (w0 as int)][u % (
                    w0 as int)],
            decreases nrows - a,
        {
            let mut b: usize = 0;
            while b < w0
                invariant
                    nrows == rows@.len(),
                    g.len() == rows@.len(),
                    forall|t: int| 0 <= t < rows@.len() ==> g[t] == (#[trigger] rows@[t])@,
                    forall|t: int| 0 <= t < rows@.len() ==> (#[trigger] rows@[t])@.len() == w0,
                    a < nrows,
                    b <= w0,
                    data@.len() == a * w0 + b,
                    forall|u: int|
                        0 <= u < data@.len() ==> #[trigger] data@[u] == g[u / (w0 as int)][u % (
                        w0 as int)],
                decreases w0 - b,
            {
                proof {
                    vstd::arithmetic::div_mod::lemma_fundamental_div_mod_converse(
                        a * w0 + b,
                        w0 as int,
                        a as int,
                        b as int,
                    );
                }
                let row = &rows[a];
                data.push(row[b]);
                b = b + 1;
            }
            proof {
                assert(a * w0 + w0 == (a + 1) * w0) by (nonlinear_arith);
            }
            a = a + 1;
        }
        let mut found = false;
        let mut t: usize = 0;
        while t < data.len()
            invariant
                t <= data@.len(),
                found == exists|u: int| 0 <= u < t && data@[u],
            decreases data@.len() - t,
        {
            if data[t] {
                found = true;
            }
            t = t + 1;
        }
        if !found {
            proof {
                if grid_cells(g) >= 1 {
                    let (mi, mj) = lemma_grid_cells_exists_marked(g);
                    let u = mi * w0 + mj;
                    assert(0 <= u < nrows * w0 && u == w0 * mi + mj) by (nonlinear_arith)
                        requires
                            0 <= mi < nrows,
                            0 <= mj < w0,
                            u == mi * (w0 as int) + mj,
                    ;
                    vstd::arithmetic::div_mod::lemma_fundamental_div_mod_converse(
                        u,
                        w0 as int,
                        mi,
                        mj,
                    );
                    assert(data@[u]);
                    assert(false);
                }
            }
            return Err(BlockError::EmptyBlock);
        }
        proof {
            assert(data@.len() > 0);
            assert(w0 >= 1) by {
                if w0 == 0 {
                    assert(nrows * 0 == 0) by (nonlinear_arith);
                }
            }
        }
        let b = Block::from_cells(nrows, w0, data);
        proof {
            assert forall|x: int, y: int| 0 <= x < nrows && 0 <= y < w0 implies #[trigger] b@[x][y]
                == g[x][y] by {
                assert(x * w0 + y < nrows * w0 && x * w0 + y == w0 * x + y) by (nonlinear_arith)
                    requires
                        0 <= x < nrows,
                        0 <= y < w0,
                ;
                vstd::arithmetic::div_mod::lemma_fundamental_div_mod_converse(
                    x * w0 + y,
                    w0 as int,
                    x,
                    y,
                );
            }
            assert(b@ =~~= g);
        }
        Ok(b)
    }


    /// The canonical set of standard pieces, in catalog order. Building it
    /// never fails.
    pub fn default_block_set() -> (v: Vec<Block>)
        ensures
            v@.len() == standard_catalog().len(),
            forall|k: int|
                0 <= k < v@.len() ==> (#[trigger] v@[k]).wf() && v@[k]@ == standard_catalog()[k],
    {
        let d: Vec<bool> = vec![true];
        proof {
            assert(d@[0]);
        }
        let b01 = Block::from_cells(1, 1, d);
        proof {
            assert(b01@ =~~= standard_catalog()[0]);
        }
        let d: Vec<bool> = vec![true, true];
        proof {
            assert(d@[0]);
        }
        let b02 = Block::from_cells(1, 2, d);
        proof {
            assert(b02@ =~~= standard_catalog()[1]);
        }
        let d: Vec<bool> = vec![true, true, true];
        proof {
            assert(d@[0]);
        }
        let b03 = Block::from_cells(1, 3, d);
        proof {
            assert(b03@ =~~= standard_catalog()[2]);
        }
        let d: Vec<bool> = vec![true, false, true, true];
        proof {
            assert(d@[0]);
        }
        let b04 = Block::from_cells(2, 2, d);
        proof {
            assert(b04@ =~~= standard_catalog()[3]);
        }
        let d: Vec<bool> = vec![true, true, true, true];
        proof {
            assert(d@[0]);
        }
        let b05 = Block::from_cells(1, 4, d);
        proof {
            assert(b05@ =~~= standard_catalog()[4]);
        }
        let d: Vec<bool> = vec![true, false, false, true, true, true];
        proof {
            assert(d@[0]);
        }
        let b06 = Block::from_cells(2, 3, d);
        proof {
            assert(b06@ =~~= standard_catalog()[5]);
        }
        let d: Vec<bool> = vec![false, true, false, true, true, true];
        proof {
            assert(d@[1]);
        }
        let b07 = Block::from_cells(2, 3, d);
        proof {
            assert(b07@ =~~= standard_catalog()[6]);
        }
        let d: Vec<bool> = vec![true, true, true, true];
        proof {
            assert(d@[0]);
        }
        let b08 = Block::from_cells(2, 2, d);
        proof {
            assert(b08@ =~~= standard_catalog()[7]);
        }
        let d: Vec<bool> = vec![true, true, false, false, true, true];
        proof {
            assert(d@[0]);
        }
        let b09 = Block::from_cells(2, 3, d);
        proof {
            assert(b09@ =~~= standard_catalog()[8]);
        }
        let d: Vec<bool> = vec![true, true, true, true, true];
        proof {
            assert(d@[0]);
        }
        let b10 = Block::from_cells(1, 5, d);
        proof {
            assert(b10@ =~~= standard_catalog()[9]);
        }
        let d: Vec<bool> = vec![true, false, false, false, true, true, true, true];
        proof {
            assert(d@[0]);
        }
        let b11 = Block::from_cells(2, 4, d);
        proof {
            assert(b11@ =~~= standard_catalog()[10]);
        }
        let d: Vec<bool> = vec![true, true, false, false, false, true, true, true];
        proof {
            assert(d@[0]);
        }
        let b12 = Block::from_cells(2, 4, d);
        proof {
            assert(b12@ =~~= standard_catalog()[11]);
        }
        let d: Vec<bool> = vec![true, true, false, true, true, true];
        proof {
            assert(d@[0]);
        }
        let b13 = Block::from_cells(2, 3, d);
        proof {
            assert(b13@ =~~= standard_catalog()[12]);
        }
        let d: Vec<bool> = vec![true, false, true, true, true, true];
        proof {
            assert(d@[0]);
        }
        let b14 = Block::from_cells(2, 3, d);
        proof {
            assert(b14@ =~~= standard_catalog()[13]);
        }
        let d: Vec<bool> = vec![false, false, true, false, true, true, true, true];
        proof {
            assert(d@[2]);
        }
        let b15 = Block::from_cells(2, 4, d);
        proof {
            assert(b15@ =~~= standard_catalog()[14]);
        }
        let d: Vec<bool> = vec![true, false, false, true, true, true, true, false, false];
        proof {
            assert(d@[0]);
        }
        let b16 = Block::from_cells(3, 3, d);
        proof {
            assert(b16@ =~~= standard_catalog()[15]);
        }
        let d: Vec<bool> = vec![true, false, false, true, false, false, true, true, true];
        proof {
            assert(d@[0]);
        }
        let b17 = Block::from_cells(3, 3, d);
        proof {
            assert(b17@ =~~= standard_catalog()[16]);
        }
        let d: Vec<bool> = vec![true, false, false, true, true, false, false, true, true];
        proof {
            assert(d@[0]);
        }
        let b18 = Block::from_cells(3, 3, d);
        proof {
            assert(b18@ =~~= standard_catalog()[17]);
        }
        let d: Vec<bool> = vec![true, false, false, true, true, true, false, false, true];
        proof {
            assert(d@[0]);
        }
        let b19 = Block::from_cells(3, 3, d);
        proof {
            assert(b19@ =~~= standard_catalog()[18]);
        }
        let d: Vec<bool> = vec![true, false, false, true, true, true, false, true, false];
        proof {
            assert(d@[0]);
        }
        let b20 = Block::from_cells(3, 3, d);
        proof {
            assert(b20@ =~~= standard_catalog()[19]);
        }
        let d: Vec<bool> = vec![false, true, false, true, true, true, false, true, false];
        proof {
            assert(d@[1]);
        }
        let b21 = Block::from_cells(3, 3, d);
        proof {
            assert(b21@ =~~= standard_catalog()[20]);
        }
        let v: Vec<Block> = vec![b01, b02, b03, b04, b05, b06, b07, b08, b09, b10, b11, b12, b13, b14, b15, b16, b17, b18, b19, b20, b21];
        v
    }


    /// The shape as text: one line per row, `#` for a marked cell, `_` for an
    /// unmarked one, each row followed by a line feed.
    pub fn printable_string(&self) -> (s: String)
        requires
            self.wf(),
        ensures
            s@ == printable_of(self@),
    {
        proof {
            reveal_strlit("#");
            reveal_strlit("_");
            reveal_strlit("\n");
        }
        let h = self.nrows();
        let w = self.ncols();
        let mut out = String::new();
        let mut i: usize = 0;
        proof {
            assert(printable_of(self@.take(0)) =~~= Seq::<char>::empty());
        }
        while i < h
            invariant
                self.wf(),
                h == self@.len(),
                w == self.width(),
                i <= h,
                out@ == printable_of(self@.take(i as int)),
            decreases h - i,
        {
            let mut j: usize = 0;
            proof {
                assert(printable_row(self@[i as int].take(0)) =~~= Seq::<char>::empty());
                assert(out@ + printable_row(self@[i as int].take(0)) =~~= out@);
            }
            while j < w
                invariant
                    self.wf(),
                    h == self@.len(),
                    w == self.width(),
                    i < h,
                    j <= w,
                    out@ == printable_of(self@.take(i as int)) + printable_row(
                        self@[i as int].take(j as int),
                    ),
                decreases w - j,
            {
                let ghost r = self@[i as int];
                proof {
                    reveal_strlit("#");
                    reveal_strlit("_");
                    assert(r.take(j + 1).drop_last() =~~= r.take(j as int));
                    assert(r.take(j + 1).last() == r[j as int]);
                    assert(printable_row(r.take(j + 1)) =~~= printable_row(r.take(j as int)).push(
                        if r[j as int] {
                            '#'
                        } else {
                            '_'
                        },
                    ));
                }
                if self.cell_at_row_col(i, j) {
                    out.append("#");
                } else {
                    out.append("_");
                }
                proof {
                    assert(out@ =~~= printable_of(self@.take(i as int)) + printable_row(
                        r.take(j + 1),
                    ));
                }
                j = j + 1;
            }
            out.append("\n");
            proof {
                reveal_strlit("\n");
                assert(self@[i as int].take(w as int) =~~= self@[i as int]);
                assert(self@.take(i + 1).drop_last() =~~= self@.take(i as int));
                assert(self@.take(i + 1).last() == self@[i as int]);
                assert(out@ =~~= printable_of(self@.take(i + 1)));
            }
            i = i + 1;
        }
        proof {
            assert(self@.take(h as int) =~~= self@);
        }
        out
    }

    /// The number of grid rows.
    pub fn nrows(&self) -> (r: usize)
        ensures
            r == self@.len(),
    {
        bool_mat_nrows(&self.data)
    }

    /// The number of grid columns.
    pub fn ncols(&self) -> (r: usize)
        ensures
            r == self.width(),
            forall|i: int| 0 <= i < self@.len() ==> (#[trigger] self@[i]).len() == r,
    {
        bool_mat_ncols(&self.data)
    }

    /// Whether the grid cell at the given position is part of the shape.
    /// Out-of-range access is a caller error, ruled out here.
    pub fn cell_at_row_col(&self, row: usize, col: usize) -> (b: bool)
        requires
            row < self@.len(),
            col < self.width(),
        ensures
            b == self@[row as int][col as int],
    {
        bool_mat_get(&self.data, row, col)
    }

    /// A new piece with rows and columns swapped (reflection across the main
    /// diagonal).
    pub fn transpose(&self) -> (t: Block)
        requires
            self.wf(),
        ensures
            t.wf(),
            t@ == transpose_grid(self@, self.width()),
            t@.len() == self.width(),
            t.width() == self@.len(),
    {
        let m = bool_mat_transpose(&self.data);
        let t = Block { data: m };
        proof {
            assert(t@ =~~= transpose_grid(self@, self.width()));
            let (i, j) = lemma_grid_cells_exists_marked(self@);
            assert(is_marked(t@, j, i));
            lemma_grid_cells_at_least_one(t@, j, i);
        }
        t
    }
}

impl Block {
    /// The number of marked cells of the shape.
    pub fn cells(&self) -> (n: usize)
        requires
            self.wf(),
        ensures
            n == grid_cells(self@),
    {
        let h = self.nrows();
        let w = self.ncols();
        let mut n: usize = 0;
        let mut i: usize = 0;
        proof {
            assert(self@.take(0) =~~= Seq::<Seq<bool>>::empty());
        }
        while i < h
            invariant
                self.wf(),
                h == self@.len(),
                w == self.width(),
                i <= h,
                n == grid_cells(self@.take(i as int)),
                n <= i * w,
            decreases h - i,
        {
            let mut j: usize = 0;
            proof {
                assert(self@[i as int].take(0) =~~= Seq::<bool>::empty());
            }
            while j < w
                invariant
                    self.wf(),
                    h == self@.len(),
                    w == self.width(),
                    i < h,
                    j <= w,
                    n == grid_cells(self@.take(i as int)) + row_cells(self@[i as int].take(j as int)),
                    n <= i * w + j,
                decreases w - j,
            {
                proof {
                    assert(i * w + j < h * w) by (nonlinear_arith)
                        requires
                            0 <= i < h,
                            0 <= j < w,
                    ;
                    let r = self@[i as int];
                    assert(r.take(j + 1).drop_last() =~~= r.take(j as int));
                    assert(r.take(j + 1).last() == r[j as int]);
                }
                if self.cell_at_row_col(i, j) {
                    n = n + 1;
                }
                j = j + 1;
            }
            proof {
                assert(self@[i as int].take(w as int) =~~= self@[i as int]);
                assert(self@.take(i + 1).drop_last() =~~= self@.take(i as int));
                assert(self@.take(i + 1).last() == self@[i as int]);
                assert(i * w + w == (i + 1) * w) by (nonlinear_arith);
            }
            i = i + 1;
        }
        proof {
            assert(self@.take(h as int) =~~= self@);
        }
        n
    }

    /// A new piece rotated a quarter turn clockwise: the transpose with each
    /// row reversed.
    pub fn rotate_90(&self) -> (r: Block)
        requires
            self.wf(),
        ensures
            r.wf(),
            r@ == rotate_grid(self@, self.width()),
            r@.len() == self.width(),
            r.width() == self@.len(),
    {
        let t = bool_mat_transpose(&self.data);
        let th = bool_mat_nrows(&t);
        let tw = bool_mat_ncols(&t);
        proof {
            assert(th * tw == tw * th) by (nonlinear_arith);
        }
        let mut flat: Vec<bool> = Vec::new();
        let mut a: usize = 0;
        while a < th
            invariant
                th == bool_mat_rows(t).len(),
                tw == bool_mat_width(t),
                th == self.width(),
                tw == self@.len(),
                forall|i: int|
                    0 <= i < bool_mat_rows(t).len() ==> (#[trigger] bool_mat_rows(t)[i]).len()
                        == tw,
                th * tw <= usize::MAX,
                a <= th,
                flat@.len() == a * tw,
                forall|k: int|
                    0 <= k < flat@.len() ==> #[trigger] flat@[k] == bool_mat_rows(t)[k / (
                    tw as int)][tw - 1 - k % (tw as int)],
            decreases th - a,
        {
            let mut b: usize = 0;
            while b < tw
                invariant
                    th == bool_mat_rows(t).len(),
                    tw == bool_mat_width(t),
                    forall|i: int|
                        0 <= i < bool_mat_rows(t).len() ==> (#[trigger] bool_mat_rows(t)[i]).len()
                            == tw,
                    th * tw <= usize::MAX,
                    a < th,
                    b <= tw,
                    flat@.len() == a * tw + b,
                    forall|k: int|
                        0 <= k < flat@.len() ==> #[trigger] flat@[k] == bool_mat_rows(t)[k / (
                        tw as int)][tw - 1 - k % (tw as int)],
                decreases tw - b,
            {
                proof {
                    assert(a * tw + b < th * tw && a * tw + tw <= th * tw) by (nonlinear_arith)
                        requires
                            0 <= a < th,
                            0 <= b < tw,
                    ;
                    vstd::arithmetic::div_mod::lemma_fundamental_div_mod_converse(
                        a * tw + b,
                        tw as int,
                        a as int,
                        b as int,
                    );
                }
                let v = bool_mat_get(&t, a, tw - 1 - b);
                flat.push(v);
                b = b + 1;
            }
            proof {
                assert(a * tw + tw == (a + 1) * tw) by (nonlinear_arith);
            }
            a = a + 1;
        }
        proof {
            let ghost g = self@;
            let ghost h = g.len() as int;
            let ghost w = self.width() as int;
            let (mi, mj) = lemma_grid_cells_exists_marked(g);
            let k = mj * tw + (tw - 1 - mi);
            assert(0 <= k < th * tw && k == tw * mj + (tw - 1 - mi)) by (nonlinear_arith)
                requires
                    0 <= mj < th,
                    0 <= mi < tw,
                    k == mj * (tw as int) + (tw - 1 - mi),
            ;
            vstd::arithmetic::div_mod::lemma_fundamental_div_mod_converse(
                k,
                tw as int,
                mj as int,
                tw - 1 - mi,
            );
            assert(flat@[k] == bool_mat_rows(t)[mj][mi]);
            assert(flat@[k]);
        }
        let r = Block::from_cells(th, tw, flat);
        proof {
            assert forall|i: int, j: int| 0 <= i < th && 0 <= j < tw implies #[trigger] r@[i][j]
                == self@[tw - 1 - j][i] by {
                assert(i * tw + j < th * tw && i * tw + j == tw * i + j) by (nonlinear_arith)
                    requires
                        0 <= i < th,
                        0 <= j < tw,
                ;
                vstd::arithmetic::div_mod::lemma_fundamental_div_mod_converse(
                    i * tw + j,
                    tw as int,
                    i,
                    j,
                );
                assert(r@[i][j] == bool_mat_rows(t)[i][tw - 1 - j]);
            }
            assert(r@ =~~= rotate_grid(self@, self.width()));
        }
        r
    }
}

/// Law: four clockwise quarter turns of a rectangular grid give back the
/// grid, and so the fourth iterated rotation is the identity orientation.
/// `w` is the grid's column count.
pub proof fn lemma_rotate_four_identity(g: Seq<Seq<bool>>, w: nat)
    requires
        g.len() >= 1,
        w >= 1,
        forall|i: int| 0 <= i < g.len() ==> (#[trigger] g[i]).len() == w,
    ensures
        rotate_grid(rotate_grid(rotate_grid(rotate_grid(g, w), g.len() as nat), w), g.len() as nat)
            == g,
        rotations_of(g, w, 4nat) == (g, w),
{
    let h = g.len() as nat;
    let r1 = rotate_grid(g, w);
    let r2 = rotate_grid(r1, h);
    let r3 = rotate_grid(r2, w);
    let r4 = rotate_grid(r3, h);
    assert forall|i: int, j: int| 0 <= i < h && 0 <= j < w implies #[trigger] r4[i][j] == g[i][j] by {
        assert(r4[i][j] == r3[w - 1 - j][i]);
        assert(r3[w - 1 - j][i] == r2[h - 1 - i][w - 1 - j]);
        assert(r2[h - 1 - i][w - 1 - j] == r1[j][h - 1 - i]);
        assert(r1[j][h - 1 - i] == g[i][j]);
    }
    assert(r4 =~~= g);
    let p1 = rotations_of(g, w, 1nat);
    let p2 = rotations_of(g, w, 2nat);
    let p3 = rotations_of(g, w, 3nat);
    let p4 = rotations_of(g, w, 4nat);
    assert(rotations_of(g, w, 0nat) == (g, w));
    assert(p1 == (r1, h));
    assert(p2 == (r2, w));
    assert(p3 == (r3, h));
    assert(p4 == (r4, w));
}


/// The grids of a sequence of pieces.
pub open spec fn grids_of(s: Seq<Block>) -> Seq<Seq<Seq<bool>>> {
    s.map_values(|b: Block| b@)
}

/// One row of the printable form of a grid: `#` for a marked cell, `_` for an
/// unmarked one.
pub open spec fn printable_row(r: Seq<bool>) -> Seq<char> {
    r.map_values(
        |b: bool|
            if b {
                '#'
            } else {
                '_'
            },
    )
}

/// The printable form of a grid: each row followed by a line feed.
pub open spec fn printable_of(g: Seq<Seq<bool>>) -> Seq<char>
    decreases g.len(),
{
    if g.len() == 0 {
        Seq::empty()
    } else {
        printable_of(g.drop_last()) + printable_row(g.last()).push('\n')
    }
}

/// The standard piece set: the grids of all free polyominoes of one through
/// five cells, in catalog order.
pub open spec fn standard_catalog() -> Seq<Seq<Seq<bool>>> {
    seq![
        seq![seq![true]],
        seq![seq![true, true]],
        seq![seq![true, true, true]],
        seq![seq![true, false], seq![true, true]],
        seq![seq![true, true, true, true]],
        seq![seq![true, false, false], seq![true, true, true]],
        seq![seq![false, true, false], seq![true, true, true]],
        seq![seq![true, true], seq![true, true]],
        seq![seq![true, true, false], seq![false, true, true]],
        seq![seq![true, true, true, true, true]],
        seq![seq![true, false, false, false], seq![true, true, true, true]],
        seq![seq![true, true, false, false], seq![false, true, true, true]],
        seq![seq![true, true, false], seq![true, true, true]],
        seq![seq![true, false, true], seq![true, true, true]],
        seq![seq![false, false, true, false], seq![true, true, true, true]],
        seq![seq![true, false, false], seq![true, true, true], seq![true, false, false]],
        seq![seq![true, false, false], seq![true, false, false], seq![true, true, true]],
        seq![seq![true, false, false], seq![true, true, false], seq![false, true, true]],
        seq![seq![true, false, false], seq![true, true, true], seq![false, false, true]],
        seq![seq![true, false, false], seq![true, true, true], seq![false, true, false]],
        seq![seq![false, true, false], seq![true, true, true], seq![false, true, false]],
    ]
}

/// Whether the grid has a marked cell at the given position.
pub open spec fn is_marked(g: Seq<Seq<bool>>, i: int, j: int) -> bool {
    0 <= i < g.len() && 0 <= j < g[i].len() && g[i][j]
}

/// The lines of a shape description: split at each line feed, also consuming
/// a carriage return that immediately precedes one; a trailing line end opens
/// no further line.
pub open spec fn text_lines(s: Seq<char>) -> Seq<Seq<char>>
    decreases s.len(),
{
    if s.len() == 0 {
        Seq::empty()
    } else if s[0] == '\n' {
        seq![Seq::<char>::empty()] + text_lines(s.skip(1))
    } else if s[0] == '\r' && s.len() >= 2 && s[1] == '\n' {
        seq![Seq::<char>::empty()] + text_lines(s.skip(2))
    } else {
        let rest = text_lines(s.skip(1));
        if rest.len() == 0 {
            seq![seq![s[0]]]
        } else {
            rest.update(0, seq![s[0]] + rest[0])
        }
    }
}

/// One grid row read from one line of a shape description: `#` marks an
/// occupied cell, any other character an unoccupied one.
pub open spec fn row_of_chars(line: Seq<char>) -> Seq<bool> {
    line.map_values(|c: char| c == '#')
}

/// The grid described by a shape text.
pub open spec fn parse_grid(s: Seq<char>) -> Seq<Seq<bool>> {
    text_lines(s).map_values(|line: Seq<char>| row_of_chars(line))
}

/// All rows of the grid have the same length.
pub open spec fn rectangular(g: Seq<Seq<bool>>) -> bool {
    forall|i: int, j: int|
        0 <= i < g.len() && 0 <= j < g.len() ==> (#[trigger] g[i]).len() == (#[trigger] g[j]).len()
}

/// An unfinished line glued onto the lines still to come: it extends the
/// first of them, or stands alone if there are none and it is not empty.
spec fn glue(cur: Seq<char>, rest: Seq<Seq<char>>) -> Seq<Seq<char>> {
    if rest.len() == 0 {
        if cur.len() == 0 {
            Seq::empty()
        } else {
            seq![cur]
        }
    } else {
        rest.update(0, cur + rest[0])
    }
}

/// Gluing one more character onto the unfinished line.
proof fn lemma_glue_push(cur: Seq<char>, c: char, rest: Seq<Seq<char>>)
    ensures
        glue(cur, glue(seq![c], rest)) == glue(cur.push(c), rest),
{
    if rest.len() == 0 {
        assert(glue(cur, seq![seq![c]]) =~~= seq![cur.push(c)]);
        assert(glue(cur.push(c), rest) =~~= seq![cur.push(c)]);
    } else {
        assert(cur + (seq![c] + rest[0]) =~~= cur.push(c) + rest[0]);
        assert(glue(cur, glue(seq![c], rest)) =~~= glue(cur.push(c), rest));
    }
}

/// The grid reflected across its main diagonal. The original column count
/// must be passed in, since a grid with no rows does not determine it.
pub open spec fn transpose_grid(g: Seq<Seq<bool>>, w: nat) -> Seq<Seq<bool>> {
    Seq::new(w, |i: int| Seq::new(g.len(), |j: int| g[j][i]))
}

/// The grid rotated a quarter turn clockwise: the transpose with each row
/// reversed. `w` is the grid's column count.
pub open spec fn rotate_grid(g: Seq<Seq<bool>>, w: nat) -> Seq<Seq<bool>> {
    Seq::new(w, |i: int| Seq::new(g.len(), |j: int| g[g.len() - 1 - j][i]))
}

/// A well-formed grid has a marked cell exactly where its count is positive.
proof fn lemma_row_cells_at_least_one(r: Seq<bool>, j: int)
    requires
        0 <= j < r.len(),
        r[j],
    ensures
        row_cells(r) >= 1,
    decreases r.len(),
{
    if j == r.len() - 1 {
    } else {
        lemma_row_cells_at_least_one(r.drop_last(), j);
    }
}

/// A grid with a marked cell has a positive cell count.
pub proof fn lemma_grid_cells_at_least_one(g: Seq<Seq<bool>>, i: int, j: int)
    requires
        is_marked(g, i, j),
    ensures
        grid_cells(g) >= 1,
    decreases g.len(),
{
    if i == g.len() - 1 {
        lemma_row_cells_at_least_one(g.last(), j);
    } else {
        lemma_grid_cells_at_least_one(g.drop_last(), i, j);
    }
}

/// A row with a positive count has a marked entry.
proof fn lemma_row_cells_exists_marked(r: Seq<bool>) -> (j: int)
    requires
        row_cells(r) >= 1,
    ensures
        0 <= j < r.len() && r[j],
    decreases r.len(),
{
    if r.last() {
        r.len() - 1
    } else {
        lemma_row_cells_exists_marked(r.drop_last())
    }
}

/// A grid with a positive count has a marked cell.
pub proof fn lemma_grid_cells_exists_marked(g: Seq<Seq<bool>>) -> (p: (int, int))
    requires
        grid_cells(g) >= 1,
    ensures
        is_marked(g, p.0, p.1),
    decreases g.len(),
{
    if row_cells(g.last()) >= 1 {
        let j = lemma_row_cells_exists_marked(g.last());
        (g.len() - 1, j)
    } else {
        lemma_grid_cells_exists_marked(g.drop_last())
    }
}

/// Row-major index arithmetic: the flat index of an in-range cell is in range.
proof fn lemma_row_major_bounds(i: int, j: int, nrows: int, ncols: int)
    requires
        0 <= i < nrows,
        0 <= j < ncols,
    ensures
        0 <= i * ncols,
        i * ncols + ncols <= nrows * ncols,
        i * ncols + j < i * ncols + ncols,
{
    assert(0 <= i * ncols && (i + 1) * ncols <= nrows * ncols) by (nonlinear_arith)
        requires
            0 <= i < nrows,
            0 < ncols,
    ;
    assert((i + 1) * ncols == i * ncols + ncols) by (nonlinear_arith);
}

/// Row-major index arithmetic: a flat index decomposes into row and column.
proof fn lemma_row_major_decompose(k: int, nrows: int, ncols: int)
    requires
        0 <= k < nrows * ncols,
        0 < ncols,
    ensures
        0 <= k / ncols < nrows,
        0 <= k % ncols < ncols,
        (k / ncols) * ncols + k % ncols == k,
{
    vstd::arithmetic::div_mod::lemma_fundamental_div_mod(k, ncols);
    assert((k / ncols) * ncols == ncols * (k / ncols)) by (nonlinear_arith);
    assert(k / ncols < nrows) by (nonlinear_arith)
        requires
            0 <= k < nrows * ncols,
            0 < ncols,
            ncols * (k / ncols) + k % ncols == k,
            0 <= k % ncols < ncols,
    ;
}

impl Clone for Block {
    /// The copy has the same grid.
    fn clone(&self) -> (r: Self)
        ensures
            r@ == self@,
            r.width() == self.width(),
    {
        Block { data: bool_mat_clone(&self.data) }
    }
}

impl PartialEq for Block {
    /// Two pieces are equal when their grids have the same shape and cells.
    fn eq(&self, other: &Block) -> (r: bool) {
        bool_mat_eq(&self.data, &other.data)
    }
}

impl vstd::std_specs::cmp::PartialEqSpecImpl for Block {
    open spec fn obeys_eq_spec() -> bool {
        true
    }

    open spec fn eq_spec(&self, other: &Block) -> bool {
        self@ =~~= other@ && self.width() == other.width()
    }
}

/// The given number of clockwise quarter turns applied to a grid; the pair
/// carries the grid together with its column count.
pub open spec fn rotations_of(g: Seq<Seq<bool>>, w: nat, n: nat) -> (Seq<Seq<bool>>, nat)
    decreases n,
{
    if n == 0 {
        (g, w)
    } else {
        let p = rotations_of(g, w, (n - 1) as nat);
        (rotate_grid(p.0, p.1), p.0.len() as nat)
    }
}

/// The effective grid of a piece under a search orientation: transposed
/// first when the flag is nonzero, then rotated by the rotation count (a
/// count outside one through three means no rotation).
pub open spec fn oriented_grid(g: Seq<Seq<bool>>, w: nat, rotation: int, transposition: int) -> (
    Seq<Seq<bool>>,
    nat,
) {
    let base = if transposition == 0 {
        (g, w)
    } else {
        (transpose_grid(g, w), g.len() as nat)
    };
    let n: nat = if rotation == 1 {
        1nat
    } else if rotation == 2 {
        2nat
    } else if rotation == 3 {
        3nat
    } else {
        0nat
    };
    rotations_of(base.0, base.1, n)
}

} // verus!
