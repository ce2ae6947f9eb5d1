//! The shared board: a rectangular grid of cell ownership markers, the
//! placement-legality rule engine, and the exhaustive placement search.
//!
//! A placement of a piece anchored at `(row, col)` is legal when three checks
//! all come out clean, each run over the marked piece cells against the
//! pre-placement board: no marked cell may fall on a non-free board cell (a
//! marked cell falling outside the board also counts as overlap); no marked
//! cell may have a 4-directional neighbour owned by the placing player; and
//! the piece must claim a free physical board corner on the player's first
//! move, or touch a cell owned by the player diagonally on any later move.

use vstd::prelude::*;

use crate::block::Block;
use crate::block::is_marked;

use crate::matrix::CellMat;
use crate::matrix::cell_mat_from_element;
use crate::matrix::cell_mat_get;
use crate::matrix::cell_mat_ncols;
use crate::matrix::cell_mat_nrows;
use crate::matrix::cell_mat_rows;
use crate::matrix::cell_mat_set;
use crate::matrix::cell_mat_width;
use crate::matrix::cell_mat_clone;

verus! {

/// The marker of an unowned board cell.
pub const FREE_CELL: u8 = 0;

/// The shared grid of cell ownership markers.
#[derive(Debug)]
pub struct Board {
    data: CellMat,
}

/// The outcome of the three legality checks, each `None` while unevaluated:
/// whether the piece overlaps a non-free cell, whether it edge-touches a cell
/// of its own colour, and whether it misses the required corner contact.
/// Evaluation short-circuits: a violated check leaves the later ones `None`.
#[derive(Debug, Clone, Copy)]
pub struct PlacementRule {
    pub overlapping: Option<bool>,
    pub own_block_touching_sides: Option<bool>,
    pub no_corner: Option<bool>,
}

/// The owner marker of a board cell; out-of-range coordinates read as free.
pub open spec fn cell_at(g: Seq<Seq<u8>>, r: int, c: int) -> u8 {
    if 0 <= r < g.len() && 0 <= c < g[r].len() {
        g[r][c]
    } else {
        FREE_CELL
    }
}

/// In range and unowned.
pub open spec fn free_at(g: Seq<Seq<u8>>, r: int, c: int) -> bool {
    0 <= r < g.len() && 0 <= c < g[r].len() && g[r][c] == FREE_CELL
}

/// In range and carrying the given marker.
pub open spec fn owned_at(g: Seq<Seq<u8>>, r: int, c: int, p: u8) -> bool {
    0 <= r < g.len() && 0 <= c < g[r].len() && g[r][c] == p
}

/// Every board cell is unowned.
pub open spec fn all_free(g: Seq<Seq<u8>>) -> bool {
    forall|r: int, c: int| 0 <= r < g.len() && 0 <= c < g[r].len() ==> free_at(g, r, c)
}

/// Some marked piece cell falls on a board cell that is not free (which
/// includes falling outside the board).
pub open spec fn overlaps(g: Seq<Seq<u8>>, row: int, col: int, b: Seq<Seq<bool>>) -> bool {
    exists|i: int, j: int| #[trigger] is_marked(b, i, j) && !free_at(g, row + i, col + j)
}

/// Some marked piece cell has a 4-directional neighbour owned by the player.
pub open spec fn touches_own_side(
    g: Seq<Seq<u8>>,
    row: int,
    col: int,
    b: Seq<Seq<bool>>,
    p: u8,
) -> bool {
    exists|i: int, j: int|
        #[trigger] is_marked(b, i, j) && (owned_at(g, row + i - 1, col + j, p) || owned_at(
            g,
            row + i + 1,
            col + j,
            p,
        ) || owned_at(g, row + i, col + j - 1, p) || owned_at(g, row + i, col + j + 1, p))
}

/// Some marked piece cell has a diagonal neighbour owned by the player.
pub open spec fn touches_own_corner(
    g: Seq<Seq<u8>>,
    row: int,
    col: int,
    b: Seq<Seq<bool>>,
    p: u8,
) -> bool {
    exists|i: int, j: int|
        #[trigger] is_marked(b, i, j) && (owned_at(g, row + i - 1, col + j - 1, p) || owned_at(
            g,
            row + i + 1,
            col + j + 1,
            p,
        ) || owned_at(g, row + i + 1, col + j - 1, p) || owned_at(g, row + i - 1, col + j + 1, p))
}

/// One of the four physical corner cells of the board.
pub open spec fn is_board_corner(g: Seq<Seq<u8>>, r: int, c: int) -> bool {
    &&& g.len() >= 1
    &&& g[0].len() >= 1
    &&& (r == 0 || r == g.len() - 1)
    &&& (c == 0 || c == g[0].len() - 1)
}

/// Some free physical board corner is covered by a marked piece cell.
pub open spec fn covers_free_corner(g: Seq<Seq<u8>>, row: int, col: int, b: Seq<Seq<bool>>) -> bool {
    exists|r: int, c: int|
        #[trigger] is_board_corner(g, r, c) && free_at(g, r, c) && is_marked(b, r - row, c - col)
}

/// The placement-legality rule: no overlap, no own edge contact, and the
/// corner rule of the move kind — claim a free board corner on the first
/// move, touch an own cell diagonally on any later one.
pub open spec fn placement_legal(
    g: Seq<Seq<u8>>,
    row: int,
    col: int,
    b: Seq<Seq<bool>>,
    p: u8,
    first: bool,
) -> bool {
    &&& !overlaps(g, row, col, b)
    &&& !touches_own_side(g, row, col, b, p)
    &&& if first {
        covers_free_corner(g, row, col, b)
    } else {
        touches_own_corner(g, row, col, b, p)
    }
}

/// The board grid after a placement: every cell under a marked piece cell
/// carries the player's marker, every other cell is unchanged.
pub open spec fn place_grid(
    g: Seq<Seq<u8>>,
    row: int,
    col: int,
    b: Seq<Seq<bool>>,
    p: u8,
) -> Seq<Seq<u8>> {
    Seq::new(
        g.len(),
        |r: int|
            Seq::new(
                g[r].len(),
                |c: int|
                    if is_marked(b, r - row, c - col) {
                        p
                    } else {
                        g[r][c]
                    },
            ),
    )
}

impl PlacementRule {
    /// All three checks were evaluated and came out clean.
    pub open spec fn spec_ok(&self) -> bool {
        &&& self.overlapping == Some(false)
        &&& self.own_block_touching_sides == Some(false)
        &&& self.no_corner == Some(false)
    }

    /// A placement may be applied exactly when all three checks were
    /// evaluated and found no violation.
    pub fn placement_ok(&self) -> (r: bool)
        ensures
            r == self.spec_ok(),
    {
        matches!(
            (&self.overlapping, &self.own_block_touching_sides, &self.no_corner),
            (Some(false), Some(false), Some(false))
        )
    }
}

impl View for Board {
    type V = Seq<Seq<u8>>;

    closed spec fn view(&self) -> Seq<Seq<u8>> {
        cell_mat_rows(self.data)
    }
}

impl Board {
    /// The column count of the board grid.
    pub closed spec fn width(&self) -> nat {
        cell_mat_width(self.data)
    }

    /// A valid board: a rectangular grid small enough to index with `usize`.
    pub open spec fn wf(&self) -> bool {
        &&& forall|i: int| 0 <= i < self@.len() ==> (#[trigger] self@[i]).len() == self.width()
        &&& self@.len() <= usize::MAX
        &&& self.width() <= usize::MAX
        &&& self@.len() * self.width() <= usize::MAX
    }

    /// A fresh board with every cell free.
    pub fn new(nrows: usize, ncols: usize) -> (b: Board)
        requires
            nrows * ncols <= usize::MAX,
        ensures
            b.wf(),
            b@.len() == nrows,
            b.width() == ncols,
            all_free(b@),
    {
        let m = cell_mat_from_element(nrows, ncols, FREE_CELL);
        let b = Board { data: m };
        proof {
            assert forall|r: int, c: int| 0 <= r < b@.len() && 0 <= c < b@[r].len() implies free_at(
                b@,
                r,
                c,
            ) by {
                assert(b@[r] == Seq::new(ncols as nat, |j: int| FREE_CELL));
            }
        }
        b
    }

    /// The number of board rows.
    pub fn nrows(&self) -> (r: usize)
        ensures
            r == self@.len(),
    {
        cell_mat_nrows(&self.data)
    }

    /// The number of board columns.
    pub fn ncols(&self) -> (r: usize)
        ensures
            r == self.width(),
            forall|i: int| 0 <= i < self@.len() ==> (#[trigger] self@[i]).len() == r,
    {
        cell_mat_ncols(&self.data)
    }

    /// Whether the cell is in range and unowned; any out-of-range coordinate
    /// counts as not free.
    pub fn free_at_row_col(&self, row: usize, col: usize) -> (r: bool)
        requires
            self.wf(),
        ensures
            r == free_at(self@, row as int, col as int),
    {
        if row < self.nrows() && col < self.ncols() {
            cell_mat_get(&self.data, row, col) == FREE_CELL
        } else {
            false
        }
    }

    /// The owner marker of a cell; any out-of-range coordinate reads as free.
    pub fn at_row_col(&self, row: usize, col: usize) -> (v: u8)
        requires
            self.wf(),
        ensures
            v == cell_at(self@, row as int, col as int),
    {
        if row < self.nrows() && col < self.ncols() {
            cell_mat_get(&self.data, row, col)
        } else {
            FREE_CELL
        }
    }

    /// Whether the cell is in range and carries the given marker.
    fn is_owned(&self, row: usize, col: usize, p: u8) -> (r: bool)
        requires
            self.wf(),
        ensures
            r == owned_at(self@, row as int, col as int, p),
    {
        row < self.nrows() && col < self.ncols() && cell_mat_get(&self.data, row, col) == p
    }

    /// The overlap pass: whether some marked piece cell falls on a non-free
    /// board cell.
    fn check_overlap(&self, row: usize, col: usize, block: &Block) -> (r: bool)
        requires
            self.wf(),
            block.wf(),
            row + block@.len() <= usize::MAX,
            col + block.width() <= usize::MAX,
        ensures
            r == overlaps(self@, row as int, col as int, block@),
    {
        let bh = block.nrows();
        let bw = block.ncols();
        let mut found = false;
        let mut i: usize = 0;
        while i < bh
            invariant
                self.wf(),
                block.wf(),
                bh == block@.len(),
                bw == block.width(),
                row + bh <= usize::MAX,
                col + bw <= usize::MAX,
                i <= bh,
                found == exists|x: int, y: int|
                    #[trigger] is_marked(block@, x, y) && !free_at(
                        self@,
                        row + x,
                        col + y,
                    ) && x < i,
            decreases bh - i,
        {
            let mut j: usize = 0;
            while j < bw
                invariant
                    self.wf(),
                    block.wf(),
                    bh == block@.len(),
                    bw == block.width(),
                    row + bh <= usize::MAX,
                    col + bw <= usize::MAX,
                    i < bh,
                    j <= bw,
                    found == exists|x: int, y: int|
                        #[trigger] is_marked(block@, x, y) && !free_at(
                            self@,
                            row + x,
                            col + y,
                        ) && (x < i || (x == i && y < j)),
                decreases bw - j,
            {
                if block.cell_at_row_col(i, j) && !self.free_at_row_col(row + i, col + j) {
                    proof {
                        assert(is_marked(block@, i as int, j as int));
                    }
                    found = true;
                }
                j = j + 1;
            }
            i = i + 1;
        }
        found
    }

    /// The edge-adjacency pass: whether some marked piece cell has a
    /// 4-directional neighbour owned by the player.
    fn check_side_touch(&self, row: usize, col: usize, block: &Block, p: u8) -> (r: bool)
        requires
            self.wf(),
            block.wf(),
            row + block@.len() <= usize::MAX,
            col + block.width() <= usize::MAX,
        ensures
            r == touches_own_side(self@, row as int, col as int, block@, p),
    {
        let bh = block.nrows();
        let bw = block.ncols();
        let mut found = false;
        let mut i: usize = 0;
        while i < bh
            invariant
                self.wf(),
                block.wf(),
                bh == block@.len(),
                bw == block.width(),
                row + bh <= usize::MAX,
                col + bw <= usize::MAX,
                i <= bh,
                found == exists|x: int, y: int|
                    #[trigger] is_marked(block@, x, y) && (owned_at(self@, row + x - 1, col + y, p)
                        || owned_at(self@, row + x + 1, col + y, p) || owned_at(
                        self@,
                        row + x,
                        col + y - 1,
                        p,
                    ) || owned_at(self@, row + x, col + y + 1, p)) && x < i,
            decreases bh - i,
        {
            let mut j: usize = 0;
            while j < bw
                invariant
                    self.wf(),
                    block.wf(),
                    bh == block@.len(),
                    bw == block.width(),
                    row + bh <= usize::MAX,
                    col + bw <= usize::MAX,
                    i < bh,
                    j <= bw,
                    found == exists|x: int, y: int|
                        #[trigger] is_marked(block@, x, y) && (owned_at(
                            self@,
                            row + x - 1,
                            col + y,
                            p,
                        ) || owned_at(self@, row + x + 1, col + y, p) || owned_at(
                            self@,
                            row + x,
                            col + y - 1,
                            p,
                        ) || owned_at(self@, row + x, col + y + 1, p)) && (x < i || (x == i && y
                            < j)),
                decreases bw - j,
            {
                if block.cell_at_row_col(i, j) {
                    let br = row + i;
                    let bc = col + j;
                    let mut t = false;
                    if br >= 1 {
                        t = self.is_owned(br - 1, bc, p);
                    }
                    if !t {
                        t = self.is_owned(br + 1, bc, p);
                    }
                    if !t && bc >= 1 {
                        t = self.is_owned(br, bc - 1, p);
                    }
                    if !t {
                        t = self.is_owned(br, bc + 1, p);
                    }
                    if t {
                        proof {
                            assert(is_marked(block@, i as int, j as int));
                        }
                        found = true;
                    }
                }
                j = j + 1;
            }
            i = i + 1;
        }
        found
    }

    /// The corner-adjacency pass: whether some marked piece cell has a
    /// diagonal neighbour owned by the player.
    fn check_corner_touch(&self, row: usize, col: usize, block: &Block, p: u8) -> (r: bool)
        requires
            self.wf(),
            block.wf(),
            row + block@.len() <= usize::MAX,
            col + block.width() <= usize::MAX,
        ensures
            r == touches_own_corner(self@, row as int, col as int, block@, p),
    {
        let bh = block.nrows();
        let bw = block.ncols();
        let mut found = false;
        let mut i: usize = 0;
        while i < bh
            invariant
                self.wf(),
                block.wf(),
                bh == block@.len(),
                bw == block.width(),
                row + bh <= usize::MAX,
                col + bw <= usize::MAX,
                i <= bh,
                found == exists|x: int, y: int|
                    #[trigger] is_marked(block@, x, y) && (owned_at(
                        self@,
                        row + x - 1,
                        col + y - 1,
                        p,
                    ) || owned_at(self@, row + x + 1, col + y + 1, p) || owned_at(
                        self@,
                        row + x + 1,
                        col + y - 1,
                        p,
                    ) || owned_at(self@, row + x - 1, col + y + 1, p)) && x < i,
            decreases bh - i,
        {
            let mut j: usize = 0;
            while j < bw
                invariant
                    self.wf(),
                    block.wf(),
                    bh == block@.len(),
                    bw == block.width(),
                    row + bh <= usize::MAX,
                    col + bw <= usize::MAX,
                    i < bh,
                    j <= bw,
                    found == exists|x: int, y: int|
                        #[trigger] is_marked(block@, x, y) && (owned_at(
                            self@,
                            row + x - 1,
                            col + y - 1,
                            p,
                        ) || owned_at(self@, row + x + 1, col + y + 1, p) || owned_at(
                            self@,
                            row + x + 1,
                            col + y - 1,
                            p,
                        ) || owned_at(self@, row + x - 1, col + y + 1, p)) && (x < i || (x == i && y
                            < j)),
                decreases bw - j,
            {
                if block.cell_at_row_col(i, j) {
                    let br = row + i;
                    let bc = col + j;
                    let mut t = false;
                    if br >= 1 && bc >= 1 {
                        t = self.is_owned(br - 1, bc - 1, p);
                    }
                    if !t {
                        t = self.is_owned(br + 1, bc + 1, p);
                    }
                    if !t && bc >= 1 {
                        t = self.is_owned(br + 1, bc - 1, p);
                    }
                    if !t && br >= 1 {
                        t = self.is_owned(br - 1, bc + 1, p);
                    }
                    if t {
                        proof {
                            assert(is_marked(block@, i as int, j as int));
                        }
                        found = true;
                    }
                }
                j = j + 1;
            }
            i = i + 1;
        }
        found
    }

    /// The first-move pass: whether the piece covers a free physical corner
    /// of the board.
    fn check_first_corner(&self, row: usize, col: usize, block: &Block) -> (r: bool)
        requires
            self.wf(),
            block.wf(),
        ensures
            r == covers_free_corner(self@, row as int, col as int, block@),
    {
        let h = self.nrows();
        let w = self.ncols();
        if h >= 1 && w >= 1 {
            proof {
                assert(self@[0].len() == self.width());
            }
            let c1 = self.corner_covered(0, 0, row, col, block);
            let c2 = self.corner_covered(0, w - 1, row, col, block);
            let c3 = self.corner_covered(h - 1, 0, row, col, block);
            let c4 = self.corner_covered(h - 1, w - 1, row, col, block);
            let found = c1 || c2 || c3 || c4;
            proof {
                let g = self@;
                let ri = row as int;
                let ci = col as int;
                if c1 {
                    assert(is_board_corner(g, 0, 0) && free_at(g, 0, 0) && is_marked(
                        block@,
                        0 - ri,
                        0 - ci,
                    ));
                }
                if c2 {
                    assert(is_board_corner(g, 0, w - 1) && free_at(g, 0, w - 1) && is_marked(
                        block@,
                        0 - ri,
                        w - 1 - ci,
                    ));
                }
                if c3 {
                    assert(is_board_corner(g, h - 1, 0) && free_at(g, h - 1, 0) && is_marked(
                        block@,
                        h - 1 - ri,
                        0 - ci,
                    ));
                }
                if c4 {
                    assert(is_board_corner(g, h - 1, w - 1) && free_at(g, h - 1, w - 1)
                        && is_marked(block@, h - 1 - ri, w - 1 - ci));
                }
                if !found && covers_free_corner(g, ri, ci, block@) {
                    let (r, c) = choose|r: int, c: int|
                        #[trigger] is_board_corner(g, r, c) && free_at(g, r, c) && is_marked(
                            block@,
                            r - ri,
                            c - ci,
                        );
                    assert(r == 0 || r == h - 1);
                    assert(c == 0 || c == w - 1);
                    assert(false);
                }
            }
            found
        } else {
            proof {
                if covers_free_corner(self@, row as int, col as int, block@) {
                    let (r, c) = choose|r: int, c: int|
                        #[trigger] is_board_corner(self@, r, c) && free_at(self@, r, c)
                            && is_marked(block@, r - row, c - col);
                    assert(self@[0].len() == self.width());
                    assert(false);
                }
            }
            false
        }
    }

    /// Whether one given free board corner is covered by a marked piece cell.
    fn corner_covered(&self, cr: usize, cc: usize, row: usize, col: usize, block: &Block) -> (r:
        bool)
        requires
            self.wf(),
            block.wf(),
            is_board_corner(self@, cr as int, cc as int),
        ensures
            r == (free_at(self@, cr as int, cc as int) && is_marked(
                block@,
                cr - row,
                cc - col,
            )),
    {
        if !self.free_at_row_col(cr, cc) {
            return false;
        }
        if cr >= row && cc >= col {
            let i = cr - row;
            let j = cc - col;
            if i < block.nrows() && j < block.ncols() {
                return block.cell_at_row_col(i, j);
            }
        }
        false
    }

    /// Evaluates the three legality checks for placing the piece anchored at
    /// `(row, col)` for the player `block_type`, short-circuiting after a
    /// violated check, against the pre-placement board.
    pub fn can_place(
        &self,
        row: usize,
        col: usize,
        block: &Block,
        block_type: u8,
        first_block: bool,
    ) -> (r: PlacementRule)
        requires
            self.wf(),
            block.wf(),
            row + block@.len() <= usize::MAX,
            col + block.width() <= usize::MAX,
        ensures
            r.overlapping == Some(overlaps(self@, row as int, col as int, block@)),
            r.own_block_touching_sides == (if overlaps(self@, row as int, col as int, block@) {
                None
            } else {
                Some(touches_own_side(self@, row as int, col as int, block@, block_type))
            }),
            r.no_corner == (if overlaps(self@, row as int, col as int, block@)
                || touches_own_side(self@, row as int, col as int, block@, block_type) {
                None
            } else if first_block {
                Some(!covers_free_corner(self@, row as int, col as int, block@))
            } else {
                Some(!touches_own_corner(self@, row as int, col as int, block@, block_type))
            }),
            r.spec_ok() == placement_legal(
                self@,
                row as int,
                col as int,
                block@,
                block_type,
                first_block,
            ),
    {
        let mut rule = PlacementRule {
            overlapping: None,
            own_block_touching_sides: None,
            no_corner: None,
        };
        if self.check_overlap(row, col, block) {
            rule.overlapping = Some(true);
            return rule;
        }
        rule.overlapping = Some(false);
        if self.check_side_touch(row, col, block, block_type) {
            rule.own_block_touching_sides = Some(true);
            return rule;
        }
        rule.own_block_touching_sides = Some(false);
        if first_block {
            rule.no_corner = Some(!self.check_first_corner(row, col, block));
        } else {
            rule.no_corner = Some(!self.check_corner_touch(row, col, block, block_type));
        }
        rule
    }

    /// Writes the player's marker into every board cell under a marked piece
    /// cell. Legality is not checked here: callers must consult `can_place`
    /// first. The marked footprint must lie on the board.
    pub fn place(&mut self, row: usize, col: usize, block: &Block, block_type: u8)
        requires
            old(self).wf(),
            block.wf(),
            forall|i: int, j: int|
                #[trigger] is_marked(block@, i, j) ==> row + i < old(self)@.len() && col + j < old(
                    self,
                ).width(),
        ensures
            final(self).wf(),
            final(self).width() == old(self).width(),
            final(self)@ == place_grid(old(self)@, row as int, col as int, block@, block_type),
    {
        let ghost g0 = self@;
        let ghost w0 = self.width();
        let bh = block.nrows();
        let bw = block.ncols();
        let mut i: usize = 0;
        while i < bh
            invariant
                self.wf(),
                block.wf(),
                bh == block@.len(),
                bw == block.width(),
                forall|x: int, y: int|
                    #[trigger] is_marked(block@, x, y) ==> row + x < g0.len() && col + y < w0,
                i <= bh,
                self@.len() == g0.len(),
                self.width() == w0,
                forall|r: int| 0 <= r < g0.len() ==> (#[trigger] self@[r]).len() == g0[r].len(),
                forall|r: int, c: int|
                    0 <= r < g0.len() && 0 <= c < g0[r].len() ==> #[trigger] self@[r][c] == (
                    if is_marked(block@, r - row, c - col) && r - row < i {
                        block_type
                    } else {
                        g0[r][c]
                    }),
            decreases bh - i,
        {
            let mut j: usize = 0;
            while j < bw
                invariant
                    self.wf(),
                    block.wf(),
                    bh == block@.len(),
                    bw == block.width(),
                    forall|x: int, y: int|
                        #[trigger] is_marked(block@, x, y) ==> row + x < g0.len() && col + y < w0,
                    i < bh,
                    j <= bw,
                    self@.len() == g0.len(),
                    self.width() == w0,
                    forall|r: int| 0 <= r < g0.len() ==> (#[trigger] self@[r]).len() == g0[r].len(),
                    forall|r: int, c: int|
                        0 <= r < g0.len() && 0 <= c < g0[r].len() ==> #[trigger] self@[r][c] == (
                        if is_marked(block@, r - row, c - col) && (r - row < i || (r - row == i && c
                            - col < j)) {
                            block_type
                        } else {
                            g0[r][c]
                        }),
                decreases bw - j,
            {
                if block.cell_at_row_col(i, j) {
                    proof {
                        assert(is_marked(block@, i as int, j as int));
                    }
                    cell_mat_set(&mut self.data, row + i, col + j, block_type);
                }
                j = j + 1;
            }
            i = i + 1;
        }
        proof {
            assert(self@ =~~= place_grid(g0, row as int, col as int, block@, block_type));
        }
    }


    /// A placement search for the given piece and player over a snapshot of
    /// this board, with its cursor at the start of the candidate space.
    pub fn bruteforce_search_place(&self, block: &Block, block_type: u8, first_block: bool) -> (s:
        BruteForceSearchPlace)
        requires
            self.wf(),
            block.wf(),
            8 * self@.len() * self.width() <= usize::MAX,
            self@.len() + block@.len() + block.width() <= usize::MAX,
            self.width() + block@.len() + block.width() <= usize::MAX,
        ensures
            s.wf(),
            s.block@ == block@,
            s.block.width() == block.width(),
            s.block_type == block_type,
            s.first_block == first_block,
            s.board@ == self@,
            s.board.width() == self.width(),
            s.start == 0,
    {
        BruteForceSearchPlace {
            block: block.clone(),
            block_type,
            first_block,
            board: self.clone(),
            start: 0,
        }
    }
}

impl Clone for Board {
    /// The copy has the same grid.
    fn clone(&self) -> (b: Self)
        ensures
            b@ == self@,
            b.width() == self.width(),
    {
        Board { data: cell_mat_clone(&self.data) }
    }
}

/// One candidate of the placement search: an anchor position together with a
/// rotation count and a transposition flag.
#[derive(Debug, Clone, Copy, PartialEq, Eq, Structural)]
pub struct BlockPosition {
    pub row: usize,
    pub col: usize,
    pub rotation: u8,
    pub transposition: u8,
}

/// The column encoded by one linear search index on an `h` by `w` board.
pub open spec fn cand_col(i: int, h: int, w: int) -> int {
    i % w
}

/// The row encoded by one linear search index.
pub open spec fn cand_row(i: int, h: int, w: int) -> int {
    (i / w) % h
}

/// The rotation count encoded by one linear search index.
pub open spec fn cand_rot(i: int, h: int, w: int) -> int {
    (i / (w * h)) % 4
}

/// The transposition flag encoded by one linear search index.
pub open spec fn cand_trans(i: int, h: int, w: int) -> int {
    (i / (w * h * 4)) % 2
}

/// Whether the candidate at one linear search index is a legal placement of
/// the piece grid `b` (with column count `bw`) for player `p`.
pub open spec fn cand_legal(
    g: Seq<Seq<u8>>,
    w: nat,
    b: Seq<Seq<bool>>,
    bw: nat,
    p: u8,
    first: bool,
    i: int,
) -> bool {
    let h = g.len() as int;
    let wi = w as int;
    let eff = crate::block::oriented_grid(b, bw, cand_rot(i, h, wi), cand_trans(i, h, wi));
    placement_legal(g, cand_row(i, h, wi), cand_col(i, h, wi), eff.0, p, first)
}

/// The first legal candidate index at or after `start`, if any, over the
/// candidate space of `8 * rows * columns` linear indices.
pub open spec fn first_legal_from(
    g: Seq<Seq<u8>>,
    w: nat,
    b: Seq<Seq<bool>>,
    bw: nat,
    p: u8,
    first: bool,
    start: int,
) -> Option<int>
    decreases 8 * g.len() * w - start,
{
    let total = 8 * (g.len() as int) * (w as int);
    if start < 0 || start >= total {
        None
    } else if cand_legal(g, w, b, bw, p, first, start) {
        Some(start)
    } else {
        first_legal_from(g, w, b, bw, p, first, start + 1)
    }
}

/// The exhaustive placement search for one piece: scans the linear candidate
/// space (transposition, then rotation, then row, then column, flattened
/// outer to inner) from a resumable cursor and yields legal candidates. It
/// works on its own snapshot of the board.
pub struct BruteForceSearchPlace {
    pub block: Block,
    pub block_type: u8,
    pub first_block: bool,
    pub board: Board,
    pub start: usize,
}

impl BruteForceSearchPlace {
    /// A valid search state: piece and board are well-formed, and the
    /// candidate space and anchored piece offsets fit in `usize`.
    pub open spec fn wf(&self) -> bool {
        &&& self.block.wf()
        &&& self.board.wf()
        &&& 8 * self.board@.len() * self.board.width() <= usize::MAX
        &&& self.board@.len() + self.block@.len() + self.block.width() <= usize::MAX
        &&& self.board.width() + self.block@.len() + self.block.width() <= usize::MAX
    }

    /// What one pull of the search yields: the first legal candidate at or
    /// after the cursor, decoded, with the cursor moved just past it; or
    /// nothing, with the cursor unchanged.
    pub open spec fn next_spec(pre: Self, post: Self, r: Option<BlockPosition>) -> bool {
        let h = pre.board@.len() as int;
        let w = pre.board.width() as int;
        match first_legal_from(
            pre.board@,
            pre.board.width(),
            pre.block@,
            pre.block.width(),
            pre.block_type,
            pre.first_block,
            pre.start as int,
        ) {
            Some(i) => {
                &&& r matches Some(bp) && bp.row == cand_row(i, h, w) && bp.col == cand_col(
                    i,
                    h,
                    w,
                ) && bp.rotation == cand_rot(i, h, w) && bp.transposition == cand_trans(i, h, w)
                &&& post.start == i + 1
            },
            None => r is None && post.start == pre.start,
        }
    }

    /// Yields the next legal placement candidate at or after the cursor, in
    /// the fixed linear order, and moves the cursor past it; yields nothing
    /// when no candidate at or after the cursor is legal.
    #[verifier::rlimit(60)]
    pub fn next(&mut self) -> (r: Option<BlockPosition>)
        requires
            old(self).wf(),
        ensures
            final(self).wf(),
            final(self).block@ == old(self).block@,
            final(self).block.width() == old(self).block.width(),
            final(self).block_type == old(self).block_type,
            final(self).first_block == old(self).first_block,
            final(self).board@ == old(self).board@,
            final(self).board.width() == old(self).board.width(),
            Self::next_spec(*old(self), *final(self), r),
    {
        let ghost g = self.board@;
        let ghost w_spec = self.board.width();
        let ghost b = self.block@;
        let ghost bw = self.block.width();
        let ghost p = self.block_type;
        let ghost first = self.first_block;
        let ghost start0 = self.start as int;
        let h = self.board.nrows();
        let w = self.board.ncols();
        let hw = h * w;
        proof {
            assert(h * w == self.board@.len() * self.board.width()) by (nonlinear_arith)
                requires
                    h == self.board@.len(),
                    w == self.board.width(),
            ;
            assert(8 * hw == 8 * self.board@.len() * self.board.width()) by (nonlinear_arith)
                requires
                    hw == self.board@.len() * self.board.width(),
            ;
        }
        let total = 8 * hw;
        let mut i = self.start;
        while i < total
            invariant
                self.wf(),
                g == self.board@,
                w_spec == self.board.width(),
                b == self.block@,
                bw == self.block.width(),
                p == self.block_type,
                first == self.first_block,
                start0 == self.start as int,
                g == old(self).board@,
                w_spec == old(self).board.width(),
                b == old(self).block@,
                bw == old(self).block.width(),
                p == old(self).block_type,
                first == old(self).first_block,
                start0 == old(self).start as int,
                h == g.len(),
                w == w_spec,
                hw == h * w,
                total == 8 * hw,
                start0 <= i as int,
                first_legal_from(g, w_spec, b, bw, p, first, start0) == first_legal_from(
                    g,
                    w_spec,
                    b,
                    bw,
                    p,
                    first,
                    i as int,
                ),
            decreases total - i,
        {
            proof {
                assert(w >= 1 && h >= 1) by (nonlinear_arith)
                    requires
                        hw == h * w,
                        (i as int) < 8 * (hw as int),
                        0 <= i,
                ;
                assert((total as int) == 8 * (g.len() as int) * (w_spec as int))
                    by (nonlinear_arith)
                    requires
                        total == 8 * hw,
                        hw == h * w,
                        h == g.len(),
                        w == w_spec,
                ;
            }
            let col = i % w;
            let row = (i / w) % h;
            let wh = w * h;
            proof {
                assert(w * h == h * w) by (nonlinear_arith);
                assert(4 * (wh as int) <= 8 * (hw as int)) by (nonlinear_arith)
                    requires
                        wh == hw,
                ;
            }
            let rot_u = (i / wh) % 4;
            let trans_u = (i / (wh * 4)) % 2;
            let rotation = rot_u as u8;
            let transposition = trans_u as u8;
            let base = if transposition == 0 {
                self.block.clone()
            } else {
                self.block.transpose()
            };
            let eff = if rotation == 1 {
                base.rotate_90()
            } else if rotation == 2 {
                base.rotate_90().rotate_90()
            } else if rotation == 3 {
                base.rotate_90().rotate_90().rotate_90()
            } else {
                base
            };
            let ghost ii = i as int;
            let ghost hh = h as int;
            let ghost ww = w as int;
            proof {
                assert(cand_col(ii, hh, ww) == col as int);
                assert(cand_row(ii, hh, ww) == row as int);
                assert(wh as int == ww * hh);
                assert(cand_rot(ii, hh, ww) == rot_u as int);
                assert((wh * 4) as int == ww * hh * 4);
                assert(cand_trans(ii, hh, ww) == trans_u as int);
                let ghost o = crate::block::oriented_grid(b, bw, rot_u as int, trans_u as int);
                assert(crate::block::rotations_of(o.0, o.1, 0nat) == (o.0, o.1));
                assert(eff@ == o.0 && eff.width() == o.1) by {
                    let base_pair = if trans_u == 0 {
                        (b, bw)
                    } else {
                        (crate::block::transpose_grid(b, bw), b.len() as nat)
                    };
                    assert(crate::block::rotations_of(base_pair.0, base_pair.1, 0nat) == base_pair);
                    let r1 = crate::block::rotations_of(base_pair.0, base_pair.1, 1nat);
                    let r2 = crate::block::rotations_of(base_pair.0, base_pair.1, 2nat);
                    let r3 = crate::block::rotations_of(base_pair.0, base_pair.1, 3nat);
                    assert(r1 == (
                        crate::block::rotate_grid(base_pair.0, base_pair.1),
                        base_pair.0.len() as nat,
                    ));
                    assert(r2 == (crate::block::rotate_grid(r1.0, r1.1), r1.0.len() as nat));
                    assert(r3 == (crate::block::rotate_grid(r2.0, r2.1), r2.0.len() as nat));
                }
            }
            let rule = self.board.can_place(row, col, &eff, self.block_type, self.first_block);
            if rule.placement_ok() {
                self.start = i + 1;
                proof {
                    assert(cand_legal(g, w_spec, b, bw, p, first, ii));
                    assert(first_legal_from(g, w_spec, b, bw, p, first, ii) == Some(ii));
                }
                return Some(BlockPosition { row, col, rotation, transposition });
            }
            proof {
                assert(!cand_legal(g, w_spec, b, bw, p, first, ii));
                assert(first_legal_from(g, w_spec, b, bw, p, first, ii) == first_legal_from(
                    g,
                    w_spec,
                    b,
                    bw,
                    p,
                    first,
                    ii + 1,
                ));
            }
            i = i + 1;
        }
        proof {
            assert((total as int) == 8 * (g.len() as int) * (w_spec as int)) by (nonlinear_arith)
                requires
                    total == 8 * hw,
                    hw == h * w,
                    h == g.len(),
                    w == w_spec,
            ;
            assert(first_legal_from(g, w_spec, b, bw, p, first, i as int) is None);
        }
        None
    }
}

/// Law (overlap rejection): a placement with some marked piece cell on an
/// already owned board cell is never legal, whatever the move kind and
/// whatever the other checks say.
pub proof fn lemma_overlap_rejected(
    g: Seq<Seq<u8>>,
    row: int,
    col: int,
    b: Seq<Seq<bool>>,
    p: u8,
    first: bool,
    i: int,
    j: int,
)
    requires
        is_marked(b, i, j),
        cell_at(g, row + i, col + j) != FREE_CELL,
    ensures
        !placement_legal(g, row, col, b, p, first),
{
    assert(!free_at(g, row + i, col + j));
    assert(overlaps(g, row, col, b));
}

/// Law (edge-adjacency self-block): a placement with some marked piece cell
/// 4-directionally adjacent to a cell owned by the placing player is never
/// legal, even without overlap.
pub proof fn lemma_edge_adjacency_rejected(
    g: Seq<Seq<u8>>,
    row: int,
    col: int,
    b: Seq<Seq<bool>>,
    p: u8,
    first: bool,
    i: int,
    j: int,
)
    requires
        is_marked(b, i, j),
        owned_at(g, row + i - 1, col + j, p) || owned_at(g, row + i + 1, col + j, p) || owned_at(
            g,
            row + i,
            col + j - 1,
            p,
        ) || owned_at(g, row + i, col + j + 1, p),
    ensures
        !placement_legal(g, row, col, b, p, first),
{
    assert(touches_own_side(g, row, col, b, p));
}

/// Law (corner contact suffices): a non-first placement that overlaps
/// nothing, edge-touches no own cell, and touches an own cell diagonally is
/// legal.
pub proof fn lemma_corner_contact_accepted(
    g: Seq<Seq<u8>>,
    row: int,
    col: int,
    b: Seq<Seq<bool>>,
    p: u8,
)
    requires
        !overlaps(g, row, col, b),
        !touches_own_side(g, row, col, b, p),
        touches_own_corner(g, row, col, b, p),
    ensures
        placement_legal(g, row, col, b, p, false),
{
}

/// Law (corner contact required): a non-first placement that touches no own
/// cell diagonally is never legal.
pub proof fn lemma_corner_contact_required(
    g: Seq<Seq<u8>>,
    row: int,
    col: int,
    b: Seq<Seq<bool>>,
    p: u8,
)
    requires
        !touches_own_corner(g, row, col, b, p),
    ensures
        !placement_legal(g, row, col, b, p, false),
{
}

/// Law (first-move corner rule): on a board with every cell free, a
/// single-cell piece placed for a first move by a real player is legal
/// exactly when it sits on one of the four physical board corners.
pub proof fn lemma_first_move_single_cell(g: Seq<Seq<u8>>, w: nat, row: int, col: int, p: u8)
    requires
        g.len() >= 1,
        w >= 1,
        forall|i: int| 0 <= i < g.len() ==> (#[trigger] g[i]).len() == w,
        all_free(g),
        p != FREE_CELL,
        0 <= row,
        0 <= col,
    ensures
        placement_legal(g, row, col, seq![seq![true]], p, true) <==> ((row == 0 || row == g.len()
            - 1) && (col == 0 || col == w - 1)),
{
    let b = seq![seq![true]];
    assert(b.len() == 1 && b[0].len() == 1 && b[0][0]);
    assert forall|i: int, j: int| is_marked(b, i, j) implies i == 0 && j == 0 by {}
    if (row == 0 || row == g.len() - 1) && (col == 0 || col == w - 1) {
        assert(row < g.len() && col < w);
        assert(free_at(g, row, col));
        assert(is_board_corner(g, row, col));
        assert(is_marked(b, row - row, col - col));
        assert(covers_free_corner(g, row, col, b));
        if overlaps(g, row, col, b) {
            let (i, j) = choose|i: int, j: int|
                #[trigger] is_marked(b, i, j) && !free_at(g, row + i, col + j);
            assert(false);
        }
        if touches_own_side(g, row, col, b, p) {
            let (i, j) = choose|i: int, j: int|
                #[trigger] is_marked(b, i, j) && (owned_at(g, row + i - 1, col + j, p) || owned_at(
                    g,
                    row + i + 1,
                    col + j,
                    p,
                ) || owned_at(g, row + i, col + j - 1, p) || owned_at(g, row + i, col + j + 1, p));
            assert(i == 0 && j == 0);
            if owned_at(g, row - 1, col, p) {
                assert(free_at(g, row - 1, col));
            }
            if owned_at(g, row + 1, col, p) {
                assert(free_at(g, row + 1, col));
            }
            if owned_at(g, row, col - 1, p) {
                assert(free_at(g, row, col - 1));
            }
            if owned_at(g, row, col + 1, p) {
                assert(free_at(g, row, col + 1));
            }
            assert(false);
        }
        assert(placement_legal(g, row, col, b, p, true));
    } else {
        if placement_legal(g, row, col, b, p, true) {
            let (r, c) = choose|r: int, c: int|
                #[trigger] is_board_corner(g, r, c) && free_at(g, r, c) && is_marked(
                    b,
                    r - row,
                    c - col,
                );
            assert(r == row && c == col);
            assert(false);
        }
    }
}

} // verus!
