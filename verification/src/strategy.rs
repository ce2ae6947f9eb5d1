//! The greedy placement policy of an automated player: sort a copy of the
//! player's remaining pieces by descending cell count (ties keep catalog
//! order), and play the first piece for which the placement search finds any
//! legal candidate; select nothing when no piece can be placed, which signals
//! elimination to the caller.

use vstd::prelude::*;

use crate::block::Block;
use crate::block::grid_cells;
use crate::block::grids_of;
use crate::block::oriented_grid;
use crate::block::rotate_grid;
use crate::block::rotations_of;
use crate::block::transpose_grid;

use crate::board::Board;
use crate::board::BlockPosition;
use crate::board::cand_col;
use crate::board::cand_rot;
use crate::board::cand_row;
use crate::board::cand_trans;
use crate::board::cand_legal;
use crate::board::first_legal_from;

verus! {

/// A selected move: a piece together with the anchor position, rotation
/// count and transposition flag to place it under.
#[derive(Debug)]
pub struct BlockPlacement {
    pub block: Block,
    pub row: usize,
    pub col: usize,
    pub rotation: u8,
    pub transposition: u8,
}

/// One player: an identifier, whether a human drives it, and the remaining
/// pieces in catalog order.
#[derive(Debug)]
pub struct Player {
    pub player_id: u8,
    pub human: bool,
    pub blocks: Vec<Block>,
}

/// A deep copy of a piece list; the copies have the originals' grids.
fn clone_blocks(v: &Vec<Block>) -> (r: Vec<Block>)
    ensures
        r@.len() == v@.len(),
        forall|k: int|
            0 <= k < v@.len() ==> (#[trigger] r@[k])@ == v@[k]@ && r@[k].width() == v@[k].width(),
{
    let mut r: Vec<Block> = Vec::new();
    let mut k: usize = 0;
    while k < v.len()
        invariant
            k <= v@.len(),
            r@.len() == k,
            forall|t: int|
                0 <= t < k ==> (#[trigger] r@[t])@ == v@[t]@ && r@[t].width() == v@[t].width(),
        decreases v@.len() - k,
    {
        r.push(v[k].clone());
        k = k + 1;
    }
    r
}

impl Clone for Player {
    /// The copy has the same identifier, control flag, and piece grids.
    fn clone(&self) -> (r: Self)
        ensures
            r.player_id == self.player_id,
            r.human == self.human,
            r.blocks@.len() == self.blocks@.len(),
            forall|k: int|
                0 <= k < self.blocks@.len() ==> (#[trigger] r.blocks@[k])@ == self.blocks@[k]@
                    && r.blocks@[k].width() == self.blocks@[k].width(),
    {
        Player { player_id: self.player_id, human: self.human, blocks: clone_blocks(&self.blocks) }
    }
}

impl BlockPlacement {
    /// The anchor position and the effective piece: the stored piece
    /// transposed when the flag is nonzero, then turned by the rotation
    /// count.
    pub fn as_row_col_block(&self) -> (r: (usize, usize, Block))
        requires
            self.block.wf(),
        ensures
            r.0 == self.row,
            r.1 == self.col,
            r.2.wf(),
            (r.2@, r.2.width()) == oriented_grid(
                self.block@,
                self.block.width(),
                self.rotation as int,
                self.transposition as int,
            ),
    {
        let ghost b = self.block@;
        let ghost bw = self.block.width();
        let base = if self.transposition == 0 {
            self.block.clone()
        } else {
            self.block.transpose()
        };
        let block = if self.rotation == 1 {
            base.rotate_90()
        } else if self.rotation == 2 {
            base.rotate_90().rotate_90()
        } else if self.rotation == 3 {
            base.rotate_90().rotate_90().rotate_90()
        } else {
            base
        };
        proof {
            let base_pair = if self.transposition == 0 {
                (b, bw)
            } else {
                (transpose_grid(b, bw), b.len() as nat)
            };
            assert(rotations_of(base_pair.0, base_pair.1, 0nat) == base_pair);
            let r1 = rotations_of(base_pair.0, base_pair.1, 1nat);
            let r2 = rotations_of(base_pair.0, base_pair.1, 2nat);
            let r3 = rotations_of(base_pair.0, base_pair.1, 3nat);
            assert(r1 == (rotate_grid(base_pair.0, base_pair.1), base_pair.0.len() as nat));
            assert(r2 == (rotate_grid(r1.0, r1.1), r1.0.len() as nat));
            assert(r3 == (rotate_grid(r2.0, r2.1), r2.0.len() as nat));
        }
        (self.row, self.col, block)
    }
}

/// The index of the first player carrying the given identifier, if any.
pub open spec fn find_player(players: Seq<Player>, id: u8) -> Option<int>
    decreases players.len(),
{
    if players.len() == 0 {
        None
    } else if players[0].player_id == id {
        Some(0)
    } else {
        match find_player(players.drop_first(), id) {
            Some(k) => Some(k + 1),
            None => None,
        }
    }
}

/// The first matching index is found.
proof fn lemma_find_player_at(players: Seq<Player>, id: u8, i: int)
    requires
        0 <= i < players.len(),
        players[i].player_id == id,
        forall|t: int| 0 <= t < i ==> players[t].player_id != id,
    ensures
        find_player(players, id) == Some(i),
    decreases i,
{
    if i > 0 {
        lemma_find_player_at(players.drop_first(), id, i - 1);
    }
}

/// Without a matching identifier nothing is found.
proof fn lemma_find_player_none(players: Seq<Player>, id: u8)
    requires
        forall|t: int| 0 <= t < players.len() ==> players[t].player_id != id,
    ensures
        find_player(players, id) is None,
    decreases players.len(),
{
    if players.len() > 0 {
        lemma_find_player_none(players.drop_first(), id);
    }
}

/// Descending stable insertion by cell count: the new grid goes after every
/// grid with at least as many cells.
pub open spec fn insert_desc(s: Seq<Seq<Seq<bool>>>, g: Seq<Seq<bool>>) -> Seq<Seq<Seq<bool>>>
    decreases s.len(),
{
    if s.len() == 0 {
        seq![g]
    } else if grid_cells(s.last()) >= grid_cells(g) {
        s.push(g)
    } else {
        insert_desc(s.drop_last(), g).push(s.last())
    }
}

/// The grids sorted by descending cell count; the sort is stable, so grids of
/// equal count keep their order.
pub open spec fn sort_desc(s: Seq<Seq<Seq<bool>>>) -> Seq<Seq<Seq<bool>>>
    decreases s.len(),
{
    if s.len() == 0 {
        Seq::empty()
    } else {
        insert_desc(sort_desc(s.drop_last()), s.last())
    }
}

/// Inserting at the position before the maximal run of strictly smaller
/// counts at the end is what `insert_desc` does.
proof fn lemma_insert_desc_at(s: Seq<Seq<Seq<bool>>>, g: Seq<Seq<bool>>, pos: int)
    requires
        0 <= pos <= s.len(),
        forall|u: int| pos <= u < s.len() ==> grid_cells(#[trigger] s[u]) < grid_cells(g),
        pos > 0 ==> grid_cells(s[pos - 1]) >= grid_cells(g),
    ensures
        insert_desc(s, g) == s.take(pos) + seq![g] + s.skip(pos),
    decreases s.len(),
{
    if s.len() == 0 {
        assert(insert_desc(s, g) =~~= s.take(pos) + seq![g] + s.skip(pos));
    } else if pos == s.len() {
        assert(grid_cells(s.last()) >= grid_cells(g));
        assert(insert_desc(s, g) =~~= s.take(pos) + seq![g] + s.skip(pos));
    } else {
        assert(grid_cells(s[s.len() - 1]) < grid_cells(g));
        lemma_insert_desc_at(s.drop_last(), g, pos);
        assert(s.drop_last().take(pos) =~~= s.take(pos));
        assert(s.drop_last().skip(pos).push(s.last()) =~~= s.skip(pos));
        assert(insert_desc(s, g) =~~= s.take(pos) + seq![g] + s.skip(pos));
    }
}

/// The first grid in the given order that has any legal candidate, together
/// with its first legal candidate index.
pub open spec fn select_from(
    g: Seq<Seq<u8>>,
    w: nat,
    grids: Seq<Seq<Seq<bool>>>,
    p: u8,
    first: bool,
) -> Option<(Seq<Seq<bool>>, int)>
    decreases grids.len(),
{
    if grids.len() == 0 {
        None
    } else {
        match first_legal_from(g, w, grids[0], grids[0][0].len(), p, first, 0) {
            Some(i) => Some((grids[0], i)),
            None => select_from(g, w, grids.drop_first(), p, first),
        }
    }
}

/// What the greedy policy selects: for the first player carrying the
/// identifier, the first piece grid in descending-count order with a legal
/// candidate, and that candidate; nothing when no piece can be placed or no
/// player matches.
pub open spec fn greedy_selection(
    g: Seq<Seq<u8>>,
    w: nat,
    players: Seq<Player>,
    id: u8,
    first: bool,
) -> Option<(Seq<Seq<bool>>, int)> {
    match find_player(players, id) {
        None => None,
        Some(k) => select_from(g, w, sort_desc(grids_of(players[k].blocks@)), id, first),
    }
}

/// Machine-size bounds letting the search run on every piece of a list: the
/// candidate space and every anchored piece offset fit in `usize`, and the
/// pieces are valid.
pub open spec fn inventory_fits(board: &Board, blocks: Seq<Block>) -> bool {
    &&& 8 * board@.len() * board.width() <= usize::MAX
    &&& forall|t: int| 0 <= t < blocks.len() ==> (#[trigger] blocks[t]).wf()
    &&& forall|t: int|
        0 <= t < blocks.len() ==> board@.len() + (#[trigger] blocks[t])@.len() + blocks[t].width()
            <= usize::MAX && board.width() + blocks[t]@.len() + blocks[t].width() <= usize::MAX
}

/// The greedy largest-piece-first policy.
pub struct GreedyStrategy {}

impl GreedyStrategy {
    /// Selects a move for the given player: the pieces are tried in
    /// descending cell count (ties in catalog order), each over the placement
    /// search's fixed candidate order, and the first legal candidate wins.
    /// Yields nothing when no remaining piece has a legal placement. The
    /// selection is a function of the board, the roster and the move kind.
    pub fn place(board: &Board, player_id: u8, players: &[Player], first_block: bool) -> (r:
        Option<BlockPlacement>)
        requires
            board.wf(),
            forall|k: int|
                0 <= k < players@.len() ==> inventory_fits(board, (#[trigger] players@[k]).blocks@),
        ensures
            match greedy_selection(board@, board.width(), players@, player_id, first_block) {
                None => r is None,
                Some(sel) => r matches Some(bp) && bp.block.wf() && bp.block@ == sel.0 && bp.row
                    == cand_row(sel.1, board@.len() as int, board.width() as int) && bp.col
                    == cand_col(sel.1, board@.len() as int, board.width() as int) && bp.rotation
                    == cand_rot(sel.1, board@.len() as int, board.width() as int)
                    && bp.transposition == cand_trans(
                    sel.1,
                    board@.len() as int,
                    board.width() as int,
                ),
            },
    {
        let n = players.len();
        let mut idx: usize = 0;
        let mut sel: usize = n;
        while idx < n
            invariant
                n == players@.len(),
                idx <= n,
                sel == n || (sel < idx && players@[sel as int].player_id == player_id),
                sel == n ==> forall|t: int| 0 <= t < idx ==> players@[t].player_id != player_id,
                sel < n ==> forall|t: int| 0 <= t < sel ==> players@[t].player_id != player_id,
            decreases n - idx,
        {
            if sel == n && players[idx].player_id == player_id {
                sel = idx;
            }
            idx = idx + 1;
        }
        if sel == n {
            proof {
                lemma_find_player_none(players@, player_id);
            }
            return None;
        }
        proof {
            lemma_find_player_at(players@, player_id, sel as int);
        }
        let player = &players[sel];
        let ghost inv = player.blocks@;
        let m = player.blocks.len();
        let mut sorted: Vec<Block> = Vec::new();
        let mut t: usize = 0;
        proof {
            assert(inventory_fits(board, inv));
            assert(grids_of(inv.take(0)) =~~= Seq::<Seq<Seq<bool>>>::empty());
            assert(grids_of(sorted@) =~~= sort_desc(grids_of(inv.take(0))));
        }
        while t < m
            invariant
                inv == player.blocks@,
                m == inv.len(),
                t <= m,
                inventory_fits(board, inv),
                grids_of(sorted@) == sort_desc(grids_of(inv.take(t as int))),
                forall|u: int|
                    0 <= u < sorted@.len() ==> (#[trigger] sorted@[u]).wf() && board@.len()
                        + sorted@[u]@.len() + sorted@[u].width() <= usize::MAX && board.width()
                        + sorted@[u]@.len() + sorted@[u].width() <= usize::MAX,
                forall|k: int| 0 <= k < inv.len() ==> (#[trigger] inv[k]).wf(),
            decreases m - t,
        {
            let x = player.blocks[t].clone();
            let c = x.cells();
            let mut pos: usize = sorted.len();
            while pos > 0 && sorted[pos - 1].cells() < c
                invariant
                    pos <= sorted@.len(),
                    c == grid_cells(x@),
                    forall|u: int|
                        0 <= u < sorted@.len() ==> (#[trigger] sorted@[u]).wf() && board@.len()
                            + sorted@[u]@.len() + sorted@[u].width() <= usize::MAX && board.width()
                            + sorted@[u]@.len() + sorted@[u].width() <= usize::MAX,
                    forall|u: int|
                        pos <= u < sorted@.len() ==> grid_cells((#[trigger] sorted@[u])@) < c,
                decreases pos,
            {
                pos = pos - 1;
            }
            let ghost olds = sorted@;
            proof {
                assert forall|u: int|
                    pos <= u < grids_of(olds).len() implies grid_cells(
                    #[trigger] grids_of(olds)[u],
                ) < grid_cells(x@) by {
                    assert(grids_of(olds)[u] == olds[u]@);
                }
                if pos > 0 {
                    assert(grids_of(olds)[pos - 1] == olds[pos - 1]@);
                }
                lemma_insert_desc_at(grids_of(olds), x@, pos as int);
            }
            sorted.insert(pos, x);
            proof {
                assert(sorted@ == olds.insert(pos as int, x));
                assert forall|u: int| 0 <= u < sorted@.len() implies (#[trigger] grids_of(sorted@)[u])
                    == (grids_of(olds).take(pos as int) + seq![x@] + grids_of(olds).skip(
                    pos as int,
                ))[u] by {
                    assert(grids_of(sorted@)[u] == sorted@[u]@);
                    if u < pos {
                        assert(sorted@[u] == olds[u]);
                        assert(grids_of(olds)[u] == olds[u]@);
                    } else if u == pos {
                        assert(sorted@[u] == x);
                    } else {
                        assert(sorted@[u] == olds[u - 1]);
                        assert(grids_of(olds)[u - 1] == olds[u - 1]@);
                    }
                }
                assert(grids_of(sorted@) =~~= grids_of(olds).take(pos as int) + seq![x@]
                    + grids_of(olds).skip(pos as int));
                assert(grids_of(sorted@) == insert_desc(grids_of(olds), x@));
                let prev = grids_of(inv.take(t as int));
                let next = grids_of(inv.take(t + 1));
                assert(next.len() == t + 1);
                assert forall|u: int| 0 <= u < t + 1 implies (#[trigger] next[u]) == inv.take(
                    t + 1,
                )[u]@ by {}
                assert(next.drop_last() =~~= prev);
                assert(next.last() == inv[t as int]@);
                assert(x@ == inv[t as int]@);
                assert(sort_desc(next) == insert_desc(sort_desc(prev), inv[t as int]@));
            }
            t = t + 1;
        }
        proof {
            assert(inv.take(m as int) =~~= inv);
        }
        let ghost sgrids = sort_desc(grids_of(inv));
        let mut t2: usize = 0;
        proof {
            assert(sgrids.skip(0) =~~= sgrids);
        }
        while t2 < sorted.len()
            invariant
                board.wf(),
                inventory_fits(board, inv),
                grids_of(sorted@) == sgrids,
                t2 <= sorted@.len(),
                forall|u: int|
                    0 <= u < sorted@.len() ==> (#[trigger] sorted@[u]).wf() && board@.len()
                        + sorted@[u]@.len() + sorted@[u].width() <= usize::MAX && board.width()
                        + sorted@[u]@.len() + sorted@[u].width() <= usize::MAX,
                select_from(board@, board.width(), sgrids, player_id, first_block) == select_from(
                    board@,
                    board.width(),
                    sgrids.skip(t2 as int),
                    player_id,
                    first_block,
                ),
                greedy_selection(board@, board.width(), players@, player_id, first_block)
                    == select_from(board@, board.width(), sgrids, player_id, first_block),
            decreases sorted@.len() - t2,
        {
            proof {
                assert(grids_of(sorted@)[t2 as int] == sorted@[t2 as int]@);
            }
            let blk = &sorted[t2];
            let mut search = board.bruteforce_search_place(blk, player_id, first_block);
            let res = search.next();
            proof {
                assert(sgrids.skip(t2 as int)[0] == sgrids[t2 as int]);
                assert(blk@[0].len() == blk.width());
            }
            match res {
                Some(found_pos) => {
                    let chosen = sorted[t2].clone();
                    proof {
                        let fl = first_legal_from(
                            board@,
                            board.width(),
                            blk@,
                            blk.width(),
                            player_id,
                            first_block,
                            0,
                        );
                        assert(fl is Some);
                        assert(select_from(
                            board@,
                            board.width(),
                            sgrids.skip(t2 as int),
                            player_id,
                            first_block,
                        ) == Some((blk@, fl->0)));
                    }
                    return Some(
                        BlockPlacement {
                            block: chosen,
                            row: found_pos.row,
                            col: found_pos.col,
                            rotation: found_pos.rotation,
                            transposition: found_pos.transposition,
                        },
                    );
                },
                None => {
                    proof {
                        assert(sgrids.skip(t2 as int).drop_first() =~~= sgrids.skip(t2 + 1));
                        assert(select_from(
                            board@,
                            board.width(),
                            sgrids.skip(t2 as int),
                            player_id,
                            first_block,
                        ) == select_from(
                            board@,
                            board.width(),
                            sgrids.skip(t2 + 1),
                            player_id,
                            first_block,
                        ));
                    }
                    t2 = t2 + 1;
                },
            }
        }
        proof {
            assert(sgrids.skip(sorted@.len() as int) =~~= Seq::<Seq<Seq<bool>>>::empty());
        }
        None
    }
}

/// Law (strategy determinism): the greedy selection is a function of the
/// board state, the roster with its inventory order, and the move kind; two
/// selections from equal inputs are equal. There is no hidden randomness:
/// `GreedyStrategy::place` returns exactly this selection.
pub proof fn lemma_strategy_deterministic(
    g: Seq<Seq<u8>>,
    w: nat,
    players: Seq<Player>,
    id: u8,
    first: bool,
    r1: Option<(Seq<Seq<bool>>, int)>,
    r2: Option<(Seq<Seq<bool>>, int)>,
)
    requires
        r1 == greedy_selection(g, w, players, id, first),
        r2 == greedy_selection(g, w, players, id, first),
    ensures
        r1 == r2,
{
}

/// A grid inserted by `insert_desc` was the new grid or one of the old ones.
proof fn lemma_insert_desc_membership(s: Seq<Seq<Seq<bool>>>, g: Seq<Seq<bool>>, x: Seq<Seq<bool>>)
    requires
        insert_desc(s, g).contains(x),
    ensures
        x == g || s.contains(x),
    decreases s.len(),
{
    if s.len() == 0 {
        assert(insert_desc(s, g)[0] == g);
    } else if grid_cells(s.last()) >= grid_cells(g) {
        let i = choose|i: int| 0 <= i < insert_desc(s, g).len() && insert_desc(s, g)[i] == x;
        if i < s.len() {
            assert(s[i] == x);
        }
    } else {
        let i = choose|i: int| 0 <= i < insert_desc(s, g).len() && insert_desc(s, g)[i] == x;
        if i == insert_desc(s, g).len() - 1 {
            assert(s.contains(s.last()));
        } else {
            assert(insert_desc(s.drop_last(), g).contains(x));
            lemma_insert_desc_membership(s.drop_last(), g, x);
            if s.drop_last().contains(x) {
                let j = choose|j: int| 0 <= j < s.drop_last().len() && s.drop_last()[j] == x;
                assert(s[j] == x);
            }
        }
    }
}

/// A grid of the sorted sequence is a grid of the original sequence.
proof fn lemma_sort_desc_membership(s: Seq<Seq<Seq<bool>>>, x: Seq<Seq<bool>>)
    requires
        sort_desc(s).contains(x),
    ensures
        s.contains(x),
    decreases s.len(),
{
    if s.len() > 0 {
        lemma_insert_desc_membership(sort_desc(s.drop_last()), s.last(), x);
        if x == s.last() {
            assert(s[s.len() - 1] == x);
        } else {
            lemma_sort_desc_membership(s.drop_last(), x);
            let j = choose|j: int| 0 <= j < s.drop_last().len() && s.drop_last()[j] == x;
            assert(s[j] == x);
        }
    }
}

/// A piece grid with no legal candidate at all yields no candidate from any
/// cursor either.
proof fn lemma_no_candidate(
    g: Seq<Seq<u8>>,
    w: nat,
    b: Seq<Seq<bool>>,
    bw: nat,
    p: u8,
    first: bool,
    start: int,
)
    requires
        forall|i: int| !cand_legal(g, w, b, bw, p, first, i),
    ensures
        first_legal_from(g, w, b, bw, p, first, start) is None,
    decreases 8 * g.len() * w - start,
{
    let total = 8 * (g.len() as int) * (w as int);
    if 0 <= start < total {
        lemma_no_candidate(g, w, b, bw, p, first, start + 1);
    }
}

/// When no grid of a sequence has any legal candidate, nothing is selected
/// from it.
proof fn lemma_select_from_none(
    g: Seq<Seq<u8>>,
    w: nat,
    grids: Seq<Seq<Seq<bool>>>,
    p: u8,
    first: bool,
)
    requires
        forall|t: int, i: int|
            0 <= t < grids.len() ==> !(#[trigger] cand_legal(
                g,
                w,
                grids[t],
                grids[t][0].len(),
                p,
                first,
                i,
            )),
    ensures
        select_from(g, w, grids, p, first) is None,
    decreases grids.len(),
{
    if grids.len() > 0 {
        assert forall|i: int| !cand_legal(g, w, grids[0], grids[0][0].len(), p, first, i) by {
            assert(grids[0] == grids[0]);
        }
        lemma_no_candidate(g, w, grids[0], grids[0][0].len(), p, first, 0);
        assert forall|t: int, i: int| 0 <= t < grids.drop_first().len() implies !(
        #[trigger] cand_legal(
            g,
            w,
            grids.drop_first()[t],
            grids.drop_first()[t][0].len(),
            p,
            first,
            i,
        )) by {
            assert(grids.drop_first()[t] == grids[t + 1]);
        }
        lemma_select_from_none(g, w, grids.drop_first(), p, first);
    }
}

/// Law (elimination): when no piece of the located player's whole remaining
/// inventory has a legal candidate anywhere on the board, the greedy policy
/// selects nothing.
pub proof fn lemma_elimination(
    g: Seq<Seq<u8>>,
    w: nat,
    players: Seq<Player>,
    id: u8,
    first: bool,
    k: int,
)
    requires
        find_player(players, id) == Some(k),
        0 <= k < players.len(),
        forall|t: int, i: int|
            0 <= t < players[k].blocks@.len() ==> !(#[trigger] cand_legal(
                g,
                w,
                players[k].blocks@[t]@,
                players[k].blocks@[t]@[0].len(),
                id,
                first,
                i,
            )),
    ensures
        greedy_selection(g, w, players, id, first) is None,
{
    let inv = grids_of(players[k].blocks@);
    let sorted = sort_desc(inv);
    assert forall|t: int, i: int| 0 <= t < sorted.len() implies !(#[trigger] cand_legal(
        g,
        w,
        sorted[t],
        sorted[t][0].len(),
        id,
        first,
        i,
    )) by {
        assert(sorted.contains(sorted[t]));
        lemma_sort_desc_membership(inv, sorted[t]);
        let j = choose|j: int| 0 <= j < inv.len() && inv[j] == sorted[t];
        assert(inv[j] == players[k].blocks@[j]@);
        assert(!cand_legal(g, w, players[k].blocks@[j]@, players[k].blocks@[j]@[0].len(), id, first, i));
    }
    lemma_select_from_none(g, w, sorted, id, first);
}

} // verus!
