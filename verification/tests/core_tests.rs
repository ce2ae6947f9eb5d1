use blokus::block::Block;
use blokus::block::BlockError;
use blokus::board::Board;
use blokus::strategy::GreedyStrategy;
use blokus::strategy::Player;

#[test]
fn test_block_from_str() {
    let b = Block::from_str("#");
    assert!(b.is_ok());
    let b = b.unwrap();
    assert_eq!(b.nrows(), 1);
    assert_eq!(b.ncols(), 1);

    let b = Block::from_str("##");
    assert!(b.is_ok());
    let b = b.unwrap();
    assert_eq!(b.nrows(), 1);
    assert_eq!(b.ncols(), 2);

    let b = Block::from_str("###");
    assert!(b.is_ok());
    let b = b.unwrap();
    assert_eq!(b.nrows(), 1);
    assert_eq!(b.ncols(), 3);

    let b = Block::from_str("#\n#");
    assert!(b.is_ok());
    let b = b.unwrap();
    assert_eq!(b.nrows(), 2);
    assert_eq!(b.ncols(), 1);

    let b = Block::from_str("# \n##");
    assert!(b.is_ok());
    let b = b.unwrap();
    assert_eq!(b.nrows(), 2);
    assert_eq!(b.ncols(), 2);

    let b = Block::from_str(" #\n##");
    assert!(b.is_ok());
    let b = b.unwrap();
    assert_eq!(b.nrows(), 2);
    assert_eq!(b.ncols(), 2);
}

#[test]
fn test_rotate_9() {
    let b = Block::from_str("#  \n###");
    assert!(b.is_ok());

    let b = b.unwrap();
    assert_eq!(b, b.rotate_90().rotate_90().rotate_90().rotate_90());
    assert_eq!(b.rotate_90(), Block::from_str("##\n# \n# ").unwrap());
    assert_eq!(b.rotate_90().rotate_90(), Block::from_str("###\n  #").unwrap());
    assert_eq!(
        b.rotate_90().rotate_90().rotate_90(),
        Block::from_str(" #\n #\n##").unwrap()
    );
}

#[test]
fn test_board_place() {
    let b = Block::from_str("#  \n###");
    assert!(b.is_ok());
    let b = b.unwrap();

    let mut board = Board::new(10, 10);
    board.place(0, 0, &b, 1);
    println!("{:?}", board);

    let placement_rule = board.can_place(0, 3, &b.rotate_90().rotate_90(), 1, false);
    println!("{:?}", placement_rule);
    board.place(0, 3, &b.rotate_90().rotate_90(), 1);
    println!("{:?}", board);
}

#[test]
fn test_default_block_set() {
    let blocks = Block::default_block_set();
    for b in blocks {
        println!("{}", b.printable_string());
    }
}

#[test]
fn catalog_has_standard_sizes() {
    let blocks = Block::default_block_set();
    assert_eq!(blocks.len(), 21);
    let sizes: Vec<usize> = blocks.iter().map(|b| b.cells()).collect();
    assert_eq!(
        sizes,
        vec![1, 2, 3, 3, 4, 4, 4, 4, 4, 5, 5, 5, 5, 5, 5, 5, 5, 5, 5, 5, 5]
    );
    let total: usize = sizes.iter().sum();
    assert_eq!(total, 89);
}

#[test]
fn from_str_rejects_unequal_rows() {
    let r = Block::from_str("##\n#");
    assert!(matches!(r, Err(BlockError::DimensionMismatch)));
    let r = Block::from_str("#\n###\n#");
    assert!(matches!(r, Err(BlockError::DimensionMismatch)));
}

#[test]
fn from_str_rejects_unmarked_grids() {
    let r = Block::from_str("");
    assert!(matches!(r, Err(BlockError::EmptyBlock)));
    let r = Block::from_str("   ");
    assert!(matches!(r, Err(BlockError::EmptyBlock)));
    let r = Block::from_str("  \n  ");
    assert!(matches!(r, Err(BlockError::EmptyBlock)));
}

#[test]
fn from_cells_builds_the_grid() {
    let b = Block::from_cells(2, 3, vec![true, false, false, true, true, true]);
    assert_eq!(b, Block::from_str("#  \n###").unwrap());
    assert_eq!(b.nrows(), 2);
    assert_eq!(b.ncols(), 3);
    assert_eq!(b.cells(), 4);
    assert!(b.cell_at_row_col(0, 0));
    assert!(!b.cell_at_row_col(0, 1));
    assert!(b.cell_at_row_col(1, 2));
}

#[test]
fn printable_string_round_trip() {
    let b = Block::from_str("#__\n###").unwrap();
    assert_eq!(b.printable_string(), "#__\n###\n");
    let again = Block::from_str(&b.printable_string()).unwrap();
    assert_eq!(b, again);
}

#[test]
fn transpose_swaps_rows_and_columns() {
    let b = Block::from_str("## \n ##").unwrap();
    let t = b.transpose();
    assert_eq!(t, Block::from_str("# \n##\n #").unwrap());
    assert_eq!(t.nrows(), 3);
    assert_eq!(t.ncols(), 2);
    assert_eq!(t.cells(), b.cells());
}

#[test]
fn block_clone_is_equal() {
    let b = Block::from_str("#_\n##").unwrap();
    let c = b.clone();
    assert_eq!(b, c);
}

#[test]
fn board_new_is_all_free() {
    let board = Board::new(4, 6);
    assert_eq!(board.nrows(), 4);
    assert_eq!(board.ncols(), 6);
    for r in 0..4 {
        for c in 0..6 {
            assert!(board.free_at_row_col(r, c));
            assert_eq!(board.at_row_col(r, c), 0);
        }
    }
}

#[test]
fn out_of_range_cells_read_as_free_markers() {
    let board = Board::new(3, 3);
    assert_eq!(board.at_row_col(3, 0), 0);
    assert_eq!(board.at_row_col(0, 17), 0);
    assert!(!board.free_at_row_col(3, 0));
    assert!(!board.free_at_row_col(0, 17));
}

#[test]
fn place_writes_the_player_marker() {
    let b = Block::from_str("##\n#_").unwrap();
    let mut board = Board::new(5, 5);
    board.place(1, 2, &b, 3);
    assert_eq!(board.at_row_col(1, 2), 3);
    assert_eq!(board.at_row_col(1, 3), 3);
    assert_eq!(board.at_row_col(2, 2), 3);
    assert_eq!(board.at_row_col(2, 3), 0);
    assert_eq!(board.at_row_col(0, 0), 0);
}

#[test]
fn overlap_is_always_rejected() {
    let one = Block::from_str("#").unwrap();
    let mut board = Board::new(5, 5);
    board.place(0, 0, &one, 1);
    // Overlapping a cell of any owner fails for every player and move kind.
    for player in 1..4u8 {
        for first in [true, false] {
            let rule = board.can_place(0, 0, &one, player, first);
            assert!(!rule.placement_ok());
            assert_eq!(rule.overlapping, Some(true));
            assert_eq!(rule.own_block_touching_sides, None);
            assert_eq!(rule.no_corner, None);
        }
    }
}

#[test]
fn footprint_beyond_the_edge_is_rejected() {
    let bar = Block::from_str("###").unwrap();
    let board = Board::new(10, 10);
    // Anchored at column 8, the bar would reach column 10: off the board.
    let rule = board.can_place(0, 8, &bar, 1, true);
    assert!(!rule.placement_ok());
    assert_eq!(rule.overlapping, Some(true));
    // Anchored at column 7 it fits and claims the corner at (0, 9).
    let rule = board.can_place(0, 7, &bar, 1, true);
    assert!(rule.placement_ok());
}

#[test]
fn first_move_must_claim_a_free_corner() {
    let one = Block::from_str("#").unwrap();
    let board = Board::new(5, 5);
    for r in 0..5 {
        for c in 0..5 {
            let rule = board.can_place(r, c, &one, 1, true);
            let corner = (r == 0 || r == 4) && (c == 0 || c == 4);
            assert_eq!(rule.placement_ok(), corner);
        }
    }
    // A taken corner no longer counts.
    let mut board = Board::new(5, 5);
    board.place(0, 0, &one, 2);
    let rule = board.can_place(0, 0, &one, 1, true);
    assert!(!rule.placement_ok());
}

#[test]
fn own_edge_contact_is_rejected() {
    let domino = Block::from_str("##").unwrap();
    let one = Block::from_str("#").unwrap();
    let mut board = Board::new(6, 6);
    board.place(0, 0, &domino, 1);
    // Directly right of (0, 1): shares an edge, no overlap.
    let rule = board.can_place(0, 2, &one, 1, false);
    assert!(!rule.placement_ok());
    assert_eq!(rule.overlapping, Some(false));
    assert_eq!(rule.own_block_touching_sides, Some(true));
    assert_eq!(rule.no_corner, None);
    // Below (1, 0): shares an edge too.
    let rule = board.can_place(1, 0, &one, 1, false);
    assert!(!rule.placement_ok());
    assert_eq!(rule.own_block_touching_sides, Some(true));
    // Another player is free to touch that edge (corner rule permitting).
    let rule = board.can_place(0, 2, &one, 2, false);
    assert_eq!(rule.own_block_touching_sides, Some(false));
}

#[test]
fn corner_contact_is_required_and_suffices() {
    let domino = Block::from_str("##").unwrap();
    let one = Block::from_str("#").unwrap();
    let mut board = Board::new(6, 6);
    board.place(0, 0, &domino, 1);
    // Diagonal to (0, 1): a pure corner touch is accepted.
    let rule = board.can_place(1, 2, &one, 1, false);
    assert!(rule.placement_ok());
    assert_eq!(rule.overlapping, Some(false));
    assert_eq!(rule.own_block_touching_sides, Some(false));
    assert_eq!(rule.no_corner, Some(false));
    // Touching nothing of one's own colour is rejected.
    let rule = board.can_place(4, 4, &one, 1, false);
    assert!(!rule.placement_ok());
    assert_eq!(rule.no_corner, Some(true));
}

#[test]
fn search_yields_candidates_in_order_and_resumes() {
    let one = Block::from_str("#").unwrap();
    let board = Board::new(4, 4);
    let mut search = board.bruteforce_search_place(&one, 1, true);
    // A single cell on an empty board is legal exactly at the four corners;
    // the scan runs column-first, then row, then rotation, then transposition.
    let p = search.next().unwrap();
    assert_eq!((p.row, p.col, p.rotation, p.transposition), (0, 0, 0, 0));
    let p = search.next().unwrap();
    assert_eq!((p.row, p.col, p.rotation, p.transposition), (0, 3, 0, 0));
    let p = search.next().unwrap();
    assert_eq!((p.row, p.col, p.rotation, p.transposition), (3, 0, 0, 0));
    let p = search.next().unwrap();
    assert_eq!((p.row, p.col, p.rotation, p.transposition), (3, 3, 0, 0));
    // The same four positions repeat under the other seven orientations.
    let p = search.next().unwrap();
    assert_eq!((p.row, p.col, p.rotation, p.transposition), (0, 0, 1, 0));
}

#[test]
fn search_finds_nothing_on_a_full_square() {
    let square = Block::from_str("##\n##").unwrap();
    let mut board = Board::new(2, 2);
    board.place(0, 0, &square, 2);
    let one = Block::from_str("#").unwrap();
    let mut search = board.bruteforce_search_place(&one, 1, true);
    assert!(search.next().is_none());
}

#[test]
fn strategy_plays_the_largest_piece_first() {
    let board = Board::new(20, 20);
    let players = vec![Player {
        player_id: 1,
        human: false,
        blocks: Block::default_block_set(),
    }];
    let placement = GreedyStrategy::place(&board, 1, &players, true).unwrap();
    // The first five-cell piece in catalog order is the straight bar, and the
    // first legal candidate for it claims the top-left corner.
    assert_eq!(placement.block, Block::from_str("#####").unwrap());
    assert_eq!(placement.row, 0);
    assert_eq!(placement.col, 0);
    assert_eq!(placement.rotation, 0);
    assert_eq!(placement.transposition, 0);
    let (row, col, effective) = placement.as_row_col_block();
    assert_eq!((row, col), (0, 0));
    assert_eq!(effective, Block::from_str("#####").unwrap());
}

#[test]
fn strategy_is_deterministic() {
    let mut board = Board::new(20, 20);
    let one = Block::from_str("#").unwrap();
    board.place(0, 0, &one, 1);
    let players = vec![Player {
        player_id: 1,
        human: false,
        blocks: Block::default_block_set(),
    }];
    let a = GreedyStrategy::place(&board, 1, &players, false).unwrap();
    let b = GreedyStrategy::place(&board, 1, &players, false).unwrap();
    assert_eq!(a.block, b.block);
    assert_eq!((a.row, a.col, a.rotation, a.transposition), (b.row, b.col, b.rotation, b.transposition));
}

#[test]
fn strategy_reports_elimination() {
    // The whole board is walled off by another player: no first move can
    // claim a corner, so the player has no legal placement for any piece.
    let square = Block::from_str("##\n##").unwrap();
    let mut board = Board::new(2, 2);
    board.place(0, 0, &square, 2);
    let players = vec![
        Player { player_id: 1, human: false, blocks: Block::default_block_set() },
        Player { player_id: 2, human: false, blocks: vec![] },
    ];
    assert!(GreedyStrategy::place(&board, 1, &players, true).is_none());
    // An unknown player identifier selects nothing either.
    assert!(GreedyStrategy::place(&board, 7, &players, true).is_none());
}

#[test]
fn as_row_col_block_applies_transposition_then_rotation() {
    let b = Block::from_str("#  \n###").unwrap();
    let placement = blokus::strategy::BlockPlacement {
        block: b.clone(),
        row: 2,
        col: 5,
        rotation: 1,
        transposition: 0,
    };
    let (row, col, eff) = placement.as_row_col_block();
    assert_eq!((row, col), (2, 5));
    assert_eq!(eff, Block::from_str("##\n# \n# ").unwrap());

    let placement = blokus::strategy::BlockPlacement {
        block: b,
        row: 0,
        col: 0,
        rotation: 0,
        transposition: 1,
    };
    let (_, _, eff) = placement.as_row_col_block();
    assert_eq!(eff, Block::from_str("##\n #\n #").unwrap());
}

#[test]
fn ties_in_cell_count_keep_catalog_order() {
    // Both pieces have three cells; the stable descending sort keeps the
    // inventory order, so the corner tromino is tried and played first.
    let corner = Block::from_str("#_\n##").unwrap();
    let bar = Block::from_str("###").unwrap();
    let board = Board::new(9, 9);
    let players = vec![Player {
        player_id: 1,
        human: false,
        blocks: vec![corner.clone(), bar.clone()],
    }];
    let placement = GreedyStrategy::place(&board, 1, &players, true).unwrap();
    assert_eq!(placement.block, corner);

    let players = vec![Player {
        player_id: 1,
        human: false,
        blocks: vec![bar.clone(), corner.clone()],
    }];
    let placement = GreedyStrategy::place(&board, 1, &players, true).unwrap();
    assert_eq!(placement.block, bar);
}

#[test]
fn full_game_terminates_with_every_player_placing() {
    let mut players: Vec<Player> = (1..=2u8)
        .map(|id| Player { player_id: id, human: false, blocks: Block::default_block_set() })
        .collect();
    let players_id: Vec<u8> = players.iter().map(|p| p.player_id).collect();
    let mut board = Board::new(8, 8);
    let mut eliminated: Vec<u8> = Vec::new();
    let mut turn: usize = 0;
    while eliminated.len() < players_id.len() {
        assert!(turn < 50, "the game must run out of moves");
        for &player_id in players_id.iter() {
            if eliminated.contains(&player_id) {
                continue;
            }
            let placement = GreedyStrategy::place(&board, player_id, &players, turn == 0);
            let position = players.iter().position(|p| p.player_id == player_id).unwrap();
            if let Some(placement) = placement {
                let index = players[position]
                    .blocks
                    .iter()
                    .position(|b| *b == placement.block)
                    .unwrap();
                players[position].blocks.remove(index);
                let (row, col, block) = placement.as_row_col_block();
                assert!(board
                    .can_place(row, col, &block, player_id, turn == 0)
                    .placement_ok());
                board.place(row, col, &block, player_id);
            } else {
                eliminated.push(player_id);
            }
        }
        turn += 1;
    }
    // Every player claimed a corner in round zero, so each placed something.
    for player in &players {
        let unused: usize = player.blocks.iter().map(|b| b.cells()).sum();
        assert!(unused < 89);
    }
    let mut owners: Vec<u8> = Vec::new();
    for r in 0..8 {
        for c in 0..8 {
            let v = board.at_row_col(r, c);
            if v != 0 && !owners.contains(&v) {
                owners.push(v);
            }
        }
    }
    owners.sort();
    assert_eq!(owners, vec![1, 2]);
}
