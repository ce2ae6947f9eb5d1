//! Rule engine and move-search core of a Blokus-style tile-placement game.
//!
//! Pieces (`block::Block`) are polyomino shapes on a boolean grid; the shared
//! `board::Board` holds cell ownership markers and decides placement legality
//! under the overlap, edge-adjacency and corner-contact rules; the search in
//! `board` enumerates candidate placements in a fixed order, and
//! `strategy::GreedyStrategy` picks a move for an automated player.

pub mod matrix;

pub mod block;

pub mod board;

pub mod strategy;










