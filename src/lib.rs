//! Solver for calendar tiling puzzles: a fixed set of polyomino pieces is
//! placed on an 8x8 board so that only the cells of one date stay uncovered.
//!
//! Boards and placed pieces are 64-bit cell masks ([`bitboard::BitBoard`]);
//! piece shapes are small masks in a 4x4 local grid ([`bitpiece::BitPiece`]).
//! [`board::Board::solve`] enumerates placements depth first, and
//! [`variants`] holds the boards, pieces and date cells of each puzzle.

pub mod bitboard;
pub mod bitpiece;
pub mod board;
pub mod date;
pub mod piece;
pub mod search_laws;
pub mod shape_laws;
mod text;
pub mod variants;

pub use board::Board;
