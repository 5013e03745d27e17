//! The engine of a falling-block puzzle: cells and how they combine, the
//! seven pieces, the board with its moves and line clearing, and the game's
//! phases from spawn to game over.

pub mod cell;
pub mod tetromino;
pub mod board;
pub mod game;
