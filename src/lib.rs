//! Tic-tac-toe on a 3x3 grid: the board model, detection of won and drawn
//! positions, and an exhaustive minimax search that picks an optimal move.
pub mod board;
pub mod render;
pub mod search;
