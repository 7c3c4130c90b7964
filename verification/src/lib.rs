//! Tic-tac-toe on a nine-cell board: move application, win and draw
//! detection, an exhaustive minimax search, and the turn-taking rules of a
//! game between a person (noughts) and the search engine (crosses).

pub mod board;
pub mod detect;
pub mod moves;
pub mod search;
pub mod render;
pub mod game;
