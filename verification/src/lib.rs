//! Search core of a chess engine: an integer evaluation network, the
//! classification of positions, and a game tree searched by playouts.

pub mod arena;
pub mod evaluation;
pub mod nnue_eval;
pub mod path;
pub mod position;
pub mod search_tree;
pub mod state;
pub mod transposition_table;
