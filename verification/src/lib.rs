pub mod bits;
pub mod board;
pub mod chess;
pub mod eval;
pub mod fen;
pub mod fmt;
pub mod game;
pub mod legality;
pub mod magic;
pub mod magics;
pub mod minimax;
pub mod montecarlo;
pub mod moves;
pub mod perft;
pub mod pgn;
pub mod tt;
pub mod types;
pub mod zobrist;
