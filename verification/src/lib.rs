pub mod bits;
pub mod bitboard;
pub mod state;
pub mod position;
pub mod util;
pub mod precompute;
pub mod magics;
pub mod movegen;
pub mod game;
pub mod piece;
pub mod square;
pub mod session;
pub mod evaluation;
pub mod search;
