//! A two-player tic-tac-toe engine on a fixed 3x3 board, with move
//! validation, turn alternation and win/tie detection, plus the parser for
//! the two-character move notation (`1A` .. `3C`).

pub mod game;
pub mod laws;
pub mod notation;

pub use game::{Game, GameView, MoveError, Piece, Tile, Tiles, Winner};
pub use notation::{parse_move, InvalidMove};
