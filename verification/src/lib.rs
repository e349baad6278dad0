//! A chess rules engine on a sentinel-bordered mailbox board.
//!
//! To start a game, create a [`Game`] object with [`default_game`] or
//! [`fen_game`].
//!
//! To get the current board state, use [`Game::get_board_2d`].
//!
//! To get the current player, use [`Game::get_player`].
//!
//! To get all valid plys for the current player, use [`Game::get_plys`].
//!
//! To get all valid plys for a specific piece (based on the current
//! player), use [`Game::get_plys_from_pos`].
//!
//! To make a ply, use [`Game::ply`].
//!
//! Castling, en passant and promotion are not played, and a game without
//! legal plys is not told apart into checkmate and stalemate.

use vstd::prelude::*;

pub mod board;
pub mod fen;
pub mod game;
pub mod notation;
pub mod ply_gen;
pub mod ply_lemmas;
pub mod start;

pub use crate::board::{Board, BoardError, Color, Pos, Tile};
pub use crate::fen::FenParseError;
pub use crate::game::Game;
pub use crate::ply_gen::{Ply, PlyError};

verus! {

/// Returns a [`Game`] object representing the beginning position in chess.
///
/// If you wish to start a game from a specific position, consider using
/// [`fen_game`] instead.
pub fn default_game() -> (game: Game)
    ensures
        game@.tiles == crate::start::start_tiles(),
        game@.player == Color::White,
        game@.is_current(),
{
    proof {
        crate::start::lemma_start_fen();
    }
    match Game::from_fen("rnbqkbnr/pppppppp/8/8/8/8/PPPPPPPP/RNBQKBNR w KQkq - 0 1") {
        Ok(game) => game,
        Err(_) => Game::new(),
    }
}

/// Returns a [`Game`] object representing an arbitrary position in chess,
/// given as FEN text. `8/8/8/8/8/8/8/8 w - - 0 1` is the empty board.
pub fn fen_game(fen: &str) -> (result: Result<Game, FenParseError>)
    ensures
        match crate::fen::parse_fen(fen@) {
            Ok(position) => result matches Ok(game) && game@.tiles == position.0 && game@.player
                == position.1 && game@.is_current(),
            Err(e) => result matches Err(error) && error == e,
        },
{
    Game::from_fen(fen)
}

} // verus!
