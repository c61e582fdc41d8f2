//! Legal move generation and game-state classification for standard chess.
//!
//! A [`Game`] holds a position: the board, the side to move, the en-passant
//! marker, the squares of the two kings and the half-move clock. It starts
//! at [`Game::starting_position`] or at a position read from text by
//! [`Game::new`] or [`Game::try_new`]. Squares count from 0 to 63, row by
//! row, from a8 to h1.
//!
//! [`Game::get_all_legal_moves`] and [`Game::get_legal_moves`] list the
//! legal moves, [`Game::make_move`] makes one of them, and
//! [`Game::make_move_from_to`] looks a move up by its squares and makes it
//! if it is legal. [`Game::get_game_state`] tells check, checkmate,
//! stalemate and the two draws that need no history; repetition of
//! positions is not detected.
//!
//! Every contract is stated over the mathematical view of a game, a
//! [`position::Position`], and over the rules in [`rules`]. The functions
//! that generate or make moves require a well-formed position
//! ([`position::Position::wf`]); the starting position is well formed, every
//! move from the lists keeps a position so, and [`Game::is_well_formed`]
//! tests a position that comes from elsewhere. What holds of all positions
//! is proved in [`laws`], [`symmetry`] and [`reach`].

pub mod fen;
pub mod game;
pub mod laws;
pub mod mailbox;
pub mod movegen;
pub mod moves;
pub mod piece;
pub mod position;
pub mod reach;
pub mod render;
pub mod rules;
pub mod symmetry;

pub use fen::convert_algebraic_notation_to_number;
pub use game::{Game, GameState};
pub use moves::{Move, BISHOP_PROMOTION, KNIGHT_PROMOTION, QUEEN_PROMOTION, ROOK_PROMOTION};
pub use piece::{Piece, BISHOP, BLACK, EMPTY, KING, KNIGHT, PAWN, QUEEN, ROOK, WHITE};
