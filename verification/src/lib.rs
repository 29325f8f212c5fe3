//! A chess rules engine.
//!
//! The engine keeps the state of a board, lists the squares that a piece may
//! move to under its movement pattern, detects check and checkmate, and
//! drives a small turn-based state machine. Castling, capture en passant and
//! draws by repetition are not part of it, and a move is legal here whether
//! or not it leaves the mover's own king attacked.
//!
//! Every executable function carries a contract over the mathematical model
//! of a board ([`types::Grid`]) or of a game ([`types::Position`]) and is
//! proved against it.
//!
//! - [`types`]: colors, pieces, squares, the board, the game and their models;
//! - [`notation`]: square labels such as `A2`;
//! - [`pattern`]: the movement patterns, as predicates on the model;
//! - [`movegen`]: the generators of the legal destinations;
//! - [`promotion`]: the promotion rule;
//! - [`game`]: the starting position, move requests and their application;
//! - [`check`]: check and checkmate;
//! - [`ai`]: evaluation by material and a brute-force search;
//! - [`console`]: move commands read from text, and the board drawn as text.

pub mod ai;
pub mod check;
pub mod console;
pub mod game;
pub mod movegen;
pub mod notation;
pub mod pattern;
pub mod promotion;
pub mod types;

pub use crate::types::{Board, ChessError, Color, Game, GameState, Move, Piece, PieceType, Square};
