//! Threat feature indexing for a chess position evaluator.
//!
//! A *threat* is an attacking piece on one square menacing a piece on another
//! square. This crate maps each threat, seen from a point of view and a board
//! orientation, to one index in a flat feature space. The mapping is built
//! once as an immutable [`ThreatTables`] value and then queried with
//! [`threat_index`].

pub mod attacks;
pub mod bitboard;
pub mod board;
pub mod layout;
pub mod tables;
pub mod threats;

pub use attacks::pseudo_attacks;
pub use bitboard::Bitboard;
pub use board::{Color, Piece, PieceType, Square};
pub use tables::{initialize, ThreatTables};
pub use threats::threat_index;
