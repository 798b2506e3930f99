//! A chess position engine: board representation, pseudo-legal and legal move
//! generation, attack detection and material evaluation, with machine-checked
//! contracts.

pub mod piece;
pub mod geometry;
pub mod board;
pub mod diagram;
pub mod moves;
pub mod movegen;
pub mod movegen_facts;
pub mod attack;
pub mod rays;
pub mod position;
pub mod play;
pub mod reach;
pub mod theorems;
pub mod pins;

pub use board::Board;
pub use geometry::Square;
pub use moves::{Move, MoveKind};
pub use piece::{Color, Kind, Piece};
pub use position::{Castling, Position, SideRights};
