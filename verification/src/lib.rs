//! A verified chess rules engine: a board model, pseudo-legal move
//! generation, check detection, a legality filter, a state-transition
//! function with castling and en-passant bookkeeping, an append-only game
//! history, and a fixed-depth minimax move chooser with a non-blocking
//! polling state machine.

pub mod board;
pub mod check;
pub mod engine;
pub mod game;
pub mod legal;
pub mod moves;
pub mod transition;
pub mod types;
