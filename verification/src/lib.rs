//! A verified engine for the two-player SOS board game.
//!
//! Players alternately place `S` or `O` symbols on a square grid; completing
//! an `S-O-S` line scores a point. The engine tracks the board, turn order,
//! scores and the win-condition state machine, and keeps a replayable
//! recording of every accepted move with an exact text serialization.

pub mod basic_game;
pub mod board;
pub mod codec;
pub mod game;
pub mod game_enums;
pub mod player;
pub mod recording;
pub mod text;
