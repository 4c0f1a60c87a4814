//! Running tournaments between Tak engines: who plays whom in which round,
//! how a game is driven over the engine protocol and its clocks, how the
//! finished games are written out in order, and how they add up.

pub mod cli;
pub mod counting;
pub mod decimal;
pub mod driver;
pub mod engine;
pub mod game;
pub mod notation;
pub mod openings;
pub mod pairing;
pub mod pgn_writer;
pub mod simulation;
pub mod sprt;
pub mod standings;
pub mod stats;
pub mod text;
pub mod tournament;
pub mod uci;
