//! Dice rolling for chat rooms: command recognition, dice notation,
//! dice pools, and the replies sent back to the room.

pub mod bot;
pub mod cofd;
pub mod commands;
pub mod context;
pub mod db;
pub mod dice;
pub mod error;
pub mod help;
pub mod notation;
pub mod parser;
pub mod roll;
pub mod text;
pub mod variables;
