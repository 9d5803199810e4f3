//! Turn-based, multi-player word guessing: guess scoring, the game's
//! lifecycle and turn rotation, and the coordination of guesses, turn
//! timeouts, quits and cancellations over one game aggregate.

pub mod scoring;
pub mod text;
pub mod clock;
pub mod game;
pub mod lifecycle;
pub mod turns;
pub mod ids;
pub mod messages;
pub mod validate;
