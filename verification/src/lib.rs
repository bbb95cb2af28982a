//! Scoring and session logic of a code-breaking game: a hidden combination of
//! pieces has to be found within a limited number of guesses, and every guess
//! is answered with the number of pieces that are in place, misplaced or
//! absent.

pub mod check;
pub mod combination;
pub mod counting;
pub mod error;
pub mod game;
pub mod generate;
pub mod input;
pub mod render;
pub mod ruleset;
pub mod scoring;

pub use check::{check, GuessResult};
pub use combination::Combination;
pub use error::GameError;
pub use game::{Game, GameState};
pub use generate::{accept_piece, gen_combination};
pub use input::{parse_guess, parse_text, GuessInput};
pub use render::fmt_combination;
pub use ruleset::RuleSet;
