//! The player's choices for a session.

use vstd::prelude::*;
use crate::difficulty::{precision, shows_seconds, Difficulty};

verus! {

/// Visual theme used by the clock.
#[derive(Copy, Clone, Debug, PartialEq, Eq, Structural)]
pub enum Theme {
    Classic,
    Monochrome,
    Unicode,
}

/// Whether the second hand is drawn.
#[derive(Copy, Clone, Debug, PartialEq, Eq, Structural)]
pub enum SecondHandMode {
    /// Decided by the difficulty.
    Auto,
    Show,
    Hide,
}

/// The kind of session.
#[derive(Copy, Clone, Debug, PartialEq, Eq, Structural)]
pub enum GameMode {
    /// Clocks until the player stops; never saved.
    Practice,
    /// A fixed number of rounds.
    Challenge,
    /// As many rounds as fit in a time limit.
    RapidFire,
}

impl Default for SecondHandMode {
    fn default() -> (m: Self)
        ensures
            m == SecondHandMode::Auto,
    {
        SecondHandMode::Auto
    }
}

impl Default for GameMode {
    fn default() -> (m: Self)
        ensures
            m == GameMode::Practice,
    {
        GameMode::Practice
    }
}

pub open spec fn resolves_to(mode: SecondHandMode, difficulty: Difficulty) -> bool {
    match mode {
        SecondHandMode::Auto => shows_seconds(difficulty),
        SecondHandMode::Show => true,
        SecondHandMode::Hide => false,
    }
}

impl SecondHandMode {
    /// Whether the second hand is drawn at the given difficulty.
    pub fn resolve(self, difficulty: Difficulty) -> (show: bool)
        ensures
            show == resolves_to(self, difficulty),
    {
        match self {
            SecondHandMode::Auto => difficulty.show_seconds_by_default(),
            SecondHandMode::Show => true,
            SecondHandMode::Hide => false,
        }
    }
}

/// `Hide` never draws the second hand and `Show` always does, at every
/// difficulty; `Auto` draws it exactly at the levels that ask for a reading
/// finer than a minute.
pub proof fn lemma_resolve(difficulty: Difficulty)
    ensures
        !resolves_to(SecondHandMode::Hide, difficulty),
        resolves_to(SecondHandMode::Show, difficulty),
        resolves_to(SecondHandMode::Auto, difficulty) == (precision(difficulty) < 60),
{
}

/// The options of a session, as given on the command line.
#[derive(Copy, Clone, Debug)]
pub struct Cli {
    /// Accuracy required for a correct answer.
    pub difficulty: Difficulty,
    /// Visual theme used by the clock.
    pub theme: Theme,
    /// The kind of session.
    pub mode: GameMode,
    /// Number of rounds to play. Omit to play until quitting.
    pub rounds: Option<u32>,
    /// Length of a rapid-fire session, in seconds.
    pub rapid_seconds: u64,
    /// Override the detected terminal width
    pub width: Option<u16>,
    /// Override the detected terminal height
    pub height: Option<u16>,
    /// Do not clear the terminal between rounds.
    pub no_clear: bool,
    /// Whether or not to show seconds hand. Auto mode uses difficulty to decide.
    pub show_seconds: SecondHandMode,
    /// Print the saved scores instead of playing.
    pub print_scores: bool,
}

} // verus!
