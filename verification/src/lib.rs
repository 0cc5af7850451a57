//! A game for practising reading an analog clock: the time model, answer
//! parsing, difficulty rules, scoring, session flow and a character canvas.

pub mod text;
pub mod clock;
pub mod difficulty;
pub mod cli;
pub mod duration;
pub mod score;
pub mod canvas;
pub mod game;
pub mod render;
