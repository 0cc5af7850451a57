//! Scoring of rounds, the tally of a session and the record that is saved.

pub mod record;
pub mod stats;
