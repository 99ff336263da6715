//! The computer opponents.

pub mod name;
