//! A poker engine: the card model, the canonical deck, the classification of a
//! dealt collection into a ranked hand with its tie-break key, and the order
//! between classified hands that decides a showdown.

pub mod ai;
pub mod cards;
pub mod questions;
