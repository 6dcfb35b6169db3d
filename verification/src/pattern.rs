//! Matching values against patterns.
//!
//! [`value`] holds the values and [`shape`] the patterns, with what it means
//! for a value to match one; [`slots`] builds shapes from positions as
//! written. [`select`] matches a value against one pattern or against the arms
//! of a match. [`cover`] says what the text of a pattern shows it to match,
//! and [`table`] checks by it, when a match is built, that the arms cover the
//! values the match is meant for. [`bindings`] holds what a match binds,
//! [`guard`] the conditions on it, and [`place`] the places in a value that a
//! match can bind. [`laws`] states what holds of every match.

pub mod bindings;
pub mod cover;
pub mod guard;
pub mod laws;
pub mod matcher;
pub mod place;
pub mod select;
pub mod shape;
pub mod slots;
pub mod table;
pub mod value;
