//! Exact rules for numeric casts and for matching values against patterns.
//!
//! [`numeric`] casts a value of one fixed-width numeric type to another, with
//! [`ieee`] reading and writing floating-point numbers as bit patterns.
//! [`pattern`] matches values against patterns and against the arms of a
//! match. [`convert`], [`flow`] and [`text`] hold small conversions and the
//! writing of integers in decimal.

pub mod convert;
pub mod flow;
pub mod ieee;
pub mod numeric;
pub mod pattern;
pub mod text;
