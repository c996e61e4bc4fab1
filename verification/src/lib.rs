//! A single line of editable text, addressed by grapheme cluster.
//!
//! [`row::Row`] stores one line of Unicode text together with a cached count
//! of its user-visible characters. Every position it takes or returns is a
//! grapheme index; the bridge to the byte-encoded storage is a walk over the
//! clusters that [`segment`] obtains from `unicode_segmentation`. What the
//! operations do is stated over [`model::RowView`], and [`laws`] proves what
//! holds of them together.
//!
//! Beside the row stand a few small pieces that share nothing with it:
//! greetings, functions on numbers, words chosen by a number, a combination
//! lock, a guessing game, and records of persons and enrollments.

pub mod basics;
pub mod choices;
pub mod enrollment;
pub mod greetings;
pub mod guess;
pub mod laws;
pub mod lock;
pub mod model;
pub mod people;
pub mod row;
pub mod search;
pub mod segment;
pub mod text;

use vstd::prelude::*;

verus! {

/// The way a search runs from the position it is given.
#[derive(Clone, Copy, Debug, PartialEq, Eq, Structural)]
pub enum SearchDirection {
    /// Towards the end of the row, the given position included.
    Forward,
    /// Towards the start of the row, the given position excluded.
    Backward,
}

} // verus!
