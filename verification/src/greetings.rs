//! Greetings, by language.

pub mod english;
