//! A word-list scanner for the fixed QWERTY-to-Dvorak letter remapping.
//!
//! The library splits a word list into tokens, builds a membership index
//! over all tokens, converts each eligible token letter by letter under the
//! fixed substitution table, and reports every token whose converted form is
//! itself a word of the list.

pub mod loader;
pub mod mapping;
pub mod matcher;
pub mod transform;
pub mod word_index;
