//! A line-oriented text search library.
//!
//! The core is a pattern matcher (literal substring or regular expression,
//! optionally case-insensitive) and a line scanner that assembles per-line
//! match results or a total occurrence count.

pub mod chars;
pub mod config;
pub mod errors;
pub mod literal;
pub mod matcher;
pub mod regex_engine;
pub mod search;
pub mod search_results;
