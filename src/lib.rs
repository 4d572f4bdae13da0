//! Splits a byte stream into records separated by the matches of a regular
//! expression, holding only the bytes that are not yet consumed.

pub mod delimiter;
pub mod lending;
pub mod splitter;
