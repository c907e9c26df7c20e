//! Code transformation and reformatting: case conversion, whitespace and
//! line-ending normalisation, indentation, emoji replacement, license
//! headers, file renaming and grouping, and broken-reference repair.
//!
//! The transformations are pure functions from text to text with contracts
//! that say exactly what they produce; reading and writing files is left to
//! the caller.

pub mod error;
pub mod text;
pub mod order;
pub mod lines;
pub mod path;
pub mod walk;
pub mod step;
pub mod endings;
pub mod whitespace;
pub mod indent;
pub mod case;
pub mod style;
pub mod rename;
pub mod date;
pub mod changes;
pub mod refs;
pub mod group;
pub mod emoji;
pub mod header;
pub mod matching;
pub mod replace;
pub mod converter;
pub mod combined;
pub mod command;
pub mod config;
pub mod pipeline;
