//! A small line-oriented text search library.
//!
//! The library splits a document into lines, selects the lines that contain
//! a query string (case-sensitively or after ASCII lowercasing), and parses
//! the command line tokens that configure such a search.

pub mod config;
pub mod lines;
pub mod search;
pub mod text;

pub use config::Config;
pub use config::ParseError;
pub use search::search;
pub use search::search_case_insensitive;
