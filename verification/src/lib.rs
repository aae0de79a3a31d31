//! Line-oriented text search: the lines of a text that contain a query,
//! with or without regard to letter case.
//!
//! [`search`] and [`search_case_insensitive`] take a query and a text and
//! return the matching lines as slices of the text, in the order of the
//! text. [`run`] does the one or the other, as a [`Config`] says, and
//! [`Config::new`] reads a `Config` from command-line arguments. Nothing
//! here reads a file or prints: the caller brings the text and takes the
//! lines.
//!
//! What the functions return is stated over sequences of characters:
//! [`lines::lines_of`] for the lines of a text, [`substring::contains`] for
//! the test on one line, [`lowercase::lowercase`] for the form in which
//! lines and query are compared without regard to case, and
//! [`matching::matching_lines`] for the result. [`laws`] proves what follows
//! for every query and every text.

pub mod config;
pub mod encoding;
pub mod laws;
pub mod lines;
pub mod lowercase;
pub mod matching;
pub mod search;
pub mod substring;

pub use config::Config;
pub use search::{run, search, search_case_insensitive};
