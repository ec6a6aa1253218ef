//! Line search over a text: which lines of it contain a query.
//!
//! `search` is the heart: it returns the lines of a text that contain a
//! query, in order, as slices of the text. `Config` holds what one search is
//! asked to do, and `run` goes from a configuration and the contents of its
//! file to the lines to print. Reading the file and printing are left to the
//! caller.
//!
//! Contracts speak of texts as sequences of characters. `lines::lines` says
//! what the lines of a text are, `substring::occurs_in` what it means for one
//! text to contain another, and `search::matching_lines` puts the two
//! together.

pub mod config;
pub mod encoding;
pub mod lines;
pub mod run;
pub mod search;
pub mod substring;

pub use crate::config::{case_insensitive_variable, Config, ConfigError};
pub use crate::run::{run, RunError};
pub use crate::search::{contains, search};
