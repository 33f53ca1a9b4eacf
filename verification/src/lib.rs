//! Line-oriented text search: which lines of a text contain a query, with or
//! without regard to letter case, and how a command line selects the search.

pub mod config;
mod encoding;
pub mod laws;
pub mod lines;
pub mod matching;
pub mod search;
pub mod sequences;

pub use config::{Config, ConfigError, ConfigView};
pub use search::{run, search, search_case_insensitive};
