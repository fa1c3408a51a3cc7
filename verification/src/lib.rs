//! Line-oriented substring search.
//!
//! Given a query and a block of text, the library returns every line of the
//! text that contains the query, in the original order, either exactly or
//! after lowercasing both sides. A small configuration type records what one
//! invocation asks for; reading the file and printing the result are left to
//! the caller.

pub mod config;
pub mod lines;
pub mod lower;
pub mod search;
pub mod substr;

pub use config::Config;
pub use config::ConfigError;
pub use search::matching_lines;
pub use search::search;
pub use search::search_case_insensitive;
