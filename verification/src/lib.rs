//! A word/line/byte counting library.
//!
//! The library turns command-line tokens into a [`config::Config`], counts
//! bytes, lines and whitespace-separated words in a text buffer, and renders
//! the selected counts as a single output line.

pub mod config;
pub mod count;
pub mod output;
pub mod text;

pub use config::Config;
pub use config::ConfigError;

pub use count::count_bytes;
pub use count::count_lines;
pub use count::count_words;
pub use output::format_counts;
