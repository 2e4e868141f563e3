//! The tools a client can call.
pub mod filter_file_lines;

pub use filter_file_lines::{FilterError, FilterFileLines, FilterOptions, FilterType};
