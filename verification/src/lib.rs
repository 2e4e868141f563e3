//! Line filtering for text files: select lines of a text by regular
//! expression, by keywords or by line numbers, and render the selection with
//! optional line numbers, context lines and a limit on the shown matches.

pub mod access;
pub mod keywords;
pub mod line_numbers;
pub mod number;
pub mod regex_match;
pub mod report;
pub mod select;
pub mod text;
pub mod tools;
