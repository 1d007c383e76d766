//! Line-oriented exact substring search built on the Knuth-Morris-Pratt
//! prefix function, with verified search modes and line rendering.

pub mod arguments;
pub mod grep;
pub mod grep_error;
pub mod kmp;
pub mod printer;
pub mod searcher;
pub mod text;
