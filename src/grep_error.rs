use vstd::prelude::*;

verus! {

/// Why a search produced no lines.
#[derive(Debug, Clone)]
pub enum ErrorType {
    /// The file could not be opened or read; holds the system's message.
    IOError(String),
    /// Every line was read and none matched.
    NotFound,
    /// The requested search strategy has no implementation.
    UnsupportedStrategy,
    /// The pattern is empty.
    EmptyPattern,
}

/// The outcome of a search.
pub type GrepResult<T> = Result<T, ErrorType>;

} // verus!
