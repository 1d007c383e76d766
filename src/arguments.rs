use vstd::prelude::*;

verus! {

/// Which matches of a line are reported.
#[derive(Debug, Clone, Copy, PartialEq, Eq, Structural)]
pub enum Mode {
    Left,
    Right,
    All,
    Reverse,
    Whole,
}

/// The search strategy.
#[derive(Debug, Clone, Copy, PartialEq, Eq, Structural)]
pub enum Algo {
    Kmp,
    BoyerMoore,
}

/// The color a match is highlighted in.
#[derive(Debug, Clone, Copy, PartialEq, Eq, Structural)]
pub enum Color {
    Green,
    Red,
    Blue,
}

/// One search: the pattern, the file, and how to search and report.
#[derive(Debug, Clone)]
pub struct Args {
    /// String to find
    pub substring: String,
    /// File name
    pub file: String,
    /// Which matches of a line to report
    pub mode: Mode,
    pub algo: Algo,
    /// Ignore case
    pub ignore_case: bool,
    pub show_config: ShowConfig,
}

impl Args {
    /// A search for `substring` in `file` with the default settings: all
    /// matches, Knuth-Morris-Pratt, case kept, default rendering.
    pub fn new_with_default(substring: String, file: String) -> (r: Self)
        ensures
            r.substring@ == substring@,
            r.file@ == file@,
            r.mode == Mode::All,
            r.algo == Algo::Kmp,
            !r.ignore_case,
            r.show_config.is_default(),
    {
        Args {
            substring,
            file,
            mode: Mode::All,
            algo: Algo::Kmp,
            ignore_case: false,
            show_config: ShowConfig::default(),
        }
    }
}

/// How a matching line is rendered.
#[derive(Debug, Clone, Copy)]
pub struct ShowConfig {
    /// Show number of line
    pub number: bool,
    /// Color of selected part
    pub color: Color,
    /// Number of characters shown on each side of a single match
    pub window_size: usize,
}

impl ShowConfig {
    /// No line numbers, red highlighting, ten characters of context.
    pub open spec fn is_default(&self) -> bool {
        &&& !self.number
        &&& self.color == Color::Red
        &&& self.window_size == 10
    }
}

impl Default for ShowConfig {
    fn default() -> (r: Self)
        ensures
            r.is_default(),
    {
        ShowConfig { number: false, color: Color::Red, window_size: 10 }
    }
}

} // verus!
