use vstd::prelude::*;

verus! {

/// A region of source text, by line and column of its two ends.
#[derive(Clone, Copy, Debug, PartialEq, Eq, Structural)]
pub struct Span {
    pub start_line: usize,
    pub start_column: usize,
    pub end_line: usize,
    pub end_column: usize,
}

impl Span {
    /// The empty region at one position.
    pub fn point(line: usize, column: usize) -> (r: Span)
        ensures
            r.start_line == line && r.end_line == line,
            r.start_column == column && r.end_column == column,
    {
        Span { start_line: line, start_column: column, end_line: line, end_column: column }
    }
}

impl Default for Span {
    fn default() -> (r: Span)
        ensures
            r.start_line == 0 && r.start_column == 0 && r.end_line == 0 && r.end_column == 0,
    {
        Span::point(0, 0)
    }
}

} // verus!
