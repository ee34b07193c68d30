use vstd::prelude::*;

verus! {

/// A point in the query text: byte index, zero-based line and column.
#[derive(Clone, Copy, Debug, PartialEq, Eq, Structural)]
pub struct SourcePosition {
    pub index: usize,
    pub line: usize,
    pub col: usize,
}

impl SourcePosition {
    pub fn new(index: usize, line: usize, col: usize) -> (r: SourcePosition)
        ensures
            r == (SourcePosition { index, line, col }),
    {
        SourcePosition { index, line, col }
    }
}

/// A node of the document together with the span of text it came from.
#[derive(Clone, Debug, PartialEq, Eq)]
pub struct Spanning<T> {
    pub item: T,
    pub start: SourcePosition,
    pub end: SourcePosition,
}

impl<T> Spanning<T> {
    pub fn start_end(start: SourcePosition, end: SourcePosition, item: T) -> (r: Spanning<T>)
        ensures
            r.item == item,
            r.start == start,
            r.end == end,
    {
        Spanning { item, start, end }
    }
}

} // verus!
