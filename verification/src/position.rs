//! Line and column coordinates into a document.

use vstd::prelude::*;

verus! {

/// A place in a document: a zero-based line and a zero-based column, counted
/// in characters. A position means something only against a given text.
#[derive(Clone, Copy, Debug, PartialEq, Eq, Structural, PartialOrd, Ord, Hash)]
pub struct Position {
    pub line: usize,
    pub offset: usize,
}

impl Position {
    /// Document order: by line first, then by column.
    pub open spec fn at_or_before(self, other: Position) -> bool {
        self.line < other.line || (self.line == other.line && self.offset <= other.offset)
    }

    /// Whether `self` comes no later than `other` in document order.
    pub fn precedes_or_equals(&self, other: &Position) -> (r: bool)
        ensures
            r == self.at_or_before(*other),
    {
        self.line < other.line || (self.line == other.line && self.offset <= other.offset)
    }
}

/// A span of a document from `start` up to, and not including, `end`.
/// A range is meant to be built in order, `start` no later than `end`.
#[derive(Clone, Copy, Debug, PartialEq, Eq, Structural, Hash)]
pub struct Range {
    pub start: Position,
    pub end: Position,
}

impl Range {
    /// Whether the range runs forwards.
    pub open spec fn ordered(self) -> bool {
        self.start.at_or_before(self.end)
    }

    /// Whether `start` comes no later than `end`.
    pub fn is_ordered(&self) -> (r: bool)
        ensures
            r == self.ordered(),
    {
        self.start.precedes_or_equals(&self.end)
    }
}

} // verus!
