use vstd::prelude::*;

verus! {

/// A zero-based line and character offset in a source.
#[derive(PartialEq, Eq, Structural, Clone, Copy, Debug)]
pub struct Position {
    pub line: u32,
    pub character: u32,
}

/// A half-open span of a source, from `start` to `end`.
#[derive(PartialEq, Eq, Structural, Clone, Copy, Debug)]
pub struct Range {
    pub start: Position,
    pub end: Position,
}

/// Lexicographic order on positions: by line, then by character.
pub open spec fn pos_le(a: Position, b: Position) -> bool {
    a.line < b.line || (a.line == b.line && a.character <= b.character)
}

pub open spec fn pos_lt(a: Position, b: Position) -> bool {
    a.line < b.line || (a.line == b.line && a.character < b.character)
}

impl Position {
    pub fn new(line: u32, character: u32) -> (r: Position)
        ensures
            r.line == line,
            r.character == character,
    {
        Position { line, character }
    }

    pub fn le(&self, other: &Position) -> (r: bool)
        ensures
            r == pos_le(*self, *other),
    {
        self.line < other.line || (self.line == other.line && self.character <= other.character)
    }

    pub fn lt(&self, other: &Position) -> (r: bool)
        ensures
            r == pos_lt(*self, *other),
    {
        self.line < other.line || (self.line == other.line && self.character < other.character)
    }
}

impl Range {
    pub open spec fn spec_contains(self, p: Position) -> bool {
        pos_le(self.start, p) && pos_le(p, self.end)
    }

    pub fn new(start: Position, end: Position) -> (r: Range)
        ensures
            r.start == start,
            r.end == end,
    {
        Range { start, end }
    }

    /// The cursor lies in the range, its end included.
    pub fn contains(&self, p: Position) -> (r: bool)
        ensures
            r == self.spec_contains(p),
    {
        self.start.le(&p) && p.le(&self.end)
    }
}

} // verus!
