//! Source positions and ranges.
//!
//! A `Position` is a zero-based line/column pair counted in characters; a
//! `Range` is the half-open-by-convention pair of start and end positions
//! attached to every token. Containment checks used by the position finder
//! treat the end position as inclusive, so that a cursor sitting at the very
//! end of a token still hits it.

use vstd::prelude::*;

verus! {

#[derive(Debug, Clone, Copy, PartialEq, Eq, PartialOrd, Ord, Structural)]
pub struct Position {
    pub line: u64,
    pub character: u64,
}

#[derive(Debug, Clone, Copy, PartialEq, Eq, Structural)]
pub struct Range {
    pub start: Position,
    pub end: Position,
}

impl Position {
    pub fn new(line: u64, character: u64) -> (p: Position)
        ensures
            p == (Position { line, character }),
    {
        Position { line, character }
    }
}

/// `a` comes no later than `b` in document order.
pub open spec fn pos_le(a: Position, b: Position) -> bool {
    a.line < b.line || (a.line == b.line && a.character <= b.character)
}

/// `p` lies within `r`, with both endpoints included.
pub open spec fn range_contains(r: Range, p: Position) -> bool {
    pos_le(r.start, p) && pos_le(p, r.end)
}

impl Range {
    pub fn new_simple(start_line: u64, start_character: u64, end_line: u64, end_character: u64) -> (r: Range)
        ensures
            r == (Range {
                start: Position { line: start_line, character: start_character },
                end: Position { line: end_line, character: end_character },
            }),
    {
        Range {
            start: Position { line: start_line, character: start_character },
            end: Position { line: end_line, character: end_character },
        }
    }

    pub fn contains(&self, p: Position) -> (b: bool)
        ensures
            b == range_contains(*self, p),
    {
        let sb = self.start.line < p.line
            || (self.start.line == p.line && self.start.character <= p.character);
        let eb = p.line < self.end.line
            || (p.line == self.end.line && p.character <= self.end.character);
        sb && eb
    }
}

/// Mathematical position: the model of a `Position`, free of machine bounds.
#[verifier::ext_equal]
pub struct PosModel {
    pub line: int,
    pub character: int,
}

/// Mathematical range: the model of a `Range`.
#[verifier::ext_equal]
pub struct SpanModel {
    pub start: PosModel,
    pub end: PosModel,
}

pub open spec fn pos_view(p: Position) -> PosModel {
    PosModel { line: p.line as int, character: p.character as int }
}

/// Document order on mathematical positions.
pub open spec fn pos_le_m(a: PosModel, b: PosModel) -> bool {
    a.line < b.line || (a.line == b.line && a.character <= b.character)
}

pub open spec fn range_view(r: Range) -> SpanModel {
    SpanModel { start: pos_view(r.start), end: pos_view(r.end) }
}

} // verus!
