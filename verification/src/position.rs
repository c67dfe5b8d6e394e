//! Positions and ranges in document space.
//!
//! A position is a zero-based (line, character) pair; positions are ordered
//! by line first and by character second. A range is a closed interval of
//! positions: both of its ends belong to it.

use vstd::prelude::*;

verus! {

/// A cursor position in a document: zero-based line and character.
#[derive(Clone, Copy, Debug, PartialEq, Eq, Structural)]
pub struct DocPosition {
    /// Zero-based line.
    pub line: u32,
    /// Zero-based character within the line.
    pub character: u32,
}

/// A closed interval of document positions.
#[derive(Clone, Copy, Debug, PartialEq, Eq, Structural)]
pub struct DocRange {
    /// The first position of the range.
    pub start: DocPosition,
    /// The last position of the range.
    pub end: DocPosition,
}

/// The position of a syntax node's boundary: where it is in the document,
/// and at which byte of the text.
#[derive(Clone, Copy, Debug, PartialEq, Eq, Structural)]
pub struct CstPosition {
    /// Offset in bytes from the start of the text.
    pub byte: usize,
    /// Zero-based line.
    pub line: u32,
    /// Zero-based character within the line.
    pub character: u32,
}

/// The stretch of the document that a syntax node covers.
#[derive(Clone, Copy, Debug, PartialEq, Eq, Structural)]
pub struct CstRange {
    /// Where the node begins.
    pub start: CstPosition,
    /// Where the node ends.
    pub end: CstPosition,
}

impl DocPosition {
    /// The order of positions: by line, then by character.
    pub open spec fn le(self, other: DocPosition) -> bool {
        self.line < other.line || (self.line == other.line && self.character <= other.character)
    }

    /// The strict order of positions.
    pub open spec fn lt(self, other: DocPosition) -> bool {
        self.line < other.line || (self.line == other.line && self.character < other.character)
    }

    /// The position at the given line and character.
    pub fn new(line: u32, character: u32) -> (pos: DocPosition)
        ensures
            pos == (DocPosition { line, character }),
    {
        DocPosition { line, character }
    }

    /// Whether this position is `other` or comes before it.
    pub fn at_or_before(&self, other: &DocPosition) -> (r: bool)
        ensures
            r == self.le(*other),
    {
        self.line < other.line || (self.line == other.line && self.character <= other.character)
    }

    /// Whether this position comes strictly before `other`.
    pub fn before(&self, other: &DocPosition) -> (r: bool)
        ensures
            r == self.lt(*other),
    {
        self.line < other.line || (self.line == other.line && self.character < other.character)
    }
}

impl DocRange {
    /// A range whose start is not after its end.
    pub open spec fn ordered(self) -> bool {
        self.start.le(self.end)
    }

    /// Whether `pos` lies in the range, both ends included.
    pub open spec fn contains(self, pos: DocPosition) -> bool {
        self.start.le(pos) && pos.le(self.end)
    }

    /// Whether all of `other` lies in the range.
    pub open spec fn encloses(self, other: DocRange) -> bool {
        self.start.le(other.start) && other.end.le(self.end)
    }

    /// The range from `start` to `end`.
    pub fn new(start: DocPosition, end: DocPosition) -> (range: DocRange)
        ensures
            range == (DocRange { start, end }),
    {
        DocRange { start, end }
    }

    /// Whether `pos` lies in the range, both ends included.
    pub fn includes_position(&self, pos: &DocPosition) -> (r: bool)
        ensures
            r == self.contains(*pos),
    {
        self.start.at_or_before(pos) && pos.at_or_before(&self.end)
    }
}

impl CstPosition {
    /// The document position, without the byte offset.
    pub open spec fn position(self) -> DocPosition {
        DocPosition { line: self.line, character: self.character }
    }

    /// The position at the given byte, line and character.
    pub fn new(byte: usize, line: u32, character: u32) -> (pos: CstPosition)
        ensures
            pos == (CstPosition { byte, line, character }),
    {
        CstPosition { byte, line, character }
    }

    /// The document position, without the byte offset.
    pub fn into(self) -> (pos: DocPosition)
        ensures
            pos == self.position(),
    {
        DocPosition { line: self.line, character: self.character }
    }
}

impl CstRange {
    /// The range in document space, without the byte offsets.
    pub open spec fn range(self) -> DocRange {
        DocRange { start: self.start.position(), end: self.end.position() }
    }

    /// Whether `pos` lies between the start and the end, both included.
    pub open spec fn contains(self, pos: DocPosition) -> bool {
        self.range().contains(pos)
    }

    /// Whether `inner` lies within this range, in document space and in bytes.
    pub open spec fn encloses(self, inner: CstRange) -> bool {
        &&& self.range().encloses(inner.range())
        &&& self.start.byte <= inner.start.byte
        &&& inner.end.byte <= self.end.byte
    }

    /// A range that ends no earlier than it starts, in document space and in
    /// bytes.
    pub open spec fn ordered(self) -> bool {
        &&& self.range().ordered()
        &&& self.start.byte <= self.end.byte
    }

    /// Whether this range ends no later than `next` begins, in document space
    /// and in bytes.
    pub open spec fn precedes(self, next: CstRange) -> bool {
        &&& self.end.position().le(next.start.position())
        &&& self.end.byte <= next.start.byte
    }

    /// The range from `start` to `end`.
    pub fn new(start: CstPosition, end: CstPosition) -> (range: CstRange)
        ensures
            range == (CstRange { start, end }),
    {
        CstRange { start, end }
    }

    /// The range in document space, without the byte offsets.
    pub fn into(self) -> (range: DocRange)
        ensures
            range == self.range(),
    {
        DocRange { start: self.start.into(), end: self.end.into() }
    }

    /// Whether `pos` lies between the start and the end, both included.
    pub fn includes(&self, pos: &DocPosition) -> (r: bool)
        ensures
            r == self.contains(*pos),
    {
        let start = self.start.into();
        let end = self.end.into();
        start.at_or_before(pos) && pos.at_or_before(&end)
    }

    /// Whether `inner` lies within this range, in document space and in bytes.
    pub fn surrounds(&self, inner: &CstRange) -> (r: bool)
        ensures
            r == self.encloses(*inner),
    {
        self.start.into().at_or_before(&inner.start.into())
            && inner.end.into().at_or_before(&self.end.into())
            && self.start.byte <= inner.start.byte
            && inner.end.byte <= self.end.byte
    }

    /// Whether this range ends no later than `next` begins.
    pub fn is_before(&self, next: &CstRange) -> (r: bool)
        ensures
            r == self.precedes(*next),
    {
        self.end.into().at_or_before(&next.start.into()) && self.end.byte <= next.start.byte
    }

    /// Whether the range ends no earlier than it starts.
    pub fn is_ordered(&self) -> (r: bool)
        ensures
            r == self.ordered(),
    {
        self.start.into().at_or_before(&self.end.into()) && self.start.byte <= self.end.byte
    }
}

/// The order of positions is reflexive, transitive and total.
pub proof fn lemma_position_order(a: DocPosition, b: DocPosition, c: DocPosition)
    ensures
        a.le(a),
        a.le(b) && b.le(c) ==> a.le(c),
        a.le(b) || b.le(a),
        a.le(b) && b.le(a) ==> a == b,
        a.lt(b) <==> !b.le(a),
{
}

} // verus!
