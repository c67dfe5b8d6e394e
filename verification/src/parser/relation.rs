//! How ranges and positions lie to one another.

use vstd::prelude::*;
use crate::position::{DocPosition, DocRange};

verus! {

/// Where a range lies, seen from a position.
#[derive(Clone, Copy, Debug, PartialEq, Eq, Structural)]
pub enum Relation {
    /// The position is before the range: the range is to its right.
    Left,
    /// The range holds the position.
    In,
    /// The position is after the range: the range is to its left.
    Right,
}

/// How `point` lies to `range`: `Left` where it comes before the start,
/// `Right` where it comes after the end, `In` otherwise.
pub open spec fn relation_of(range: DocRange, point: DocPosition) -> Relation {
    if point.lt(range.start) {
        Relation::Left
    } else if range.end.lt(point) {
        Relation::Right
    } else {
        Relation::In
    }
}

/// How `point` lies to `range`.
pub fn relation(range: &DocRange, point: &DocPosition) -> (r: Relation)
    ensures
        r == relation_of(*range, *point),
        r == Relation::In <==> range.contains(*point),
{
    if point.before(&range.start) {
        Relation::Left
    } else if range.end.before(point) {
        Relation::Right
    } else {
        Relation::In
    }
}

/// Comparison of one interval with another.
pub trait CompareRange: Sized {
    /// Whether all of `other` lies in this interval.
    spec fn includes_spec(&self, other: &Self) -> bool;

    /// The part that both intervals share, if they share any.
    spec fn intersect_spec(&self, other: &Self) -> Option<Self>;

    /// Whether all of `other` lies in this interval.
    fn includes(&self, other: &Self) -> (r: bool)
        ensures
            r == self.includes_spec(other),
    ;

    /// Whether all of this interval lies in `other`.
    fn is_included(&self, other: &Self) -> (r: bool)
        ensures
            r == other.includes_spec(self),
    ;

    /// The part that both intervals share; `None` where they share nothing.
    fn intersect(&self, other: &Self) -> (r: Option<Self>)
        ensures
            r == self.intersect_spec(other),
    ;

    /// Whether the intervals share anything.
    fn has_intersect(&self, other: &Self) -> (r: bool)
        ensures
            r == self.intersect_spec(other).is_some(),
    ;
}

impl DocPosition {
    /// The later of two positions.
    pub open spec fn max(self, other: DocPosition) -> DocPosition {
        if self.le(other) {
            other
        } else {
            self
        }
    }

    /// The earlier of two positions.
    pub open spec fn min(self, other: DocPosition) -> DocPosition {
        if self.le(other) {
            self
        } else {
            other
        }
    }
}

impl CompareRange for DocRange {
    open spec fn includes_spec(&self, other: &Self) -> bool {
        self.encloses(*other)
    }

    /// From the later start to the earlier end, where that is a range.
    open spec fn intersect_spec(&self, other: &Self) -> Option<Self> {
        let start = self.start.max(other.start);
        let end = self.end.min(other.end);
        if start.le(end) {
            Some(DocRange { start, end })
        } else {
            None
        }
    }

    fn includes(&self, other: &Self) -> (r: bool) {
        self.start.at_or_before(&other.start) && other.end.at_or_before(&self.end)
    }

    fn is_included(&self, other: &Self) -> (r: bool) {
        other.start.at_or_before(&self.start) && self.end.at_or_before(&other.end)
    }

    fn intersect(&self, other: &Self) -> (r: Option<Self>) {
        let start = if self.start.at_or_before(&other.start) {
            other.start
        } else {
            self.start
        };
        let end = if self.end.at_or_before(&other.end) {
            self.end
        } else {
            other.end
        };
        if start.at_or_before(&end) {
            Some(DocRange { start, end })
        } else {
            None
        }
    }

    fn has_intersect(&self, other: &Self) -> (r: bool) {
        self.intersect(other).is_some()
    }
}

/// The shared part of two ranges holds exactly the positions that both hold.
pub proof fn lemma_intersect_positions(a: DocRange, b: DocRange, pos: DocPosition)
    ensures
        (a.contains(pos) && b.contains(pos)) <==> (a.intersect_spec(&b) is Some && a.intersect_spec(
            &b,
        ).unwrap().contains(pos)),
{
}

} // verus!
