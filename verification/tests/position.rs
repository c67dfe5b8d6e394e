//! Positions, ranges and how they lie to one another.

use maquette_satysfi_language_server::parser::relation::{relation, CompareRange, Relation};
use maquette_satysfi_language_server::{CstPosition, CstRange, DocPosition, DocRange};

fn at(line: u32, character: u32) -> DocPosition {
    DocPosition::new(line, character)
}

fn span(from: (u32, u32), to: (u32, u32)) -> DocRange {
    DocRange::new(at(from.0, from.1), at(to.0, to.1))
}

#[test]
fn positions_are_ordered_by_line_then_character() {
    assert!(at(0, 9).before(&at(1, 0)));
    assert!(at(1, 2).before(&at(1, 3)));
    assert!(!at(1, 3).before(&at(1, 3)));
    assert!(at(1, 3).at_or_before(&at(1, 3)));
    assert!(!at(2, 0).at_or_before(&at(1, 9)));
}

#[test]
fn a_range_holds_both_of_its_ends() {
    let range = CstRange::new(CstPosition::new(4, 0, 4), CstPosition::new(9, 0, 9));
    assert!(range.includes(&at(0, 4)));
    assert!(range.includes(&at(0, 9)));
    assert!(range.includes(&at(0, 6)));
    assert!(!range.includes(&at(0, 3)));
    assert!(!range.includes(&at(0, 10)));
    assert!(!range.includes(&at(1, 5)));
}

#[test]
fn a_range_over_lines_holds_what_lies_between() {
    let range = CstRange::new(CstPosition::new(10, 1, 5), CstPosition::new(40, 3, 2));
    assert!(range.includes(&at(2, 100)));
    assert!(range.includes(&at(1, 5)));
    assert!(!range.includes(&at(1, 4)));
    assert!(range.includes(&at(3, 2)));
    assert!(!range.includes(&at(3, 3)));
}

#[test]
fn a_range_drops_its_bytes_in_document_space() {
    let range = CstRange::new(CstPosition::new(10, 1, 5), CstPosition::new(40, 3, 2));
    assert_eq!(range.into(), span((1, 5), (3, 2)));
    assert_eq!(CstPosition::new(10, 1, 5).into(), at(1, 5));
}

#[test]
fn relation_tells_left_in_and_right() {
    let range = span((1, 2), (1, 8));
    assert_eq!(relation(&range, &at(1, 1)), Relation::Left);
    assert_eq!(relation(&range, &at(0, 50)), Relation::Left);
    assert_eq!(relation(&range, &at(1, 2)), Relation::In);
    assert_eq!(relation(&range, &at(1, 8)), Relation::In);
    assert_eq!(relation(&range, &at(1, 9)), Relation::Right);
    assert_eq!(relation(&range, &at(2, 0)), Relation::Right);
}

#[test]
fn ranges_include_and_intersect() {
    let outer = span((1, 0), (5, 0));
    let inner = span((2, 3), (4, 1));
    let late = span((4, 0), (7, 7));
    let far = span((8, 0), (9, 0));
    assert!(outer.includes(&inner));
    assert!(!inner.includes(&outer));
    assert!(inner.is_included(&outer));
    assert!(outer.includes(&outer));
    assert_eq!(outer.intersect(&late), Some(span((4, 0), (5, 0))));
    assert_eq!(late.intersect(&outer), Some(span((4, 0), (5, 0))));
    assert_eq!(outer.intersect(&inner), Some(inner));
    assert_eq!(outer.intersect(&far), None);
    assert!(outer.has_intersect(&late));
    assert!(!outer.has_intersect(&far));
}

#[test]
fn ranges_that_touch_share_their_boundary() {
    let left = span((0, 0), (0, 4));
    let right = span((0, 4), (0, 9));
    assert_eq!(left.intersect(&right), Some(span((0, 4), (0, 4))));
    assert!(left.has_intersect(&right));
}

#[test]
fn lines_and_columns_are_counted_from_zero() {
    assert_eq!(CstPosition::from_line_col(17, 1, 1), CstPosition::new(17, 0, 0));
    assert_eq!(CstPosition::from_line_col(0, 3, 8), CstPosition::new(0, 2, 7));
    assert_eq!(DocPosition::from_line_col(12, 1), at(11, 0));
}

#[test]
fn ordered_ranges_and_ranges_in_a_row() {
    let first = CstRange::new(CstPosition::new(0, 0, 0), CstPosition::new(4, 0, 4));
    let second = CstRange::new(CstPosition::new(4, 0, 4), CstPosition::new(9, 1, 2));
    let turned = CstRange::new(CstPosition::new(9, 1, 2), CstPosition::new(4, 0, 4));
    let whole = CstRange::new(CstPosition::new(0, 0, 0), CstPosition::new(9, 1, 2));
    assert!(first.is_ordered());
    assert!(!turned.is_ordered());
    assert!(first.is_before(&second));
    assert!(!second.is_before(&first));
    assert!(whole.surrounds(&first));
    assert!(whole.surrounds(&second));
    assert!(!first.surrounds(&whole));
}
