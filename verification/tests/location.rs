use marcup::location::{Locatable, Point, Position};
use std::collections::HashSet;

#[derive(Debug, PartialEq, Eq)]
struct Probe(usize);

#[test]
fn map_should_transform_inner_value_and_keep_position() {
    let le = Locatable::new(3, Position::new(Point::new(1, 1, 0), Point::new(1, 4, 3)));
    let mapped_le = le.map(|c| c + 1);
    assert_eq!(*mapped_le.as_inner(), 4);
    assert_eq!(
        mapped_le.position(),
        Position::new(Point::new(1, 1, 0), Point::new(1, 4, 3),)
    );
}

#[test]
fn equality_with_other_should_only_use_inner_value() {
    let le1 = Locatable::new(3, Position::new(Point::new(1, 1, 0), Point::new(1, 4, 3)));
    let le2 = Locatable::new(3, Position::default());
    assert_eq!(le1, le2);
}

#[test]
fn equality_with_inner_type_should_only_use_inner_value() {
    let le = Locatable::new(3, Position::new(Point::new(1, 1, 0), Point::new(1, 4, 3)));
    let inner = 3;
    assert_eq!(le, inner);
    assert_ne!(le, inner + 1);
}

#[test]
fn hashing_should_only_use_inner_value() {
    let le1 = Locatable::new(3, Position::new(Point::new(1, 1, 0), Point::new(1, 4, 3)));
    let le2 = Locatable::new(3, Position::default());
    let le4 = Locatable::new(3, Position::new(Point::new(1, 1, 0), Point::new(1, 4, 3)));

    let mut m = HashSet::new();
    m.insert(le1);

    let le = m
        .get(&le2)
        .expect("Failed to retrieve Locatable with another Locatable");
    assert_eq!(*le.as_inner(), 3);
    assert_eq!(
        le.position(),
        Position::new(Point::new(1, 1, 0), Point::new(1, 4, 3),)
    );

    let le = m
        .get(&le4)
        .expect("Failed to retrieve Locatable with another Locatable");
    assert_eq!(*le.as_inner(), 3);
    assert_eq!(
        le.position(),
        Position::new(Point::new(1, 1, 0), Point::new(1, 4, 3),)
    );
}

#[test]
fn as_ref_should_return_new_element_with_ref_and_same_position() {
    let le = Locatable::new(
        Probe(5),
        Position::new(Point::new(1, 1, 0), Point::new(1, 4, 3)),
    );
    let le_ref = le.as_ref();

    assert_eq!(le_ref.inner, &Probe(5));
    assert_eq!(
        le_ref.position(),
        Position::new(Point::new(1, 1, 0), Point::new(1, 4, 3),)
    );
}

#[test]
fn as_mut_should_return_new_element_with_mut_and_same_position() {
    let mut le = Locatable::new(
        Probe(5),
        Position::new(Point::new(1, 1, 0), Point::new(1, 4, 3)),
    );
    let le_mut = le.as_mut();

    assert_eq!(le_mut.inner, &mut Probe(5));
    assert_eq!(
        le_mut.position(),
        Position::new(Point::new(1, 1, 0), Point::new(1, 4, 3),)
    );
}

#[test]
fn as_mut_inner_should_return_new_element_with_mut_ref_to_inner_and_same_position() {
    let mut le = Locatable::new(
        Probe(5),
        Position::new(Point::new(1, 1, 0), Point::new(1, 4, 3)),
    );
    let inner = le.as_mut_inner();

    assert_eq!(inner, &mut Probe(5));
}

#[test]
fn as_inner_should_return_new_element_with_ref_to_inner_and_same_position() {
    let le = Locatable::new(
        Probe(5),
        Position::new(Point::new(1, 1, 0), Point::new(1, 4, 3)),
    );
    let inner = le.as_inner();

    assert_eq!(inner, &Probe(5));
}

#[test]
fn into_inner_should_return_inner_value_as_owned() {
    let le = Locatable::new(
        Probe(5),
        Position::new(Point::new(1, 1, 0), Point::new(1, 4, 3)),
    );
    let inner = le.into_inner();

    assert_eq!(inner, Probe(5));
}

#[test]
fn contains_should_successfully_return_whether_or_not_offset_within_position() {
    let position = Position::new(Point::new(1, 3, 2), Point::new(1, 5, 4));
    assert!(!position.contains(0));
    assert!(!position.contains(1));
    assert!(position.contains(2));
    assert!(position.contains(3));
    assert!(!position.contains(4));
    assert!(!position.contains(5));
    assert!(!position.contains(6));
    assert!(!position.contains(7));
}

#[test]
fn len_should_be_the_difference_of_the_end_and_start_offsets() {
    let position = Position::new(Point::new(1, 3, 2), Point::new(2, 1, 9));
    assert_eq!(position.len(), 7);
    assert_eq!(position.starting_offset(), 2);
    assert_eq!(position.ending_offset(), 9);
    assert!(!position.is_empty());

    let empty = Position::new(Point::new(1, 1, 4), Point::new(1, 1, 4));
    assert_eq!(empty.len(), 0);
    assert!(empty.is_empty());
    assert!(!empty.contains(4));
}

#[test]
fn with_indent_should_keep_the_region_and_set_the_indent() {
    let position = Position::new(Point::new(1, 1, 0), Point::new(2, 3, 8));
    let indented = position.with_indent(4);
    assert_eq!(indented.start, Point::new(1, 1, 0));
    assert_eq!(indented.end, Point::new(2, 3, 8));
    assert_eq!(indented.indent, Some(4));

    let built = Position::new_with_indent(Point::new(1, 1, 0), Point::new(2, 3, 8), 4);
    assert_eq!(built, indented);
}

#[test]
fn transpose_should_move_the_option_out_and_keep_position() {
    let pos = Position::new(Point::new(1, 1, 0), Point::new(1, 2, 1));
    let some: Locatable<Option<u32>> = Locatable::new(Some(7), pos);
    let out = some.transpose().expect("expected a located value");
    assert_eq!(*out.as_inner(), 7);
    assert_eq!(out.position(), pos);

    let none: Locatable<Option<u32>> = Locatable::new(None, pos);
    assert!(none.transpose().is_none());
}

#[test]
fn point_accessors_should_return_the_coordinates() {
    let p = Point::new(3, 9, 42);
    assert_eq!(p.line(), 3);
    assert_eq!(p.column(), 9);
    assert_eq!(p.offset(), 42);
    let d = Point::default();
    assert_eq!((d.line, d.column, d.offset), (0, 0, 0));
}
