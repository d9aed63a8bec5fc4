//! Source coordinates: a [`Point`] is one place in a source file, a
//! [`Position`] is the region between two points, and a [`Locatable`]
//! pairs an arbitrary value with the position it was parsed from.

use vstd::prelude::*;
use vstd::std_specs::cmp::PartialEqSpec;

verus! {

/// One place in a source file.  `line` and `column` are 1-indexed;
/// `offset` is the 0-indexed character offset from the start of the input.
#[derive(Copy, Clone, Debug, Eq, PartialEq, Hash)]
pub struct Point {
    pub line: usize,
    pub column: usize,
    pub offset: usize,
}

impl Point {
    /// A point of a real source location has 1-indexed line and column.
    pub open spec fn wf(self) -> bool {
        self.line >= 1 && self.column >= 1
    }

    pub fn new(line: usize, column: usize, offset: usize) -> (r: Point)
        requires
            line >= 1,
            column >= 1,
        ensures
            r == (Point { line, column, offset }),
            r.wf(),
    {
        Point { line, column, offset }
    }

    pub fn line(&self) -> (r: usize)
        ensures
            r == self.line,
    {
        self.line
    }

    pub fn column(&self) -> (r: usize)
        ensures
            r == self.column,
    {
        self.column
    }

    pub fn offset(&self) -> (r: usize)
        ensures
            r == self.offset,
    {
        self.offset
    }
}

impl Default for Point {
    /// The all-zero point, used for values that were not parsed from any
    /// source text.
    fn default() -> (r: Point)
        ensures
            r == (Point { line: 0, column: 0, offset: 0 }),
    {
        Point { line: 0, column: 0, offset: 0 }
    }
}

/// The region of a source file between two points: `start` is the first
/// character of the region and `end` is the first character after it.
/// The optional `indent` (1-indexed) is the start column of each line for
/// regions spanning several lines.
#[derive(Copy, Clone, Debug, Eq, PartialEq, Hash)]
pub struct Position {
    pub start: Point,
    pub end: Point,
    pub indent: Option<u32>,
}

impl Position {
    /// A region never ends before it starts.
    pub open spec fn wf(self) -> bool {
        self.start.offset <= self.end.offset
    }

    pub fn new(start: Point, end: Point) -> (r: Position)
        requires
            start.offset <= end.offset,
        ensures
            r == (Position { start, end, indent: None::<u32> }),
    {
        Position { start, end, indent: None }
    }

    pub fn new_with_indent(start: Point, end: Point, indent: u32) -> (r: Position)
        requires
            start.offset <= end.offset,
            indent >= 1,
        ensures
            r == (Position { start, end, indent: Some(indent) }),
    {
        Position { start, end, indent: Some(indent) }
    }

    /// Consumes this region and returns the same region with its indent
    /// set to the given value.
    pub fn with_indent(self, indent: u32) -> (r: Position)
        requires
            self.wf(),
            indent >= 1,
        ensures
            r == (Position { start: self.start, end: self.end, indent: Some(indent) }),
    {
        Position { start: self.start, end: self.end, indent: Some(indent) }
    }

    /// Constructs the region a span window covers: the span's start and
    /// end coordinates become the region's start and end.
    pub fn from_span(span: crate::span::Span) -> (r: Position)
        requires
            span.start.offset <= span.end.offset,
        ensures
            r == (Position { start: span.start, end: span.end, indent: None::<u32> }),
    {
        Position { start: span.start, end: span.end, indent: None }
    }

    /// Whether `offset` falls inside this region: at or after the first
    /// character and strictly before the first character past the region.
    pub fn contains(&self, offset: usize) -> (r: bool)
        ensures
            r == (self.start.offset <= offset < self.end.offset),
    {
        offset >= self.start.offset && offset < self.end.offset
    }

    pub fn starting_offset(&self) -> (r: usize)
        ensures
            r == self.start.offset,
    {
        self.start.offset
    }

    pub fn ending_offset(&self) -> (r: usize)
        ensures
            r == self.end.offset,
    {
        self.end.offset
    }

    /// The number of characters in the region.
    pub fn len(&self) -> (r: usize)
        requires
            self.wf(),
        ensures
            r == self.end.offset - self.start.offset,
    {
        self.end.offset - self.start.offset
    }

    /// Whether the region is empty.
    pub fn is_empty(&self) -> (r: bool)
        requires
            self.wf(),
        ensures
            r == (self.end.offset == self.start.offset),
    {
        self.len() == 0
    }
}

impl Default for Position {
    /// The degenerate all-zero region, used for values that were not
    /// parsed from any source text.
    fn default() -> (r: Position)
        ensures
            r.start == (Point { line: 0, column: 0, offset: 0 }),
            r.end == (Point { line: 0, column: 0, offset: 0 }),
            (r.indent is None),
    {
        Position {
            start: Point { line: 0, column: 0, offset: 0 },
            end: Point { line: 0, column: 0, offset: 0 },
            indent: None,
        }
    }
}

/// A value paired with the source region it was parsed from.  Equality and
/// hashing look only at the inner value, never at the position, so two
/// occurrences of the same content in different places compare equal.
#[derive(Copy, Clone, Debug, Eq)]
pub struct Locatable<T> {
    pub inner: T,
    pub position: Position,
}

impl<T> Locatable<T> {
    pub fn new(inner: T, position: Position) -> (r: Locatable<T>)
        ensures
            r == (Locatable { inner, position }),
    {
        Locatable { inner, position }
    }

    /// Maps a `Locatable<T>` to a `Locatable<U>` by applying a function to
    /// the inner value while the position stays unchanged.
    pub fn map<U, F: FnOnce(T) -> U>(self, f: F) -> (r: Locatable<U>)
        requires
            f.requires((self.inner,)),
        ensures
            f.ensures((self.inner,), r.inner),
            r.position == self.position,
    {
        let Locatable { inner, position } = self;
        Locatable { inner: f(inner), position }
    }

    /// Converts from `&Locatable<T>` to `Locatable<&T>`.
    pub fn as_ref(&self) -> (r: Locatable<&T>)
        ensures
            r.inner == &self.inner,
            r.position == self.position,
    {
        Locatable { inner: &self.inner, position: self.position }
    }

    /// Converts from `&mut Locatable<T>` to `Locatable<&mut T>`.
    pub fn as_mut(&mut self) -> (r: Locatable<&mut T>)
        ensures
            *r.inner == old(self).inner,
            r.position == old(self).position,
            final(self).inner == *final(r.inner),
            final(self).position == old(self).position,
    {
        Locatable { inner: &mut self.inner, position: self.position }
    }

    /// Converts from `&mut Locatable<T>` to `&mut T`.
    pub fn as_mut_inner(&mut self) -> (r: &mut T)
        ensures
            *r == old(self).inner,
            final(self).inner == *final(r),
            final(self).position == old(self).position,
    {
        &mut self.inner
    }

    /// Converts from `&Locatable<T>` to `&T`.
    pub fn as_inner(&self) -> (r: &T)
        ensures
            r == &self.inner,
    {
        &self.inner
    }

    /// Converts from `Locatable<T>` to `T`.
    pub fn into_inner(self) -> (r: T)
        ensures
            r == self.inner,
    {
        self.inner
    }

    /// Returns a copy of the position associated with the inner value.
    pub fn position(&self) -> (r: Position)
        ensures
            r == self.position,
    {
        self.position
    }
}

impl<T> Locatable<Option<T>> {
    /// Transposes a `Locatable` of an `Option` into an `Option` of a
    /// `Locatable`, keeping the position.
    pub fn transpose(self) -> (r: Option<Locatable<T>>)
        ensures
            match self.inner {
                Some(inner) => r == Some(Locatable { inner, position: self.position }),
                None => r == None::<Locatable<T>>,
            },
    {
        let position = self.position;
        match self.into_inner() {
            Some(inner) => Some(Locatable::new(inner, position)),
            _ => None,
        }
    }
}

impl<T: PartialEq> PartialEq for Locatable<T> {
    /// Equality uses only the inner value; the position plays no role.
    fn eq(&self, other: &Self) -> (r: bool) {
        self.inner == other.inner
    }
}

impl<T: PartialEq> vstd::std_specs::cmp::PartialEqSpecImpl for Locatable<T> {
    open spec fn obeys_eq_spec() -> bool {
        <T as vstd::std_specs::cmp::PartialEqSpec>::obeys_eq_spec()
    }

    open spec fn eq_spec(&self, other: &Self) -> bool {
        self.inner.eq_spec(&other.inner)
    }
}

impl<T: PartialEq> PartialEq<T> for Locatable<T> {
    /// Comparing a located value with a bare value compares the inner
    /// value alone.
    fn eq(&self, other: &T) -> (r: bool) {
        &self.inner == other
    }
}

impl<T: PartialEq> vstd::std_specs::cmp::PartialEqSpecImpl<T> for Locatable<T> {
    open spec fn obeys_eq_spec() -> bool {
        <T as vstd::std_specs::cmp::PartialEqSpec>::obeys_eq_spec()
    }

    open spec fn eq_spec(&self, other: &T) -> bool {
        self.inner.eq_spec(other)
    }
}

impl<T: core::hash::Hash> core::hash::Hash for Locatable<T> {
    /// Hashing uses only the inner value; the position plays no role.
    /// Relies on `core::hash::Hash::hash` of the inner type: the body
    /// feeds the inner value, and nothing else, to the hasher.
    #[verifier::external_body]
    fn hash<H: core::hash::Hasher>(&self, state: &mut H) {
        self.inner.hash(state)
    }
}

/// Equality on located values ignores the position: wrapping one inner
/// value with any two positions yields values that compare equal.
pub proof fn lemma_locatable_eq_ignores_position<T: PartialEq>(x: T, a: Position, b: Position)
    ensures
        (Locatable { inner: x, position: a }).eq_spec(&(Locatable { inner: x, position: b }))
            == x.eq_spec(&x),
{
}

} // verus!
