//! The input cursor.  A [`Span`] is a window into the source text: two
//! [`Point`]s delimiting the unconsumed region, each carrying exact line,
//! column and offset bookkeeping.  Slicing a span produces a new span over
//! the remainder and never mutates the original.

use vstd::prelude::*;

use crate::location::{Locatable, Point, Position};

verus! {

/// The 1-indexed line number of offset `i`: one more than the number of
/// line terminators strictly before `i`.
pub open spec fn line_at(s: Seq<char>, i: int) -> int
    decreases i,
{
    if i <= 0 {
        1
    } else {
        line_at(s, i - 1) + if s[i - 1] == '\n' {
            1int
        } else {
            0int
        }
    }
}

/// The 1-indexed column of offset `i`: one more than the number of
/// characters between the last line terminator before `i` and `i` itself.
pub open spec fn col_at(s: Seq<char>, i: int) -> int
    decreases i,
{
    if i <= 0 {
        1
    } else if s[i - 1] == '\n' {
        1
    } else {
        col_at(s, i - 1) + 1
    }
}

/// Whether `p` is the exact coordinate of offset `p.offset` in source `s`.
pub open spec fn point_wf(p: Point, s: Seq<char>) -> bool {
    &&& p.offset <= s.len()
    &&& p.line == line_at(s, p.offset as int)
    &&& p.column == col_at(s, p.offset as int)
}

/// Lines and columns are 1-indexed and never exceed the offset by more
/// than one.
pub proof fn lemma_line_col_bounds(s: Seq<char>, i: int)
    requires
        0 <= i,
    ensures
        1 <= line_at(s, i) <= i + 1,
        1 <= col_at(s, i) <= i + 1,
    decreases i,
{
    if i > 0 {
        lemma_line_col_bounds(s, i - 1);
    }
}

/// A window into the source text, from `start` (inclusive) to `end`
/// (exclusive), both carrying their full source coordinates.
#[derive(Copy, Clone, Debug, Eq, PartialEq)]
pub struct Span {
    pub start: Point,
    pub end: Point,
}

impl Span {
    /// Whether this span is a real window into source `s` with exact
    /// coordinate bookkeeping at both ends.
    pub open spec fn wf(self, s: Seq<char>) -> bool {
        &&& point_wf(self.start, s)
        &&& point_wf(self.end, s)
        &&& self.start.offset <= self.end.offset
    }

    pub fn new(start: Point, end: Point) -> (r: Span)
        requires
            start.offset <= end.offset,
        ensures
            r == (Span { start, end }),
    {
        Span { start, end }
    }

    pub fn line(&self) -> (r: usize)
        ensures
            r == self.start.line,
    {
        self.start.line
    }

    pub fn column(&self) -> (r: usize)
        ensures
            r == self.start.column,
    {
        self.start.column
    }

    pub fn start_offset(&self) -> (r: usize)
        ensures
            r == self.start.offset,
    {
        self.start.offset
    }

    pub fn end_line(&self) -> (r: usize)
        ensures
            r == self.end.line,
    {
        self.end.line
    }

    pub fn end_column(&self) -> (r: usize)
        ensures
            r == self.end.column,
    {
        self.end.column
    }

    pub fn end_offset(&self) -> (r: usize)
        ensures
            r == self.end.offset,
    {
        self.end.offset
    }

    /// The number of characters left in the window.
    pub fn remaining_len(&self) -> (r: usize)
        requires
            self.start.offset <= self.end.offset,
        ensures
            r == self.end.offset - self.start.offset,
    {
        self.end.offset - self.start.offset
    }

    /// Returns this window advanced by one character: the new start points
    /// just past `src[self.start.offset]`, with line and column updated
    /// incrementally, and the end is unchanged.
    pub fn advance(self, src: &Vec<char>) -> (r: Span)
        requires
            self.wf(src@),
            src@.len() < usize::MAX,
            self.start.offset < self.end.offset,
        ensures
            r.wf(src@),
            r.start.offset == self.start.offset + 1,
            r.end == self.end,
    {
        proof {
            lemma_line_col_bounds(src@, self.start.offset as int);
        }
        let c = src[self.start.offset];
        let start = if c == '\n' {
            Point { line: self.start.line + 1, column: 1, offset: self.start.offset + 1 }
        } else {
            Point {
                line: self.start.line,
                column: self.start.column + 1,
                offset: self.start.offset + 1,
            }
        };
        Span { start, end: self.end }
    }

    /// The window that was consumed between this span and `after`: from
    /// this span's start up to the start of `after`.
    pub fn to(self, after: Span) -> (r: Span)
        requires
            self.start.offset <= after.start.offset,
        ensures
            r == (Span { start: self.start, end: after.start }),
    {
        Span { start: self.start, end: after.start }
    }
}

/// The coordinate of the end of the input, computed by one incremental
/// scan over the whole source.
pub fn end_point(src: &Vec<char>) -> (r: Point)
    requires
        src@.len() < usize::MAX,
    ensures
        point_wf(r, src@),
        r.offset == src@.len(),
{
    let mut line: usize = 1;
    let mut column: usize = 1;
    let mut i: usize = 0;
    while i < src.len()
        invariant
            i <= src@.len(),
            src@.len() < usize::MAX,
            line == line_at(src@, i as int),
            column == col_at(src@, i as int),
        decreases src@.len() - i,
    {
        proof {
            lemma_line_col_bounds(src@, i as int);
        }
        if src[i] == '\n' {
            line = line + 1;
            column = 1;
        } else {
            column = column + 1;
        }
        i = i + 1;
    }
    Point { line, column, offset: i }
}

/// The span covering a whole source text: the start is line 1, column 1,
/// offset 0 and the end is the end of the input.
pub fn full_span(src: &Vec<char>) -> (r: Span)
    requires
        src@.len() < usize::MAX,
    ensures
        r.wf(src@),
        r.start == (Point { line: 1, column: 1, offset: 0 }),
        r.end.offset == src@.len(),
{
    let start = Point { line: 1, column: 1, offset: 0 };
    let end = end_point(src);
    Span { start, end }
}

/// A parsed value paired with the exact window of input that produced it,
/// prior to position resolution.
#[derive(Copy, Clone, Debug, Eq, PartialEq)]
pub struct Captured<T> {
    pub inner: T,
    pub input: Span,
}

impl<T> Captured<T> {
    pub fn new(inner: T, input: Span) -> (r: Captured<T>)
        ensures
            r == (Captured { inner, input }),
    {
        Captured { inner, input }
    }

    pub fn into_inner(self) -> (r: T)
        ensures
            r == self.inner,
    {
        self.inner
    }

    /// The window of input that was consumed to construct the value.
    pub fn input(&self) -> (r: Span)
        ensures
            r == self.input,
    {
        self.input
    }
}

/// Records the window a parsing step consumed: `before` is the cursor at
/// entry and `after` the cursor at exit, and the captured window is what
/// lies between their starts.
pub fn capture<T>(inner: T, before: Span, after: Span) -> (r: Captured<T>)
    requires
        before.start.offset <= after.start.offset,
    ensures
        r.inner == inner,
        r.input == (Span { start: before.start, end: after.start }),
{
    Captured { inner, input: before.to(after) }
}

/// Resolves a captured value into a located one: the captured window
/// becomes a [`Position`] and the value is kept unchanged.
pub fn locate<T>(c: Captured<T>) -> (r: Locatable<T>)
    requires
        c.input.start.offset <= c.input.end.offset,
    ensures
        r.inner == c.inner,
        r.position == (Position { start: c.input.start, end: c.input.end, indent: None::<u32> }),
{
    let Captured { inner, input } = c;
    Locatable { inner, position: Position::new(input.start, input.end) }
}

} // verus!
