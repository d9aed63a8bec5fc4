//! Lexical utilities: executable scanners for line boundaries, whitespace
//! and delimiters, each proved to compute exactly the corresponding
//! function of [`crate::syntax`], together with the cursor movements that
//! keep line and column bookkeeping exact.

use vstd::prelude::*;

use crate::errors::ParseError;
use crate::location::Point;
use crate::span::Span;
use crate::syntax::{
    blank_at, is_ws, lemma_coords_over_ws, lemma_hash_end_is, lemma_line_end_is, lemma_star_at_is,
    lemma_trim_back_bounds, lemma_ws_end_is, line_end, next_line, star_at, trim_back, ws_end,
    hash_end,
};

verus! {

/// The first offset at or after `i` holding a line terminator, or the
/// end of the input.
pub fn find_line_end(src: &Vec<char>, i: usize) -> (r: usize)
    requires
        i <= src@.len(),
    ensures
        r == line_end(src@, i as int),
        i <= r <= src@.len(),
{
    let mut j = i;
    while j < src.len() && src[j] != '\n'
        invariant
            i <= j <= src@.len(),
            forall|k: int| i <= k < j ==> src@[k] != '\n',
        decreases src@.len() - j,
    {
        j = j + 1;
    }
    proof {
        lemma_line_end_is(src@, i as int, j as int);
    }
    j
}

/// The first offset at or after `i` holding a character that is not
/// horizontal whitespace, or the end of the input.
pub fn find_ws_end(src: &Vec<char>, i: usize) -> (r: usize)
    requires
        i <= src@.len(),
    ensures
        r == ws_end(src@, i as int),
        i <= r <= src@.len(),
{
    let mut j = i;
    while j < src.len() && (src[j] == ' ' || src[j] == '\t')
        invariant
            i <= j <= src@.len(),
            forall|k: int| i <= k < j ==> is_ws(src@[k]),
        decreases src@.len() - j,
    {
        j = j + 1;
    }
    proof {
        lemma_ws_end_is(src@, i as int, j as int);
    }
    j
}

/// The end of the region `[i, j)` once trailing whitespace is dropped.
pub fn find_trim_back(src: &Vec<char>, i: usize, j: usize) -> (r: usize)
    requires
        i <= j <= src@.len(),
    ensures
        r == trim_back(src@, i as int, j as int),
        i <= r <= j,
{
    let mut k = j;
    while k > i && (src[k - 1] == ' ' || src[k - 1] == '\t')
        invariant
            i <= k <= j <= src@.len(),
            trim_back(src@, i as int, j as int) == trim_back(src@, i as int, k as int),
        decreases k,
    {
        k = k - 1;
    }
    proof {
        lemma_trim_back_bounds(src@, i as int, j as int);
    }
    k
}

/// The first offset in `[i, e)` holding the inline delimiter, or `e`.
pub fn find_star_at(src: &Vec<char>, i: usize, e: usize) -> (r: usize)
    requires
        i <= e <= src@.len(),
    ensures
        r == star_at(src@, i as int, e as int),
        i <= r <= e,
{
    let mut j = i;
    while j < e && src[j] != '*'
        invariant
            i <= j <= e <= src@.len(),
            forall|k: int| i <= k < j ==> src@[k] != '*',
        decreases e - j,
    {
        j = j + 1;
    }
    proof {
        lemma_star_at_is(src@, i as int, j as int, e as int);
    }
    j
}

/// The first offset in `[i, e)` not holding the heading marker, or `e`.
pub fn find_hash_end(src: &Vec<char>, i: usize, e: usize) -> (r: usize)
    requires
        i <= e <= src@.len(),
    ensures
        r == hash_end(src@, i as int, e as int),
        i <= r <= e,
{
    let mut j = i;
    while j < e && src[j] == '#'
        invariant
            i <= j <= e <= src@.len(),
            forall|k: int| i <= k < j ==> src@[k] == '#',
        decreases e - j,
    {
        j = j + 1;
    }
    proof {
        lemma_hash_end_is(src@, i as int, j as int, e as int);
    }
    j
}

/// Whether the line at `i` is blank: empty or all whitespace up to its
/// terminator or the end of the input.
pub fn is_blank_at(src: &Vec<char>, i: usize) -> (r: bool)
    requires
        i <= src@.len(),
    ensures
        r == blank_at(src@, i as int),
{
    let w = find_ws_end(src, i);
    let e = find_line_end(src, i);
    w == e
}

/// Advances the cursor to offset `j`, one character at a time, keeping
/// the line and column bookkeeping exact at every step.
pub fn advance_to(src: &Vec<char>, span: Span, j: usize) -> (r: Span)
    requires
        span.wf(src@),
        src@.len() < usize::MAX,
        span.start.offset <= j <= span.end.offset,
    ensures
        r.wf(src@),
        r.start.offset == j,
        r.end == span.end,
{
    let mut cur = span;
    while cur.start.offset < j
        invariant
            cur.wf(src@),
            src@.len() < usize::MAX,
            cur.start.offset <= j <= cur.end.offset,
            cur.end == span.end,
        decreases j - cur.start.offset,
    {
        cur = cur.advance(src);
    }
    cur
}

/// Succeeds, consuming nothing, only if the cursor stands at the
/// beginning of a line (column one); otherwise the cursor is left
/// untouched for the caller to try another alternative.
pub fn beginning_of_line(input: Span) -> (r: Result<Span, ParseError>)
    ensures
        (r is Ok) == (input.start.column == 1),
        r matches Ok(o) ==> o == input,
{
    if input.column() == 1 {
        Ok(input)
    } else {
        Err(ParseError::new(input.start_offset(), "Beginning of Line"))
    }
}

/// Succeeds at a line terminator, consuming it, or at the true end of
/// the input, consuming nothing.
pub fn end_of_line_or_input(src: &Vec<char>, input: Span) -> (r: Result<Span, ParseError>)
    requires
        input.wf(src@),
        src@.len() < usize::MAX,
        input.end.offset == src@.len(),
    ensures
        (r is Ok) == (input.start.offset == src@.len() || src@[input.start.offset as int] == '\n'),
        r matches Ok(o) ==> {
            &&& o.wf(src@)
            &&& o.end == input.end
            &&& o.start.offset == if input.start.offset < src@.len() {
                input.start.offset + 1
            } else {
                input.start.offset as int
            }
        },
{
    let i = input.start_offset();
    if i >= src.len() {
        Ok(input)
    } else if src[i] == '\n' {
        Ok(input.advance(src))
    } else {
        Err(ParseError::new(i, "End of Line or Input"))
    }
}

/// Succeeds only at the beginning of a line whose remainder is empty or
/// all whitespace, consuming through the line terminator (or to the end
/// of the input).
pub fn blank_line(src: &Vec<char>, input: Span) -> (r: Result<Span, ParseError>)
    requires
        input.wf(src@),
        src@.len() < usize::MAX,
        input.end.offset == src@.len(),
    ensures
        (r is Ok) == (input.start.column == 1 && blank_at(src@, input.start.offset as int)),
        r matches Ok(o) ==> {
            &&& o.wf(src@)
            &&& o.end == input.end
            &&& o.start.offset == next_line(src@, input.start.offset as int)
        },
{
    let i = input.start_offset();
    if input.column() != 1 {
        return Err(ParseError::new(i, "Blank Line"));
    }
    if !is_blank_at(src, i) {
        return Err(ParseError::new(i, "Blank Line"));
    }
    let e = find_line_end(src, i);
    let nl = if e < src.len() {
        e + 1
    } else {
        e
    };
    Ok(advance_to(src, input, nl))
}

/// Counts the whitespace characters trailing at the end of the window.
pub fn count_trailing_whitespace(src: &Vec<char>, input: Span) -> (r: usize)
    requires
        input.wf(src@),
    ensures
        r == input.end.offset - trim_back(src@, input.start.offset as int, input.end.offset as int),
{
    let tb = find_trim_back(src, input.start_offset(), input.end_offset());
    input.end_offset() - tb
}

/// Returns the window with its trailing whitespace cut off: the start is
/// unchanged and the end moves back over the trailing run, its line and
/// column bookkeeping staying exact.
pub fn trim_trailing_whitespace(src: &Vec<char>, input: Span) -> (r: Span)
    requires
        input.wf(src@),
    ensures
        r.wf(src@),
        r.start == input.start,
        r.end.offset == trim_back(src@, input.start.offset as int, input.end.offset as int),
{
    let tb = find_trim_back(src, input.start_offset(), input.end_offset());
    proof {
        lemma_trim_back_bounds(src@, input.start.offset as int, input.end.offset as int);
        lemma_coords_over_ws(src@, tb as int, input.end.offset as int);
        crate::span::lemma_line_col_bounds(src@, tb as int);
    }
    let cnt = input.end_offset() - tb;
    let end = Point {
        line: input.end_line(),
        column: input.end_column() - cnt,
        offset: tb,
    };
    Span { start: input.start, end }
}

/// Returns the window with both its leading and its trailing whitespace
/// cut off, interior content untouched.
pub fn trim_whitespace(src: &Vec<char>, input: Span) -> (r: Span)
    requires
        input.wf(src@),
        src@.len() < usize::MAX,
    ensures
        r.wf(src@),
        r.start.offset == if ws_end(src@, input.start.offset as int) <= input.end.offset {
            ws_end(src@, input.start.offset as int)
        } else {
            input.end.offset as int
        },
        r.end.offset == trim_back(src@, r.start.offset as int, input.end.offset as int),
{
    let w = find_ws_end(src, input.start_offset());
    let stop = if w <= input.end_offset() {
        w
    } else {
        input.end_offset()
    };
    let advanced = advance_to(src, input, stop);
    trim_trailing_whitespace(src, advanced)
}

/// The text of the window, as an owned string.
pub fn span_as_string(src: &Vec<char>, input: Span) -> (s: String)
    requires
        input.wf(src@),
    ensures
        s@ == src@.subrange(input.start.offset as int, input.end.offset as int),
{
    string_sub(src, input.start_offset(), input.end_offset())
}

/// Relies on `String`'s `FromIterator<char>` implementation: collecting
/// an iterator over a character vector yields the string of exactly
/// those characters, in order.
#[verifier::external_body]
fn string_from_chars(v: &Vec<char>) -> (s: String)
    ensures
        s@ == v@,
{
    v.iter().collect()
}

/// The characters `[i, j)` of the source, as an owned string.
pub fn string_sub(src: &Vec<char>, i: usize, j: usize) -> (s: String)
    requires
        i <= j <= src@.len(),
    ensures
        s@ == src@.subrange(i as int, j as int),
{
    let mut v: Vec<char> = Vec::new();
    let mut k = i;
    while k < j
        invariant
            i <= k <= j <= src@.len(),
            v@ =~= src@.subrange(i as int, k as int),
        decreases j - k,
    {
        v.push(src[k]);
        proof {
            assert(v@ =~= src@.subrange(i as int, k + 1));
        }
        k = k + 1;
    }
    string_from_chars(&v)
}

/// The characters of `markup`, collected into a vector for random
/// access while parsing.
pub fn chars_of(markup: &str) -> (r: Vec<char>)
    ensures
        r@ == markup@,
{
    let n = markup.unicode_len();
    let mut v: Vec<char> = Vec::new();
    let mut i: usize = 0;
    while i < n
        invariant
            i <= n,
            n == markup@.len(),
            v@ =~= markup@.subrange(0, i as int),
        decreases n - i,
    {
        v.push(markup.get_char(i));
        proof {
            assert(v@ =~= markup@.subrange(0, i + 1));
        }
        i = i + 1;
    }
    proof {
        assert(markup@.subrange(0, markup@.len() as int) =~= markup@);
    }
    v
}

} // verus!
