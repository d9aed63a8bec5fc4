//! The grammar engine: executable block- and inline-level parsers, each
//! proved against the grammar of [`crate::syntax`].  Every parsing step
//! takes an immutable cursor and returns a new cursor over the remainder
//! together with its result; a failed alternative leaves the caller's
//! cursor untouched, so the enclosing alternation retries from the
//! pre-branch position.

use vstd::prelude::*;

use crate::ast::{
    Block, BlockQuote, Emphasis, Heading, Inline, InlineElementContainer, Paragraph, Root, Strong,
    Text,
};
use crate::errors::ParseError;
use crate::lexical::{
    advance_to, chars_of, find_hash_end, find_line_end, find_star_at, find_trim_back, find_ws_end,
    is_blank_at, string_sub,
};
use crate::location::Locatable;
use crate::span::{capture, full_span, locate, Span};
use crate::syntax::{
    at_line_start, b_line_after_blanks, blank_at, bq_a_content, bq_a_end, bq_a_line_matches,
    bq_a_lines_match, bq_b_content, bq_b_end, bq_b_line_matches, bq_b_lines_match, bq_end,
    bq_lines_match, bq_matches, doc_children_match, doc_has_block, emph_close, emph_matches,
    header_matches, heading_node_matches, inline_at_matches, inline_count, inline_next,
    lemma_bq_a_end_starts, lemma_bq_b_end_starts, lemma_inline_next_bounds, lemma_line_end_bounds,
    lemma_line_end_stable, lemma_located_count, lemma_next_line_gt, lemma_next_line_starts,
    lemma_para_end_starts, lemma_ws_end_le_line_end, line_end, located_inlines_match, next_line,
    para_children_match, para_end, para_line_ok, paragraph_node_matches, pos_marks, region_ok,
    strong_close, strong_matches, text_end, ws_end,
};

verus! {

/// If emphasis matches at `i` in `[i, e)`, the offset of its closing
/// delimiter.
fn emph_check(src: &Vec<char>, i: usize, e: usize) -> (r: Option<usize>)
    requires
        i < e <= src@.len(),
    ensures
        (r is Some) == emph_matches(src@, i as int, e as int),
        r matches Some(c) ==> c == emph_close(src@, i as int, e as int),
{
    if src[i] != '*' {
        return None;
    }
    let c1 = find_star_at(src, i + 1, e);
    if c1 < e && c1 > i + 1 {
        Some(c1)
    } else {
        None
    }
}

/// If strong emphasis matches at `i` in `[i, e)`, the offset of its
/// first closing delimiter.
fn strong_check(src: &Vec<char>, i: usize, e: usize) -> (r: Option<usize>)
    requires
        i < e <= src@.len(),
        src@.len() < usize::MAX,
    ensures
        (r is Some) == strong_matches(src@, i as int, e as int),
        r matches Some(c) ==> c == strong_close(src@, i as int, e as int),
{
    if src[i] != '*' || i + 1 >= e || src[i + 1] != '*' {
        return None;
    }
    let c2 = find_star_at(src, i + 2, e);
    if c2 > i + 2 && c2 + 1 < e && src[c2 + 1] == '*' {
        Some(c2)
    } else {
        None
    }
}

/// The end of the literal text run at `i` in `[i, e)`.
fn find_text_end(src: &Vec<char>, i: usize, e: usize) -> (r: usize)
    requires
        i <= e <= src@.len(),
        src@.len() < usize::MAX,
    ensures
        r == text_end(src@, i as int, e as int),
        i <= r <= e,
{
    let mut j = i;
    while j < e
        invariant
            i <= j <= e <= src@.len(),
            src@.len() < usize::MAX,
            text_end(src@, i as int, e as int) == text_end(src@, j as int, e as int),
        decreases e - j,
    {
        let c = src[j];
        if c == '\n' {
            return j;
        }
        if c == '*' {
            let em = emph_check(src, j, e);
            let st = strong_check(src, j, e);
            if em.is_some() || st.is_some() {
                return j;
            }
        }
        j = j + 1;
    }
    j
}

/// One inline element is covered by `elems`' tail from `i` to `j`: the
/// elements stand consecutively, each matching the grammar at its own
/// position and carrying that exact region.
spec fn inline_run_prefix(
    s: Seq<char>,
    i: int,
    e: int,
    elems: Seq<Locatable<Inline>>,
    j: int,
) -> bool
    decreases elems.len(),
{
    if elems.len() == 0 {
        j == i
    } else {
        &&& i < e
        &&& i < inline_next(s, i, e) <= e
        &&& inline_at_matches(s, i, e, elems[0].inner)
        &&& pos_marks(elems[0].position, s, i, inline_next(s, i, e))
        &&& inline_run_prefix(s, inline_next(s, i, e), e, elems.drop_first(), j)
    }
}

/// Appending the element parsed at `j` extends a run ending at `j` into
/// a run ending where that element ends.
proof fn lemma_inline_run_snoc(
    s: Seq<char>,
    i: int,
    e: int,
    elems: Seq<Locatable<Inline>>,
    j: int,
    el: Locatable<Inline>,
    n: int,
)
    requires
        inline_run_prefix(s, i, e, elems, j),
        j < e,
        n == inline_next(s, j, e),
        j < n <= e,
        inline_at_matches(s, j, e, el.inner),
        pos_marks(el.position, s, j, n),
    ensures
        inline_run_prefix(s, i, e, elems.push(el), n),
    decreases elems.len(),
{
    if elems.len() == 0 {
        let pushed = elems.push(el);
        assert(pushed.drop_first() =~= Seq::<Locatable<Inline>>::empty());
        assert(pushed[0] == el);
        assert(inline_run_prefix(s, n, e, pushed.drop_first(), n));
        assert(i == j);
        assert(inline_run_prefix(s, i, e, pushed, n));
    } else {
        lemma_inline_run_snoc(s, inline_next(s, i, e), e, elems.drop_first(), j, el, n);
        assert(elems.push(el).drop_first() =~= elems.drop_first().push(el));
        assert(elems.push(el)[0] == elems[0]);
    }
}

/// A run that covers the whole region is exactly what the region parses
/// to.
proof fn lemma_inline_run_complete(s: Seq<char>, i: int, e: int, elems: Seq<Locatable<Inline>>)
    requires
        inline_run_prefix(s, i, e, elems, e),
    ensures
        located_inlines_match(s, i, e, elems),
    decreases elems.len(),
{
    if elems.len() > 0 {
        lemma_inline_run_complete(s, inline_next(s, i, e), e, elems.drop_first());
    }
}

/// Parses one inline element at the cursor, inside the line region that
/// ends at `e`: emphasis, then strong emphasis, then literal text.  An
/// element is parsed, consuming at least one character, whenever the
/// region is not exhausted.
fn inline_element(src: &Vec<char>, input: Span, e: usize) -> (r: Result<
    (Span, Locatable<Inline>),
    ParseError,
>)
    requires
        input.wf(src@),
        src@.len() < usize::MAX,
        region_ok(src@, input.start.offset as int, e as int),
        e <= input.end.offset,
    ensures
        (r is Ok) == (input.start.offset < e),
        r matches Ok((rest, el)) ==> {
            &&& rest.wf(src@)
            &&& rest.end == input.end
            &&& rest.start.offset == inline_next(src@, input.start.offset as int, e as int)
            &&& input.start.offset < rest.start.offset <= e
            &&& inline_at_matches(src@, input.start.offset as int, e as int, el.inner)
            &&& pos_marks(el.position, src@, input.start.offset as int, rest.start.offset as int)
        },
{
    let i = input.start_offset();
    if i >= e {
        return Err(ParseError::new(i, "Inline Element"));
    }
    proof {
        lemma_inline_next_bounds(src@, i as int, e as int);
    }
    if let Some(c1) = emph_check(src, i, e) {
        let value = string_sub(src, i + 1, c1);
        let mut children: Vec<Inline> = Vec::new();
        children.push(Inline::Text(Text { value }));
        let inner = Inline::Emphasis(Emphasis { children });
        let rest = advance_to(src, input, c1 + 1);
        let el = locate(capture(inner, input, rest));
        return Ok((rest, el));
    }
    if let Some(c2) = strong_check(src, i, e) {
        let value = string_sub(src, i + 2, c2);
        let mut children: Vec<Inline> = Vec::new();
        children.push(Inline::Text(Text { value }));
        let inner = Inline::Strong(Strong { children });
        let rest = advance_to(src, input, c2 + 2);
        let el = locate(capture(inner, input, rest));
        return Ok((rest, el));
    }
    let te = find_text_end(src, i, e);
    let value = string_sub(src, i, te);
    let inner = Inline::Text(Text { value });
    let rest = advance_to(src, input, te);
    let el = locate(capture(inner, input, rest));
    Ok((rest, el))
}

/// Parses one or more inline elements into a container, consuming the
/// whole region `[cursor, e)`; this does not consume a line terminator.
/// The production fails exactly when the region is empty.
pub fn inline_element_container(src: &Vec<char>, input: Span, e: usize) -> (r: Result<
    (Span, Locatable<InlineElementContainer>),
    ParseError,
>)
    requires
        input.wf(src@),
        src@.len() < usize::MAX,
        region_ok(src@, input.start.offset as int, e as int),
        e <= input.end.offset,
    ensures
        (r is Ok) == (input.start.offset < e),
        r matches Ok((rest, c)) ==> {
            &&& rest.wf(src@)
            &&& rest.end == input.end
            &&& rest.start.offset == e
            &&& located_inlines_match(src@, input.start.offset as int, e as int, c.inner.elements@)
            &&& c.inner.elements@.len() >= 1
            &&& pos_marks(c.position, src@, input.start.offset as int, e as int)
        },
{
    let i0 = input.start_offset();
    if i0 >= e {
        return Err(ParseError::new(i0, "Inline Element Container"));
    }
    let mut elems: Vec<Locatable<Inline>> = Vec::new();
    let mut cur = input;
    while cur.start_offset() < e
        invariant
            cur.wf(src@),
            src@.len() < usize::MAX,
            cur.end == input.end,
            e <= input.end.offset,
            region_ok(src@, input.start.offset as int, e as int),
            input.start.offset <= cur.start.offset <= e,
            input.start.offset == i0,
            inline_run_prefix(src@, i0 as int, e as int, elems@, cur.start.offset as int),
        decreases e - cur.start.offset,
    {
        let ghost j = cur.start.offset as int;
        match inline_element(src, cur, e) {
            Ok((next, el)) => {
                proof {
                    lemma_inline_run_snoc(
                        src@,
                        i0 as int,
                        e as int,
                        elems@,
                        j,
                        el,
                        next.start.offset as int,
                    );
                }
                elems.push(el);
                cur = next;
            },
            Err(err) => {
                proof {
                    assert(false);
                }
                return Err(err);
            },
        }
    }
    proof {
        lemma_inline_run_complete(src@, i0 as int, e as int, elems@);
        if elems@.len() == 0 {
            assert(false);
        }
    }
    let container = InlineElementContainer { elements: elems };
    let el = locate(capture(container, input, cur));
    Ok((cur, el))
}

/// Whether a heading line starts at `i`: the marker run, the mandatory
/// space, and non-empty content.
fn header_test(src: &Vec<char>, i: usize) -> (r: bool)
    requires
        i <= src@.len(),
        src@.len() < usize::MAX,
    ensures
        r == header_matches(src@, i as int),
{
    let e = find_line_end(src, i);
    let he = find_hash_end(src, i, e);
    let h = he - i;
    if h < 1 || h > 6 {
        return false;
    }
    if he >= e || src[he] != ' ' {
        return false;
    }
    proof {
        lemma_line_end_stable(src@, i as int, he + 1);
        lemma_ws_end_le_line_end(src@, he + 1);
    }
    let a = find_ws_end(src, he + 1);
    let b = find_trim_back(src, a, e);
    a < b
}

/// Parses a heading at the cursor: a run of one to six marker characters
/// at the beginning of a line, the mandatory space, and the rest of the
/// line as inline content, consuming through the end of the line.
pub fn header(src: &Vec<char>, input: Span) -> (r: Result<
    (Span, Locatable<Heading>),
    ParseError,
>)
    requires
        input.wf(src@),
        src@.len() < usize::MAX,
        input.end.offset == src@.len(),
    ensures
        (r is Ok) == (input.start.column == 1 && header_matches(src@, input.start.offset as int)),
        r matches Ok((rest, h)) ==> {
            &&& rest.wf(src@)
            &&& rest.end == input.end
            &&& input.start.offset < rest.start.offset
            &&& rest.start.offset == next_line(src@, input.start.offset as int)
            &&& heading_node_matches(src@, input.start.offset as int, h.inner)
            &&& pos_marks(h.position, src@, input.start.offset as int, rest.start.offset as int)
        },
{
    let i = input.start_offset();
    if input.column() != 1 {
        return Err(ParseError::new(i, "Header"));
    }
    if !header_test(src, i) {
        return Err(ParseError::new(i, "Header"));
    }
    let e = find_line_end(src, i);
    let he = find_hash_end(src, i, e);
    let depth = he - i;
    proof {
        lemma_line_end_stable(src@, i as int, he + 1);
        lemma_ws_end_le_line_end(src@, he + 1);
    }
    let a = find_ws_end(src, he + 1);
    let b = find_trim_back(src, a, e);
    let cur_a = advance_to(src, input, a);
    proof {
        lemma_line_end_bounds(src@, i as int);
        assert(region_ok(src@, a as int, b as int));
    }
    match inline_element_container(src, cur_a, b) {
        Ok((after, container)) => {
            let heading = Heading::new_with_children(depth, false, container.into_inner());
            let nl = if e < src.len() {
                e + 1
            } else {
                e
            };
            let rest = advance_to(src, after, nl);
            let el = locate(capture(heading, input, rest));
            Ok((rest, el))
        },
        Err(err) => {
            proof {
                assert(false);
            }
            Err(err)
        },
    }
}

/// The paragraph continuation guard: the line at `i` continues a
/// paragraph unless the input is exhausted, the line is blank, or the
/// line starts a heading.
fn para_guard(src: &Vec<char>, i: usize) -> (r: bool)
    requires
        i <= src@.len(),
        src@.len() < usize::MAX,
    ensures
        r == para_line_ok(src@, i as int),
{
    if i >= src.len() {
        return false;
    }
    if is_blank_at(src, i) {
        return false;
    }
    !header_test(src, i)
}

/// The inline elements of the paragraph lines from `i` to `j`, line by
/// line: each line contributes the run of its content after leading
/// whitespace, and `j` is the start of the first unparsed line.
spec fn para_lines_prefix(s: Seq<char>, i: int, elems: Seq<Locatable<Inline>>, j: int) -> bool
    decreases j - i,
{
    if j <= i {
        elems.len() == 0 && j == i
    } else {
        let w = ws_end(s, i);
        let e = line_end(s, i);
        let c = inline_count(s, w, e) as int;
        &&& para_line_ok(s, i)
        &&& i < next_line(s, i) <= j
        &&& c <= elems.len()
        &&& located_inlines_match(s, w, e, elems.take(c))
        &&& para_lines_prefix(s, next_line(s, i), elems.skip(c), j)
    }
}

/// Appending the elements of the line at `j` extends a paragraph run
/// ending at `j` into one ending at the next line.
proof fn lemma_para_snoc(
    s: Seq<char>,
    i: int,
    elems: Seq<Locatable<Inline>>,
    j: int,
    line_elems: Seq<Locatable<Inline>>,
)
    requires
        para_lines_prefix(s, i, elems, j),
        para_line_ok(s, j),
        j < next_line(s, j),
        located_inlines_match(s, ws_end(s, j), line_end(s, j), line_elems),
    ensures
        para_lines_prefix(s, i, elems + line_elems, next_line(s, j)),
    decreases j - i,
{
    lemma_located_count(s, ws_end(s, j), line_end(s, j), line_elems);
    if j <= i {
        let c = inline_count(s, ws_end(s, j), line_end(s, j)) as int;
        assert((elems + line_elems).take(c) =~= line_elems);
        assert((elems + line_elems).skip(c) =~= Seq::<Locatable<Inline>>::empty());
        assert(para_lines_prefix(s, next_line(s, j), (elems + line_elems).skip(c), next_line(s, j)));
    } else {
        let w = ws_end(s, i);
        let e = line_end(s, i);
        let c = inline_count(s, w, e) as int;
        lemma_para_snoc(s, next_line(s, i), elems.skip(c), j, line_elems);
        assert((elems + line_elems).take(c) =~= elems.take(c));
        assert((elems + line_elems).skip(c) =~= elems.skip(c) + line_elems);
    }
}

/// A paragraph run whose guard fails at its end is exactly the
/// paragraph's content, and the paragraph ends there.
proof fn lemma_para_complete(s: Seq<char>, i: int, elems: Seq<Locatable<Inline>>, j: int)
    requires
        para_lines_prefix(s, i, elems, j),
        !para_line_ok(s, j),
    ensures
        para_children_match(s, i, elems),
        para_end(s, i) == j,
    decreases j - i,
{
    if j <= i {
    } else {
        let c = inline_count(s, ws_end(s, i), line_end(s, i)) as int;
        lemma_para_complete(s, next_line(s, i), elems.skip(c), j);
    }
}

/// Parses a paragraph at the cursor: at the beginning of a line, one or
/// more lines of inline content, as long as the continuation guard
/// passes, each line consumed through its terminator.
pub fn paragraph(src: &Vec<char>, input: Span) -> (r: Result<(Span, Paragraph), ParseError>)
    requires
        input.wf(src@),
        src@.len() < usize::MAX,
        input.end.offset == src@.len(),
    ensures
        (r is Ok) == (input.start.column == 1 && para_line_ok(src@, input.start.offset as int)),
        r matches Ok((rest, p)) ==> {
            &&& rest.wf(src@)
            &&& rest.end == input.end
            &&& input.start.offset < rest.start.offset
            &&& rest.start.offset == para_end(src@, input.start.offset as int)
            &&& paragraph_node_matches(src@, input.start.offset as int, p)
            &&& p.children.elements@.len() >= 1
        },
{
    let i0 = input.start_offset();
    if input.column() != 1 {
        return Err(ParseError::new(i0, "Paragraph"));
    }
    if !para_guard(src, i0) {
        return Err(ParseError::new(i0, "Paragraph"));
    }
    let mut elems: Vec<Locatable<Inline>> = Vec::new();
    let mut cur = input;
    let mut go = true;
    while go
        invariant
            cur.wf(src@),
            src@.len() < usize::MAX,
            cur.end == input.end,
            input.end.offset == src@.len(),
            input.start.offset == i0,
            i0 <= cur.start.offset,
            para_lines_prefix(src@, i0 as int, elems@, cur.start.offset as int),
            go == para_line_ok(src@, cur.start.offset as int),
            elems@.len() == 0 ==> cur.start.offset == i0,
            elems@.len() >= 1 ==> cur.start.offset > i0,
        decreases src@.len() - cur.start.offset + if go {
            1int
        } else {
            0int
        },
    {
        let ghost j = cur.start.offset as int;
        let i = cur.start_offset();
        let e = find_line_end(src, i);
        proof {
            lemma_ws_end_le_line_end(src@, i as int);
            lemma_line_end_bounds(src@, i as int);
        }
        let w = find_ws_end(src, i);
        let cur_w = advance_to(src, cur, w);
        proof {
            assert(region_ok(src@, w as int, e as int));
            assert(!blank_at(src@, j));
            assert(w < e);
        }
        match inline_element_container(src, cur_w, e) {
            Ok((after, container)) => {
                let mut line_elems = container.into_inner().into_children();
                proof {
                    lemma_para_snoc(
                        src@,
                        i0 as int,
                        elems@,
                        j,
                        line_elems@,
                    );
                }
                elems.append(&mut line_elems);
                let nl = if e < src.len() {
                    e + 1
                } else {
                    e
                };
                let rest = advance_to(src, after, nl);
                cur = rest;
                go = para_guard(src, nl);
            },
            Err(err) => {
                proof {
                    assert(false);
                }
                return Err(err);
            },
        }
    }
    proof {
        lemma_para_complete(src@, i0 as int, elems@, cur.start.offset as int);
        if elems@.len() == 0 {
            assert(cur.start.offset == i0);
            assert(false);
        }
    }
    let p = Paragraph::new(InlineElementContainer::new(elems));
    Ok((cur, p))
}

/// Parses a paragraph and wraps it with the exact source region it
/// consumed.
pub fn parse_paragraph(src: &Vec<char>, input: Span) -> (r: Result<
    (Span, Locatable<Paragraph>),
    ParseError,
>)
    requires
        input.wf(src@),
        src@.len() < usize::MAX,
        input.end.offset == src@.len(),
    ensures
        (r is Ok) == (input.start.column == 1 && para_line_ok(src@, input.start.offset as int)),
        r matches Ok((rest, p)) ==> {
            &&& rest.wf(src@)
            &&& rest.end == input.end
            &&& input.start.offset < rest.start.offset
            &&& rest.start.offset == para_end(src@, input.start.offset as int)
            &&& paragraph_node_matches(src@, input.start.offset as int, p.inner)
            &&& p.inner.children.elements@.len() >= 1
            &&& pos_marks(p.position, src@, input.start.offset as int, rest.start.offset as int)
        },
{
    match paragraph(src, input) {
        Ok((rest, p)) => {
            let el = locate(capture(p, input, rest));
            Ok((rest, el))
        },
        Err(err) => Err(err.context("Paragraph")),
    }
}

/// Whether an indented quote line starts at `i`.
fn bq_a_test(src: &Vec<char>, i: usize) -> (r: bool)
    requires
        i <= src@.len(),
        src@.len() < usize::MAX,
    ensures
        r == bq_a_line_matches(src@, i as int),
{
    if i >= src.len() {
        return false;
    }
    let indented = (src.len() - i >= 4 && src[i] == ' ' && src[i + 1] == ' ' && src[i + 2] == ' '
        && src[i + 3] == ' ') || src[i] == '\t';
    if !indented {
        return false;
    }
    let w = find_ws_end(src, i);
    let e = find_line_end(src, i);
    w < e
}

/// Whether a marker-prefixed quote line starts at `i`.
fn bq_b_test(src: &Vec<char>, i: usize) -> (r: bool)
    requires
        i <= src@.len(),
        src@.len() < usize::MAX,
    ensures
        r == bq_b_line_matches(src@, i as int),
{
    if i >= src.len() || src.len() - i < 2 {
        return false;
    }
    src[i] == '>' && src[i + 1] == ' '
}

/// Whether a marker-prefixed quote line follows at `i` after zero or
/// more blank lines.
fn b_after_blanks_test(src: &Vec<char>, i: usize) -> (r: bool)
    requires
        i <= src@.len(),
        src@.len() < usize::MAX,
    ensures
        r == b_line_after_blanks(src@, i as int),
{
    let mut k = i;
    while k < src.len()
        invariant
            i <= k <= src@.len(),
            src@.len() < usize::MAX,
            b_line_after_blanks(src@, i as int) == b_line_after_blanks(src@, k as int),
        decreases src@.len() - k,
    {
        if bq_b_test(src, k) {
            return true;
        }
        if !is_blank_at(src, k) {
            return false;
        }
        let e = find_line_end(src, k);
        proof {
            lemma_next_line_gt(src@, k as int);
        }
        let nl = if e < src.len() {
            e + 1
        } else {
            e
        };
        k = nl;
    }
    proof {
        assert(!b_line_after_blanks(src@, k as int));
    }
    false
}

/// The raw lines of the indented quote lines from `i` to `j`.
spec fn bq_a_prefix(s: Seq<char>, i: int, lines: Seq<String>, j: int) -> bool
    decreases j - i,
{
    if j <= i {
        lines.len() == 0 && j == i
    } else {
        &&& bq_a_line_matches(s, i)
        &&& i < next_line(s, i) <= j
        &&& lines.len() >= 1
        &&& lines[0]@ == bq_a_content(s, i)
        &&& bq_a_prefix(s, next_line(s, i), lines.drop_first(), j)
    }
}

/// Appending the content of the indented quote line at `j` extends the
/// run to the next line.
proof fn lemma_bq_a_snoc(s: Seq<char>, i: int, lines: Seq<String>, j: int, line: String)
    requires
        bq_a_prefix(s, i, lines, j),
        bq_a_line_matches(s, j),
        j < next_line(s, j),
        line@ == bq_a_content(s, j),
    ensures
        bq_a_prefix(s, i, lines.push(line), next_line(s, j)),
    decreases j - i,
{
    if j <= i {
        let pushed = lines.push(line);
        assert(pushed.drop_first() =~= Seq::<String>::empty());
        assert(pushed[0] == line);
        assert(bq_a_prefix(s, next_line(s, j), pushed.drop_first(), next_line(s, j)));
        assert(i == j);
        assert(bq_a_prefix(s, i, pushed, next_line(s, j)));
    } else {
        lemma_bq_a_snoc(s, next_line(s, i), lines.drop_first(), j, line);
        assert(lines.push(line).drop_first() =~= lines.drop_first().push(line));
        assert(lines.push(line)[0] == lines[0]);
    }
}

/// A run of indented quote lines that stops where no further line
/// matches is the whole quote, ending there.
proof fn lemma_bq_a_complete(s: Seq<char>, i: int, lines: Seq<String>, j: int)
    requires
        bq_a_prefix(s, i, lines, j),
        !bq_a_line_matches(s, j),
    ensures
        bq_a_lines_match(s, i, lines),
        bq_a_end(s, i) == j,
    decreases j - i,
{
    if j > i {
        lemma_bq_a_complete(s, next_line(s, i), lines.drop_first(), j);
    }
}

/// The raw lines of a marker-prefixed quote from `i` to `j`: quote lines
/// contribute their content, interior blank lines an empty line each.
spec fn bq_b_prefix(s: Seq<char>, i: int, lines: Seq<String>, j: int) -> bool
    decreases j - i,
{
    if j <= i {
        lines.len() == 0 && j == i
    } else {
        &&& i < next_line(s, i) <= j
        &&& lines.len() >= 1
        &&& if bq_b_line_matches(s, i) {
            lines[0]@ == bq_b_content(s, i)
        } else {
            &&& blank_at(s, i)
            &&& i < s.len()
            &&& b_line_after_blanks(s, next_line(s, i))
            &&& lines[0]@ == Seq::<char>::empty()
        }
        &&& bq_b_prefix(s, next_line(s, i), lines.drop_first(), j)
    }
}

/// Appending the line at `j` (a quote line, or a blank line that later
/// quote lines follow) extends a marker-prefixed quote run.
proof fn lemma_bq_b_snoc(s: Seq<char>, i: int, lines: Seq<String>, j: int, line: String)
    requires
        bq_b_prefix(s, i, lines, j),
        j < next_line(s, j),
        bq_b_line_matches(s, j) ==> line@ == bq_b_content(s, j),
        !bq_b_line_matches(s, j) ==> {
            &&& blank_at(s, j)
            &&& j < s.len()
            &&& b_line_after_blanks(s, next_line(s, j))
            &&& line@ == Seq::<char>::empty()
        },
    ensures
        bq_b_prefix(s, i, lines.push(line), next_line(s, j)),
    decreases j - i,
{
    if j <= i {
        let pushed = lines.push(line);
        assert(pushed.drop_first() =~= Seq::<String>::empty());
        assert(pushed[0] == line);
        assert(bq_b_prefix(s, next_line(s, j), pushed.drop_first(), next_line(s, j)));
        assert(i == j);
        assert(bq_b_prefix(s, i, pushed, next_line(s, j)));
    } else {
        lemma_bq_b_snoc(s, next_line(s, i), lines.drop_first(), j, line);
        assert(lines.push(line).drop_first() =~= lines.drop_first().push(line));
        assert(lines.push(line)[0] == lines[0]);
    }
}

/// A marker-prefixed quote run that stops where neither a quote line nor
/// an interior blank line continues it is the whole quote, ending there.
proof fn lemma_bq_b_complete(s: Seq<char>, i: int, lines: Seq<String>, j: int)
    requires
        bq_b_prefix(s, i, lines, j),
        !bq_b_line_matches(s, j),
        !(blank_at(s, j) && j < s.len() && next_line(s, j) > j && b_line_after_blanks(
            s,
            next_line(s, j),
        )),
    ensures
        bq_b_lines_match(s, i, lines),
        bq_b_end(s, i) == j,
    decreases j - i,
{
    if j > i {
        lemma_bq_b_complete(s, next_line(s, i), lines.drop_first(), j);
    }
}

/// Parses a block quote at the cursor.  Two mutually exclusive line
/// styles: lines indented by at least four spaces or one tab, where a
/// blank line ends the quote; or lines prefixed by the quote marker and
/// a space, where blank lines between runs of quote lines are kept as
/// empty lines.  Quoted text is retained as raw, un-reparsed lines.
pub fn parse_blockquote(src: &Vec<char>, input: Span) -> (r: Result<
    (Span, Locatable<BlockQuote>),
    ParseError,
>)
    requires
        input.wf(src@),
        src@.len() < usize::MAX,
        input.end.offset == src@.len(),
    ensures
        (r is Ok) == (input.start.column == 1 && bq_matches(src@, input.start.offset as int)),
        r matches Ok((rest, q)) ==> {
            &&& rest.wf(src@)
            &&& rest.end == input.end
            &&& input.start.offset < rest.start.offset
            &&& rest.start.offset == bq_end(src@, input.start.offset as int)
            &&& bq_lines_match(src@, input.start.offset as int, q.inner.children@)
            &&& q.inner.children@.len() >= 1
            &&& pos_marks(q.position, src@, input.start.offset as int, rest.start.offset as int)
        },
{
    let i0 = input.start_offset();
    if input.column() != 1 {
        return Err(ParseError::new(i0, "Blockquote"));
    }
    let style_a = bq_a_test(src, i0);
    let style_b = bq_b_test(src, i0);
    if !style_a && !style_b {
        return Err(ParseError::new(i0, "Blockquote"));
    }
    let mut lines: Vec<String> = Vec::new();
    let mut cur = input;
    if style_a {
        while bq_a_test(src, cur.start_offset())
            invariant
                cur.wf(src@),
                src@.len() < usize::MAX,
                cur.end == input.end,
                input.end.offset == src@.len(),
                input.start.offset == i0,
                i0 <= cur.start.offset,
                bq_a_prefix(src@, i0 as int, lines@, cur.start.offset as int),
                lines@.len() == 0 ==> cur.start.offset == i0,
                lines@.len() >= 1 ==> cur.start.offset > i0,
            decreases src@.len() - cur.start.offset,
        {
            let ghost j = cur.start.offset as int;
            let i = cur.start_offset();
            let w = find_ws_end(src, i);
            let e = find_line_end(src, i);
            proof {
                lemma_ws_end_le_line_end(src@, i as int);
                lemma_next_line_gt(src@, i as int);
            }
            let content = string_sub(src, w, e);
            let nl = if e < src.len() {
                e + 1
            } else {
                e
            };
            proof {
                lemma_bq_a_snoc(src@, i0 as int, lines@, j, content);
            }
            lines.push(content);
            cur = advance_to(src, cur, nl);
        }
        proof {
            lemma_bq_a_complete(src@, i0 as int, lines@, cur.start.offset as int);
            if lines@.len() == 0 {
                assert(false);
            }
        }
    } else {
        let mut go = true;
        while go
            invariant
                cur.wf(src@),
                src@.len() < usize::MAX,
                cur.end == input.end,
                input.end.offset == src@.len(),
                input.start.offset == i0,
                i0 <= cur.start.offset,
                bq_b_prefix(src@, i0 as int, lines@, cur.start.offset as int),
                lines@.len() == 0 ==> cur.start.offset == i0,
                lines@.len() >= 1 ==> cur.start.offset > i0,
                go ==> cur.start.offset < src@.len(),
                go ==> (bq_b_line_matches(src@, cur.start.offset as int) || (blank_at(
                    src@,
                    cur.start.offset as int,
                ) && b_line_after_blanks(src@, next_line(src@, cur.start.offset as int)))),
                !go ==> !bq_b_line_matches(src@, cur.start.offset as int),
                !go ==> !(blank_at(src@, cur.start.offset as int) && cur.start.offset < src@.len()
                    && b_line_after_blanks(src@, next_line(src@, cur.start.offset as int))),
            decreases src@.len() - cur.start.offset + if go {
                1int
            } else {
                0int
            },
        {
            let ghost j = cur.start.offset as int;
            let i = cur.start_offset();
            let e = find_line_end(src, i);
            proof {
                lemma_next_line_gt(src@, i as int);
                lemma_line_end_bounds(src@, i as int);
            }
            let is_b = bq_b_test(src, i);
            let content = if is_b {
                string_sub(src, i + 2, e)
            } else {
                String::new()
            };
            let nl = if e < src.len() {
                e + 1
            } else {
                e
            };
            proof {
                lemma_bq_b_snoc(src@, i0 as int, lines@, j, content);
            }
            lines.push(content);
            cur = advance_to(src, cur, nl);
            let n = cur.start_offset();
            if n >= src.len() {
                go = false;
                proof {
                    assert(!bq_b_line_matches(src@, n as int));
                }
            } else if bq_b_test(src, n) {
                go = true;
            } else if is_blank_at(src, n) {
                let en = find_line_end(src, n);
                proof {
                    lemma_next_line_gt(src@, n as int);
                }
                let nn = if en < src.len() {
                    en + 1
                } else {
                    en
                };
                go = b_after_blanks_test(src, nn);
            } else {
                go = false;
            }
        }
        proof {
            lemma_bq_b_complete(src@, i0 as int, lines@, cur.start.offset as int);
            if lines@.len() == 0 {
                assert(false);
            }
        }
    }
    let q = BlockQuote::new(lines);
    let el = locate(capture(q, input, cur));
    Ok((cur, el))
}

/// The located blocks of the document from `i` to `j`: blank lines are
/// skipped, and each block stands at its own line with its exact region.
spec fn doc_prefix(s: Seq<char>, i: int, blocks: Seq<Locatable<Block>>, j: int) -> bool
    decreases j - i,
{
    if j <= i {
        blocks.len() == 0 && j == i
    } else if blank_at(s, i) {
        &&& i < next_line(s, i) <= j
        &&& doc_prefix(s, next_line(s, i), blocks, j)
    } else if header_matches(s, i) {
        &&& i < next_line(s, i) <= j
        &&& blocks.len() >= 1
        &&& (blocks[0].inner matches Block::Heading(h) && heading_node_matches(s, i, h))
        &&& pos_marks(blocks[0].position, s, i, next_line(s, i))
        &&& doc_prefix(s, next_line(s, i), blocks.drop_first(), j)
    } else if bq_matches(s, i) {
        &&& i < bq_end(s, i) <= j
        &&& blocks.len() >= 1
        &&& (blocks[0].inner matches Block::BlockQuote(q) && bq_lines_match(s, i, q.children@))
        &&& pos_marks(blocks[0].position, s, i, bq_end(s, i))
        &&& doc_prefix(s, bq_end(s, i), blocks.drop_first(), j)
    } else {
        &&& i < para_end(s, i) <= j
        &&& blocks.len() >= 1
        &&& (blocks[0].inner matches Block::Paragraph(p) && paragraph_node_matches(s, i, p))
        &&& pos_marks(blocks[0].position, s, i, para_end(s, i))
        &&& doc_prefix(s, para_end(s, i), blocks.drop_first(), j)
    }
}

/// Skipping the blank line at `j` extends a document run.
proof fn lemma_doc_snoc_blank(s: Seq<char>, i: int, blocks: Seq<Locatable<Block>>, j: int)
    requires
        doc_prefix(s, i, blocks, j),
        blank_at(s, j),
        j < next_line(s, j) <= s.len(),
    ensures
        doc_prefix(s, i, blocks, next_line(s, j)),
    decreases j - i,
{
    if j <= i {
        assert(doc_prefix(s, next_line(s, j), blocks, next_line(s, j)));
    } else if blank_at(s, i) {
        lemma_doc_snoc_blank(s, next_line(s, i), blocks, j);
    } else if header_matches(s, i) {
        lemma_doc_snoc_blank(s, next_line(s, i), blocks.drop_first(), j);
    } else if bq_matches(s, i) {
        lemma_doc_snoc_blank(s, bq_end(s, i), blocks.drop_first(), j);
    } else {
        lemma_doc_snoc_blank(s, para_end(s, i), blocks.drop_first(), j);
    }
}

/// The single block parsed at `j`, ending at `n`: the alternatives in
/// their priority order, each with its node shape and exact region.
spec fn doc_step(s: Seq<char>, j: int, bl: Locatable<Block>, n: int) -> bool {
    &&& !blank_at(s, j)
    &&& j < n <= s.len()
    &&& pos_marks(bl.position, s, j, n)
    &&& if header_matches(s, j) {
        &&& n == next_line(s, j)
        &&& (bl.inner matches Block::Heading(h) && heading_node_matches(s, j, h))
    } else if bq_matches(s, j) {
        &&& n == bq_end(s, j)
        &&& (bl.inner matches Block::BlockQuote(q) && bq_lines_match(s, j, q.children@))
    } else {
        &&& n == para_end(s, j)
        &&& (bl.inner matches Block::Paragraph(p) && paragraph_node_matches(s, j, p))
    }
}

/// Appending the block parsed at `j` extends a document run to where
/// that block ends.
proof fn lemma_doc_snoc_block(
    s: Seq<char>,
    i: int,
    blocks: Seq<Locatable<Block>>,
    j: int,
    bl: Locatable<Block>,
    n: int,
)
    requires
        doc_prefix(s, i, blocks, j),
        doc_step(s, j, bl, n),
    ensures
        doc_prefix(s, i, blocks.push(bl), n),
    decreases j - i,
{
    if j <= i {
        let pushed = blocks.push(bl);
        assert(pushed.drop_first() =~= Seq::<Locatable<Block>>::empty());
        assert(pushed[0] == bl);
        assert(doc_prefix(s, n, pushed.drop_first(), n));
        assert(i == j);
        assert(doc_prefix(s, i, pushed, n));
    } else if blank_at(s, i) {
        lemma_doc_snoc_block(s, next_line(s, i), blocks, j, bl, n);
    } else {
        if header_matches(s, i) {
            lemma_doc_snoc_block(s, next_line(s, i), blocks.drop_first(), j, bl, n);
        } else if bq_matches(s, i) {
            lemma_doc_snoc_block(s, bq_end(s, i), blocks.drop_first(), j, bl, n);
        } else {
            lemma_doc_snoc_block(s, para_end(s, i), blocks.drop_first(), j, bl, n);
        }
        assert(blocks.push(bl).drop_first() =~= blocks.drop_first().push(bl));
        assert(blocks.push(bl)[0] == blocks[0]);
    }
}

/// A document run that reaches the end of the input is the whole
/// document, and it holds a block exactly when one starts anywhere in
/// the input.
proof fn lemma_doc_complete(s: Seq<char>, i: int, blocks: Seq<Locatable<Block>>)
    requires
        doc_prefix(s, i, blocks, s.len() as int),
        0 <= i,
    ensures
        doc_children_match(s, i, blocks),
        (blocks.len() >= 1) == doc_has_block(s, i),
    decreases s.len() - i,
{
    if i < s.len() {
        lemma_next_line_gt(s, i);
        if blank_at(s, i) {
            lemma_doc_complete(s, next_line(s, i), blocks);
        } else if header_matches(s, i) {
            lemma_doc_complete(s, next_line(s, i), blocks.drop_first());
        } else if bq_matches(s, i) {
            lemma_doc_complete(s, bq_end(s, i), blocks.drop_first());
        } else {
            lemma_doc_complete(s, para_end(s, i), blocks.drop_first());
        }
    }
}

/// Parses the whole document from the cursor on: blank lines between
/// blocks are skipped, and at each line the alternatives are tried in
/// the fixed priority order heading, block quote, paragraph, the
/// paragraph being the near-universal fallback.  The whole input is
/// consumed; the document fails exactly when it holds no block at all,
/// that is, when every line is blank.
pub fn parse_markdown(src: &Vec<char>, input: Span) -> (r: Result<
    (Span, Vec<Locatable<Block>>),
    ParseError,
>)
    requires
        input.wf(src@),
        src@.len() < usize::MAX,
        input.end.offset == src@.len(),
        at_line_start(src@, input.start.offset as int),
    ensures
        (r is Ok) == doc_has_block(src@, input.start.offset as int),
        r matches Ok((rest, blocks)) ==> {
            &&& rest.wf(src@)
            &&& rest.end == input.end
            &&& rest.start.offset == src@.len()
            &&& doc_children_match(src@, input.start.offset as int, blocks@)
            &&& blocks@.len() >= 1
        },
        r matches Err(e) ==> e.offset == src@.len(),
{
    let i0 = input.start_offset();
    let mut blocks: Vec<Locatable<Block>> = Vec::new();
    let mut cur = input;
    while cur.start_offset() < src.len()
        invariant
            cur.wf(src@),
            src@.len() < usize::MAX,
            cur.end == input.end,
            input.end.offset == src@.len(),
            input.start.offset == i0,
            i0 <= cur.start.offset <= src@.len(),
            at_line_start(src@, cur.start.offset as int),
            doc_prefix(src@, i0 as int, blocks@, cur.start.offset as int),
        decreases src@.len() - cur.start.offset,
    {
        let ghost j = cur.start.offset as int;
        let i = cur.start_offset();
        proof {
            lemma_next_line_gt(src@, i as int);
        }
        if is_blank_at(src, i) {
            let e = find_line_end(src, i);
            let nl = if e < src.len() {
                e + 1
            } else {
                e
            };
            proof {
                lemma_doc_snoc_blank(src@, i0 as int, blocks@, j);
                lemma_next_line_starts(src@, j);
            }
            cur = advance_to(src, cur, nl);
        } else {
            proof {
                assert(cur.start.column == 1);
            }
            match header(src, cur) {
                Ok((next, h)) => {
                    let pos = h.position();
                    let bl = Locatable::new(Block::Heading(h.into_inner()), pos);
                    proof {
                        lemma_doc_snoc_block(src@, i0 as int, blocks@, j, bl, next.start.offset as int);
                        lemma_next_line_starts(src@, j);
                    }
                    blocks.push(bl);
                    cur = next;
                },
                Err(_) => {
                    match parse_blockquote(src, cur) {
                        Ok((next, q)) => {
                            let pos = q.position();
                            let bl = Locatable::new(Block::BlockQuote(q.into_inner()), pos);
                            proof {
                                assert(!header_matches(src@, j));
                                lemma_doc_snoc_block(
                                    src@,
                                    i0 as int,
                                    blocks@,
                                    j,
                                    bl,
                                    next.start.offset as int,
                                );
                                if bq_a_line_matches(src@, j) {
                                    lemma_bq_a_end_starts(src@, j);
                                } else {
                                    lemma_bq_b_end_starts(src@, j);
                                }
                            }
                            blocks.push(bl);
                            cur = next;
                        },
                        Err(_) => {
                            match parse_paragraph(src, cur) {
                                Ok((next, p)) => {
                                    let pos = p.position();
                                    let bl = Locatable::new(
                                        Block::Paragraph(p.into_inner()),
                                        pos,
                                    );
                                    proof {
                                        assert(!header_matches(src@, j));
                                        assert(!bq_matches(src@, j));
                                        lemma_doc_snoc_block(
                                            src@,
                                            i0 as int,
                                            blocks@,
                                            j,
                                            bl,
                                            next.start.offset as int,
                                        );
                                        lemma_para_end_starts(src@, j);
                                    }
                                    blocks.push(bl);
                                    cur = next;
                                },
                                Err(err) => {
                                    proof {
                                        assert(para_line_ok(src@, j));
                                        assert(false);
                                    }
                                    return Err(err);
                                },
                            }
                        },
                    }
                },
            }
        }
    }
    proof {
        lemma_doc_complete(src@, i0 as int, blocks@);
    }
    if blocks.len() == 0 {
        return Err(ParseError::new(cur.start_offset(), "Document"));
    }
    Ok((cur, blocks))
}

/// Parses a whole document from source text into a located [`Root`].
/// The root's position covers the entire input, its children are the
/// document's blocks in order, and parsing fails exactly when no line of
/// the input holds a block, in particular on empty input.
pub fn parse(markup: &str) -> (r: Result<Locatable<Root>, ParseError>)
    requires
        markup@.len() < usize::MAX,
    ensures
        (r is Ok) == doc_has_block(markup@, 0),
        r matches Ok(root) ==> {
            &&& doc_children_match(markup@, 0, root.inner.children@)
            &&& root.inner.children@.len() >= 1
            &&& pos_marks(root.position, markup@, 0, markup@.len() as int)
        },
        r matches Err(e) ==> e.offset == markup@.len(),
{
    let src = chars_of(markup);
    let span = full_span(&src);
    match parse_markdown(&src, span) {
        Ok((rest, blocks)) => {
            let root = Root::new(blocks);
            let el = locate(capture(root, span, rest));
            Ok(el)
        },
        Err(e) => Err(e),
    }
}

} // verus!
