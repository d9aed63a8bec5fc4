//! The grammar, stated mathematically over the source character sequence.
//!
//! Every parsing function of [`crate::parser`] is specified against the
//! definitions in this module: where a production matches, what text it
//! consumes, and what tree it builds.  Blocks are tried in the fixed
//! priority order heading, block quote, paragraph; the paragraph is last
//! because its content model is the least restrictive.

use vstd::prelude::*;

use crate::ast::{Heading, Inline, Paragraph};
use crate::location::{Locatable, Point, Position};
use crate::span::{col_at, line_at};

verus! {

/// Horizontal whitespace: space or tab, never the line terminator.
pub open spec fn is_ws(c: char) -> bool {
    c == ' ' || c == '\t'
}

/// The first offset at or after `i` holding a line terminator, or the end
/// of the input if the last line is unterminated.
pub open spec fn line_end(s: Seq<char>, i: int) -> int
    decreases s.len() - i,
{
    if i < 0 {
        0
    } else if i >= s.len() {
        s.len() as int
    } else if s[i] == '\n' {
        i
    } else {
        line_end(s, i + 1)
    }
}

/// The offset just past the current line: past its terminator, or the end
/// of the input if the last line is unterminated.
pub open spec fn next_line(s: Seq<char>, i: int) -> int {
    if line_end(s, i) < s.len() {
        line_end(s, i) + 1
    } else {
        s.len() as int
    }
}

/// The first offset at or after `i` holding a character that is not
/// horizontal whitespace, or the end of the input.
pub open spec fn ws_end(s: Seq<char>, i: int) -> int
    decreases s.len() - i,
{
    if i < 0 {
        0
    } else if i >= s.len() {
        s.len() as int
    } else if is_ws(s[i]) {
        ws_end(s, i + 1)
    } else {
        i
    }
}

/// The end of the region `[i, j)` once trailing horizontal whitespace is
/// dropped.
pub open spec fn trim_back(s: Seq<char>, i: int, j: int) -> int
    decreases j - i,
{
    if j <= i {
        i
    } else if is_ws(s[j - 1]) {
        trim_back(s, i, j - 1)
    } else {
        j
    }
}

/// The first offset in `[i, e)` holding the inline delimiter character,
/// or `e` if there is none.
pub open spec fn star_at(s: Seq<char>, i: int, e: int) -> int
    decreases e - i,
{
    if i < 0 || i >= e {
        e
    } else if s[i] == '*' {
        i
    } else {
        star_at(s, i + 1, e)
    }
}

/// A line whose remainder (up to its terminator or the end of the input)
/// is empty or all horizontal whitespace.
pub open spec fn blank_at(s: Seq<char>, i: int) -> bool {
    ws_end(s, i) == line_end(s, i)
}

/// A region of one line: within bounds and free of line terminators.
pub open spec fn region_ok(s: Seq<char>, i: int, e: int) -> bool {
    0 <= i && e <= s.len() && forall|j: int| i <= j < e ==> s[j] != '\n'
}

// ----------------------------------------------------------------------
// The inline grammar.  At each position the alternatives are tried in
// order: emphasis, strong emphasis, then literal text as the catch-all.
// ----------------------------------------------------------------------
/// Emphasis at `i` in the region `[i, e)`: an opening delimiter, a
/// non-empty interior free of delimiters, and a closing delimiter.  The
/// interior must not be empty: a delimiter immediately after the opening
/// delimiter makes this alternative fail outright, which is what defers a
/// double-delimiter span to the strong-emphasis alternative.
pub open spec fn emph_matches(s: Seq<char>, i: int, e: int) -> bool {
    &&& 0 <= i < e
    &&& s[i] == '*'
    &&& star_at(s, i + 1, e) < e
    &&& star_at(s, i + 1, e) > i + 1
}

/// The offset of the closing delimiter of an emphasis span at `i`.
pub open spec fn emph_close(s: Seq<char>, i: int, e: int) -> int {
    star_at(s, i + 1, e)
}

/// Strong emphasis at `i`: a double opening delimiter, a non-empty
/// interior free of delimiters, and a double closing delimiter.
pub open spec fn strong_matches(s: Seq<char>, i: int, e: int) -> bool {
    &&& 0 <= i
    &&& i + 1 < e
    &&& s[i] == '*'
    &&& s[i + 1] == '*'
    &&& star_at(s, i + 2, e) > i + 2
    &&& star_at(s, i + 2, e) + 1 < e
    &&& s[star_at(s, i + 2, e) + 1] == '*'
}

/// The offset of the first closing delimiter of a strong span at `i`.
pub open spec fn strong_close(s: Seq<char>, i: int, e: int) -> int {
    star_at(s, i + 2, e)
}

/// The end of a literal text run starting at `i`: text stops at the end
/// of the region, at a line terminator, and at any delimiter that begins
/// a valid emphasis or strong span; a delimiter that begins neither is
/// taken literally.
pub open spec fn text_end(s: Seq<char>, i: int, e: int) -> int
    decreases e - i,
{
    if i < 0 || i >= e {
        i
    } else if s[i] == '\n' {
        i
    } else if s[i] == '*' && (emph_matches(s, i, e) || strong_matches(s, i, e)) {
        i
    } else {
        text_end(s, i + 1, e)
    }
}

/// Where the single inline element at `i` ends, or `i` itself if no
/// alternative matches.
pub open spec fn inline_next(s: Seq<char>, i: int, e: int) -> int {
    if emph_matches(s, i, e) {
        emph_close(s, i, e) + 1
    } else if strong_matches(s, i, e) {
        strong_close(s, i, e) + 2
    } else {
        text_end(s, i, e)
    }
}

/// A text node holding exactly the characters `v`.
pub open spec fn is_text_node(x: Inline, v: Seq<char>) -> bool {
    &&& x matches Inline::Text(t)
    &&& t.value@ == v
}

/// An emphasis node holding one text child with the characters `v`.
pub open spec fn is_emph_node(x: Inline, v: Seq<char>) -> bool {
    &&& x matches Inline::Emphasis(em)
    &&& em.children@.len() == 1
    &&& is_text_node(em.children@[0], v)
}

/// A strong node holding one text child with the characters `v`.
pub open spec fn is_strong_node(x: Inline, v: Seq<char>) -> bool {
    &&& x matches Inline::Strong(st)
    &&& st.children@.len() == 1
    &&& is_text_node(st.children@[0], v)
}

/// The inline element parsed at `i` in the region `[i, e)`.
pub open spec fn inline_at_matches(s: Seq<char>, i: int, e: int, x: Inline) -> bool {
    if emph_matches(s, i, e) {
        is_emph_node(x, s.subrange(i + 1, emph_close(s, i, e)))
    } else if strong_matches(s, i, e) {
        is_strong_node(x, s.subrange(i + 2, strong_close(s, i, e)))
    } else {
        is_text_node(x, s.subrange(i, text_end(s, i, e)))
    }
}

/// Whether `p` is the exact source coordinate of offset `i`.
pub open spec fn point_marks(p: Point, s: Seq<char>, i: int) -> bool {
    &&& p.offset == i
    &&& p.line == line_at(s, i)
    &&& p.column == col_at(s, i)
}

/// Whether `p` is the exact source region `[i, j)`, without indent.
pub open spec fn pos_marks(p: Position, s: Seq<char>, i: int, j: int) -> bool {
    &&& point_marks(p.start, s, i)
    &&& point_marks(p.end, s, j)
    &&& p.indent is None
}

/// The number of inline elements the region `[i, e)` parses to.
pub open spec fn inline_count(s: Seq<char>, i: int, e: int) -> nat
    decreases e - i,
{
    if i >= e || inline_next(s, i, e) <= i || inline_next(s, i, e) > e {
        0
    } else {
        1 + inline_count(s, inline_next(s, i, e), e)
    }
}

/// The located inline elements parsed from the whole region `[i, e)`:
/// element after element, each carrying the exact region it was parsed
/// from, until no alternative matches.
pub open spec fn located_inlines_match(
    s: Seq<char>,
    i: int,
    e: int,
    elems: Seq<Locatable<Inline>>,
) -> bool
    decreases e - i,
{
    if i >= e || inline_next(s, i, e) <= i || inline_next(s, i, e) > e {
        elems.len() == 0
    } else {
        &&& elems.len() >= 1
        &&& inline_at_matches(s, i, e, elems[0].inner)
        &&& pos_marks(elems[0].position, s, i, inline_next(s, i, e))
        &&& located_inlines_match(s, inline_next(s, i, e), e, elems.drop_first())
    }
}

// ----------------------------------------------------------------------
// The block grammar.
// ----------------------------------------------------------------------
/// The first offset in `[i, e)` not holding the heading marker, or `e`.
pub open spec fn hash_end(s: Seq<char>, i: int, e: int) -> int
    decreases e - i,
{
    if i < 0 || i >= e {
        e
    } else if s[i] == '#' {
        hash_end(s, i + 1, e)
    } else {
        i
    }
}

/// The depth of the heading marker run at `i`.
pub open spec fn header_depth(s: Seq<char>, i: int) -> int {
    hash_end(s, i, line_end(s, i)) - i
}

/// Where the heading's inline content starts: past the marker run, the
/// mandatory space, and any further leading whitespace.
pub open spec fn header_content_start(s: Seq<char>, i: int) -> int {
    ws_end(s, i + header_depth(s, i) + 1)
}

/// Where the heading's inline content ends: at the end of the line, with
/// trailing whitespace dropped.
pub open spec fn header_content_end(s: Seq<char>, i: int) -> int {
    trim_back(s, header_content_start(s, i), line_end(s, i))
}

/// A heading line at `i`: one to six marker characters, the mandatory
/// space, and non-empty content on the rest of the line.
pub open spec fn header_matches(s: Seq<char>, i: int) -> bool {
    let e = line_end(s, i);
    let h = header_depth(s, i);
    &&& 1 <= h <= 6
    &&& i + h < e
    &&& s[i + h] == ' '
    &&& header_content_start(s, i) < header_content_end(s, i)
}

/// The heading node parsed from the heading line at `i`.
pub open spec fn heading_node_matches(s: Seq<char>, i: int, h: Heading) -> bool {
    &&& h.depth == header_depth(s, i)
    &&& h.setext == false
    &&& located_inlines_match(
        s,
        header_content_start(s, i),
        header_content_end(s, i),
        h.children.elements@,
    )
}

/// An indented block-quote line: at least four spaces or one tab of
/// indentation, and a rest of line that is not all whitespace.
pub open spec fn bq_a_line_matches(s: Seq<char>, i: int) -> bool {
    &&& 0 <= i < s.len()
    &&& ((i + 4 <= s.len() && s[i] == ' ' && s[i + 1] == ' ' && s[i + 2] == ' ' && s[i + 3]
        == ' ') || s[i] == '\t')
    &&& ws_end(s, i) < line_end(s, i)
}

/// The raw text an indented block-quote line contributes: the rest of the
/// line after all leading whitespace.
pub open spec fn bq_a_content(s: Seq<char>, i: int) -> Seq<char> {
    s.subrange(ws_end(s, i), line_end(s, i))
}

/// A marker-prefixed block-quote line: the quote marker and a space, then
/// the rest of the line.
pub open spec fn bq_b_line_matches(s: Seq<char>, i: int) -> bool {
    &&& 0 <= i
    &&& i + 2 <= s.len()
    &&& s[i] == '>'
    &&& s[i + 1] == ' '
}

/// The raw text a marker-prefixed block-quote line contributes: the rest
/// of the line after the marker and its space.
pub open spec fn bq_b_content(s: Seq<char>, i: int) -> Seq<char> {
    s.subrange(i + 2, line_end(s, i))
}

/// The raw lines of a maximal run of indented block-quote lines starting
/// at `i`.
pub open spec fn bq_a_lines_match(s: Seq<char>, i: int, lines: Seq<String>) -> bool
    decreases s.len() - i,
{
    if bq_a_line_matches(s, i) && next_line(s, i) > i {
        &&& lines.len() >= 1
        &&& lines[0]@ == bq_a_content(s, i)
        &&& bq_a_lines_match(s, next_line(s, i), lines.drop_first())
    } else {
        lines.len() == 0
    }
}

/// Where a maximal run of indented block-quote lines starting at `i`
/// ends.
pub open spec fn bq_a_end(s: Seq<char>, i: int) -> int
    decreases s.len() - i,
{
    if bq_a_line_matches(s, i) && next_line(s, i) > i {
        bq_a_end(s, next_line(s, i))
    } else {
        i
    }
}

/// Whether a marker-prefixed quote line follows at `i` after zero or more
/// blank lines.
pub open spec fn b_line_after_blanks(s: Seq<char>, i: int) -> bool
    decreases s.len() - i,
{
    if bq_b_line_matches(s, i) {
        true
    } else if blank_at(s, i) && i < s.len() && next_line(s, i) > i {
        b_line_after_blanks(s, next_line(s, i))
    } else {
        false
    }
}

/// The raw lines of a marker-prefixed quote starting at `i`.  Blank lines
/// are permitted between runs of quote lines and contribute an empty
/// line each; blank lines after the last quote line are not consumed.
pub open spec fn bq_b_lines_match(s: Seq<char>, i: int, lines: Seq<String>) -> bool
    decreases s.len() - i,
{
    if bq_b_line_matches(s, i) && next_line(s, i) > i {
        &&& lines.len() >= 1
        &&& lines[0]@ == bq_b_content(s, i)
        &&& bq_b_lines_match(s, next_line(s, i), lines.drop_first())
    } else if blank_at(s, i) && i < s.len() && next_line(s, i) > i && b_line_after_blanks(
        s,
        next_line(s, i),
    ) {
        &&& lines.len() >= 1
        &&& lines[0]@ == Seq::<char>::empty()
        &&& bq_b_lines_match(s, next_line(s, i), lines.drop_first())
    } else {
        lines.len() == 0
    }
}

/// Where a marker-prefixed quote starting at `i` ends.
pub open spec fn bq_b_end(s: Seq<char>, i: int) -> int
    decreases s.len() - i,
{
    if bq_b_line_matches(s, i) && next_line(s, i) > i {
        bq_b_end(s, next_line(s, i))
    } else if blank_at(s, i) && i < s.len() && next_line(s, i) > i && b_line_after_blanks(
        s,
        next_line(s, i),
    ) {
        bq_b_end(s, next_line(s, i))
    } else {
        i
    }
}

/// A block quote starts here: with an indented line or with a
/// marker-prefixed line.  The two styles are mutually exclusive and the
/// indented style is tried first.
pub open spec fn bq_matches(s: Seq<char>, i: int) -> bool {
    bq_a_line_matches(s, i) || bq_b_line_matches(s, i)
}

/// The raw lines of the block quote starting at `i`, whichever style
/// applies.
pub open spec fn bq_lines_match(s: Seq<char>, i: int, lines: Seq<String>) -> bool {
    if bq_a_line_matches(s, i) {
        bq_a_lines_match(s, i, lines)
    } else {
        bq_b_lines_match(s, i, lines)
    }
}

/// Where the block quote starting at `i` ends.
pub open spec fn bq_end(s: Seq<char>, i: int) -> int {
    if bq_a_line_matches(s, i) {
        bq_a_end(s, i)
    } else {
        bq_b_end(s, i)
    }
}

/// The paragraph continuation guard: the line at `i` continues a
/// paragraph unless the input is exhausted, the line is blank, or the
/// line would itself start a heading.
pub open spec fn para_line_ok(s: Seq<char>, i: int) -> bool {
    &&& i < s.len()
    &&& !blank_at(s, i)
    &&& !header_matches(s, i)
}

/// The located inline elements of a paragraph starting at `i`: line after
/// line while the continuation guard passes, each line contributing the
/// inline elements of its content after leading whitespace.
pub open spec fn para_children_match(s: Seq<char>, i: int, elems: Seq<Locatable<Inline>>) -> bool
    decreases s.len() - i,
{
    if para_line_ok(s, i) && next_line(s, i) > i {
        let w = ws_end(s, i);
        let e = line_end(s, i);
        let c = inline_count(s, w, e) as int;
        &&& elems.len() >= c
        &&& located_inlines_match(s, w, e, elems.take(c))
        &&& para_children_match(s, next_line(s, i), elems.skip(c))
    } else {
        elems.len() == 0
    }
}

/// Where the paragraph starting at `i` ends: just past its last line.
pub open spec fn para_end(s: Seq<char>, i: int) -> int
    decreases s.len() - i,
{
    if para_line_ok(s, i) && next_line(s, i) > i {
        para_end(s, next_line(s, i))
    } else {
        i
    }
}

/// The paragraph node parsed at `i`.
pub open spec fn paragraph_node_matches(s: Seq<char>, i: int, p: Paragraph) -> bool {
    para_children_match(s, i, p.children.elements@)
}

/// Whether any block starts at or after `i`: some line at or after `i`,
/// with only blank lines before it, is not blank.
pub open spec fn doc_has_block(s: Seq<char>, i: int) -> bool
    decreases s.len() - i,
{
    if i >= s.len() {
        false
    } else if blank_at(s, i) && next_line(s, i) > i {
        doc_has_block(s, next_line(s, i))
    } else {
        true
    }
}

/// The located blocks of the document from `i` on: blank lines between
/// blocks are skipped, and at each line the alternatives are tried in the
/// fixed priority order heading, block quote, paragraph.
pub open spec fn doc_children_match(
    s: Seq<char>,
    i: int,
    blocks: Seq<Locatable<crate::ast::Block>>,
) -> bool
    decreases s.len() - i,
{
    if i >= s.len() {
        blocks.len() == 0
    } else if blank_at(s, i) && next_line(s, i) > i {
        doc_children_match(s, next_line(s, i), blocks)
    } else if header_matches(s, i) && next_line(s, i) > i {
        &&& blocks.len() >= 1
        &&& (blocks[0].inner matches crate::ast::Block::Heading(h) && heading_node_matches(s, i, h))
        &&& pos_marks(blocks[0].position, s, i, next_line(s, i))
        &&& doc_children_match(s, next_line(s, i), blocks.drop_first())
    } else if bq_matches(s, i) && i < bq_end(s, i) <= s.len() {
        &&& blocks.len() >= 1
        &&& (blocks[0].inner matches crate::ast::Block::BlockQuote(q) && bq_lines_match(
            s,
            i,
            q.children@,
        ))
        &&& pos_marks(blocks[0].position, s, i, bq_end(s, i))
        &&& doc_children_match(s, bq_end(s, i), blocks.drop_first())
    } else if para_end(s, i) > i && para_end(s, i) <= s.len() {
        &&& blocks.len() >= 1
        &&& (blocks[0].inner matches crate::ast::Block::Paragraph(p) && paragraph_node_matches(
            s,
            i,
            p,
        ))
        &&& pos_marks(blocks[0].position, s, i, para_end(s, i))
        &&& doc_children_match(s, para_end(s, i), blocks.drop_first())
    } else {
        blocks.len() == 0
    }
}

// ----------------------------------------------------------------------
// Characterizations of the scanning functions, used to prove the
// executable scanners against them.
// ----------------------------------------------------------------------
/// Bounds of `line_end`: it lies between `i` and the end of the input,
/// everything before it on the line is not a terminator, and it rests on
/// a terminator unless the input ends first.
pub proof fn lemma_line_end_bounds(s: Seq<char>, i: int)
    requires
        0 <= i <= s.len(),
    ensures
        i <= line_end(s, i) <= s.len(),
        forall|j: int| i <= j < line_end(s, i) ==> s[j] != '\n',
        line_end(s, i) < s.len() ==> s[line_end(s, i)] == '\n',
    decreases s.len() - i,
{
    if i < s.len() && s[i] != '\n' {
        lemma_line_end_bounds(s, i + 1);
    }
}

/// The line of `i` ends where the first terminator at or after `i`
/// stands: before `j` there is none, and `j` holds one or is the end of
/// the input.
pub proof fn lemma_line_end_is(s: Seq<char>, i: int, j: int)
    requires
        0 <= i <= j <= s.len(),
        forall|k: int| i <= k < j ==> s[k] != '\n',
        j == s.len() || s[j] == '\n',
    ensures
        line_end(s, i) == j,
    decreases j - i,
{
    if i < j {
        lemma_line_end_is(s, i + 1, j);
    }
}

/// Bounds of `ws_end`: it lies between `i` and the end of the input,
/// everything before it is horizontal whitespace, and it rests on a
/// non-whitespace character unless the input ends first.
pub proof fn lemma_ws_end_bounds(s: Seq<char>, i: int)
    requires
        0 <= i <= s.len(),
    ensures
        i <= ws_end(s, i) <= s.len(),
        forall|j: int| i <= j < ws_end(s, i) ==> is_ws(s[j]),
        ws_end(s, i) < s.len() ==> !is_ws(s[ws_end(s, i)]),
    decreases s.len() - i,
{
    if i < s.len() && is_ws(s[i]) {
        lemma_ws_end_bounds(s, i + 1);
    }
}

/// The whitespace run of `i` ends where the first non-whitespace
/// character at or after `i` stands.
pub proof fn lemma_ws_end_is(s: Seq<char>, i: int, j: int)
    requires
        0 <= i <= j <= s.len(),
        forall|k: int| i <= k < j ==> is_ws(s[k]),
        j == s.len() || !is_ws(s[j]),
    ensures
        ws_end(s, i) == j,
    decreases j - i,
{
    if i < j {
        lemma_ws_end_is(s, i + 1, j);
    }
}

/// Horizontal whitespace never holds a line terminator, so the
/// whitespace run ends no later than the line does.
pub proof fn lemma_ws_end_le_line_end(s: Seq<char>, i: int)
    requires
        0 <= i <= s.len(),
    ensures
        ws_end(s, i) <= line_end(s, i),
    decreases s.len() - i,
{
    lemma_line_end_bounds(s, i);
    if i < s.len() && is_ws(s[i]) {
        lemma_ws_end_le_line_end(s, i + 1);
    }
}

/// Bounds of `trim_back`: the trimmed end lies in `[i, j]`, everything
/// dropped was whitespace, and the character before the trimmed end is
/// not whitespace unless the region is exhausted.
pub proof fn lemma_trim_back_bounds(s: Seq<char>, i: int, j: int)
    requires
        0 <= i <= j <= s.len(),
    ensures
        i <= trim_back(s, i, j) <= j,
        forall|k: int| trim_back(s, i, j) <= k < j ==> is_ws(s[k]),
        trim_back(s, i, j) > i ==> !is_ws(s[trim_back(s, i, j) - 1]),
    decreases j - i,
{
    if j > i && is_ws(s[j - 1]) {
        lemma_trim_back_bounds(s, i, j - 1);
    }
}

/// Bounds of `star_at`: it lies between `i` and `e`, everything before it
/// is not a delimiter, and it rests on a delimiter unless the region ends
/// first.
pub proof fn lemma_star_at_bounds(s: Seq<char>, i: int, e: int)
    requires
        0 <= i,
        e <= s.len(),
    ensures
        i <= star_at(s, i, e) || e <= i,
        star_at(s, i, e) <= e || e <= i,
        forall|j: int| i <= j < star_at(s, i, e) && j < e ==> s[j] != '*',
        i <= star_at(s, i, e) < e ==> s[star_at(s, i, e)] == '*',
    decreases e - i,
{
    if i < e && s[i] != '*' {
        lemma_star_at_bounds(s, i + 1, e);
    }
}

/// The delimiter run of `i` is found exactly where the first delimiter at
/// or after `i` stands.
pub proof fn lemma_star_at_is(s: Seq<char>, i: int, j: int, e: int)
    requires
        0 <= i <= j <= e <= s.len(),
        forall|k: int| i <= k < j ==> s[k] != '*',
        j == e || s[j] == '*',
    ensures
        star_at(s, i, e) == j,
    decreases j - i,
{
    if i < j {
        lemma_star_at_is(s, i + 1, j, e);
    }
}

/// Bounds of `hash_end`.
pub proof fn lemma_hash_end_bounds(s: Seq<char>, i: int, e: int)
    requires
        0 <= i <= e <= s.len(),
    ensures
        i <= hash_end(s, i, e) <= e,
        forall|j: int| i <= j < hash_end(s, i, e) ==> s[j] == '#',
        hash_end(s, i, e) < e ==> s[hash_end(s, i, e)] != '#',
    decreases e - i,
{
    if i < e && s[i] == '#' {
        lemma_hash_end_bounds(s, i + 1, e);
    }
}

/// The marker run of `i` ends exactly where the first non-marker at or
/// after `i` stands.
pub proof fn lemma_hash_end_is(s: Seq<char>, i: int, j: int, e: int)
    requires
        0 <= i <= j <= e <= s.len(),
        forall|k: int| i <= k < j ==> s[k] == '#',
        j == e || s[j] != '#',
    ensures
        hash_end(s, i, e) == j,
    decreases j - i,
{
    if i < j {
        lemma_hash_end_is(s, i + 1, j, e);
    }
}

/// Bounds of `text_end`.
pub proof fn lemma_text_end_bounds(s: Seq<char>, i: int, e: int)
    requires
        0 <= i <= e <= s.len(),
    ensures
        i <= text_end(s, i, e) <= e,
    decreases e - i,
{
    if i < e && s[i] != '\n' && !(s[i] == '*' && (emph_matches(s, i, e) || strong_matches(
        s,
        i,
        e,
    ))) {
        lemma_text_end_bounds(s, i + 1, e);
    }
}

/// In a terminator-free region, each inline element consumes at least one
/// character and stops within the region.
pub proof fn lemma_inline_next_bounds(s: Seq<char>, i: int, e: int)
    requires
        region_ok(s, i, e),
        i < e,
    ensures
        i < inline_next(s, i, e) <= e,
{
    if emph_matches(s, i, e) {
        lemma_star_at_bounds(s, i + 1, e);
    } else if strong_matches(s, i, e) {
        lemma_star_at_bounds(s, i + 2, e);
    } else {
        lemma_text_end_bounds(s, i + 1, e);
        assert(s[i] != '\n');
        assert(text_end(s, i, e) == text_end(s, i + 1, e));
    }
}

/// The line does not end sooner when scanning starts anywhere inside it.
pub proof fn lemma_line_end_stable(s: Seq<char>, i: int, j: int)
    requires
        0 <= i <= s.len(),
        i <= j <= line_end(s, i),
    ensures
        line_end(s, j) == line_end(s, i),
{
    lemma_line_end_bounds(s, i);
    lemma_line_end_is(s, j, line_end(s, i));
}

/// A sequence of elements that matches the whole run of a region has
/// exactly as many elements as the region parses to.
pub proof fn lemma_located_count(s: Seq<char>, i: int, e: int, elems: Seq<Locatable<Inline>>)
    requires
        located_inlines_match(s, i, e, elems),
    ensures
        elems.len() == inline_count(s, i, e),
    decreases e - i,
{
    if !(i >= e || inline_next(s, i, e) <= i || inline_next(s, i, e) > e) {
        lemma_located_count(s, inline_next(s, i, e), e, elems.drop_first());
    }
}

/// Past any real position the next line starts strictly later and no
/// later than the end of the input.
pub proof fn lemma_next_line_gt(s: Seq<char>, i: int)
    requires
        0 <= i < s.len(),
    ensures
        i < next_line(s, i) <= s.len(),
{
    lemma_line_end_bounds(s, i);
}

/// Across a run of horizontal whitespace the line number is unchanged
/// and the column advances by exactly the run's width.
pub proof fn lemma_coords_over_ws(s: Seq<char>, a: int, b: int)
    requires
        0 <= a <= b <= s.len(),
        forall|k: int| a <= k < b ==> is_ws(s[k]),
    ensures
        line_at(s, b) == line_at(s, a),
        col_at(s, b) == col_at(s, a) + (b - a),
    decreases b - a,
{
    if b > a {
        lemma_coords_over_ws(s, a, b - 1);
        assert(s[b - 1] != '\n');
    }
}

/// A position where a line begins: the start of the input, the end of
/// the input, or just past a line terminator.
pub open spec fn at_line_start(s: Seq<char>, j: int) -> bool {
    j == 0 || j == s.len() || (0 < j <= s.len() && s[j - 1] == '\n')
}

/// The position past any line is the start of a line.
pub proof fn lemma_next_line_starts(s: Seq<char>, i: int)
    requires
        0 <= i <= s.len(),
    ensures
        at_line_start(s, next_line(s, i)),
{
    lemma_line_end_bounds(s, i);
}

/// The end of a paragraph is the start of a line.
pub proof fn lemma_para_end_starts(s: Seq<char>, i: int)
    requires
        0 <= i <= s.len(),
        at_line_start(s, i),
    ensures
        at_line_start(s, para_end(s, i)),
        i <= para_end(s, i) <= s.len(),
    decreases s.len() - i,
{
    if para_line_ok(s, i) && next_line(s, i) > i {
        lemma_next_line_starts(s, i);
        lemma_line_end_bounds(s, i);
        lemma_para_end_starts(s, next_line(s, i));
    }
}

/// The end of a run of indented quote lines is the start of a line.
pub proof fn lemma_bq_a_end_starts(s: Seq<char>, i: int)
    requires
        0 <= i <= s.len(),
        at_line_start(s, i),
    ensures
        at_line_start(s, bq_a_end(s, i)),
        i <= bq_a_end(s, i) <= s.len(),
    decreases s.len() - i,
{
    if bq_a_line_matches(s, i) && next_line(s, i) > i {
        lemma_next_line_starts(s, i);
        lemma_line_end_bounds(s, i);
        lemma_bq_a_end_starts(s, next_line(s, i));
    }
}

/// The end of a marker-prefixed quote is the start of a line.
pub proof fn lemma_bq_b_end_starts(s: Seq<char>, i: int)
    requires
        0 <= i <= s.len(),
        at_line_start(s, i),
    ensures
        at_line_start(s, bq_b_end(s, i)),
        i <= bq_b_end(s, i) <= s.len(),
    decreases s.len() - i,
{
    if bq_b_line_matches(s, i) && next_line(s, i) > i {
        lemma_next_line_starts(s, i);
        lemma_line_end_bounds(s, i);
        lemma_bq_b_end_starts(s, next_line(s, i));
    } else if blank_at(s, i) && i < s.len() && next_line(s, i) > i && b_line_after_blanks(
        s,
        next_line(s, i),
    ) {
        lemma_next_line_starts(s, i);
        lemma_line_end_bounds(s, i);
        lemma_bq_b_end_starts(s, next_line(s, i));
    }
}

} // verus!
