//! The syntax tree: a document is a [`Root`] holding a sequence of located
//! [`Block`]s, and block content is built from located [`Inline`] elements.

use vstd::prelude::*;

use crate::location::{Locatable, Point, Position};

verus! {

broadcast use vstd::std_specs::vec::group_vec_axioms;

/// The closed set of node kinds of the tree.
pub enum Nodes {
    Root(Root),
    Paragraph(Paragraph),
    BlockQuote(BlockQuote),
    Heading(Heading),
    ThematicBreak,
    Text(Text),
    Emphasis(Emphasis),
    Strong(Strong),
}

/// A generic node: a `type` discriminator together with an optional value.
#[derive(Clone, Debug)]
pub struct Node {
    pub node_type: String,
    pub value: Option<String>,
}

/// The document root: the top of the tree, never a child of anything.
#[derive(Debug)]
pub struct Root {
    pub children: Vec<Locatable<Block>>,
}

impl Root {
    pub fn new(children: Vec<Locatable<Block>>) -> (r: Root)
        ensures
            r.children == children,
    {
        Root { children }
    }
}

/// A block-level node.
#[derive(Debug, Eq, PartialEq)]
pub enum Block {
    Heading(Heading),
    Paragraph(Paragraph),
    Code(Code),
    BlockQuote(BlockQuote),
}

/// Whether `depth` is a legal heading depth: 1 through 6 for an ATX
/// heading, and only 1 or 2 for a setext heading.
pub open spec fn heading_depth_ok(depth: int, setext: bool) -> bool {
    if setext {
        depth == 1 || depth == 2
    } else {
        1 <= depth <= 6
    }
}

/// A section heading.
#[derive(Debug, Eq, PartialEq, Hash)]
pub struct Heading {
    /// The depth of the heading: 1 to 6 for ATX headings, 1 or 2 for
    /// setext headings.
    pub depth: usize,
    pub children: InlineElementContainer,
    /// Whether the heading is setext (if not, ATX).
    pub setext: bool,
}

impl Heading {
    /// The smallest legal heading depth.
    pub const MIN_LEVEL: usize = 1;

    /// The largest legal heading depth of an ATX heading.
    pub const MAX_LEVEL: usize = 6;

    /// Whether `depth` may be given to [`Heading::new`] together with
    /// `setext`.  Construction of a heading with any other depth is
    /// rejected rather than clamped.
    pub fn is_valid_depth(depth: usize, setext: bool) -> (r: bool)
        ensures
            r == heading_depth_ok(depth as int, setext),
    {
        if setext {
            depth == 1 || depth == 2
        } else {
            depth >= Heading::MIN_LEVEL && depth <= Heading::MAX_LEVEL
        }
    }

    pub fn new(depth: usize, setext: bool) -> (r: Heading)
        requires
            heading_depth_ok(depth as int, setext),
        ensures
            r.depth == depth,
            r.setext == setext,
            r.children.elements@.len() == 0,
    {
        Heading { depth, setext, children: InlineElementContainer::empty() }
    }

    pub fn new_with_children(depth: usize, setext: bool, children: InlineElementContainer) -> (r:
        Heading)
        requires
            heading_depth_ok(depth as int, setext),
        ensures
            r == (Heading { depth, setext, children }),
    {
        Heading { depth, setext, children }
    }
}

/// A run of inline content.
#[derive(Debug, Eq, PartialEq, Hash)]
pub struct Paragraph {
    pub children: InlineElementContainer,
}

impl Paragraph {
    pub fn new(children: InlineElementContainer) -> (r: Paragraph)
        ensures
            r.children == children,
    {
        Paragraph { children }
    }
}

/// A quoted block.  The quoted lines are kept as raw, un-reparsed text:
/// markup inside a quote is a stated limitation of the grammar.
#[derive(Clone, Debug, Eq, PartialEq, Hash)]
pub struct BlockQuote {
    pub children: Vec<String>,
}

impl BlockQuote {
    pub fn new(children: Vec<String>) -> (r: BlockQuote)
        ensures
            r.children == children,
    {
        BlockQuote { children }
    }
}

/// A code block.
#[derive(Clone, Debug, Eq, PartialEq, Hash)]
pub struct Code {
    /// The language of the code being marked up, when one was given.
    pub lang: Option<String>,
    /// Custom information relating to the node; only present together
    /// with `lang`.
    pub meta: Option<String>,
    pub value: String,
}

/// Block content other than headings and quotes.
#[derive(Debug, Eq, PartialEq, Hash)]
pub enum Content {
    Paragraph(Paragraph),
}

/// An inline-level node.
#[derive(Debug, Eq, PartialEq, Hash)]
pub enum Inline {
    /// Emphasis, aka italic.
    Emphasis(Emphasis),
    /// Strong emphasis, aka bold.
    Strong(Strong),
    /// Plain text.
    Text(Text),
}

/// A literal text run.
#[derive(Clone, Debug, Eq, PartialEq, Hash)]
pub struct Text {
    pub value: String,
}

impl Text {
    pub fn new(value: String) -> (r: Text)
        ensures
            r == (Text { value }),
    {
        Text { value }
    }

    /// Returns an independent copy of this text run.
    pub fn as_borrowed(&self) -> (r: Text)
        ensures
            r == *self,
    {
        Text { value: self.value.clone() }
    }

    /// Returns this text run as an owned value.
    pub fn into_owned(self) -> (r: Text)
        ensures
            r == self,
    {
        self
    }
}

/// Emphasized inline content.
#[derive(Debug, Eq, PartialEq, Hash)]
pub struct Emphasis {
    pub children: Vec<Inline>,
}

/// Strongly emphasized inline content.
#[derive(Debug, Eq, PartialEq, Hash)]
pub struct Strong {
    pub children: Vec<Inline>,
}

/// The text an inline element renders to: the delimiters of emphasis are
/// dropped and only the literal content of the text runs remains.
pub open spec fn inline_render(x: Inline) -> Seq<char>
    decreases x,
{
    match x {
        Inline::Text(t) => t.value@,
        Inline::Emphasis(e) => inline_seq_render(e.children@),
        Inline::Strong(s) => inline_seq_render(s.children@),
    }
}

/// The concatenated rendering of a sequence of inline elements.
pub open spec fn inline_seq_render(s: Seq<Inline>) -> Seq<char>
    decreases s,
{
    if s.len() == 0 {
        Seq::<char>::empty()
    } else {
        inline_render(s[0]) + inline_seq_render(s.drop_first())
    }
}

/// An ordered collection of located inline elements; insertion order is
/// the render order.
#[derive(Debug, Eq, PartialEq, Hash)]
pub struct InlineElementContainer {
    pub elements: Vec<Locatable<Inline>>,
}

/// The elements of a sequence of containers, concatenated in order.
pub open spec fn containers_elements(cs: Seq<InlineElementContainer>) -> Seq<Locatable<Inline>>
    decreases cs.len(),
{
    if cs.len() == 0 {
        Seq::<Locatable<Inline>>::empty()
    } else {
        cs[0].elements@ + containers_elements(cs.drop_first())
    }
}

/// Taking one more container appends that container's elements.
proof fn lemma_containers_elements_take_step(cs: Seq<InlineElementContainer>, i: int)
    requires
        0 <= i < cs.len(),
    ensures
        containers_elements(cs.take(i + 1)) == containers_elements(cs.take(i)) + cs[i].elements@,
    decreases i,
{
    if i == 0 {
        assert(cs.take(1).drop_first() =~= cs.take(0));
        assert(cs.take(1)[0] == cs[0]);
        assert(containers_elements(cs.take(0)) == Seq::<Locatable<Inline>>::empty());
        assert(containers_elements(cs.take(0)) + cs[0].elements@ =~= cs[0].elements@
            + Seq::<Locatable<Inline>>::empty());
    } else {
        lemma_containers_elements_take_step(cs.drop_first(), i - 1);
        assert(cs.take(i + 1).drop_first() =~= cs.drop_first().take(i));
        assert(cs.take(i).drop_first() =~= cs.drop_first().take(i - 1));
        assert(cs.take(i + 1)[0] == cs[0]);
        assert(cs.take(i)[0] == cs[0]);
        assert(cs.drop_first()[i - 1] == cs[i]);
        assert(containers_elements(cs.take(i)) + cs[i].elements@ =~= cs[0].elements@ + (
        containers_elements(cs.drop_first().take(i - 1)) + cs[i].elements@));
    }
}

/// The concatenated rendering of a sequence of located inline elements.
pub open spec fn located_seq_render(s: Seq<Locatable<Inline>>) -> Seq<char>
    decreases s,
{
    if s.len() == 0 {
        Seq::<char>::empty()
    } else {
        inline_render(s[0].inner) + located_seq_render(s.drop_first())
    }
}

impl InlineElementContainer {
    pub fn new(elements: Vec<Locatable<Inline>>) -> (r: InlineElementContainer)
        ensures
            r.elements == elements,
    {
        InlineElementContainer { elements }
    }

    /// The container with no elements.
    pub fn empty() -> (r: InlineElementContainer)
        ensures
            r.elements@.len() == 0,
    {
        InlineElementContainer { elements: Vec::new() }
    }

    /// Wraps a single located inline element in a container of its own.
    pub fn from_element(element: Locatable<Inline>) -> (r: InlineElementContainer)
        ensures
            r.elements@.len() == 1,
            r.elements@[0] == element,
    {
        let mut elements: Vec<Locatable<Inline>> = Vec::new();
        elements.push(element);
        InlineElementContainer { elements }
    }

    /// Stitches several containers into one: the result holds the
    /// concatenation of the inputs' elements, in order.
    pub fn concat(containers: Vec<InlineElementContainer>) -> (r: InlineElementContainer)
        ensures
            r.elements@ == containers_elements(containers@),
    {
        let ghost orig = containers@;
        let mut rest = containers;
        let mut out: Vec<Locatable<Inline>> = Vec::new();
        let ghost mut idx: int = 0;
        while rest.len() > 0
            invariant
                0 <= idx <= orig.len(),
                idx + rest@.len() == orig.len(),
                rest@ =~= orig.subrange(idx, orig.len() as int),
                out@ =~= containers_elements(orig.take(idx)),
            decreases rest@.len(),
        {
            let c = rest.remove(0);
            let mut elems = c.into_children();
            proof {
                assert(c == orig[idx]);
                assert(orig.subrange(idx, orig.len() as int).remove(0) =~= orig.subrange(
                    idx + 1,
                    orig.len() as int,
                ));
                lemma_containers_elements_take_step(orig, idx);
                idx = idx + 1;
            }
            out.append(&mut elems);
        }
        proof {
            assert(orig.take(orig.len() as int) =~= orig);
        }
        InlineElementContainer { elements: out }
    }

    /// Returns a copy of this container with the same length, the same
    /// element positions, and the same rendering of each element.
    pub fn to_borrowed(&self) -> (r: InlineElementContainer)
        ensures
            r.elements@.len() == self.elements@.len(),
            forall|i: int|
                0 <= i < self.elements@.len() ==> #[trigger] r.elements@[i].position
                    == self.elements@[i].position,
            forall|i: int|
                0 <= i < self.elements@.len() ==> #[trigger] inline_render(r.elements@[i].inner)
                    == inline_render(self.elements@[i].inner),
    {
        let mut elements: Vec<Locatable<Inline>> = Vec::new();
        let mut i: usize = 0;
        while i < self.elements.len()
            invariant
                i <= self.elements@.len(),
                elements@.len() == i,
                forall|k: int|
                    0 <= k < i ==> #[trigger] elements@[k].position == self.elements@[k].position,
                forall|k: int|
                    0 <= k < i ==> #[trigger] inline_render(elements@[k].inner) == inline_render(
                        self.elements@[k].inner,
                    ),
            decreases self.elements@.len() - i,
        {
            let e = &self.elements[i];
            let copy = e.inner.to_borrowed();
            let ghost prev = elements@;
            elements.push(Locatable { inner: copy, position: e.position });
            proof {
                assert forall|k: int| 0 <= k < i + 1 implies #[trigger] inline_render(
                    elements@[k].inner,
                ) == inline_render(self.elements@[k].inner) by {
                    if k < i {
                        assert(elements@[k] == prev[k]);
                    } else {
                        assert(elements@[k].inner == copy);
                    }
                }
            }
            i = i + 1;
        }
        InlineElementContainer { elements }
    }

    /// Returns this container as an owned value.
    pub fn into_owned(self) -> (r: InlineElementContainer)
        ensures
            r == self,
    {
        self
    }

    /// Consumes the container, returning its elements.
    pub fn into_children(self) -> (r: Vec<Locatable<Inline>>)
        ensures
            r == self.elements,
    {
        self.elements
    }

    /// The text this container renders to.
    pub fn to_string(&self) -> (r: String)
        ensures
            r@ == located_seq_render(self.elements@),
    {
        let mut out = String::new();
        let mut i: usize = 0;
        while i < self.elements.len()
            invariant
                i <= self.elements@.len(),
                out@ == located_seq_render(self.elements@.take(i as int)),
            decreases self.elements@.len() - i,
        {
            let piece = self.elements[i].inner.to_string();
            out.append(piece.as_str());
            proof {
                lemma_located_seq_render_take_step(self.elements@, i as int);
            }
            i = i + 1;
        }
        proof {
            assert(self.elements@.take(self.elements@.len() as int) =~= self.elements@);
        }
        out
    }
}

impl Inline {
    /// Returns an independent deep copy of this inline element: same
    /// variant, same number of children, same rendered text.
    pub fn to_borrowed(&self) -> (r: Inline)
        ensures
            (r is Emphasis) == (*self is Emphasis),
            (r is Strong) == (*self is Strong),
            (r is Text) == (*self is Text),
            (*self is Text ==> r == *self),
            inline_render(r) == inline_render(*self),
        decreases *self,
    {
        match self {
            Self::Emphasis(x) => {
                let children = clone_inline_children(&x.children);
                Inline::Emphasis(Emphasis { children })
            },
            Self::Text(x) => Inline::Text(x.as_borrowed()),
            Self::Strong(x) => {
                let children = clone_inline_children(&x.children);
                Inline::Strong(Strong { children })
            },
        }
    }

    /// Returns this inline element as an owned value.
    pub fn into_owned(self) -> (r: Inline)
        ensures
            r == self,
    {
        self
    }

    /// Consumes the element, returning its children wrapped with the
    /// default (absent) position; a text run has no children.
    pub fn into_children(self) -> (r: Vec<Locatable<Inline>>)
        ensures
            match self {
                Inline::Text(_) => r@.len() == 0,
                Inline::Strong(s) => wrapped_children(s.children@, r@),
                Inline::Emphasis(e) => wrapped_children(e.children@, r@),
            },
    {
        match self {
            Self::Text(_) => Vec::new(),
            Self::Strong(s) => wrap_children(s.children),
            Self::Emphasis(e) => wrap_children(e.children),
        }
    }

    /// The text this inline element renders to.
    pub fn to_string(&self) -> (r: String)
        ensures
            r@ == inline_render(*self),
        decreases *self,
    {
        match self {
            Inline::Text(t) => t.value.clone(),
            Inline::Emphasis(e) => inline_slice_to_string(&e.children),
            Inline::Strong(s) => inline_slice_to_string(&s.children),
        }
    }
}

/// Whether `out` is exactly the elements of `children`, each wrapped with
/// the default position.
pub open spec fn wrapped_children(children: Seq<Inline>, out: Seq<Locatable<Inline>>) -> bool {
    out.len() == children.len() && forall|i: int|
        0 <= i < children.len() ==> #[trigger] out[i] == (Locatable {
            inner: children[i],
            position: Position {
                start: Point { line: 0, column: 0, offset: 0 },
                end: Point { line: 0, column: 0, offset: 0 },
                indent: None::<u32>,
            },
        })
}

fn wrap_children(children: Vec<Inline>) -> (r: Vec<Locatable<Inline>>)
    ensures
        wrapped_children(children@, r@),
{
    let ghost orig = children@;
    let mut rest = children;
    let mut out: Vec<Locatable<Inline>> = Vec::new();
    while rest.len() > 0
        invariant
            out@.len() + rest@.len() == orig.len(),
            rest@ =~= orig.subrange(out@.len() as int, orig.len() as int),
            wrapped_children(orig.take(out@.len() as int), out@),
        decreases rest@.len(),
    {
        let x = rest.remove(0);
        let position = Position {
            start: Point { line: 0, column: 0, offset: 0 },
            end: Point { line: 0, column: 0, offset: 0 },
            indent: None,
        };
        proof {
            assert(x == orig[out@.len() as int]);
            assert(orig.subrange(out@.len() as int, orig.len() as int).remove(0) =~= orig.subrange(
                out@.len() as int + 1,
                orig.len() as int,
            ));
        }
        out.push(Locatable { inner: x, position });
    }
    proof {
        assert(orig.take(orig.len() as int) =~= orig);
    }
    out
}

/// Returns a deep copy of a list of inline elements: same length, and
/// each element renders to the same text as the one it copies.
fn clone_inline_children(children: &Vec<Inline>) -> (r: Vec<Inline>)
    ensures
        r@.len() == children@.len(),
        forall|i: int|
            0 <= i < children@.len() ==> #[trigger] inline_render(r@[i]) == inline_render(
                children@[i],
            ),
        inline_seq_render(r@) == inline_seq_render(children@),
    decreases children@,
{
    let mut out: Vec<Inline> = Vec::new();
    let mut i: usize = 0;
    while i < children.len()
        invariant
            i <= children@.len(),
            out@.len() == i,
            forall|k: int|
                0 <= k < i ==> #[trigger] inline_render(out@[k]) == inline_render(children@[k]),
        decreases children@.len() - i,
    {
        proof {
            assert(decreases_to!(children@ => children@[i as int]));
        }
        let copy = children[i].to_borrowed();
        out.push(copy);
        i = i + 1;
    }
    proof {
        lemma_inline_seq_render_pointwise(out@, children@);
    }
    out
}

/// Two lists of inline elements whose members render pairwise to the same
/// text render to the same text overall.
proof fn lemma_inline_seq_render_pointwise(a: Seq<Inline>, b: Seq<Inline>)
    requires
        a.len() == b.len(),
        forall|i: int| 0 <= i < a.len() ==> #[trigger] inline_render(a[i]) == inline_render(b[i]),
    ensures
        inline_seq_render(a) == inline_seq_render(b),
    decreases a.len(),
{
    if a.len() > 0 {
        assert forall|i: int| 0 <= i < a.drop_first().len() implies #[trigger] inline_render(
            a.drop_first()[i],
        ) == inline_render(b.drop_first()[i]) by {
            assert(a.drop_first()[i] == a[i + 1]);
            assert(b.drop_first()[i] == b[i + 1]);
        }
        lemma_inline_seq_render_pointwise(a.drop_first(), b.drop_first());
        assert(inline_render(a[0]) == inline_render(b[0]));
    }
}

/// The rendering of a sequence of inline elements, built element by
/// element.
fn inline_slice_to_string(children: &Vec<Inline>) -> (r: String)
    ensures
        r@ == inline_seq_render(children@),
    decreases children@,
{
    let mut out = String::new();
    let mut i: usize = 0;
    while i < children.len()
        invariant
            i <= children@.len(),
            out@ == inline_seq_render(children@.take(i as int)),
        decreases children@.len() - i,
    {
        proof {
            assert(decreases_to!(children@ => children@[i as int]));
        }
        let piece = children[i].to_string();
        out.append(piece.as_str());
        proof {
            lemma_inline_seq_render_take_step(children@, i as int);
        }
        i = i + 1;
    }
    proof {
        assert(children@.take(children@.len() as int) =~= children@);
    }
    out
}

/// Rendering one more element appends that element's rendering.
proof fn lemma_inline_seq_render_take_step(s: Seq<Inline>, i: int)
    requires
        0 <= i < s.len(),
    ensures
        inline_seq_render(s.take(i + 1)) == inline_seq_render(s.take(i)) + inline_render(s[i]),
    decreases i,
{
    if i == 0 {
        assert(s.take(1).drop_first() =~= s.take(0));
        assert(inline_seq_render(s.take(0)) == Seq::<char>::empty());
        assert(inline_seq_render(s.take(1)) == inline_render(s[0]) + Seq::<char>::empty());
        assert(inline_seq_render(s.take(0)) + inline_render(s[0]) =~= inline_render(s[0])
            + Seq::<char>::empty());
    } else {
        lemma_inline_seq_render_take_step(s.drop_first(), i - 1);
        assert(s.take(i + 1).drop_first() =~= s.drop_first().take(i));
        assert(s.take(i).drop_first() =~= s.drop_first().take(i - 1));
        assert(s.take(i + 1)[0] == s[0]);
        assert(s.take(i)[0] == s[0]);
        assert(s.drop_first()[i - 1] == s[i]);
        assert(inline_seq_render(s.take(i)) + inline_render(s[i]) =~= inline_render(s[0]) + (
        inline_seq_render(s.drop_first().take(i - 1)) + inline_render(s[i])));
    }
}

/// Rendering one more located element appends that element's rendering.
proof fn lemma_located_seq_render_take_step(s: Seq<Locatable<Inline>>, i: int)
    requires
        0 <= i < s.len(),
    ensures
        located_seq_render(s.take(i + 1)) == located_seq_render(s.take(i)) + inline_render(
            s[i].inner,
        ),
    decreases i,
{
    if i == 0 {
        assert(s.take(1).drop_first() =~= s.take(0));
        assert(s.take(1)[0] == s[0]);
        assert(located_seq_render(s.take(0)) == Seq::<char>::empty());
        assert(located_seq_render(s.take(1)) == inline_render(s[0].inner)
            + Seq::<char>::empty());
        assert(located_seq_render(s.take(0)) + inline_render(s[0].inner) =~= inline_render(
            s[0].inner,
        ) + Seq::<char>::empty());
    } else {
        lemma_located_seq_render_take_step(s.drop_first(), i - 1);
        assert(s.take(i + 1).drop_first() =~= s.drop_first().take(i));
        assert(s.take(i).drop_first() =~= s.drop_first().take(i - 1));
        assert(s.take(i + 1)[0] == s[0]);
        assert(s.take(i)[0] == s[0]);
        assert(s.drop_first()[i - 1] == s[i]);
        assert(located_seq_render(s.take(i)) + inline_render(s[i].inner) =~= inline_render(
            s[0].inner,
        ) + (located_seq_render(s.drop_first().take(i - 1)) + inline_render(s[i].inner)));
    }
}

} // verus!
