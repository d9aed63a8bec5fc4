use marcup::ast::{Block, Heading, Inline, Text};
use marcup::lexical::chars_of;
use marcup::location::{Point, Position};
use marcup::parser::{header as header_parser, inline_element_container, paragraph, parse, parse_markdown};
use marcup::span::{capture, full_span, locate, Captured, Span};

fn text(value: &str) -> Inline {
    Inline::Text(Text::new(value.to_string()))
}

#[test]
fn emphasis() {
    let chars = chars_of("*alpha*");
    let input = full_span(&chars);
    let (rest, p) = paragraph(&chars, input).expect("a single emphasis line is a paragraph");
    assert_eq!(rest.start_offset(), 7);
    assert_eq!(p.children.elements.len(), 1);
    match &p.children.elements[0].inner {
        Inline::Emphasis(em) => assert_eq!(em.children, vec![text("alpha")]),
        other => panic!("expected emphasis, got {:?}", other),
    }
}

#[test]
fn strong() {
    let chars = chars_of("**alpha**");
    let input = full_span(&chars);
    let (_, p) = paragraph(&chars, input).expect("a single strong line is a paragraph");
    assert_eq!(p.children.elements.len(), 1);
    match &p.children.elements[0].inner {
        Inline::Strong(st) => assert_eq!(st.children, vec![text("alpha")]),
        other => panic!("expected strong, got {:?}", other),
    }
}

#[test]
fn header() {
    let md = parse("# Header World");

    assert!(md.is_ok());
    let root = md.ok().unwrap();
    let children = &root.as_inner().children;
    assert_eq!(children.len(), 1);
    match &children[0].inner {
        Block::Heading(h) => {
            assert_eq!(h.depth, 1);
            assert!(!h.setext);
            assert_eq!(h.children.to_string(), "Header World");
        },
        other => panic!("expected a heading, got {:?}", other),
    }
    assert_eq!(
        children[0].position(),
        Position::new(Point::new(1, 1, 0), Point::new(1, 15, 14))
    );
    assert_eq!(
        root.position(),
        Position::new(Point::new(1, 1, 0), Point::new(1, 15, 14))
    );
}

#[test]
fn header_italicized() {
    let md = parse("# *Hello* World");

    assert!(md.is_ok());
    let root = md.ok().unwrap();
    let children = &root.as_inner().children;
    assert_eq!(children.len(), 1);
    match &children[0].inner {
        Block::Heading(h) => {
            assert_eq!(h.depth, 1);
            assert_eq!(h.children.elements.len(), 2);
            assert!(matches!(&h.children.elements[0].inner, Inline::Emphasis(_)));
            assert_eq!(h.children.to_string(), "Hello World");
        },
        other => panic!("expected a heading, got {:?}", other),
    }
}

#[test]
fn header_depths_and_near_misses() {
    let root = parse("###### six deep").unwrap();
    match &root.as_inner().children[0].inner {
        Block::Heading(h) => assert_eq!(h.depth, 6),
        other => panic!("expected a heading, got {:?}", other),
    }

    // seven markers are not a heading, and neither is a marker without
    // its mandatory space: both lines fall through to a paragraph
    for input in ["####### seven", "#nospace"] {
        let root = parse(input).unwrap();
        assert!(matches!(
            &root.as_inner().children[0].inner,
            Block::Paragraph(_)
        ));
    }

    // a marker with a space but no content is no heading either
    let root = parse("#  ").unwrap();
    assert!(matches!(
        &root.as_inner().children[0].inner,
        Block::Paragraph(_)
    ));
}

#[test]
fn heading_construction_depth_bounds() {
    for depth in 0..9usize {
        assert_eq!(
            Heading::is_valid_depth(depth, false),
            (1..=6).contains(&depth)
        );
        assert_eq!(
            Heading::is_valid_depth(depth, true),
            depth == 1 || depth == 2
        );
    }
    let h = Heading::new(2, true);
    assert_eq!(h.depth, 2);
    assert!(h.setext);
    assert_eq!(h.children.elements.len(), 0);
}

#[test]
fn indented_code_block() {
    let md = parse("    ls\n    foo\n");

    assert!(md.is_ok());
    let root = md.ok().unwrap();
    let children = &root.as_inner().children;
    assert_eq!(children.len(), 1);
    match &children[0].inner {
        Block::BlockQuote(q) => {
            assert_eq!(q.children, vec!["ls".to_string(), "foo".to_string()])
        },
        other => panic!("expected a block quote, got {:?}", other),
    }
}

#[test]
fn indented_code_block_with_indented_line() {
    let md = parse("    ls\n        foo\n");

    assert!(md.is_ok());
    let root = md.ok().unwrap();
    match &root.as_inner().children[0].inner {
        Block::BlockQuote(q) => {
            assert_eq!(q.children, vec!["ls".to_string(), "foo".to_string()])
        },
        other => panic!("expected a block quote, got {:?}", other),
    }
}

#[test]
fn indented_code_block_trailing_and_preceding_blank_lines() {
    let md = parse("    \n    ls\n    \n");

    assert!(md.is_ok());
    let root = md.ok().unwrap();
    let children = &root.as_inner().children;
    assert_eq!(children.len(), 1);
    match &children[0].inner {
        Block::BlockQuote(q) => assert_eq!(q.children, vec!["ls".to_string()]),
        other => panic!("expected a block quote, got {:?}", other),
    }
}

#[test]
fn indented_code_block_interior_blank_lines() {
    let md = parse("    ls\n \n  \n    hi");

    assert!(md.is_ok());
    let root = md.ok().unwrap();
    let children = &root.as_inner().children;
    assert_eq!(children.len(), 2);
    match (&children[0].inner, &children[1].inner) {
        (Block::BlockQuote(a), Block::BlockQuote(b)) => {
            assert_eq!(a.children, vec!["ls".to_string()]);
            assert_eq!(b.children, vec!["hi".to_string()]);
        },
        other => panic!("expected two block quotes, got {:?}", other),
    }
}

#[test]
fn indented_tab_code_block() {
    let md = parse("\tls\n\tfoo\n");

    assert!(md.is_ok());
    let root = md.ok().unwrap();
    match &root.as_inner().children[0].inner {
        Block::BlockQuote(q) => {
            assert_eq!(q.children, vec!["ls".to_string(), "foo".to_string()])
        },
        other => panic!("expected a block quote, got {:?}", other),
    }
}

#[test]
fn fenced_code_block() {
    let md = parse("```\nls\n```");

    assert!(md.is_ok());
    let root = md.ok().unwrap();
    let children = &root.as_inner().children;
    assert_eq!(children.len(), 1);
    match &children[0].inner {
        Block::Paragraph(p) => assert_eq!(p.children.to_string(), "```ls```"),
        other => panic!("expected a paragraph, got {:?}", other),
    }
}

#[test]
fn fenced_code_block_tilde() {
    let md = parse("~~~\nls\n~~~");

    assert!(md.is_ok());
    let root = md.ok().unwrap();
    match &root.as_inner().children[0].inner {
        Block::Paragraph(p) => assert_eq!(p.children.to_string(), "~~~ls~~~"),
        other => panic!("expected a paragraph, got {:?}", other),
    }
}

#[test]
fn fenced_code_block_empty() {
    let md = parse("```\n```");

    assert!(md.is_ok());
    let root = md.ok().unwrap();
    let children = &root.as_inner().children;
    assert_eq!(children.len(), 1);
    match &children[0].inner {
        Block::Paragraph(p) => assert_eq!(p.children.elements.len(), 2),
        other => panic!("expected a paragraph, got {:?}", other),
    }
}

#[test]
fn fenced_code_block_empty_content() {
    let md = parse("```\n\n```");

    assert!(md.is_ok());
    let root = md.ok().unwrap();
    let children = &root.as_inner().children;
    assert_eq!(children.len(), 2);
    assert!(matches!(&children[0].inner, Block::Paragraph(_)));
    assert!(matches!(&children[1].inner, Block::Paragraph(_)));
}

#[test]
fn fenced_code_block_literal_content() {
    let md = parse("```\n*hi*\n```");

    assert!(md.is_ok());
    let root = md.ok().unwrap();
    match &root.as_inner().children[0].inner {
        Block::Paragraph(p) => {
            assert_eq!(p.children.elements.len(), 3);
            assert!(matches!(&p.children.elements[1].inner, Inline::Emphasis(_)));
            assert_eq!(p.children.to_string(), "```hi```");
        },
        other => panic!("expected a paragraph, got {:?}", other),
    }
}

#[test]
fn fenced_code_block_with_info() {
    let md = parse("```shell some metadata\nls\n```");

    assert!(md.is_ok());
    let root = md.ok().unwrap();
    match &root.as_inner().children[0].inner {
        Block::Paragraph(p) => {
            assert_eq!(p.children.to_string(), "```shell some metadatals```")
        },
        other => panic!("expected a paragraph, got {:?}", other),
    }
}

#[test]
fn multiline_paragraph() {
    let string = "Hello.\nWorld.";

    let chars = chars_of(string);
    let md = parse_markdown(&chars, full_span(&chars));
    assert!(md.is_ok());
    let (rest, blocks) = md.ok().unwrap();

    assert_eq!(rest.start_offset(), 13);
    assert_eq!(blocks.len(), 1);
    match &blocks[0].inner {
        Block::Paragraph(p) => {
            assert_eq!(p.children.elements.len(), 2);
            assert_eq!(p.children.elements[0].inner, text("Hello."));
            assert_eq!(p.children.elements[1].inner, text("World."));
        },
        other => panic!("expected one paragraph, got {:?}", other),
    }
    assert_eq!(
        blocks[0].position(),
        Position::new(Point::new(1, 1, 0), Point::new(2, 7, 13))
    );
}

#[test]
fn blank_line_separates_paragraphs() {
    let root = parse("Hello\n\nWorld").unwrap();
    let children = &root.as_inner().children;
    assert_eq!(children.len(), 2);
    match (&children[0].inner, &children[1].inner) {
        (Block::Paragraph(a), Block::Paragraph(b)) => {
            assert_eq!(a.children.to_string(), "Hello");
            assert_eq!(b.children.to_string(), "World");
        },
        other => panic!("expected two paragraphs, got {:?}", other),
    }
}

#[test]
fn marker_blockquote_keeps_raw_lines() {
    let root = parse("> line one\n> line two").unwrap();
    let children = &root.as_inner().children;
    assert_eq!(children.len(), 1);
    match &children[0].inner {
        Block::BlockQuote(q) => {
            assert_eq!(q.children, vec!["line one".to_string(), "line two".to_string()])
        },
        other => panic!("expected a block quote, got {:?}", other),
    }
}

#[test]
fn marker_blockquote_keeps_interior_blank_lines() {
    let root = parse("> a\n\n> b").unwrap();
    let children = &root.as_inner().children;
    assert_eq!(children.len(), 1);
    match &children[0].inner {
        Block::BlockQuote(q) => {
            assert_eq!(
                q.children,
                vec!["a".to_string(), "".to_string(), "b".to_string()]
            )
        },
        other => panic!("expected one block quote, got {:?}", other),
    }
}

#[test]
fn marker_blockquote_keeps_a_run_of_interior_blank_lines() {
    let root = parse("> a\n\n\n> b").unwrap();
    match &root.as_inner().children[0].inner {
        Block::BlockQuote(q) => {
            assert_eq!(
                q.children,
                vec!["a".to_string(), "".to_string(), "".to_string(), "b".to_string()]
            )
        },
        other => panic!("expected one block quote, got {:?}", other),
    }
}

#[test]
fn offsets_count_characters_not_bytes() {
    let root = parse("# héllo\nwörld").unwrap();
    let children = &root.as_inner().children;
    assert_eq!(children.len(), 2);
    match &children[0].inner {
        Block::Heading(h) => assert_eq!(h.children.to_string(), "héllo"),
        other => panic!("expected a heading, got {:?}", other),
    }
    assert_eq!(
        children[0].position(),
        Position::new(Point::new(1, 1, 0), Point::new(2, 1, 8))
    );
    match &children[1].inner {
        Block::Paragraph(p) => assert_eq!(p.children.to_string(), "wörld"),
        other => panic!("expected a paragraph, got {:?}", other),
    }
    assert_eq!(
        children[1].position(),
        Position::new(Point::new(2, 1, 8), Point::new(2, 6, 13))
    );
}

#[test]
fn marker_blockquote_does_not_swallow_trailing_blanks() {
    let root = parse("> a\n\nx").unwrap();
    let children = &root.as_inner().children;
    assert_eq!(children.len(), 2);
    match (&children[0].inner, &children[1].inner) {
        (Block::BlockQuote(q), Block::Paragraph(p)) => {
            assert_eq!(q.children, vec!["a".to_string()]);
            assert_eq!(p.children.to_string(), "x");
        },
        other => panic!("expected a quote then a paragraph, got {:?}", other),
    }
}

#[test]
fn empty_input_is_a_parse_error() {
    let err = parse("").expect_err("empty input holds no block");
    assert_eq!(err.offset, 0);
    assert_eq!(err.contexts, vec!["Document".to_string()]);
}

#[test]
fn all_blank_input_is_a_parse_error() {
    let err = parse("  \n\t\n").expect_err("blank lines hold no block");
    assert_eq!(err.offset, 5);
    assert_eq!(err.contexts, vec!["Document".to_string()]);
}

#[test]
fn lone_delimiters_are_literal_text() {
    // an unclosed delimiter, an empty emphasis, and a delimiter pair with
    // no closing pair all stay literal
    let chars = chars_of("a*b");
    let (_, p) = paragraph(&chars, full_span(&chars)).unwrap();
    assert_eq!(p.children.elements.len(), 1);
    assert_eq!(p.children.elements[0].inner, text("a*b"));

    let chars = chars_of("**");
    let (_, p) = paragraph(&chars, full_span(&chars)).unwrap();
    assert_eq!(p.children.elements[0].inner, text("**"));
}

#[test]
fn unbalanced_double_delimiters_fall_back_to_single_emphasis() {
    // the double opener has no double closer, so the opener's first
    // delimiter stays literal and the rest parses as plain emphasis
    let chars = chars_of("**a*b**");
    let (_, p) = paragraph(&chars, full_span(&chars)).unwrap();
    let elements = &p.children.elements;
    assert_eq!(elements.len(), 3);
    assert_eq!(elements[0].inner, text("*"));
    match &elements[1].inner {
        Inline::Emphasis(em) => assert_eq!(em.children, vec![text("a")]),
        other => panic!("expected emphasis, got {:?}", other),
    }
    assert_eq!(elements[2].inner, text("b**"));
}

#[test]
fn indented_blockquote_ends_at_a_blank_line() {
    let root = parse("    a\n\n    b").unwrap();
    let children = &root.as_inner().children;
    assert_eq!(children.len(), 2);
    match (&children[0].inner, &children[1].inner) {
        (Block::BlockQuote(a), Block::BlockQuote(b)) => {
            assert_eq!(a.children, vec!["a".to_string()]);
            assert_eq!(b.children, vec!["b".to_string()]);
        },
        other => panic!("expected two block quotes, got {:?}", other),
    }
}

#[test]
fn marker_blockquote_line_may_be_empty_but_needs_its_space() {
    let root = parse("> ").unwrap();
    match &root.as_inner().children[0].inner {
        Block::BlockQuote(q) => assert_eq!(q.children, vec!["".to_string()]),
        other => panic!("expected a block quote, got {:?}", other),
    }

    // the bare marker without its space is not a quote line
    let root = parse(">").unwrap();
    match &root.as_inner().children[0].inner {
        Block::Paragraph(p) => assert_eq!(p.children.to_string(), ">"),
        other => panic!("expected a paragraph, got {:?}", other),
    }
}

#[test]
fn heading_content_is_trimmed_of_surrounding_whitespace() {
    let root = parse("#   hi   ").unwrap();
    match &root.as_inner().children[0].inner {
        Block::Heading(h) => assert_eq!(h.children.to_string(), "hi"),
        other => panic!("expected a heading, got {:?}", other),
    }
}

#[test]
fn inline_container_records_positions() {
    let chars = chars_of("ab *cd* ef");
    let input = full_span(&chars);
    let (rest, c) = inline_element_container(&chars, input, chars.len())
        .expect("a non-empty region parses");
    assert_eq!(rest.start_offset(), 10);
    let elements = &c.as_inner().elements;
    assert_eq!(elements.len(), 3);
    assert_eq!(elements[0].inner, text("ab "));
    assert_eq!(
        elements[1].position(),
        Position::new(Point::new(1, 4, 3), Point::new(1, 8, 7))
    );
    assert_eq!(elements[2].inner, text(" ef"));
    assert_eq!(
        c.position(),
        Position::new(Point::new(1, 1, 0), Point::new(1, 11, 10))
    );
}

#[test]
fn header_parser_rejects_mid_line_cursor() {
    let chars = chars_of("x# nope");
    let input = full_span(&chars);
    let mid = input.advance(&chars);
    assert!(header_parser(&chars, mid).is_err());
}

#[test]
fn capture_and_locate_resolve_the_consumed_window() {
    let chars = chars_of("123abc");
    let before = full_span(&chars);
    let mut after = before;
    for _ in 0..3 {
        after = after.advance(&chars);
    }
    let captured: Captured<u32> = capture(123, before, after);
    assert_eq!(captured.input(), Span::new(Point::new(1, 1, 0), Point::new(1, 4, 3)));

    let located = locate(captured);
    assert_eq!(located.position().starting_offset(), 0);
    assert_eq!(located.position().len(), 3);
    assert_eq!(located.into_inner(), 123);
}

#[test]
fn mixed_document_lines_and_columns_are_exact() {
    let root = parse("# Top\n\n> q\n\npara one\npara two\n").unwrap();
    let children = &root.as_inner().children;
    assert_eq!(children.len(), 3);
    assert!(matches!(&children[0].inner, Block::Heading(_)));
    assert!(matches!(&children[1].inner, Block::BlockQuote(_)));
    assert!(matches!(&children[2].inner, Block::Paragraph(_)));

    assert_eq!(
        children[0].position(),
        Position::new(Point::new(1, 1, 0), Point::new(2, 1, 6))
    );
    assert_eq!(
        children[1].position(),
        Position::new(Point::new(3, 1, 7), Point::new(4, 1, 11))
    );
    assert_eq!(
        children[2].position(),
        Position::new(Point::new(5, 1, 12), Point::new(7, 1, 30))
    );
}
