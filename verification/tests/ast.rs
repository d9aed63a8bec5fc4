use marcup::ast::{
    BlockQuote, Emphasis, Inline, InlineElementContainer, Paragraph, Root, Strong, Text,
};
use marcup::location::{Locatable, Point, Position};

fn pos(a: usize, b: usize) -> Position {
    Position::new(Point::new(1, a + 1, a), Point::new(1, b + 1, b))
}

#[test]
fn text_copies_keep_their_value() {
    let t = Text::new("hi".to_string());
    assert_eq!(t.as_borrowed(), t);
    assert_eq!(t.as_borrowed().into_owned(), Text::new("hi".to_string()));
}

#[test]
fn inline_to_borrowed_preserves_variant_and_rendering() {
    let em = Inline::Emphasis(Emphasis {
        children: vec![Inline::Text(Text::new("ab".to_string()))],
    });
    let copy = em.to_borrowed();
    assert_eq!(copy, em);
    assert_eq!(copy.to_string(), "ab");

    let st = Inline::Strong(Strong {
        children: vec![Inline::Text(Text::new("cd".to_string()))],
    });
    assert_eq!(st.to_borrowed().to_string(), "cd");
}

#[test]
fn into_children_wraps_children_with_default_positions() {
    let em = Inline::Emphasis(Emphasis {
        children: vec![
            Inline::Text(Text::new("a".to_string())),
            Inline::Text(Text::new("b".to_string())),
        ],
    });
    let kids = em.into_children();
    assert_eq!(kids.len(), 2);
    assert_eq!(kids[0].inner, Inline::Text(Text::new("a".to_string())));
    assert_eq!(kids[0].position(), Position::default());

    let t = Inline::Text(Text::new("x".to_string()));
    assert!(t.into_children().is_empty());
}

#[test]
fn container_renders_elements_in_insertion_order() {
    let elements = vec![
        Locatable::new(Inline::Text(Text::new("one ".to_string())), pos(0, 4)),
        Locatable::new(
            Inline::Emphasis(Emphasis {
                children: vec![Inline::Text(Text::new("two".to_string()))],
            }),
            pos(4, 9),
        ),
    ];
    let container = InlineElementContainer::new(elements);
    assert_eq!(container.to_string(), "one two");

    let copy = container.to_borrowed();
    assert_eq!(copy.to_string(), "one two");
    assert_eq!(copy.elements[1].position(), pos(4, 9));

    let children = container.into_owned().into_children();
    assert_eq!(children.len(), 2);
}

#[test]
fn containers_concatenate_in_order() {
    let a = InlineElementContainer::from_element(Locatable::new(
        Inline::Text(Text::new("left ".to_string())),
        pos(0, 5),
    ));
    let b = InlineElementContainer::from_element(Locatable::new(
        Inline::Text(Text::new("right".to_string())),
        pos(5, 10),
    ));
    let joined = InlineElementContainer::concat(vec![a, b]);
    assert_eq!(joined.elements.len(), 2);
    assert_eq!(joined.to_string(), "left right");
    assert_eq!(joined.elements[1].position(), pos(5, 10));
}

#[test]
fn node_constructors_store_their_arguments() {
    let q = BlockQuote::new(vec!["a".to_string()]);
    assert_eq!(q.children, vec!["a".to_string()]);

    let p = Paragraph::new(InlineElementContainer::new(Vec::new()));
    assert_eq!(p.children.elements.len(), 0);

    let root = Root::new(Vec::new());
    assert!(root.children.is_empty());
}
