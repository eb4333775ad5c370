//! The markup tokenizer and tree builder: tree shape, rendering, errors.

use cli_styler::error::ParsingError;
use cli_styler::markup::{AstTk, Markup};
use cli_styler::style::Style;

#[test]
fn tree_shape_of_nested_markup() {
    let root = Markup::new("<m b>bold<m i> and italic</></>").unwrap();

    assert_eq!(root.compiled(), &Style::new().compile());
    assert_eq!(root.children().len(), 1);

    let outer = match &root.children()[0] {
        AstTk::Tree(node) => node,
        AstTk::Text(t) => panic!("expected a tree child, found text {:?}", t),
    };
    assert_eq!(outer.compiled(), &Style::new_from_cli_spec("m b").unwrap().compile());
    assert_eq!(outer.children().len(), 2);

    match &outer.children()[0] {
        AstTk::Text(t) => assert_eq!(t, "bold"),
        AstTk::Tree(_) => panic!("expected a text child first"),
    }

    let inner = match &outer.children()[1] {
        AstTk::Tree(node) => node,
        AstTk::Text(t) => panic!("expected a tree child, found text {:?}", t),
    };
    assert_eq!(inner.compiled(), &Style::new_from_cli_spec("m i").unwrap().compile());
    assert_eq!(inner.children().len(), 1);
    match &inner.children()[0] {
        AstTk::Text(t) => assert_eq!(t, " and italic"),
        AstTk::Tree(_) => panic!("expected a text child"),
    }
}

#[test]
fn render_nests_resets() {
    let out = Markup::new("<m b>bold<m i> and italic</></>").unwrap().render();
    assert_eq!(out, "\u{1b}[1mbold\u{1b}[3m and italic\u{1b}[0m\u{1b}[0m");
    // The italic region's reset comes before the bold region's trailing reset.
    assert!(out.ends_with("\u{1b}[0m\u{1b}[0m"));
}

#[test]
fn render_plain_and_empty_tags() {
    assert_eq!(Markup::new("just text").unwrap().render(), "just text");
    assert_eq!(Markup::new("<>scoped</>").unwrap().render(), "scoped");
    assert_eq!(Markup::new("").unwrap().render(), "");
}

#[test]
fn escaped_angle_bracket() {
    assert_eq!(Markup::new("\\<not a tag>").unwrap().render(), "<not a tag>");
    assert_eq!(Markup::new("a\\b").unwrap().render(), "a\\b");
    assert_eq!(Markup::new("tail\\").unwrap().render(), "tail\\");
}

#[test]
fn unterminated_tag_is_unclosed_tags() {
    assert!(matches!(
        Markup::new("<m b>unterminated"),
        Err(ParsingError::UnclosedTags)
    ));
}

#[test]
fn stray_closing_tag_is_unexpected() {
    assert!(matches!(
        Markup::new("</>"),
        Err(ParsingError::UnexpectedClosingTag)
    ));
}

#[test]
fn eof_inside_tag_machinery() {
    match Markup::new("text<") {
        Err(ParsingError::Eof(s)) => assert_eq!(s, ">"),
        other => panic!("expected an end-of-input error, got {:?}", other),
    }
    match Markup::new("text<b") {
        Err(ParsingError::Eof(s)) => assert_eq!(s, "Tag name: b"),
        other => panic!("expected an end-of-input error, got {:?}", other),
    }
    match Markup::new("text</") {
        Err(ParsingError::Eof(s)) => assert_eq!(s, "</"),
        other => panic!("expected an end-of-input error, got {:?}", other),
    }
}

#[test]
fn invalid_tag_character() {
    assert!(matches!(
        Markup::new("<b!>x</>"),
        Err(ParsingError::InvalidTagChar('!'))
    ));
}

#[test]
fn named_closing_tag_unsupported() {
    assert!(matches!(
        Markup::new("<m b>x</b>"),
        Err(ParsingError::UnsupportedNamedClose('b'))
    ));
}

#[test]
fn markup_cli_mode_trailing_hex_marker() {
    let out = Markup::new_cli("<f 0080ff#>x</>").unwrap().render();
    assert_eq!(out, "\u{1b}[38;2;0;128;255mx\u{1b}[0m");
}
