//! The batch styler: sequencing several styled segments.

use cli_styler::error::{ParsingError, StylerError};
use cli_styler::style::BatchStyler;

#[test]
fn batch_build_concatenates() {
    let out = BatchStyler::new()
        .push("red", "f r")
        .push("plain", "")
        .build()
        .unwrap();
    assert_eq!(out, "\u{1b}[31mred\u{1b}[0mplain");
}

#[test]
fn batch_build_with_separator() {
    let out = BatchStyler::new()
        .push("a", "m b")
        .push("b", "m i")
        .build_with_separator(" | ")
        .unwrap();
    assert_eq!(out, "\u{1b}[1ma\u{1b}[0m | \u{1b}[3mb\u{1b}[0m");
}

#[test]
fn batch_error_carries_index() {
    let result = BatchStyler::new()
        .push("fine", "f r")
        .push("broken", "zz y")
        .build();
    match result {
        Err(StylerError::BatchError(i, inner)) => {
            assert_eq!(i, 1);
            assert!(matches!(
                *inner,
                StylerError::ParsingError(ParsingError::InvalidParamName(_))
            ));
        },
        other => panic!("expected a batch error, got {:?}", other),
    }
}
