//! Error scenarios of the style-spec and color grammars, and the
//! argument-count boundary.

use cli_styler::error::{ParsingError, StylerError};
use cli_styler::parser::{parse_color, parse_modfiers, ParsingMode};
use cli_styler::style::{Color, Modifier, Style};

#[test]
fn invalid_parameter_name() {
    match Style::new_from_cli_spec("z x") {
        Err(StylerError::ParsingError(ParsingError::InvalidParamName(s))) => assert_eq!(s, "z"),
        other => panic!("expected an invalid-parameter error, got {:?}", other),
    }
}

#[test]
fn odd_argument_count_is_missing_value() {
    assert!(matches!(
        Style::new_from_cli_spec("f"),
        Err(StylerError::ParsingError(ParsingError::MissingParamVal(_)))
    ));
}

#[test]
fn invalid_hex_length() {
    match Style::new_from_cli_spec("f #1234") {
        Err(StylerError::ParsingError(ParsingError::InvalidHexClr(body, len))) => {
            assert_eq!(body, "1234");
            assert_eq!(len, 4);
        },
        other => panic!("expected an invalid-hex-length error, got {:?}", other),
    }
}

#[test]
fn invalid_hex_component() {
    assert!(matches!(
        Style::new_from_cli_spec("f #zzz"),
        Err(StylerError::ParsingError(ParsingError::InvalidHexComp('r', _)))
    ));
}

#[test]
fn invalid_modifier_character() {
    assert!(matches!(
        Style::new_from_cli_spec("m q"),
        Err(StylerError::ParsingError(ParsingError::InvalidModifier('q')))
    ));
}

#[test]
fn invalid_color_alias() {
    match Style::new_from_cli_spec("f z") {
        Err(StylerError::ParsingError(ParsingError::InvalidClrSpec(s))) => assert_eq!(s, "z"),
        other => panic!("expected an invalid-alias error, got {:?}", other),
    }
}

#[test]
fn unknown_color_format() {
    assert!(matches!(
        Style::new_from_cli_spec("f 1,2"),
        Err(StylerError::ParsingError(ParsingError::UnknownClrFmt(_)))
    ));
}

#[test]
fn six_tokens_pass_seven_fail() {
    assert!(Style::new_from_cli_spec("f r b g m b").is_ok());
    match Style::new_from_cli_spec("f r b g m b x") {
        Err(StylerError::ParsingError(ParsingError::TooManyArgs(_, n))) => assert_eq!(n, 7),
        other => panic!("expected a too-many-arguments error, got {:?}", other),
    }
    // The boundary holds regardless of content: even all-garbage tokens.
    assert!(matches!(
        Style::new_from_cli_spec("q w e r t y u"),
        Err(StylerError::ParsingError(ParsingError::TooManyArgs(_, _)))
    ));
}

#[test]
fn color_grammar_forms() {
    assert_eq!(parse_color("r", ParsingMode::Markup).unwrap(), Color::Red);
    assert_eq!(parse_color("200", ParsingMode::Markup).unwrap(), Color::Indexed(200));
    assert_eq!(
        parse_color("#0080FF", ParsingMode::Markup).unwrap(),
        Color::RGB(0, 128, 255)
    );
    assert_eq!(
        parse_color("0080FF#", ParsingMode::CommandLine).unwrap(),
        Color::RGB(0, 128, 255)
    );
    assert_eq!(
        parse_color(",128,255", ParsingMode::Markup).unwrap(),
        Color::RGB(0, 128, 255)
    );
    // Lenient comma grammar: unparsable components default to 0.
    assert_eq!(
        parse_color(",128,", ParsingMode::Markup).unwrap(),
        Color::RGB(0, 128, 0)
    );
    assert_eq!(
        parse_color("300,0,0", ParsingMode::Markup).unwrap(),
        Color::RGB(0, 0, 0)
    );
}

#[test]
fn modifier_alias_table() {
    assert_eq!(
        parse_modfiers("bdiukvhslo").unwrap(),
        vec![
            Modifier::Bold,
            Modifier::Dim,
            Modifier::Italic,
            Modifier::Underline,
            Modifier::Blink,
            Modifier::Invert,
            Modifier::Hide,
            Modifier::Strike,
            Modifier::DoubleUL,
            Modifier::Overline,
        ]
    );
    assert!(matches!(
        parse_modfiers("bq"),
        Err(ParsingError::InvalidModifier('q'))
    ));
}

#[test]
fn color_helpers() {
    assert!(Color::Red.is_color());
    assert!(!Color::Indexed(7).is_color());
    assert!(Color::RGB(1, 2, 3).is_rgb());
    assert!(Color::Indexed(7).is_indexed());
    assert_eq!(Color::from_char('m'), Some(Color::Magenta));
    assert_eq!(Color::from_char('x'), None);
    assert_eq!(Modifier::from_char('l'), Some(Modifier::DoubleUL));
    assert_eq!(Modifier::from_char('q'), None);
}
