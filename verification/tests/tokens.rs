//! The tokenizer's token stream, observed directly.

use cli_styler::parser::{parse_style, tokenize, ParsingMode, Token};
use cli_styler::style::{Color, Style};

#[test]
fn token_stream_of_markup() {
    let toks = tokenize("pre<f r>red</>post<>", ParsingMode::Markup).unwrap();
    assert_eq!(toks.len(), 6);
    assert!(matches!(&toks[0], Token::Text(t) if t == "pre"));
    assert!(matches!(&toks[1], Token::Fmt(st) if *st == Style::new().fg(Color::Red)));
    assert!(matches!(&toks[2], Token::Text(t) if t == "red"));
    assert!(matches!(&toks[3], Token::End));
    assert!(matches!(&toks[4], Token::Text(t) if t == "post"));
    assert!(matches!(&toks[5], Token::Empty));
}

#[test]
fn command_line_style_spec() {
    assert_eq!(
        parse_style("f 0080ff# m b", ParsingMode::CommandLine).unwrap(),
        Style::new().fg_rgb(0, 128, 255).bold()
    );
    // In markup mode the marker leads instead.
    assert_eq!(
        parse_style("f #0080ff m b", ParsingMode::Markup).unwrap(),
        Style::new().fg_rgb(0, 128, 255).bold()
    );
}
