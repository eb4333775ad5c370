//! The escape compiler: exact output strings and wrapping behaviour.

use cli_styler::style::{Color, CompiledStyle, Stylable, Style, Stylize};

#[test]
fn builder_chain_exact_output() {
    let style_1 = Style::new()
        .fg_rgb(0, 255, 255)
        .bg_index(198)
        .italic()
        .overline()
        .underline();

    let style_2 = Style::new_from_cli_spec("fb r b #ABC m ilobu").unwrap();

    assert_eq!(
        style_1.style("Hello"),
        "\u{1b}[38;2;0;255;255;48;5;198;3;53;4mHello\u{1b}[0m"
    );
    assert_eq!(
        style_2.style("Hello"),
        "\u{1b}[91;48;2;170;187;204;3;21;53;1;4mHello\u{1b}[0m"
    );
}

#[test]
fn compiled_style_exact_output() {
    let warning = Style::new()
        .fg(Color::Red)
        .fg_brighten()
        .bg(Color::Yellow)
        .bg_brighten()
        .compile();

    let error = CompiledStyle::new_from_cli_spec("f #fff b 255,,").unwrap();

    assert_eq!(warning.style("Warning!!"), "\u{1b}[91;103mWarning!!\u{1b}[0m");
    assert_eq!(
        error.style("Error!!"),
        "\u{1b}[38;2;255;255;255;48;2;255;0;0mError!!\u{1b}[0m"
    );
}

#[test]
fn identity_style_is_noop() {
    assert_eq!(Style::new().style("plain text"), "plain text");
    assert_eq!(Style::new().compile().style("plain text"), "plain text");
    assert_eq!(Style::new().bold().style(""), "");
}

#[test]
fn wrapping_adds_one_prefix_and_one_reset() {
    let inner = Style::new().bold().style("middle");
    assert_eq!(inner.matches("\u{1b}[0m").count(), 1);
    assert_eq!(inner.matches('\u{1b}').count(), 2);

    let outer = Style::new().italic().style(&inner);
    assert_eq!(outer, format!("\u{1b}[3m{}\u{1b}[0m", inner));
    assert_eq!(outer.matches("\u{1b}[0m").count(), 2);
    assert_eq!(outer.matches('\u{1b}').count(), 4);
}

#[test]
fn apply_matches_style() {
    let style = Style::new().fg(Color::Green).bold();
    assert_eq!("Hi".apply(&style), style.style("Hi"));
    assert_eq!("Hi".apply(&style.compile()), style.style("Hi"));
}

#[test]
fn modifiers_repeat_without_dedup() {
    let style = Style::new().bold().bold();
    assert_eq!(style.style("x"), "\u{1b}[1;1mx\u{1b}[0m");
}

#[test]
fn reset_modifier_emits_zero_code() {
    let style = Style::new().reset();
    assert_eq!(style.style("x"), "\u{1b}[0mx\u{1b}[0m");
}

#[test]
fn hidden_and_remaining_modifiers() {
    let style = Style::new()
        .dim()
        .blink()
        .invert()
        .hidden()
        .strike();
    assert_eq!(style.style("x"), "\u{1b}[2;5;7;8;9mx\u{1b}[0m");
}

#[test]
fn compiling_preserves_application() {
    let style = Style::new().fg(Color::Blue).bold();
    let compiled = style.clone().compile();
    assert_eq!(compiled.style("abc"), style.style("abc"));
    assert_eq!(CompiledStyle::new(style.clone()).style("abc"), style.style("abc"));
}

#[test]
fn default_values() {
    assert_eq!(Style::default(), Style::new());
    assert_eq!(Color::default(), Color::White);
}
