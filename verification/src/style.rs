//! Styling terminal text with ANSI escape sequences: the color and modifier
//! vocabulary, the `Style` value, and the escape compiler that turns a style
//! into a Control Sequence Introducer payload.

use vstd::prelude::*;

use crate::error::{ParsingErrorV, StylerError, StylerErrorV};
use crate::parser::{parse_style, parse_style_spec, ParsingMode};
use crate::text::{dec_digits, push_char, push_dec_u8};

verus! {

// ---------------------------------------------------------------------------
// Escape sequence assembly
// ---------------------------------------------------------------------------

/// The reset sequence `ESC [ 0 m` that clears all formatting.
pub open spec fn reset_seq() -> Seq<char> {
    seq!['\u{1b}', '[', '0', 'm']
}

/// A Control Sequence Introducer holding the given format codes:
/// `ESC [ codes m`.
pub open spec fn csi_spec(codes: Seq<char>) -> Seq<char> {
    seq!['\u{1b}', '['] + codes + seq!['m']
}

/// Text wrapped in the given format codes and a trailing reset; empty text or
/// an empty code list leaves the text untouched.
pub open spec fn wrap_spec(text: Seq<char>, codes: Seq<char>) -> Seq<char> {
    if text.len() == 0 || codes.len() == 0 {
        text
    } else {
        csi_spec(codes) + text + reset_seq()
    }
}

/// The ANSI reset sequence as a string slice.
pub fn reset_str() -> (s: &'static str)
    ensures
        s@ == reset_seq(),
{
    proof {
        reveal_strlit("\u{1b}[0m");
        assert("\u{1b}[0m"@ =~= reset_seq());
    }
    "\u{1b}[0m"
}

/// Generates a Control Sequence Introducer with the given formats.
pub fn csi(formats: &str) -> (out: String)
    ensures
        out@ == csi_spec(formats@),
{
    let mut out = String::new();
    push_char(&mut out, '\u{1b}');
    push_char(&mut out, '[');
    out.append(formats);
    push_char(&mut out, 'm');
    proof {
        assert(out@ =~= csi_spec(formats@));
    }
    out
}

/// Wraps text with ANSI escape sequences and a reset at the end.
pub fn wrap(text: &str, formats: &str) -> (out: String)
    ensures
        out@ == wrap_spec(text@, formats@),
{
    if text.unicode_len() == 0 || formats.unicode_len() == 0 {
        return text.to_owned();
    }
    let mut out = csi(formats);
    out.append(text);
    out.append(reset_str());
    proof {
        assert(out@ =~= wrap_spec(text@, formats@));
    }
    out
}

// ---------------------------------------------------------------------------
// Joining code lists
// ---------------------------------------------------------------------------

/// The pieces joined with the separator between consecutive pieces.
pub open spec fn join_with(xs: Seq<Seq<char>>, sep: Seq<char>) -> Seq<char>
    decreases xs.len(),
{
    if xs.len() == 0 {
        Seq::empty()
    } else if xs.len() == 1 {
        xs[0]
    } else {
        xs[0] + sep + join_with(xs.subrange(1, xs.len() as int), sep)
    }
}

/// Appending one more piece extends the joined string by a separator and the
/// piece, except at the front.
pub proof fn lemma_join_with_push(xs: Seq<Seq<char>>, sep: Seq<char>, x: Seq<char>)
    ensures
        join_with(xs.push(x), sep) == if xs.len() == 0 {
            x
        } else {
            join_with(xs, sep) + sep + x
        },
    decreases xs.len(),
{
    let ys = xs.push(x);
    if xs.len() == 0 {
        assert(ys.len() == 1);
        assert(ys[0] == x);
    } else if xs.len() == 1 {
        assert(ys.subrange(1, ys.len() as int) =~= seq![x]);
        assert(join_with(ys, sep) == ys[0] + sep + join_with(seq![x], sep));
        assert(join_with(seq![x], sep) == x);
        assert(ys[0] == xs[0]);
        assert(join_with(xs, sep) == xs[0]);
    } else {
        lemma_join_with_push(xs.subrange(1, xs.len() as int), sep, x);
        assert(ys.subrange(1, ys.len() as int) =~= xs.subrange(1, xs.len() as int).push(x));
        assert(join_with(xs, sep) + sep + x == xs[0] + sep + (join_with(
            xs.subrange(1, xs.len() as int),
            sep,
        ) + sep + x)) by {
            assert((xs[0] + sep + join_with(xs.subrange(1, xs.len() as int), sep)) + sep + x
                =~= xs[0] + sep + (join_with(xs.subrange(1, xs.len() as int), sep) + sep + x));
        }
    }
}

/// Join the given strings with the separator.
pub fn join_strings(parts: &Vec<String>, sep: &str) -> (out: String)
    ensures
        out@ == join_with(parts.deep_view(), sep@),
{
    let ghost views = parts.deep_view();
    let mut out = String::new();
    let mut i: usize = 0;
    while i < parts.len()
        invariant
            i <= parts@.len(),
            views == parts.deep_view(),
            views.len() == parts@.len(),
            forall|j: int| 0 <= j < parts@.len() ==> views[j] == parts@[j]@,
            out@ == join_with(views.take(i as int), sep@),
        decreases parts@.len() - i,
    {
        if i > 0 {
            out.append(sep);
        }
        out.append(parts[i].as_str());
        proof {
            lemma_join_with_push(views.take(i as int), sep@, views[i as int]);
            assert(views.take(i as int).push(views[i as int]) =~= views.take(i + 1));
        }
        i = i + 1;
    }
    proof {
        assert(views.take(parts@.len() as int) =~= views);
    }
    out
}

// ---------------------------------------------------------------------------
// Color types
// ---------------------------------------------------------------------------

/// Color channels: foreground or background, plain or bright. The channel
/// determines the CSI introducer code and the offset added to named hues.
#[derive(Debug, Clone, Copy, PartialEq, Eq, Structural)]
pub enum ClrType {
    /// Plain foreground.
    Fg,
    /// Plain background.
    Bg,
    /// Bright foreground.
    FgBright,
    /// Bright background.
    BgBright,
}

impl ClrType {
    /// The CSI introducer code: 38 for foreground channels, 48 for background.
    pub open spec fn csi_code(self) -> u8 {
        match self {
            ClrType::Fg | ClrType::FgBright => 38,
            ClrType::Bg | ClrType::BgBright => 48,
        }
    }

    /// Get the Control Sequence Introducer code depending on the channel.
    pub fn get_csi(self) -> (r: u8)
        ensures
            r == self.csi_code(),
    {
        match self {
            ClrType::Fg | ClrType::FgBright => 38,
            ClrType::Bg | ClrType::BgBright => 48,
        }
    }

    /// The offset added to a named hue's base code for this channel.
    pub open spec fn offset_spec(self) -> u8 {
        match self {
            ClrType::Fg => 0,
            ClrType::Bg => 10,
            ClrType::FgBright => 60,
            ClrType::BgBright => 70,
        }
    }

    /// Runtime evaluation of [`ClrType::offset_spec`].
    pub fn offset(self) -> (r: u8)
        ensures
            r == self.offset_spec(),
            r <= 70,
    {
        match self {
            ClrType::Fg => 0,
            ClrType::Bg => 10,
            ClrType::FgBright => 60,
            ClrType::BgBright => 70,
        }
    }
}

/// Colors: eight named hues, an indexed palette color, or a true RGB color.
#[derive(Debug, Clone, Copy, PartialEq, Eq, Structural)]
pub enum Color {
    /// Named hue with base code 30.
    Black,
    /// Named hue with base code 31.
    Red,
    /// Named hue with base code 32.
    Green,
    /// Named hue with base code 33.
    Yellow,
    /// Named hue with base code 34.
    Blue,
    /// Named hue with base code 35.
    Magenta,
    /// Named hue with base code 36.
    Cyan,
    /// Named hue with base code 37.
    White,
    /// Indexed ANSI color (256-color mode).
    Indexed(u8),
    /// True RGB color.
    RGB(u8, u8, u8),
}

impl Color {
    /// Whether this is one of the eight named hues.
    pub open spec fn is_color_spec(self) -> bool {
        !(self is Indexed) && !(self is RGB)
    }

    /// Check whether this is a basic ANSI color.
    pub fn is_color(self) -> (r: bool)
        ensures
            r == self.is_color_spec(),
    {
        match self {
            Color::Indexed(_) => false,
            Color::RGB(_, _, _) => false,
            _ => true,
        }
    }

    /// Check whether this is an RGB color.
    pub fn is_rgb(self) -> (r: bool)
        ensures
            r == self is RGB,
    {
        match self {
            Color::RGB(_, _, _) => true,
            _ => false,
        }
    }

    /// Check whether this is an indexed ANSI color.
    pub fn is_indexed(self) -> (r: bool)
        ensures
            r == self is Indexed,
    {
        match self {
            Color::Indexed(_) => true,
            _ => false,
        }
    }

    /// The color alias table: `r`, `g`, `b`, `c`, `m`, `y`, `k`, `w`.
    pub open spec fn from_char_spec(ch: char) -> Option<Color> {
        match ch {
            'r' => Some(Color::Red),
            'g' => Some(Color::Green),
            'b' => Some(Color::Blue),
            'c' => Some(Color::Cyan),
            'm' => Some(Color::Magenta),
            'y' => Some(Color::Yellow),
            'k' => Some(Color::Black),
            'w' => Some(Color::White),
            _ => None,
        }
    }

    /// Convert a char to a [`Color`] through the alias table.
    pub fn from_char(ch: char) -> (r: Option<Color>)
        ensures
            r == Color::from_char_spec(ch),
    {
        match ch {
            'r' => Some(Color::Red),
            'g' => Some(Color::Green),
            'b' => Some(Color::Blue),
            'c' => Some(Color::Cyan),
            'm' => Some(Color::Magenta),
            'y' => Some(Color::Yellow),
            'k' => Some(Color::Black),
            'w' => Some(Color::White),
            _ => None,
        }
    }

    /// The ANSI base code of a named hue; 0 for the other variants.
    pub open spec fn to_num_spec(self) -> u8 {
        match self {
            Color::Black => 30,
            Color::Red => 31,
            Color::Green => 32,
            Color::Yellow => 33,
            Color::Blue => 34,
            Color::Magenta => 35,
            Color::Cyan => 36,
            Color::White => 37,
            _ => 0,
        }
    }

    /// Get the corresponding ANSI code for basic colors.
    pub fn to_num(self) -> (r: u8)
        ensures
            r == self.to_num_spec(),
            r <= 37,
    {
        match self {
            Color::Black => 30,
            Color::Red => 31,
            Color::Green => 32,
            Color::Yellow => 33,
            Color::Blue => 34,
            Color::Magenta => 35,
            Color::Cyan => 36,
            Color::White => 37,
            _ => 0,
        }
    }

    /// The escape payload of this color on the given channel: `38;5;i` form
    /// for indexed colors, `38;2;r;g;b` form for RGB, and the offset hue code
    /// for named hues.
    pub open spec fn format_spec(self, ct: ClrType) -> Seq<char> {
        match self {
            Color::Indexed(i) => dec_digits(ct.csi_code() as nat) + seq![';', '5', ';']
                + dec_digits(i as nat),
            Color::RGB(r, g, b) => dec_digits(ct.csi_code() as nat) + seq![';', '2', ';']
                + dec_digits(r as nat) + seq![';'] + dec_digits(g as nat) + seq![';'] + dec_digits(
                b as nat,
            ),
            _ => dec_digits((self.to_num_spec() + ct.offset_spec()) as nat),
        }
    }

    /// Format the color for the given channel into an ANSI escape payload.
    pub fn format(self, ct: ClrType) -> (out: String)
        ensures
            out@ == self.format_spec(ct),
    {
        let mut out = String::new();
        match self {
            Color::Indexed(i) => {
                push_dec_u8(&mut out, ct.get_csi());
                push_char(&mut out, ';');
                push_char(&mut out, '5');
                push_char(&mut out, ';');
                push_dec_u8(&mut out, i);
                proof {
                    assert(out@ =~= self.format_spec(ct));
                }
            },
            Color::RGB(r, g, b) => {
                push_dec_u8(&mut out, ct.get_csi());
                push_char(&mut out, ';');
                push_char(&mut out, '2');
                push_char(&mut out, ';');
                push_dec_u8(&mut out, r);
                push_char(&mut out, ';');
                push_dec_u8(&mut out, g);
                push_char(&mut out, ';');
                push_dec_u8(&mut out, b);
                proof {
                    assert(out@ =~= self.format_spec(ct));
                }
            },
            _ => {
                push_dec_u8(&mut out, self.to_num() + ct.offset());
                proof {
                    assert(out@ =~= self.format_spec(ct));
                }
            },
        }
        out
    }
}

// ---------------------------------------------------------------------------
// Modifiers
// ---------------------------------------------------------------------------

/// ANSI text modifiers, each with a fixed SGR code.
#[derive(Debug, Clone, Copy, PartialEq, Eq, Structural)]
pub enum Modifier {
    /// Clears all formatting (code 0).
    Reset,
    /// Bold (code 1).
    Bold,
    /// Dim (code 2).
    Dim,
    /// Italic (code 3).
    Italic,
    /// Underline (code 4).
    Underline,
    /// Blink (code 5).
    Blink,
    /// Swap foreground and background (code 7).
    Invert,
    /// Hide text (code 8).
    Hide,
    /// Strikethrough (code 9).
    Strike,
    /// Double underline (code 21).
    DoubleUL,
    /// Overline (code 53).
    Overline,
}

impl Modifier {
    /// The modifier alias table used by the `m` flag.
    pub open spec fn from_char_spec(ch: char) -> Option<Modifier> {
        match ch {
            'b' => Some(Modifier::Bold),
            'd' => Some(Modifier::Dim),
            'i' => Some(Modifier::Italic),
            'u' => Some(Modifier::Underline),
            'k' => Some(Modifier::Blink),
            'v' => Some(Modifier::Invert),
            'h' => Some(Modifier::Hide),
            's' => Some(Modifier::Strike),
            'l' => Some(Modifier::DoubleUL),
            'o' => Some(Modifier::Overline),
            _ => None,
        }
    }

    /// Convert a char to a [`Modifier`] through the alias table.
    pub fn from_char(ch: char) -> (r: Option<Modifier>)
        ensures
            r == Modifier::from_char_spec(ch),
    {
        match ch {
            'b' => Some(Modifier::Bold),
            'd' => Some(Modifier::Dim),
            'i' => Some(Modifier::Italic),
            'u' => Some(Modifier::Underline),
            'k' => Some(Modifier::Blink),
            'v' => Some(Modifier::Invert),
            'h' => Some(Modifier::Hide),
            's' => Some(Modifier::Strike),
            'l' => Some(Modifier::DoubleUL),
            'o' => Some(Modifier::Overline),
            _ => None,
        }
    }

    /// The SGR code of this modifier.
    pub open spec fn code_spec(self) -> u8 {
        match self {
            Modifier::Reset => 0,
            Modifier::Bold => 1,
            Modifier::Dim => 2,
            Modifier::Italic => 3,
            Modifier::Underline => 4,
            Modifier::Blink => 5,
            Modifier::Invert => 7,
            Modifier::Hide => 8,
            Modifier::Strike => 9,
            Modifier::DoubleUL => 21,
            Modifier::Overline => 53,
        }
    }

    /// Runtime evaluation of [`Modifier::code_spec`].
    pub fn code(self) -> (r: u8)
        ensures
            r == self.code_spec(),
    {
        match self {
            Modifier::Reset => 0,
            Modifier::Bold => 1,
            Modifier::Dim => 2,
            Modifier::Italic => 3,
            Modifier::Underline => 4,
            Modifier::Blink => 5,
            Modifier::Invert => 7,
            Modifier::Hide => 8,
            Modifier::Strike => 9,
            Modifier::DoubleUL => 21,
            Modifier::Overline => 53,
        }
    }
}

// ---------------------------------------------------------------------------
// Style
// ---------------------------------------------------------------------------

/// Mathematical image of a [`Style`]: the same fields with the modifier list
/// as a sequence.
#[verifier::ext_equal]
pub struct StyleV {
    /// Foreground color and channel.
    pub fg: Option<(Color, ClrType)>,
    /// Background color and channel.
    pub bg: Option<(Color, ClrType)>,
    /// Ordered modifier list.
    pub mdfs: Seq<Modifier>,
}

impl StyleV {
    /// The identity style: no colors, no modifiers.
    pub open spec fn identity() -> StyleV {
        StyleV { fg: None, bg: None, mdfs: Seq::empty() }
    }

    /// Whether this style has no effect on text.
    pub open spec fn is_identity(self) -> bool {
        self.fg is None && self.bg is None && self.mdfs.len() == 0
    }

    /// Set the foreground color, preserving an already-chosen channel.
    pub open spec fn with_fg(self, c: Color) -> StyleV {
        StyleV {
            fg: Some(
                (
                    c,
                    match self.fg {
                        Some((_, ct)) => ct,
                        None => ClrType::Fg,
                    },
                ),
            ),
            ..self
        }
    }

    /// Set the background color, preserving an already-chosen channel.
    pub open spec fn with_bg(self, c: Color) -> StyleV {
        StyleV {
            bg: Some(
                (
                    c,
                    match self.bg {
                        Some((_, ct)) => ct,
                        None => ClrType::Bg,
                    },
                ),
            ),
            ..self
        }
    }

    /// Set the foreground to an indexed color on the plain channel.
    pub open spec fn with_fg_index(self, i: u8) -> StyleV {
        StyleV { fg: Some((Color::Indexed(i), ClrType::Fg)), ..self }
    }

    /// Set the background to an indexed color on the plain channel.
    pub open spec fn with_bg_index(self, i: u8) -> StyleV {
        StyleV { bg: Some((Color::Indexed(i), ClrType::Bg)), ..self }
    }

    /// Force the bright foreground channel, keeping the color if one is set.
    pub open spec fn fg_brightened(self) -> StyleV {
        StyleV {
            fg: Some(
                (
                    match self.fg {
                        Some((c, _)) => c,
                        None => Color::White,
                    },
                    ClrType::FgBright,
                ),
            ),
            ..self
        }
    }

    /// Force the bright background channel, keeping the color if one is set.
    pub open spec fn bg_brightened(self) -> StyleV {
        StyleV {
            bg: Some(
                (
                    match self.bg {
                        Some((c, _)) => c,
                        None => Color::White,
                    },
                    ClrType::BgBright,
                ),
            ),
            ..self
        }
    }

    /// Append one modifier.
    pub open spec fn with_modifier(self, m: Modifier) -> StyleV {
        StyleV { mdfs: self.mdfs.push(m), ..self }
    }

    /// Append a list of modifiers, in order.
    pub open spec fn with_modifiers(self, ms: Seq<Modifier>) -> StyleV {
        StyleV { mdfs: self.mdfs + ms, ..self }
    }

    /// The code list of this style: foreground, then background, then each
    /// modifier code, each rendered as an escape payload piece.
    pub open spec fn items(self) -> Seq<Seq<char>> {
        (match self.fg {
            Some((c, ct)) => seq![c.format_spec(ct)],
            None => Seq::<Seq<char>>::empty(),
        }) + (match self.bg {
            Some((c, ct)) => seq![c.format_spec(ct)],
            None => Seq::<Seq<char>>::empty(),
        }) + self.mdfs.map_values(|m: Modifier| dec_digits(m.code_spec() as nat))
    }

    /// The full escape payload: the code list joined with `;`, or the empty
    /// string for the identity style.
    pub open spec fn collect(self) -> Seq<char> {
        if self.is_identity() {
            Seq::empty()
        } else {
            join_with(self.items(), seq![';'])
        }
    }
}

impl Default for Color {
    /// The default color is white.
    fn default() -> (r: Self)
        ensures
            r == Color::White,
    {
        Color::White
    }
}

impl Default for ClrType {
    /// The default channel is the plain foreground.
    fn default() -> (r: Self)
        ensures
            r == ClrType::Fg,
    {
        ClrType::Fg
    }
}

/// The core styling builder: optional foreground and background colors with
/// their channels, and an ordered modifier list.
#[derive(Debug, Clone, PartialEq, Eq)]
pub struct Style {
    /// Foreground color and channel.
    pub(crate) fg: Option<(Color, ClrType)>,
    /// Background color and channel.
    pub(crate) bg: Option<(Color, ClrType)>,
    /// Modifiers for the text.
    pub(crate) mdfs: Vec<Modifier>,
}

impl View for Style {
    type V = StyleV;

    closed spec fn view(&self) -> StyleV {
        StyleV { fg: self.fg, bg: self.bg, mdfs: self.mdfs@ }
    }
}

impl Default for Style {
    /// The default style is the identity style.
    fn default() -> (r: Self)
        ensures
            r@ == StyleV::identity(),
    {
        Style::new()
    }
}

impl Style {
    /// Creates a new, empty [`Style`].
    pub fn new() -> (r: Self)
        ensures
            r@ == StyleV::identity(),
    {
        let r = Style { fg: None, bg: None, mdfs: Vec::new() };
        proof {
            assert(r@ =~= StyleV::identity());
        }
        r
    }

    /// Set the foreground color (supports indexed and RGB colors).
    pub fn fg(self, color: Color) -> (r: Self)
        ensures
            r@ == self@.with_fg(color),
    {
        let ct = match self.fg {
            Some((_, ct)) => ct,
            None => ClrType::Fg,
        };
        let r = Style { fg: Some((color, ct)), ..self };
        proof {
            assert(r@ =~= self@.with_fg(color));
        }
        r
    }

    /// Set the background color (supports indexed and RGB colors).
    pub fn bg(self, color: Color) -> (r: Self)
        ensures
            r@ == self@.with_bg(color),
    {
        let ct = match self.bg {
            Some((_, ct)) => ct,
            None => ClrType::Bg,
        };
        let r = Style { bg: Some((color, ct)), ..self };
        proof {
            assert(r@ =~= self@.with_bg(color));
        }
        r
    }

    /// Set the foreground color as RGB.
    pub fn fg_rgb(self, r: u8, g: u8, b: u8) -> (res: Self)
        ensures
            res@ == self@.with_fg(Color::RGB(r, g, b)),
    {
        self.fg(Color::RGB(r, g, b))
    }

    /// Set the background color as RGB.
    pub fn bg_rgb(self, r: u8, g: u8, b: u8) -> (res: Self)
        ensures
            res@ == self@.with_bg(Color::RGB(r, g, b)),
    {
        self.bg(Color::RGB(r, g, b))
    }

    /// Set the foreground color as an indexed color.
    pub fn fg_index(self, i: u8) -> (r: Self)
        ensures
            r@ == self@.with_fg_index(i),
    {
        let r = Style { fg: Some((Color::Indexed(i), ClrType::Fg)), ..self };
        proof {
            assert(r@ =~= self@.with_fg_index(i));
        }
        r
    }

    /// Set the background color as an indexed color.
    pub fn bg_index(self, i: u8) -> (r: Self)
        ensures
            r@ == self@.with_bg_index(i),
    {
        let r = Style { bg: Some((Color::Indexed(i), ClrType::Bg)), ..self };
        proof {
            assert(r@ =~= self@.with_bg_index(i));
        }
        r
    }

    /// Brighten the foreground color (for named ANSI colors only).
    pub fn fg_brighten(self) -> (r: Self)
        ensures
            r@ == self@.fg_brightened(),
    {
        let clr = match self.fg {
            Some((clr, _)) => clr,
            None => Color::White,
        };
        let r = Style { fg: Some((clr, ClrType::FgBright)), ..self };
        proof {
            assert(r@ =~= self@.fg_brightened());
        }
        r
    }

    /// Brighten the background color (for named ANSI colors only).
    pub fn bg_brighten(self) -> (r: Self)
        ensures
            r@ == self@.bg_brightened(),
    {
        let clr = match self.bg {
            Some((clr, _)) => clr,
            None => Color::White,
        };
        let r = Style { bg: Some((clr, ClrType::BgBright)), ..self };
        proof {
            assert(r@ =~= self@.bg_brightened());
        }
        r
    }

    /// Apply bold styling.
    pub fn bold(self) -> (r: Self)
        ensures
            r@ == self@.with_modifier(Modifier::Bold),
    {
        self.insert_modifier(Modifier::Bold)
    }

    /// Apply dim styling.
    pub fn dim(self) -> (r: Self)
        ensures
            r@ == self@.with_modifier(Modifier::Dim),
    {
        self.insert_modifier(Modifier::Dim)
    }

    /// Apply italic styling.
    pub fn italic(self) -> (r: Self)
        ensures
            r@ == self@.with_modifier(Modifier::Italic),
    {
        self.insert_modifier(Modifier::Italic)
    }

    /// Apply underline styling.
    pub fn underline(self) -> (r: Self)
        ensures
            r@ == self@.with_modifier(Modifier::Underline),
    {
        self.insert_modifier(Modifier::Underline)
    }

    /// Apply blink styling.
    pub fn blink(self) -> (r: Self)
        ensures
            r@ == self@.with_modifier(Modifier::Blink),
    {
        self.insert_modifier(Modifier::Blink)
    }

    /// Swap foreground and background colors.
    pub fn invert(self) -> (r: Self)
        ensures
            r@ == self@.with_modifier(Modifier::Invert),
    {
        self.insert_modifier(Modifier::Invert)
    }

    /// Hide text (revealed when selected).
    pub fn hidden(self) -> (r: Self)
        ensures
            r@ == self@.with_modifier(Modifier::Hide),
    {
        self.insert_modifier(Modifier::Hide)
    }

    /// Apply strikethrough styling.
    pub fn strike(self) -> (r: Self)
        ensures
            r@ == self@.with_modifier(Modifier::Strike),
    {
        self.insert_modifier(Modifier::Strike)
    }

    /// Apply double underline styling.
    pub fn double_ul(self) -> (r: Self)
        ensures
            r@ == self@.with_modifier(Modifier::DoubleUL),
    {
        self.insert_modifier(Modifier::DoubleUL)
    }

    /// Apply overline styling.
    pub fn overline(self) -> (r: Self)
        ensures
            r@ == self@.with_modifier(Modifier::Overline),
    {
        self.insert_modifier(Modifier::Overline)
    }

    /// Reset all styling.
    pub fn reset(self) -> (r: Self)
        ensures
            r@ == self@.with_modifier(Modifier::Reset),
    {
        self.insert_modifier(Modifier::Reset)
    }

    /// Checks whether a `Style` has any effect on text or not.
    pub fn is_empty(&self) -> (r: bool)
        ensures
            r == self@.is_identity(),
    {
        if self.fg.is_some() {
            return false;
        }
        if self.bg.is_some() {
            return false;
        }
        if self.mdfs.len() != 0 {
            return false;
        }
        true
    }

    /// Append one modifier to the style's modifier list.
    pub fn insert_modifier(self, mdf: Modifier) -> (r: Self)
        ensures
            r@ == self@.with_modifier(mdf),
    {
        let mut s = self;
        s.mdfs.push(mdf);
        proof {
            assert(s@ =~= self@.with_modifier(mdf));
        }
        s
    }

    /// Append each modifier of the list, in order.
    pub fn append_modifiers(self, ms: &Vec<Modifier>) -> (r: Self)
        ensures
            r@ == self@.with_modifiers(ms@),
    {
        let mut s = self;
        let mut i: usize = 0;
        while i < ms.len()
            invariant
                i <= ms@.len(),
                s@ == self@.with_modifiers(ms@.take(i as int)),
            decreases ms@.len() - i,
        {
            s.mdfs.push(ms[i]);
            proof {
                assert(s@ =~= self@.with_modifiers(ms@.take(i + 1))) by {
                    assert(self@.mdfs + ms@.take(i as int).push(ms@[i as int]) =~= self@.mdfs
                        + ms@.take(i + 1));
                }
            }
            i = i + 1;
        }
        proof {
            assert(ms@.take(ms@.len() as int) =~= ms@);
            assert(s@ =~= self@.with_modifiers(ms@));
        }
        s
    }

    /// Collect the style into its ANSI escape payload string.
    pub fn collect(&self) -> (out: String)
        ensures
            out@ == self@.collect(),
    {
        if self.is_empty() {
            return String::new();
        }
        let mut parts: Vec<String> = Vec::new();
        if let Some((fgclr, ct)) = self.fg {
            parts.push(fgclr.format(ct));
        }
        if let Some((bgclr, ct)) = self.bg {
            parts.push(bgclr.format(ct));
        }
        let ghost head = parts.deep_view();
        proof {
            assert(head =~= self@.items().take(head.len() as int));
        }
        let mut i: usize = 0;
        while i < self.mdfs.len()
            invariant
                i <= self.mdfs@.len(),
                parts.deep_view() =~= self@.items().take(head.len() + i),
                head.len() + self.mdfs@.len() == self@.items().len(),
                self@ == (StyleV { fg: self.fg, bg: self.bg, mdfs: self.mdfs@ }),
            decreases self.mdfs@.len() - i,
        {
            let mut s = String::new();
            push_dec_u8(&mut s, self.mdfs[i].code());
            proof {
                assert(s@ =~= dec_digits(self.mdfs@[i as int].code_spec() as nat));
            }
            let ghost pre = parts.deep_view();
            parts.push(s);
            proof {
                let k = (head.len() + i) as int;
                let mapped = self@.mdfs.map_values(
                    |m: Modifier| dec_digits(m.code_spec() as nat),
                );
                assert(mapped[i as int] == dec_digits(self.mdfs@[i as int].code_spec() as nat));
                assert(self@.items().len() == head.len() + mapped.len());
                assert(self@.items()[k] == mapped[i as int]);
                assert(pre.len() == k);
                assert forall|j: int| 0 <= j <= k implies parts.deep_view()[j] == self@.items()[j]
                by {
                    if j < k {
                        assert(parts.deep_view()[j] == pre[j]);
                        assert(pre[j] == self@.items().take(k)[j]);
                    } else {
                        assert(parts.deep_view()[j] == s@);
                    }
                }
                assert(parts.deep_view() =~= self@.items().take(k + 1));
            }
            i = i + 1;
        }
        proof {
            assert(self@.items().take(self@.items().len() as int) =~= self@.items());
        }
        let out = join_strings(&parts, ";");
        proof {
            reveal_strlit(";");
            assert(";"@ =~= seq![';']);
        }
        out
    }

    /// Compile this style into a [`CompiledStyle`] for efficient reuse.
    pub fn compile(&self) -> (r: CompiledStyle)
        ensures
            r@ == self@.collect(),
    {
        CompiledStyle(self.collect())
    }
}

// ---------------------------------------------------------------------------
// Applying styles
// ---------------------------------------------------------------------------

/// Provides the `.style()` method for [`Style`] and [`CompiledStyle`].
pub trait Stylable {
    /// The compiled escape payload this value wraps text with.
    spec fn payload(&self) -> Seq<char>;

    /// Apply this style to the provided text.
    fn style(&self, text: &str) -> (out: String)
        ensures
            out@ == wrap_spec(text@, self.payload()),
    ;
}

impl Stylable for Style {
    open spec fn payload(&self) -> Seq<char> {
        self@.collect()
    }

    fn style(&self, text: &str) -> (out: String) {
        let codes = self.collect();
        wrap(text, codes.as_str())
    }
}

impl Stylable for CompiledStyle {
    open spec fn payload(&self) -> Seq<char> {
        self@
    }

    fn style(&self, text: &str) -> (out: String) {
        wrap(text, self.0.as_str())
    }
}

/// Trait for easily applying styles to strings.
pub trait Stylize where Self: View<V = Seq<char>> {
    /// Apply a style to this string.
    fn apply<S: Stylable>(&self, with: &S) -> (out: String)
        ensures
            out@ == wrap_spec(self@, with.payload()),
    ;
}

impl Stylize for str {
    fn apply<S: Stylable>(&self, with: &S) -> (out: String) {
        with.style(self)
    }
}

/// A pre-compiled style for efficient repeated use: the escape payload string
/// derived once from a [`Style`].
#[derive(Debug, PartialEq, Eq)]
pub struct CompiledStyle(pub(crate) String);

impl View for CompiledStyle {
    type V = Seq<char>;

    closed spec fn view(&self) -> Seq<char> {
        self.0@
    }
}

impl CompiledStyle {
    /// Constructs a new [`CompiledStyle`] from a [`Style`].
    pub fn new(style: Style) -> (r: Self)
        ensures
            r@ == style@.collect(),
    {
        style.compile()
    }
}

// ---------------------------------------------------------------------------
// Parsing entry points and batch styling
// ---------------------------------------------------------------------------

impl Style {
    /// Constructs a new [`Style`] from the provided spec.
    pub fn new_from_cli_spec(style_spec: &str) -> (r: Result<Self, StylerError>)
        ensures
            r is Ok <==> parse_style_spec(style_spec@, false) is Ok,
            r matches Ok(st) ==> st@ == parse_style_spec(style_spec@, false)->Ok_0,
            r matches Err(e) ==> e@ == StylerErrorV::ParsingError(
                parse_style_spec(style_spec@, false)->Err_0,
            ),
    {
        match parse_style(style_spec, ParsingMode::Markup) {
            Ok(style) => Ok(style),
            Err(err) => Err(StylerError::ParsingError(err)),
        }
    }
}

impl CompiledStyle {
    /// Constructs a new [`CompiledStyle`] from the provided spec.
    pub fn new_from_cli_spec(style_spec: &str) -> (r: Result<Self, StylerError>)
        ensures
            r is Ok <==> parse_style_spec(style_spec@, false) is Ok,
            r matches Ok(cs) ==> cs@ == parse_style_spec(style_spec@, false)->Ok_0.collect(),
            r matches Err(e) ==> e@ == StylerErrorV::ParsingError(
                parse_style_spec(style_spec@, false)->Err_0,
            ),
    {
        match Style::new_from_cli_spec(style_spec) {
            Ok(style) => Ok(style.compile()),
            Err(err) => Err(err),
        }
    }
}

/// Bundles a text and the style spec that will be applied to it.
#[derive(Debug)]
pub struct Part {
    /// Text to which the spec is applied.
    pub text: String,
    /// The style spec applied to the text.
    pub style_spec: String,
}

impl Default for Part {
    /// An empty part: empty text under the empty spec.
    fn default() -> (r: Self)
        ensures
            r.text@ == Seq::<char>::empty(),
            r.style_spec@ == Seq::<char>::empty(),
    {
        Part { text: String::new(), style_spec: String::new() }
    }
}

/// One part styled: its spec parsed and its text wrapped in the result.
pub open spec fn part_styled(text: Seq<char>, sp: Seq<char>) -> Result<Seq<char>, ParsingErrorV> {
    match parse_style_spec(sp, false) {
        Ok(sv) => Ok(wrap_spec(text, sv.collect())),
        Err(e) => Err(e),
    }
}

impl Part {
    /// Parses this part's spec and styles its text.
    pub fn style(&self) -> (r: Result<String, StylerError>)
        ensures
            r is Ok <==> part_styled(self.text@, self.style_spec@) is Ok,
            r matches Ok(out) ==> out@ == part_styled(self.text@, self.style_spec@)->Ok_0,
            r matches Err(e) ==> e@ == StylerErrorV::ParsingError(
                part_styled(self.text@, self.style_spec@)->Err_0,
            ),
    {
        match Style::new_from_cli_spec(self.style_spec.as_str()) {
            Ok(st) => Ok(st.style(self.text.as_str())),
            Err(e) => Err(e),
        }
    }
}

/// The styled fragments of the parts from index `i` on, or the first failure,
/// wrapped with its index.
pub open spec fn styled_from(ps: Seq<(Seq<char>, Seq<char>)>, i: int) -> Result<
    Seq<Seq<char>>,
    StylerErrorV,
>
    decreases ps.len() - i,
{
    if i < 0 || i >= ps.len() {
        Ok(Seq::empty())
    } else {
        match part_styled(ps[i].0, ps[i].1) {
            Err(e) => Err(
                StylerErrorV::BatchError(i as nat, Box::new(StylerErrorV::ParsingError(e))),
            ),
            Ok(s) => match styled_from(ps, i + 1) {
                Ok(rest) => Ok(seq![s] + rest),
                Err(e2) => Err(e2),
            },
        }
    }
}

/// A builder for creating complex styled text with multiple segments.
#[derive(Debug)]
pub struct BatchStyler {
    /// The collected parts, in order.
    parts: Vec<Part>,
}

impl View for BatchStyler {
    type V = Seq<(Seq<char>, Seq<char>)>;

    closed spec fn view(&self) -> Seq<(Seq<char>, Seq<char>)> {
        Seq::new(self.parts@.len(), |i: int| (self.parts@[i].text@, self.parts@[i].style_spec@))
    }
}

impl Default for BatchStyler {
    /// An empty batch.
    fn default() -> (r: Self)
        ensures
            r@ == Seq::<(Seq<char>, Seq<char>)>::empty(),
    {
        BatchStyler::new()
    }
}

impl BatchStyler {
    /// Create a new, empty [`BatchStyler`].
    pub fn new() -> (r: Self)
        ensures
            r@ == Seq::<(Seq<char>, Seq<char>)>::empty(),
    {
        let r = BatchStyler { parts: Vec::new() };
        proof {
            assert(r@ =~= Seq::<(Seq<char>, Seq<char>)>::empty());
        }
        r
    }

    /// Append a text and the spec that will style it.
    pub fn push(self, text: &str, style_spec: &str) -> (r: Self)
        ensures
            r@ == self@.push((text@, style_spec@)),
    {
        let mut s = self;
        s.parts.push(Part { text: text.to_owned(), style_spec: style_spec.to_owned() });
        proof {
            assert(s@ =~= self@.push((text@, style_spec@)));
        }
        s
    }

    /// Collects all parts of the styler and returns one string.
    pub fn build(self) -> (r: Result<String, StylerError>)
        ensures
            r is Ok <==> styled_from(self@, 0) is Ok,
            r matches Ok(out) ==> out@ == join_with(styled_from(self@, 0)->Ok_0, Seq::empty()),
            r matches Err(e) ==> e@ == styled_from(self@, 0)->Err_0,
    {
        match self.collect() {
            Ok(v) => {
                let out = join_strings(&v, "");
                proof {
                    reveal_strlit("");
                    assert(""@ =~= Seq::<char>::empty());
                }
                Ok(out)
            },
            Err(e) => Err(e),
        }
    }

    /// Collects all parts of the styler, joined with the provided separator.
    pub fn build_with_separator(self, sep: &str) -> (r: Result<String, StylerError>)
        ensures
            r is Ok <==> styled_from(self@, 0) is Ok,
            r matches Ok(out) ==> out@ == join_with(styled_from(self@, 0)->Ok_0, sep@),
            r matches Err(e) ==> e@ == styled_from(self@, 0)->Err_0,
    {
        match self.collect() {
            Ok(v) => Ok(join_strings(&v, sep)),
            Err(e) => Err(e),
        }
    }

    /// Style every part, or report the index of the first part that fails.
    #[verifier::rlimit(100)]
    pub fn collect(self) -> (r: Result<Vec<String>, StylerError>)
        ensures
            r is Ok <==> styled_from(self@, 0) is Ok,
            r matches Ok(v) ==> v.deep_view() == styled_from(self@, 0)->Ok_0,
            r matches Err(e) ==> e@ == styled_from(self@, 0)->Err_0,
    {
        let ghost pv = self@;
        let parts = self.parts;
        proof {
            assert(pv.len() == parts@.len());
        }
        let mut out: Vec<String> = Vec::new();
        let mut i: usize = 0;
        proof {
            if styled_from(pv, 0) is Ok {
                assert(Seq::<Seq<char>>::empty() + styled_from(pv, 0)->Ok_0 =~= styled_from(
                    pv,
                    0,
                )->Ok_0);
            }
        }
        while i < parts.len()
            invariant
                pv == self@,
                i <= parts@.len(),
                pv.len() == parts@.len(),
                forall|k: int| 0 <= k < parts@.len() ==> pv[k] == (
                    parts@[k].text@,
                    parts@[k].style_spec@,
                ),
                styled_from(pv, 0) == match styled_from(pv, i as int) {
                    Ok(rest) => Ok::<Seq<Seq<char>>, StylerErrorV>(out.deep_view() + rest),
                    Err(e) => Err(e),
                },
            decreases parts@.len() - i,
        {
            match parts[i].style() {
                Ok(s) => {
                    let ghost pre = out.deep_view();
                    let ghost sview = s@;
                    out.push(s);
                    proof {
                        assert forall|j: int| 0 <= j < pre.len() implies out.deep_view()[j]
                            == pre[j] by {}
                        assert(out.deep_view() =~= pre.push(sview));
                        let tail = styled_from(pv, i + 1);
                        if tail is Ok {
                            assert(pre.push(sview) + tail->Ok_0 =~= pre + (seq![sview]
                                + tail->Ok_0));
                        }
                    }
                },
                Err(e) => {
                    let ghost ev = e@;
                    let r = StylerError::BatchError(i, Box::new(e));
                    proof {
                        assert(r@ == StylerErrorV::BatchError(i as nat, Box::new(ev)));
                    }
                    return Err(r);
                },
            }
            i = i + 1;
        }
        proof {
            if styled_from(pv, parts@.len() as int) is Ok {
                assert(out.deep_view() + Seq::<Seq<char>>::empty() =~= out.deep_view());
            }
        }
        Ok(out)
    }
}

} // verus!
