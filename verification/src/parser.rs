//! The grammar layer: the style-spec parser, the color sub-grammar, the
//! modifier parser, and the markup tokenizer.

use vstd::prelude::*;

use crate::error::{ParsingError, ParsingErrorV};
use crate::style::{Color, Modifier, Style, StyleV};
use crate::text::{
    chars_string, hex_digit, hex_digit_val, is_digit, is_digit_char, is_hex, is_hex_char, is_space,
    is_space_char, is_u8_str, lower_seq, parse_u8, push_char, str_chars, to_lower, trim, trim_seq,
    u8_val,
};

verus! {

/// Defines the parsing mode: it places the hex marker (`#` leads in markup
/// mode, trails in command-line mode).
#[derive(Debug, Clone, Copy, PartialEq, Eq, Structural)]
pub enum ParsingMode {
    /// Markup mode.
    Markup,
    /// Command-line mode.
    CommandLine,
}

// ---------------------------------------------------------------------------
// Whitespace and comma splitting
// ---------------------------------------------------------------------------

/// One step of whitespace splitting: the pending run `cur` is flushed at each
/// whitespace character and at the end of input; empty runs are dropped.
pub open spec fn split_ws_from(s: Seq<char>, cur: Seq<char>) -> Seq<Seq<char>>
    decreases s.len(),
{
    if s.len() == 0 {
        if cur.len() > 0 {
            seq![cur]
        } else {
            Seq::empty()
        }
    } else if is_space_char(s[0]) {
        (if cur.len() > 0 {
            seq![cur]
        } else {
            Seq::<Seq<char>>::empty()
        }) + split_ws_from(s.subrange(1, s.len() as int), Seq::empty())
    } else {
        split_ws_from(s.subrange(1, s.len() as int), cur.push(s[0]))
    }
}

/// The maximal whitespace-free runs of `s`, in order.
pub open spec fn split_ws(s: Seq<char>) -> Seq<Seq<char>> {
    split_ws_from(s, Seq::empty())
}

/// Split a character slice on ASCII whitespace.
pub fn split_whitespace_chars(v: &[char]) -> (r: Vec<Vec<char>>)
    ensures
        r.deep_view() == split_ws(v@),
{
    let mut r: Vec<Vec<char>> = Vec::new();
    let mut cur: Vec<char> = Vec::new();
    let mut i: usize = 0;
    proof {
        assert(v@.subrange(0, v@.len() as int) =~= v@);
        assert(r.deep_view() =~= Seq::<Seq<char>>::empty());
        assert(Seq::<Seq<char>>::empty() + split_ws_from(v@, Seq::empty()) =~= split_ws_from(
            v@,
            Seq::empty(),
        ));
    }
    while i < v.len()
        invariant
            i <= v@.len(),
            split_ws(v@) == r.deep_view() + split_ws_from(
                v@.subrange(i as int, v@.len() as int),
                cur@,
            ),
        decreases v@.len() - i,
    {
        let ghost rest = v@.subrange(i as int, v@.len() as int);
        let ghost rest1 = v@.subrange(i + 1, v@.len() as int);
        proof {
            assert(rest.subrange(1, rest.len() as int) =~= rest1);
            assert(rest[0] == v@[i as int]);
        }
        if is_space(v[i]) {
            if cur.len() > 0 {
                let ghost pre = r.deep_view();
                let ghost flushed = cur@;
                r.push(cur);
                cur = Vec::new();
                proof {
                    assert forall|j: int| 0 <= j < pre.len() implies r.deep_view()[j] == pre[j]
                    by {}
                    assert(r.deep_view()[pre.len() as int] =~= flushed);
                    assert(r.deep_view() =~= pre.push(flushed));
                    assert(pre.push(flushed) + split_ws_from(rest1, Seq::empty()) =~= pre + (seq![
                        flushed,
                    ] + split_ws_from(rest1, Seq::empty())));
                }
            } else {
                proof {
                    assert(cur@ =~= Seq::<char>::empty());
                    assert(Seq::<Seq<char>>::empty() + split_ws_from(rest1, Seq::empty())
                        =~= split_ws_from(rest1, Seq::empty()));
                }
            }
        } else {
            cur.push(v[i]);
        }
        i = i + 1;
    }
    proof {
        assert(v@.subrange(i as int, v@.len() as int) =~= Seq::<char>::empty());
    }
    if cur.len() > 0 {
        let ghost pre = r.deep_view();
        let ghost flushed = cur@;
        r.push(cur);
        proof {
            assert forall|j: int| 0 <= j < pre.len() implies r.deep_view()[j] == pre[j] by {}
            assert(r.deep_view()[pre.len() as int] =~= flushed);
            assert(r.deep_view() =~= pre.push(flushed));
            assert(pre.push(flushed) =~= pre + seq![flushed]);
        }
    } else {
        proof {
            assert(r.deep_view() + Seq::<Seq<char>>::empty() =~= r.deep_view());
        }
    }
    r
}

/// One step of comma splitting: the pending run is flushed at each comma and
/// at the end of input; empty runs are kept, so there is always at least one
/// part.
pub open spec fn split_comma_from(s: Seq<char>, cur: Seq<char>) -> Seq<Seq<char>>
    decreases s.len(),
{
    if s.len() == 0 {
        seq![cur]
    } else if s[0] == ',' {
        seq![cur] + split_comma_from(s.subrange(1, s.len() as int), Seq::empty())
    } else {
        split_comma_from(s.subrange(1, s.len() as int), cur.push(s[0]))
    }
}

/// The parts of `s` between commas, in order.
pub open spec fn split_comma(s: Seq<char>) -> Seq<Seq<char>> {
    split_comma_from(s, Seq::empty())
}

/// Split a character slice on commas.
pub fn split_comma_chars(v: &[char]) -> (r: Vec<Vec<char>>)
    ensures
        r.deep_view() == split_comma(v@),
{
    let mut r: Vec<Vec<char>> = Vec::new();
    let mut cur: Vec<char> = Vec::new();
    let mut i: usize = 0;
    proof {
        assert(v@.subrange(0, v@.len() as int) =~= v@);
        assert(r.deep_view() =~= Seq::<Seq<char>>::empty());
        assert(Seq::<Seq<char>>::empty() + split_comma_from(v@, Seq::empty()) =~= split_comma_from(
            v@,
            Seq::empty(),
        ));
    }
    while i < v.len()
        invariant
            i <= v@.len(),
            split_comma(v@) == r.deep_view() + split_comma_from(
                v@.subrange(i as int, v@.len() as int),
                cur@,
            ),
        decreases v@.len() - i,
    {
        let ghost rest = v@.subrange(i as int, v@.len() as int);
        let ghost rest1 = v@.subrange(i + 1, v@.len() as int);
        proof {
            assert(rest.subrange(1, rest.len() as int) =~= rest1);
            assert(rest[0] == v@[i as int]);
        }
        if v[i] == ',' {
            let ghost pre = r.deep_view();
            let ghost flushed = cur@;
            r.push(cur);
            cur = Vec::new();
            proof {
                assert forall|j: int| 0 <= j < pre.len() implies r.deep_view()[j] == pre[j] by {}
                assert(r.deep_view()[pre.len() as int] =~= flushed);
                assert(r.deep_view() =~= pre.push(flushed));
                assert(pre.push(flushed) + split_comma_from(rest1, Seq::empty()) =~= pre + (seq![
                    flushed,
                ] + split_comma_from(rest1, Seq::empty())));
            }
        } else {
            cur.push(v[i]);
        }
        i = i + 1;
    }
    proof {
        assert(v@.subrange(i as int, v@.len() as int) =~= Seq::<char>::empty());
    }
    let ghost pre = r.deep_view();
    let ghost flushed = cur@;
    r.push(cur);
    proof {
        assert forall|j: int| 0 <= j < pre.len() implies r.deep_view()[j] == pre[j] by {}
        assert(r.deep_view()[pre.len() as int] =~= flushed);
        assert(r.deep_view() =~= pre.push(flushed));
        assert(pre.push(flushed) =~= pre + seq![flushed]);
    }
    r
}

// ---------------------------------------------------------------------------
// Modifier parsing
// ---------------------------------------------------------------------------

/// The modifier list named by `s`, or the first character outside the
/// modifier alphabet.
pub open spec fn parse_modfiers_spec(s: Seq<char>) -> Result<Seq<Modifier>, ParsingErrorV>
    decreases s.len(),
{
    if s.len() == 0 {
        Ok(Seq::empty())
    } else {
        match Modifier::from_char_spec(s[0]) {
            None => Err(ParsingErrorV::InvalidModifier(s[0])),
            Some(m) => match parse_modfiers_spec(s.subrange(1, s.len() as int)) {
                Ok(rest) => Ok(seq![m] + rest),
                Err(e) => Err(e),
            },
        }
    }
}

/// Parse the modifiers of an `m` flag's value from a character slice.
pub fn parse_modfiers_chars(v: &[char]) -> (r: Result<Vec<Modifier>, ParsingError>)
    ensures
        r is Ok <==> parse_modfiers_spec(v@) is Ok,
        r matches Ok(ms) ==> ms@ == parse_modfiers_spec(v@)->Ok_0,
        r matches Err(e) ==> e@ == parse_modfiers_spec(v@)->Err_0,
{
    let mut out: Vec<Modifier> = Vec::new();
    let mut i: usize = 0;
    proof {
        assert(v@.subrange(0, v@.len() as int) =~= v@);
        if parse_modfiers_spec(v@) is Ok {
            assert(Seq::<Modifier>::empty() + parse_modfiers_spec(v@)->Ok_0
                =~= parse_modfiers_spec(v@)->Ok_0);
        }
    }
    while i < v.len()
        invariant
            i <= v@.len(),
            parse_modfiers_spec(v@) == match parse_modfiers_spec(
                v@.subrange(i as int, v@.len() as int),
            ) {
                Ok(rest) => Ok::<Seq<Modifier>, ParsingErrorV>(out@ + rest),
                Err(e) => Err(e),
            },
        decreases v@.len() - i,
    {
        let ghost rest = v@.subrange(i as int, v@.len() as int);
        proof {
            assert(rest.subrange(1, rest.len() as int) =~= v@.subrange(i + 1, v@.len() as int));
            assert(rest[0] == v@[i as int]);
        }
        match Modifier::from_char(v[i]) {
            None => {
                return Err(ParsingError::InvalidModifier(v[i]));
            },
            Some(m) => {
                let ghost pre_out = out@;
                out.push(m);
                proof {
                    let tail = v@.subrange(i + 1, v@.len() as int);
                    if parse_modfiers_spec(tail) is Ok {
                        assert(pre_out.push(m) + parse_modfiers_spec(tail)->Ok_0 =~= pre_out + (
                        seq![m] + parse_modfiers_spec(tail)->Ok_0));
                    }
                }
            },
        }
        i = i + 1;
    }
    proof {
        assert(v@.subrange(i as int, v@.len() as int) =~= Seq::<char>::empty());
        assert(out@ + Seq::<Modifier>::empty() =~= out@);
    }
    Ok(out)
}

// ---------------------------------------------------------------------------
// Color parsing
// ---------------------------------------------------------------------------

/// The value of a two-character hex component, as `u8::from_str_radix` with
/// radix 16 reads it: two hex digits, or a `+` sign followed by one.
pub open spec fn hex_pair_val(c0: char, c1: char) -> Option<u8> {
    if is_hex_char(c0) && is_hex_char(c1) {
        Some((16 * hex_digit_val(c0) + hex_digit_val(c1)) as u8)
    } else if c0 == '+' && is_hex_char(c1) {
        Some(hex_digit_val(c1) as u8)
    } else {
        None
    }
}

/// Runtime evaluation of [`hex_pair_val`].
pub fn hex_pair(c0: char, c1: char) -> (r: Option<u8>)
    ensures
        r == hex_pair_val(c0, c1),
{
    if is_hex(c0) && is_hex(c1) {
        Some(16 * hex_digit(c0) + hex_digit(c1))
    } else if c0 == '+' && is_hex(c1) {
        Some(hex_digit(c1))
    } else {
        None
    }
}

/// A hex body of length 2 is repeated three times, one of length 3 has each
/// digit doubled, one of length 6 stands as it is.
pub open spec fn expand_hex(body: Seq<char>) -> Seq<char>
    recommends
        body.len() == 2 || body.len() == 3 || body.len() == 6,
{
    if body.len() == 2 {
        body + body + body
    } else if body.len() == 3 {
        seq![body[0], body[0], body[1], body[1], body[2], body[2]]
    } else {
        body
    }
}

/// The color named by a hex body (without its marker): the expanded six
/// digits are read as three two-digit components.
pub open spec fn hex_color_spec(body: Seq<char>) -> Result<Color, ParsingErrorV> {
    if body.len() != 2 && body.len() != 3 && body.len() != 6 {
        Err(ParsingErrorV::InvalidHexClr(body, body.len() as nat))
    } else {
        let e = expand_hex(body);
        if hex_pair_val(e[0], e[1]) is None {
            Err(ParsingErrorV::InvalidHexComp('r', e))
        } else if hex_pair_val(e[2], e[3]) is None {
            Err(ParsingErrorV::InvalidHexComp('g', e))
        } else if hex_pair_val(e[4], e[5]) is None {
            Err(ParsingErrorV::InvalidHexComp('b', e))
        } else {
            Ok(
                Color::RGB(
                    hex_pair_val(e[0], e[1])->0,
                    hex_pair_val(e[2], e[3])->0,
                    hex_pair_val(e[4], e[5])->0,
                ),
            )
        }
    }
}

/// Parse a hex color body.
fn hex_color_chars(body: &[char]) -> (r: Result<Color, ParsingError>)
    ensures
        r is Ok <==> hex_color_spec(body@) is Ok,
        r matches Ok(c) ==> c == hex_color_spec(body@)->Ok_0,
        r matches Err(e) ==> e@ == hex_color_spec(body@)->Err_0,
{
    let n = body.len();
    if n != 2 && n != 3 && n != 6 {
        return Err(ParsingError::InvalidHexClr(chars_string(body), n));
    }
    let mut e: Vec<char> = Vec::new();
    if n == 2 {
        e.push(body[0]);
        e.push(body[1]);
        e.push(body[0]);
        e.push(body[1]);
        e.push(body[0]);
        e.push(body[1]);
    } else if n == 3 {
        e.push(body[0]);
        e.push(body[0]);
        e.push(body[1]);
        e.push(body[1]);
        e.push(body[2]);
        e.push(body[2]);
    } else {
        e.push(body[0]);
        e.push(body[1]);
        e.push(body[2]);
        e.push(body[3]);
        e.push(body[4]);
        e.push(body[5]);
    }
    proof {
        assert(e@ =~= expand_hex(body@));
    }
    let r = match hex_pair(e[0], e[1]) {
        Some(r) => r,
        None => {
            return Err(ParsingError::InvalidHexComp('r', chars_string(e.as_slice())));
        },
    };
    let g = match hex_pair(e[2], e[3]) {
        Some(g) => g,
        None => {
            return Err(ParsingError::InvalidHexComp('g', chars_string(e.as_slice())));
        },
    };
    let b = match hex_pair(e[4], e[5]) {
        Some(b) => b,
        None => {
            return Err(ParsingError::InvalidHexComp('b', chars_string(e.as_slice())));
        },
    };
    Ok(Color::RGB(r, g, b))
}

/// A comma component: trimmed and parsed as `u8`, with 0 for anything that
/// does not parse (an empty component among them).
pub open spec fn comp_val(p: Seq<char>) -> u8 {
    if is_u8_str(trim_seq(p)) {
        u8_val(trim_seq(p)) as u8
    } else {
        0
    }
}

/// Runtime evaluation of [`comp_val`].
fn comma_component(p: &[char]) -> (r: u8)
    ensures
        r == comp_val(p@),
{
    let t = trim(p);
    match parse_u8(t.as_slice()) {
        Some(n) => n,
        None => 0,
    }
}

/// The color grammar over a case-folded token. Resolution order: a one-letter
/// alias, a bare `u8` palette index, a hex color behind the mode's marker, a
/// comma triple, and otherwise an unknown-format error.
pub open spec fn parse_color_spec(tok: Seq<char>, cli: bool) -> Result<Color, ParsingErrorV> {
    let s = lower_seq(tok);
    if s.len() == 1 && !is_digit_char(s[0]) {
        match Color::from_char_spec(s[0]) {
            Some(c) => Ok(c),
            None => Err(ParsingErrorV::InvalidClrSpec(s)),
        }
    } else if is_u8_str(s) {
        Ok(Color::Indexed(u8_val(s) as u8))
    } else if !cli && s.len() >= 1 && s[0] == '#' {
        hex_color_spec(s.subrange(1, s.len() as int))
    } else if cli && s.len() >= 1 && s[s.len() - 1] == '#' {
        hex_color_spec(s.subrange(0, s.len() - 1))
    } else if split_comma(s).len() == 3 {
        Ok(
            Color::RGB(
                comp_val(split_comma(s)[0]),
                comp_val(split_comma(s)[1]),
                comp_val(split_comma(s)[2]),
            ),
        )
    } else {
        Err(ParsingErrorV::UnknownClrFmt(s))
    }
}

/// Parse the color spec for the style(s) from a character slice.
pub fn parse_color_chars(tok: &[char], mode: ParsingMode) -> (r: Result<Color, ParsingError>)
    ensures
        r is Ok <==> parse_color_spec(tok@, mode is CommandLine) is Ok,
        r matches Ok(c) ==> c == parse_color_spec(tok@, mode is CommandLine)->Ok_0,
        r matches Err(e) ==> e@ == parse_color_spec(tok@, mode is CommandLine)->Err_0,
{
    let s = to_lower_slice(tok);
    if s.len() == 1 && !is_digit(s[0]) {
        return match Color::from_char(s[0]) {
            Some(c) => Ok(c),
            None => Err(ParsingError::InvalidClrSpec(chars_string(s.as_slice()))),
        };
    }
    if let Some(n) = parse_u8(s.as_slice()) {
        return Ok(Color::Indexed(n));
    }
    let is_cli = match mode {
        ParsingMode::Markup => false,
        ParsingMode::CommandLine => true,
    };
    if !is_cli && s.len() >= 1 && s[0] == '#' {
        let body = slice_of(s.as_slice(), 1, s.len());
        return hex_color_chars(body.as_slice());
    }
    if is_cli && s.len() >= 1 && s[s.len() - 1] == '#' {
        let body = slice_of(s.as_slice(), 0, s.len() - 1);
        return hex_color_chars(body.as_slice());
    }
    let parts = split_comma_chars(s.as_slice());
    if parts.len() == 3 {
        let r = comma_component(parts[0].as_slice());
        let g = comma_component(parts[1].as_slice());
        let b = comma_component(parts[2].as_slice());
        proof {
            assert(parts.deep_view()[0] == parts@[0]@);
            assert(parts.deep_view()[1] == parts@[1]@);
            assert(parts.deep_view()[2] == parts@[2]@);
        }
        return Ok(Color::RGB(r, g, b));
    }
    Err(ParsingError::UnknownClrFmt(chars_string(s.as_slice())))
}

/// Case-fold a slice into a fresh vector.
fn to_lower_slice(v: &[char]) -> (r: Vec<char>)
    ensures
        r@ == lower_seq(v@),
{
    let mut copy: Vec<char> = Vec::new();
    let mut i: usize = 0;
    while i < v.len()
        invariant
            i <= v@.len(),
            copy@ =~= v@.subrange(0, i as int),
        decreases v@.len() - i,
    {
        copy.push(v[i]);
        assert(copy@ =~= v@.subrange(0, i + 1));
        i = i + 1;
    }
    proof {
        assert(copy@ =~= v@);
    }
    to_lower(&copy)
}

/// Copy the given range of a slice.
fn slice_of(v: &[char], from: usize, to: usize) -> (r: Vec<char>)
    requires
        from <= to <= v@.len(),
    ensures
        r@ == v@.subrange(from as int, to as int),
{
    let mut r: Vec<char> = Vec::new();
    let mut i: usize = from;
    while i < to
        invariant
            from <= i <= to <= v@.len(),
            r@ =~= v@.subrange(from as int, i as int),
        decreases to - i,
    {
        r.push(v[i]);
        assert(r@ =~= v@.subrange(from as int, i + 1));
        i = i + 1;
    }
    r
}

// ---------------------------------------------------------------------------
// Style-spec parsing
// ---------------------------------------------------------------------------

/// One `(flag, value)` pair folded into the accumulating style: `f`, `b`,
/// `fb`, `bb` set a color (the bright forms force the bright channel), `m`
/// appends modifiers, and any other flag is an error.
pub open spec fn apply_pair(sv: StyleV, flag: Seq<char>, val: Seq<char>, cli: bool) -> Result<
    StyleV,
    ParsingErrorV,
> {
    if flag == seq!['f'] {
        match parse_color_spec(val, cli) {
            Ok(c) => Ok(sv.with_fg(c)),
            Err(e) => Err(e),
        }
    } else if flag == seq!['b'] {
        match parse_color_spec(val, cli) {
            Ok(c) => Ok(sv.with_bg(c)),
            Err(e) => Err(e),
        }
    } else if flag == seq!['f', 'b'] {
        match parse_color_spec(val, cli) {
            Ok(c) => Ok(sv.with_fg(c).fg_brightened()),
            Err(e) => Err(e),
        }
    } else if flag == seq!['b', 'b'] {
        match parse_color_spec(val, cli) {
            Ok(c) => Ok(sv.with_bg(c).bg_brightened()),
            Err(e) => Err(e),
        }
    } else if flag == seq!['m'] {
        match parse_modfiers_spec(val) {
            Ok(ms) => Ok(sv.with_modifiers(ms)),
            Err(e) => Err(e),
        }
    } else {
        Err(ParsingErrorV::InvalidParamName(flag))
    }
}

/// Fold the consecutive pairs of `args`, from index `i` on, into the style.
pub open spec fn fold_pairs(sv: StyleV, args: Seq<Seq<char>>, i: int, cli: bool) -> Result<
    StyleV,
    ParsingErrorV,
>
    decreases args.len() - i,
{
    if i < 0 || i + 2 > args.len() {
        Ok(sv)
    } else {
        match apply_pair(sv, args[i], args[i + 1], cli) {
            Ok(s2) => fold_pairs(s2, args, i + 2, cli),
            Err(e) => Err(e),
        }
    }
}

/// The style-spec grammar: split on whitespace, reject more than six tokens
/// or an odd count, then fold the `(flag, value)` pairs left to right into
/// the identity style.
pub open spec fn parse_style_spec(s: Seq<char>, cli: bool) -> Result<StyleV, ParsingErrorV> {
    let args = split_ws(s);
    if args.len() > 6 {
        Err(ParsingErrorV::TooManyArgs(s, args.len() as nat))
    } else if args.len() % 2 == 1 {
        Err(ParsingErrorV::MissingParamVal(s))
    } else {
        fold_pairs(StyleV::identity(), args, 0, cli)
    }
}

/// Parses the style spec.
#[verifier::rlimit(100)]
pub fn parse_style(s: &str, mode: ParsingMode) -> (r: Result<Style, ParsingError>)
    ensures
        r is Ok <==> parse_style_spec(s@, mode is CommandLine) is Ok,
        r matches Ok(st) ==> st@ == parse_style_spec(s@, mode is CommandLine)->Ok_0,
        r matches Err(e) ==> e@ == parse_style_spec(s@, mode is CommandLine)->Err_0,
{
    let ghost cli = mode is CommandLine;
    let v = str_chars(s);
    let args = split_whitespace_chars(v.as_slice());
    let ghost dv = args.deep_view();
    if args.len() > 6 {
        return Err(ParsingError::TooManyArgs(s.to_owned(), args.len()));
    }
    if args.len() % 2 == 1 {
        return Err(ParsingError::MissingParamVal(s.to_owned()));
    }
    let mut style = Style::new();
    let mut i: usize = 0;
    while i + 1 < args.len()
        invariant
            i % 2 == 0,
            i <= args@.len(),
            args@.len() % 2 == 0,
            args@.len() <= 6,
            cli == (mode is CommandLine),
            dv == args.deep_view(),
            dv == split_ws(s@),
            dv.len() == args@.len(),
            forall|j: int| 0 <= j < args@.len() ==> dv[j] == args@[j]@,
            parse_style_spec(s@, cli) == fold_pairs(style@, dv, i as int, cli),
        decreases args@.len() - i,
    {
        let param = &args[i];
        let val = &args[i + 1];
        proof {
            assert(dv[i as int] == param@);
            assert(dv[i + 1] == val@);
        }
        if param.len() == 1 && param[0] == 'f' {
            proof {
                assert(param@ =~= seq!['f']);
            }
            match parse_color_chars(val.as_slice(), mode) {
                Ok(c) => {
                    style = style.fg(c);
                },
                Err(e) => {
                    return Err(e);
                },
            }
        } else if param.len() == 1 && param[0] == 'b' {
            proof {
                assert(param@ =~= seq!['b']);
                assert(param@ != seq!['f']);
            }
            match parse_color_chars(val.as_slice(), mode) {
                Ok(c) => {
                    style = style.bg(c);
                },
                Err(e) => {
                    return Err(e);
                },
            }
        } else if param.len() == 2 && param[0] == 'f' && param[1] == 'b' {
            proof {
                assert(param@ =~= seq!['f', 'b']);
                assert(param@ != seq!['f']);
                assert(param@ != seq!['b']);
            }
            match parse_color_chars(val.as_slice(), mode) {
                Ok(c) => {
                    style = style.fg(c).fg_brighten();
                },
                Err(e) => {
                    return Err(e);
                },
            }
        } else if param.len() == 2 && param[0] == 'b' && param[1] == 'b' {
            proof {
                assert(param@ =~= seq!['b', 'b']);
                assert(param@ != seq!['f']);
                assert(param@ != seq!['b']);
                assert(param@ != seq!['f', 'b']);
            }
            match parse_color_chars(val.as_slice(), mode) {
                Ok(c) => {
                    style = style.bg(c).bg_brighten();
                },
                Err(e) => {
                    return Err(e);
                },
            }
        } else if param.len() == 1 && param[0] == 'm' {
            proof {
                assert(param@ =~= seq!['m']);
                assert(param@ != seq!['f']);
                assert(param@ != seq!['b']);
                assert(param@ != seq!['f', 'b']);
                assert(param@ != seq!['b', 'b']);
            }
            match parse_modfiers_chars(val.as_slice()) {
                Ok(ms) => {
                    style = style.append_modifiers(&ms);
                },
                Err(e) => {
                    return Err(e);
                },
            }
        } else {
            proof {
                assert(param@ != seq!['f']);
                assert(param@ != seq!['b']);
                assert(param@ != seq!['f', 'b']);
                assert(param@ != seq!['b', 'b']);
                assert(param@ != seq!['m']);
            }
            return Err(ParsingError::InvalidParamName(chars_string(param.as_slice())));
        }
        i = i + 2;
    }
    Ok(style)
}

/// Parse the color spec for the style(s).
pub fn parse_color(s: &str, mode: ParsingMode) -> (r: Result<Color, ParsingError>)
    ensures
        r is Ok <==> parse_color_spec(s@, mode is CommandLine) is Ok,
        r matches Ok(c) ==> c == parse_color_spec(s@, mode is CommandLine)->Ok_0,
        r matches Err(e) ==> e@ == parse_color_spec(s@, mode is CommandLine)->Err_0,
{
    let v = str_chars(s);
    parse_color_chars(v.as_slice(), mode)
}

/// Parse the modifiers for the style(s).
pub fn parse_modfiers(input: &str) -> (r: Result<Vec<Modifier>, ParsingError>)
    ensures
        r is Ok <==> parse_modfiers_spec(input@) is Ok,
        r matches Ok(ms) ==> ms@ == parse_modfiers_spec(input@)->Ok_0,
        r matches Err(e) ==> e@ == parse_modfiers_spec(input@)->Err_0,
{
    let v = str_chars(input);
    parse_modfiers_chars(v.as_slice())
}

// ---------------------------------------------------------------------------
// Markup tokenizer
// ---------------------------------------------------------------------------

/// ASCII letter or digit.
pub open spec fn is_alnum_char(c: char) -> bool {
    is_digit_char(c) || 65 <= c as u32 <= 90 || 97 <= c as u32 <= 122
}

/// The characters a tag body may hold: comma, hash, digits, ASCII whitespace
/// and ASCII alphanumerics.
pub open spec fn is_tag_char(c: char) -> bool {
    c == ',' || c == '#' || is_digit_char(c) || is_space_char(c) || is_alnum_char(c)
}

/// Runtime check for [`is_tag_char`].
pub fn tag_char(c: char) -> (r: bool)
    ensures
        r == is_tag_char(c),
{
    if c == ',' || c == '#' {
        return true;
    }
    if is_digit(c) || is_space(c) {
        return true;
    }
    let u = c as u32;
    (65 <= u && u <= 90) || (97 <= u && u <= 122)
}

/// Mathematical image of a [`Token`].
#[verifier::ext_equal]
pub enum TokV {
    /// End of a tag: `</>`.
    End,
    /// An empty tag: `<>`.
    Empty,
    /// An opening tag carrying a style.
    Fmt(StyleV),
    /// A text run.
    Text(Seq<char>),
}

/// The output tokens of the tokenizer.
#[derive(Debug)]
pub enum Token {
    /// End of a tag: `</>`.
    End,
    /// An empty tag: `<>`.
    Empty,
    /// An opening tag carrying a style.
    Fmt(Style),
    /// A text run.
    Text(String),
}

impl View for Token {
    type V = TokV;

    open spec fn view(&self) -> TokV {
        match self {
            Token::End => TokV::End,
            Token::Empty => TokV::Empty,
            Token::Fmt(st) => TokV::Fmt(st@),
            Token::Text(t) => TokV::Text(t@),
        }
    }
}

impl DeepView for Token {
    type V = TokV;

    open spec fn deep_view(&self) -> TokV {
        self.view()
    }
}

/// Mathematical image of the tokenizer state.
pub enum StV {
    /// Scanning plain text.
    Text,
    /// Just saw `<`.
    Lt,
    /// Just saw a backslash inside text.
    BackSlash,
    /// Saw `<` then `/`.
    MaybeClose,
    /// Inside a tag body, with the accumulated content.
    Tag(Seq<char>),
}

/// Inner state used by the tokenizer state machine.
enum State {
    /// Scanning plain text.
    Text,
    /// Just saw `<`.
    Lt,
    /// Just saw a backslash inside text.
    BackSlash,
    /// Saw `<` then `/`.
    MaybeClose,
    /// Inside a tag body, with the accumulated content.
    Tag(String),
}

/// Mathematical image of a [`State`].
spec fn state_view(st: &State) -> StV {
    match st {
        State::Text => StV::Text,
        State::Lt => StV::Lt,
        State::BackSlash => StV::BackSlash,
        State::MaybeClose => StV::MaybeClose,
        State::Tag(t) => StV::Tag(t@),
    }
}

/// The tokenizer state machine, one character per step. `rest` is the input
/// left to scan, `text` the pending text run, `toks` the tokens emitted so
/// far. At the end of input an open `<`, tag body or `</` is an
/// end-of-input error; a pending backslash becomes a literal one.
pub open spec fn tokenize_from(
    rest: Seq<char>,
    st: StV,
    text: Seq<char>,
    toks: Seq<TokV>,
    cli: bool,
) -> Result<Seq<TokV>, ParsingErrorV>
    decreases rest.len(),
{
    if rest.len() == 0 {
        match st {
            StV::Lt => Err(ParsingErrorV::Eof(">"@)),
            StV::Tag(t) => Err(ParsingErrorV::Eof("Tag name: "@ + t)),
            StV::MaybeClose => Err(ParsingErrorV::Eof("</"@)),
            StV::BackSlash => Ok(toks.push(TokV::Text(text.push('\\')))),
            StV::Text => if text.len() > 0 {
                Ok(toks.push(TokV::Text(text)))
            } else {
                Ok(toks)
            },
        }
    } else {
        let c = rest[0];
        let tail = rest.subrange(1, rest.len() as int);
        match st {
            StV::Lt => {
                if c == '/' {
                    tokenize_from(tail, StV::MaybeClose, text, toks, cli)
                } else if c == '>' {
                    tokenize_from(tail, StV::Text, text, toks.push(TokV::Empty), cli)
                } else {
                    tokenize_from(tail, StV::Tag(seq![c]), text, toks, cli)
                }
            },
            StV::Tag(t) => {
                if c == '>' {
                    match parse_style_spec(t, cli) {
                        Ok(sv) => tokenize_from(tail, StV::Text, text, toks.push(TokV::Fmt(sv)), cli),
                        Err(e) => Err(e),
                    }
                } else if is_tag_char(c) {
                    tokenize_from(tail, StV::Tag(t.push(c)), text, toks, cli)
                } else {
                    Err(ParsingErrorV::InvalidTagChar(c))
                }
            },
            StV::BackSlash => {
                if c == '<' {
                    tokenize_from(tail, StV::Text, text.push('<'), toks, cli)
                } else {
                    tokenize_from(tail, StV::Text, text.push('\\').push(c), toks, cli)
                }
            },
            StV::MaybeClose => {
                if c == '>' {
                    tokenize_from(tail, StV::Text, text, toks.push(TokV::End), cli)
                } else {
                    Err(ParsingErrorV::UnsupportedNamedClose(c))
                }
            },
            StV::Text => {
                if c == '\\' {
                    tokenize_from(tail, StV::BackSlash, text, toks, cli)
                } else if c == '<' {
                    if text.len() > 0 {
                        tokenize_from(tail, StV::Lt, Seq::empty(), toks.push(TokV::Text(text)), cli)
                    } else {
                        tokenize_from(tail, StV::Lt, text, toks, cli)
                    }
                } else {
                    tokenize_from(tail, StV::Text, text.push(c), toks, cli)
                }
            },
        }
    }
}

/// The token stream of a markup string.
pub open spec fn tokenize_spec(s: Seq<char>, cli: bool) -> Result<Seq<TokV>, ParsingErrorV> {
    tokenize_from(s, StV::Text, Seq::empty(), Seq::empty(), cli)
}

/// Scan a markup string into its token stream.
#[verifier::rlimit(100)]
pub fn tokenize(s: &str, mode: ParsingMode) -> (r: Result<Vec<Token>, ParsingError>)
    ensures
        r is Ok <==> tokenize_spec(s@, mode is CommandLine) is Ok,
        r matches Ok(toks) ==> toks.deep_view() == tokenize_spec(s@, mode is CommandLine)->Ok_0,
        r matches Err(e) ==> e@ == tokenize_spec(s@, mode is CommandLine)->Err_0,
{
    let ghost cli = mode is CommandLine;
    let v = str_chars(s);
    let mut text = String::new();
    let mut state = State::Text;
    let mut tokens: Vec<Token> = Vec::new();
    let mut i: usize = 0;
    proof {
        assert(v@.subrange(0, v@.len() as int) =~= v@);
        assert(tokens.deep_view() =~= Seq::<TokV>::empty());
    }
    while i < v.len()
        invariant
            i <= v@.len(),
            v@ == s@,
            cli == (mode is CommandLine),
            tokenize_spec(s@, cli) == tokenize_from(
                v@.subrange(i as int, v@.len() as int),
                state_view(&state),
                text@,
                tokens.deep_view(),
                cli,
            ),
        decreases v@.len() - i,
    {
        let c = v[i];
        let ghost rest = v@.subrange(i as int, v@.len() as int);
        proof {
            assert(rest.subrange(1, rest.len() as int) =~= v@.subrange(i + 1, v@.len() as int));
            assert(rest[0] == c);
        }
        state = match state {
            State::Lt => {
                if c == '/' {
                    State::MaybeClose
                } else if c == '>' {
                    let ghost pre = tokens.deep_view();
                    tokens.push(Token::Empty);
                    proof {
                        assert forall|j: int| 0 <= j < pre.len() implies tokens.deep_view()[j]
                            == pre[j] by {}
                        assert(tokens.deep_view() =~= pre.push(TokV::Empty));
                    }
                    State::Text
                } else {
                    let mut t = String::new();
                    push_char(&mut t, c);
                    proof {
                        assert(t@ =~= seq![c]);
                    }
                    State::Tag(t)
                }
            },
            State::Tag(tag) => {
                if c == '>' {
                    match parse_style(tag.as_str(), mode) {
                        Ok(st) => {
                            let ghost pre = tokens.deep_view();
                            let ghost stv = st@;
                            tokens.push(Token::Fmt(st));
                            proof {
                                assert forall|j: int| 0 <= j < pre.len() implies
                                    tokens.deep_view()[j] == pre[j] by {}
                                assert(tokens.deep_view() =~= pre.push(TokV::Fmt(stv)));
                            }
                            State::Text
                        },
                        Err(e) => {
                            return Err(e);
                        },
                    }
                } else if tag_char(c) {
                    let mut t = tag;
                    push_char(&mut t, c);
                    State::Tag(t)
                } else {
                    return Err(ParsingError::InvalidTagChar(c));
                }
            },
            State::BackSlash => {
                if c == '<' {
                    push_char(&mut text, '<');
                } else {
                    push_char(&mut text, '\\');
                    push_char(&mut text, c);
                }
                State::Text
            },
            State::MaybeClose => {
                if c == '>' {
                    let ghost pre = tokens.deep_view();
                    tokens.push(Token::End);
                    proof {
                        assert forall|j: int| 0 <= j < pre.len() implies tokens.deep_view()[j]
                            == pre[j] by {}
                        assert(tokens.deep_view() =~= pre.push(TokV::End));
                    }
                    State::Text
                } else {
                    return Err(ParsingError::UnsupportedNamedClose(c));
                }
            },
            State::Text => {
                if c == '\\' {
                    State::BackSlash
                } else if c == '<' {
                    if text.unicode_len() > 0 {
                        let ghost pre = tokens.deep_view();
                        let ghost flushed = text@;
                        tokens.push(Token::Text(text));
                        text = String::new();
                        proof {
                            assert forall|j: int| 0 <= j < pre.len() implies tokens.deep_view()[j]
                                == pre[j] by {}
                            assert(tokens.deep_view() =~= pre.push(TokV::Text(flushed)));
                        }
                    }
                    State::Lt
                } else {
                    push_char(&mut text, c);
                    State::Text
                }
            },
        };
        i = i + 1;
    }
    proof {
        assert(v@.subrange(i as int, v@.len() as int) =~= Seq::<char>::empty());
    }
    match state {
        State::Lt => Err(ParsingError::Eof(">".to_owned())),
        State::Tag(t) => {
            let mut msg = "Tag name: ".to_owned();
            msg.append(t.as_str());
            Err(ParsingError::Eof(msg))
        },
        State::MaybeClose => Err(ParsingError::Eof("</".to_owned())),
        State::BackSlash => {
            push_char(&mut text, '\\');
            let ghost pre = tokens.deep_view();
            let ghost flushed = text@;
            tokens.push(Token::Text(text));
            proof {
                assert forall|j: int| 0 <= j < pre.len() implies tokens.deep_view()[j] == pre[j]
                by {}
                assert(tokens.deep_view() =~= pre.push(TokV::Text(flushed)));
            }
            Ok(tokens)
        },
        State::Text => {
            if text.unicode_len() > 0 {
                let ghost pre = tokens.deep_view();
                let ghost flushed = text@;
                tokens.push(Token::Text(text));
                proof {
                    assert forall|j: int| 0 <= j < pre.len() implies tokens.deep_view()[j]
                        == pre[j] by {}
                    assert(tokens.deep_view() =~= pre.push(TokV::Text(flushed)));
                }
            }
            Ok(tokens)
        },
    }
}

} // verus!
