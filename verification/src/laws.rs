//! Laws of the grammar and the escape compiler, stated over the spec
//! functions that the public contracts use.

use vstd::prelude::*;

use crate::error::ParsingErrorV;
use crate::parser::{
    apply_pair, fold_pairs, parse_color_spec, parse_modfiers_spec, parse_style_spec, split_ws,
};
use crate::style::{csi_spec, join_with, reset_seq, wrap_spec, ClrType, Color, StyleV};
use crate::text::{dec_digits, is_digit_char, is_u8_str, lower_char, lower_seq, strip_plus};

verus! {

/// Law: parsing an empty style-spec yields the identity style, and applying
/// the identity style to any text returns that text unchanged.
pub proof fn lemma_identity(text: Seq<char>, cli: bool)
    ensures
        parse_style_spec(Seq::empty(), cli) == Ok::<StyleV, ParsingErrorV>(StyleV::identity()),
        wrap_spec(text, StyleV::identity().collect()) == text,
{
    assert(split_ws(Seq::<char>::empty()) =~= Seq::<Seq<char>>::empty());
}

/// Law: setting a color and brightening its channel commute, and both orders
/// give the color on the bright channel — the shape the `fb` and `bb` flags
/// produce, whatever the starting style.
pub proof fn lemma_brighten_stacking(sv: StyleV, c: Color)
    ensures
        sv.with_fg(c).fg_brightened() == sv.fg_brightened().with_fg(c),
        sv.with_fg(c).fg_brightened() == (StyleV { fg: Some((c, ClrType::FgBright)), ..sv }),
        sv.with_bg(c).bg_brightened() == sv.bg_brightened().with_bg(c),
        sv.with_bg(c).bg_brightened() == (StyleV { bg: Some((c, ClrType::BgBright)), ..sv }),
{
    assert(sv.with_fg(c).fg_brightened() =~= sv.fg_brightened().with_fg(c));
    assert(sv.with_fg(c).fg_brightened() =~= (StyleV {
        fg: Some((c, ClrType::FgBright)),
        ..sv
    }));
    assert(sv.with_bg(c).bg_brightened() =~= sv.bg_brightened().with_bg(c));
    assert(sv.with_bg(c).bg_brightened() =~= (StyleV {
        bg: Some((c, ClrType::BgBright)),
        ..sv
    }));
}

/// A failed modifier list always reports an invalid-modifier character.
proof fn lemma_modfiers_err(s: Seq<char>)
    ensures
        parse_modfiers_spec(s) matches Err(e) ==> e is InvalidModifier,
    decreases s.len(),
{
    if s.len() > 0 {
        lemma_modfiers_err(s.subrange(1, s.len() as int));
    }
}

/// The pair fold never reports an argument-count error: those come from the
/// token count alone.
proof fn lemma_fold_no_count_error(sv: StyleV, args: Seq<Seq<char>>, i: int, cli: bool)
    ensures
        fold_pairs(sv, args, i, cli) matches Err(e) ==> !(e is TooManyArgs) && !(
        e is MissingParamVal),
    decreases args.len() - i,
{
    if 0 <= i && i + 2 <= args.len() {
        lemma_modfiers_err(args[i + 1]);
        match apply_pair(sv, args[i], args[i + 1], cli) {
            Ok(s2) => {
                lemma_fold_no_count_error(s2, args, i + 2, cli);
            },
            Err(_) => {},
        }
    }
}

/// Law: the argument-count boundary. A style-spec fails with the
/// too-many-arguments error exactly when it has more than six tokens, and
/// with the missing-value error exactly when it has at most six but an odd
/// number — regardless of what the tokens hold.
pub proof fn lemma_argument_count(s: Seq<char>, cli: bool)
    ensures
        (parse_style_spec(s, cli) matches Err(e) && e is TooManyArgs) <==> split_ws(s).len() > 6,
        (parse_style_spec(s, cli) matches Err(e) && e is MissingParamVal) <==> (split_ws(s).len()
            <= 6 && split_ws(s).len() % 2 == 1),
{
    if split_ws(s).len() <= 6 && split_ws(s).len() % 2 == 0 {
        lemma_fold_no_count_error(StyleV::identity(), split_ws(s), 0, cli);
    }
}

/// Law: in markup mode a three-digit hex token names the same color as its
/// doubled six-digit form.
pub proof fn lemma_hex_doubling(a: char, b: char, c: char)
    ensures
        parse_color_spec(seq!['#', a, b, c], false) == parse_color_spec(
            seq!['#', a, a, b, b, c, c],
            false,
        ),
{
    let la = lower_char(a);
    let lb = lower_char(b);
    let lc = lower_char(c);
    let s1 = lower_seq(seq!['#', a, b, c]);
    let s2 = lower_seq(seq!['#', a, a, b, b, c, c]);
    assert(lower_char('#') == '#');
    assert(s1 =~= seq!['#', la, lb, lc]);
    assert(s2 =~= seq!['#', la, la, lb, lb, lc, lc]);
    assert(!is_digit_char('#'));
    assert(strip_plus(s1) == s1);
    assert(strip_plus(s2) == s2);
    assert(!is_u8_str(s1));
    assert(!is_u8_str(s2));
    let body1 = s1.subrange(1, s1.len() as int);
    let body2 = s2.subrange(1, s2.len() as int);
    assert(body1 =~= seq![la, lb, lc]);
    assert(body2 =~= seq![la, la, lb, lb, lc, lc]);
    assert(crate::parser::expand_hex(body1) =~= body2);
}

// ---------------------------------------------------------------------------
// Idempotent wrapping
// ---------------------------------------------------------------------------

/// Whether pattern `p` begins at position `i` of `s`.
pub open spec fn occurs_at(s: Seq<char>, p: Seq<char>, i: int) -> bool {
    0 <= i && i + p.len() <= s.len() && (forall|d: int| 0 <= d < p.len() ==> s[i + d] == p[d])
}

/// The number of positions at or after `from` where the reset sequence
/// begins in `s`.
pub open spec fn reset_count_from(s: Seq<char>, from: int) -> nat
    decreases s.len() - from,
{
    if from >= s.len() {
        0
    } else {
        (if occurs_at(s, reset_seq(), from) {
            1nat
        } else {
            0nat
        }) + reset_count_from(s, from + 1)
    }
}

/// The number of positions where the reset sequence begins in `s`.
pub open spec fn reset_count(s: Seq<char>) -> nat {
    reset_count_from(s, 0)
}

/// Every character of an escape payload: a decimal digit or a semicolon.
pub open spec fn code_chars(s: Seq<char>) -> bool {
    forall|i: int| 0 <= i < s.len() ==> is_digit_char(s[i]) || s[i] == ';'
}

proof fn lemma_dec_digits_chars(n: nat)
    ensures
        code_chars(dec_digits(n)),
        dec_digits(n).len() >= 1,
    decreases n,
{
    if n >= 10 {
        lemma_dec_digits_chars(n / 10);
        let d = dec_digits(n);
        assert forall|i: int| 0 <= i < d.len() implies is_digit_char(d[i]) || d[i] == ';' by {
            if i < d.len() - 1 {
                assert(d[i] == dec_digits(n / 10)[i]);
            }
        }
    }
}

proof fn lemma_join_with_chars(xs: Seq<Seq<char>>, sep: Seq<char>)
    requires
        forall|k: int| 0 <= k < xs.len() ==> code_chars(#[trigger] xs[k]),
        code_chars(sep),
    ensures
        code_chars(join_with(xs, sep)),
        xs.len() >= 1 && xs[0].len() >= 1 ==> join_with(xs, sep).len() >= 1,
    decreases xs.len(),
{
    if xs.len() > 1 {
        let rest = xs.subrange(1, xs.len() as int);
        assert forall|k: int| 0 <= k < rest.len() implies code_chars(#[trigger] rest[k]) by {
            assert(rest[k] == xs[k + 1]);
        }
        lemma_join_with_chars(rest, sep);
        let j = join_with(xs, sep);
        assert forall|i: int| 0 <= i < j.len() implies is_digit_char(j[i]) || j[i] == ';' by {
            if i < xs[0].len() {
                assert(j[i] == xs[0][i]);
            } else if i < xs[0].len() + sep.len() {
                assert(j[i] == sep[i - xs[0].len()]);
            } else {
                assert(j[i] == join_with(rest, sep)[i - xs[0].len() - sep.len()]);
            }
        }
    }
}

proof fn lemma_format_chars(c: Color, ct: ClrType)
    ensures
        code_chars(c.format_spec(ct)),
        c.format_spec(ct).len() >= 1,
{
    let f = c.format_spec(ct);
    match c {
        Color::Indexed(i) => {
            lemma_dec_digits_chars(ct.csi_code() as nat);
            lemma_dec_digits_chars(i as nat);
            assert forall|k: int| 0 <= k < f.len() implies is_digit_char(f[k]) || f[k] == ';' by {
                let a = dec_digits(ct.csi_code() as nat);
                if k < a.len() {
                    assert(f[k] == a[k]);
                } else if k < a.len() + 3 {
                    assert(f[k] == seq![';', '5', ';'][k - a.len()]);
                } else {
                    assert(f[k] == dec_digits(i as nat)[k - a.len() - 3]);
                }
            }
        },
        Color::RGB(r, g, b) => {
            lemma_dec_digits_chars(ct.csi_code() as nat);
            lemma_dec_digits_chars(r as nat);
            lemma_dec_digits_chars(g as nat);
            lemma_dec_digits_chars(b as nat);
            let a = dec_digits(ct.csi_code() as nat);
            let dr = dec_digits(r as nat);
            let dg = dec_digits(g as nat);
            let db = dec_digits(b as nat);
            assert forall|k: int| 0 <= k < f.len() implies is_digit_char(f[k]) || f[k] == ';' by {
                if k < a.len() {
                    assert(f[k] == a[k]);
                } else if k < a.len() + 3 {
                    assert(f[k] == seq![';', '2', ';'][k - a.len()]);
                } else if k < a.len() + 3 + dr.len() {
                    assert(f[k] == dr[k - a.len() - 3]);
                } else if k < a.len() + 4 + dr.len() {
                    assert(f[k] == ';');
                } else if k < a.len() + 4 + dr.len() + dg.len() {
                    assert(f[k] == dg[k - a.len() - 4 - dr.len()]);
                } else if k < a.len() + 5 + dr.len() + dg.len() {
                    assert(f[k] == ';');
                } else {
                    assert(f[k] == db[k - a.len() - 5 - dr.len() - dg.len()]);
                }
            }
        },
        _ => {
            lemma_dec_digits_chars((c.to_num_spec() + ct.offset_spec()) as nat);
        },
    }
}

/// A non-identity style's payload is nonempty and made of digits and
/// semicolons only.
proof fn lemma_collect_chars(sv: StyleV)
    requires
        !sv.is_identity(),
    ensures
        code_chars(sv.collect()),
        sv.collect().len() >= 1,
{
    let items = sv.items();
    assert forall|k: int| 0 <= k < items.len() implies code_chars(#[trigger] items[k])
        && items[k].len() >= 1 by {
        let fgn = (match sv.fg {
            Some(_) => 1int,
            None => 0int,
        });
        let bgn = (match sv.bg {
            Some(_) => 1int,
            None => 0int,
        });
        if k < fgn {
            let (c0, ct0) = sv.fg->0;
            lemma_format_chars(c0, ct0);
            assert(items[k] == c0.format_spec(ct0));
        } else if k < fgn + bgn {
            let (c0, ct0) = sv.bg->0;
            lemma_format_chars(c0, ct0);
            assert(items[k] == c0.format_spec(ct0));
        } else {
            lemma_dec_digits_chars(sv.mdfs[k - fgn - bgn].code_spec() as nat);
            assert(items[k] == dec_digits(sv.mdfs[k - fgn - bgn].code_spec() as nat));
        }
    }
    assert(items.len() >= 1);
    assert(code_chars(seq![';'])) by {
        assert(seq![';'][0] == ';');
    }
    lemma_join_with_chars(items, seq![';']);
}

/// Positions before `from` contribute nothing.
proof fn lemma_reset_count_nonneg_start(s: Seq<char>, from: int)
    requires
        from <= 0,
    ensures
        reset_count_from(s, from) == reset_count(s),
    decreases 1 - from,
{
    if from < 0 {
        if s.len() > from {
            assert(!occurs_at(s, reset_seq(), from));
        }
        lemma_reset_count_nonneg_start(s, from + 1);
    }
}

/// Counting occurrences in `w` from `q` on, where `w`'s occurrences are
/// exactly those of `t` shifted by `l` plus one at `l + t.len()`.
proof fn lemma_count_shifted(w: Seq<char>, t: Seq<char>, l: int, q: int)
    requires
        0 <= l,
        w.len() == l + t.len() + 4,
        forall|p: int| #[trigger] occurs_at(w, reset_seq(), p) <==> (occurs_at(
            t,
            reset_seq(),
            p - l,
        ) || p == l + t.len()),
        0 <= q,
    ensures
        reset_count_from(w, q) == reset_count_from(t, q - l) + (if q <= l + t.len() {
            1nat
        } else {
            0nat
        }),
    decreases w.len() - q,
{
    if q >= w.len() {
        assert(reset_count_from(t, q - l) == 0);
    } else {
        lemma_count_shifted(w, t, l, q + 1);
        if occurs_at(t, reset_seq(), q - l) {
            assert(q - l + 4 <= t.len());
        }
    }
}

/// Law: wrapping nonempty text in a non-identity style adds exactly one
/// occurrence of the reset sequence, whatever resets the text already holds.
/// The one payload that itself reads as a reset — the single code `0`, from
/// a bare reset modifier — is excluded.
pub proof fn lemma_idempotent_wrap(sv: StyleV, text: Seq<char>)
    requires
        !sv.is_identity(),
        sv.collect() != seq!['0'],
        text.len() > 0,
    ensures
        reset_count(wrap_spec(text, sv.collect())) == reset_count(text) + 1,
{
    lemma_collect_chars(sv);
    let codes = sv.collect();
    let l = codes.len() as int + 3;
    let w = csi_spec(codes) + text + reset_seq();
    assert(wrap_spec(text, codes) == w);
    assert(w.len() == l + text.len() + 4);
    let r = reset_seq();
    assert(r[0] == '\u{1b}' && r[1] == '[' && r[2] == '0' && r[3] == 'm');
    assert(w[0] == '\u{1b}');
    assert(w[1] == '[');
    assert forall|i: int| 2 <= i < l - 1 implies is_digit_char(w[i]) || w[i] == ';' by {
        assert(w[i] == codes[i - 2]);
    }
    assert(w[l - 1] == 'm');
    assert forall|i: int| l <= i < l + text.len() implies w[i] == text[i - l] by {}
    assert(w[l + text.len()] == '\u{1b}');
    assert(w[l + text.len() + 1] == '[');
    assert(w[l + text.len() + 2] == '0');
    assert(w[l + text.len() + 3] == 'm');
    assert forall|p: int| #[trigger] occurs_at(w, r, p) implies (occurs_at(text, r, p - l)
        || p == l + text.len()) by {
        assert(w[p] == r[0] && w[p + 1] == r[1] && w[p + 2] == r[2] && w[p + 3] == r[3]);
        if p == 0 {
            if codes.len() == 1 {
                assert(codes[0] == '0');
                assert(codes =~= seq!['0']);
                assert(false);
            } else {
                assert(w[3] == codes[1]);
                assert(false);
            }
        } else if p < l {
            assert(!is_digit_char('\u{1b}') && '\u{1b}' != ';');
            assert(false);
        } else if p + 4 <= l + text.len() {
            assert forall|d: int| 0 <= d < 4 implies text[p - l + d] == r[d] by {
                assert(w[p + d] == text[p - l + d]);
            }
            assert(occurs_at(text, r, p - l));
        } else if p < l + text.len() {
            let d0 = l + text.len() - p;
            assert(1 <= d0 < 4);
            assert(w[p + d0] == '\u{1b}');
            assert(r[d0] != '\u{1b}');
            assert(false);
        } else if p > l + text.len() {
            assert(p + 4 > w.len());
            assert(false);
        }
    }
    assert forall|p: int| (occurs_at(text, r, p - l) || p == l + text.len()) implies
        #[trigger] occurs_at(w, r, p) by {
        if occurs_at(text, r, p - l) {
            assert forall|d: int| 0 <= d < 4 implies w[p + d] == r[d] by {
                assert(w[p + d] == text[p - l + d]);
            }
        } else {
            assert(p == l + text.len());
            assert forall|d: int| 0 <= d < 4 implies w[p + d] == r[d] by {}
        }
    }
    lemma_count_shifted(w, text, l, 0);
    lemma_reset_count_nonneg_start(text, -l);
}

} // verus!
