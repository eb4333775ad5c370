//! Error types for the style grammar, the markup tokenizer and the batch styler.

use vstd::prelude::*;

verus! {

/// Mathematical image of [`ParsingError`]: the same variants with string
/// payloads as character sequences, used by the grammar's spec functions.
pub enum ParsingErrorV {
    /// End of input while more characters were expected.
    Eof(Seq<char>),
    /// A character that may not appear inside a tag body.
    InvalidTagChar(char),
    /// More than six whitespace-separated tokens in a style spec.
    TooManyArgs(Seq<char>, nat),
    /// An odd number of tokens: some flag has no value.
    MissingParamVal(Seq<char>),
    /// A flag other than `f`, `b`, `fb`, `bb` or `m`.
    InvalidParamName(Seq<char>),
    /// A single-letter color token that is not a known alias.
    InvalidClrSpec(Seq<char>),
    /// A hex color body whose length is not 2, 3 or 6.
    InvalidHexClr(Seq<char>, nat),
    /// A hex color component that is not two hex digits.
    InvalidHexComp(char, Seq<char>),
    /// A color token that fits no form of the color grammar.
    UnknownClrFmt(Seq<char>),
    /// A closing tag with no open tag to match it.
    UnexpectedClosingTag,
    /// Input ended while tags were still open.
    UnclosedTags,
    /// A modifier character outside the modifier alphabet.
    InvalidModifier(char),
    /// A named closing tag, which the markup grammar does not support.
    UnsupportedNamedClose(char),
}

/// Errors raised by the tokenizer and the style/color grammars.
#[derive(Debug)]
pub enum ParsingError {
    /// End of input while more characters were expected.
    Eof(String),
    /// A character that may not appear inside a tag body.
    InvalidTagChar(char),
    /// More than six whitespace-separated tokens in a style spec.
    TooManyArgs(String, usize),
    /// An odd number of tokens: some flag has no value.
    MissingParamVal(String),
    /// A flag other than `f`, `b`, `fb`, `bb` or `m`.
    InvalidParamName(String),
    /// A single-letter color token that is not a known alias.
    InvalidClrSpec(String),
    /// A hex color body whose length is not 2, 3 or 6.
    InvalidHexClr(String, usize),
    /// A hex color component that is not two hex digits.
    InvalidHexComp(char, String),
    /// A color token that fits no form of the color grammar.
    UnknownClrFmt(String),
    /// A closing tag with no open tag to match it.
    UnexpectedClosingTag,
    /// Input ended while tags were still open.
    UnclosedTags,
    /// A modifier character outside the modifier alphabet.
    InvalidModifier(char),
    /// A named closing tag, which the markup grammar does not support.
    UnsupportedNamedClose(char),
}

impl View for ParsingError {
    type V = ParsingErrorV;

    open spec fn view(&self) -> ParsingErrorV {
        match self {
            ParsingError::Eof(s) => ParsingErrorV::Eof(s@),
            ParsingError::InvalidTagChar(c) => ParsingErrorV::InvalidTagChar(*c),
            ParsingError::TooManyArgs(s, n) => ParsingErrorV::TooManyArgs(s@, *n as nat),
            ParsingError::MissingParamVal(s) => ParsingErrorV::MissingParamVal(s@),
            ParsingError::InvalidParamName(s) => ParsingErrorV::InvalidParamName(s@),
            ParsingError::InvalidClrSpec(s) => ParsingErrorV::InvalidClrSpec(s@),
            ParsingError::InvalidHexClr(s, n) => ParsingErrorV::InvalidHexClr(s@, *n as nat),
            ParsingError::InvalidHexComp(c, s) => ParsingErrorV::InvalidHexComp(*c, s@),
            ParsingError::UnknownClrFmt(s) => ParsingErrorV::UnknownClrFmt(s@),
            ParsingError::UnexpectedClosingTag => ParsingErrorV::UnexpectedClosingTag,
            ParsingError::UnclosedTags => ParsingErrorV::UnclosedTags,
            ParsingError::InvalidModifier(c) => ParsingErrorV::InvalidModifier(*c),
            ParsingError::UnsupportedNamedClose(c) => ParsingErrorV::UnsupportedNamedClose(*c),
        }
    }
}

/// Mathematical image of [`StylerError`].
pub enum StylerErrorV {
    /// No text argument was supplied.
    MissingText,
    /// Invalid color specification.
    InvalidColor(Seq<char>),
    /// Invalid text modifier.
    InvalidModifier(char),
    /// Invalid spec argument.
    InvalidArgument(Seq<char>),
    /// Missing value for a parameter.
    MissingValue(Seq<char>),
    /// Invalid RGB format.
    InvalidRgbFormat(Seq<char>),
    /// Invalid hex format.
    InvalidHexColor(Seq<char>),
    /// An error raised by the grammar layer.
    ParsingError(ParsingErrorV),
    /// An error raised while styling the part at the given index.
    BatchError(nat, Box<StylerErrorV>),
}

/// Errors surfaced by the styling API.
#[derive(Debug)]
pub enum StylerError {
    /// No text argument was supplied.
    MissingText,
    /// Invalid color specification.
    InvalidColor(String),
    /// Invalid text modifier.
    InvalidModifier(char),
    /// Invalid spec argument.
    InvalidArgument(String),
    /// Missing value for a parameter.
    MissingValue(String),
    /// Invalid RGB format.
    InvalidRgbFormat(String),
    /// Invalid hex format.
    InvalidHexColor(String),
    /// An error raised by the grammar layer.
    ParsingError(ParsingError),
    /// An error raised while styling the part at the given index.
    BatchError(usize, Box<StylerError>),
}

/// Mathematical image of a [`StylerError`] value.
pub open spec fn styler_error_view(e: StylerError) -> StylerErrorV
    decreases e,
{
    match e {
        StylerError::MissingText => StylerErrorV::MissingText,
        StylerError::InvalidColor(s) => StylerErrorV::InvalidColor(s@),
        StylerError::InvalidModifier(c) => StylerErrorV::InvalidModifier(c),
        StylerError::InvalidArgument(s) => StylerErrorV::InvalidArgument(s@),
        StylerError::MissingValue(s) => StylerErrorV::MissingValue(s@),
        StylerError::InvalidRgbFormat(s) => StylerErrorV::InvalidRgbFormat(s@),
        StylerError::InvalidHexColor(s) => StylerErrorV::InvalidHexColor(s@),
        StylerError::ParsingError(p) => StylerErrorV::ParsingError(p@),
        StylerError::BatchError(i, b) => StylerErrorV::BatchError(
            i as nat,
            Box::new(styler_error_view(*b)),
        ),
    }
}

impl View for StylerError {
    type V = StylerErrorV;

    open spec fn view(&self) -> StylerErrorV {
        styler_error_view(*self)
    }
}

} // verus!
