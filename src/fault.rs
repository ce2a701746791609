//! What can go wrong while scanning, and the message shown for each case.
use vstd::prelude::*;
use vstd::string::*;
use crate::text::push_char;

verus! {

/// The kinds of lexical error.
#[derive(Clone, Copy, Debug, PartialEq, Eq)]
pub enum FaultKind {
    EndAfterQuote,
    SymbolicNot,
    UnexpectedChar(char),
    InvalidInteger,
    InvalidExponent,
    IntegerTooLarge,
    UnterminatedString,
    UnterminatedChar,
    EmptyChar,
    CharNotSingle,
    ExpectedBrace,
    InvalidHexDigit,
    HexDigitCount,
    InvalidCodepoint,
    UnknownEscape(char),
    UnterminatedEscape,
    UnterminatedComment,
}

/// A lexical error at the characters `start..end` of the scanned text.
#[derive(Clone, Copy, Debug)]
pub struct Fault {
    pub kind: FaultKind,
    pub start: usize,
    pub end: usize,
}

/// `f` is the error `kind` over the characters `start..end`.
pub open spec fn fault_is(f: Fault, kind: FaultKind, start: int, end: int) -> bool {
    f.kind == kind && f.start == start && f.end == end
}

pub open spec fn fault_text(k: FaultKind) -> Seq<char> {
    match k {
        FaultKind::EndAfterQuote => "unexpected end of input after quote"@,
        FaultKind::SymbolicNot => "unexpected '!'; logical NOT is written as 'not'"@,
        FaultKind::UnexpectedChar(c) => "unexpected character: '"@ + seq![c] + "'"@,
        FaultKind::InvalidInteger => "invalid integer literal"@,
        FaultKind::InvalidExponent => "invalid exponent"@,
        FaultKind::IntegerTooLarge => "integer literal too large"@,
        FaultKind::UnterminatedString => "unterminated string literal"@,
        FaultKind::UnterminatedChar => "unterminated character literal"@,
        FaultKind::EmptyChar => "empty character literal"@,
        FaultKind::CharNotSingle => "character literal must contain exactly one character"@,
        FaultKind::ExpectedBrace => "expected '{' after \\u"@,
        FaultKind::InvalidHexDigit => "invalid hex digit in \\u{...}"@,
        FaultKind::HexDigitCount => "unicode escape must have 1-6 hex digits"@,
        FaultKind::InvalidCodepoint => "invalid unicode codepoint"@,
        FaultKind::UnknownEscape(c) => "unknown escape sequence \\"@ + seq![c],
        FaultKind::UnterminatedEscape => "unterminated escape sequence"@,
        FaultKind::UnterminatedComment => "unterminated block comment"@,
    }
}

/// The human-readable message for an error kind.
pub fn fault_message(k: FaultKind) -> (r: String)
    ensures
        r@ == fault_text(k),
{
    match k {
        FaultKind::EndAfterQuote => String::from_str("unexpected end of input after quote"),
        FaultKind::SymbolicNot => String::from_str(
            "unexpected '!'; logical NOT is written as 'not'",
        ),
        FaultKind::UnexpectedChar(c) => {
            let mut s = String::from_str("unexpected character: '");
            push_char(&mut s, c);
            s.append("'");
            s
        },
        FaultKind::InvalidInteger => String::from_str("invalid integer literal"),
        FaultKind::InvalidExponent => String::from_str("invalid exponent"),
        FaultKind::IntegerTooLarge => String::from_str("integer literal too large"),
        FaultKind::UnterminatedString => String::from_str("unterminated string literal"),
        FaultKind::UnterminatedChar => String::from_str("unterminated character literal"),
        FaultKind::EmptyChar => String::from_str("empty character literal"),
        FaultKind::CharNotSingle => String::from_str(
            "character literal must contain exactly one character",
        ),
        FaultKind::ExpectedBrace => String::from_str("expected '{' after \\u"),
        FaultKind::InvalidHexDigit => String::from_str("invalid hex digit in \\u{...}"),
        FaultKind::HexDigitCount => String::from_str("unicode escape must have 1-6 hex digits"),
        FaultKind::InvalidCodepoint => String::from_str("invalid unicode codepoint"),
        FaultKind::UnknownEscape(c) => {
            let mut s = String::from_str("unknown escape sequence \\");
            push_char(&mut s, c);
            s
        },
        FaultKind::UnterminatedEscape => String::from_str("unterminated escape sequence"),
        FaultKind::UnterminatedComment => String::from_str("unterminated block comment"),
    }
}

} // verus!
