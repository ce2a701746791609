//! Facts about every scan, proved from the scanner's specification.
use vstd::prelude::*;
use crate::fault::FaultKind;
use crate::lexer::{Step, first_fault, lexes_from, step_spec, strip_shebang, token_spec};
use crate::literal::{CharScan, TextScan, escape_spec, string_spec};
use crate::number::{digits_value, run_end, without_separators};
use crate::span::Span;
use crate::text::{byte_len, byte_offset, lemma_byte_offset_mono};
use crate::token::Token;

verus! {

proof fn lemma_token_not_eof(s: Seq<char>, i: int, t: Token)
    requires
        0 <= i < s.len(),
        token_spec(s, i, t),
    ensures
        t != Token::Eof,
{
}

/// Every span of a successful scan is well formed (`start <= end`), lies
/// within the text, and the spans' starts never decrease from one token to
/// the next.
pub proof fn lemma_spans_ordered(s: Seq<char>, i: int, toks: Seq<(Token, Span)>, file: Seq<char>)
    requires
        0 <= i <= s.len(),
        lexes_from(s, i, toks, file),
    ensures
        forall|k: int| 0 <= k < toks.len() ==> byte_offset(s, i) <= #[trigger] toks[k].1.start
            <= toks[k].1.end <= byte_len(s),
        forall|k: int| 0 <= k < toks.len() - 1 ==> #[trigger] toks[k].1.start <= toks[k + 1].1.start,
    decreases s.len() - i,
{
    if i >= s.len() {
        lemma_byte_offset_mono(s, i, s.len() as int);
    } else {
        match step_spec(s, i) {
            Step::Skip(j) => {
                lemma_spans_ordered(s, j, toks, file);
                lemma_byte_offset_mono(s, i, j);
            },
            Step::Emit(j) => {
                let rest = toks.drop_first();
                lemma_spans_ordered(s, j, rest, file);
                lemma_byte_offset_mono(s, i, j);
                assert forall|k: int| 1 <= k < toks.len() implies toks[k] == rest[k - 1] by {}
                assert(rest.len() >= 1 ==> byte_offset(s, j) <= rest[0].1.start);
                if rest.len() == 0 {
                    assert(lexes_from(s, j, rest, file));
                }
            },
            Step::Fail(_, _, _) => {},
        }
    }
}

/// A successful scan ends with exactly one end-of-stream token: the last
/// token is the marker, at the empty range at the end of the text, and no
/// other token is.
pub proof fn lemma_single_eof(s: Seq<char>, i: int, toks: Seq<(Token, Span)>, file: Seq<char>)
    requires
        0 <= i <= s.len(),
        lexes_from(s, i, toks, file),
    ensures
        toks.len() >= 1,
        toks.last().0 == Token::Eof,
        toks.last().1.start == byte_len(s) && toks.last().1.end == byte_len(s),
        forall|k: int| 0 <= k < toks.len() - 1 ==> #[trigger] toks[k].0 != Token::Eof,
    decreases s.len() - i,
{
    if i >= s.len() {
        assert(s.take(s.len() as int) =~= s);
    } else {
        match step_spec(s, i) {
            Step::Skip(j) => {
                lemma_single_eof(s, j, toks, file);
            },
            Step::Emit(j) => {
                let rest = toks.drop_first();
                lemma_single_eof(s, j, rest, file);
                lemma_token_not_eof(s, i, toks[0].0);
                assert forall|k: int| 1 <= k < toks.len() implies toks[k] == rest[k - 1] by {}
            },
            Step::Fail(_, _, _) => {},
        }
    }
}

/// The decimal digit character for `d < 10`.
pub open spec fn digit_char(d: nat) -> char {
    if d == 0 { '0' } else if d == 1 { '1' } else if d == 2 { '2' } else if d == 3 { '3' }
    else if d == 4 { '4' } else if d == 5 { '5' } else if d == 6 { '6' } else if d == 7 { '7' }
    else if d == 8 { '8' } else { '9' }
}

/// Decimal digits of `v`, most significant first, without leading zeros.
pub open spec fn decimal_text(v: nat) -> Seq<char>
    decreases v,
{
    if v < 10 {
        seq![digit_char(v)]
    } else {
        decimal_text(v / 10).push(digit_char(v % 10))
    }
}

proof fn lemma_digit_char(d: nat)
    requires
        d < 10,
    ensures
        digits_value(seq![digit_char(d)], 10) == d,
        digit_char(d) != '_',
        crate::number::digit_value(digit_char(d)) == d,
{
    let one = seq![digit_char(d)];
    assert(one.drop_last() =~= Seq::<char>::empty());
    assert(digits_value(Seq::<char>::empty(), 10) == 0);
    assert(one.last() == digit_char(d));
    assert(digits_value(one, 10) == digits_value(one.drop_last(), 10) * 10 + crate::number::digit_value(digit_char(d)));
}

proof fn lemma_decimal_text(v: nat)
    ensures
        decimal_text(v).len() >= 1,
        forall|k: int| 0 <= k < decimal_text(v).len() ==> '0' <= #[trigger] decimal_text(v)[k] <= '9',
        digits_value(decimal_text(v), 10) == v,
    decreases v,
{
    if v >= 10 {
        lemma_decimal_text(v / 10);
        let p = decimal_text(v / 10);
        lemma_digit_char(v % 10);
        assert(decimal_text(v).drop_last() =~= p);
        assert(decimal_text(v).last() == digit_char(v % 10));
        assert(digits_value(decimal_text(v), 10) == (v / 10) * 10 + v % 10);
    } else {
        lemma_digit_char(v);
    }
}

proof fn lemma_run_to_end(s: Seq<char>, i: int)
    requires
        0 <= i <= s.len(),
        forall|k: int| 0 <= k < s.len() ==> '0' <= #[trigger] s[k] <= '9',
    ensures
        run_end(s, i, 10) == s.len(),
    decreases s.len() - i,
{
    if i < s.len() {
        lemma_run_to_end(s, i + 1);
    }
}

/// Scanning the decimal text of a non-negative `i64` succeeds and yields
/// that integer followed by the end-of-stream token. (A negative value's text
/// starts with `-`, which scans as its own token.)
pub proof fn lemma_decimal_round_trip(v: i64, toks: Seq<(Token, Span)>, file: Seq<char>)
    requires
        v >= 0,
    ensures
        strip_shebang(decimal_text(v as nat)) == decimal_text(v as nat),
        first_fault(decimal_text(v as nat), 0) is None,
        lexes_from(decimal_text(v as nat), 0, toks, file) ==> toks.len() == 2 && toks[0].0
            == Token::Int(v),
{
    let s = decimal_text(v as nat);
    lemma_decimal_text(v as nat);
    lemma_run_to_end(s, 0);
    assert(s.subrange(0, s.len() as int) =~= s);
    assert('0' <= s[0] <= '9');
    if s.len() > 1 {
        assert('0' <= s[1] <= '9');
    }
    assert(step_spec(s, 0) == Step::Emit(s.len() as int));
    assert(first_fault(s, s.len() as int) is None);
    if lexes_from(s, 0, toks, file) {
        assert(lexes_from(s, s.len() as int, toks.drop_first(), file));
    }
}

/// Digit separators never change a digit run's value: it equals the value
/// of the same run with the separators removed.
pub proof fn lemma_separators_transparent(t: Seq<char>, base: nat)
    ensures
        digits_value(t, base) == digits_value(without_separators(t), base),
    decreases t.len(),
{
    if t.len() > 0 {
        lemma_separators_transparent(t.drop_last(), base);
        if t.last() != '_' {
            let w = without_separators(t.drop_last());
            assert(w.push(t.last()).drop_last() =~= w);
        }
    }
}

/// An unterminated-string error always spans from the string's opening
/// quote to the end of the text.
pub proof fn lemma_unterminated_string_span(s: Seq<char>, i: int, escapes: bool, open: int)
    ensures
        string_spec(s, i, escapes, open) matches TextScan::Fail(FaultKind::UnterminatedString, a, b)
            ==> a == open && b == s.len(),
    decreases s.len() - i,
{
    if 0 <= i < s.len() && s[i] != '"' {
        if escapes && s[i] == '\\' {
            match escape_spec(s, i + 1) {
                CharScan::Char(_, j) => {
                    if j > i {
                        lemma_unterminated_string_span(s, j, escapes, open);
                    }
                },
                _ => {},
            }
        } else {
            lemma_unterminated_string_span(s, i + 1, escapes, open);
        }
    }
}

/// A string body with no closing quote (and, where escapes are decoded, no
/// backslash) is unterminated.
pub proof fn lemma_no_closing_quote(s: Seq<char>, i: int, escapes: bool, open: int)
    requires
        0 <= i <= s.len(),
        forall|k: int| i <= k < s.len() ==> #[trigger] s[k] != '"' && (escapes ==> s[k] != '\\'),
    ensures
        string_spec(s, i, escapes, open) == TextScan::Fail(
            FaultKind::UnterminatedString,
            open,
            s.len() as int,
        ),
    decreases s.len() - i,
{
    if i < s.len() {
        assert(s[i] != '"');
        lemma_no_closing_quote(s, i + 1, escapes, open);
    }
}

/// Scanning a text that opens a string literal and never closes it fails
/// with an unterminated-string error from the quote to the end of the text.
pub proof fn lemma_unterminated_literal(s: Seq<char>)
    requires
        s.len() >= 1,
        s[0] == '"',
        forall|k: int| 1 <= k < s.len() ==> #[trigger] s[k] != '"' && s[k] != '\\',
    ensures
        strip_shebang(s) == s,
        first_fault(s, 0) == Some((FaultKind::UnterminatedString, 0int, s.len() as int)),
{
    lemma_no_closing_quote(s, 1, true, 0);
}

} // verus!
