//! The scanner: one step at a time from a position of the text, and the
//! whole pass from the start of the text to its end-of-stream token.
use vstd::prelude::*;
use crate::error::LumeError;
use crate::fault::{Fault, FaultKind, fault_is, fault_message, fault_text};
use crate::literal::{CharScan, TextScan, char_body_spec, read_char_body, read_string, string_spec};
use crate::number::{NumberScan, NumberValue, number_spec, read_number};
use crate::scan::{
    block_end, collect, ident_end, line_end, next_is, scan_ident, scan_symbol, skip_block_comment,
    skip_line_comment, symbol_spec,
};
use crate::span::Span;
use crate::text::{
    Source, byte_len, byte_offset, chars_of, ident_start,
    is_ascii_digit, is_ident_start, lemma_byte_len_concat,
};
use crate::token::{Token, keyword_or_ident, word_token_matches};

verus! {

/// What the scanner does at one position: skip to an index, emit one token
/// ending at an index, or fail.
pub enum Step {
    Skip(int),
    Emit(int),
    Fail(FaultKind, int, int),
}

pub open spec fn is_space(c: char) -> bool {
    c == ' ' || c == '\t' || c == '\n' || c == '\r'
}

pub open spec fn text_step(o: TextScan) -> Step {
    match o {
        TextScan::Text(_, e) => Step::Emit(e),
        TextScan::Fail(k, a, b) => Step::Fail(k, a, b),
    }
}

pub open spec fn char_step(o: CharScan) -> Step {
    match o {
        CharScan::Char(_, e) => Step::Emit(e),
        CharScan::Fail(k, a, b) => Step::Fail(k, a, b),
    }
}

/// A quote at `i` opens a lifetime marker rather than a character literal.
pub open spec fn opens_lifetime(s: Seq<char>, i: int) -> bool {
    i + 2 < s.len() && is_ident_start(s[i + 1]) && s[i + 2] != '\''
}

/// Where a line comment's text starts, after `//` or `///` at `i`.
pub open spec fn line_comment_text(s: Seq<char>, i: int) -> int {
    if next_is(s, i + 2, '/') { i + 3 } else { i + 2 }
}

/// The extent of what the scanner does at position `i` of `s`.
pub open spec fn step_spec(s: Seq<char>, i: int) -> Step {
    let n = s.len() as int;
    let c = s[i];
    if is_space(c) {
        Step::Skip(i + 1)
    } else if is_ascii_digit(c) {
        match number_spec(s, i) {
            NumberScan::Lit(_, e) => Step::Emit(e),
            NumberScan::Fail(k, a, b) => Step::Fail(k, a, b),
        }
    } else if is_ident_start(c) {
        let j = ident_end(s, i + 1);
        if next_is(s, j, '"') {
            text_step(string_spec(s, j + 1, false, j))
        } else if next_is(s, j, '\'') {
            char_step(char_body_spec(s, j))
        } else {
            Step::Emit(j)
        }
    } else if c == '"' {
        text_step(string_spec(s, i + 1, true, i))
    } else if c == '\'' {
        if i + 1 >= n || (is_ident_start(s[i + 1]) && i + 2 >= n) {
            Step::Fail(FaultKind::EndAfterQuote, i, i + 1)
        } else if opens_lifetime(s, i) {
            Step::Emit(ident_end(s, i + 2))
        } else {
            char_step(char_body_spec(s, i))
        }
    } else if c == '/' {
        if next_is(s, i + 1, '/') {
            Step::Skip(line_end(s, line_comment_text(s, i)))
        } else if next_is(s, i + 1, '*') {
            match block_end(s, i + 2, 1) {
                Some(j) => Step::Skip(j),
                None => Step::Fail(FaultKind::UnterminatedComment, i, n),
            }
        } else if next_is(s, i + 1, '=') {
            Step::Emit(i + 2)
        } else {
            Step::Emit(i + 1)
        }
    } else if c == '!' {
        if next_is(s, i + 1, '=') {
            Step::Emit(i + 2)
        } else {
            Step::Fail(FaultKind::SymbolicNot, i, i + 1)
        }
    } else {
        match symbol_spec(s, i) {
            Some((_, e)) => Step::Emit(e),
            None => Step::Fail(FaultKind::UnexpectedChar(c), i, i + 1),
        }
    }
}

/// `t` is the token that the scanner emits at position `i` of `s`.
pub open spec fn token_spec(s: Seq<char>, i: int, t: Token) -> bool {
    let c = s[i];
    if is_ascii_digit(c) {
        match number_spec(s, i) {
            NumberScan::Lit(NumberValue::Int(v), _) => t matches Token::Int(x) && x == v,
            NumberScan::Lit(NumberValue::Float(f), _) => t matches Token::Float(x) && x@ == f,
            _ => false,
        }
    } else if is_ident_start(c) {
        let j = ident_end(s, i + 1);
        if next_is(s, j, '"') {
            match string_spec(s, j + 1, false, j) {
                TextScan::Text(x, _) => t matches Token::PrefixedStr(p, y) && p@ == s.subrange(i, j)
                    && y@ == x,
                _ => false,
            }
        } else if next_is(s, j, '\'') {
            match char_body_spec(s, j) {
                CharScan::Char(ch, _) => t matches Token::PrefixedChar(p, y) && p@ == s.subrange(
                    i,
                    j,
                ) && y == ch,
                _ => false,
            }
        } else {
            word_token_matches(s.subrange(i, j), t)
        }
    } else if c == '"' {
        match string_spec(s, i + 1, true, i) {
            TextScan::Text(x, _) => t matches Token::Str(y) && y@ == x,
            _ => false,
        }
    } else if c == '\'' {
        if opens_lifetime(s, i) {
            t matches Token::Lifetime(y) && y@ == s.subrange(i + 1, ident_end(s, i + 2))
        } else {
            match char_body_spec(s, i) {
                CharScan::Char(ch, _) => t == Token::Char(ch),
                _ => false,
            }
        }
    } else if c == '/' {
        if next_is(s, i + 1, '=') {
            t == Token::SlashEq
        } else {
            t == Token::Slash
        }
    } else if c == '!' {
        t == Token::Neq
    } else {
        match symbol_spec(s, i) {
            Some((tok, _)) => t == tok,
            None => false,
        }
    }
}

/// The exec result `r` of one step at `i` is what the specification says.
pub open spec fn step_agrees(s: Seq<char>, i: int, r: Result<(Option<Token>, usize), Fault>) -> bool {
    match step_spec(s, i) {
        Step::Skip(j) => r matches Ok((None, e)) && e == j,
        Step::Emit(j) => r matches Ok((Some(tok), e)) && e == j && token_spec(s, i, tok),
        Step::Fail(k, a, b) => r matches Err(f) && fault_is(f, k, a, b),
    }
}

/// Performs the scanner's step at position `i`.
pub fn scan_at(t: &Vec<char>, i: usize) -> (r: Result<(Option<Token>, usize), Fault>)
    requires
        i < t@.len(),
    ensures
        step_agrees(t@, i as int, r),
        r matches Ok((_, e)) ==> i < e <= t@.len(),
        r matches Err(f) ==> f.start <= f.end <= t@.len(),
{
    let n = t.len();
    let c = t[i];
    if c == ' ' || c == '\t' || c == '\n' || c == '\r' {
        Ok((None, i + 1))
    } else if '0' <= c && c <= '9' {
        match read_number(t, i) {
            Ok((tok, e)) => Ok((Some(tok), e)),
            Err(f) => Err(f),
        }
    } else if ident_start(c) {
        let j = scan_ident(t, i + 1);
        if j < n && t[j] == '"' {
            match read_string(t, j, false) {
                Ok((body, e)) => Ok((Some(Token::PrefixedStr(collect(t, i, j), body)), e)),
                Err(f) => Err(f),
            }
        } else if j < n && t[j] == '\'' {
            match read_char_body(t, j) {
                Ok((ch, e)) => Ok((Some(Token::PrefixedChar(collect(t, i, j), ch)), e)),
                Err(f) => Err(f),
            }
        } else {
            let word = collect(t, i, j);
            Ok((Some(keyword_or_ident(word.as_str())), j))
        }
    } else if c == '"' {
        match read_string(t, i, true) {
            Ok((body, e)) => Ok((Some(Token::Str(body)), e)),
            Err(f) => Err(f),
        }
    } else if c == '\'' {
        if i + 1 >= n {
            return Err(Fault { kind: FaultKind::EndAfterQuote, start: i, end: i + 1 });
        }
        let first = t[i + 1];
        if ident_start(first) {
            if i + 2 >= n {
                return Err(Fault { kind: FaultKind::EndAfterQuote, start: i, end: i + 1 });
            }
            if t[i + 2] != '\'' {
                let j = scan_ident(t, i + 2);
                return Ok((Some(Token::Lifetime(collect(t, i + 1, j))), j));
            }
        }
        match read_char_body(t, i) {
            Ok((ch, e)) => Ok((Some(Token::Char(ch)), e)),
            Err(f) => Err(f),
        }
    } else if c == '/' {
        if i + 1 < n && t[i + 1] == '/' {
            let start = if i + 2 < n && t[i + 2] == '/' {
                i + 3
            } else {
                i + 2
            };
            Ok((None, skip_line_comment(t, start)))
        } else if i + 1 < n && t[i + 1] == '*' {
            match skip_block_comment(t, i + 2) {
                Some(j) => Ok((None, j)),
                None => Err(Fault { kind: FaultKind::UnterminatedComment, start: i, end: n }),
            }
        } else if i + 1 < n && t[i + 1] == '=' {
            Ok((Some(Token::SlashEq), i + 2))
        } else {
            Ok((Some(Token::Slash), i + 1))
        }
    } else if c == '!' {
        if i + 1 < n && t[i + 1] == '=' {
            Ok((Some(Token::Neq), i + 2))
        } else {
            Err(Fault { kind: FaultKind::SymbolicNot, start: i, end: i + 1 })
        }
    } else {
        match scan_symbol(t, i) {
            Some((tok, e)) => Ok((Some(tok), e)),
            None => Err(Fault { kind: FaultKind::UnexpectedChar(c), start: i, end: i + 1 }),
        }
    }
}

/// `sp` covers the characters `a..b` of `s`, in bytes, in the source `file`.
pub open spec fn span_is(sp: Span, s: Seq<char>, a: int, b: int, file: Seq<char>) -> bool {
    sp.start as nat == byte_offset(s, a) && sp.end as nat == byte_offset(s, b) && sp.file@ == file
}

/// Scanning `s` from `i` succeeds and emits exactly `toks`, the last being
/// the end-of-stream token at the end of the text.
pub open spec fn lexes_from(s: Seq<char>, i: int, toks: Seq<(Token, Span)>, file: Seq<char>) -> bool
    decreases s.len() - i,
{
    if i < 0 {
        false
    } else if i >= s.len() {
        toks.len() == 1 && toks[0].0 == Token::Eof && span_is(
            toks[0].1,
            s,
            s.len() as int,
            s.len() as int,
            file,
        )
    } else {
        match step_spec(s, i) {
            Step::Skip(j) => i < j <= s.len() && lexes_from(s, j, toks, file),
            Step::Emit(j) => i < j <= s.len() && toks.len() > 0 && token_spec(s, i, toks[0].0) && span_is(
                toks[0].1,
                s,
                i,
                j,
                file,
            ) && lexes_from(s, j, toks.drop_first(), file),
            Step::Fail(_, _, _) => false,
        }
    }
}

/// Scanning `s` from `i` emits exactly `toks` before it reaches position `k`.
pub open spec fn reaches(s: Seq<char>, i: int, toks: Seq<(Token, Span)>, k: int, file: Seq<char>) -> bool
    decreases s.len() - i,
{
    if i == k {
        toks.len() == 0
    } else if i < 0 || i > k || i >= s.len() {
        false
    } else {
        match step_spec(s, i) {
            Step::Skip(j) => i < j <= s.len() && reaches(s, j, toks, k, file),
            Step::Emit(j) => i < j <= s.len() && toks.len() > 0 && token_spec(s, i, toks[0].0) && span_is(
                toks[0].1,
                s,
                i,
                j,
                file,
            ) && reaches(s, j, toks.drop_first(), k, file),
            Step::Fail(_, _, _) => false,
        }
    }
}

/// The error that stops a scan of `s` from `i`, if any: its kind and its
/// character range.
pub open spec fn first_fault(s: Seq<char>, i: int) -> Option<(FaultKind, int, int)>
    decreases s.len() - i,
{
    if i < 0 || i >= s.len() {
        None
    } else {
        match step_spec(s, i) {
            Step::Skip(j) => if i < j <= s.len() { first_fault(s, j) } else { None },
            Step::Emit(j) => if i < j <= s.len() { first_fault(s, j) } else { None },
            Step::Fail(k, a, b) => Some((k, a, b)),
        }
    }
}

/// `e` is the lexical error of kind `k` over the characters `a..b` of `s`.
pub open spec fn error_is(e: LumeError, s: Seq<char>, k: FaultKind, a: int, b: int, file: Seq<char>) -> bool {
    e matches LumeError::Lexical { msg, span } && msg@ == fault_text(k) && span_is(span, s, a, b, file)
}

proof fn lemma_reaches_emit(
    s: Seq<char>,
    i: int,
    toks: Seq<(Token, Span)>,
    k: int,
    j: int,
    x: (Token, Span),
    file: Seq<char>,
)
    requires
        reaches(s, i, toks, k, file),
        0 <= k < s.len(),
        step_spec(s, k) == Step::Emit(j),
        k < j <= s.len(),
        token_spec(s, k, x.0),
        span_is(x.1, s, k, j, file),
    ensures
        reaches(s, i, toks.push(x), j, file),
    decreases s.len() - i,
{
    if i == k {
        assert(toks.push(x).drop_first() =~= Seq::<(Token, Span)>::empty());
        assert(reaches(s, j, Seq::<(Token, Span)>::empty(), j, file));
        assert(toks.push(x)[0] == x);
    } else {
        match step_spec(s, i) {
            Step::Skip(m) => {
                lemma_reaches_emit(s, m, toks, k, j, x, file);
            },
            Step::Emit(m) => {
                lemma_reaches_emit(s, m, toks.drop_first(), k, j, x, file);
                assert(toks.push(x).drop_first() =~= toks.drop_first().push(x));
            },
            Step::Fail(_, _, _) => {},
        }
    }
}

proof fn lemma_reaches_skip(s: Seq<char>, i: int, toks: Seq<(Token, Span)>, k: int, j: int, file: Seq<char>)
    requires
        reaches(s, i, toks, k, file),
        0 <= k < s.len(),
        step_spec(s, k) == Step::Skip(j),
        k < j <= s.len(),
    ensures
        reaches(s, i, toks, j, file),
    decreases s.len() - i,
{
    if i == k {
        assert(reaches(s, j, toks, j, file));
    } else {
        match step_spec(s, i) {
            Step::Skip(m) => {
                lemma_reaches_skip(s, m, toks, k, j, file);
            },
            Step::Emit(m) => {
                lemma_reaches_skip(s, m, toks.drop_first(), k, j, file);
            },
            Step::Fail(_, _, _) => {},
        }
    }
}

proof fn lemma_reaches_end(s: Seq<char>, i: int, toks: Seq<(Token, Span)>, x: (Token, Span), file: Seq<char>)
    requires
        0 <= i,
        reaches(s, i, toks, s.len() as int, file),
        x.0 == Token::Eof,
        span_is(x.1, s, s.len() as int, s.len() as int, file),
    ensures
        lexes_from(s, i, toks.push(x), file),
    decreases s.len() - i,
{
    if i == s.len() {
        assert(toks.push(x) =~= seq![x]);
    } else {
        match step_spec(s, i) {
            Step::Skip(m) => {
                lemma_reaches_end(s, m, toks, x, file);
            },
            Step::Emit(m) => {
                lemma_reaches_end(s, m, toks.drop_first(), x, file);
                assert(toks.push(x).drop_first() =~= toks.drop_first().push(x));
            },
            Step::Fail(_, _, _) => {},
        }
    }
}

proof fn lemma_reaches_fail(s: Seq<char>, i: int, toks: Seq<(Token, Span)>, k: int, file: Seq<char>)
    requires
        reaches(s, i, toks, k, file),
        0 <= k < s.len(),
        step_spec(s, k) is Fail,
    ensures
        first_fault(s, i) == first_fault(s, k),
        first_fault(s, k) is Some,
    decreases s.len() - i,
{
    if i != k {
        match step_spec(s, i) {
            Step::Skip(m) => {
                lemma_reaches_fail(s, m, toks, k, file);
            },
            Step::Emit(m) => {
                lemma_reaches_fail(s, m, toks.drop_first(), k, file);
            },
            Step::Fail(_, _, _) => {},
        }
    }
}

/// Index of the first newline at or after `i`, or the length of `s`.
pub open spec fn newline_from(s: Seq<char>, i: int) -> int
    decreases s.len() - i,
{
    if i < 0 || i >= s.len() {
        s.len() as int
    } else if s[i] == '\n' {
        i
    } else {
        newline_from(s, i + 1)
    }
}

proof fn lemma_newline_from_bounds(s: Seq<char>, i: int)
    requires
        0 <= i <= s.len(),
    ensures
        i <= newline_from(s, i) <= s.len(),
    decreases s.len() - i,
{
    if i < s.len() && s[i] != '\n' {
        lemma_newline_from_bounds(s, i + 1);
    }
}

/// The text that is scanned: `s` without a leading `#!` line.
pub open spec fn strip_shebang(s: Seq<char>) -> Seq<char> {
    if s.len() >= 2 && s[0] == '#' && s[1] == '!' {
        if newline_from(s, 0) < s.len() {
            s.skip(newline_from(s, 0) + 1)
        } else {
            Seq::empty()
        }
    } else {
        s
    }
}

fn without_shebang(all: Vec<char>) -> (r: Vec<char>)
    ensures
        r@ == strip_shebang(all@),
{
    let n = all.len();
    if !(n >= 2 && all[0] == '#' && all[1] == '!') {
        return all;
    }
    let mut k: usize = 0;
    while k < n && all[k] != '\n'
        invariant
            k <= n == all@.len(),
            newline_from(all@, k as int) == newline_from(all@, 0),
        decreases n - k,
    {
        k = k + 1;
    }
    if k >= n {
        return Vec::new();
    }
    let mut r: Vec<char> = Vec::new();
    let mut m = k + 1;
    while m < n
        invariant
            k < m <= n == all@.len(),
            r@ == all@.subrange(k + 1, m as int),
        decreases n - m,
    {
        r.push(all[m]);
        m = m + 1;
        assert(r@ =~= all@.subrange(k + 1, m as int));
    }
    assert(r@ =~= all@.skip(k + 1));
    r
}

/// Scans `source`, named `file` in spans, into its tokens, each paired with
/// its byte range; the last token is the end-of-stream marker. A leading
/// `#!` line is left out, and offsets count from just after it.
pub fn lex(source: &str, file: &str) -> (r: Result<Vec<(Token, Span)>, LumeError>)
    ensures
        match r {
            Ok(v) => lexes_from(strip_shebang(source@), 0, v@, file@),
            Err(e) => match first_fault(strip_shebang(source@), 0) {
                Some((k, a, b)) => error_is(e, strip_shebang(source@), k, a, b, file@),
                None => false,
            },
        },
{
    let all = chars_of(source);
    let text = without_shebang(all);
    let limit = source.as_bytes().len();
    proof {
        let s = source@;
        if s.len() >= 2 && s[0] == '#' && s[1] == '!' && newline_from(s, 0) < s.len() {
            let m = newline_from(s, 0) + 1;
            lemma_newline_from_bounds(s, 0);
            assert(s =~= s.take(m) + s.skip(m));
            lemma_byte_len_concat(s.take(m), s.skip(m));
        }
        assert(byte_len(Seq::<char>::empty()) == 0);
    }
    let src = Source::new(text, limit);
    let ghost s = src.chars@;
    let n = src.len();
    let mut toks: Vec<(Token, Span)> = Vec::new();
    let mut k: usize = 0;
    while k < n
        invariant
            src.wf(),
            s == src.chars@,
            s == strip_shebang(source@),
            n == s.len(),
            k <= n,
            reaches(s, 0, toks@, k as int, file@),
        decreases n - k,
    {
        match scan_at(&src.chars, k) {
            Err(f) => {
                proof {
                    lemma_reaches_fail(s, 0, toks@, k as int, file@);
                }
                let span = Span::new(src.offset(f.start), src.offset(f.end), file);
                return Err(LumeError::Lexical { msg: fault_message(f.kind), span });
            },
            Ok((None, j)) => {
                proof {
                    lemma_reaches_skip(s, 0, toks@, k as int, j as int, file@);
                }
                k = j;
            },
            Ok((Some(tok), j)) => {
                let span = Span::new(src.offset(k), src.offset(j), file);
                proof {
                    lemma_reaches_emit(s, 0, toks@, k as int, j as int, (tok, span), file@);
                }
                toks.push((tok, span));
                k = j;
            },
        }
    }
    let span = Span::new(src.offset(n), src.offset(n), file);
    proof {
        lemma_reaches_end(s, 0, toks@, (Token::Eof, span), file@);
    }
    toks.push((Token::Eof, span));
    Ok(toks)
}

} // verus!
