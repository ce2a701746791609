//! Comments, identifiers and operators: the parts of the scanner that need
//! no literal decoding.
use vstd::prelude::*;
use crate::text::{is_ident_continue, ident_continue, push_char};
use crate::token::Token;

verus! {

/// Index just past the line comment whose text starts at `i`: past the next
/// newline, or the end of the text.
pub open spec fn line_end(s: Seq<char>, i: int) -> int
    decreases s.len() - i,
{
    if i < 0 || i >= s.len() {
        s.len() as int
    } else if s[i] == '\n' {
        i + 1
    } else {
        line_end(s, i + 1)
    }
}

/// Index just past a block comment whose text continues at `i` inside
/// `depth` open comments; `None` when the text ends first.
pub open spec fn block_end(s: Seq<char>, i: int, depth: nat) -> Option<int>
    decreases s.len() - i,
{
    if depth == 0 {
        Some(i)
    } else if i < 0 || i >= s.len() {
        None
    } else if s[i] == '*' && i + 1 < s.len() && s[i + 1] == '/' {
        block_end(s, i + 2, (depth - 1) as nat)
    } else if s[i] == '/' && i + 1 < s.len() && s[i + 1] == '*' {
        block_end(s, i + 2, depth + 1)
    } else {
        block_end(s, i + 1, depth)
    }
}

/// End of the run of identifier characters that starts at `i`.
pub open spec fn ident_end(s: Seq<char>, i: int) -> int
    decreases s.len() - i,
{
    if 0 <= i < s.len() && is_ident_continue(s[i]) {
        ident_end(s, i + 1)
    } else {
        i
    }
}

pub fn skip_line_comment(t: &Vec<char>, i: usize) -> (r: usize)
    requires
        i <= t@.len(),
    ensures
        r == line_end(t@, i as int),
        i <= r <= t@.len(),
{
    let n = t.len();
    let mut k = i;
    while k < n
        invariant
            i <= k <= n == t@.len(),
            line_end(t@, k as int) == line_end(t@, i as int),
        decreases n - k,
    {
        if t[k] == '\n' {
            return k + 1;
        }
        k = k + 1;
    }
    n
}

/// Skips the rest of a block comment whose opening `/*` ends just before `i`.
pub fn skip_block_comment(t: &Vec<char>, i: usize) -> (r: Option<usize>)
    requires
        2 <= i <= t@.len(),
    ensures
        r matches Some(e) ==> block_end(t@, i as int, 1) == Some(e as int) && i <= e <= t@.len(),
        r is None ==> block_end(t@, i as int, 1) is None,
{
    let n = t.len();
    let mut k = i;
    let mut depth: usize = 1;
    while depth > 0
        invariant
            i <= k <= n == t@.len(),
            1 <= depth <= k || depth == 0,
            block_end(t@, k as int, depth as nat) == block_end(t@, i as int, 1),
        decreases n - k + depth,
    {
        if k >= n {
            return None;
        }
        if t[k] == '*' && k + 1 < n && t[k + 1] == '/' {
            depth = depth - 1;
            k = k + 2;
        } else if t[k] == '/' && k + 1 < n && t[k + 1] == '*' {
            depth = depth + 1;
            k = k + 2;
        } else {
            k = k + 1;
        }
    }
    Some(k)
}

pub fn scan_ident(t: &Vec<char>, i: usize) -> (r: usize)
    requires
        i <= t@.len(),
    ensures
        r == ident_end(t@, i as int),
        i <= r <= t@.len(),
        i < t@.len() && is_ident_continue(t@[i as int]) ==> i < r,
{
    let n = t.len();
    let mut k = i;
    while k < n && ident_continue(t[k])
        invariant
            i <= k <= n == t@.len(),
            ident_end(t@, k as int) == ident_end(t@, i as int),
        decreases n - k,
    {
        k = k + 1;
    }
    k
}

/// The characters `t[lo..hi]` as a string.
pub fn collect(t: &Vec<char>, lo: usize, hi: usize) -> (r: String)
    requires
        lo <= hi <= t@.len(),
    ensures
        r@ == t@.subrange(lo as int, hi as int),
{
    let mut s = String::new();
    let mut k = lo;
    while k < hi
        invariant
            lo <= k <= hi <= t@.len(),
            s@ == t@.subrange(lo as int, k as int),
        decreases hi - k,
    {
        push_char(&mut s, t[k]);
        k = k + 1;
        assert(s@ =~= t@.subrange(lo as int, k as int));
    }
    s
}

pub open spec fn next_is(s: Seq<char>, i: int, c: char) -> bool {
    0 <= i < s.len() && s[i] == c
}

/// Operators and delimiters other than those that start with `/` or `!`,
/// longest match first: the token and the index just past it.
pub open spec fn symbol_spec(s: Seq<char>, i: int) -> Option<(Token, int)> {
    let c = s[i];
    if c == '=' {
        if next_is(s, i + 1, '=') { Some((Token::EqEq, i + 2)) }
        else if next_is(s, i + 1, '>') { Some((Token::FatArrow, i + 2)) }
        else { Some((Token::Eq, i + 1)) }
    } else if c == '<' {
        if next_is(s, i + 1, '<') {
            if next_is(s, i + 2, '=') { Some((Token::ShlEq, i + 3)) } else { Some((Token::Shl, i + 2)) }
        } else if next_is(s, i + 1, '=') { Some((Token::Le, i + 2)) }
        else { Some((Token::Lt, i + 1)) }
    } else if c == '>' {
        if next_is(s, i + 1, '>') {
            if next_is(s, i + 2, '=') { Some((Token::ShrEq, i + 3)) } else { Some((Token::Shr, i + 2)) }
        } else if next_is(s, i + 1, '=') { Some((Token::Ge, i + 2)) }
        else { Some((Token::Gt, i + 1)) }
    } else if c == '-' {
        if next_is(s, i + 1, '>') { Some((Token::Arrow, i + 2)) }
        else if next_is(s, i + 1, '=') { Some((Token::MinusEq, i + 2)) }
        else { Some((Token::Minus, i + 1)) }
    } else if c == '+' {
        if next_is(s, i + 1, '=') { Some((Token::PlusEq, i + 2)) } else { Some((Token::Plus, i + 1)) }
    } else if c == '*' {
        if next_is(s, i + 1, '=') { Some((Token::StarEq, i + 2)) } else { Some((Token::Star, i + 1)) }
    } else if c == '%' {
        if next_is(s, i + 1, '=') { Some((Token::PercentEq, i + 2)) } else { Some((Token::Percent, i + 1)) }
    } else if c == '&' {
        if next_is(s, i + 1, '=') { Some((Token::AmpEq, i + 2)) } else { Some((Token::Amp, i + 1)) }
    } else if c == '|' {
        if next_is(s, i + 1, '=') { Some((Token::PipeEq, i + 2)) } else { Some((Token::Pipe, i + 1)) }
    } else if c == '^' {
        if next_is(s, i + 1, '=') { Some((Token::CaretEq, i + 2)) } else { Some((Token::Caret, i + 1)) }
    } else if c == '(' { Some((Token::LParen, i + 1)) }
    else if c == ')' { Some((Token::RParen, i + 1)) }
    else if c == '{' { Some((Token::LBrace, i + 1)) }
    else if c == '}' { Some((Token::RBrace, i + 1)) }
    else if c == '[' { Some((Token::LBracket, i + 1)) }
    else if c == ']' { Some((Token::RBracket, i + 1)) }
    else if c == ';' { Some((Token::Semicolon, i + 1)) }
    else if c == ',' { Some((Token::Comma, i + 1)) }
    else if c == ':' { Some((Token::Colon, i + 1)) }
    else if c == '.' { Some((Token::Dot, i + 1)) }
    else if c == '?' { Some((Token::Question, i + 1)) }
    else { None }
}

fn next_char_is(t: &Vec<char>, i: usize, c: char) -> (r: bool)
    ensures
        r == next_is(t@, i as int, c),
{
    i < t.len() && t[i] == c
}

/// Scans an operator or delimiter at `i`, if one starts there.
pub fn scan_symbol(t: &Vec<char>, i: usize) -> (r: Option<(Token, usize)>)
    requires
        i < t@.len(),
    ensures
        match symbol_spec(t@, i as int) {
            Some((tok, e)) => r matches Some((x, end)) && x == tok && end == e,
            None => r is None,
        },
        r matches Some((_, e)) ==> i < e <= t@.len(),
{
    let n = t.len();
    let c = t[i];
    let one = i + 1;
    let two = if one < n { one + 1 } else { one };
    if c == '=' {
        if next_char_is(t, one, '=') { Some((Token::EqEq, two)) }
        else if next_char_is(t, one, '>') { Some((Token::FatArrow, two)) }
        else { Some((Token::Eq, one)) }
    } else if c == '<' {
        if next_char_is(t, one, '<') {
            if next_char_is(t, two, '=') { Some((Token::ShlEq, two + 1)) } else { Some((Token::Shl, two)) }
        } else if next_char_is(t, one, '=') { Some((Token::Le, two)) }
        else { Some((Token::Lt, one)) }
    } else if c == '>' {
        if next_char_is(t, one, '>') {
            if next_char_is(t, two, '=') { Some((Token::ShrEq, two + 1)) } else { Some((Token::Shr, two)) }
        } else if next_char_is(t, one, '=') { Some((Token::Ge, two)) }
        else { Some((Token::Gt, one)) }
    } else if c == '-' {
        if next_char_is(t, one, '>') { Some((Token::Arrow, two)) }
        else if next_char_is(t, one, '=') { Some((Token::MinusEq, two)) }
        else { Some((Token::Minus, one)) }
    } else if c == '+' {
        if next_char_is(t, one, '=') { Some((Token::PlusEq, two)) } else { Some((Token::Plus, one)) }
    } else if c == '*' {
        if next_char_is(t, one, '=') { Some((Token::StarEq, two)) } else { Some((Token::Star, one)) }
    } else if c == '%' {
        if next_char_is(t, one, '=') { Some((Token::PercentEq, two)) } else { Some((Token::Percent, one)) }
    } else if c == '&' {
        if next_char_is(t, one, '=') { Some((Token::AmpEq, two)) } else { Some((Token::Amp, one)) }
    } else if c == '|' {
        if next_char_is(t, one, '=') { Some((Token::PipeEq, two)) } else { Some((Token::Pipe, one)) }
    } else if c == '^' {
        if next_char_is(t, one, '=') { Some((Token::CaretEq, two)) } else { Some((Token::Caret, one)) }
    } else if c == '(' { Some((Token::LParen, one)) }
    else if c == ')' { Some((Token::RParen, one)) }
    else if c == '{' { Some((Token::LBrace, one)) }
    else if c == '}' { Some((Token::RBrace, one)) }
    else if c == '[' { Some((Token::LBracket, one)) }
    else if c == ']' { Some((Token::RBracket, one)) }
    else if c == ';' { Some((Token::Semicolon, one)) }
    else if c == ',' { Some((Token::Comma, one)) }
    else if c == ':' { Some((Token::Colon, one)) }
    else if c == '.' { Some((Token::Dot, one)) }
    else if c == '?' { Some((Token::Question, one)) }
    else { None }
}

} // verus!
