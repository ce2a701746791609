//! String and character literals, and the escape sequences they share.
use vstd::prelude::*;
use vstd::utf8::is_scalar;
use crate::fault::{Fault, FaultKind, fault_is};
use crate::number::{digits_value, is_digit_in, radix_value, digit_of};
use crate::text::{push_char, char_from_u32};

verus! {

/// A decoded character and the index just past it, or an error.
pub enum CharScan {
    Char(char, int),
    Fail(FaultKind, int, int),
}

/// Decoded text and the index just past its closing quote, or an error.
pub enum TextScan {
    Text(Seq<char>, int),
    Fail(FaultKind, int, int),
}

pub open spec fn char_agrees(r: Result<(char, usize), Fault>, o: CharScan) -> bool {
    match o {
        CharScan::Char(c, e) => r matches Ok((x, end)) && x == c && end == e,
        CharScan::Fail(k, a, b) => r matches Err(f) && fault_is(f, k, a, b),
    }
}

pub open spec fn text_agrees(r: Result<(String, usize), Fault>, o: TextScan) -> bool {
    match o {
        TextScan::Text(t, e) => r matches Ok((x, end)) && x@ == t && end == e,
        TextScan::Fail(k, a, b) => r matches Err(f) && fault_is(f, k, a, b),
    }
}

/// The character that a one-letter escape stands for.
pub open spec fn simple_escape(c: char) -> Option<char> {
    if c == 'n' {
        Some('\n')
    } else if c == 'r' {
        Some('\r')
    } else if c == 't' {
        Some('\t')
    } else if c == '\\' {
        Some('\\')
    } else if c == '"' {
        Some('"')
    } else if c == '\'' {
        Some('\'')
    } else {
        None
    }
}

/// End of the run of hexadecimal digits that starts at `i`.
pub open spec fn hex_run_end(s: Seq<char>, i: int) -> int
    decreases s.len() - i,
{
    if 0 <= i < s.len() && is_digit_in(s[i], 16) {
        hex_run_end(s, i + 1)
    } else {
        i
    }
}

/// The escape sequence whose backslash stands at `i - 1`.
pub open spec fn escape_spec(s: Seq<char>, i: int) -> CharScan {
    let n = s.len() as int;
    if i >= n {
        CharScan::Fail(FaultKind::UnterminatedEscape, i - 1, n)
    } else if simple_escape(s[i]) is Some {
        CharScan::Char(simple_escape(s[i])->0, i + 1)
    } else if s[i] == 'u' {
        if i + 1 >= n || s[i + 1] != '{' {
            CharScan::Fail(FaultKind::ExpectedBrace, i - 1, i + 1)
        } else {
            let j = hex_run_end(s, i + 2);
            if j >= n {
                CharScan::Fail(FaultKind::UnterminatedEscape, i - 1, n)
            } else if s[j] != '}' {
                CharScan::Fail(FaultKind::InvalidHexDigit, j, j + 1)
            } else if j == i + 2 || j - (i + 2) > 6 {
                CharScan::Fail(FaultKind::HexDigitCount, i - 1, j + 1)
            } else {
                let v = digits_value(s.subrange(i + 2, j), 16);
                if !is_scalar(v as u32) {
                    CharScan::Fail(FaultKind::InvalidCodepoint, i - 1, j + 1)
                } else {
                    CharScan::Char((v as u32) as char, j + 1)
                }
            }
        }
    } else {
        CharScan::Fail(FaultKind::UnknownEscape(s[i]), i - 1, i + 1)
    }
}

pub open spec fn hex_cap(len: nat) -> nat
    decreases len,
{
    if len == 0 {
        1
    } else {
        16 * hex_cap((len - 1) as nat)
    }
}

proof fn lemma_hex_bound(t: Seq<char>)
    requires
        forall|k: int| 0 <= k < t.len() ==> is_digit_in(#[trigger] t[k], 16),
    ensures
        digits_value(t, 16) < hex_cap(t.len()),
    decreases t.len(),
{
    if t.len() > 0 {
        let p = t.drop_last();
        assert(forall|k: int| 0 <= k < p.len() ==> p[k] == t[k]);
        lemma_hex_bound(p);
        assert(is_digit_in(t[t.len() - 1], 16));
        let a = digits_value(p, 16);
        let c = hex_cap(p.len());
        assert(a * 16 + 15 < 16 * c) by (nonlinear_arith)
            requires
                a < c,
        ;
    }
}

fn hex_end(t: &Vec<char>, i: usize) -> (j: usize)
    requires
        i <= t@.len(),
    ensures
        j == hex_run_end(t@, i as int),
        i <= j <= t@.len(),
        forall|k: int| i <= k < j ==> is_digit_in(#[trigger] t@[k], 16),
{
    let n = t.len();
    let mut j = i;
    while j < n && digit_of(t[j]) < 16
        invariant
            i <= j <= n == t@.len(),
            hex_run_end(t@, j as int) == hex_run_end(t@, i as int),
            forall|k: int| i <= k < j ==> is_digit_in(#[trigger] t@[k], 16),
        decreases n - j,
    {
        j = j + 1;
    }
    j
}

/// Decodes the escape sequence whose backslash stands at `i - 1`.
pub fn read_escape(t: &Vec<char>, i: usize) -> (r: Result<(char, usize), Fault>)
    requires
        1 <= i <= t@.len(),
    ensures
        char_agrees(r, escape_spec(t@, i as int)),
        r matches Ok((_, e)) ==> i < e <= t@.len(),
        r matches Err(f) ==> f.start <= f.end <= t@.len(),
{
    let n = t.len();
    if i >= n {
        return Err(Fault { kind: FaultKind::UnterminatedEscape, start: i - 1, end: n });
    }
    let c = t[i];
    if c == 'n' {
        Ok(('\n', i + 1))
    } else if c == 'r' {
        Ok(('\r', i + 1))
    } else if c == 't' {
        Ok(('\t', i + 1))
    } else if c == '\\' {
        Ok(('\\', i + 1))
    } else if c == '"' {
        Ok(('"', i + 1))
    } else if c == '\'' {
        Ok(('\'', i + 1))
    } else if c == 'u' {
        if i + 1 >= n || t[i + 1] != '{' {
            return Err(Fault { kind: FaultKind::ExpectedBrace, start: i - 1, end: i + 1 });
        }
        let j = hex_end(t, i + 2);
        if j >= n {
            return Err(Fault { kind: FaultKind::UnterminatedEscape, start: i - 1, end: n });
        }
        if t[j] != '}' {
            return Err(Fault { kind: FaultKind::InvalidHexDigit, start: j, end: j + 1 });
        }
        if j == i + 2 || j - (i + 2) > 6 {
            return Err(Fault { kind: FaultKind::HexDigitCount, start: i - 1, end: j + 1 });
        }
        let ghost digits = t@.subrange(i + 2, j as int);
        proof {
            assert forall|k: int| 0 <= k < digits.len() implies is_digit_in(#[trigger] digits[k], 16) by {
                assert(digits[k] == t@[k + i + 2]);
            }
            lemma_hex_bound(digits);
            assert(hex_cap(digits.len()) <= hex_cap(6)) by {
                reveal_with_fuel(hex_cap, 7);
            }
        }
        let v = match radix_value(t, i + 2, j, 16) {
            Some(v) => v,
            None => {
                proof {
                    assert(false);
                }
                0
            },
        };
        match char_from_u32(v as u32) {
            Some(ch) => {
                proof {
                    vstd::utf8::char_u32_cast(ch, v as u32);
                }
                Ok((ch, j + 1))
            },
            None => Err(Fault { kind: FaultKind::InvalidCodepoint, start: i - 1, end: j + 1 }),
        }
    } else {
        Err(Fault { kind: FaultKind::UnknownEscape(c), start: i - 1, end: i + 1 })
    }
}

/// `p` put in front of the text of `o`.
pub open spec fn prefix_text(p: Seq<char>, o: TextScan) -> TextScan {
    match o {
        TextScan::Text(x, e) => TextScan::Text(p + x, e),
        TextScan::Fail(k, a, b) => TextScan::Fail(k, a, b),
    }
}

/// The body of a string literal from index `i` up to its closing quote; the
/// opening quote stands at `open`. With `escapes` off, backslashes are kept
/// as they are.
pub open spec fn string_spec(s: Seq<char>, i: int, escapes: bool, open: int) -> TextScan
    decreases s.len() - i,
{
    if i < 0 || i >= s.len() {
        TextScan::Fail(FaultKind::UnterminatedString, open, s.len() as int)
    } else if s[i] == '"' {
        TextScan::Text(Seq::empty(), i + 1)
    } else if escapes && s[i] == '\\' {
        match escape_spec(s, i + 1) {
            CharScan::Fail(k, a, b) => TextScan::Fail(k, a, b),
            CharScan::Char(c, j) => if j > i {
                prefix_text(seq![c], string_spec(s, j, escapes, open))
            } else {
                TextScan::Fail(FaultKind::UnterminatedString, open, s.len() as int)
            },
        }
    } else {
        prefix_text(seq![s[i]], string_spec(s, i + 1, escapes, open))
    }
}

proof fn lemma_prefix_text_assoc(a: Seq<char>, b: Seq<char>, o: TextScan)
    ensures
        prefix_text(a, prefix_text(b, o)) == prefix_text(a + b, o),
{
    match o {
        TextScan::Text(x, e) => {
            assert(a + (b + x) =~= (a + b) + x);
        },
        _ => {},
    }
}

/// Scans the body of a string literal whose opening quote stands at `open`.
pub fn read_string(t: &Vec<char>, open: usize, escapes: bool) -> (r: Result<(String, usize), Fault>)
    requires
        open < t@.len(),
    ensures
        text_agrees(r, string_spec(t@, open + 1, escapes, open as int)),
        r matches Ok((_, e)) ==> open < e <= t@.len(),
        r matches Err(f) ==> f.start <= f.end <= t@.len(),
{
    let n = t.len();
    let mut s = String::new();
    let mut k = open + 1;
    proof {
        assert(prefix_text(s@, string_spec(t@, k as int, escapes, open as int)) == string_spec(
            t@,
            k as int,
            escapes,
            open as int,
        )) by {
            assert(s@ =~= Seq::<char>::empty());
            match string_spec(t@, k as int, escapes, open as int) {
                TextScan::Text(x, e) => {
                    assert(Seq::<char>::empty() + x =~= x);
                },
                _ => {},
            }
        }
    }
    while k < n
        invariant
            open < k <= n == t@.len(),
            prefix_text(s@, string_spec(t@, k as int, escapes, open as int)) == string_spec(
                t@,
                open + 1,
                escapes,
                open as int,
            ),
        decreases n - k,
    {
        let c = t[k];
        if c == '"' {
            proof {
                assert(s@ + Seq::<char>::empty() =~= s@);
            }
            return Ok((s, k + 1));
        }
        if escapes && c == '\\' {
            match read_escape(t, k + 1) {
                Err(f) => {
                    return Err(f);
                },
                Ok((d, j)) => {
                    proof {
                        assert(escape_spec(t@, k + 1) == CharScan::Char(d, j as int));
                        assert(string_spec(t@, k as int, escapes, open as int) == prefix_text(seq![d], string_spec(t@, j as int, escapes, open as int)));
                        lemma_prefix_text_assoc(s@, seq![d], string_spec(t@, j as int, escapes, open as int));
                    }
                    let ghost before = s@;
                    push_char(&mut s, d);
                    assert(s@ =~= before + seq![d]);
                    k = j;
                },
            }
        } else {
            proof {
                assert(string_spec(t@, k as int, escapes, open as int) == prefix_text(seq![c], string_spec(t@, k + 1, escapes, open as int)));
                lemma_prefix_text_assoc(s@, seq![c], string_spec(t@, k + 1, escapes, open as int));
            }
            let ghost before = s@;
            push_char(&mut s, c);
            assert(s@ =~= before + seq![c]);
            k = k + 1;
        }
    }
    Err(Fault { kind: FaultKind::UnterminatedString, start: open, end: n })
}

/// The body of a character literal whose opening quote stands at `q`: one
/// character or escape, then the closing quote.
pub open spec fn char_body_spec(s: Seq<char>, q: int) -> CharScan {
    let n = s.len() as int;
    let i = q + 1;
    if i >= n {
        CharScan::Fail(FaultKind::UnterminatedChar, q, n)
    } else if s[i] == '\'' {
        CharScan::Fail(FaultKind::EmptyChar, q, i + 1)
    } else {
        let d = if s[i] == '\\' { escape_spec(s, i + 1) } else { CharScan::Char(s[i], i + 1) };
        match d {
            CharScan::Fail(k, a, b) => CharScan::Fail(k, a, b),
            CharScan::Char(c, j) => if j >= n || s[j] != '\'' {
                CharScan::Fail(FaultKind::CharNotSingle, q, j)
            } else {
                CharScan::Char(c, j + 1)
            },
        }
    }
}

/// Scans the body of a character literal whose opening quote stands at `q`.
pub fn read_char_body(t: &Vec<char>, q: usize) -> (r: Result<(char, usize), Fault>)
    requires
        q < t@.len(),
    ensures
        char_agrees(r, char_body_spec(t@, q as int)),
        r matches Ok((_, e)) ==> q < e <= t@.len(),
        r matches Err(f) ==> f.start <= f.end <= t@.len(),
{
    let n = t.len();
    let i = q + 1;
    if i >= n {
        return Err(Fault { kind: FaultKind::UnterminatedChar, start: q, end: n });
    }
    if t[i] == '\'' {
        return Err(Fault { kind: FaultKind::EmptyChar, start: q, end: i + 1 });
    }
    let (c, j) = if t[i] == '\\' {
        match read_escape(t, i + 1) {
            Err(f) => {
                return Err(f);
            },
            Ok(p) => p,
        }
    } else {
        (t[i], i + 1)
    };
    if j >= n || t[j] != '\'' {
        return Err(Fault { kind: FaultKind::CharNotSingle, start: q, end: j });
    }
    Ok((c, j + 1))
}

} // verus!
