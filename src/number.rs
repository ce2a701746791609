//! Numeric literals: integers in bases 2, 8, 10 and 16, and decimal floats.
use vstd::prelude::*;
use crate::fault::{Fault, FaultKind, fault_is};
use crate::text::{chars_of, push_char, is_ascii_digit};
use crate::token::Token;

verus! {

/// Largest value that the digit accumulator keeps exactly: the magnitude of `i64::MIN`.
pub const MAGNITUDE_LIMIT: u64 = 0x8000_0000_0000_0000;

/// Value of a digit character in bases up to 36; 36 for anything that is no digit.
pub open spec fn digit_value(c: char) -> nat {
    if '0' <= c <= '9' {
        (c as u32 - '0' as u32) as nat
    } else if 'a' <= c <= 'z' {
        (c as u32 - 'a' as u32 + 10) as nat
    } else if 'A' <= c <= 'Z' {
        (c as u32 - 'A' as u32 + 10) as nat
    } else {
        36
    }
}

pub open spec fn is_digit_in(c: char, base: nat) -> bool {
    digit_value(c) < base
}

/// Value of a run of digits in `base`, digit separators `_` ignored.
pub open spec fn digits_value(t: Seq<char>, base: nat) -> nat
    decreases t.len(),
{
    if t.len() == 0 {
        0
    } else if t.last() == '_' {
        digits_value(t.drop_last(), base)
    } else {
        digits_value(t.drop_last(), base) * base + digit_value(t.last())
    }
}

/// `t` without its digit separators.
pub open spec fn without_separators(t: Seq<char>) -> Seq<char>
    decreases t.len(),
{
    if t.len() == 0 {
        t
    } else if t.last() == '_' {
        without_separators(t.drop_last())
    } else {
        without_separators(t.drop_last()).push(t.last())
    }
}

/// Some character of `t` is not a separator.
pub open spec fn has_digit(t: Seq<char>) -> bool {
    exists|k: int| 0 <= k < t.len() && t[k] != '_'
}

/// End of the run of digits of `base` and separators that starts at `i`.
pub open spec fn run_end(s: Seq<char>, i: int, base: nat) -> int
    decreases s.len() - i,
{
    if 0 <= i < s.len() && (s[i] == '_' || is_digit_in(s[i], base)) {
        run_end(s, i + 1, base)
    } else {
        i
    }
}

/// The base that the letter after a leading `0` selects, if any.
pub open spec fn base_marker(c: char) -> Option<nat> {
    if c == 'x' || c == 'X' {
        Some(16)
    } else if c == 'b' || c == 'B' {
        Some(2)
    } else if c == 'o' || c == 'O' {
        Some(8)
    } else {
        None
    }
}

/// What a numeric literal denotes.
pub enum NumberValue {
    Int(int),
    Float(Seq<char>),
}

/// The outcome of scanning a numeric literal.
pub enum NumberScan {
    Lit(NumberValue, int),
    Fail(FaultKind, int, int),
}

/// Integer outcome for the digit run `s[lo..hi]`, whose literal starts at `i`.
pub open spec fn int_outcome(s: Seq<char>, i: int, lo: int, hi: int, base: nat) -> NumberScan {
    if digits_value(s.subrange(lo, hi), base) > i64::MAX {
        NumberScan::Fail(FaultKind::IntegerTooLarge, i, hi)
    } else {
        NumberScan::Lit(NumberValue::Int(digits_value(s.subrange(lo, hi), base) as int), hi)
    }
}

/// The numeric literal that starts with the decimal digit at `i`.
pub open spec fn number_spec(s: Seq<char>, i: int) -> NumberScan {
    let n = s.len() as int;
    if s[i] == '0' && i + 1 < n && base_marker(s[i + 1]) is Some {
        let base = base_marker(s[i + 1])->0;
        let j = run_end(s, i + 2, base);
        if !has_digit(s.subrange(i + 2, j)) {
            NumberScan::Fail(FaultKind::InvalidInteger, i, j)
        } else {
            int_outcome(s, i, i + 2, j, base)
        }
    } else {
        let j1 = run_end(s, i, 10);
        let frac = j1 < n && j1 + 1 < n && s[j1] == '.' && is_ascii_digit(s[j1 + 1]);
        let j2 = if frac { run_end(s, j1 + 1, 10) } else { j1 };
        if j2 < n && (s[j2] == 'e' || s[j2] == 'E') {
            let k = if j2 + 1 < n && (s[j2 + 1] == '+' || s[j2 + 1] == '-') { j2 + 2 } else { j2 + 1 };
            let j3 = run_end(s, k, 10);
            if !has_digit(s.subrange(k, j3)) {
                NumberScan::Fail(FaultKind::InvalidExponent, i, j3)
            } else {
                NumberScan::Lit(NumberValue::Float(without_separators(s.subrange(i, j3))), j3)
            }
        } else if frac {
            NumberScan::Lit(NumberValue::Float(without_separators(s.subrange(i, j2))), j2)
        } else {
            int_outcome(s, i, i, j1, 10)
        }
    }
}

/// The exec result `r` agrees with the spec outcome `o`.
pub open spec fn number_agrees(r: Result<(Token, usize), Fault>, o: NumberScan) -> bool {
    match o {
        NumberScan::Lit(NumberValue::Int(v), e) => r matches Ok((Token::Int(x), end)) && x == v
            && end == e,
        NumberScan::Lit(NumberValue::Float(t), e) => r matches Ok((Token::Float(x), end)) && x@
            == t && end == e,
        NumberScan::Fail(k, a, b) => r matches Err(f) && fault_is(f, k, a, b),
    }
}

pub fn digit_of(c: char) -> (r: u32)
    ensures
        r as nat == digit_value(c),
{
    if '0' <= c && c <= '9' {
        c as u32 - '0' as u32
    } else if 'a' <= c && c <= 'z' {
        c as u32 - 'a' as u32 + 10
    } else if 'A' <= c && c <= 'Z' {
        c as u32 - 'A' as u32 + 10
    } else {
        36
    }
}

proof fn lemma_accumulate(acc: int, base: int, d: int, lim: int)
    requires
        2 <= base <= 36,
        0 <= d < base,
        d <= lim,
        0 <= acc,
    ensures
        acc <= (lim - d) / base ==> acc * base + d <= lim,
        acc > (lim - d) / base ==> acc * base + d > lim,
{
    let q = (lim - d) / base;
    assert(q * base <= lim - d && lim - d < q * base + base) by (nonlinear_arith)
        requires
            q == (lim - d) / base,
            base > 0,
            lim - d >= 0,
    ;
    if acc <= q {
        assert(acc * base <= q * base) by (nonlinear_arith)
            requires
                acc <= q,
                base > 0,
        ;
    } else {
        assert(acc * base >= q * base + base) by (nonlinear_arith)
            requires
                acc >= q + 1,
                base > 0,
        ;
    }
}

/// Value of the digits and separators `t[lo..hi]` in `base`, when it is at
/// most the magnitude of `i64::MIN`.
pub fn radix_value(t: &Vec<char>, lo: usize, hi: usize, base: u32) -> (r: Option<u64>)
    requires
        lo <= hi <= t@.len(),
        2 <= base <= 36,
        forall|k: int| lo <= k < hi ==> t@[k] == '_' || is_digit_in(#[trigger] t@[k], base as nat),
    ensures
        r is Some <==> digits_value(t@.subrange(lo as int, hi as int), base as nat)
            <= MAGNITUDE_LIMIT,
        r matches Some(v) ==> v == digits_value(t@.subrange(lo as int, hi as int), base as nat),
{
    let mut acc: u64 = 0;
    let mut over = false;
    let mut k = lo;
    assert(t@.subrange(lo as int, lo as int).len() == 0);
    while k < hi
        invariant
            lo <= k <= hi <= t@.len(),
            2 <= base <= 36,
            forall|m: int| lo <= m < hi ==> t@[m] == '_' || is_digit_in(#[trigger] t@[m], base as nat),
            !over ==> acc == digits_value(t@.subrange(lo as int, k as int), base as nat),
            !over ==> acc <= MAGNITUDE_LIMIT,
            over ==> digits_value(t@.subrange(lo as int, k as int), base as nat) > MAGNITUDE_LIMIT,
        decreases hi - k,
    {
        let c = t[k];
        let ghost prev = t@.subrange(lo as int, k as int);
        assert(t@.subrange(lo as int, k + 1).drop_last() =~= prev);
        if c != '_' {
            let d = digit_of(c);
            proof {
                lemma_accumulate(acc as int, base as int, d as int, MAGNITUDE_LIMIT as int);
                let pv = digits_value(prev, base as nat);
                assert(pv * (base as nat) + d >= pv) by (nonlinear_arith)
                    requires base >= 2;
            }
            if !over {
                if acc <= (MAGNITUDE_LIMIT - d as u64) / base as u64 {
                    acc = acc * base as u64 + d as u64;
                } else {
                    over = true;
                }
            }
        }
        k = k + 1;
    }
    if over {
        None
    } else {
        Some(acc)
    }
}

/// Whether `t` starts with a sign character.
pub open spec fn has_sign(t: Seq<char>) -> bool {
    t.len() > 0 && (t[0] == '-' || t[0] == '+')
}

/// `t` after its sign, if any.
pub open spec fn unsigned_part(t: Seq<char>) -> Seq<char> {
    if has_sign(t) { t.drop_first() } else { t }
}

pub open spec fn all_digits_in(t: Seq<char>, base: nat) -> bool {
    forall|k: int| 0 <= k < t.len() ==> is_digit_in(#[trigger] t[k], base)
}

/// Result of `i64::from_str_radix` on `t`: an optional sign, then one or more
/// digits of `base`, whose value must fit in `i64`.
pub open spec fn radix_parse(t: Seq<char>, base: nat) -> Option<int> {
    let body = unsigned_part(t);
    if body.len() == 0 || !all_digits_in(body, base) {
        None
    } else {
        let v = digits_value(body, base) as int;
        let x = if has_sign(t) && t[0] == '-' { -v } else { v };
        if i64::MIN <= x <= i64::MAX { Some(x) } else { None }
    }
}

/// Whether every character of `t` from `lo` on is a digit of `base`.
fn digits_from(t: &Vec<char>, lo: usize, base: u32) -> (r: bool)
    requires
        lo <= t@.len(),
    ensures
        r == forall|m: int| lo <= m < t@.len() ==> is_digit_in(#[trigger] t@[m], base as nat),
{
    let n = t.len();
    let mut k = lo;
    while k < n
        invariant
            lo <= k <= n == t@.len(),
            forall|m: int| lo <= m < k ==> is_digit_in(#[trigger] t@[m], base as nat),
        decreases n - k,
    {
        if digit_of(t[k]) >= base {
            return false;
        }
        k = k + 1;
    }
    true
}

/// Parses `s` as an integer in `base`, with an optional leading sign.
pub fn i64_from_radix(s: &str, base: u32) -> (r: Result<i64, ()>)
    requires
        2 <= base <= 36,
    ensures
        match radix_parse(s@, base as nat) {
            Some(x) => r == Ok::<i64, ()>(x as i64),
            None => r is Err,
        },
{
    let t = chars_of(s);
    let n = t.len();
    let signed = n > 0 && (t[0] == '-' || t[0] == '+');
    let lo: usize = if signed { 1 } else { 0 };
    let ghost body = unsigned_part(s@);
    assert(body =~= t@.subrange(lo as int, n as int));
    if lo == n {
        return Err(());
    }
    if !digits_from(&t, lo, base) {
        assert(!all_digits_in(body, base as nat)) by {
            let m = choose|m: int| lo <= m < n && !is_digit_in(#[trigger] t@[m], base as nat);
            assert(body[m - lo] == t@[m]);
        }
        return Err(());
    }
    assert(all_digits_in(body, base as nat)) by {
        assert forall|m: int| 0 <= m < body.len() implies is_digit_in(#[trigger] body[m], base as nat) by {
            assert(body[m] == t@[m + lo]);
        }
    }
    match radix_value(&t, lo, n, base) {
        None => Err(()),
        Some(v) => {
            if signed && t[0] == '-' {
                if v == MAGNITUDE_LIMIT {
                    Ok(i64::MIN)
                } else {
                    Ok(-(v as i64))
                }
            } else if v <= i64::MAX as u64 {
                Ok(v as i64)
            } else {
                Err(())
            }
        },
    }
}

/// Scans the run of digits of `base` and separators that starts at `i`;
/// also tells whether the run holds a digit.
fn scan_run(t: &Vec<char>, i: usize, base: u32) -> (r: (usize, bool))
    requires
        i <= t@.len(),
        2 <= base <= 36,
    ensures
        r.0 == run_end(t@, i as int, base as nat),
        i <= r.0 <= t@.len(),
        r.1 == has_digit(t@.subrange(i as int, r.0 as int)),
        forall|k: int| i <= k < r.0 ==> t@[k] == '_' || is_digit_in(#[trigger] t@[k], base as nat),
        i < t@.len() && (t@[i as int] == '_' || is_digit_in(t@[i as int], base as nat)) ==> i
            < r.0,
{
    let n = t.len();
    let mut j = i;
    let mut digit = false;
    while j < n && (t[j] == '_' || digit_of(t[j]) < base)
        invariant
            i <= j <= n == t@.len(),
            2 <= base <= 36,
            run_end(t@, j as int, base as nat) == run_end(t@, i as int, base as nat),
            digit == has_digit(t@.subrange(i as int, j as int)),
            forall|k: int| i <= k < j ==> t@[k] == '_' || is_digit_in(#[trigger] t@[k], base as nat),
        decreases n - j,
    {
        let ghost before = t@.subrange(i as int, j as int);
        let ghost after = t@.subrange(i as int, j + 1);
        assert(forall|m: int| 0 <= m < before.len() ==> after[m] == before[m]);
        if t[j] != '_' {
            assert(after[j - i] != '_');
            digit = true;
        } else {
            assert(has_digit(after) ==> has_digit(before));
        }
        j = j + 1;
    }
    (j, digit)
}

/// The characters `t[lo..hi]` without digit separators, as a string.
fn strip_separators(t: &Vec<char>, lo: usize, hi: usize) -> (r: String)
    requires
        lo <= hi <= t@.len(),
    ensures
        r@ == without_separators(t@.subrange(lo as int, hi as int)),
{
    let mut s = String::new();
    let mut k = lo;
    assert(t@.subrange(lo as int, lo as int) =~= Seq::<char>::empty());
    while k < hi
        invariant
            lo <= k <= hi <= t@.len(),
            s@ == without_separators(t@.subrange(lo as int, k as int)),
        decreases hi - k,
    {
        assert(t@.subrange(lo as int, k + 1).drop_last() =~= t@.subrange(lo as int, k as int));
        if t[k] != '_' {
            push_char(&mut s, t[k]);
        }
        k = k + 1;
    }
    s
}

/// The integer token for the digit run `t[lo..hi]` of a literal starting at `i`.
fn int_token(t: &Vec<char>, i: usize, lo: usize, hi: usize, base: u32) -> (r: Result<(Token, usize), Fault>)
    requires
        i <= lo <= hi <= t@.len(),
        2 <= base <= 36,
        forall|k: int| lo <= k < hi ==> t@[k] == '_' || is_digit_in(#[trigger] t@[k], base as nat),
    ensures
        number_agrees(r, int_outcome(t@, i as int, lo as int, hi as int, base as nat)),
        r matches Ok((_, e)) ==> e == hi,
        r matches Err(f) ==> f.start == i && f.end == hi,
{
    match radix_value(t, lo, hi, base) {
        Some(v) => {
            if v <= i64::MAX as u64 {
                Ok((Token::Int(v as i64), hi))
            } else {
                Err(Fault { kind: FaultKind::IntegerTooLarge, start: i, end: hi })
            }
        },
        None => Err(Fault { kind: FaultKind::IntegerTooLarge, start: i, end: hi }),
    }
}

/// Scans the numeric literal that starts with the decimal digit at `i`.
pub fn read_number(t: &Vec<char>, i: usize) -> (r: Result<(Token, usize), Fault>)
    requires
        i < t@.len(),
        is_ascii_digit(t@[i as int]),
    ensures
        number_agrees(r, number_spec(t@, i as int)),
        r matches Ok((_, e)) ==> i < e <= t@.len(),
        r matches Err(f) ==> i <= f.start <= f.end <= t@.len(),
{
    let n = t.len();
    if t[i] == '0' && i + 1 < n {
        let c = t[i + 1];
        let base: u32 = if c == 'x' || c == 'X' {
            16
        } else if c == 'b' || c == 'B' {
            2
        } else if c == 'o' || c == 'O' {
            8
        } else {
            0
        };
        if base != 0 {
            let (j, digit) = scan_run(t, i + 2, base);
            if !digit {
                return Err(Fault { kind: FaultKind::InvalidInteger, start: i, end: j });
            }
            return int_token(t, i, i + 2, j, base);
        }
    }
    let (j1, _) = scan_run(t, i, 10);
    assert(t@[i as int] != '_');
    let frac = j1 < n && j1 + 1 < n && t[j1] == '.' && ascii_digit_at(t, j1 + 1);
    let j2 = if frac {
        scan_run(t, j1 + 1, 10).0
    } else {
        j1
    };
    if j2 < n && (t[j2] == 'e' || t[j2] == 'E') {
        let k = if j2 + 1 < n && (t[j2 + 1] == '+' || t[j2 + 1] == '-') {
            j2 + 2
        } else {
            j2 + 1
        };
        let (j3, digit) = scan_run(t, k, 10);
        if !digit {
            return Err(Fault { kind: FaultKind::InvalidExponent, start: i, end: j3 });
        }
        Ok((Token::Float(strip_separators(t, i, j3)), j3))
    } else if frac {
        Ok((Token::Float(strip_separators(t, i, j2)), j2))
    } else {
        int_token(t, i, i, j1, 10)
    }
}

fn ascii_digit_at(t: &Vec<char>, k: usize) -> (r: bool)
    requires
        k < t@.len(),
    ensures
        r == is_ascii_digit(t@[k as int]),
{
    '0' <= t[k] && t[k] <= '9'
}

} // verus!
