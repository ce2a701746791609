//! Inserting a digit separator into a numeric literal changes nothing but
//! the literal's length.
use vstd::prelude::*;
use crate::fault::FaultKind;
use crate::number::{
    NumberScan, NumberValue, int_outcome, base_marker, digits_value, has_digit, is_digit_in, number_spec, run_end,
    without_separators,
};

verus! {

/// `s` with a `_` inserted before index `p`.
pub open spec fn insert_separator(s: Seq<char>, p: int) -> Seq<char> {
    s.take(p) + seq!['_'] + s.skip(p)
}

/// `o` with every end index moved one place on.
pub open spec fn shifted(o: NumberScan) -> NumberScan {
    match o {
        NumberScan::Lit(v, e) => NumberScan::Lit(v, e + 1),
        NumberScan::Fail(k, a, b) => NumberScan::Fail(k, a, b + 1),
    }
}

pub open spec fn scan_end(o: NumberScan) -> int {
    match o {
        NumberScan::Lit(_, e) => e,
        NumberScan::Fail(_, _, b) => b,
    }
}

pub open spec fn is_run_char(c: char, base: nat) -> bool {
    c == '_' || is_digit_in(c, base)
}

proof fn lemma_insert_index(s: Seq<char>, p: int)
    requires
        0 <= p <= s.len(),
    ensures
        insert_separator(s, p).len() == s.len() + 1,
        forall|q: int| 0 <= q < p ==> #[trigger] insert_separator(s, p)[q] == s[q],
        insert_separator(s, p)[p] == '_',
        forall|q: int| p < q <= s.len() ==> #[trigger] insert_separator(s, p)[q] == s[q - 1],
{
}

proof fn lemma_run_bounds(s: Seq<char>, k: int, base: nat)
    requires
        0 <= k <= s.len(),
    ensures
        k <= run_end(s, k, base) <= s.len(),
        forall|q: int| k <= q < run_end(s, k, base) ==> is_run_char(#[trigger] s[q], base),
        run_end(s, k, base) < s.len() ==> !is_run_char(s[run_end(s, k, base)], base),
    decreases s.len() - k,
{
    if k < s.len() && is_run_char(s[k], base) {
        lemma_run_bounds(s, k + 1, base);
    }
}

/// How a run of `s` starting at `k` corresponds to a run of the text with a
/// separator inserted before `p`.
proof fn lemma_run_after_insert(s: Seq<char>, p: int, k: int, base: nat)
    requires
        0 <= k <= s.len(),
        0 <= p <= s.len(),
    ensures
        k >= p ==> run_end(insert_separator(s, p), k + 1, base) == run_end(s, k, base) + 1,
        k < p && p <= run_end(s, k, base) ==> run_end(insert_separator(s, p), k, base) == run_end(
            s,
            k,
            base,
        ) + 1,
        run_end(s, k, base) < p ==> run_end(insert_separator(s, p), k, base) == run_end(s, k, base),
    decreases s.len() - k,
{
    let t = insert_separator(s, p);
    lemma_insert_index(s, p);
    lemma_run_bounds(s, k, base);
    if k < s.len() && is_run_char(s[k], base) {
        lemma_run_after_insert(s, p, k + 1, base);
    }
    if k == p {
        assert(run_end(t, k, base) == run_end(t, k + 1, base));
    }
    if k < p && p <= run_end(s, k, base) && k + 1 == p {
        lemma_run_after_insert(s, p, p, base);
        assert(run_end(t, p, base) == run_end(t, p + 1, base));
    }
}

proof fn lemma_values_ignore_separator(a: Seq<char>, b: Seq<char>, base: nat)
    ensures
        digits_value(a + seq!['_'] + b, base) == digits_value(a + b, base),
        without_separators(a + seq!['_'] + b) == without_separators(a + b),
        has_digit(a + seq!['_'] + b) == has_digit(a + b),
    decreases b.len(),
{
    let x = a + seq!['_'] + b;
    let y = a + b;
    if b.len() == 0 {
        assert(x.drop_last() =~= a);
        assert(y =~= a);
    } else {
        lemma_values_ignore_separator(a, b.drop_last(), base);
        assert(x.drop_last() =~= a + seq!['_'] + b.drop_last());
        assert(y.drop_last() =~= a + b.drop_last());
    }
    if has_digit(x) {
        let m = choose|m: int| 0 <= m < x.len() && x[m] != '_';
        if m < a.len() {
            assert(y[m] != '_');
        } else {
            assert(y[m - 1] != '_');
        }
    }
    if has_digit(y) {
        let m = choose|m: int| 0 <= m < y.len() && y[m] != '_';
        if m < a.len() {
            assert(x[m] != '_');
        } else {
            assert(x[m + 1] != '_');
        }
    }
}

/// The run `s[lo..hi]` and its counterpart in `s` with a separator inserted
/// before `p`, for `lo <= p <= hi`, have the same value, digits and text.
proof fn lemma_run_values(s: Seq<char>, p: int, lo: int, hi: int, base: nat)
    requires
        0 <= lo <= p <= hi <= s.len(),
    ensures
        digits_value(insert_separator(s, p).subrange(lo, hi + 1), base) == digits_value(
            s.subrange(lo, hi),
            base,
        ),
        without_separators(insert_separator(s, p).subrange(lo, hi + 1)) == without_separators(
            s.subrange(lo, hi),
        ),
        has_digit(insert_separator(s, p).subrange(lo, hi + 1)) == has_digit(s.subrange(lo, hi)),
{
    let a = s.subrange(lo, p);
    let b = s.subrange(p, hi);
    assert(insert_separator(s, p).subrange(lo, hi + 1) =~= a + seq!['_'] + b);
    assert(s.subrange(lo, hi) =~= a + b);
    lemma_values_ignore_separator(a, b, base);
}

proof fn lemma_run_values_after(s: Seq<char>, p: int, lo: int, hi: int)
    requires
        0 <= p <= lo <= hi <= s.len(),
    ensures
        insert_separator(s, p).subrange(lo + 1, hi + 1) == s.subrange(lo, hi),
{
    assert(insert_separator(s, p).subrange(lo + 1, hi + 1) =~= s.subrange(lo, hi));
}

proof fn lemma_run_values_before(s: Seq<char>, p: int, lo: int, hi: int)
    requires
        0 <= lo <= hi <= p <= s.len(),
    ensures
        insert_separator(s, p).subrange(lo, hi) == s.subrange(lo, hi),
{
    assert(insert_separator(s, p).subrange(lo, hi) =~= s.subrange(lo, hi));
}

/// The base that the literal starting at `0` of `s` is written in.
pub open spec fn literal_base(s: Seq<char>) -> nat {
    if s[0] == '0' && 1 < s.len() && base_marker(s[1]) is Some {
        base_marker(s[1])->0
    } else {
        10
    }
}

proof fn lemma_prefixed_insertion(s: Seq<char>, p: int)
    requires
        s.len() >= 2,
        s[0] == '0',
        base_marker(s[1]) is Some,
        3 <= p <= run_end(s, 2, base_marker(s[1])->0),
        p <= s.len(),
    ensures
        number_spec(insert_separator(s, p), 0) == shifted(number_spec(s, 0)),
{
    let t = insert_separator(s, p);
    let base = base_marker(s[1])->0;
    let j = run_end(s, 2, base);
    lemma_insert_index(s, p);
    lemma_run_bounds(s, 2, base);
    assert(t[1] == s[1]);
    lemma_run_after_insert(s, p, 2, base);
    lemma_run_values(s, p, 2, j, base);
}

/// The pieces of a decimal literal starting at `0`: the end of its integer
/// run, whether a fraction follows, the end of the fraction, whether an
/// exponent follows, where the exponent's digits start and end.
pub open spec fn decimal_parts(s: Seq<char>) -> (int, bool, int, bool, int, int) {
    let n = s.len() as int;
    let j1 = run_end(s, 0, 10);
    let frac = j1 + 1 < n && s[j1] == '.' && '0' <= s[j1 + 1] <= '9';
    let j2 = if frac { run_end(s, j1 + 1, 10) } else { j1 };
    let exp = j2 < n && (s[j2] == 'e' || s[j2] == 'E');
    let k = if j2 + 1 < n && (s[j2 + 1] == '+' || s[j2 + 1] == '-') { j2 + 2 } else { j2 + 1 };
    (j1, frac, j2, exp, k, run_end(s, k, 10))
}

proof fn lemma_decimal_parts_bounds(s: Seq<char>)
    requires
        s.len() >= 1,
        '0' <= s[0] <= '9',
    ensures
        ({
            let (j1, frac, j2, exp, k, j3) = decimal_parts(s);
            &&& 1 <= j1 <= j2 <= s.len()
            &&& forall|q: int| 0 <= q < j1 ==> is_run_char(#[trigger] s[q], 10)
            &&& j1 < s.len() ==> !is_run_char(s[j1], 10)
            &&& frac ==> j1 + 2 <= j2
            &&& (frac && j2 < s.len()) ==> !is_run_char(s[j2], 10)
            &&& exp ==> j2 + 1 <= k <= j3 <= s.len() && k <= j2 + 2
            &&& exp && k == j2 + 2 ==> !is_digit_in(s[j2 + 1], 10)
        }),
{
    let (j1, frac, j2, exp, k, j3) = decimal_parts(s);
    lemma_run_bounds(s, 0, 10);
    if frac {
        lemma_run_bounds(s, j1 + 1, 10);
    }
    if exp {
        lemma_run_bounds(s, k, 10);
    }
}

/// Inserting one `_` right after a digit of a numeric literal (not after the
/// `0` of a `0x`, `0b` or `0o` prefix) never changes what the literal scans
/// to: the same value, or the same error, with its end one place later.
pub proof fn lemma_separator_insertion(s: Seq<char>, p: int)
    requires
        s.len() >= 1,
        '0' <= s[0] <= '9',
        1 <= p <= scan_end(number_spec(s, 0)),
        is_digit_in(s[p - 1], literal_base(s)),
        literal_base(s) != 10 ==> p >= 2,
    ensures
        number_spec(insert_separator(s, p), 0) == shifted(number_spec(s, 0)),
{
    if s[0] == '0' && 1 < s.len() && base_marker(s[1]) is Some {
        lemma_run_bounds(s, 2, base_marker(s[1])->0);
        lemma_prefixed_insertion(s, p);
    } else {
        lemma_decimal_outcome(s);
        lemma_decimal_parts_bounds(s);
        assert(p <= s.len());
        lemma_decimal_insertion(s, p);
    }
}

/// What a decimal literal starting at `0` scans to, in terms of its pieces.
pub open spec fn decimal_outcome(s: Seq<char>) -> NumberScan {
    let (j1, frac, j2, exp, k, j3) = decimal_parts(s);
    if exp {
        if !has_digit(s.subrange(k, j3)) {
            NumberScan::Fail(FaultKind::InvalidExponent, 0, j3)
        } else {
            NumberScan::Lit(NumberValue::Float(without_separators(s.subrange(0, j3))), j3)
        }
    } else if frac {
        NumberScan::Lit(NumberValue::Float(without_separators(s.subrange(0, j2))), j2)
    } else {
        int_outcome(s, 0, 0, j1, 10)
    }
}

proof fn lemma_decimal_outcome(s: Seq<char>)
    requires
        s.len() >= 1,
        !(s[0] == '0' && 1 < s.len() && base_marker(s[1]) is Some),
    ensures
        number_spec(s, 0) == decimal_outcome(s),
{
}

proof fn lemma_parts_in_integer(s: Seq<char>, p: int)
    requires
        s.len() >= 1,
        p <= s.len(),
        '0' <= s[0] <= '9',
        1 <= p <= decimal_parts(s).0,
    ensures
        ({
            let (j1, frac, j2, exp, k, j3) = decimal_parts(s);
            decimal_parts(insert_separator(s, p)) == (j1 + 1, frac, j2 + 1, exp, k + 1, j3 + 1)
        }),
{
    let t = insert_separator(s, p);
    lemma_decimal_parts_bounds(s);
    let (j1, frac, j2, exp, k, j3) = decimal_parts(s);
    lemma_insert_index(s, p);
    lemma_run_after_insert(s, p, 0, 10);
    if j1 + 1 <= s.len() {
        lemma_run_after_insert(s, p, j1 + 1, 10);
    }
    if j2 + 1 <= s.len() {
        lemma_run_after_insert(s, p, j2 + 1, 10);
    }
    if j2 + 2 <= s.len() {
        lemma_run_after_insert(s, p, j2 + 2, 10);
    }
}

proof fn lemma_parts_in_fraction(s: Seq<char>, p: int)
    requires
        s.len() >= 1,
        p <= s.len(),
        '0' <= s[0] <= '9',
        decimal_parts(s).1,
        decimal_parts(s).0 < p <= decimal_parts(s).2,
        is_digit_in(s[p - 1], 10),
    ensures
        ({
            let (j1, frac, j2, exp, k, j3) = decimal_parts(s);
            decimal_parts(insert_separator(s, p)) == (j1, frac, j2 + 1, exp, k + 1, j3 + 1)
        }),
{
    let t = insert_separator(s, p);
    lemma_decimal_parts_bounds(s);
    let (j1, frac, j2, exp, k, j3) = decimal_parts(s);
    lemma_insert_index(s, p);
    assert(p >= j1 + 2);
    lemma_run_after_insert(s, p, 0, 10);
    lemma_run_after_insert(s, p, j1 + 1, 10);
    if j2 + 2 <= s.len() {
        lemma_run_after_insert(s, p, j2 + 2, 10);
    }
    if j2 + 1 <= s.len() {
        lemma_run_after_insert(s, p, j2 + 1, 10);
    }
}

proof fn lemma_parts_in_exponent(s: Seq<char>, p: int)
    requires
        s.len() >= 1,
        p <= s.len(),
        '0' <= s[0] <= '9',
        decimal_parts(s).3,
        decimal_parts(s).2 < p <= decimal_parts(s).5,
        is_digit_in(s[p - 1], 10),
    ensures
        ({
            let (j1, frac, j2, exp, k, j3) = decimal_parts(s);
            &&& k < p
            &&& decimal_parts(insert_separator(s, p)) == (j1, frac, j2, exp, k, j3 + 1)
        }),
{
    let t = insert_separator(s, p);
    lemma_decimal_parts_bounds(s);
    let (j1, frac, j2, exp, k, j3) = decimal_parts(s);
    lemma_insert_index(s, p);
    assert(p - 1 != j2);
    assert(k < p);
    lemma_run_after_insert(s, p, 0, 10);
    if frac {
        lemma_run_after_insert(s, p, j1 + 1, 10);
    }
    lemma_run_after_insert(s, p, k, 10);
}

proof fn lemma_decimal_insertion(s: Seq<char>, p: int)
    requires
        s.len() >= 1,
        '0' <= s[0] <= '9',
        !(s[0] == '0' && 1 < s.len() && base_marker(s[1]) is Some),
        1 <= p <= scan_end(number_spec(s, 0)),
        p <= s.len(),
        is_digit_in(s[p - 1], 10),
    ensures
        number_spec(insert_separator(s, p), 0) == shifted(number_spec(s, 0)),
{
    let t = insert_separator(s, p);
    lemma_insert_index(s, p);
    assert(t[0] == s[0]);
    assert(!(t[0] == '0' && 1 < t.len() && base_marker(t[1]) is Some)) by {
        if p > 1 {
            assert(t[1] == s[1]);
        }
    }
    lemma_decimal_outcome(s);
    lemma_decimal_outcome(t);
    lemma_decimal_parts_bounds(s);
    let (j1, frac, j2, exp, k, j3) = decimal_parts(s);
    if p <= j1 {
        lemma_parts_in_integer(s, p);
        lemma_run_values(s, p, 0, j1, 10);
        lemma_run_values(s, p, 0, j2, 10);
        if exp {
            lemma_run_values_after(s, p, k, j3);
            lemma_run_values(s, p, 0, j3, 10);
        }
    } else if frac && p <= j2 {
        lemma_parts_in_fraction(s, p);
        lemma_run_values(s, p, 0, j2, 10);
        if exp {
            lemma_run_values_after(s, p, k, j3);
            lemma_run_values(s, p, 0, j3, 10);
        }
    } else {
        assert(exp);
        lemma_parts_in_exponent(s, p);
        lemma_run_values(s, p, k, j3, 10);
        lemma_run_values(s, p, 0, j3, 10);
    }
}

} // verus!
