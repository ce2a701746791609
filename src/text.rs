//! Source text as an indexable sequence of characters, with the byte offset
//! of every character boundary, plus the character classes the scanner uses.
use vstd::prelude::*;
use vstd::utf8::*;
use vstd::std_specs::iter::IteratorSpec;

verus! {

/// Number of bytes in the UTF-8 encoding of `s`.
pub open spec fn byte_len(s: Seq<char>) -> nat {
    encode_utf8(s).len()
}

/// Byte offset of the character boundary before index `i` of `s`.
pub open spec fn byte_offset(s: Seq<char>, i: int) -> nat {
    byte_len(s.take(i))
}

pub proof fn lemma_byte_len_concat(a: Seq<char>, b: Seq<char>)
    ensures
        byte_len(a + b) == byte_len(a) + byte_len(b),
    decreases a.len(),
{
    if a.len() == 0 {
        assert(a + b =~= b);
    } else {
        assert((a + b).drop_first() =~= a.drop_first() + b);
        lemma_byte_len_concat(a.drop_first(), b);
    }
}

pub proof fn lemma_byte_offset_step(s: Seq<char>, i: int)
    requires
        0 <= i < s.len(),
    ensures
        byte_offset(s, i + 1) == byte_offset(s, i) + encode_scalar(s[i] as u32).len(),
{
    assert(s.take(i + 1) =~= s.take(i) + seq![s[i]]);
    lemma_byte_len_concat(s.take(i), seq![s[i]]);
    let one = seq![s[i]];
    assert(one.drop_first() =~= Seq::<char>::empty());
    assert(encode_utf8(Seq::<char>::empty()) =~= Seq::<u8>::empty());
    assert(encode_utf8(one) =~= encode_scalar(one[0] as u32) + encode_utf8(one.drop_first()));
    assert(encode_utf8(one) =~= encode_scalar(s[i] as u32));
}

pub proof fn lemma_byte_offset_mono(s: Seq<char>, i: int, j: int)
    requires
        0 <= i <= j <= s.len(),
    ensures
        byte_offset(s, i) <= byte_offset(s, j),
        byte_offset(s, j) <= byte_len(s),
{
    assert(s.take(j) =~= s.take(i) + s.subrange(i, j));
    lemma_byte_len_concat(s.take(i), s.subrange(i, j));
    assert(s =~= s.take(j) + s.skip(j));
    lemma_byte_len_concat(s.take(j), s.skip(j));
}

/// Length in bytes of the UTF-8 encoding of `c`.
pub fn char_width(c: char) -> (w: usize)
    ensures
        w == encode_scalar(c as u32).len(),
        1 <= w <= 4,
{
    let v = c as u32;
    if v <= 0x7F {
        1
    } else if v <= 0x7FF {
        2
    } else if v <= 0xFFFF {
        proof {
            broadcast use char_is_scalar;
            assert(is_scalar(c as u32));
        }
        3
    } else {
        4
    }
}

/// Copies the characters of `s` into a vector.
pub fn chars_of(s: &str) -> (v: Vec<char>)
    ensures
        v@ == s@,
{
    let mut it = s.chars();
    let mut v: Vec<char> = Vec::new();
    loop
        invariant
            it.remaining() == s@.skip(v@.len() as int),
            v@ == s@.take(v@.len() as int),
            v@.len() <= s@.len(),
        decreases s@.len() - v@.len(),
    {
        match it.next() {
            Some(c) => {
                let ghost before = v@;
                v.push(c);
                assert(v@ =~= s@.take(v@.len() as int)) by {
                    assert(s@.skip(before.len() as int)[0] == s@[before.len() as int]);
                }
            },
            None => {
                assert(v@ =~= s@);
                return v;
            },
        }
    }
}

pub open spec fn is_ascii_digit(c: char) -> bool {
    '0' <= c <= '9'
}

pub open spec fn is_ascii_letter(c: char) -> bool {
    ('a' <= c <= 'z') || ('A' <= c <= 'Z')
}

/// Whether `c` has the Unicode `Alphabetic` property.
pub uninterp spec fn alphabetic(c: char) -> bool;

/// Whether `c` has the Unicode `Alphabetic` property or a numeric general
/// category (`Nd`, `Nl` or `No`).
pub uninterp spec fn alphanumeric(c: char) -> bool;

/// First character of an identifier: a Unicode letter or `_`.
pub open spec fn is_ident_start(c: char) -> bool {
    if (c as u32) < 0x80 {
        is_ascii_letter(c) || c == '_'
    } else {
        alphabetic(c)
    }
}

/// Later characters of an identifier: Unicode letters and digits, and `_`.
pub open spec fn is_ident_continue(c: char) -> bool {
    if (c as u32) < 0x80 {
        is_ascii_letter(c) || is_ascii_digit(c) || c == '_'
    } else {
        alphanumeric(c)
    }
}

pub fn ident_start(c: char) -> (r: bool)
    ensures
        r == is_ident_start(c),
{
    is_alphabetic(c) || c == '_'
}

pub fn ident_continue(c: char) -> (r: bool)
    ensures
        r == is_ident_continue(c),
{
    is_alphanumeric(c) || c == '_'
}

/// Relies on `char::is_alphabetic`: it answers by the Unicode `Alphabetic`
/// property, and for ASCII characters exactly by `a..=z` and `A..=Z`.
#[verifier::external_body]
pub(crate) fn is_alphabetic(c: char) -> (r: bool)
    ensures
        r == alphabetic(c),
        (c as u32) < 0x80 ==> (r == is_ascii_letter(c)),
{
    c.is_alphabetic()
}

/// Relies on `char::is_alphanumeric`: `is_alphabetic() || is_numeric()`, which
/// for ASCII characters is exactly `a..=z`, `A..=Z` and `0..=9`.
#[verifier::external_body]
pub(crate) fn is_alphanumeric(c: char) -> (r: bool)
    ensures
        r == alphanumeric(c),
        (c as u32) < 0x80 ==> (r == (is_ascii_letter(c) || is_ascii_digit(c))),
{
    c.is_alphanumeric()
}

/// Relies on `String::push`: appends one character.
#[verifier::external_body]
pub(crate) fn push_char(s: &mut String, c: char)
    ensures
        final(s)@ == old(s)@.push(c),
{
    s.push(c)
}

/// Relies on `char::from_u32`: `Some` exactly for Unicode scalar values.
#[verifier::external_body]
pub(crate) fn char_from_u32(v: u32) -> (r: Option<char>)
    ensures
        r is Some <==> is_scalar(v),
        r matches Some(c) ==> c as u32 == v,
{
    char::from_u32(v)
}

/// The text being scanned, as characters, with the byte offset of each
/// character boundary.
pub struct Source {
    pub chars: Vec<char>,
    pub offs: Vec<usize>,
}

impl Source {
    pub open spec fn text(&self) -> Seq<char> {
        self.chars@
    }

    pub open spec fn wf(&self) -> bool {
        &&& self.offs@.len() == self.chars@.len() + 1
        &&& forall|k: int|
            0 <= k <= self.chars@.len() ==> #[trigger] self.offs@[k] as nat == byte_offset(
                self.chars@,
                k,
            )
    }

    /// Builds the offset table for `chars`; `limit` bounds the total byte length.
    pub fn new(chars: Vec<char>, limit: usize) -> (r: Source)
        requires
            byte_len(chars@) <= limit,
        ensures
            r.wf(),
            r.chars@ == chars@,
    {
        let n = chars.len();
        let mut offs: Vec<usize> = Vec::new();
        offs.push(0);
        proof {
            assert(chars@.take(0) =~= Seq::<char>::empty());
        }
        let mut off: usize = 0;
        let mut i: usize = 0;
        while i < n
            invariant
                n == chars@.len(),
                i <= n,
                byte_len(chars@) <= limit,
                offs@.len() == i + 1,
                off as nat == byte_offset(chars@, i as int),
                forall|k: int| 0 <= k <= i ==> #[trigger] offs@[k] as nat == byte_offset(chars@, k),
            decreases n - i,
        {
            proof {
                lemma_byte_offset_step(chars@, i as int);
                lemma_byte_offset_mono(chars@, i as int + 1, n as int);
            }
            let w = char_width(chars[i]);
            off = off + w;
            offs.push(off);
            i = i + 1;
        }
        Source { chars, offs }
    }

    pub fn len(&self) -> (r: usize)
        ensures
            r == self.chars@.len(),
    {
        self.chars.len()
    }

    pub fn offset(&self, i: usize) -> (r: usize)
        requires
            self.wf(),
            i <= self.chars@.len(),
        ensures
            r as nat == byte_offset(self.chars@, i as int),
    {
        self.offs[i]
    }
}

} // verus!
