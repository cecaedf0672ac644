//! Text helpers shared by the lexer, the pattern engine and the value domain:
//! conversions between strings and code-point vectors, decimal numerals, and
//! the character classes that the language borrows from Unicode.

use vstd::prelude::*;
use vstd::std_specs::iter::IteratorSpec;
use vstd::string::StringSliceAdditionalSpecFns;
use vstd::utf8::{char_is_scalar, encode_utf8};

verus! {

/// The Unicode `Alphabetic` property of a code point.
pub uninterp spec fn alphabetic(c: char) -> bool;

/// The Unicode `White_Space` property of a code point.
pub uninterp spec fn whitespace(c: char) -> bool;

/// The lowercase mapping of a code point, which may expand to several code points.
pub uninterp spec fn lowercase(c: char) -> Seq<char>;

/// The quoted, escaped rendering that `{:?}` gives a string.
pub uninterp spec fn quoted(s: Seq<char>) -> Seq<char>;

/// The quoted, escaped rendering that `{:?}` gives a single character.
pub uninterp spec fn quoted_char(c: char) -> Seq<char>;

/// Calls `char::is_alphabetic`; the result is the Unicode `Alphabetic`
/// property, which this crate does not define but only names.
#[verifier::external_body]
pub(crate) fn is_alphabetic(c: char) -> (b: bool)
    ensures
        b == alphabetic(c),
{
    c.is_alphabetic()
}

/// Calls `char::is_whitespace`; the result is the Unicode `White_Space`
/// property, which this crate does not define but only names.
#[verifier::external_body]
pub(crate) fn is_whitespace(c: char) -> (b: bool)
    ensures
        b == whitespace(c),
{
    c.is_whitespace()
}

/// Calls `char::to_lowercase` and collects the code points it yields, in order.
#[verifier::external_body]
pub(crate) fn to_lowercase(c: char) -> (v: Vec<char>)
    ensures
        v@ == lowercase(c),
{
    c.to_lowercase().collect()
}

/// Calls `String::push`, which appends one code point to the string.
#[verifier::external_body]
pub(crate) fn push_char(s: &mut String, c: char)
    ensures
        final(s)@ == old(s)@.push(c),
{
    s.push(c)
}

/// Formats a string with `{:?}`: the text in double quotes, with escapes.
#[verifier::external_body]
pub(crate) fn quote(s: &str) -> (r: String)
    ensures
        r@ == quoted(s@),
{
    format!("{:?}", s)
}

/// Formats a character with `{:?}`: the character in single quotes, escaped.
#[verifier::external_body]
pub(crate) fn quote_char(c: char) -> (r: String)
    ensures
        r@ == quoted_char(c),
{
    format!("{:?}", c)
}

/// Whether `c` is one of the ten ASCII decimal digits.
pub open spec fn digit(c: char) -> bool {
    '0' <= c && c <= '9'
}

/// Tests `c` for being an ASCII decimal digit.
pub fn is_digit(c: char) -> (b: bool)
    ensures
        b == digit(c),
{
    '0' <= c && c <= '9'
}

/// Whether `c` may continue an identifier: a letter, a digit or `_`.
pub open spec fn ident_part(c: char) -> bool {
    alphabetic(c) || digit(c) || c == '_'
}

/// Tests `c` for being a letter, a decimal digit or an underscore.
pub fn in_ident(c: char) -> (b: bool)
    ensures
        b == ident_part(c),
{
    is_alphabetic(c) || is_digit(c) || c == '_'
}

/// The code points of a string, in order.
pub fn chars_of(s: &str) -> (v: Vec<char>)
    ensures
        v@ == s@,
{
    let mut v: Vec<char> = Vec::new();
    for c in it: s.chars()
        invariant
            v@ == it.seq().take(it.index() as int),
            it.seq() == s@,
    {
        v.push(c);
    }
    v
}

/// The string made of the code points `v[from..to]`.
pub fn string_of(v: &Vec<char>, from: usize, to: usize) -> (s: String)
    requires
        from <= to <= v.len(),
    ensures
        s@ == v@.subrange(from as int, to as int),
{
    let mut s = String::new();
    let mut i: usize = from;
    while i < to
        invariant
            from <= i <= to <= v.len(),
            s@ == v@.subrange(from as int, i as int),
        decreases to - i,
    {
        push_char(&mut s, v[i]);
        i = i + 1;
    }
    s
}

/// Whether two strings hold the same code points.
pub fn same_text(a: &str, b: &str) -> (r: bool)
    ensures
        r == (a@ == b@),
{
    let x = chars_of(a);
    let y = chars_of(b);
    if x.len() != y.len() {
        return false;
    }
    let mut i: usize = 0;
    while i < x.len()
        invariant
            i <= x.len(),
            x.len() == y.len(),
            x@ == a@,
            y@ == b@,
            forall|j: int| 0 <= j < i ==> x@[j] == y@[j],
        decreases x.len() - i,
    {
        if x[i] != y[i] {
            return false;
        }
        i = i + 1;
    }
    assert(a@ =~= b@);
    true
}

/// The character that stands for the digit `d`.
pub open spec fn digit_char(d: int) -> char {
    if d == 0 {
        '0'
    } else if d == 1 {
        '1'
    } else if d == 2 {
        '2'
    } else if d == 3 {
        '3'
    } else if d == 4 {
        '4'
    } else if d == 5 {
        '5'
    } else if d == 6 {
        '6'
    } else if d == 7 {
        '7'
    } else if d == 8 {
        '8'
    } else {
        '9'
    }
}

/// The value of a digit character.
pub open spec fn digit_value(c: char) -> int {
    c as u32 - '0' as u32
}

/// The decimal numeral of a natural number, without leading zeros.
pub open spec fn nat_text(n: nat) -> Seq<char>
    decreases n,
{
    if n < 10 {
        seq![digit_char(n as int)]
    } else {
        nat_text(n / 10).push(digit_char((n % 10) as int))
    }
}

/// The decimal numeral of an integer, with a leading `-` when negative.
pub open spec fn int_text(i: int) -> Seq<char> {
    if i < 0 {
        seq!['-'] + nat_text((-i) as nat)
    } else {
        nat_text(i as nat)
    }
}

/// The character that stands for the digit `d`.
fn digit_of(d: u64) -> (c: char)
    requires
        d < 10,
    ensures
        c == digit_char(d as int),
{
    if d == 0 {
        '0'
    } else if d == 1 {
        '1'
    } else if d == 2 {
        '2'
    } else if d == 3 {
        '3'
    } else if d == 4 {
        '4'
    } else if d == 5 {
        '5'
    } else if d == 6 {
        '6'
    } else if d == 7 {
        '7'
    } else if d == 8 {
        '8'
    } else {
        '9'
    }
}

/// Appends the decimal numeral of `n` to `s`.
pub fn push_nat(s: &mut String, n: u64)
    ensures
        final(s)@ == old(s)@ + nat_text(n as nat),
    decreases n,
{
    if n >= 10 {
        push_nat(s, n / 10);
    }
    push_char(s, digit_of(n % 10));
    assert(final(s)@ =~= old(s)@ + nat_text(n as nat));
}

/// Appends the decimal numeral of `i` to `s`.
pub fn push_int(s: &mut String, i: i64)
    ensures
        final(s)@ == old(s)@ + int_text(i as int),
{
    if i < 0 {
        push_char(s, '-');
        let magnitude: u64 = (-(i + 1)) as u64 + 1;
        push_nat(s, magnitude);
        assert(final(s)@ =~= old(s)@ + int_text(i as int));
    } else {
        push_nat(s, i as u64);
    }
}

/// Appends the text of `t` to `s`.
pub fn push_str(s: &mut String, t: &str)
    ensures
        final(s)@ == old(s)@ + t@,
{
    s.append(t);
}

/// The number of bytes that UTF-8 takes for a code point.
pub open spec fn utf8_width(c: char) -> nat {
    if (c as u32) < 0x80 {
        1
    } else if (c as u32) < 0x800 {
        2
    } else if (c as u32) < 0x10000 {
        3
    } else {
        4
    }
}

/// The number of bytes that UTF-8 takes for the code points of `s` before index `i`.
pub open spec fn byte_offset(s: Seq<char>, i: int) -> int {
    encode_utf8(s).len() - encode_utf8(s.skip(i)).len()
}

/// The offset of a code point and the bytes it takes give the offset of the
/// next one.
pub proof fn byte_offset_step(s: Seq<char>, i: int)
    requires
        0 <= i < s.len(),
    ensures
        byte_offset(s, i + 1) == byte_offset(s, i) + utf8_width(s[i]),
{
    encoded_suffix_step(s, i);
}

/// Offsets in bytes start at zero, grow with the index, and end at the
/// length of the encoded text.
pub proof fn byte_offset_bounds(s: Seq<char>, i: int)
    requires
        0 <= i <= s.len(),
    ensures
        byte_offset(s, 0) == 0,
        byte_offset(s, s.len() as int) == encode_utf8(s).len(),
        0 <= byte_offset(s, i) <= encode_utf8(s).len(),
        forall|j: int| 0 <= j <= i ==> #[trigger] byte_offset(s, j) <= byte_offset(s, i),
    decreases i,
{
    assert(s.skip(0) =~= s);
    assert(s.skip(s.len() as int) =~= Seq::<char>::empty());
    assert(encode_utf8(Seq::<char>::empty()).len() == 0);
    if i > 0 {
        byte_offset_bounds(s, i - 1);
        encoded_suffix_step(s, i - 1);
        assert forall|j: int| 0 <= j <= i implies #[trigger] byte_offset(s, j) <= byte_offset(s, i) by {
            if j < i {
                assert(byte_offset(s, j) <= byte_offset(s, i - 1));
            }
        }
    }
}

proof fn encoded_suffix_step(s: Seq<char>, i: int)
    requires
        0 <= i < s.len(),
    ensures
        encode_utf8(s.skip(i)).len() == utf8_width(s[i]) + encode_utf8(s.skip(i + 1)).len(),
{
    let t = s.skip(i);
    assert(t[0] == s[i]);
    assert(t.drop_first() =~= s.skip(i + 1));
    char_is_scalar(s[i]);
}

/// The UTF-8 length of a code point.
pub fn len_utf8(c: char) -> (n: usize)
    ensures
        n == utf8_width(c),
{
    let u: u32 = c as u32;
    if u < 0x80 {
        1
    } else if u < 0x800 {
        2
    } else if u < 0x10000 {
        3
    } else {
        4
    }
}

/// The byte offset of every code point of `s`, and of its end: the table that
/// turns offsets in code points into offsets in bytes.
pub fn byte_offsets(s: &str) -> (offsets: Vec<usize>)
    ensures
        offsets.len() == s@.len() + 1,
        forall|i: int| 0 <= i <= s@.len() ==> #[trigger] offsets[i] == byte_offset(s@, i),
{
    let chars = chars_of(s);
    let total: usize = s.as_bytes().len();
    let mut offsets: Vec<usize> = Vec::new();
    let mut at: usize = 0;
    let mut i: usize = 0;
    proof {
        assert(s@.skip(0) =~= s@);
    }
    while i < chars.len()
        invariant
            i <= chars.len(),
            chars@ == s@,
            total == encode_utf8(s@).len(),
            offsets.len() == i,
            at == byte_offset(s@, i as int),
            forall|j: int| 0 <= j < i ==> #[trigger] offsets[j] == byte_offset(s@, j),
        decreases chars.len() - i,
    {
        proof {
            encoded_suffix_step(s@, i as int);
        }
        offsets.push(at);
        at = at + len_utf8(chars[i]);
        i = i + 1;
    }
    offsets.push(at);
    offsets
}

/// A text as code points, with the offset in bytes at which each of them
/// starts in the text's UTF-8 encoding.
pub struct Source {
    chars: Vec<char>,
    offsets: Vec<usize>,
}

impl View for Source {
    type V = Seq<char>;

    closed spec fn view(&self) -> Seq<char> {
        self.chars@
    }
}

impl Source {
    #[verifier::type_invariant]
    spec fn tabulated(self) -> bool {
        &&& self.offsets@.len() == self.chars@.len() + 1
        &&& forall|i: int|
            0 <= i <= self.chars@.len() ==> #[trigger] self.offsets@[i] == byte_offset(self.chars@, i)
    }

    /// The code points of a text.
    pub fn new(text: &str) -> (s: Source)
        ensures
            s@ == text@,
    {
        Source { chars: chars_of(text), offsets: byte_offsets(text) }
    }

    /// The number of code points.
    pub fn len(&self) -> (n: usize)
        ensures
            n == self@.len(),
    {
        self.chars.len()
    }

    /// The code point at index `i`.
    pub fn at(&self, i: usize) -> (c: char)
        requires
            i < self@.len(),
        ensures
            c == self@[i as int],
    {
        self.chars[i]
    }

    /// The offset in bytes of the code point at index `i`, or of the end of
    /// the text.
    pub fn byte_at(&self, i: usize) -> (n: usize)
        requires
            i <= self@.len(),
        ensures
            n == byte_offset(self@, i as int),
    {
        proof {
            use_type_invariant(self);
        }
        self.offsets[i]
    }
}

} // verus!
