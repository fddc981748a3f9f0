//! Character classes and small text builders shared by the scanner and the
//! code generator.
use vstd::prelude::*;

verus! {

/// Whether `c` is alphabetic in the sense of Unicode's `Alphabetic` property.
pub uninterp spec fn unicode_alphabetic(c: char) -> bool;

/// Whether `c` is alphabetic or numeric in the sense of Unicode's
/// `Alphabetic` property and its numeric general categories.
pub uninterp spec fn unicode_alphanumeric(c: char) -> bool;

/// Whether `c` is an ASCII letter.
pub open spec fn is_ascii_letter(c: char) -> bool {
    ('a' <= c && c <= 'z') || ('A' <= c && c <= 'Z')
}

/// Whether `c` is alphabetic: among ASCII characters exactly the letters,
/// beyond ASCII Unicode's `Alphabetic` property.
pub open spec fn alphabetic(c: char) -> bool {
    if (c as u32) < 0x80 { is_ascii_letter(c) } else { unicode_alphabetic(c) }
}

/// Whether `c` is alphabetic or numeric: among ASCII characters exactly the
/// letters and the decimal digits, beyond ASCII Unicode's `Alphabetic`
/// property and numeric general categories.
pub open spec fn alphanumeric(c: char) -> bool {
    if (c as u32) < 0x80 { is_ascii_letter(c) || is_decimal_digit(c) } else { unicode_alphanumeric(c) }
}

/// Calls `char::is_alphabetic`. std tests the ASCII letters directly and
/// otherwise asks for Unicode's `Alphabetic` property, which no other ASCII
/// character has; beyond ASCII the property is named here and not written
/// out.
#[verifier::external_body]
pub(crate) fn is_alphabetic(c: char) -> (r: bool)
    ensures
        r == alphabetic(c),
        (c as u32) >= 0x80 ==> r == unicode_alphabetic(c),
{
    c.is_alphabetic()
}

/// Calls `char::is_alphanumeric`, which is `is_alphabetic` or `is_numeric`;
/// among ASCII characters that is exactly the letters and the digits, and
/// beyond ASCII whether `c` is alphabetic or numeric in Unicode's sense,
/// named here and not written out.
#[verifier::external_body]
pub(crate) fn is_alphanumeric(c: char) -> (r: bool)
    ensures
        r == alphanumeric(c),
        (c as u32) >= 0x80 ==> r == unicode_alphanumeric(c),
{
    c.is_alphanumeric()
}

/// Calls `String::push`, which appends one character.
#[verifier::external_body]
pub(crate) fn push_char(s: &mut String, c: char)
    ensures
        final(s)@ == old(s)@.push(c),
{
    s.push(c);
}

/// Whether `c` is a decimal digit.
pub open spec fn is_decimal_digit(c: char) -> bool {
    '0' <= c && c <= '9'
}

/// Whether `c` is a decimal digit.
pub fn is_digit(c: char) -> (r: bool)
    ensures
        r == is_decimal_digit(c),
{
    '0' <= c && c <= '9'
}

/// The value of a decimal digit.
pub open spec fn digit_value(c: char) -> int {
    (c as int) - ('0' as int)
}

/// The number of bytes that `c` takes in UTF-8.
pub open spec fn char_utf8_len(c: char) -> int {
    if (c as u32) < 0x80 {
        1
    } else if (c as u32) < 0x800 {
        2
    } else if (c as u32) < 0x10000 {
        3
    } else {
        4
    }
}

/// The number of bytes that a character sequence takes in UTF-8.
pub open spec fn utf8_len(s: Seq<char>) -> int
    decreases s.len(),
{
    if s.len() == 0 {
        0
    } else {
        utf8_len(s.drop_last()) + char_utf8_len(s.last())
    }
}

/// A sequence takes at most four bytes per character and at least one.
pub proof fn lemma_utf8_len_bounds(s: Seq<char>)
    ensures
        s.len() <= utf8_len(s) <= 4 * s.len(),
    decreases s.len(),
{
    if s.len() > 0 {
        lemma_utf8_len_bounds(s.drop_last());
    }
}

/// The number of bytes that `c` takes in UTF-8.
pub fn utf8_width(c: char) -> (r: usize)
    ensures
        r == char_utf8_len(c),
        1 <= r <= 4,
{
    let v: u32 = c as u32;
    if v < 0x80 {
        1
    } else if v < 0x800 {
        2
    } else if v < 0x10000 {
        3
    } else {
        4
    }
}

/// The decimal digits of a natural number, most significant first.
pub open spec fn nat_digits(n: nat) -> Seq<char>
    decreases n,
{
    if n < 10 {
        seq![(('0' as u8) + (n as u8)) as char]
    } else {
        nat_digits(n / 10).push((('0' as u8) + ((n % 10) as u8)) as char)
    }
}

/// The decimal text of an integer, with a leading `-` when it is negative.
pub open spec fn int_text(n: int) -> Seq<char> {
    if n < 0 {
        seq!['-'] + nat_digits((-n) as nat)
    } else {
        nat_digits(n as nat)
    }
}

/// The decimal text of a natural number.
pub fn usize_to_text(n: usize) -> (r: String)
    ensures
        r@ == nat_digits(n as nat),
    decreases n,
{
    if n < 10 {
        let mut s = String::new();
        push_char(&mut s, ((48u8 + (n as u8)) as char));
        s
    } else {
        let mut s = usize_to_text(n / 10);
        push_char(&mut s, ((48u8 + ((n % 10) as u8)) as char));
        s
    }
}

/// The decimal text of a 64-bit natural number.
pub fn u64_to_text(n: u64) -> (r: String)
    ensures
        r@ == nat_digits(n as nat),
    decreases n,
{
    if n < 10 {
        let mut s = String::new();
        push_char(&mut s, ((48u8 + (n as u8)) as char));
        s
    } else {
        let mut s = u64_to_text(n / 10);
        push_char(&mut s, ((48u8 + ((n % 10) as u8)) as char));
        s
    }
}

/// The decimal text of an integer, as `to_string` writes it.
pub fn i64_to_text(n: i64) -> (r: String)
    ensures
        r@ == int_text(n as int),
{
    if n < 0 {
        let magnitude: u64 = if n == i64::MIN {
            9223372036854775808u64
        } else {
            (-n) as u64
        };
        let digits = u64_to_text(magnitude);
        let mut s = String::new();
        push_char(&mut s, '-');
        s.append(digits.as_str());
        s
    } else {
        u64_to_text(n as u64)
    }
}

/// The characters of a string slice.
pub fn chars_of(source: &str) -> (r: Vec<char>)
    ensures
        r@ == source@,
{
    broadcast use vstd::string::group_string_axioms;
    let mut out: Vec<char> = Vec::new();
    for c in it: source.chars()
        invariant
            out@ == it.seq().take(it.index() as int),
            it.seq() == source@,
    {
        out.push(c);
    }
    out
}

} // verus!
