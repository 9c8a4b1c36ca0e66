//! Encoding: the model of how a text is written in UTF-64, and the steps that
//! append the encoding of one character to a string.

use vstd::prelude::*;

use crate::alphabet::{alphabet_char, digit_char, special_index, special_position};
use crate::error::Utf64Error;

verus! {

/// Whether the encoder writes `c` as itself: hyphen, lowercase letter, digit.
pub open spec fn is_literal(c: char) -> bool {
    c == '-' || 'a' <= c <= 'z' || '0' <= c <= '9'
}

/// The escape sequence of the value `n`, for `0 <= n <= 0x10FFFF`: a marker
/// and the digits of `n` in base 64, most significant first. Values below 128
/// take the markers `X` and `Y` and one digit. Larger ones take `Z` and a
/// prefix digit that holds the number of digits to follow (one below `0x20`,
/// two below `0x30`, three from there) together with the highest bits of `n`.
pub open spec fn escape(n: int) -> Seq<char> {
    if n < 64 {
        seq!['X', digit_char(n)]
    } else if n < 128 {
        seq!['Y', digit_char(n - 64)]
    } else if n <= 0x7FF {
        seq!['Z', digit_char(n / 64), digit_char(n % 64)]
    } else if n <= 0xFFFF {
        seq!['Z', digit_char(0x20 + n / 4096), digit_char(n / 64 % 64), digit_char(n % 64)]
    } else {
        seq![
            'Z',
            digit_char(0x30 + n / 262144),
            digit_char(n / 4096 % 64),
            digit_char(n / 64 % 64),
            digit_char(n % 64),
        ]
    }
}

/// How the single character `c` is written.
pub open spec fn encode_char(c: char) -> Seq<char> {
    if is_literal(c) {
        seq![c]
    } else {
        match special_position(c) {
            Some(i) => seq![digit_char(i)],
            None => escape(c as int),
        }
    }
}

/// How the text `s` is written: the encodings of its characters, in order.
pub open spec fn encode_chars(s: Seq<char>) -> Seq<char>
    decreases s.len(),
{
    if s.len() == 0 {
        Seq::empty()
    } else {
        encode_char(s[0]) + encode_chars(s.skip(1))
    }
}

/// Appends the character of the digit `d`.
pub fn push_digit(out: &mut String, d: u32)
    requires
        d < 64,
    ensures
        final(out)@ == old(out)@.push(digit_char(d as int)),
{
    out.push(alphabet_char(d as u8));
}

/// Appends the escape sequence of the value `n`. A value above the last code
/// point `0x10FFFF` is refused, and `out` then stays as it was.
pub fn push_escape(out: &mut String, n: u32) -> (r: Result<(), Utf64Error>)
    ensures
        n <= 0x10FFFF ==> r is Ok,
        n <= 0x10FFFF ==> final(out)@ == old(out)@ + escape(n as int),
        n > 0x10FFFF ==> r == Err::<(), _>(Utf64Error::InvalidCodePoint(n)),
        n > 0x10FFFF ==> final(out)@ == old(out)@,
{
    proof {
        assert(n >> 6 == n / 64) by (bit_vector);
        assert(n >> 12 == n / 4096) by (bit_vector);
        assert(n >> 18 == n / 262144) by (bit_vector);
        assert(n & 0x3f == n % 64) by (bit_vector);
        assert((n >> 6) & 0x3f == n / 64 % 64) by (bit_vector);
        assert((n >> 12) & 0x3f == n / 4096 % 64) by (bit_vector);
    }
    if n < 64 {
        out.push('X');
        push_digit(out, n);
    } else if n < 128 {
        out.push('Y');
        push_digit(out, n - 64);
    } else if n <= 0x7FF {
        out.push('Z');
        push_digit(out, n >> 6);
        push_digit(out, n & 0x3f);
    } else if n <= 0xFFFF {
        out.push('Z');
        push_digit(out, 0x20 + (n >> 12));
        push_digit(out, (n >> 6) & 0x3f);
        push_digit(out, n & 0x3f);
    } else if n <= 0x10FFFF {
        out.push('Z');
        push_digit(out, 0x30 + (n >> 18));
        push_digit(out, (n >> 12) & 0x3f);
        push_digit(out, (n >> 6) & 0x3f);
        push_digit(out, n & 0x3f);
    } else {
        return Err(Utf64Error::InvalidCodePoint(n));
    }
    assert(out@ =~= old(out)@ + escape(n as int));
    Ok(())
}

/// Appends the encoding of the character `ch`. This cannot fail: the value
/// of a character never lies above the last code point.
pub fn push_encoded(out: &mut String, ch: char) -> (r: Result<(), Utf64Error>)
    ensures
        r is Ok,
        final(out)@ == old(out)@ + encode_char(ch),
{
    if ch == '-' || ('a' <= ch && ch <= 'z') || ('0' <= ch && ch <= '9') {
        out.push(ch);
        assert(out@ =~= old(out)@ + encode_char(ch));
        return Ok(());
    }
    match special_index(ch) {
        Some(i) => {
            out.push(alphabet_char(i));
            assert(out@ =~= old(out)@ + encode_char(ch));
            Ok(())
        },
        None => push_escape(out, ch as u32),
    }
}

} // verus!
