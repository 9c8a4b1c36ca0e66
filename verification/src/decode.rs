//! Decoding: the model of what a UTF-64 text stands for, and the steps that
//! read it from a character iterator.
//!
//! A text is read from left to right in steps. Each step takes one character
//! and, where that character is an escape marker, the digits that belong to
//! it, and yields exactly one decoded character.

use std::str::Chars;
use vstd::prelude::*;
use vstd::std_specs::iter::IteratorSpec;

use crate::alphabet::{alphabet_index, digit_value, special_char, special_set};
use crate::error::Utf64Error;
use crate::text::is_scalar_value;

verus! {

/// Whether `c` decodes to itself: hyphen, underscore, lowercase letter, digit.
pub open spec fn is_plain(c: char) -> bool {
    c == '-' || c == '_' || 'a' <= c <= 'z' || '0' <= c <= '9'
}

/// The digit at the head of `s`: the text must not have ended, and its next
/// character must belong to the alphabet.
pub open spec fn read_digit(s: Seq<char>) -> Result<u8, Utf64Error> {
    if s.len() == 0 {
        Err(Utf64Error::UnexpectedEOF)
    } else {
        match digit_value(s[0]) {
            Some(d) => Ok(d),
            None => Err(Utf64Error::InvalidUtf64(s[0])),
        }
    }
}

/// What is left of `s` once a digit was asked of it: all but the first
/// character, or nothing where `s` was empty already.
pub open spec fn after_digit(s: Seq<char>) -> Seq<char> {
    if s.len() == 0 {
        s
    } else {
        s.skip(1)
    }
}

/// Reads `k` digits from the head of `s`, most significant first, each one
/// extending the value `acc` by six bits. The first digit that cannot be
/// read decides the error.
pub open spec fn read_digits(s: Seq<char>, k: nat, acc: int) -> Result<int, Utf64Error>
    decreases k,
{
    if k == 0 {
        Ok(acc)
    } else {
        match read_digit(s) {
            Err(e) => Err(e),
            Ok(d) => read_digits(s.skip(1), (k - 1) as nat, acc * 64 + d),
        }
    }
}

/// How many digits follow the prefix digit `p` of a long escape.
pub open spec fn trailing_digits(p: u8) -> nat {
    if p < 0x20 {
        1
    } else if p < 0x30 {
        2
    } else {
        3
    }
}

/// The high bits of the value that the prefix digit `p` itself carries.
pub open spec fn prefix_bits(p: u8) -> int {
    if p < 0x20 {
        p as int
    } else if p < 0x30 {
        p - 0x20
    } else {
        p - 0x30
    }
}

/// The character that a long escape stands for and the number of characters
/// it takes from `s`, the text behind the marker `Z`.
pub open spec fn long_escape(s: Seq<char>) -> Result<(char, nat), Utf64Error> {
    match read_digit(s) {
        Err(e) => Err(e),
        Ok(p) => if p >= 0x38 {
            Err(Utf64Error::InvalidUtf8Prefix(p))
        } else {
            match read_digits(s.skip(1), trailing_digits(p), prefix_bits(p)) {
                Err(e) => Err(e),
                Ok(v) => if is_scalar_value(v) {
                    Ok((v as char, 1 + trailing_digits(p)))
                } else {
                    Err(Utf64Error::InvalidCodePoint(v as u32))
                },
            }
        },
    }
}

/// One step of decoding: the character that `first` and the text `rest`
/// behind it stand for, and the number of characters of `rest` that belong to
/// the step.
pub open spec fn decode_step(first: char, rest: Seq<char>) -> Result<(char, nat), Utf64Error> {
    if is_plain(first) {
        Ok((first, 0))
    } else if 'A' <= first <= 'W' {
        Ok((special_set()[first as int - 'A' as int + 1], 0))
    } else if first == 'X' {
        match read_digit(rest) {
            Err(e) => Err(e),
            Ok(d) => Ok((d as char, 1)),
        }
    } else if first == 'Y' {
        match read_digit(rest) {
            Err(e) => Err(e),
            Ok(d) => Ok(((64 + d) as char, 1)),
        }
    } else if first == 'Z' {
        long_escape(rest)
    } else {
        Err(Utf64Error::InvalidUtf64(first))
    }
}

/// Puts the characters `head` in front of a decoded text; an error stays.
pub open spec fn prepend(head: Seq<char>, tail: Result<Seq<char>, Utf64Error>) -> Result<
    Seq<char>,
    Utf64Error,
> {
    match tail {
        Ok(t) => Ok(head + t),
        Err(e) => Err(e),
    }
}

/// The text that the UTF-64 text `s` stands for, or the error of the first
/// step that fails.
pub open spec fn decode_chars(s: Seq<char>) -> Result<Seq<char>, Utf64Error>
    decreases s.len(),
    via decode_chars_decreases
{
    if s.len() == 0 {
        Ok(Seq::empty())
    } else {
        match decode_step(s[0], s.skip(1)) {
            Err(e) => Err(e),
            Ok((c, n)) => prepend(seq![c], decode_chars(s.skip(1 + n as int))),
        }
    }
}

#[via_fn]
proof fn decode_chars_decreases(s: Seq<char>) {
    if s.len() > 0 {
        lemma_step_length(s[0], s.skip(1));
    }
}

/// Prepending a character and then a text is prepending the text with the
/// character pushed onto it.
pub proof fn lemma_prepend_push(head: Seq<char>, c: char, tail: Result<Seq<char>, Utf64Error>)
    ensures
        prepend(head, prepend(seq![c], tail)) == prepend(head.push(c), tail),
{
    if tail is Ok {
        assert(head + (seq![c] + tail.unwrap()) =~= head.push(c) + tail.unwrap());
    }
}

/// Digits that were read were there: `k` of them take `k` characters.
pub proof fn lemma_read_digits_length(s: Seq<char>, k: nat, acc: int)
    requires
        read_digits(s, k, acc) is Ok,
    ensures
        k <= s.len(),
    decreases k,
{
    if k > 0 {
        lemma_read_digits_length(s.skip(1), (k - 1) as nat, acc * 64 + read_digit(s).unwrap());
    }
}

/// A step that succeeds takes no more characters than the text holds.
pub proof fn lemma_step_length(first: char, rest: Seq<char>)
    ensures
        decode_step(first, rest) matches Ok((_, n)) ==> n <= rest.len(),
{
    if first == 'Z' && long_escape(rest) is Ok {
        let p = read_digit(rest).unwrap();
        lemma_read_digits_length(rest.skip(1), trailing_digits(p), prefix_bits(p));
    }
}

/// Takes the next character from `chars` and turns it into its digit.
///
/// The last two clauses serve loops over `chars`: an iterator that had a
/// termination measure keeps one, and a digit that was read has lowered it.
pub fn code(chars: &mut Chars<'_>) -> (r: Result<u8, Utf64Error>)
    ensures
        r == read_digit((*old(chars)).remaining()),
        r matches Ok(d) ==> d < 64,
        (*final(chars)).remaining() == after_digit((*old(chars)).remaining()),
        (*old(chars)).decrease() is Some ==> (*final(chars)).decrease() is Some,
        r is Ok && (*old(chars)).decrease() is Some ==> (
            (*final(chars)).decrease()->0 < (*old(chars)).decrease()->0
        ),
{
    match chars.next() {
        None => Err(Utf64Error::UnexpectedEOF),
        Some(ch) => match alphabet_index(ch) {
            Some(d) => Ok(d),
            None => Err(Utf64Error::InvalidUtf64(ch)),
        },
    }
}

/// Reads what follows the marker `Z`: the prefix digit, then as many digits
/// as it announces, and turns the value they spell into a character.
///
/// On success `chars` has moved past exactly the digits of the escape. The
/// last two clauses are those of [`code`].
pub fn decode_long(chars: &mut Chars<'_>) -> (r: Result<char, Utf64Error>)
    ensures
        match r {
            Ok(c) => {
                &&& long_escape((*old(chars)).remaining()) matches Ok((c0, n))
                &&& c0 == c
                &&& (*final(chars)).remaining() == (*old(chars)).remaining().skip(n as int)
            },
            Err(e) => long_escape((*old(chars)).remaining()) == Err::<(char, nat), _>(e),
        },
        (*old(chars)).decrease() is Some ==> (*final(chars)).decrease() is Some,
        r is Ok && (*old(chars)).decrease() is Some ==> (
            (*final(chars)).decrease()->0 < (*old(chars)).decrease()->0
        ),
{
    let ghost start = (*chars).remaining();
    let p: u8 = match code(chars) {
        Ok(p) => p,
        Err(e) => {
            return Err(e);
        },
    };
    if p >= 0x38 {
        return Err(Utf64Error::InvalidUtf8Prefix(p));
    }
    let count: u8 = if p < 0x20 {
        1
    } else if p < 0x30 {
        2
    } else {
        3
    };
    let mask: u8 = if p < 0x20 {
        0x1f
    } else if p < 0x30 {
        0x0f
    } else {
        0x07
    };
    let mut value: u32 = (p & mask) as u32;
    proof {
        assert(p < 0x20 ==> p & 0x1f == p) by (bit_vector);
        assert(0x20 <= p < 0x30 ==> p & 0x0f == p - 0x20) by (bit_vector);
        assert(0x30 <= p < 0x38 ==> p & 0x07 == p - 0x30) by (bit_vector);
    }
    let mut i: u8 = 0;
    while i < count
        invariant
            i <= count <= 3,
            count == trailing_digits(p),
            p < 0x38,
            start == (*old(chars)).remaining(),
            read_digit(start) == Ok::<u8, Utf64Error>(p),
            (*old(chars)).decrease() is Some ==> {
                &&& (*chars).decrease() is Some
                &&& (*chars).decrease()->0 < (*old(chars)).decrease()->0
            },
            i == 0 ==> value < 0x20,
            i == 1 ==> value < 0x800,
            i == 2 ==> value < 0x20000,
            i == 3 ==> value < 0x800000,
            1 + i <= start.len(),
            (*chars).remaining() == start.skip(1 + i),
            read_digits(start.skip(1), trailing_digits(p), prefix_bits(p)) == read_digits(
                (*chars).remaining(),
                (count - i) as nat,
                value as int,
            ),
        decreases count - i,
    {
        let ghost before = (*chars).remaining();
        let d: u8 = match code(chars) {
            Ok(d) => d,
            Err(e) => {
                proof {
                    lemma_read_digits_fail(before, (count - i) as nat, value as int);
                }
                return Err(e);
            },
        };
        proof {
            let v = value;
            assert(v < 0x800000 ==> (v << 6) == v * 64) by (bit_vector);
            assert(before.skip(1) =~= start.skip(2 + i));
        }
        value = (value << 6) + d as u32;
        i += 1;
    }
    match char::from_u32(value) {
        Some(c) => Ok(c),
        None => Err(Utf64Error::InvalidCodePoint(value)),
    }
}

/// Where the next digit cannot be read, reading `k > 0` digits fails likewise.
proof fn lemma_read_digits_fail(s: Seq<char>, k: nat, acc: int)
    requires
        k > 0,
        read_digit(s) is Err,
    ensures
        read_digits(s, k, acc) == Err::<int, _>(read_digit(s)->Err_0),
{
}

/// One step of decoding. `first` was taken from `chars` already; the digits
/// of an escape are taken from `chars` here.
///
/// On success `chars` has moved past exactly the digits of the step. The
/// last two clauses serve loops over `chars`: an iterator that had a
/// termination measure keeps one, and a step that succeeds has not raised it.
pub fn decode_next(first: char, chars: &mut Chars<'_>) -> (r: Result<char, Utf64Error>)
    ensures
        match r {
            Ok(c) => {
                &&& decode_step(first, (*old(chars)).remaining()) matches Ok((c0, n))
                &&& c0 == c
                &&& (*final(chars)).remaining() == (*old(chars)).remaining().skip(n as int)
            },
            Err(e) => decode_step(first, (*old(chars)).remaining()) == Err::<(char, nat), _>(e),
        },
        (*old(chars)).decrease() is Some ==> (*final(chars)).decrease() is Some,
        r is Ok && (*old(chars)).decrease() is Some ==> (
            (*final(chars)).decrease()->0 <= (*old(chars)).decrease()->0
        ),
{
    proof {
        assert((*chars).remaining().skip(0) =~= (*chars).remaining());
    }
    let plain = first == '-' || first == '_' || ('a' <= first && first <= 'z') || ('0' <= first
        && first <= '9');
    if plain {
        Ok(first)
    } else if 'A' <= first && first <= 'W' {
        let index: u32 = first as u32 - 'A' as u32 + 1;
        Ok(special_char(index as u8))
    } else if first == 'X' {
        match code(chars) {
            Ok(d) => Ok(d as char),
            Err(e) => Err(e),
        }
    } else if first == 'Y' {
        match code(chars) {
            Ok(d) => Ok((64 + d) as char),
            Err(e) => Err(e),
        }
    } else if first == 'Z' {
        decode_long(chars)
    } else {
        Err(Utf64Error::InvalidUtf64(first))
    }
}

} // verus!
