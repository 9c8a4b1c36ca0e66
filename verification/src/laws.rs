//! What holds of the encoding as a whole, proved over the models of
//! [`crate::encode`] and [`crate::decode`].

use vstd::prelude::*;

use crate::alphabet::{
    all_in_alphabet, digit_char, in_alphabet, lemma_digit_round_trip, lemma_special_position,
    special_position,
};
use crate::decode::{
    decode_chars, decode_step, lemma_step_length, prefix_bits, prepend, read_digit, read_digits,
    trailing_digits,
};
use crate::encode::{encode_char, encode_chars, escape, is_literal};
use crate::error::Utf64Error;
use crate::text::is_scalar_value;

verus! {

/// Whether every character of `s` is one that the encoder writes as itself.
pub open spec fn all_literal(s: Seq<char>) -> bool {
    forall|i: int| 0 <= i < s.len() ==> is_literal(#[trigger] s[i])
}

/// The encoding of one character is never empty and at most five long.
pub proof fn lemma_encode_char_length(c: char)
    ensures
        1 <= encode_char(c).len() <= 5,
{
}

/// A value is the sum of its base-64 digits, each weighted by its place.
pub proof fn lemma_base64_digits(n: int)
    requires
        0 <= n,
    ensures
        n == (n / 64) * 64 + n % 64,
        n == ((n / 4096) * 64 + n / 64 % 64) * 64 + n % 64,
        n == (((n / 262144) * 64 + n / 4096 % 64) * 64 + n / 64 % 64) * 64 + n % 64,
{
}

/// Reading digits from a text that starts with the character of the digit
/// `d` takes that digit and goes on behind it.
pub proof fn lemma_read_digits_step(s: Seq<char>, k: nat, acc: int, d: int)
    requires
        k > 0,
        s.len() > 0,
        0 <= d < 64,
        s[0] == digit_char(d),
    ensures
        read_digit(s) == Ok::<u8, Utf64Error>(d as u8),
        read_digits(s, k, acc) == read_digits(s.skip(1), (k - 1) as nat, acc * 64 + d),
{
    lemma_digit_round_trip(d);
}

/// Whatever follows it, the escape sequence of a scalar value is read back
/// in one step, which yields the character of that value and takes the whole
/// sequence.
pub proof fn lemma_step_inverts_escape(n: int, t: Seq<char>)
    requires
        is_scalar_value(n),
    ensures
        decode_step(escape(n)[0], (escape(n) + t).skip(1)) == Ok::<(char, nat), Utf64Error>(
            (n as char, (escape(n).len() - 1) as nat),
        ),
{
    let e = escape(n);
    let r0 = (e + t).skip(1);
    let r1 = r0.skip(1);
    let r2 = r1.skip(1);
    let r3 = r2.skip(1);
    lemma_base64_digits(n);
    assert(r0[0] == e[1]);
    if n < 64 {
        lemma_read_digits_step(r0, 1, 0, n);
    } else if n < 128 {
        lemma_read_digits_step(r0, 1, 0, n - 64);
    } else if n <= 0x7FF {
        assert(r1[0] == e[2]);
        lemma_read_digits_step(r0, 1, 0, n / 64);
        lemma_read_digits_step(r1, 1, n / 64, n % 64);
    } else if n <= 0xFFFF {
        assert(r1[0] == e[2]);
        assert(r2[0] == e[3]);
        let b = n / 4096;
        lemma_read_digits_step(r0, 1, 0, 0x20 + b);
        lemma_read_digits_step(r1, 2, b, n / 64 % 64);
        lemma_read_digits_step(r2, 1, b * 64 + n / 64 % 64, n % 64);
    } else {
        assert(r1[0] == e[2]);
        assert(r2[0] == e[3]);
        assert(r3[0] == e[4]);
        let b = n / 262144;
        lemma_read_digits_step(r0, 1, 0, 0x30 + b);
        lemma_read_digits_step(r1, 3, b, n / 4096 % 64);
        lemma_read_digits_step(r2, 2, b * 64 + n / 4096 % 64, n / 64 % 64);
        lemma_read_digits_step(r3, 1, (b * 64 + n / 4096 % 64) * 64 + n / 64 % 64, n % 64);
    }
}

/// Whatever follows it, the encoding of a character is read back in one
/// step, which yields that character and takes the whole encoding.
pub proof fn lemma_step_inverts_encode_char(c: char, t: Seq<char>)
    ensures
        decode_step(encode_char(c)[0], (encode_char(c) + t).skip(1)) == Ok::<
            (char, nat),
            Utf64Error,
        >((c, (encode_char(c).len() - 1) as nat)),
{
    lemma_special_position(c);
    if !is_literal(c) && special_position(c) is None {
        lemma_step_inverts_escape(c as int, t);
    }
}

/// Decoding undoes encoding: every text is read back from its encoding.
pub proof fn lemma_round_trip(s: Seq<char>)
    ensures
        decode_chars(encode_chars(s)) == Ok::<Seq<char>, Utf64Error>(s),
    decreases s.len(),
{
    if s.len() > 0 {
        let e = encode_char(s[0]);
        let t = encode_chars(s.skip(1));
        lemma_round_trip(s.skip(1));
        lemma_step_inverts_encode_char(s[0], t);
        lemma_encode_char_length(s[0]);
        assert((e + t)[0] == e[0]);
        assert((e + t).skip(e.len() as int) =~= t);
        assert(decode_chars(e + t) == prepend(seq![s[0]], decode_chars(t)));
        assert(seq![s[0]] + s.skip(1) =~= s);
    } else {
        assert(s =~= Seq::empty());
    }
}

/// A text of hyphens, lowercase letters and digits is its own encoding, and
/// decodes to itself.
pub proof fn lemma_literal_stable(s: Seq<char>)
    requires
        all_literal(s),
    ensures
        encode_chars(s) == s,
        decode_chars(s) == Ok::<Seq<char>, Utf64Error>(s),
    decreases s.len(),
{
    if s.len() > 0 {
        assert(is_literal(s[0]));
        assert(all_literal(s.skip(1))) by {
            assert forall|i: int| 0 <= i < s.skip(1).len() implies is_literal(
                #[trigger] s.skip(1)[i],
            ) by {
                assert(s.skip(1)[i] == s[i + 1]);
            }
        }
        lemma_literal_stable(s.skip(1));
        assert(seq![s[0]] + s.skip(1) =~= s);
    } else {
        assert(encode_chars(s) =~= s);
    }
}

/// Equal texts have equal encodings and equal decodings: both directions
/// are functions of the text alone.
pub proof fn lemma_deterministic(a: Seq<char>, b: Seq<char>)
    requires
        a =~= b,
    ensures
        encode_chars(a) == encode_chars(b),
        decode_chars(a) == decode_chars(b),
{
}

/// The encoding of a character consists of characters of the alphabet.
pub proof fn lemma_encode_char_in_alphabet(c: char)
    ensures
        all_in_alphabet(encode_char(c)),
{
    lemma_special_position(c);
}

/// The encoding of a text consists of characters of the alphabet.
pub proof fn lemma_encode_in_alphabet(s: Seq<char>)
    ensures
        all_in_alphabet(encode_chars(s)),
    decreases s.len(),
{
    if s.len() > 0 {
        lemma_encode_char_in_alphabet(s[0]);
        lemma_encode_in_alphabet(s.skip(1));
    }
}

/// Digits that were read are characters of the alphabet.
pub proof fn lemma_read_digits_in_alphabet(s: Seq<char>, k: nat, acc: int, j: int)
    requires
        read_digits(s, k, acc) is Ok,
        0 <= j < k,
    ensures
        j < s.len(),
        in_alphabet(s[j]),
    decreases k,
{
    if j > 0 {
        lemma_read_digits_in_alphabet(
            s.skip(1),
            (k - 1) as nat,
            acc * 64 + read_digit(s).unwrap(),
            j - 1,
        );
    }
}

/// A step that succeeds has read characters of the alphabet only.
pub proof fn lemma_step_in_alphabet(first: char, rest: Seq<char>, j: int)
    requires
        decode_step(first, rest) is Ok,
        0 <= j < decode_step(first, rest).unwrap().1,
    ensures
        in_alphabet(first),
        j < rest.len(),
        in_alphabet(rest[j]),
{
    if first == 'Z' {
        let p = read_digit(rest).unwrap();
        if j > 0 {
            lemma_read_digits_in_alphabet(
                rest.skip(1),
                trailing_digits(p),
                prefix_bits(p),
                j - 1,
            );
        }
    }
}

/// A text that holds a character from outside the alphabet is rejected.
pub proof fn lemma_rejects_outside_alphabet(s: Seq<char>, i: int)
    requires
        0 <= i < s.len(),
        !in_alphabet(s[i]),
    ensures
        decode_chars(s) is Err,
    decreases s.len(),
{
    let step = decode_step(s[0], s.skip(1));
    if step is Ok {
        let n = step.unwrap().1;
        lemma_step_length(s[0], s.skip(1));
        if i == 0 {
        } else if i <= n {
            lemma_step_in_alphabet(s[0], s.skip(1), i - 1);
        } else {
            lemma_rejects_outside_alphabet(s.skip(1 + n as int), i - 1 - n);
        }
    }
}

} // verus!
