//! The ways in which encoding or decoding can fail.

use vstd::prelude::*;

verus! {

/// Why a text could not be encoded or decoded.
#[derive(Debug, Clone, Copy, PartialEq, Eq, Structural)]
pub enum Utf64Error {
    /// In encoding, the value lies above the last code point `0x10FFFF`; in
    /// decoding, a long escape spells a value that is no Unicode scalar value.
    InvalidCodePoint(u32),
    /// An escape marker was not followed by enough digits.
    UnexpectedEOF,
    /// The character is not allowed where it stands.
    InvalidUtf64(char),
    /// The first digit of a long escape, `0x38` or more, announces no
    /// supported number of digits.
    InvalidUtf8Prefix(u8),
}

} // verus!
