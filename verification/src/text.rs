//! What this library takes for granted of the standard library's text types.

use vstd::prelude::*;

use crate::error::Utf64Error;

verus! {

/// Whether `n` is a Unicode scalar value: at most `0x10FFFF` and no surrogate.
pub open spec fn is_scalar_value(n: int) -> bool {
    0 <= n <= 0xD7FF || 0xE000 <= n <= 0x10FFFF
}

/// The outcome of a conversion with the produced string taken by its view.
pub open spec fn result_view(r: Result<String, Utf64Error>) -> Result<Seq<char>, Utf64Error> {
    match r {
        Ok(s) => Ok(s@),
        Err(e) => Err(e),
    }
}

/// `String::push` appends the one character to the end of the string and
/// leaves what was there before in place.
pub assume_specification[ String::push ](s: &mut String, ch: char)
    ensures
        final(s)@ == old(s)@.push(ch),
;

/// `char::from_u32` gives the character whose scalar value is `i`, and `None`
/// exactly where `i` is a surrogate or lies above `0x10FFFF`.
pub assume_specification[ char::from_u32 ](i: u32) -> (r: Option<char>)
    ensures
        is_scalar_value(i as int) ==> r == Some(i as char),
        !is_scalar_value(i as int) ==> r is None,
;

} // verus!
