//! UTF-64 is a terse, human-readable, URL-safe encoding for Unicode text.
//!
//! Any text is written with the 64 characters
//! `_ABCDEFGHIJKLMNOPQRSTUVWXYZabcdefghijklmnopqrstuvwxyz0123456789-`.
//! Lowercase letters, digits, the hyphen and the underscore stand for
//! themselves, common punctuation takes one capital letter, and every other
//! character is escaped with one of the markers `X`, `Y` and `Z`.
//!
//! The modules [`encode`] and [`decode`] hold the mathematical model of the
//! two directions; the trait [`UTF64`] offers them on text.

pub mod alphabet;
pub mod decode;
pub mod encode;
pub mod error;
pub mod laws;
pub mod text;

pub use crate::error::Utf64Error;

use vstd::prelude::*;
use vstd::std_specs::iter::IteratorSpec;

use crate::alphabet::{all_in_alphabet, in_alphabet};
use crate::decode::{
    decode_chars, decode_next, decode_step, lemma_prepend_push, lemma_step_length, prepend,
};
use crate::encode::{encode_chars, push_encoded};
use crate::laws::{lemma_encode_in_alphabet, lemma_rejects_outside_alphabet};
use crate::text::result_view;

verus! {

/// Conversion of text to and from UTF-64.
pub trait UTF64: View<V = Seq<char>> {
    /// Writes this text in UTF-64.
    fn encode_utf64(&self) -> (r: Result<String, Utf64Error>)
        ensures
            result_view(r) == Ok::<Seq<char>, Utf64Error>(encode_chars(self@)),
            r matches Ok(s) ==> all_in_alphabet(s@),
    ;

    /// Reads this text as UTF-64 and gives back the text it stands for, or
    /// the error of the first step that fails.
    fn decode_utf64(&self) -> (r: Result<String, Utf64Error>)
        ensures
            result_view(r) == decode_chars(self@),
            !all_in_alphabet(self@) ==> r is Err,
    ;
}

impl UTF64 for str {
    fn encode_utf64(&self) -> (r: Result<String, Utf64Error>) {
        let mut result = String::new();
        let mut iter = self.chars();
        loop
            invariant
                encode_chars(self@) == result@ + encode_chars(iter.remaining()),
                iter.decrease() is Some,
            ensures
                iter.remaining().len() == 0,
            decreases iter.decrease()->0,
        {
            let ghost before = iter.remaining();
            let ghost written = result@;
            match iter.next() {
                None => {
                    break ;
                },
                Some(ch) => {
                    match push_encoded(&mut result, ch) {
                        Ok(()) => {},
                        Err(e) => {
                            return Err(e);
                        },
                    }
                    assert(result@ + encode_chars(before.skip(1)) =~= written + encode_chars(
                        before,
                    ));
                },
            }
        }
        proof {
            assert(result@ + encode_chars(iter.remaining()) =~= result@);
            lemma_encode_in_alphabet(self@);
        }
        Ok(result)
    }

    fn decode_utf64(&self) -> (r: Result<String, Utf64Error>) {
        let mut result = String::new();
        let mut iter = self.chars();
        loop
            invariant
                decode_chars(self@) == prepend(result@, decode_chars(iter.remaining())),
                iter.decrease() is Some,
            ensures
                iter.remaining().len() == 0,
            decreases iter.decrease()->0,
        {
            let ghost before = iter.remaining();
            let ghost written = result@;
            match iter.next() {
                None => {
                    break ;
                },
                Some(ch) => {
                    match decode_next(ch, &mut iter) {
                        Ok(c) => {
                            result.push(c);
                            proof {
                                let n = decode_step(ch, before.skip(1)).unwrap().1;
                                lemma_step_length(ch, before.skip(1));
                                assert(iter.remaining() =~= before.skip(1 + n as int));
                                lemma_prepend_push(written, c, decode_chars(iter.remaining()));
                            }
                        },
                        Err(e) => {
                            return Err(e);
                        },
                    }
                },
            }
        }
        proof {
            assert(result@ + Seq::<char>::empty() =~= result@);
            if !all_in_alphabet(self@) {
                let i = choose|i: int| 0 <= i < self@.len() && !in_alphabet(#[trigger] self@[i]);
                lemma_rejects_outside_alphabet(self@, i);
            }
        }
        Ok(result)
    }
}

} // verus!
