//! The two fixed tables of the encoding and the digit arithmetic over them.
//!
//! A *digit* is a number in `0..64`; the alphabet gives each digit one
//! character. The special set lists the punctuation that is written as a
//! single capital letter.

use vstd::prelude::*;
use vstd::string::is_ascii;

verus! {

/// The output alphabet: the character at index `d` is the digit of value `d`.
pub const ALPHABET: &'static str =
    "_ABCDEFGHIJKLMNOPQRSTUVWXYZabcdefghijklmnopqrstuvwxyz0123456789-";

/// The special set: the character at index `i` is written as the digit `i`.
/// Index 0 holds the underscore, which therefore stands for itself.
pub const SPECIAL: &'static str = "_\"',.;:!?()[]{}#=+-*/\\\n ";

/// The character that stands for the digit `d`, for `0 <= d < 64`.
pub open spec fn digit_char(d: int) -> char {
    if d == 0 {
        '_'
    } else if d <= 26 {
        ('A' as int + d - 1) as char
    } else if d <= 52 {
        ('a' as int + d - 27) as char
    } else if d <= 62 {
        ('0' as int + d - 53) as char
    } else {
        '-'
    }
}

/// The digit that `c` stands for, or `None` where `c` is not in the alphabet.
pub open spec fn digit_value(c: char) -> Option<u8> {
    if c == '_' {
        Some(0)
    } else if 'A' <= c <= 'Z' {
        Some((c as int - 'A' as int + 1) as u8)
    } else if 'a' <= c <= 'z' {
        Some((c as int - 'a' as int + 27) as u8)
    } else if '0' <= c <= '9' {
        Some((c as int - '0' as int + 53) as u8)
    } else if c == '-' {
        Some(63)
    } else {
        None
    }
}

/// Whether `c` is one of the 64 characters of the alphabet.
pub open spec fn in_alphabet(c: char) -> bool {
    digit_value(c) is Some
}

/// Whether every character of `s` belongs to the alphabet.
pub open spec fn all_in_alphabet(s: Seq<char>) -> bool {
    forall|i: int| 0 <= i < s.len() ==> in_alphabet(#[trigger] s[i])
}

/// The special set as a sequence; its order fixes the letter of each member.
pub open spec fn special_set() -> Seq<char> {
    seq![
        '_', '"', '\'', ',', '.', ';', ':', '!',
        '?', '(', ')', '[', ']', '{', '}', '#',
        '=', '+', '-', '*', '/', '\\', '\n', ' ',
    ]
}

/// Where `c` stands in the special set, or `None` where it is no member.
pub open spec fn special_position(c: char) -> Option<int> {
    if special_set().contains(c) {
        Some(special_set().index_of(c))
    } else {
        None
    }
}

/// The alphabet constant holds exactly the 64 digit characters, in order.
pub proof fn lemma_alphabet_table()
    ensures
        ALPHABET@.len() == 64,
        forall|d: int| 0 <= d < 64 ==> ALPHABET@[d] == digit_char(d),
        is_ascii(ALPHABET),
{
    reveal_strlit("_ABCDEFGHIJKLMNOPQRSTUVWXYZabcdefghijklmnopqrstuvwxyz0123456789-");
}

/// The special constant holds exactly the special set.
pub proof fn lemma_special_table()
    ensures
        SPECIAL@ == special_set(),
        SPECIAL@.len() == 24,
        is_ascii(SPECIAL),
{
    reveal_strlit("_\"',.;:!?()[]{}#=+-*/\\\n ");
    assert(SPECIAL@ =~= special_set());
}

/// The alphabet is injective, and `digit_value` inverts `digit_char`: no two
/// digits share a character, and each character of the alphabet is the
/// character of its own digit.
pub proof fn lemma_digit_round_trip(d: int)
    requires
        0 <= d < 64,
    ensures
        digit_value(digit_char(d)) == Some(d as u8),
        forall|c: char| digit_value(c) == Some(d as u8) ==> c == digit_char(d),
{
}

/// No character occurs twice in the special set, so a member has one position.
pub proof fn lemma_special_position(c: char)
    ensures
        match special_position(c) {
            Some(i) => 0 <= i < 24 && special_set()[i] == c && forall|j: int|
                0 <= j < 24 && special_set()[j] == c ==> j == i,
            None => forall|j: int| 0 <= j < 24 ==> special_set()[j] != c,
        },
{
    let s = special_set();
    assert(s.len() == 24);
    assert(forall|i: int, j: int| 0 <= i < j < 24 ==> s[i] != s[j]);
}

/// The character of digit `d`, read from the alphabet table.
pub fn alphabet_char(d: u8) -> (c: char)
    requires
        d < 64,
    ensures
        c == digit_char(d as int),
{
    proof {
        lemma_alphabet_table();
    }
    let b: u8 = ALPHABET.get_ascii(d as usize);
    b as char
}

/// The digit of `ch`, computed from the character ranges of the alphabet.
pub fn alphabet_index(ch: char) -> (r: Option<u8>)
    ensures
        r == digit_value(ch),
{
    let n: u32 = ch as u32;
    if ch == '_' {
        Some(0)
    } else if 'A' <= ch && ch <= 'Z' {
        Some((n - 'A' as u32 + 1) as u8)
    } else if 'a' <= ch && ch <= 'z' {
        Some((n - 'a' as u32 + 27) as u8)
    } else if '0' <= ch && ch <= '9' {
        Some((n - '0' as u32 + 53) as u8)
    } else if ch == '-' {
        Some(63)
    } else {
        None
    }
}

/// The member of the special set at index `i`.
pub fn special_char(i: u8) -> (c: char)
    requires
        i < 24,
    ensures
        c == special_set()[i as int],
{
    proof {
        lemma_special_table();
    }
    let b: u8 = SPECIAL.get_ascii(i as usize);
    b as char
}

/// Looks `ch` up in the special set by scanning the table from its start.
pub fn special_index(ch: char) -> (r: Option<u8>)
    ensures
        match r {
            Some(i) => special_position(ch) == Some(i as int),
            None => special_position(ch) is None,
        },
{
    proof {
        lemma_special_table();
        lemma_special_position(ch);
    }
    let mut i: u8 = 0;
    while i < 24
        invariant
            i <= 24,
            SPECIAL@ == special_set(),
            SPECIAL@.len() == 24,
            is_ascii(SPECIAL),
            forall|j: int| 0 <= j < i ==> special_set()[j] != ch,
        decreases 24 - i,
    {
        let b: u8 = SPECIAL.get_ascii(i as usize);
        if b as char == ch {
            return Some(i);
        }
        i += 1;
    }
    None
}

} // verus!
