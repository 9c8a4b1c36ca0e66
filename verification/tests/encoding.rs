use utf64::alphabet::ALPHABET;
use utf64::encode::{push_digit, push_encoded, push_escape};
use utf64::error::Utf64Error;
use utf64::UTF64;

fn enc(text: &str) -> String {
    text.encode_utf64().unwrap()
}

fn enc_char(c: char) -> String {
    let mut out = String::new();
    push_encoded(&mut out, c).unwrap();
    out
}

#[test]
fn empty_text_encodes_to_empty_text() {
    assert_eq!(enc(""), "");
}

#[test]
fn literals_are_kept() {
    let text = "-abcdefghijklmnopqrstuvwxyz0123456789";
    assert_eq!(enc(text), text);
}

#[test]
fn underscore_is_kept() {
    assert_eq!(enc("_"), "_");
    assert_eq!(enc("a_b"), "a_b");
}

#[test]
fn each_special_character_takes_its_letter() {
    assert_eq!(enc("\"',.;:!?()[]{}#=+"), "ABCDEFGHIJKLMNOPQ");
    assert_eq!(enc("*/\\\n "), "STUVW");
}

#[test]
fn hyphen_is_a_literal_not_a_letter() {
    assert_eq!(enc("-"), "-");
    assert_eq!(enc_char('-'), "-");
}

#[test]
fn short_escapes_below_64() {
    assert_eq!(enc("\0"), "X_");
    assert_eq!(enc("\u{1}"), "XA");
    assert_eq!(enc("\t"), "XI");
    assert_eq!(enc("$"), "Xj");
    assert_eq!(enc("%"), "Xk");
    assert_eq!(enc("&"), "Xl");
    assert_eq!(enc("<"), "X7");
    assert_eq!(enc(">"), "X9");
}

#[test]
fn short_escapes_from_64_to_127() {
    assert_eq!(enc("@"), "Y_");
    assert_eq!(enc("A"), "YA");
    assert_eq!(enc("Z"), "YZ");
    assert_eq!(enc("^"), "Yd");
    assert_eq!(enc("`"), "Yf");
    assert_eq!(enc("|"), "Y7");
    assert_eq!(enc("~"), "Y9");
    assert_eq!(enc("\u{7f}"), "Y-");
}

#[test]
fn long_escape_with_one_trailing_digit() {
    assert_eq!(enc("\u{80}"), "ZB_");
    assert_eq!(enc("\u{ec}"), "ZCr");
    assert_eq!(enc("\u{7fe}"), "Ze9");
    assert_eq!(enc("\u{7ff}"), "Ze-");
}

#[test]
fn long_escape_with_two_trailing_digits() {
    assert_eq!(enc("\u{800}"), "Zff_");
    assert_eq!(enc("\u{20ac}"), "ZhBr");
    assert_eq!(enc("\u{d7ff}"), "Zse-");
    assert_eq!(enc("\u{e000}"), "Zt__");
    assert_eq!(enc("\u{fffe}"), "Zu-9");
    assert_eq!(enc("\u{ffff}"), "Zu--");
}

#[test]
fn long_escape_with_three_trailing_digits() {
    assert_eq!(enc("\u{10000}"), "ZvP__");
    assert_eq!(enc("\u{1f9d0}"), "ZvemP");
    assert_eq!(enc("\u{10fffe}"), "ZzO-9");
    assert_eq!(enc("\u{10ffff}"), "ZzO--");
}

#[test]
fn push_escape_writes_marker_and_digits() {
    let mut out = String::from("ab");
    assert_eq!(push_escape(&mut out, 37), Ok(()));
    assert_eq!(out, "abXk");
    assert_eq!(push_escape(&mut out, 64), Ok(()));
    assert_eq!(out, "abXkY_");
    assert_eq!(push_escape(&mut out, 0x20ac), Ok(()));
    assert_eq!(out, "abXkY_ZhBr");
}

#[test]
fn push_escape_escapes_even_what_has_a_shorter_form() {
    let mut out = String::new();
    assert_eq!(push_escape(&mut out, 'a' as u32), Ok(()));
    assert_eq!(out, "Yg");
    assert_eq!(out.decode_utf64(), Ok("a".to_string()));
}

#[test]
fn push_escape_takes_surrogate_values() {
    let mut out = String::new();
    assert_eq!(push_escape(&mut out, 0xd800), Ok(()));
    assert_eq!(out, "Zsf_");
}

#[test]
fn push_escape_rejects_values_above_the_last_code_point() {
    let mut out = String::from("kept");
    assert_eq!(push_escape(&mut out, 0x110000), Err(Utf64Error::InvalidCodePoint(0x110000)));
    assert_eq!(out, "kept");
    assert_eq!(push_escape(&mut out, u32::MAX), Err(Utf64Error::InvalidCodePoint(u32::MAX)));
    assert_eq!(out, "kept");
    assert_eq!(push_escape(&mut out, 0x10ffff), Ok(()));
    assert_eq!(out, "keptZzO--");
}

#[test]
fn push_digit_appends_the_alphabet_character() {
    let mut out = String::new();
    for d in 0..64 {
        push_digit(&mut out, d);
    }
    assert_eq!(out, ALPHABET);
}

#[test]
fn push_encoded_appends_and_keeps_what_was_there() {
    let mut out = String::from("x");
    assert_eq!(push_encoded(&mut out, 'y'), Ok(()));
    assert_eq!(push_encoded(&mut out, ','), Ok(()));
    assert_eq!(push_encoded(&mut out, 'H'), Ok(()));
    assert_eq!(push_encoded(&mut out, '€'), Ok(()));
    assert_eq!(out, "xyCYHZhBr");
}

#[test]
fn encoding_is_the_concatenation_of_the_characters() {
    let text = "Ceud mìle fàilte, 大家好!";
    let mut expected = String::new();
    for c in text.chars() {
        expected.push_str(&enc_char(c));
    }
    assert_eq!(enc(text), expected);
}

#[test]
fn output_stays_in_the_alphabet() {
    let texts = [
        "Hello, world!",
        "{\"hello\":[\"world\",\"!\"]}",
        "こんにちは 🧐 € \u{0} \u{7f} \u{80} \u{10ffff}",
        "tab\there\r\n",
    ];
    for text in texts {
        for c in enc(text).chars() {
            assert!(ALPHABET.contains(c), "{c:?} from {text:?}");
        }
    }
}

#[test]
fn every_character_up_to_0x2ff_stays_in_the_alphabet() {
    for n in 0..0x300u32 {
        let c = char::from_u32(n).unwrap();
        for e in enc_char(c).chars() {
            assert!(ALPHABET.contains(e));
        }
    }
}

#[test]
fn encoding_twice_gives_the_same() {
    let text = "one, two, three 🇺🇸";
    assert_eq!(text.encode_utf64(), text.encode_utf64());
    assert_eq!(enc(text), "oneCWtwoCWthreeWZveG5ZveG3");
}
