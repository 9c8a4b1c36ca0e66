use utf64::UTF64;

fn round_trip(text: &str) {
    let enc = text.encode_utf64().unwrap();
    assert_eq!(enc.decode_utf64(), Ok(text.to_string()), "through {enc:?}");
}

#[test]
fn round_trip_of_ordinary_texts() {
    round_trip("");
    round_trip("hello");
    round_trip("Hello, world!");
    round_trip("{\"hello\":[\"world\",\"!\"]}");
    round_trip("Ceud mìle fàilte");
    round_trip("こんにちは");
    round_trip("🏴󠁧󠁢󠁳󠁣󠁴󠁿");
    round_trip("-_-_ R X Y Z XYZ ZZZ");
}

#[test]
fn round_trip_at_the_limits_of_each_escape() {
    round_trip("\u{0}\u{3f}\u{40}\u{7f}\u{80}\u{7ff}\u{800}\u{ffff}\u{10000}\u{10ffff}");
    round_trip("\u{d7ff}\u{e000}");
    round_trip("\u{7fe}\u{fffe}\u{10fffe}");
}

#[test]
fn round_trip_of_every_character_below_0x3000() {
    for n in 0..0x3000u32 {
        let c = char::from_u32(n).unwrap();
        round_trip(&c.to_string());
    }
}

#[test]
fn round_trip_of_every_4099th_scalar_value() {
    let mut n = 0u32;
    let mut text = String::new();
    while n <= 0x10ffff {
        if let Some(c) = char::from_u32(n) {
            text.push(c);
        }
        n += 4099;
    }
    round_trip(&text);
}

#[test]
fn round_trip_keeps_what_looks_like_an_escape() {
    round_trip("Xk");
    round_trip("Z0___");
    round_trip("YHelloCWworldG");
}

#[test]
fn literal_text_is_stable_both_ways() {
    let texts = ["", "-", "a", "0", "abc-123", "the-quick-brown-fox-0123456789", "---"];
    for text in texts {
        assert_eq!(text.encode_utf64(), Ok(text.to_string()));
        assert_eq!(text.decode_utf64(), Ok(text.to_string()));
    }
}

#[test]
fn any_character_outside_the_alphabet_fails_decoding() {
    let texts = [
        "?", "a?", "?a", "abc def", "X%", "Y!", "Z,__", "ZhB.", "Zvem~", "hello\n", "é", "a€b",
        "YHello, world", "\u{0}", "a\u{10ffff}",
    ];
    for text in texts {
        assert!(text.decode_utf64().is_err(), "{text:?}");
    }
}

#[test]
fn a_foreign_character_at_any_place_fails_decoding() {
    let good = "YHelloCWworldGZhBrXk";
    assert!(good.decode_utf64().is_ok());
    let chars: Vec<char> = good.chars().collect();
    for i in 0..=chars.len() {
        let mut text: String = chars[..i].iter().collect();
        text.push('$');
        text.extend(chars[i..].iter());
        assert!(text.decode_utf64().is_err(), "{text:?}");
    }
}
