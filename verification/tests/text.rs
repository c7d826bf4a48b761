use horace::text::{
    int_to_string, is_whitespace, parse_i64, parse_u64, split_whitespace, text_eq, text_less,
    trim_start_matches, u64_to_string,
};

#[test]
fn int_to_string_writes_decimal() {
    assert_eq!(int_to_string(0), "0");
    assert_eq!(int_to_string(42), "42");
    assert_eq!(int_to_string(-7), "-7");
    assert_eq!(int_to_string(i64::MIN), "-9223372036854775808");
    assert_eq!(int_to_string(i64::MAX), "9223372036854775807");
    for n in [1i64, 9, 10, 99, 100, 1234567, -1000, -99] {
        assert_eq!(int_to_string(n), format!("{}", n));
    }
}

#[test]
fn u64_to_string_writes_decimal() {
    assert_eq!(u64_to_string(0), "0");
    assert_eq!(u64_to_string(u64::MAX), "18446744073709551615");
}

#[test]
fn parse_u64_agrees_with_std() {
    let samples = [
        "0", "42", "+42", "-0", "-1", "", "+", "007", "18446744073709551615",
        "18446744073709551616", " 1", "1 ", "1a", "++1", "99999999999999999999999",
    ];
    for s in samples {
        assert_eq!(parse_u64(s), s.parse::<u64>().ok(), "input {:?}", s);
    }
}

#[test]
fn parse_i64_agrees_with_std() {
    let samples = [
        "0", "-0", "+0", "-", "+", "", "42", "-42", "+42", "9223372036854775807",
        "9223372036854775808", "-9223372036854775808", "-9223372036854775809", "--1", "1.5",
        "five", "٣",
    ];
    for s in samples {
        assert_eq!(parse_i64(s), s.parse::<i64>().ok(), "input {:?}", s);
    }
}

#[test]
fn written_numbers_read_back() {
    for n in [0i64, 1, -1, 12345, i64::MIN, i64::MAX] {
        assert_eq!(parse_i64(&int_to_string(n)), Some(n));
    }
    for n in [0u64, 7, u64::MAX] {
        assert_eq!(parse_u64(&u64_to_string(n)), Some(n));
    }
}

#[test]
fn split_whitespace_agrees_with_std() {
    let samples = [
        "", "   ", "one", "  two  words ", "tab\tand\nnewline", "a\u{3000}b", "a\u{200b}b",
        "a\u{85}b\u{a0}c", "émoji 🎉 ok",
    ];
    for s in samples {
        let std_words: Vec<String> = s.split_whitespace().map(|w| w.to_owned()).collect();
        assert_eq!(split_whitespace(s), std_words, "input {:?}", s);
    }
}

#[test]
fn whitespace_matches_char_is_whitespace() {
    for u in 0u32..0x3100 {
        if let Some(c) = char::from_u32(u) {
            assert_eq!(is_whitespace(c), c.is_whitespace(), "char {:?}", c);
        }
    }
}

#[test]
fn words_hold_no_whitespace() {
    for w in split_whitespace("  the quick\t brown\n\n fox ") {
        assert!(!w.is_empty());
        assert!(!w.chars().any(|c| c.is_whitespace()));
    }
}

#[test]
fn text_less_orders_like_strings() {
    let samples = ["", "a", "b", "B", "ab", "abc", "é", "e", "Z", "zz"];
    for a in samples {
        for b in samples {
            assert_eq!(text_less(a, b), a < b, "{:?} < {:?}", a, b);
        }
    }
    assert!(text_eq("role", "role"));
    assert!(!text_eq("role", "Role"));
}

#[test]
fn trim_start_matches_agrees_with_std() {
    let samples = ["!role Gamers", "!role !role x", "!role ", "!role", "x!role ", ""];
    for s in samples {
        assert_eq!(trim_start_matches(s, "!role "), s.trim_start_matches("!role "));
    }
}
