use herdr_auto_title::text::{
    characters, comes_before, equal_but_for_case, is_number, is_white_space, same_text,
    starts_with, trim,
};

#[test]
fn white_space_is_what_the_standard_library_says() {
    for code in 0..=0x10ffff_u32 {
        if let Some(c) = char::from_u32(code) {
            assert_eq!(is_white_space(c), c.is_whitespace(), "{code:x}");
        }
    }
}

#[test]
fn texts_are_trimmed_as_the_standard_library_does() {
    for text in [
        "", " ", "  \t\n", "a", " a", "a ", " a b ", "\u{85}a\u{a0}", "\u{200b}a", "é \u{3000}",
        "\r\nFix it\r\n",
    ] {
        assert_eq!(trim(text), text.trim());
    }
}

#[test]
fn numbers_are_what_the_standard_library_reads() {
    for text in [
        "", "0", "1", "00000000000000000000000000000001", "+7", "+", "-", "-0", "-7", "+-7", "7+",
        "12a", "a12", "1 2", " 12", "12 ", "18446744073709551615", "18446744073709551616",
        "+18446744073709551615", "99999999999999999999999999", "18446744073709551620", "１", "½",
    ] {
        assert_eq!(is_number(text), text.parse::<u64>().is_ok(), "{text}");
    }
}

#[test]
fn case_is_ignored_for_ascii_letters_only() {
    for (a, b) in [
        ("opencode", "OPENCODE"), ("OpenCode", "opencode"), ("opencode", "opencod"), ("É", "é"),
        ("é", "é"), ("@", "`"), ("[", "{"), ("", ""), ("a1", "A1"),
    ] {
        assert_eq!(equal_but_for_case(a, b), a.eq_ignore_ascii_case(b), "{a} {b}");
    }
}

#[test]
fn texts_are_ordered_as_the_standard_library_does() {
    let texts = [
        "", "a", "ab", "b", "w1:t1", "w1:t10", "w1:t2", "é", "z", "⣿ a", "\u{ffff}", "\u{10000}", "Z",
    ];
    for a in texts {
        for b in texts {
            assert_eq!(comes_before(a, b), a < b, "{a} {b}");
            assert_eq!(same_text(a, b), a == b);
            assert_eq!(starts_with(a, b), a.starts_with(b));
        }
    }
}

#[test]
fn characters_are_taken_apart() {
    assert_eq!(characters("✓ é"), vec!['✓', ' ', 'é']);
    assert!(characters("").is_empty());
}
