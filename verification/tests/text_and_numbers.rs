use mnemo::numbers::{read_number, write_number, NumberFault};
use mnemo::text::{
    chars_of, comes_before, copy_text, ends_with, equal_ignoring_ascii_case, find,
    last_position_of, position_of, same_string, same_text, split, starts_with, string_of,
    trim, trim_string, trim_trailing, white_space,
};

#[test]
fn white_space_agrees_with_the_standard_library() {
    for n in 0..=0x10ffffu32 {
        if let Some(c) = char::from_u32(n) {
            assert_eq!(white_space(c), c.is_whitespace(), "{n:x}");
        }
    }
}

#[test]
fn trimming_drops_white_space_at_both_ends_only() {
    for s in ["", " ", "a", " a b ", "\u{2003}x\u{3000}\r\n", "\t\n", "x \u{85}"] {
        assert_eq!(trim_string(s), s.trim());
    }
    let chars = chars_of("  ab ");
    assert_eq!(trim(&chars), &['a', 'b'][..]);
}

#[test]
fn trailing_characters_are_dropped() {
    assert_eq!(trim_trailing("https://x//", '/'), "https://x");
    assert_eq!(trim_trailing("///", '/'), "");
    assert_eq!(trim_trailing("a/b", '/'), "a/b");
}

#[test]
fn strings_survive_being_taken_apart() {
    for s in ["", "abc", "Grüße, 世界 🦀"] {
        let chars = chars_of(s);
        assert_eq!(chars.len(), s.chars().count());
        assert_eq!(string_of(&chars), s);
    }
}

#[test]
fn texts_are_compared_by_their_characters() {
    assert!(same_string("abc", "abc"));
    assert!(!same_string("abc", "abd"));
    assert!(!same_string("abc", "abcd"));
    assert!(same_text(&['x'], &['x']));
    assert!(!same_text(&['x'], &[]));
}

#[test]
fn order_agrees_with_the_standard_library() {
    let words = ["", "a", "aa", "ab", "b", "B", "é", "z", "世", "🦀", "\u{e000}"];
    for a in words {
        for b in words {
            assert_eq!(comes_before(a, b), a < b, "{a:?} {b:?}");
        }
    }
}

#[test]
fn positions_are_found() {
    let s = chars_of("a:b:c");
    assert_eq!(position_of(&s, ':'), 1);
    assert_eq!(position_of(&s, '?'), 5);
    assert_eq!(last_position_of(&s, ':'), Some(3));
    assert_eq!(last_position_of(&s, '?'), None);
    assert_eq!(find(&s, &chars_of("b:")), Some(2));
    assert_eq!(find(&s, &chars_of("d")), None);
    assert_eq!(find(&s, &[]), Some(0));
    assert_eq!(find(&[], &[]), Some(0));
    assert_eq!(find(&[], &['a']), None);
}

#[test]
fn pieces_lie_between_separators() {
    for s in ["", ",", "a", "a,b", ",a,,b,", "a b"] {
        let expected: Vec<&str> = s.split(',').collect();
        assert_eq!(split(&chars_of(s), ','), expected);
    }
}

#[test]
fn beginnings_and_ends_are_recognised() {
    let s = chars_of("profile:x");
    assert!(starts_with(&s, &chars_of("profile:")));
    assert!(!starts_with(&s, &chars_of("profiles")));
    assert!(!starts_with(&s, &chars_of("profile:xy")));
    assert!(ends_with(&s, &chars_of(":x")));
    assert!(!ends_with(&s, &chars_of("y")));
    assert!(!ends_with(&[], &['a']));
}

#[test]
fn ascii_case_is_ignored() {
    assert!(equal_ignoring_ascii_case(&chars_of("AlL"), &chars_of("all")));
    assert!(!equal_ignoring_ascii_case(&chars_of("all"), &chars_of("al")));
    assert!(!equal_ignoring_ascii_case(&chars_of("É"), &chars_of("é")));
    for n in 0..=0x24fu32 {
        let c = char::from_u32(n).unwrap();
        for d in ['a', 'z', 'A', '[', '`'] {
            let same = equal_ignoring_ascii_case(&[c], &[d]);
            assert_eq!(same, c.eq_ignore_ascii_case(&d));
        }
    }
}

#[test]
fn optional_strings_are_copied() {
    assert_eq!(copy_text(&Some("x".to_string())), Some("x".to_string()));
    assert_eq!(copy_text(&None), None);
}

#[test]
fn numbers_read_as_the_standard_library_reads_them() {
    let max = usize::MAX.to_string();
    let texts = [
        "", "0", "7", "007", "+5", "+", "-", "-1", "++1", "1x", "x1", " 1", "12 ", "1_0",
        "184467440737095516150", "99999999999999999999x", "18446744073709551616",
        "18446744073709551615x", "٣", &max,
    ];
    for text in texts {
        let read = read_number(&chars_of(text));
        match text.parse::<usize>() {
            Ok(n) => assert_eq!(read, Ok(n), "{text:?}"),
            Err(error) => {
                let fault = read.unwrap_err();
                assert_eq!(fault.describe(), error.to_string(), "{text:?}");
            }
        }
    }
}

#[test]
fn each_fault_of_a_number_has_its_words() {
    assert_eq!(read_number(&[]), Err(NumberFault::Empty));
    assert_eq!(read_number(&['x']), Err(NumberFault::InvalidDigit));
    assert_eq!(
        read_number(&chars_of("99999999999999999999999")),
        Err(NumberFault::TooLarge)
    );
    assert_eq!(
        NumberFault::Empty.describe(),
        "cannot parse integer from empty string"
    );
    assert_eq!(
        NumberFault::InvalidDigit.describe(),
        "invalid digit found in string"
    );
    assert_eq!(
        NumberFault::TooLarge.describe(),
        "number too large to fit in target type"
    );
}

#[test]
fn numbers_are_written_in_decimal_and_read_back() {
    for n in [0u64, 1, 9, 10, 42, 100, 65_535, 1_234_567_890, u64::MAX] {
        let text = write_number(n);
        assert_eq!(text, n.to_string());
        assert_eq!(read_number(&chars_of(&text)), Ok(n as usize));
    }
}
