use am4::text::{
    chars_of, find, format_number, is_whitespace, parse_number, spells, string_of, to_uppercase,
    trim,
};

fn chars(s: &str) -> Vec<char> {
    s.chars().collect()
}

fn upper(s: &str) -> String {
    to_uppercase(&chars(s)).into_iter().collect()
}

fn trimmed(s: &str) -> String {
    trim(&chars(s)).iter().collect()
}

#[test]
fn whitespace_is_what_the_standard_library_calls_whitespace() {
    let mut code: u32 = 0;
    while code <= 0x10FFFF {
        if let Some(c) = char::from_u32(code) {
            assert_eq!(is_whitespace(c), c.is_whitespace(), "at {:#x}", code);
        }
        code += 1;
    }
}

#[test]
fn trim_removes_white_space_at_both_ends_only() {
    assert_eq!(trimmed("  b744 \t\n"), "b744");
    assert_eq!(trimmed("a b"), "a b");
    assert_eq!(trimmed(""), "");
    assert_eq!(trimmed(" \u{3000}\u{a0} "), "");
    assert_eq!(trimmed("\u{2003}x\u{2003}y\u{85}"), "x\u{2003}y");
}

#[test]
fn trim_agrees_with_the_standard_library() {
    for s in ["", " ", "  a  ", "\ta\u{a0}b\r\n", "x", " \u{1680}é \u{202f}", "\u{200b} a"] {
        assert_eq!(trimmed(s), s.trim());
    }
}

#[test]
fn find_gives_the_first_place() {
    assert_eq!(find(&chars("a:b:c"), ':'), Some(1));
    assert_eq!(find(&chars(":"), ':'), Some(0));
    assert_eq!(find(&chars("abc"), ':'), None);
    assert_eq!(find(&chars(""), ':'), None);
}

#[test]
fn uppercase_of_ascii() {
    assert_eq!(upper("b744"), "B744");
    assert_eq!(upper("Boeing 747-400"), "BOEING 747-400");
    assert_eq!(upper("az{`AZ[@"), "AZ{`AZ[@");
    assert_eq!(upper(""), "");
}

#[test]
fn uppercase_beyond_ascii_follows_unicode() {
    assert_eq!(upper("straße"), "STRASSE");
    assert_eq!(upper("é"), "É");
    assert_eq!(upper("ŉ"), "\u{2bc}N");
    assert_eq!(upper("ﬃ"), "FFI");
}

#[test]
fn uppercase_agrees_with_the_standard_library() {
    for s in ["", "abc", "Tupolev Tu-204", "ǆ", "ΐ", "ὒ", "Ünïcödé", "日本語", "ß ẞ ſ"] {
        assert_eq!(upper(s), s.to_uppercase());
    }
}

#[test]
fn numbers_are_read_as_the_standard_library_reads_them() {
    for s in ["0", "7", "007", "+7", "65535", "65536", "99999999999999999999", "", "+", "-1",
        " 1", "1 ", "1_0", "++1", "1+", "12a", "٣", "0000000000000000000000001"]
    {
        assert_eq!(
            parse_number(&chars(s), 65535),
            s.parse::<u16>().ok().map(u32::from),
            "for {:?}",
            s
        );
        assert_eq!(
            parse_number(&chars(s), 255),
            s.parse::<u8>().ok().map(u32::from),
            "for {:?}",
            s
        );
    }
}

#[test]
fn numbers_up_to_the_bound_are_read() {
    assert_eq!(parse_number(&chars("255"), 255), Some(255));
    assert_eq!(parse_number(&chars("256"), 255), None);
    assert_eq!(parse_number(&chars("4294967295"), u32::MAX), Some(u32::MAX));
    assert_eq!(parse_number(&chars("4294967296"), u32::MAX), None);
}

#[test]
fn numbers_are_written_without_leading_zeros() {
    assert_eq!(format_number(0), chars("0"));
    assert_eq!(format_number(9), chars("9"));
    assert_eq!(format_number(10), chars("10"));
    assert_eq!(format_number(65535), chars("65535"));
    assert_eq!(format_number(u32::MAX), chars("4294967295"));
}

#[test]
fn a_number_written_is_read_back() {
    for n in [0u32, 1, 9, 10, 99, 100, 255, 256, 65535] {
        assert_eq!(parse_number(&format_number(n), 65535), Some(n));
    }
}

#[test]
fn characters_and_strings_convert_both_ways() {
    assert_eq!(chars_of("b744"), vec!['b', '7', '4', '4']);
    assert_eq!(chars_of("é日"), vec!['é', '日']);
    assert_eq!(string_of(&['A', '3', '8', '8']), "A388");
    assert_eq!(string_of(&chars_of("straße")), "straße");
}

#[test]
fn spells_compares_whole_words() {
    assert!(spells(&chars("ID"), "ID"));
    assert!(!spells(&chars("ID"), "IDS"));
    assert!(!spells(&chars("IDS"), "ID"));
    assert!(!spells(&chars("Id"), "ID"));
    assert!(spells(&chars(""), ""));
}

#[test]
fn uppercasing_twice_changes_no_character() {
    let mut code: u32 = 0;
    while code <= 0x10FFFF {
        if let Some(c) = char::from_u32(code) {
            let once = to_uppercase(&[c]);
            assert_eq!(to_uppercase(&once), once, "at {:#x}", code);
            assert_eq!(once, c.to_uppercase().collect::<Vec<char>>(), "at {:#x}", code);
        }
        code += 1;
    }
}
