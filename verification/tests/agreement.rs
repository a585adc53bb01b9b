//! Texts, held against what the standard library does.
use version_renamer::text::{
    chars_of, decimal_text, find_char, has_suffix, is_control, is_empty, is_whitespace, parse_u32,
    same_str, same_text, split_text, string_of, to_lower, to_lower_char, to_upper, to_upper_char,
    trim_text,
};
use version_renamer::utf16::{before_null, from_utf16_lossy, to_wide};

fn every_char() -> Vec<char> {
    (0..=0x10_FFFFu32).filter_map(char::from_u32).collect()
}

fn samples() -> Vec<&'static str> {
    vec![
        "",
        "a",
        "10.0.26100.8875 (extra)",
        "  padded\t\r\n",
        "\u{3000}wide\u{2003}",
        "ÄÖÜ äöü ß",
        "..a..b..",
        "\u{1F600} pair \u{10FFFF}",
        "x;y;;z",
    ]
}

#[test]
fn character_classes_are_those_of_std() {
    for c in every_char() {
        assert_eq!(is_whitespace(c), c.is_whitespace(), "{:x}", c as u32);
        assert_eq!(is_control(c), c.is_control(), "{:x}", c as u32);
        assert_eq!(to_upper_char(c), c.to_ascii_uppercase());
        assert_eq!(to_lower_char(c), c.to_ascii_lowercase());
    }
}

#[test]
fn texts_survive_the_way_through_characters() {
    for s in samples() {
        assert_eq!(string_of(&chars_of(s)), s);
        assert_eq!(is_empty(s), s.is_empty());
        assert_eq!(string_of(&to_upper(&chars_of(s))), s.to_ascii_uppercase());
        assert_eq!(string_of(&to_lower(&chars_of(s))), s.to_ascii_lowercase());
        assert_eq!(string_of(&trim_text(&chars_of(s))), s.trim());
    }
}

#[test]
fn texts_compare_as_in_std() {
    for a in samples() {
        for b in samples() {
            assert_eq!(same_str(a, b), a == b);
            assert_eq!(same_text(&chars_of(a), b), a == b);
            assert_eq!(has_suffix(&chars_of(a), &chars_of(b)), a.ends_with(b));
        }
    }
}

#[test]
fn texts_split_as_in_std() {
    for s in samples() {
        for c in ['.', ';', ' ', 'x'] {
            let parts: Vec<String> = split_text(&chars_of(s), c)
                .iter()
                .map(|p| string_of(p))
                .collect();
            let expected: Vec<String> = s.split(c).map(str::to_owned).collect();
            assert_eq!(parts, expected);
            let at = s.chars().position(|x| x == c).unwrap_or(s.chars().count());
            assert_eq!(find_char(&chars_of(s), c), at);
        }
    }
}

#[test]
fn numbers_print_as_in_std() {
    for n in [0u128, 7, 10, 99, 100, 65535, 4_294_967_295, u128::MAX] {
        assert_eq!(string_of(&decimal_text(n)), n.to_string());
    }
}

#[test]
fn numbers_parse_as_in_std() {
    for s in [
        "", "+", "-", "0", "007", "+5", "++5", "-0", "-1", "4294967295", "4294967296",
        "99999999999999999999999", "12a", " 1", "1 ", "٣", "a",
    ] {
        assert_eq!(parse_u32(&chars_of(s)), s.parse::<u32>().ok(), "{s}");
    }
}

#[test]
fn printed_numbers_parse_back() {
    for n in [0u32, 1, 9, 10, 26100, u32::MAX] {
        assert_eq!(parse_u32(&decimal_text(n as u128)), Some(n));
    }
}

#[test]
fn wide_texts_are_those_of_std() {
    for s in samples() {
        let mut expected: Vec<u16> = s.encode_utf16().collect();
        assert_eq!(string_of(&from_utf16_lossy(&expected)), s);
        expected.push(0);
        assert_eq!(to_wide(s), expected);
        assert_eq!(string_of(&from_utf16_lossy(&before_null(&to_wide(s)))), s);
    }
}

#[test]
fn every_character_survives_the_wide_form() {
    for c in every_char() {
        let mut units = [0u16; 2];
        let units = c.encode_utf16(&mut units);
        assert_eq!(from_utf16_lossy(units), vec![c]);
    }
}

#[test]
fn broken_pairs_are_replaced_as_in_std() {
    for units in [
        vec![0xD800u16],
        vec![0xDC00],
        vec![0xD800, 0x41],
        vec![0xDC00, 0xD800],
        vec![0xD800, 0xD800, 0xDC00],
        vec![0x41, 0xDBFF, 0xDFFF, 0xDFFF],
        vec![0xD83D, 0xDE00, 0x20],
    ] {
        assert_eq!(
            string_of(&from_utf16_lossy(&units)),
            String::from_utf16_lossy(&units)
        );
    }
}

#[test]
fn a_null_ends_a_wide_text() {
    assert_eq!(before_null(&[0x41, 0x42, 0, 0x43]), vec![0x41, 0x42]);
    assert_eq!(before_null(&[0, 0x43]), Vec::<u16>::new());
    assert_eq!(before_null(&[0x41]), vec![0x41]);
}
