use pgp_blocks::text::{chars_of, is_whitespace, leading_indent, string_of, trim};

const SAMPLES: [&str; 16] = [
    "",
    " ",
    "abc",
    "  abc",
    "abc  ",
    " \t abc \t ",
    "\u{a0}abc\u{2003}",
    "a b c",
    "  a  b  ",
    "\r\nabc\r\n",
    "\u{3000}\u{1680}x\u{85}",
    "\u{200b}abc",
    "   \t\n  ",
    "-----BEGIN PGP MESSAGE-----",
    "    key: value   # comment",
    "\u{feff} x",
];

#[test]
fn whitespace_agrees_with_the_standard_library_on_every_character() {
    let mut code: u32 = 0;
    while code <= 0x10FFFF {
        if let Some(c) = char::from_u32(code) {
            assert_eq!(is_whitespace(c), c.is_whitespace(), "U+{:04X}", code);
        }
        code += 1;
    }
}

#[test]
fn whitespace_holds_space_tab_and_line_breaks() {
    assert!(is_whitespace(' '));
    assert!(is_whitespace('\t'));
    assert!(is_whitespace('\n'));
    assert!(is_whitespace('\r'));
    assert!(is_whitespace('\u{3000}'));
    assert!(!is_whitespace('-'));
    assert!(!is_whitespace('a'));
    assert!(!is_whitespace('\u{200b}'));
}

#[test]
fn trim_agrees_with_the_standard_library() {
    for sample in SAMPLES {
        assert_eq!(trim(sample), sample.trim(), "{:?}", sample);
    }
}

#[test]
fn trim_removes_whitespace_at_both_ends_only() {
    assert_eq!(trim("  a  b \t"), "a  b");
    assert_eq!(trim("abc"), "abc");
    assert_eq!(trim(" \t "), "");
    assert_eq!(trim(""), "");
}

#[test]
fn leading_indent_is_the_whitespace_before_the_text() {
    assert_eq!(leading_indent("    key: value"), "    ");
    assert_eq!(leading_indent("\t  x  "), "\t  ");
    assert_eq!(leading_indent("x  "), "");
    assert_eq!(leading_indent("   "), "   ");
    assert_eq!(leading_indent(""), "");
}

#[test]
fn leading_indent_and_trim_start_make_up_the_text() {
    for sample in SAMPLES {
        let indent = leading_indent(sample);
        assert_eq!(format!("{}{}", indent, sample.trim_start()), sample);
    }
}

#[test]
fn characters_survive_the_way_to_a_vector_and_back() {
    for sample in SAMPLES {
        let characters = chars_of(sample);
        assert_eq!(characters, sample.chars().collect::<Vec<char>>());
        assert_eq!(string_of(&characters), sample);
    }
}

#[test]
fn string_of_puts_the_characters_in_order() {
    assert_eq!(string_of(&vec!['a', 'ß', '\n', '中']), "aß\n中");
    assert_eq!(string_of(&Vec::new()), "");
}
