use pgp_blocks::marker::{is_begin_marker, is_end_marker, BEGIN_MARKER, END_MARKER};
use pgp_blocks::text::leading_indent;
use regex::Regex;

const LINES: [&str; 22] = [
    "-----BEGIN PGP MESSAGE-----",
    "-----END PGP MESSAGE-----",
    "  -----BEGIN PGP MESSAGE-----",
    "\t-----END PGP MESSAGE-----",
    "-----BEGIN PGP MESSAGE-----  ",
    "  -----END PGP MESSAGE-----\t ",
    "\u{a0}-----BEGIN PGP MESSAGE-----\u{2003}",
    "-----BEGIN PGP MESSAGE----",
    "----BEGIN PGP MESSAGE-----",
    "-----BEGIN PGP MESSAGE----- x",
    "x -----BEGIN PGP MESSAGE-----",
    "-----BEGIN  PGP MESSAGE-----",
    "-----begin pgp message-----",
    "-----BEGIN PGP SIGNATURE-----",
    "-----END PGP MESSAGE-----x",
    "key: -----END PGP MESSAGE-----",
    "",
    "   ",
    "hQEMA0d7",
    "=abcd",
    "-----BEGIN PGP MESSAGE----------END PGP MESSAGE-----",
    "-----BEGIN PGP MESSAGE-----\r",
];

#[test]
fn markers_are_the_armor_lines_of_a_message() {
    assert_eq!(BEGIN_MARKER, "-----BEGIN PGP MESSAGE-----");
    assert_eq!(END_MARKER, "-----END PGP MESSAGE-----");
}

#[test]
fn begin_marker_is_recognised_with_whitespace_around_it() {
    assert!(is_begin_marker("-----BEGIN PGP MESSAGE-----"));
    assert!(is_begin_marker("    -----BEGIN PGP MESSAGE-----"));
    assert!(is_begin_marker("-----BEGIN PGP MESSAGE-----   "));
    assert!(is_begin_marker("\t-----BEGIN PGP MESSAGE----- \t"));
}

#[test]
fn end_marker_is_recognised_with_whitespace_around_it() {
    assert!(is_end_marker("-----END PGP MESSAGE-----"));
    assert!(is_end_marker("    -----END PGP MESSAGE-----"));
    assert!(is_end_marker("-----END PGP MESSAGE-----   "));
}

#[test]
fn markers_are_told_apart() {
    assert!(!is_begin_marker("-----END PGP MESSAGE-----"));
    assert!(!is_end_marker("-----BEGIN PGP MESSAGE-----"));
}

#[test]
fn a_line_with_other_content_is_no_marker() {
    assert!(!is_begin_marker("key: -----BEGIN PGP MESSAGE-----"));
    assert!(!is_begin_marker("-----BEGIN PGP MESSAGE----- #"));
    assert!(!is_begin_marker("-----BEGIN PGP MESSAGE----"));
    assert!(!is_end_marker("-----END PGP MESSAGE-----."));
    assert!(!is_begin_marker(""));
    assert!(!is_end_marker("  "));
}

#[test]
fn markers_agree_with_whitespace_tolerant_patterns() {
    let begin = Regex::new(r"^\s*-----BEGIN PGP MESSAGE-----\s*$").unwrap();
    let end = Regex::new(r"^\s*-----END PGP MESSAGE-----\s*$").unwrap();
    for line in LINES {
        assert_eq!(is_begin_marker(line), begin.is_match(line), "{:?}", line);
        assert_eq!(is_end_marker(line), end.is_match(line), "{:?}", line);
    }
}

#[test]
fn markers_agree_with_indent_only_patterns_on_lines_that_end_in_no_whitespace() {
    let begin = Regex::new(r"^\s*-----BEGIN PGP MESSAGE-----$").unwrap();
    let end = Regex::new(r"^\s*-----END PGP MESSAGE-----$").unwrap();
    for line in LINES {
        if line.trim_end() == line {
            assert_eq!(is_begin_marker(line), begin.is_match(line), "{:?}", line);
            assert_eq!(is_end_marker(line), end.is_match(line), "{:?}", line);
        }
    }
}

#[test]
fn indent_agrees_with_the_captured_leading_whitespace() {
    let pattern = Regex::new(r"^(?P<indent>\s*)(?P<line>[^\s].*)$").unwrap();
    for line in LINES {
        if let Some(captures) = pattern.captures(line) {
            let indent = captures.name("indent").map_or("", |m| m.as_str());
            assert_eq!(leading_indent(line), indent, "{:?}", line);
        }
    }
}
