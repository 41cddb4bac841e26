use pgp_blocks::scanner::Scanner;

const BEGIN: &str = "-----BEGIN PGP MESSAGE-----";
const END: &str = "-----END PGP MESSAGE-----";

#[test]
fn new_scanner_is_idle_and_empty() {
    let scanner = Scanner::new();
    assert!(!scanner.is_collecting());
    assert_eq!(scanner.indent(), "");
    assert_eq!(scanner.line_count(), 0);
    assert_eq!(scanner.finish(), "");
}

#[test]
fn ordinary_lines_go_to_the_output_unchanged() {
    let mut scanner = Scanner::new();
    assert_eq!(scanner.feed_line("  key: value  "), None);
    assert_eq!(scanner.feed_line(""), None);
    assert_eq!(scanner.feed_line("\tlast"), None);
    assert!(!scanner.is_collecting());
    assert_eq!(scanner.line_count(), 3);
    assert_eq!(scanner.finish(), "  key: value  \n\n\tlast");
}

#[test]
fn begin_marker_opens_a_message_and_gives_its_indent() {
    let mut scanner = Scanner::new();
    assert_eq!(scanner.feed_line("    -----BEGIN PGP MESSAGE-----  "), None);
    assert!(scanner.is_collecting());
    assert_eq!(scanner.indent(), "    ");
    assert_eq!(scanner.line_count(), 0);
}

#[test]
fn end_marker_completes_the_message_with_trimmed_lines() {
    let mut scanner = Scanner::new();
    assert_eq!(scanner.feed_line("  -----BEGIN PGP MESSAGE-----"), None);
    assert_eq!(scanner.feed_line("  Version: 1  "), None);
    assert_eq!(scanner.feed_line(""), None);
    assert_eq!(scanner.feed_line("\t hQEMA0d7 \t"), None);
    let block = scanner.feed_line("  -----END PGP MESSAGE----- ");
    assert_eq!(
        block,
        Some(format!("{}\nVersion: 1\n\nhQEMA0d7\n{}", BEGIN, END))
    );
    assert!(!scanner.is_collecting());
    assert_eq!(scanner.indent(), "  ");
    assert_eq!(scanner.line_count(), 0);
}

#[test]
fn substitute_puts_the_indent_before_each_line_and_forgets_it() {
    let mut scanner = Scanner::new();
    scanner.feed_line("    -----BEGIN PGP MESSAGE-----");
    scanner.feed_line("abc");
    scanner.feed_line("    -----END PGP MESSAGE-----");
    scanner.substitute("first\n  second\nthird\n");
    assert_eq!(scanner.indent(), "");
    assert_eq!(scanner.line_count(), 3);
    assert_eq!(scanner.finish(), "    first\n      second\n    third");
}

#[test]
fn substitute_trims_the_whole_plaintext_first() {
    let mut scanner = Scanner::new();
    scanner.feed_line("\t-----BEGIN PGP MESSAGE-----");
    scanner.feed_line("\t-----END PGP MESSAGE-----");
    scanner.substitute("\n\n  secret: value  \n\n");
    assert_eq!(scanner.finish(), "\tsecret: value");
}

#[test]
fn substitute_of_a_blank_plaintext_adds_no_line() {
    let mut scanner = Scanner::new();
    scanner.feed_line("before");
    scanner.feed_line("  -----BEGIN PGP MESSAGE-----");
    scanner.feed_line("  -----END PGP MESSAGE-----");
    scanner.substitute(" \n \n");
    scanner.feed_line("after");
    assert_eq!(scanner.line_count(), 2);
    assert_eq!(scanner.finish(), "before\nafter");
}

#[test]
fn substitute_keeps_carriage_return_line_endings_out() {
    let mut scanner = Scanner::new();
    scanner.feed_line("  -----BEGIN PGP MESSAGE-----");
    scanner.feed_line("  -----END PGP MESSAGE-----");
    scanner.substitute("a: 1\r\nb: 2\r\n");
    assert_eq!(scanner.finish(), "  a: 1\n  b: 2");
}

#[test]
fn orphan_end_marker_is_an_ordinary_line() {
    let mut scanner = Scanner::new();
    assert_eq!(scanner.feed_line("first"), None);
    assert_eq!(scanner.feed_line("  -----END PGP MESSAGE-----  "), None);
    assert!(!scanner.is_collecting());
    assert_eq!(scanner.finish(), "first\n  -----END PGP MESSAGE-----  ");
}

#[test]
fn nested_begin_marker_is_a_line_of_the_message() {
    let mut scanner = Scanner::new();
    scanner.feed_line("  -----BEGIN PGP MESSAGE-----");
    scanner.feed_line("abc");
    assert_eq!(scanner.feed_line("      -----BEGIN PGP MESSAGE-----"), None);
    assert!(scanner.is_collecting());
    assert_eq!(scanner.indent(), "  ");
    scanner.feed_line("def");
    let block = scanner.feed_line("-----END PGP MESSAGE-----");
    assert_eq!(block, Some(format!("{}\nabc\n{}\ndef\n{}", BEGIN, BEGIN, END)));
}

#[test]
fn open_message_is_left_out_at_the_end() {
    let mut scanner = Scanner::new();
    scanner.feed_line("kept");
    scanner.feed_line("-----BEGIN PGP MESSAGE-----");
    scanner.feed_line("lost");
    scanner.feed_line("also lost");
    assert!(scanner.is_collecting());
    assert_eq!(scanner.line_count(), 1);
    assert_eq!(scanner.finish(), "kept");
}

#[test]
fn second_message_takes_its_own_indent() {
    let mut scanner = Scanner::new();
    scanner.feed_line("  -----BEGIN PGP MESSAGE-----");
    scanner.feed_line("  -----END PGP MESSAGE-----");
    scanner.substitute("one");
    scanner.feed_line("      -----BEGIN PGP MESSAGE-----");
    assert_eq!(scanner.indent(), "      ");
    scanner.feed_line("      -----END PGP MESSAGE-----");
    scanner.substitute("two");
    assert_eq!(scanner.finish(), "  one\n      two");
}

#[test]
fn marker_with_other_text_on_its_line_is_no_marker() {
    let mut scanner = Scanner::new();
    assert_eq!(scanner.feed_line("data: -----BEGIN PGP MESSAGE-----"), None);
    assert!(!scanner.is_collecting());
    assert_eq!(scanner.finish(), "data: -----BEGIN PGP MESSAGE-----");
}
