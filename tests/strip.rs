use std::borrow::Cow;

use vt_push_parser::strip::{StreamingStripper, strip_ansi_bytes, strip_ansi_bytes_callback, strip_ansi_string};

#[test]
fn test_strip_ansi_string() {
    let input = "Hello, world!\x1b[31mHello, world!\x1b[0m";
    let output = strip_ansi_string(input);
    assert_eq!(output, "Hello, world!Hello, world!");
}

#[test]
fn test_strip_ansi_as_is() {
    let input = b"Hello, world!";
    let output = strip_ansi_bytes(input);
    assert_eq!(output, b"Hello, world!".as_slice());
    assert!(matches!(output, Cow::Borrowed(_)));
}

#[test]
fn strip_bytes_drops_sequences_and_controls() {
    let output = strip_ansi_bytes(b"a\x1b]0;t\x07b\x07c\x1bPqzz\x1b\\d");
    assert_eq!(output, b"abcd".as_slice());
    assert!(matches!(output, Cow::Owned(_)));
    assert!(matches!(strip_ansi_bytes(b""), Cow::Borrowed(_)));
}

#[test]
fn strip_string_replaces_broken_utf8() {
    // ESC takes the lead byte of 'é' as a (bad) final; the rest is invalid.
    let output = strip_ansi_string("x\x1bé");
    assert_eq!(output, "x\u{FFFD}");
}

#[test]
fn strip_callback_and_stream() {
    let mut runs: Vec<Vec<u8>> = Vec::new();
    strip_ansi_bytes_callback(b"ab\x1b[1mcd", &mut |t: &[u8]| runs.push(t.to_vec()));
    assert_eq!(runs, vec![b"ab".to_vec(), b"cd".to_vec()]);

    let mut out = Vec::new();
    let mut s = StreamingStripper::new();
    s.feed(b"Hello\x1b[3", &mut |t: &[u8]| out.extend_from_slice(t));
    s.feed(b"1mWorld", &mut |t: &[u8]| out.extend_from_slice(t));
    assert_eq!(out, b"HelloWorld");
}
