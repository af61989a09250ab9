use tsc_core::code_buffer::CodeBuffer;

#[test]
fn string_isomorphism() {
    let s = "Hello, world!";
    let mut code = CodeBuffer::with_capacity(s.len());
    code.print_str(s);
    assert_eq!(code.len(), s.len());
    assert_eq!(code.into_string(), s.to_string());
}

#[test]
fn empty() {
    let code = CodeBuffer::default();
    assert!(code.is_empty());
    assert_eq!(code.len(), 0);
    assert_eq!(code.into_string(), "");
}

#[test]
fn byte_level_views() {
    let mut code = CodeBuffer::new();
    code.print_ascii_byte(b'a');
    code.print_byte_unchecked(b'b');
    code.print_ascii_bytes(b"cd");
    code.print_bytes_unchecked(b"ef");
    code.print_bytes_iter_unchecked(vec![b'g', b'h']);
    assert_eq!(code.as_bytes(), b"abcdefgh");
    assert_eq!(code.last_byte(), Some(b'h'));
    assert_eq!(code.peek_nth_byte_back(0), Some(b'h'));
    assert_eq!(code.peek_nth_byte_back(7), Some(b'a'));
    assert_eq!(code.peek_nth_byte_back(8), None);
    assert!(!code.is_empty());
}

#[test]
fn character_decoding_from_the_back() {
    let mut code = CodeBuffer::new();
    code.print_str("a\u{00e9}\u{4e16}\u{1f600}");
    assert_eq!(code.last_char(), Some('\u{1f600}'));
    assert_eq!(code.peek_nth_char_back(1), Some('\u{4e16}'));
    assert_eq!(code.peek_nth_char_back(2), Some('\u{00e9}'));
    assert_eq!(code.peek_nth_char_back(3), Some('a'));
    assert_eq!(code.peek_nth_char_back(4), None);
    assert_eq!(code.into_string(), "a\u{00e9}\u{4e16}\u{1f600}");
}

#[test]
fn print_char_encodes_utf8() {
    let mut code = CodeBuffer::new();
    code.print_char('a');
    code.print_char('\u{00e9}');
    code.print_char('\u{4e16}');
    code.print_char('\u{1f600}');
    assert_eq!(code.into_string(), "a\u{00e9}\u{4e16}\u{1f600}");
}

#[test]
fn indentation_is_tabs() {
    let mut code = CodeBuffer::new();
    code.print_indent(3);
    code.print_str("x");
    assert_eq!(code.into_string(), "\t\t\tx");
}

#[test]
fn capacity_and_reserve() {
    let mut code = CodeBuffer::with_capacity(16);
    assert!(code.capacity() >= 0usize.max(0));
    code.print_str("abc");
    code.reserve(100);
    assert!(code.capacity() >= code.len());
    assert_eq!(code.as_bytes(), b"abc");
}
