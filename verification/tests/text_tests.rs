use lib::text::{is_rfc3986_uri_char, normalizeLines, normalizePublicId, unsignedCharToPrintable};

fn lines(s: &[u8]) -> Vec<u8> {
    let mut v = s.to_vec();
    normalizeLines(&mut v);
    v
}

fn pubid(s: &[u8]) -> Vec<u8> {
    let mut v = s.to_vec();
    normalizePublicId(&mut v);
    v
}

#[test]
fn test_normalize_lines() {
    assert_eq!(lines(b"a\r\nb\rc\nd"), b"a\nb\nc\nd".to_vec());
    assert_eq!(lines(b"\r\r\n\r"), b"\n\n\n".to_vec());
    assert_eq!(lines(b""), b"".to_vec());
    assert_eq!(lines(b"no line ends"), b"no line ends".to_vec());
}

#[test]
fn test_normalize_lines_twice_changes_nothing() {
    let once = lines(b"x\r\ny\r\r\nz\r");
    assert_eq!(lines(&once), once);
    assert!(!once.contains(&b'\r'));
}

#[test]
fn test_normalize_public_id() {
    assert_eq!(pubid(b"  -//W3C//DTD  XHTML 1.0\r\n Strict//EN  "), b"-//W3C//DTD XHTML 1.0 Strict//EN".to_vec());
    assert_eq!(pubid(b"   "), b"".to_vec());
    assert_eq!(pubid(b"a\tb"), b"a\tb".to_vec());
    assert_eq!(pubid(b"a\n\r b"), b"a b".to_vec());
    assert_eq!(pubid(b"plain"), b"plain".to_vec());
}

#[test]
fn test_rfc3986_uri_chars() {
    for c in b"azAZ09-._~:/?#[]@!$&'()*+,;=%".iter() {
        assert!(is_rfc3986_uri_char(*c), "{}", *c as char);
    }
    for c in b" \"<>\\^`{|}".iter() {
        assert!(!is_rfc3986_uri_char(*c), "{}", *c as char);
    }
    assert!(!is_rfc3986_uri_char(0));
    assert!(!is_rfc3986_uri_char(0x80));
}

#[test]
fn test_unsigned_char_to_printable() {
    assert_eq!(unsignedCharToPrintable(0), b"\\0".to_vec());
    assert_eq!(unsignedCharToPrintable(5), b"\\x5".to_vec());
    assert_eq!(unsignedCharToPrintable(9), b"\\t".to_vec());
    assert_eq!(unsignedCharToPrintable(10), b"\\n".to_vec());
    assert_eq!(unsignedCharToPrintable(11), b"\\xB".to_vec());
    assert_eq!(unsignedCharToPrintable(13), b"\\r".to_vec());
    assert_eq!(unsignedCharToPrintable(16), b"\\x10".to_vec());
    assert_eq!(unsignedCharToPrintable(32), b" ".to_vec());
    assert_eq!(unsignedCharToPrintable(34), b"\\\"".to_vec());
    assert_eq!(unsignedCharToPrintable(39), b"'".to_vec());
    assert_eq!(unsignedCharToPrintable(65), b"A".to_vec());
    assert_eq!(unsignedCharToPrintable(92), b"\\\\".to_vec());
    assert_eq!(unsignedCharToPrintable(126), b"~".to_vec());
    assert_eq!(unsignedCharToPrintable(127), b"\\x7F".to_vec());
    assert_eq!(unsignedCharToPrintable(171), b"\\xAB".to_vec());
    assert_eq!(unsignedCharToPrintable(255), b"\\xFF".to_vec());
}
