use imap_codec::base64::base64;
use imap_codec::literal::literal;
use imap_codec::parsed::Parsed;

#[test]
fn test_base64_structural_acceptance() {
    // Any run of base64 characters is accepted, aligned to four or not.
    let input: &[u8] = b"QUJD ";
    assert_eq!(base64(input), Parsed::Matched { used: 4, val: b"QUJD".to_vec() });
    assert_eq!(&input[4..], b" ");
    assert_eq!(base64(b"Q "), Parsed::Matched { used: 1, val: b"Q".to_vec() });
    assert_eq!(base64(b"QQQQQ "), Parsed::Matched { used: 5, val: b"QQQQQ".to_vec() });
    // The empty run is a match too.
    assert_eq!(base64(b" "), Parsed::Matched { used: 0, val: vec![] });
}

#[test]
fn test_base64_terminator() {
    assert_eq!(base64(b"QQ== "), Parsed::Matched { used: 4, val: b"QQ==".to_vec() });
    assert_eq!(base64(b"QQQ= "), Parsed::Matched { used: 4, val: b"QQQ=".to_vec() });
    // A single `=` before a non-`=` byte ends the run after the `=`.
    let input: &[u8] = b"QQ=x";
    assert_eq!(base64(input), Parsed::Matched { used: 3, val: b"QQ=".to_vec() });
    assert_eq!(&input[3..], b"x");
    // Padding in unaligned positions is still structurally fine.
    assert_eq!(base64(b"QQQQQ== "), Parsed::Matched { used: 7, val: b"QQQQQ==".to_vec() });
}

#[test]
fn test_base64_incomplete() {
    // A run or a lone `=` at the end of input could still grow.
    assert_eq!(base64(b""), Parsed::Incomplete { needed: 1 });
    assert_eq!(base64(b"QQ"), Parsed::Incomplete { needed: 1 });
    assert_eq!(base64(b"QQ="), Parsed::Incomplete { needed: 1 });
}

#[test]
fn test_literal_exactness() {
    // Exactly `n` payload bytes are consumed; the rest is untouched.
    let input: &[u8] = b"{3}\r\nabcXYZ";
    assert_eq!(literal(input), Parsed::Matched { used: 8, val: b"abc".to_vec() });
    assert_eq!(&input[8..], b"XYZ");
    // With `n - 1` bytes buffered, exactly one more is requested.
    assert_eq!(literal(b"{3}\r\nab"), Parsed::Incomplete { needed: 1 });
    assert_eq!(literal(b"{3}\r\na"), Parsed::Incomplete { needed: 2 });
    assert_eq!(literal(b"{3}\r\n"), Parsed::Incomplete { needed: 3 });
    // With exactly `n` bytes the match ends at the payload's last byte.
    assert_eq!(literal(b"{3}\r\nabc"), Parsed::Matched { used: 8, val: b"abc".to_vec() });
}

#[test]
fn test_literal_header() {
    assert_eq!(literal(b"{0}\r\nrest"), Parsed::Matched { used: 5, val: vec![] });
    // Arbitrary payload bytes are allowed, binary included.
    let input: &[u8] = b"{4}\r\na\x00\xffb!";
    assert_eq!(literal(input), Parsed::Matched { used: 9, val: b"a\x00\xffb".to_vec() });
    assert_eq!(literal(b"x"), Parsed::Failed);
    assert_eq!(literal(b"{x}"), Parsed::Failed);
    assert_eq!(literal(b"{3}x"), Parsed::Failed);
    assert_eq!(literal(b"{3}\rx"), Parsed::Failed);
    assert_eq!(literal(b"{"), Parsed::Incomplete { needed: 1 });
    assert_eq!(literal(b"{12"), Parsed::Incomplete { needed: 1 });
    assert_eq!(literal(b"{3}"), Parsed::Incomplete { needed: 1 });
    assert_eq!(literal(b"{3}\r"), Parsed::Incomplete { needed: 1 });
    // Leading zeros are digits like any other.
    assert_eq!(literal(b"{003}\r\nabcd"), Parsed::Matched { used: 10, val: b"abc".to_vec() });
    // A count beyond 32 bits is malformed, not incomplete.
    assert_eq!(literal(b"{4294967296}\r\n"), Parsed::Failed);
    assert_eq!(literal(b"{99999999999999999999}\r\n"), Parsed::Failed);
}
