use std::borrow::Cow;

use litparse::{ByteStringLit, Error, ErrorKind, Literal, Span};

fn check_bytes(input: &str, value: &[u8], has_escapes: bool, num_hashes: Option<usize>) {
    let decoded = if has_escapes { Some(value) } else { None };

    let lit = ByteStringLit::parse(input).unwrap();
    assert_eq!(lit.raw_input(), input);
    assert_eq!(lit.decoded(), decoded);
    assert_eq!(lit.num_hashes(), num_hashes);
    assert_eq!(lit.is_raw_byte_string(), num_hashes.is_some());
    assert_eq!(lit.value(), value);
    assert_eq!(Literal::parse(input), Ok(Literal::ByteString(lit.clone())));

    let owned = lit.clone().into_owned();
    assert_eq!(owned.raw_input(), input);
    assert_eq!(owned.decoded(), decoded);
    assert_eq!(owned.num_hashes(), num_hashes);
    assert_eq!(owned.value(), value);
    assert_eq!(owned, ByteStringLit::parse(input.to_string()).unwrap());
    assert_eq!(&*owned.into_value(), value);

    assert_eq!(&*lit.into_value(), value);
}

fn byte_err(input: &str) -> (ErrorKind, Span) {
    let err: Error = match ByteStringLit::parse(input) {
        Err(e) => e,
        Ok(lit) => panic!("expected '{}' to be rejected, but it parsed: {:?}", input, lit),
    };
    assert_eq!(ByteStringLit::parse(input.to_string()), Err(err));
    (err.kind(), err.span())
}

#[test]
fn byte_string_without_escapes() {
    check_bytes(r#"b"""#, b"", false, None);
    check_bytes(r#"b"a""#, b"a", false, None);
    check_bytes(r#"b"peter""#, b"peter", false, None);
    check_bytes(r#"b"hello, world!""#, b"hello, world!", false, None);
    check_bytes("b\"foo\tbar\"", b"foo\tbar", false, None);
    check_bytes("b\"two\r\nlines\"", b"two\r\nlines", false, None);
    check_bytes(r#"b"it's""#, b"it's", false, None);
}

#[test]
fn byte_string_with_escapes() {
    check_bytes(r#"b"a\nb""#, b"a\nb", true, None);
    check_bytes(r#"b"\nb""#, b"\nb", true, None);
    check_bytes(r#"b"a\n""#, b"a\n", true, None);
    check_bytes(r#"b"\n""#, b"\n", true, None);
    check_bytes(r#"b"\t\r\0\\\'\"""#, b"\t\r\0\\\'\"", true, None);
    check_bytes(r#"b"\x00""#, b"\x00", true, None);
    check_bytes(r#"b" \x41 ""#, b" A ", true, None);
    check_bytes(r#"b"\x7f\x80\xC3\xff""#, &[0x7F, 0x80, 0xC3, 0xFF], true, None);
    check_bytes(r#"b"\\x41""#, b"\\x41", true, None);
    check_bytes(r#"b"ab\x63de\x66""#, b"abcdef", true, None);
}

#[test]
fn raw_byte_string() {
    check_bytes(r#"br"""#, b"", false, Some(0));
    check_bytes(r#"br"peter""#, b"peter", false, Some(0));
    check_bytes(r##"br#""#"##, b"", false, Some(1));
    check_bytes(r##"br#"foo " bar"#"##, b"foo \" bar", false, Some(1));
    check_bytes(r###"br##"foo "# bar"##"###, b"foo \"# bar", false, Some(2));
    check_bytes(r####"br###""##foo"##bar'"###"####, b"\"##foo\"##bar'", false, Some(3));
    check_bytes(r#"br"\n\t\x41\\""#, br"\n\t\x41\\", false, Some(0));
    check_bytes("br\"a\rb\"", b"a\rb", false, Some(0));
    check_bytes(r##"br"#""##, b"#", false, Some(0));
}

#[test]
fn byte_string_start_errors() {
    assert_eq!(byte_err(""), (ErrorKind::Empty, Span::Absent));
    assert_eq!(byte_err("b"), (ErrorKind::InvalidByteStringLiteralStart, Span::Absent));
    assert_eq!(byte_err("\"a\""), (ErrorKind::InvalidByteStringLiteralStart, Span::Absent));
    assert_eq!(byte_err("r\"a\""), (ErrorKind::InvalidByteStringLiteralStart, Span::Absent));
    assert_eq!(byte_err("b'a'"), (ErrorKind::InvalidByteStringLiteralStart, Span::Absent));
    assert_eq!(byte_err("bx\"a\""), (ErrorKind::InvalidByteStringLiteralStart, Span::Absent));
    assert_eq!(byte_err("true"), (ErrorKind::InvalidByteStringLiteralStart, Span::Absent));
}

#[test]
fn byte_string_errors() {
    assert_eq!(byte_err(r#"b""#), (ErrorKind::UnterminatedString, Span::Absent));
    assert_eq!(byte_err(r#"b"abc"#), (ErrorKind::UnterminatedString, Span::Absent));
    assert_eq!(byte_err(r#"b"\"#), (ErrorKind::UnterminatedString, Span::Absent));
    assert_eq!(byte_err(r#"b"a\""#), (ErrorKind::UnterminatedString, Span::Absent));

    assert_eq!(byte_err(r#"b"fox"peter"#), (ErrorKind::UnexpectedChar, Span::Range(6, 11)));
    assert_eq!(byte_err(r#"b"fox"peter""#), (ErrorKind::UnexpectedChar, Span::Range(6, 12)));

    assert_eq!(byte_err("b\"\r\""), (ErrorKind::IsolatedCr, Span::At(2)));
    assert_eq!(byte_err("b\"fo\rx\""), (ErrorKind::IsolatedCr, Span::At(4)));

    assert_eq!(byte_err("b\"ö\""), (ErrorKind::NonAsciiInByteLiteral, Span::At(2)));
    assert_eq!(byte_err("b\"ab🦊\""), (ErrorKind::NonAsciiInByteLiteral, Span::At(4)));
    assert_eq!(byte_err("b\"a\\nö\""), (ErrorKind::NonAsciiInByteLiteral, Span::At(5)));

    assert_eq!(byte_err(r#"b"\a""#), (ErrorKind::UnknownEscape, Span::Range(2, 4)));
    assert_eq!(byte_err(r#"b"\ ""#), (ErrorKind::UnknownEscape, Span::Range(2, 4)));
    assert_eq!(byte_err(r#"b"\x""#), (ErrorKind::UnterminatedEscape, Span::Range(2, 4)));
    assert_eq!(byte_err(r#"b"\x4""#), (ErrorKind::UnterminatedEscape, Span::Range(2, 5)));
    assert_eq!(byte_err(r#"b"\xg1""#), (ErrorKind::InvalidXEscape, Span::Range(2, 6)));
    assert_eq!(byte_err(r#"b"\x1g""#), (ErrorKind::InvalidXEscape, Span::Range(2, 6)));
    assert_eq!(
        byte_err(r#"b"\u{41}""#),
        (ErrorKind::UnicodeEscapeInByteLiteral, Span::Range(2, 4)),
    );
    assert_eq!(
        byte_err(r#"b"ab\u""#),
        (ErrorKind::UnicodeEscapeInByteLiteral, Span::Range(4, 6)),
    );
}

#[test]
fn raw_byte_string_errors() {
    assert_eq!(byte_err("br"), (ErrorKind::InvalidLiteral, Span::Absent));
    assert_eq!(byte_err("br#"), (ErrorKind::InvalidLiteral, Span::Absent));
    assert_eq!(byte_err("br##a\"x\"##"), (ErrorKind::InvalidLiteral, Span::Absent));
    assert_eq!(byte_err("brx"), (ErrorKind::InvalidLiteral, Span::Absent));

    assert_eq!(byte_err("br\""), (ErrorKind::UnterminatedRawString, Span::Absent));
    assert_eq!(byte_err("br\"abc"), (ErrorKind::UnterminatedRawString, Span::Absent));
    assert_eq!(byte_err("br##\"abc\"#"), (ErrorKind::UnterminatedRawString, Span::Absent));
    assert_eq!(byte_err("br#\"abc\""), (ErrorKind::UnterminatedRawString, Span::Absent));

    assert_eq!(byte_err("br\"abc\"def"), (ErrorKind::UnexpectedChar, Span::Range(7, 10)));
    assert_eq!(byte_err("br#\"abc\"##"), (ErrorKind::UnexpectedChar, Span::Range(9, 10)));
    assert_eq!(byte_err("br\"a\"b\""), (ErrorKind::UnexpectedChar, Span::Range(5, 7)));

    assert_eq!(byte_err("br\"ö\""), (ErrorKind::NonAsciiInByteLiteral, Span::At(3)));
    assert_eq!(byte_err("br#\"ab🦊\"#"), (ErrorKind::NonAsciiInByteLiteral, Span::At(6)));
    assert_eq!(byte_err("br\"ab🦊"), (ErrorKind::NonAsciiInByteLiteral, Span::At(5)));
}

#[test]
fn byte_value_is_borrowed_without_escapes() {
    let borrowed = ByteStringLit::parse(r#"b"plain""#).unwrap().into_value();
    assert!(matches!(borrowed, Cow::Borrowed(b"plain")));

    let raw = ByteStringLit::parse(r##"br#"pl"ain"#"##).unwrap().into_value();
    assert!(matches!(raw, Cow::Borrowed(b"pl\"ain")));

    let decoded = ByteStringLit::parse(r#"b"pl\x61in""#).unwrap().into_value();
    assert!(matches!(decoded, Cow::Owned(_)));
    assert_eq!(&*decoded, b"plain");
}

#[test]
fn byte_value_of_owned_text() {
    let plain = ByteStringLit::parse(String::from(r#"b"plain""#)).unwrap();
    assert_eq!(plain.value(), b"plain");
    let value: Cow<'static, [u8]> = plain.into_value();
    assert!(matches!(value, Cow::Owned(_)));
    assert_eq!(&*value, b"plain");

    let raw = ByteStringLit::parse(String::from(r###"br##"a"#b"##"###)).unwrap();
    assert_eq!(raw.num_hashes(), Some(2));
    assert_eq!(&*raw.into_value(), b"a\"#b");

    let escaped = ByteStringLit::parse(String::from(r#"b"\xff\n""#)).unwrap();
    assert_eq!(&*escaped.into_value(), &[0xFF, 0x0A]);
}

#[test]
fn into_owned_keeps_the_literal() {
    let text = String::from(r#"b"a\tb""#);
    let lit = ByteStringLit::parse(&*text).unwrap();
    let owned: ByteStringLit<String> = lit.clone().into_owned();
    drop(lit);
    drop(text);
    assert_eq!(owned.raw_input(), r#"b"a\tb""#);
    assert_eq!(owned.value(), b"a\tb");
    assert_eq!(owned.decoded(), Some(&b"a\tb"[..]));
    assert!(!owned.is_raw_byte_string());
}
