use litparse::{BoolLit, ByteStringLit, ErrorKind, Literal, Span, StringLit};

#[test]
fn literal_kinds() {
    assert_eq!(Literal::parse("true"), Ok(Literal::Bool(BoolLit::True)));
    assert_eq!(Literal::parse("false"), Ok(Literal::Bool(BoolLit::False)));
    assert_eq!(
        Literal::parse(r#""true""#),
        Ok(Literal::String(StringLit::parse(r#""true""#).unwrap())),
    );
    assert_eq!(
        Literal::parse(r##"r#"a"#"##),
        Ok(Literal::String(StringLit::parse(r##"r#"a"#"##).unwrap())),
    );
    assert_eq!(
        Literal::parse(r#"b"a\n""#),
        Ok(Literal::ByteString(ByteStringLit::parse(r#"b"a\n""#).unwrap())),
    );
    assert_eq!(
        Literal::parse(r##"br#"a"#"##),
        Ok(Literal::ByteString(ByteStringLit::parse(r##"br#"a"#"##).unwrap())),
    );
    assert_eq!(
        Literal::parse(String::from(r#""a""#)),
        Ok(Literal::String(StringLit::parse(String::from(r#""a""#)).unwrap())),
    );
}

#[test]
fn literal_errors() {
    let err = Literal::parse("").unwrap_err();
    assert_eq!((err.kind(), err.span()), (ErrorKind::Empty, Span::Absent));

    for input in ["x", "123", "'a'", "b", "b'a'", "bx", "tru", "falsey", " \"a\"", "#", "ö"] {
        let err = Literal::parse(input).unwrap_err();
        assert_eq!((err.kind(), err.span()), (ErrorKind::InvalidLiteral, Span::Absent));
    }

    let err = Literal::parse("r").unwrap_err();
    assert_eq!((err.kind(), err.span()), (ErrorKind::InvalidLiteral, Span::Absent));
    let err = Literal::parse("rtrue").unwrap_err();
    assert_eq!((err.kind(), err.span()), (ErrorKind::InvalidLiteral, Span::Absent));
    let err = Literal::parse("br##").unwrap_err();
    assert_eq!((err.kind(), err.span()), (ErrorKind::InvalidLiteral, Span::Absent));

    let err = Literal::parse("r#\"a").unwrap_err();
    assert_eq!((err.kind(), err.span()), (ErrorKind::UnterminatedRawString, Span::Absent));
    let err = Literal::parse("b\"\\u{41}\"").unwrap_err();
    assert_eq!(
        (err.kind(), err.span()),
        (ErrorKind::UnicodeEscapeInByteLiteral, Span::Range(2, 4)),
    );
}

#[test]
fn string_start_errors() {
    let err = StringLit::parse("").unwrap_err();
    assert_eq!((err.kind(), err.span()), (ErrorKind::Empty, Span::Absent));
    for input in ["a", "b\"a\"", "br\"a\"", "'a'", "true", " \"a\"", "#\"a\"#", "ö"] {
        let err = StringLit::parse(input).unwrap_err();
        assert_eq!(
            (err.kind(), err.span()),
            (ErrorKind::InvalidStringLiteralStart, Span::Absent),
            "for {}",
            input,
        );
    }
}

#[test]
fn raw_string_errors() {
    let cases = [
        ("r", ErrorKind::InvalidLiteral, Span::Absent),
        ("r#", ErrorKind::InvalidLiteral, Span::Absent),
        ("r##a\"x\"##", ErrorKind::InvalidLiteral, Span::Absent),
        ("rx", ErrorKind::InvalidLiteral, Span::Absent),
        ("r\"", ErrorKind::UnterminatedRawString, Span::Absent),
        ("r\"abc", ErrorKind::UnterminatedRawString, Span::Absent),
        ("r##\"abc\"#", ErrorKind::UnterminatedRawString, Span::Absent),
        ("r#\"abc\"", ErrorKind::UnterminatedRawString, Span::Absent),
        ("r\"abc\"def", ErrorKind::UnexpectedChar, Span::Range(6, 9)),
        ("r#\"abc\"##", ErrorKind::UnexpectedChar, Span::Range(8, 9)),
        ("r\"a\"🦊", ErrorKind::UnexpectedChar, Span::Range(4, 8)),
        ("r\"abc\r", ErrorKind::IsolatedCr, Span::At(5)),
        ("r#\"a\rb\"#", ErrorKind::IsolatedCr, Span::At(4)),
    ];
    for (input, kind, span) in cases {
        let err = StringLit::parse(input).unwrap_err();
        assert_eq!((err.kind(), err.span()), (kind, span), "for {:?}", input);
    }
}

#[test]
fn errors_lie_within_the_input() {
    let inputs = [
        "\"fox\"peter",
        "\"\\x80\"",
        "\"\\u{110000}\"",
        "\"ab\\u{12",
        "\"\\q\"",
        "\"a\rb\"",
        "r#\"abc\"#def",
        "r\"\r",
        "b\"ö\"",
        "br\"a\"b",
        "\"abc def \\u{110000}\"",
    ];
    for input in inputs {
        let err = StringLit::parse(input)
            .map(|_| ())
            .or_else(|e| {
                if e.kind() == ErrorKind::InvalidStringLiteralStart {
                    ByteStringLit::parse(input).map(|_| ())
                } else {
                    Err(e)
                }
            })
            .unwrap_err();
        match err.span() {
            Span::Absent => panic!("{:?} has an error without a position", input),
            Span::At(at) => assert!(at < input.len(), "for {:?}", input),
            Span::Range(start, end) => {
                assert!(start <= end && end <= input.len(), "for {:?}", input)
            }
        }
    }
}
