use std::borrow::Cow;

use litparse::{ByteStringLit, StringLit};

fn wrap(marker: &str, num_hashes: usize, content: &str) -> String {
    let fence = "#".repeat(num_hashes);
    format!("{}{}\"{}\"{}", marker, fence, content, fence)
}

#[test]
fn raw_string_round_trips() {
    let lit = StringLit::parse(r###"r##"foo"bar"##"###).unwrap();
    assert_eq!(lit.num_hashes(), Some(2));
    assert_eq!(lit.decoded(), None);
    assert_eq!(lit.value(), "foo\"bar");
    assert_eq!(wrap("r", 2, lit.value()), r###"r##"foo"bar"##"###);
}

#[test]
fn wrapping_the_value_of_a_raw_literal_gives_it_back() {
    let inputs = [
        r#"r"""#,
        r#"r"a""#,
        r##"r#""#"##,
        r##"r#"""#"##,
        r###"r##"a"#b"##"###,
        r####"r###""##"##"###"####,
        r##"r#"\n\u{41}\"#"##,
        r#########"r########"lit 👌 😂 af"########"#########,
    ];
    for input in inputs {
        let lit = StringLit::parse(input).unwrap();
        let n = lit.num_hashes().unwrap();
        assert_eq!(input[1..].bytes().take_while(|b| *b == b'#').count(), n, "for {}", input);
        assert_eq!(lit.decoded(), None);
        assert_eq!(wrap("r", n, lit.value()), input);

        let as_bytes = format!("b{}", input);
        if input.is_ascii() {
            let lit = ByteStringLit::parse(&*as_bytes).unwrap();
            assert_eq!(lit.num_hashes(), Some(n));
            assert_eq!(lit.decoded(), None);
            let value = String::from_utf8(lit.value().to_vec()).unwrap();
            assert_eq!(wrap("br", n, &value), as_bytes);
        }
    }
}

#[test]
fn without_escapes_the_value_is_the_content() {
    let inputs = [
        r#""""#,
        r#""a""#,
        r#""foo bar""#,
        "\"two\r\nlines\"",
        r#""Sei gegrüßt, Bärthelt!""#,
        r#""lit 👌 😂 af""#,
        r#""it's # not raw""#,
    ];
    for input in inputs {
        let content = &input[1..input.len() - 1];
        let lit = StringLit::parse(input).unwrap();
        assert_eq!(lit.decoded(), None, "for {}", input);
        assert_eq!(lit.num_hashes(), None);
        assert_eq!(lit.value(), content);
        assert!(matches!(lit.into_value(), Cow::Borrowed(value) if value == content));

        if input.is_ascii() {
            let as_bytes = format!("b{}", input);
            let lit = ByteStringLit::parse(&*as_bytes).unwrap();
            assert_eq!(lit.decoded(), None, "for {}", as_bytes);
            assert_eq!(lit.value(), content.as_bytes());
        }
    }
}

#[test]
fn with_an_escape_the_value_is_decoded() {
    let lit = StringLit::parse(r#""a\\b""#).unwrap();
    assert_eq!(lit.decoded(), Some("a\\b"));
    assert_eq!(lit.value(), "a\\b");
    assert!(matches!(lit.into_value(), Cow::Owned(_)));

    let lit = StringLit::parse(r#""\x61""#).unwrap();
    assert_eq!(lit.decoded(), Some("a"));
    assert_eq!(lit.value(), "a");
}

#[test]
fn value_of_owned_text() {
    let plain = StringLit::parse(String::from(r#""grüße""#)).unwrap();
    assert_eq!(plain.value(), "grüße");
    let value: Cow<'static, str> = plain.into_value();
    assert!(matches!(value, Cow::Owned(_)));
    assert_eq!(value, "grüße");

    let raw = StringLit::parse(String::from(r###"r##"a"#🦊"##"###)).unwrap();
    assert_eq!(raw.num_hashes(), Some(2));
    assert_eq!(raw.value(), "a\"#🦊");
    assert_eq!(raw.into_value(), "a\"#🦊");

    let escaped = StringLit::parse(String::from(r#""a\u{1F602}b""#)).unwrap();
    assert_eq!(escaped.into_value(), "a😂b");
}

#[test]
fn string_into_owned_keeps_the_literal() {
    let text = String::from(r#""ä\tb""#);
    let lit = StringLit::parse(&*text).unwrap();
    let owned: StringLit<String> = lit.clone().into_owned();
    assert_eq!(owned, StringLit::parse(text.clone()).unwrap());
    drop(lit);
    drop(text);
    assert_eq!(owned.raw_input(), r#""ä\tb""#);
    assert_eq!(owned.value(), "ä\tb");
    assert_eq!(owned.decoded(), Some("ä\tb"));
    assert!(!owned.is_raw_string());
}
