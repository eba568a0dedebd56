use litparse::boundary::slice_str;
use litparse::scalar::push_scalar;
use litparse::Buffer;

#[test]
fn scalars_are_encoded_as_std_does() {
    let scalars = [
        0x00, 0x41, 0x7F, 0x80, 0xE4, 0x7FF, 0x800, 0x20AC, 0xD7FF, 0xE000, 0xFFFD, 0xFFFF,
        0x10000, 0x1F602, 0x10FFFF,
    ];
    for scalar in scalars {
        let mut out = vec![0xAA];
        push_scalar(&mut out, scalar);
        let mut buf = [0; 4];
        let expected = char::from_u32(scalar).unwrap().encode_utf8(&mut buf);
        assert_eq!(&out[1..], expected.as_bytes(), "for {:#x}", scalar);
        assert_eq!(out[0], 0xAA);
    }
}

#[test]
fn every_scalar_is_encoded_as_std_does() {
    let mut out = Vec::new();
    let mut buf = [0; 4];
    for scalar in (0..=0x10FFFFu32).step_by(97).chain([0xD7FF, 0xE000, 0x10FFFF]) {
        if let Some(c) = char::from_u32(scalar) {
            out.clear();
            push_scalar(&mut out, scalar);
            assert_eq!(out, c.encode_utf8(&mut buf).as_bytes(), "for {:#x}", scalar);
        }
    }
}

#[test]
fn slicing_text_at_character_boundaries() {
    let text = "aä€🦊z";
    assert_eq!(slice_str(text, 0, text.len()), text);
    assert_eq!(slice_str(text, 0, 0), "");
    assert_eq!(slice_str(text, 1, 3), "ä");
    assert_eq!(slice_str(text, 3, 6), "€");
    assert_eq!(slice_str(text, 6, 10), "🦊");
    assert_eq!(slice_str(text, 1, 10), "ä€🦊");
    assert_eq!(slice_str(text, 11, 11), "");
}

#[test]
fn buffers_of_both_kinds() {
    let borrowed: &str = "aä€🦊z";
    assert_eq!(Buffer::as_str(&borrowed), "aä€🦊z");
    assert_eq!(borrowed.duplicate(), "aä€🦊z");
    assert_eq!(borrowed.cut(1, 10), "ä€🦊");
    assert_eq!(borrowed.into_cow(), "aä€🦊z");
    assert_eq!(&*borrowed.into_byte_cow(), "aä€🦊z".as_bytes());
    assert_eq!(<&str as Buffer>::cow_from_string(String::from("ö")), "ö");
    assert_eq!(&*<&str as Buffer>::byte_cow_from_vec(vec![1, 2, 3]), [1, 2, 3]);

    let owned = String::from("aä€🦊z");
    assert_eq!(Buffer::as_str(&owned), "aä€🦊z");
    assert_eq!(owned.duplicate(), "aä€🦊z");
    assert_eq!(owned.clone().cut(1, 10), "ä€🦊");
    assert_eq!(owned.clone().cut(0, 0), "");
    assert_eq!(owned.clone().into_cow(), "aä€🦊z");
    assert_eq!(&*owned.into_byte_cow(), "aä€🦊z".as_bytes());
    assert_eq!(<String as Buffer>::cow_from_string(String::from("ö")), "ö");
    assert_eq!(&*<String as Buffer>::byte_cow_from_vec(vec![1, 2, 3]), [1, 2, 3]);
}
