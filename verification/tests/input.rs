use o3json5::error::JsonError;
use o3json5::input::{normalize, text_from_utf8, Input};

fn invalid_utf8() -> JsonError {
    JsonError::TypeError {
        expected: "valid UTF-8 bytes".to_string(),
        got: "invalid UTF-8 bytes".to_string(),
    }
}

#[test]
fn text_is_taken_as_it_is() {
    let text = "{\"x\": 1}";
    let out = normalize(&Input::Text(text)).unwrap();
    assert_eq!(out, text);
    assert_eq!(out.as_ptr(), text.as_ptr());
}

#[test]
fn bytes_are_read_as_utf8_without_copying() {
    let bytes = "[1, 2, \"né\"]".as_bytes();
    let out = normalize(&Input::Bytes(bytes)).unwrap();
    assert_eq!(out, "[1, 2, \"né\"]");
    assert_eq!(out.as_ptr(), bytes.as_ptr());
    let out = normalize(&Input::ByteArray(bytes)).unwrap();
    assert_eq!(out, "[1, 2, \"né\"]");
    assert_eq!(out.as_ptr(), bytes.as_ptr());
}

#[test]
fn bytes_and_text_of_the_same_characters_give_the_same_text() {
    for text in ["", "{\"x\":1}", "'\u{10FFFF}\u{7FF}\u{800}\u{FFFF}\u{0}'", "// héllo\n[]"] {
        assert_eq!(normalize(&Input::Bytes(text.as_bytes())), normalize(&Input::Text(text)));
        assert_eq!(normalize(&Input::ByteArray(text.as_bytes())), normalize(&Input::Text(text)));
    }
}

#[test]
fn bytes_that_are_not_utf8_are_a_type_error() {
    let cases: [&[u8]; 7] = [
        &[0xff],
        &[0x80],
        &[b'{', 0xc3],
        &[0xc0, 0x80],
        &[0xed, 0xa0, 0x80],
        &[0xf4, 0x90, 0x80, 0x80],
        &[b'[', b'1', b']', 0xfe, 0xff],
    ];
    for bytes in cases {
        assert_eq!(normalize(&Input::Bytes(bytes)), Err(invalid_utf8()));
        assert_eq!(normalize(&Input::ByteArray(bytes)), Err(invalid_utf8()));
        assert_eq!(text_from_utf8(bytes), Err(invalid_utf8()));
    }
}

#[test]
fn empty_bytes_are_the_empty_text() {
    assert_eq!(text_from_utf8(&[]), Ok(""));
}

#[test]
fn another_object_is_read_through_its_text() {
    let input = Input::Other { text: Some("[true]"), type_label: Some("UserString") };
    assert_eq!(normalize(&input), Ok("[true]"));
    let input = Input::Other { text: Some("null"), type_label: None };
    assert_eq!(normalize(&input), Ok("null"));
}

#[test]
fn an_unsupported_object_is_a_type_error_that_names_its_type() {
    let input = Input::Other { text: None, type_label: Some("int") };
    assert_eq!(
        normalize(&input),
        Err(JsonError::TypeError {
            expected: "string or bytes-like object".to_string(),
            got: "int".to_string(),
        })
    );
}

#[test]
fn an_unsupported_object_of_unknown_type() {
    let input = Input::Other { text: None, type_label: None };
    assert_eq!(
        normalize(&input),
        Err(JsonError::TypeError {
            expected: "string or bytes-like object".to_string(),
            got: "unknown".to_string(),
        })
    );
}
