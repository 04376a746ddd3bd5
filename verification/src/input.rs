//! What a caller may hand in, and the one text that is parsed for it.

use crate::error::{JsonError, JsonErrorView};
use vstd::prelude::*;
use vstd::string::*;
use vstd::utf8::*;

verus! {

/// `core::str::Utf8Error`, which `core::str::from_utf8` returns for bytes
/// that are not UTF-8. The library reads nothing from it.
#[verifier::external_type_specification]
#[verifier::external_body]
pub struct ExUtf8Error(core::str::Utf8Error);

/// `core::str::from_utf8` returns `Ok` exactly when the bytes are well-formed
/// UTF-8, and the string slice it then returns is made of those same bytes.
pub assume_specification[ core::str::from_utf8 ](v: &[u8]) -> (r: Result<
    &str,
    core::str::Utf8Error,
>)
    ensures
        r is Ok <==> valid_utf8(v@),
        r matches Ok(s) ==> s.spec_bytes() == v@,
;

/// An input object, by the shape that the host found it to have.
///
/// The shapes are tried in the order of the variants and the first that fits
/// is taken: a text object; an immutable byte buffer; a mutable byte buffer,
/// of which the bytes of the moment are seen; any other object, with the text
/// that the host could coerce it to, if it could, and the name of its type,
/// if the host knows one.
#[derive(Debug, PartialEq)]
pub enum Input<'a> {
    Text(&'a str),
    Bytes(&'a [u8]),
    ByteArray(&'a [u8]),
    Other { text: Option<&'a str>, type_label: Option<&'a str> },
}

/// The failure for bytes that are not UTF-8.
pub open spec fn invalid_utf8() -> JsonErrorView {
    JsonErrorView::TypeError { expected: "valid UTF-8 bytes"@, got: "invalid UTF-8 bytes"@ }
}

/// The failure for an object that is neither text nor bytes; it names the
/// type of the object, or `unknown`.
pub open spec fn unsupported(type_label: Option<&str>) -> JsonErrorView {
    JsonErrorView::TypeError {
        expected: "string or bytes-like object"@,
        got: match type_label {
            Some(name) => name@,
            None => "unknown"@,
        },
    }
}

/// The text of a byte buffer: its UTF-8 decoding, or a type error.
pub open spec fn text_of_bytes(bytes: Seq<u8>) -> Result<Seq<char>, JsonErrorView> {
    if valid_utf8(bytes) {
        Ok(decode_utf8(bytes))
    } else {
        Err(invalid_utf8())
    }
}

/// The characters that are parsed for an input, or the type error that the
/// input is answered with.
pub open spec fn normalized(input: Input) -> Result<Seq<char>, JsonErrorView> {
    match input {
        Input::Text(text) => Ok(text@),
        Input::Bytes(bytes) => text_of_bytes(bytes@),
        Input::ByteArray(bytes) => text_of_bytes(bytes@),
        Input::Other { text, type_label } => match text {
            Some(text) => Ok(text@),
            None => Err(unsupported(type_label)),
        },
    }
}

/// `out` is the text slice or the error that `expected` describes.
pub open spec fn is_text_result(
    out: Result<&str, JsonError>,
    expected: Result<Seq<char>, JsonErrorView>,
) -> bool {
    match expected {
        Ok(chars) => out matches Ok(text) && text@ == chars,
        Err(e) => out matches Err(x) && x@ == e,
    }
}

/// Reads a byte buffer as text, without copying it: the text is made of the
/// bytes of the buffer.
pub fn text_from_utf8<'a>(bytes: &'a [u8]) -> (out: Result<&'a str, JsonError>)
    ensures
        is_text_result(out, text_of_bytes(bytes@)),
        out matches Ok(text) ==> text.spec_bytes() == bytes@,
{
    match core::str::from_utf8(bytes) {
        Ok(text) => {
            proof {
                encode_utf8_decode_utf8(text@);
            }
            Ok(text)
        },
        Err(_) => Err(
            JsonError::TypeError {
                expected: String::from_str("valid UTF-8 bytes"),
                got: String::from_str("invalid UTF-8 bytes"),
            },
        ),
    }
}

/// Yields the one text slice that is parsed for an input, borrowed from the
/// input, or the type error for an input that holds no text. A text is
/// yielded as it is, and the text of a byte buffer is made of its bytes.
pub fn normalize<'a>(input: &Input<'a>) -> (out: Result<&'a str, JsonError>)
    ensures
        is_text_result(out, normalized(*input)),
        match *input {
            Input::Text(text) => out matches Ok(t) && t == text,
            Input::Bytes(bytes) => out matches Ok(t) ==> t.spec_bytes() == bytes@,
            Input::ByteArray(bytes) => out matches Ok(t) ==> t.spec_bytes() == bytes@,
            Input::Other { text, type_label } => text matches Some(text) ==> out matches Ok(t) && t
                == text,
        },
{
    match input {
        Input::Text(text) => Ok(*text),
        Input::Bytes(bytes) => text_from_utf8(*bytes),
        Input::ByteArray(bytes) => text_from_utf8(*bytes),
        Input::Other { text, type_label } => match text {
            Some(text) => Ok(*text),
            None => Err(
                JsonError::TypeError {
                    expected: String::from_str("string or bytes-like object"),
                    got: match type_label {
                        Some(name) => String::from_str(*name),
                        None => String::from_str("unknown"),
                    },
                },
            ),
        },
    }
}

/// Bytes that are the UTF-8 encoding of a text are read as that text: the
/// byte paths and the text path hand the parser the same characters.
pub proof fn lemma_bytes_of_text_read_as_text(text: &str, bytes: &[u8])
    requires
        bytes@ == encode_utf8(text@),
    ensures
        normalized(Input::Bytes(bytes)) == normalized(Input::Text(text)),
        normalized(Input::ByteArray(bytes)) == normalized(Input::Text(text)),
{
    encode_utf8_valid_utf8(text@);
    encode_utf8_decode_utf8(text@);
}

/// Bytes that are not UTF-8 are answered with a type error, whichever kind of
/// buffer holds them.
pub proof fn lemma_invalid_bytes_are_a_type_error(bytes: &[u8])
    requires
        !valid_utf8(bytes@),
    ensures
        normalized(Input::Bytes(bytes)) == Err::<Seq<char>, JsonErrorView>(invalid_utf8()),
        normalized(Input::ByteArray(bytes)) == Err::<Seq<char>, JsonErrorView>(invalid_utf8()),
        invalid_utf8() is TypeError,
{
}

/// An object that is neither text nor bytes, and that the host cannot coerce
/// to text, is answered with a type error that names the type of the object.
pub proof fn lemma_unsupported_input_names_its_type(name: &str)
    ensures
        normalized(Input::Other { text: None, type_label: Some(name) }) matches Err(
            JsonErrorView::TypeError { expected, got },
        ) && got == name@,
{
}

} // verus!
