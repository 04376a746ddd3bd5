//! The decode call: from an input, through the parser, to a host value.

use crate::bridge::{bridged, val_to_python};
use crate::error::{JsonError, JsonErrorView};
use crate::host::{HostValue, HostView};
use crate::input::{
    lemma_bytes_of_text_read_as_text, normalize, normalized, text_from_utf8, text_of_bytes, Input,
};
use crate::value::Val;
use vstd::prelude::*;

verus! {

/// `json5::Location`, with its two public fields `line` and `column` as the
/// crate declares them. Nothing is claimed of it: Verus reads the fields.
#[verifier::external_type_specification]
pub struct ExLocation(json5::Location);

/// `json5::Error`, with its one variant `Message { msg, location }` as the
/// crate declares it. Nothing is claimed of it: Verus reads the variant.
#[verifier::external_type_specification]
pub struct ExError(json5::Error);

/// The parse failure that a `json5::Error` reports: its message, and its line
/// and column where it has them.
pub open spec fn parse_failure(e: json5::Error) -> JsonErrorView {
    match e {
        json5::Error::Message { msg, location } => JsonErrorView::ParsingError {
            msg: msg@,
            location: match location {
                Some(at) => Some((at.line, at.column)),
                None => None,
            },
        },
    }
}

/// How a decode call ends for a given answer of the parser: a parsed value is
/// bridged, a parse failure is reported with its message and location.
pub open spec fn decoded(parsed: Result<Val, json5::Error>) -> Result<HostView, JsonErrorView> {
    match parsed {
        Ok(value) => Ok(bridged(value@)),
        Err(e) => Err(parse_failure(e)),
    }
}

/// The content of the result of a decode call.
pub open spec fn outcome(out: Result<HostValue, JsonError>) -> Result<HostView, JsonErrorView> {
    match out {
        Ok(value) => Ok(value@),
        Err(e) => Err(e@),
    }
}

/// Ends a decode call with the answer of the parser.
pub fn from_parse_result(parsed: Result<Val, json5::Error>) -> (out: Result<HostValue, JsonError>)
    ensures
        outcome(out) == decoded(parsed),
{
    match parsed {
        Ok(value) => Ok(val_to_python(&value)),
        Err(e) => match e {
            json5::Error::Message { msg, location } => Err(
                JsonError::ParsingError {
                    msg,
                    location: match location {
                        Some(at) => Some((at.line, at.column)),
                        None => None,
                    },
                },
            ),
        },
    }
}

/// Decodes a text with the given JSON5 parser.
///
/// The parser is called once, on `text`, which it must take. Whatever it
/// answers, the call ends as [`decoded`] says for that answer.
pub fn loads_str<P>(text: &str, parse: &P) -> (out: Result<HostValue, JsonError>) where
    P: Fn(&str) -> Result<Val, json5::Error>,

    requires
        parse.requires((text,)),
    ensures
        exists|parsed: Result<Val, json5::Error>|
            parse.ensures((text,), parsed) && outcome(out) == decoded(parsed),
{
    let parsed = parse(text);
    from_parse_result(parsed)
}

/// The parser can be called on the text, where there is one: it takes every
/// text of these characters.
pub open spec fn takes<P: Fn(&str) -> Result<Val, json5::Error>>(
    parse: &P,
    text: Result<Seq<char>, JsonErrorView>,
) -> bool {
    text matches Ok(chars) ==> forall|t: &str| t@ == chars ==> #[trigger] parse.requires((t,))
}

/// How a decode call ends for text that may be missing: a type error for a
/// missing text, else as the parser answers on a text of these characters.
pub open spec fn ends_as<P: Fn(&str) -> Result<Val, json5::Error>>(
    out: Result<HostValue, JsonError>,
    text: Result<Seq<char>, JsonErrorView>,
    parse: &P,
) -> bool {
    match text {
        Ok(chars) => exists|t: &str, parsed: Result<Val, json5::Error>|
            t@ == chars && parse.ensures((t,), parsed) && outcome(out) == decoded(parsed),
        Err(e) => outcome(out) == Err::<HostView, JsonErrorView>(e),
    }
}

/// Decodes the text that a byte buffer holds with the given JSON5 parser.
///
/// Bytes that are not UTF-8 are answered with a type error and the parser is
/// not called.
pub fn loads_bytes<P>(bytes: &[u8], parse: &P) -> (out: Result<HostValue, JsonError>) where
    P: Fn(&str) -> Result<Val, json5::Error>,

    requires
        takes(parse, text_of_bytes(bytes@)),
    ensures
        ends_as(out, text_of_bytes(bytes@), parse),
{
    match text_from_utf8(bytes) {
        Ok(text) => loads_str(text, parse),
        Err(e) => Err(e),
    }
}

/// Decodes an input with the given JSON5 parser.
///
/// An input that holds no text is answered with its type error and the parser
/// is not called.
pub fn loads<P>(input: &Input, parse: &P) -> (out: Result<HostValue, JsonError>) where
    P: Fn(&str) -> Result<Val, json5::Error>,

    requires
        takes(parse, normalized(*input)),
    ensures
        ends_as(out, normalized(*input), parse),
{
    match input {
        Input::Text(text) => loads_str(*text, parse),
        Input::Bytes(bytes) => loads_bytes(*bytes, parse),
        _ => match normalize(input) {
            Ok(text) => loads_str(text, parse),
            Err(e) => Err(e),
        },
    }
}

/// Bytes that are the UTF-8 encoding of a text decode alike from a byte
/// buffer and from the text: each way a decode call may end for the one, it
/// may end for the other.
pub proof fn lemma_bytes_decode_as_their_text<P: Fn(&str) -> Result<Val, json5::Error>>(
    text: &str,
    bytes: &[u8],
    parse: &P,
    out: Result<HostValue, JsonError>,
)
    requires
        bytes@ == vstd::utf8::encode_utf8(text@),
    ensures
        ends_as(out, normalized(Input::Bytes(bytes)), parse) == ends_as(
            out,
            normalized(Input::Text(text)),
            parse,
        ),
        ends_as(out, normalized(Input::ByteArray(bytes)), parse) == ends_as(
            out,
            normalized(Input::Text(text)),
            parse,
        ),
{
    lemma_bytes_of_text_read_as_text(text, bytes);
}

/// Once the parser has answered with a value, the decode call succeeds: no
/// value tree fails to bridge.
pub proof fn lemma_parsed_value_always_decodes(value: Val)
    ensures
        decoded(Ok(value)) == Ok::<HostView, JsonErrorView>(bridged(value@)),
{
}

/// Where the parser takes every text of the given characters, a decode call
/// on them succeeds: nothing after the parser can fail.
pub proof fn lemma_decode_succeeds_where_parsing_does<P: Fn(&str) -> Result<Val, json5::Error>>(
    out: Result<HostValue, JsonError>,
    chars: Seq<char>,
    parse: &P,
)
    requires
        ends_as(out, Ok(chars), parse),
        forall|t: &str, parsed: Result<Val, json5::Error>|
            t@ == chars && #[trigger] parse.ensures((t,), parsed) ==> parsed is Ok,
    ensures
        out is Ok,
{
}

/// A parse failure is never reported as a type error, and a type error never
/// comes from the parser: the two kinds of failure do not mix.
pub proof fn lemma_parse_failure_is_a_parsing_error(e: json5::Error)
    ensures
        decoded(Err(e)) matches Err(x) && x is ParsingError,
{
}

} // verus!
