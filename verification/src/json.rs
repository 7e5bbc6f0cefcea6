//! JSON texts of no fixed schema. The library keeps such a value as its
//! text and leaves the reading of the text to `serde_json`.

use vstd::prelude::*;
use crate::codec::{Codec, CodecError, JsonField, Parsed};

verus! {

/// The text that `serde_json` writes for the JSON value that `text` spells,
/// and none where `text` spells none.
pub uninterp spec fn spec_json_canonical(text: Seq<char>) -> Option<Seq<char>>;

/// `serde_json::from_str` to a `serde_json::Value`, written back with the
/// value's `to_string`: the text that comes back is a function of the text
/// that goes in, and there is none exactly where parsing fails.
#[verifier::external_body]
pub(crate) fn json_canonical(text: &str) -> (r: Option<String>)
    ensures
        match r {
            Some(written) => spec_json_canonical(text@) == Some(written@),
            None => spec_json_canonical(text@) is None,
        },
{
    match serde_json::from_str::<serde_json::Value>(text) {
        Ok(value) => Some(value.to_string()),
        Err(_) => None,
    }
}

/// The text of the member `key` of the JSON object that `text` spells, and
/// none where `text` spells no object or the object has no such member.
pub uninterp spec fn spec_json_member(text: Seq<char>, key: Seq<char>) -> Option<Seq<char>>;

/// `serde_json::Value::get` with a text as the index, on the value that
/// `serde_json::from_str` reads from `text`, the member written with its
/// `to_string`: a function of the two texts.
#[verifier::external_body]
pub(crate) fn json_member(text: &str, key: &str) -> (r: Option<String>)
    ensures
        match r {
            Some(written) => spec_json_member(text@, key@) == Some(written@),
            None => spec_json_member(text@, key@) is None,
        },
{
    match serde_json::from_str::<serde_json::Value>(text) {
        Ok(value) => value.get(key).map(|member| member.to_string()),
        Err(_) => None,
    }
}

/// What a JSON text holds, as far as the reading of a number asks: a
/// number, with its value where that is an unsigned integer of 64 bits; a
/// text; or anything else.
#[derive(Clone, Debug, PartialEq, Eq)]
pub enum JsonScalar {
    Number(Option<u64>),
    Text(String),
    Other,
}

/// The model of a `JsonScalar`.
pub enum JsonScalarModel {
    Number(Option<u64>),
    Text(Seq<char>),
    Other,
}

impl DeepView for JsonScalar {
    type V = JsonScalarModel;

    open spec fn deep_view(&self) -> JsonScalarModel {
        match self {
            JsonScalar::Number(n) => JsonScalarModel::Number(*n),
            JsonScalar::Text(text) => JsonScalarModel::Text(text@),
            JsonScalar::Other => JsonScalarModel::Other,
        }
    }
}

/// What the JSON value that `text` spells holds, and none where `text`
/// spells none.
pub uninterp spec fn spec_json_scalar(text: Seq<char>) -> Option<JsonScalarModel>;

/// `serde_json::from_str` to a `serde_json::Value`, told apart by its
/// variant: a number with what its `as_u64` gives, a string with its text,
/// any other as `Other`; none where parsing fails.
#[verifier::external_body]
pub(crate) fn json_scalar(text: &str) -> (r: Option<JsonScalar>)
    ensures
        match r {
            Some(scalar) => spec_json_scalar(text@) == Some(scalar.deep_view()),
            None => spec_json_scalar(text@) is None,
        },
{
    match serde_json::from_str::<serde_json::Value>(text) {
        Ok(serde_json::Value::Number(number)) => Some(JsonScalar::Number(number.as_u64())),
        Ok(serde_json::Value::String(text)) => Some(JsonScalar::Text(text)),
        Ok(_) => Some(JsonScalar::Other),
        Err(_) => None,
    }
}

/// Whether `text` is JSON.
pub open spec fn is_json(text: Seq<char>) -> bool {
    spec_json_canonical(text) is Some
}

/// Whether `text` is JSON.
pub fn json_is_valid(text: &str) -> (valid: bool)
    ensures
        valid == is_json(text@),
{
    json_canonical(text).is_some()
}

/// The wire bytes of an opaque blob: the UTF-8 bytes of its JSON text,
/// behind their length.
pub open spec fn wire_blob(text: Seq<char>) -> Seq<u8> {
    String::wire(text)
}

/// The blob at the front of `s`: a text that is JSON. A text that is none
/// is refused in the name of `field`.
pub open spec fn parse_blob(s: Seq<u8>, field: JsonField) -> Parsed<Seq<char>> {
    match String::parse(s) {
        Err(e) => Err(e),
        Ok((text, n)) => if is_json(text) {
            Ok((text, n))
        } else {
            Err(CodecError::InvalidJson(field))
        },
    }
}

/// Parsing a written blob gives its text back, whatever follows.
pub proof fn lemma_parse_blob_wire(text: Seq<char>, field: JsonField, rest: Seq<u8>)
    requires
        is_json(text),
        String::wf(text),
    ensures
        parse_blob(wire_blob(text) + rest, field) == Ok::<(Seq<char>, nat), CodecError>(
            (text, wire_blob(text).len()),
        ),
{
    String::lemma_parse_wire(text, rest);
}

/// Appends the blob of a JSON text to `dest`.
pub fn encode_blob(json_text: &str, dest: &mut Vec<u8>)
    ensures
        final(dest)@ == old(dest)@ + wire_blob(json_text@),
        String::wf(json_text@),
{
    let bytes = json_text.as_bytes();
    proof {
        vstd::slice::axiom_spec_len(bytes);
    }
    crate::codec::encode_bytes(bytes, dest);
}

/// Reads a blob from `input` at `pos`: its JSON text and the position
/// behind it, or why there is none.
pub fn decode_blob(input: &[u8], pos: usize, field: JsonField) -> (r: Result<
    (String, usize),
    CodecError,
>)
    requires
        pos <= input.len(),
    ensures
        match r {
            Ok((text, next)) => pos <= next <= input.len() && parse_blob(
                input@.skip(pos as int),
                field,
            ) == Ok::<(Seq<char>, nat), CodecError>((text@, (next - pos) as nat)),
            Err(e) => parse_blob(input@.skip(pos as int), field) == Err::<
                (Seq<char>, nat),
                CodecError,
            >(e),
        },
{
    let (text, next) = match String::decode_at(input, pos) {
        Ok(found) => found,
        Err(e) => { return Err(e); },
    };
    if json_is_valid(text.as_str()) {
        Ok((text, next))
    } else {
        Err(CodecError::InvalidJson(field))
    }
}

} // verus!
