//! What can go wrong when a hexadecimal text is read as bytes.

use vstd::prelude::*;
use crate::numeral::{dec_digits, lemma_dec_digits_ascii, push_dec_digits};
use crate::text::{ascii_text, concat, text_of_ascii};

verus! {

/// The error type returned by the inner deserialization.
#[derive(Clone, Debug, PartialEq, Eq)]
pub enum InnerDeserializationError {
    /// A character of the text is no hexadecimal digit.
    InvalidHex { hex_str: String },
    /// The text does not start with `0x`.
    MissingPrefix { hex_str: String },
    /// The text spells more bytes than are expected.
    BadInput { expected_byte_count: usize, string_found: String },
}

/// The decimal text of a number.
pub fn decimal(n: u64) -> (text: String)
    ensures
        text@ == ascii_text(dec_digits(n as nat)),
{
    let mut codes: Vec<u8> = Vec::new();
    push_dec_digits(n, &mut codes);
    proof {
        lemma_dec_digits_ascii(n as nat);
        assert(codes@ == dec_digits(n as nat));
    }
    text_of_ascii(codes)
}

impl InnerDeserializationError {
    /// What the error says.
    pub open spec fn spec_message(&self) -> Seq<char> {
        match self {
            InnerDeserializationError::InvalidHex { hex_str } => "Invalid hexadecimal text "@
                + hex_str@,
            InnerDeserializationError::MissingPrefix { hex_str } => "Missing prefix 0x in "@
                + hex_str@,
            InnerDeserializationError::BadInput { expected_byte_count, string_found } =>
                "Bad input - expected #bytes: "@ + ascii_text(
                    dec_digits(*expected_byte_count as nat),
                ) + ", string found: "@ + string_found@ + "."@,
        }
    }

    /// What the error says.
    pub fn message(&self) -> (text: String)
        ensures
            text@ == self.spec_message(),
    {
        match self {
            InnerDeserializationError::InvalidHex { hex_str } => concat(
                "Invalid hexadecimal text ",
                hex_str.as_str(),
            ),
            InnerDeserializationError::MissingPrefix { hex_str } => concat(
                "Missing prefix 0x in ",
                hex_str.as_str(),
            ),
            InnerDeserializationError::BadInput { expected_byte_count, string_found } => {
                let count = decimal(*expected_byte_count as u64);
                let a = concat("Bad input - expected #bytes: ", count.as_str());
                let b = concat(a.as_str(), ", string found: ");
                let c = concat(b.as_str(), string_found.as_str());
                concat(c.as_str(), ".")
            },
        }
    }
}

} // verus!
