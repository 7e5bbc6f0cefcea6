//! Canonical representations of Starknet state changes and contract classes:
//! their wire format, the projection of a state diff onto its thin form, and
//! the check of a block's sequencer signature.

pub mod api_core;
pub mod block;
pub mod codec;
pub mod compact;
pub mod crypto;
pub mod data_availability;
pub mod deprecated_contract_class;
pub mod hash;
pub mod json;
pub mod numeral;
pub mod ordered_map;
pub mod serde_utils;
pub mod state;
pub mod text;
pub mod transaction;

use vstd::prelude::*;
use crate::numeral::ParseIntError;
use crate::serde_utils::InnerDeserializationError;
use crate::text::concat;

verus! {

/// The error type returned by the constructors of this library.
#[derive(Clone, Debug, PartialEq, Eq)]
pub enum StarknetApiError {
    /// Error in the inner deserialization of the node.
    InnerDeserialization(InnerDeserializationError),
    /// An error for when a value is out of range.
    OutOfRange { string: String },
    /// Error when reading a number from a text.
    ParseIntError(ParseIntError),
}

impl StarknetApiError {
    /// What the error says.
    pub open spec fn spec_message(&self) -> Seq<char> {
        match self {
            StarknetApiError::InnerDeserialization(e) => e.spec_message(),
            StarknetApiError::OutOfRange { string } => "Out of range "@ + string@ + "."@,
            StarknetApiError::ParseIntError(e) => e.spec_message(),
        }
    }

    /// What the error says.
    pub fn message(&self) -> (text: String)
        ensures
            text@ == self.spec_message(),
    {
        match self {
            StarknetApiError::InnerDeserialization(e) => e.message(),
            StarknetApiError::OutOfRange { string } => {
                let front = concat("Out of range ", string.as_str());
                concat(front.as_str(), ".")
            },
            StarknetApiError::ParseIntError(e) => e.message().to_string(),
        }
    }
}

impl From<InnerDeserializationError> for StarknetApiError {
    fn from(source: InnerDeserializationError) -> (e: StarknetApiError) {
        StarknetApiError::InnerDeserialization(source)
    }
}

impl vstd::std_specs::convert::FromSpecImpl<InnerDeserializationError> for StarknetApiError {
    open spec fn obeys_from_spec() -> bool {
        true
    }

    open spec fn from_spec(source: InnerDeserializationError) -> StarknetApiError {
        StarknetApiError::InnerDeserialization(source)
    }
}

impl From<ParseIntError> for StarknetApiError {
    fn from(source: ParseIntError) -> (e: StarknetApiError) {
        StarknetApiError::ParseIntError(source)
    }
}

impl vstd::std_specs::convert::FromSpecImpl<ParseIntError> for StarknetApiError {
    open spec fn obeys_from_spec() -> bool {
        true
    }

    open spec fn from_spec(source: ParseIntError) -> StarknetApiError {
        StarknetApiError::ParseIntError(source)
    }
}

} // verus!
