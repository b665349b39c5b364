//! The errors that building and decoding report.

use prost::DecodeError;
use vstd::prelude::*;

verus! {

/// `prost::DecodeError`, the error of prost's readers. Nothing is known of what
/// it holds.
#[verifier::external_type_specification]
#[verifier::external_body]
pub struct ExDecodeError(DecodeError);

/// What can go wrong when a record is built or bytes are decoded.
#[derive(Debug, PartialEq, Eq)]
pub enum UspError {
    /// The recipient was not set before the record was validated.
    ToIdNotSet,
    /// The record type was not set before the record was validated.
    RecordTypeNotSet,
    /// The bytes are not the wire form of the message that was asked for.
    DecodeError(DecodeError),
}

impl UspError {
    /// The text that says what went wrong. For bytes that do not decode it is
    /// the text of prost's error.
    pub fn message(&self) -> (r: String)
        ensures
            self is ToIdNotSet ==> r@ == "to_id must be set before building the record"@,
            self is RecordTypeNotSet ==> r@
                == "Record type must be set before building the record"@,
    {
        match self {
            UspError::ToIdNotSet => "to_id must be set before building the record".to_string(),
            UspError::RecordTypeNotSet => {
                "Record type must be set before building the record".to_string()
            },
            UspError::DecodeError(e) => decode_error_text(e),
        }
    }
}

/// Calls `to_string` on a `prost::DecodeError`, which writes the error as prost
/// words it. Nothing is claimed of the text.
#[verifier::external_body]
fn decode_error_text(e: &DecodeError) -> String {
    e.to_string()
}

impl From<DecodeError> for UspError {
    fn from(e: DecodeError) -> (r: UspError) {
        UspError::DecodeError(e)
    }
}

impl vstd::std_specs::convert::FromSpecImpl<DecodeError> for UspError {
    open spec fn obeys_from_spec() -> bool {
        true
    }

    open spec fn from_spec(e: DecodeError) -> UspError {
        UspError::DecodeError(e)
    }
}

} // verus!
