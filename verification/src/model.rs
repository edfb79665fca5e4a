//! The shared data model: a record is a pair of string fields, `name` and
//! `value`.  `RecordModel` is the mathematical view of one record; `RawRecord`
//! is its executable counterpart produced by the decoder.

use vstd::prelude::*;

verus! {

/// Mathematical model of one decoded record: the two fields as character
/// sequences.
#[verifier::ext_equal]
pub struct RecordModel {
    pub name: Seq<char>,
    pub value: Seq<char>,
}

/// One decoded record, before any variant-specific interpretation.
pub struct RawRecord {
    pub name: String,
    pub value: String,
}

impl View for RawRecord {
    type V = RecordModel;

    open spec fn view(&self) -> RecordModel {
        RecordModel { name: self.name@, value: self.value@ }
    }
}

/// The raw text does not conform to the expected shape: a JSON array of
/// objects, each with exactly the two string fields `name` and `value`.
/// Fatal: no record sequence is produced.
#[derive(Clone, Copy, PartialEq, Eq, Debug)]
pub enum DecodeError {
    Malformed,
}

/// One structural-schema violation: a human-readable message and the
/// JSON path of the offending part of the document.
pub struct SchemaViolation {
    pub message: String,
    pub path: String,
}

} // verus!
