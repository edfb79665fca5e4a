//! The shared decode / schema-validate / field-validate contract that each
//! record variant implements once.

use vstd::prelude::*;

use crate::decode::parse_records;
use crate::model::{DecodeError, RecordModel, SchemaViolation};
use crate::schema::schema_ok;

verus! {

/// One record variant's view of the pipeline: decoding raw text into typed
/// records, checking the raw text against the structural schema, and
/// field-validating the decoded records under the variant's policy.
pub trait Json<T: View<V = RecordModel>> {
    /// The variant's field policy: when one decoded record is acceptable.
    spec fn rec_ok(r: RecordModel) -> bool;

    /// Decodes the raw text into this variant's records, order preserved;
    /// a text outside the wire grammar is a fatal decode failure.
    fn parse(json: &str) -> (r: Result<Vec<T>, DecodeError>)
        ensures
            match r {
                Ok(v) => parse_records(json@) == Some(v@.map_values(|t: T| t@)),
                Err(_) => parse_records(json@) is None,
            },
    ;

    /// Checks the raw text against the structural schema, collecting the
    /// violations found; this is advisory and independent of decoding.
    /// Both variants' schemas constrain the serialized text in the same
    /// way, so the result is the same whichever variant is asked.
    fn validate(json: &str) -> (r: Result<(), Vec<SchemaViolation>>)
        ensures
            match r {
                Ok(_) => schema_ok(json@),
                Err(v) => !schema_ok(json@) && v@.len() == 1 && v@[0].message@
                    == "text is longer than the schema maximum of 1000"@ && v@[0].path@ == ""@,
            },
    ;

    /// Field-validates the decoded records in order, stopping at the first
    /// failure; true exactly when every record passes the variant's policy.
    fn validate_data(vec: Vec<T>) -> (b: bool)
        ensures
            b == (forall|i: int| 0 <= i < vec@.len() ==> #[trigger] Self::rec_ok(vec@[i]@)),
    ;
}

} // verus!
