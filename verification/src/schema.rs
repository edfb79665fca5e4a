//! The schema validator: checks the raw text against the fixed structural
//! schema, independently of decoding.
//!
//! The schema takes the serialized text itself as its instance — a JSON
//! string value — so of its keywords only `type: string` and
//! `maxLength: 1000` constrain it; the nested per-property bounds describe
//! object instances and are vacuous for a string.  The effective check is
//! therefore a character-count bound on the raw text.  Violations are
//! collected and reported with their JSON path rather than gating the
//! validation outcome.

use vstd::prelude::*;

use crate::model::SchemaViolation;

verus! {

/// The schema's `maxLength` bound on the serialized text.
pub const MAX_TEXT_LENGTH: usize = 1000;

/// When the raw text satisfies the structural schema.
pub open spec fn schema_ok(s: Seq<char>) -> bool {
    s.len() <= MAX_TEXT_LENGTH
}

/// Checks the raw text against the structural schema; on failure returns
/// the list of violations found — here only the length bound can be
/// violated, so the list holds exactly one entry, with the root path.
pub fn schema_check(raw: &str) -> (r: Result<(), Vec<SchemaViolation>>)
    ensures
        match r {
            Ok(_) => schema_ok(raw@),
            Err(v) => !schema_ok(raw@) && v@.len() == 1 && v@[0].message@
                == "text is longer than the schema maximum of 1000"@ && v@[0].path@ == ""@,
        },
{
    let n = raw.unicode_len();
    if n <= MAX_TEXT_LENGTH {
        Ok(())
    } else {
        let mut v: Vec<SchemaViolation> = Vec::new();
        v.push(
            SchemaViolation {
                message: String::from_str("text is longer than the schema maximum of 1000"),
                path: String::from_str(""),
            },
        );
        Err(v)
    }
}

} // verus!
