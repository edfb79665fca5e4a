//! The `Strings` record variant: loose rules, both fields merely non-empty
//! and bounded in length.

use vstd::prelude::*;

use crate::decode::{decode_records, views_of};
use crate::json::Json;
use crate::model::{DecodeError, RecordModel, SchemaViolation};
use crate::schema::schema_check;

verus! {

/// Upper bound on the `name` field's length.
pub const NAME_LENGTH_MAX: usize = 100;

/// The `name` field must be strictly longer than this.
pub const NAME_LENGTH_MIN: usize = 0;

/// Upper bound on the `value` field's length.
pub const VALUE_LENGTH_MAX: usize = 100;

/// The `value` field must be strictly longer than this.
pub const VALUE_LENGTH_MIN: usize = 0;

/// A record of the `Strings` variant.
pub struct Strings {
    name: String,
    value: String,
}

impl View for Strings {
    type V = RecordModel;

    closed spec fn view(&self) -> RecordModel {
        RecordModel { name: self.name@, value: self.value@ }
    }
}

/// When one field is acceptable: non-empty and at most 100 characters.
pub open spec fn strings_field_ok(f: Seq<char>) -> bool {
    0 < f.len() <= 100
}

/// When a whole `Strings` record passes field validation.
pub open spec fn strings_record_ok(r: RecordModel) -> bool {
    strings_field_ok(r.name) && strings_field_ok(r.value)
}

/// Every sequence of records whose `name` and `value` are both non-empty
/// and at most 100 characters passes the `Strings` field validation.
pub proof fn lemma_strings_well_formed_valid(rs: Seq<RecordModel>)
    requires
        forall|i: int|
            0 <= i < rs.len() ==> 0 < (#[trigger] rs[i]).name.len() <= 100 && 0 < rs[i].value.len()
                <= 100,
    ensures
        forall|i: int| 0 <= i < rs.len() ==> strings_record_ok(#[trigger] rs[i]),
{
}

impl Strings {
    /// Makes a record from its two fields.
    pub fn new(name: String, value: String) -> (r: Strings)
        ensures
            r@ == (RecordModel { name: name@, value: value@ }),
    {
        Strings { name, value }
    }

    /// The record's `name` field.
    pub fn name(&self) -> (r: &str)
        ensures
            r@ == self@.name,
    {
        self.name.as_str()
    }

    /// The record's `value` field.
    pub fn value(&self) -> (r: &str)
        ensures
            r@ == self@.value,
    {
        self.value.as_str()
    }

    /// Whether a `name` field passes this variant's rule: non-empty and at
    /// most 100 characters.
    pub fn name_valid(name: String) -> (b: bool)
        ensures
            b == strings_field_ok(name@),
    {
        let length: usize = name.as_str().unicode_len();
        if length == 0 {
            return false;
        }
        length > NAME_LENGTH_MIN && length <= NAME_LENGTH_MAX
    }

    /// Whether a `value` field passes this variant's rule: the same bounds
    /// as for `name`, non-empty and at most 100 characters.
    pub fn value_valid(value: String) -> (b: bool)
        ensures
            b == strings_field_ok(value@),
    {
        let length: usize = value.as_str().unicode_len();
        if length == 0 {
            return false;
        }
        length > VALUE_LENGTH_MIN && length <= VALUE_LENGTH_MAX
    }

    /// A one-line description of the record, in the shape
    /// `struct Strings - (name="...", value="...")`.  The fields are inserted
    /// verbatim, with no `{:?}`-style escaping of quotes or control
    /// characters.
    pub fn describe(&self) -> (out: String)
        ensures
            out@ == "struct Strings - (name=\""@ + self@.name + "\", value=\""@ + self@.value
                + "\")"@,
    {
        let mut out = String::from_str("struct Strings - (name=\"");
        out.append(self.name.as_str());
        out.append("\", value=\"");
        out.append(self.value.as_str());
        out.append("\")");
        out
    }
}

impl Json<Strings> for Strings {
    open spec fn rec_ok(r: RecordModel) -> bool {
        strings_record_ok(r)
    }

    fn parse(json: &str) -> (r: Result<Vec<Strings>, DecodeError>) {
        match decode_records(json) {
            Ok(raw) => {
                let mut out: Vec<Strings> = Vec::new();
                let mut i: usize = 0;
                while i < raw.len()
                    invariant
                        i <= raw.len(),
                        out@.len() == i,
                        forall|t: int| 0 <= t < i ==> out@[t]@ == #[trigger] raw@[t]@,
                    decreases raw.len() - i,
                {
                    let nm = raw[i].name.clone();
                    let vl = raw[i].value.clone();
                    out.push(Strings { name: nm, value: vl });
                    i += 1;
                }
                proof {
                    assert(out@.map_values(|t: Strings| t@) =~= views_of(raw@));
                }
                Ok(out)
            },
            Err(e) => Err(e),
        }
    }

    fn validate(json: &str) -> (r: Result<(), Vec<SchemaViolation>>) {
        schema_check(json)
    }

    fn validate_data(vec: Vec<Strings>) -> (b: bool) {
        let mut i: usize = 0;
        loop
            invariant
                i <= vec@.len(),
                forall|t: int| 0 <= t < i ==> strings_record_ok(#[trigger] vec@[t]@),
            decreases vec@.len() - i,
        {
            if i >= vec.len() {
                return true;
            }
            let name_ok = Strings::name_valid(vec[i].name.clone());
            let value_ok = Strings::value_valid(vec[i].value.clone());
            if !(name_ok && value_ok) {
                proof {
                    assert(!strings_record_ok(vec@[i as int]@));
                    assert(!Self::rec_ok(vec@[i as int]@));
                }
                return false;
            }
            i += 1;
        }
    }
}

} // verus!
