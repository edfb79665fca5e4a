//! The `Colors` record variant: `value` must name a hex colour such as
//! `#FF00FF` or `#0f0`.

use vstd::prelude::*;

use crate::decode::{decode_records, views_of};
use crate::json::Json;
use crate::model::{DecodeError, RecordModel, SchemaViolation};
use crate::schema::schema_check;

verus! {

/// Upper bound on the `name` field's length.
pub const NAME_LENGTH_MAX: usize = 100;

/// The `name` field must be strictly longer than this.
pub const NAME_LENGTH_MIN: usize = 0;

/// Upper bound on the `value` field's length.
pub const VALUE_LENGTH_MAX: usize = 7;

/// Lower bound on the `value` field's length.
pub const VALUE_LENGTH_MIN: usize = 2;

/// A record of the `Colors` variant.
pub struct Colors {
    name: String,
    value: String,
}

impl View for Colors {
    type V = RecordModel;

    closed spec fn view(&self) -> RecordModel {
        RecordModel { name: self.name@, value: self.value@ }
    }
}

/// When a `name` field is acceptable: non-empty and within the bound.
pub open spec fn colors_name_ok(n: Seq<char>) -> bool {
    NAME_LENGTH_MIN < n.len() <= NAME_LENGTH_MAX
}

/// When a character is a hex digit, upper or lower case.
pub open spec fn is_hex_digit(c: char) -> bool {
    (48 <= c as u32 && c as u32 <= 57) || (65 <= c as u32 && c as u32 <= 70) || (97 <= c as u32
        && c as u32 <= 102)
}

/// When a field matches the hex-colour pattern
/// `^#([A-Fa-f0-9]{6}|[A-Fa-f0-9]{3})$`.
pub open spec fn is_hex_color(v: Seq<char>) -> bool {
    (v.len() == 4 || v.len() == 7) && v[0] == '#' && (forall|i: int|
        1 <= i < v.len() ==> is_hex_digit(#[trigger] v[i]))
}

/// When a whole `Colors` record passes field validation.
pub open spec fn colors_record_ok(r: RecordModel) -> bool {
    colors_name_ok(r.name) && is_hex_color(r.value)
}

/// A `Colors` record passes field validation exactly when its `value`
/// matches the hex-colour pattern and its `name` length lies in `(0, 100]`.
pub proof fn lemma_colors_validity(r: RecordModel)
    ensures
        colors_record_ok(r) <==> (is_hex_color(r.value) && 0 < r.name.len() <= 100),
{
}

fn hex_digit_x(c: char) -> (b: bool)
    ensures
        b == is_hex_digit(c),
{
    let u = c as u32;
    (48 <= u && u <= 57) || (65 <= u && u <= 70) || (97 <= u && u <= 102)
}

fn hex_color_x(v: &str) -> (b: bool)
    ensures
        b == is_hex_color(v@),
{
    let n = v.unicode_len();
    if !(n == 4 || n == 7) {
        return false;
    }
    if v.get_char(0) != '#' {
        return false;
    }
    let mut i: usize = 1;
    loop
        invariant
            1 <= i <= n,
            n == v@.len(),
            n == 4 || n == 7,
            v@[0] == '#',
            forall|t: int| 1 <= t < i ==> is_hex_digit(#[trigger] v@[t]),
        decreases n - i,
    {
        if i >= n {
            return true;
        }
        if !hex_digit_x(v.get_char(i)) {
            return false;
        }
        i += 1;
    }
}

impl Colors {
    /// Makes a record from its two fields.
    pub fn new(name: String, value: String) -> (r: Colors)
        ensures
            r@ == (RecordModel { name: name@, value: value@ }),
    {
        Colors { name, value }
    }

    /// The record's `name` field.
    pub fn name(&self) -> (r: &str)
        ensures
            r@ == self@.name,
    {
        self.name.as_str()
    }

    /// The record's `value` field.
    pub fn value(&self) -> (r: &str)
        ensures
            r@ == self@.value,
    {
        self.value.as_str()
    }

    /// Whether a `name` field passes this variant's rule: non-empty and at
    /// most 100 characters.
    pub fn name_valid(name: String) -> (b: bool)
        ensures
            b == colors_name_ok(name@),
    {
        let length: usize = name.as_str().unicode_len();
        if length == 0 {
            return false;
        }
        length > NAME_LENGTH_MIN && length <= NAME_LENGTH_MAX
    }

    /// Whether a `value` field passes this variant's rule: length within
    /// `[2, 7]` and matching the hex-colour pattern.  Since the pattern
    /// forces length 4 or 7, this holds exactly when the pattern matches.
    pub fn value_valid(value: String) -> (b: bool)
        ensures
            b == is_hex_color(value@),
    {
        let v = value.as_str();
        let length: usize = v.unicode_len();
        if length == 0 {
            return false;
        }
        if !(length >= VALUE_LENGTH_MIN && length <= VALUE_LENGTH_MAX) {
            return false;
        }
        hex_color_x(v)
    }

    /// A one-line description of the record, in the shape
    /// `struct Colors - (name="...", value="...")`.  The fields are inserted
    /// verbatim, with no `{:?}`-style escaping of quotes or control
    /// characters.
    pub fn describe(&self) -> (out: String)
        ensures
            out@ == "struct Colors - (name=\""@ + self@.name + "\", value=\""@ + self@.value
                + "\")"@,
    {
        let mut out = String::from_str("struct Colors - (name=\"");
        out.append(self.name.as_str());
        out.append("\", value=\"");
        out.append(self.value.as_str());
        out.append("\")");
        out
    }
}

impl Json<Colors> for Colors {
    open spec fn rec_ok(r: RecordModel) -> bool {
        colors_record_ok(r)
    }

    fn parse(json: &str) -> (r: Result<Vec<Colors>, DecodeError>) {
        match decode_records(json) {
            Ok(raw) => {
                let mut out: Vec<Colors> = Vec::new();
                let mut i: usize = 0;
                while i < raw.len()
                    invariant
                        i <= raw.len(),
                        out@.len() == i,
                        forall|t: int| 0 <= t < i ==> out@[t]@ == #[trigger] raw@[t]@,
                    decreases raw.len() - i,
                {
                    let nm = raw[i].name.clone();
                    let vl = raw[i].value.clone();
                    out.push(Colors { name: nm, value: vl });
                    i += 1;
                }
                proof {
                    assert(out@.map_values(|t: Colors| t@) =~= views_of(raw@));
                }
                Ok(out)
            },
            Err(e) => Err(e),
        }
    }

    fn validate(json: &str) -> (r: Result<(), Vec<SchemaViolation>>) {
        schema_check(json)
    }

    fn validate_data(vec: Vec<Colors>) -> (b: bool) {
        let mut i: usize = 0;
        loop
            invariant
                i <= vec@.len(),
                forall|t: int| 0 <= t < i ==> colors_record_ok(#[trigger] vec@[t]@),
            decreases vec@.len() - i,
        {
            if i >= vec.len() {
                return true;
            }
            let name_ok = Colors::name_valid(vec[i].name.clone());
            let value_ok = Colors::value_valid(vec[i].value.clone());
            if !(name_ok && value_ok) {
                proof {
                    assert(!colors_record_ok(vec@[i as int]@));
                    assert(!Self::rec_ok(vec@[i as int]@));
                }
                return false;
            }
            i += 1;
        }
    }
}

} // verus!
