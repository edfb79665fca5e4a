//! The validation orchestrator: selects a variant, runs decode,
//! schema-check and field-check over one raw text, and reports a single
//! pass/fail outcome.  Schema violations are surfaced explicitly in the
//! report rather than gating the outcome; only field validation decides it.

use vstd::prelude::*;

use crate::colors::{colors_record_ok, Colors};
use crate::decode::parse_records;
use crate::json::Json;
use crate::model::{DecodeError, RecordModel};
use crate::schema::schema_ok;
use crate::strings::{strings_record_ok, Strings};

verus! {

/// Which record variant a raw text is to be decoded and validated as.
#[derive(Clone, Copy, PartialEq, Eq, Debug)]
pub enum Variant {
    Strings,
    Colors,
}

/// The aggregate pass/fail outcome over a whole record sequence.
#[derive(Clone, Copy, PartialEq, Eq, Debug)]
pub enum Outcome {
    Valid,
    Invalid,
}

/// What one invocation reports: the gating field-validation outcome, and
/// the advisory schema result alongside it.
pub struct Report {
    pub outcome: Outcome,
    pub schema_ok: bool,
}

/// The selected variant's field policy for one record.
pub open spec fn variant_rec_ok(v: Variant, r: RecordModel) -> bool {
    match v {
        Variant::Strings => strings_record_ok(r),
        Variant::Colors => colors_record_ok(r),
    }
}

/// Every record of the sequence passes the selected variant's policy.
pub open spec fn records_ok(v: Variant, rs: Seq<RecordModel>) -> bool {
    forall|i: int| 0 <= i < rs.len() ==> variant_rec_ok(v, #[trigger] rs[i])
}

/// The record sequence a raw text decodes to (empty when it is malformed).
pub open spec fn decoded_records(s: Seq<char>) -> Seq<RecordModel> {
    match parse_records(s) {
        Some(rs) => rs,
        None => Seq::empty(),
    }
}

/// Fail-fast: once the record at position `i` is invalid, the outcome over
/// the whole sequence is settled, whatever stands after position `i` — two
/// sequences that agree up to and including the first invalid record get
/// the same (negative) outcome, so the records past it need never be
/// consulted.
pub proof fn lemma_fail_fast(v: Variant, s: Seq<RecordModel>, t: Seq<RecordModel>, i: int)
    requires
        0 <= i < s.len(),
        i < t.len(),
        !variant_rec_ok(v, s[i]),
        t.subrange(0, i + 1) == s.subrange(0, i + 1),
    ensures
        !records_ok(v, s),
        !records_ok(v, t),
{
    assert(t.subrange(0, i + 1)[i] == t[i]);
    assert(s.subrange(0, i + 1)[i] == s[i]);
}

/// Runs the whole pipeline once: decode, schema-check (advisory),
/// field-check.  A malformed text is a fatal decode failure and yields no
/// outcome; otherwise the outcome is `Valid` exactly when every decoded
/// record passes the selected variant's field policy.
pub fn run_validation(raw: &str, variant: Variant) -> (r: Result<Report, DecodeError>)
    ensures
        match r {
            Ok(rep) => parse_records(raw@) is Some && (rep.outcome is Valid <==> records_ok(
                variant,
                decoded_records(raw@),
            )) && (rep.schema_ok <==> schema_ok(raw@)),
            Err(_) => parse_records(raw@) is None,
        },
{
    let schema_passed = match crate::schema::schema_check(raw) {
        Ok(_) => true,
        Err(_) => false,
    };
    match variant {
        Variant::Strings => {
            match Strings::parse(raw) {
                Ok(v) => {
                    let ghost vsq = v@;
                    let valid = Strings::validate_data(v);
                    proof {
                        let ds = decoded_records(raw@);
                        assert(ds == vsq.map_values(|t: Strings| t@));
                        assert forall|i: int| 0 <= i < ds.len() implies #[trigger] ds[i]
                            == vsq[i]@ by {
                            assert(vsq.map_values(|t: Strings| t@)[i] == vsq[i]@);
                        }
                        if valid {
                            assert forall|i: int| 0 <= i < ds.len() implies variant_rec_ok(
                                variant,
                                #[trigger] ds[i],
                            ) by {
                                assert(Strings::rec_ok(vsq[i]@));
                            }
                        } else {
                            let j = choose|j: int|
                                0 <= j < vsq.len() && !Strings::rec_ok(vsq[j]@);
                            assert(!variant_rec_ok(variant, ds[j]));
                            assert(!records_ok(variant, ds));
                        }
                    }
                    let outcome = if valid {
                        Outcome::Valid
                    } else {
                        Outcome::Invalid
                    };
                    Ok(Report { outcome, schema_ok: schema_passed })
                },
                Err(e) => Err(e),
            }
        },
        Variant::Colors => {
            match Colors::parse(raw) {
                Ok(v) => {
                    let ghost vsq = v@;
                    let valid = Colors::validate_data(v);
                    proof {
                        let ds = decoded_records(raw@);
                        assert(ds == vsq.map_values(|t: Colors| t@));
                        assert forall|i: int| 0 <= i < ds.len() implies #[trigger] ds[i]
                            == vsq[i]@ by {
                            assert(vsq.map_values(|t: Colors| t@)[i] == vsq[i]@);
                        }
                        if valid {
                            assert forall|i: int| 0 <= i < ds.len() implies variant_rec_ok(
                                variant,
                                #[trigger] ds[i],
                            ) by {
                                assert(Colors::rec_ok(vsq[i]@));
                            }
                        } else {
                            let j = choose|j: int| 0 <= j < vsq.len() && !Colors::rec_ok(vsq[j]@);
                            assert(!variant_rec_ok(variant, ds[j]));
                            assert(!records_ok(variant, ds));
                        }
                    }
                    let outcome = if valid {
                        Outcome::Valid
                    } else {
                        Outcome::Invalid
                    };
                    Ok(Report { outcome, schema_ok: schema_passed })
                },
                Err(e) => Err(e),
            }
        },
    }
}

} // verus!
