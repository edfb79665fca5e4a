use json_parser_lib::decode::decode_records;
use json_parser_lib::encode::encode_records;
use json_parser_lib::json::Json;
use json_parser_lib::model::{DecodeError, RawRecord};
use json_parser_lib::schema::schema_check;
use json_parser_lib::strings::Strings;
use json_parser_lib::validator::{run_validation, Outcome, Variant};

#[test]
fn decode_single_record() {
    let v = decode_records("[{\"name\":\"brand\",\"value\":\"#FF00FF\"}]").unwrap();
    assert_eq!(v.len(), 1);
    assert_eq!(v[0].name, "brand");
    assert_eq!(v[0].value, "#FF00FF");
}

#[test]
fn decode_preserves_order() {
    let v = decode_records("[{\"name\":\"a\",\"value\":\"1\"},{\"name\":\"b\",\"value\":\"2\"},{\"name\":\"c\",\"value\":\"3\"}]")
        .unwrap();
    let names: Vec<&str> = v.iter().map(|r| r.name.as_str()).collect();
    assert_eq!(names, ["a", "b", "c"]);
}

#[test]
fn decode_accepts_either_member_order() {
    let v = decode_records("[{\"value\":\"#0f0\",\"name\":\"accent\"}]").unwrap();
    assert_eq!(v[0].name, "accent");
    assert_eq!(v[0].value, "#0f0");
}

#[test]
fn decode_accepts_whitespace() {
    let v = decode_records(" [ { \"name\" : \"a\" ,\n\t\"value\" : \"b\" } ,\r\n {\"name\":\"c\",\"value\":\"d\"} ] ").unwrap();
    assert_eq!(v.len(), 2);
    assert_eq!(v[0].name, "a");
    assert_eq!(v[1].value, "d");
}

#[test]
fn decode_empty_array() {
    let v = decode_records("[]").unwrap();
    assert!(v.is_empty());
    let v = decode_records("  [  ]  ").unwrap();
    assert!(v.is_empty());
}

#[test]
fn decode_understands_escapes() {
    let v = decode_records("[{\"name\":\"a\\\"b\",\"value\":\"c\\\\d\\n\\t\\/\"}]").unwrap();
    assert_eq!(v[0].name, "a\"b");
    assert_eq!(v[0].value, "c\\d\n\t/");
}

#[test]
fn decode_understands_unicode_escapes() {
    let v = decode_records("[{\"name\":\"\\u0041x\",\"value\":\"\\u00e9\"}]").unwrap();
    assert_eq!(v[0].name, "Ax");
    assert_eq!(v[0].value, "\u{e9}");
    // an astral character written as a surrogate pair
    let v = decode_records("[{\"name\":\"a\",\"value\":\"\\uD83D\\uDE00\"}]").unwrap();
    assert_eq!(v[0].value, "\u{1F600}");
}

#[test]
fn decode_rejects_bad_unicode_escapes() {
    // a lone high surrogate, a lone low surrogate, a misordered pair,
    // and a short digit run
    assert!(decode_records("[{\"name\":\"a\",\"value\":\"\\uD800\"}]").is_err());
    assert!(decode_records("[{\"name\":\"a\",\"value\":\"\\uDC00\"}]").is_err());
    assert!(decode_records("[{\"name\":\"a\",\"value\":\"\\uD800\\u0041\"}]").is_err());
    assert!(decode_records("[{\"name\":\"a\",\"value\":\"\\u00G1\"}]").is_err());
    assert!(decode_records("[{\"name\":\"a\",\"value\":\"\\u12\"}]").is_err());
}

#[test]
fn decode_rejects_raw_control_characters() {
    // a literal newline and a literal tab inside a string are not JSON
    assert!(decode_records("[{\"name\":\"a\nb\",\"value\":\"c\"}]").is_err());
    assert!(decode_records("[{\"name\":\"a\",\"value\":\"c\td\"}]").is_err());
}

#[test]
fn decode_rejects_extra_members() {
    // the wire format fixes exactly the two properties name and value;
    // an object carrying any further member is rejected
    assert!(decode_records("[{\"name\":\"a\",\"value\":\"b\",\"extra\":\"c\"}]").is_err());
    assert!(decode_records("[{\"extra\":\"c\",\"name\":\"a\",\"value\":\"b\"}]").is_err());
}

#[test]
fn scenario_malformed_text_is_decode_error() {
    let r = decode_records("not a json array");
    assert!(matches!(r, Err(DecodeError::Malformed)));
    let r = run_validation("not a json array", Variant::Strings);
    assert!(matches!(r, Err(DecodeError::Malformed)));
}

#[test]
fn decode_rejects_bad_shapes() {
    assert!(decode_records("").is_err());
    assert!(decode_records("{\"name\":\"a\",\"value\":\"b\"}").is_err());
    assert!(decode_records("[{\"name\":\"a\"}]").is_err());
    assert!(decode_records("[{\"name\":\"a\",\"value\":5}]").is_err());
    assert!(decode_records("[{\"name\":\"a\",\"value\":\"b\",\"extra\":\"c\"}]").is_err());
    assert!(decode_records("[{\"name\":\"a\",\"value\":\"b\"},]").is_err());
    assert!(decode_records("[{\"name\":\"a\",\"value\":\"b\"}] trailing").is_err());
    assert!(decode_records("[{\"name\":\"a\",\"value\":\"b\"").is_err());
}

#[test]
fn decode_idempotence() {
    let text = "[{\"name\":\"a\",\"value\":\"1\"},{\"name\":\"b\",\"value\":\"2\"}]";
    let first = decode_records(text).unwrap();
    let second = decode_records(text).unwrap();
    assert_eq!(first.len(), second.len());
    for (x, y) in first.iter().zip(second.iter()) {
        assert_eq!(x.name, y.name);
        assert_eq!(x.value, y.value);
    }
}

#[test]
fn round_trip_single_record() {
    let rec = RawRecord { name: "brand".to_string(), value: "#FF00FF".to_string() };
    let text = encode_records(&vec![rec]);
    assert_eq!(text, "[{\"name\":\"brand\",\"value\":\"#FF00FF\"}]");
    let back = decode_records(&text).unwrap();
    assert_eq!(back.len(), 1);
    assert_eq!(back[0].name, "brand");
    assert_eq!(back[0].value, "#FF00FF");
}

#[test]
fn round_trip_with_escapes_and_many_records() {
    let recs = vec![
        RawRecord { name: "quote\"inside".to_string(), value: "back\\slash".to_string() },
        RawRecord { name: "tab\there".to_string(), value: "".to_string() },
        RawRecord { name: "line\nfeed".to_string(), value: "bell\u{7}end".to_string() },
        RawRecord { name: "c".to_string(), value: "3".to_string() },
    ];
    let text = encode_records(&recs);
    let back = decode_records(&text).unwrap();
    assert_eq!(back.len(), recs.len());
    for (x, y) in recs.iter().zip(back.iter()) {
        assert_eq!(x.name, y.name);
        assert_eq!(x.value, y.value);
    }
}

#[test]
fn encoder_escapes_control_characters() {
    let recs = vec![RawRecord { name: "a".to_string(), value: "x\ny\u{1}".to_string() }];
    let text = encode_records(&recs);
    assert_eq!(text, "[{\"name\":\"a\",\"value\":\"x\\ny\\u0001\"}]");
    let back = decode_records(&text).unwrap();
    assert_eq!(back[0].value, "x\ny\u{1}");
}

#[test]
fn round_trip_empty_sequence() {
    let text = encode_records(&Vec::new());
    assert_eq!(text, "[]");
    let back = decode_records(&text).unwrap();
    assert!(back.is_empty());
}

#[test]
fn schema_accepts_short_text() {
    assert!(schema_check("[]").is_ok());
    assert!(schema_check(&"x".repeat(1000)).is_ok());
}

#[test]
fn schema_rejects_long_text() {
    let long = "x".repeat(1001);
    let violations = schema_check(&long).unwrap_err();
    assert_eq!(violations.len(), 1);
    assert_eq!(violations[0].path, "");
    assert_eq!(violations[0].message, "text is longer than the schema maximum of 1000");
    // the same check through a variant
    assert!(Strings::validate(&long).is_err());
}

#[test]
fn orchestrator_reports_valid() {
    let rep = run_validation("[{\"name\":\"brand\",\"value\":\"#FF00FF\"}]", Variant::Colors).unwrap();
    assert_eq!(rep.outcome, Outcome::Valid);
    assert!(rep.schema_ok);
}

#[test]
fn orchestrator_reports_invalid() {
    let rep = run_validation("[{\"name\":\"brand\",\"value\":\"#FF00F\"}]", Variant::Colors).unwrap();
    assert_eq!(rep.outcome, Outcome::Invalid);
    assert!(rep.schema_ok);
    let rep = run_validation("[{\"name\":\"\",\"value\":\"hello\"}]", Variant::Strings).unwrap();
    assert_eq!(rep.outcome, Outcome::Invalid);
}

#[test]
fn orchestrator_schema_result_does_not_gate_outcome() {
    // over the schema length bound yet every record valid: outcome stays
    // Valid while the advisory schema flag reports the violation
    let mut text = String::from("[");
    for i in 0..40 {
        if i > 0 {
            text.push(',');
        }
        text.push_str("{\"name\":\"aaaaaaaaaaaaaaaa\",\"value\":\"bbbbbbbb\"}");
    }
    text.push(']');
    assert!(text.len() > 1000);
    let rep = run_validation(&text, Variant::Strings).unwrap();
    assert_eq!(rep.outcome, Outcome::Valid);
    assert!(!rep.schema_ok);
}
