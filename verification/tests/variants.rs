use json_parser_lib::colors::Colors;
use json_parser_lib::json::Json;
use json_parser_lib::strings::Strings;

#[test]
fn strings_valid_test() {
    {
        let json = "[{\"name\":\"host\",\"value\":\"localhost\"},{\"name\":\"port\",\"value\":\"8080\"}]";
        assert!(!json.is_empty(), "file_contents not empty");
        let schema = Strings::validate(json);
        assert!(schema.is_ok());
        let vec: Vec<Strings> = Strings::parse(json).unwrap();
        let valid: bool = Strings::validate_data(vec);
        assert!(valid);
    }
    {
        let json = "[{\"name\":\"host\",\"value\":\"localhost\"},{\"name\":\"\",\"value\":\"x\"}]";
        assert!(!json.is_empty(), "file_contents not empty");
        let schema = Strings::validate(json);
        assert!(schema.is_ok());
        let vec: Vec<Strings> = Strings::parse(json).unwrap();
        let valid: bool = Strings::validate_data(vec);
        assert!(!valid);
    }
}

#[test]
fn colors_valid_test() {
    {
        let json = "[{\"name\":\"brand\",\"value\":\"#FF00FF\"},{\"name\":\"accent\",\"value\":\"#0f0\"}]";
        assert!(!json.is_empty(), "file_contents not empty");
        let schema = Colors::validate(json);
        assert!(schema.is_ok());
        let vec: Vec<Colors> = Colors::parse(json).unwrap();
        let valid: bool = Colors::validate_data(vec);
        assert!(valid);
    }
    {
        let json = "[{\"name\":\"brand\",\"value\":\"#FF00FF\"},{\"name\":\"accent\",\"value\":\"green\"}]";
        assert!(!json.is_empty(), "file_contents not empty");
        let schema = Colors::validate(json);
        assert!(schema.is_ok());
        let vec: Vec<Colors> = Colors::parse(json).unwrap();
        let valid: bool = Colors::validate_data(vec);
        assert!(!valid);
    }
}

#[test]
fn strings_well_formed_records_are_valid() {
    let vec = vec![
        Strings::new("a".to_string(), "b".to_string()),
        Strings::new("x".repeat(100), "y".repeat(100)),
    ];
    assert!(Strings::validate_data(vec));
}

#[test]
fn strings_name_bounds() {
    assert!(Strings::name_valid("a".to_string()));
    assert!(Strings::name_valid("x".repeat(100)));
    assert!(!Strings::name_valid(String::new()));
    assert!(!Strings::name_valid("x".repeat(101)));
}

#[test]
fn strings_value_bounds() {
    assert!(Strings::value_valid("hello".to_string()));
    assert!(Strings::value_valid("y".repeat(100)));
    assert!(!Strings::value_valid(String::new()));
    assert!(!Strings::value_valid("y".repeat(101)));
}

#[test]
fn colors_name_bounds() {
    assert!(Colors::name_valid("brand".to_string()));
    assert!(Colors::name_valid("x".repeat(100)));
    assert!(!Colors::name_valid(String::new()));
    assert!(!Colors::name_valid("x".repeat(101)));
}

#[test]
fn colors_value_pattern() {
    assert!(Colors::value_valid("#FF00FF".to_string()));
    assert!(Colors::value_valid("#abcdef".to_string()));
    assert!(Colors::value_valid("#0f0".to_string()));
    assert!(Colors::value_valid("#A1b2C3".to_string()));
    // six hex digits missing one: length 6, pattern mismatch
    assert!(!Colors::value_valid("#FF00F".to_string()));
    // length in bounds but not hex
    assert!(!Colors::value_valid("#GGGGGG".to_string()));
    assert!(!Colors::value_valid("#a".to_string()));
    assert!(!Colors::value_valid(String::new()));
    assert!(!Colors::value_valid("FF00FF".to_string()));
    assert!(!Colors::value_valid("#FF00FF0".to_string()));
}

#[test]
fn scenario_colors_valid_record() {
    let json = "[{\"name\":\"brand\",\"value\":\"#FF00FF\"}]";
    let vec = Colors::parse(json).unwrap();
    assert!(Colors::validate_data(vec));
}

#[test]
fn scenario_colors_pattern_mismatch() {
    let json = "[{\"name\":\"brand\",\"value\":\"#FF00F\"}]";
    let vec = Colors::parse(json).unwrap();
    assert!(!Colors::validate_data(vec));
}

#[test]
fn scenario_strings_empty_name() {
    let json = "[{\"name\":\"\",\"value\":\"hello\"}]";
    let vec = Strings::parse(json).unwrap();
    assert!(!Strings::validate_data(vec));
}

#[test]
fn scenario_strings_overlong_value() {
    let long_value = "toolongvalueexceedingonehundredcharacters".repeat(3);
    assert!(long_value.len() > 100);
    let json = format!("[{{\"name\":\"brand\",\"value\":\"{}\"}}]", long_value);
    let vec = Strings::parse(&json).unwrap();
    assert!(!Strings::validate_data(vec));
}

#[test]
fn fail_fast_first_invalid_settles_outcome() {
    // The record after the first invalid one cannot flip the outcome,
    // whether it is valid or invalid itself.
    let json_invalid_then_valid = "[{\"name\":\"\",\"value\":\"x\"},{\"name\":\"ok\",\"value\":\"fine\"}]";
    let vec = Strings::parse(json_invalid_then_valid).unwrap();
    assert!(!Strings::validate_data(vec));

    let json_invalid_then_invalid = "[{\"name\":\"\",\"value\":\"x\"},{\"name\":\"\",\"value\":\"\"}]";
    let vec = Strings::parse(json_invalid_then_invalid).unwrap();
    assert!(!Strings::validate_data(vec));
}

#[test]
fn describe_matches_display_shape() {
    let c = Colors::new("brand".to_string(), "#FF00FF".to_string());
    assert_eq!(c.describe(), "struct Colors - (name=\"brand\", value=\"#FF00FF\")");
    let s = Strings::new("host".to_string(), "localhost".to_string());
    assert_eq!(s.describe(), "struct Strings - (name=\"host\", value=\"localhost\")");
}

#[test]
fn record_accessors() {
    let c = Colors::new("brand".to_string(), "#0f0".to_string());
    assert_eq!(c.name(), "brand");
    assert_eq!(c.value(), "#0f0");
    let s = Strings::new("a".to_string(), "b".to_string());
    assert_eq!(s.name(), "a");
    assert_eq!(s.value(), "b");
}
