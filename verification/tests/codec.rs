use catapult::parse_record;
use catapult::record_to_string;
use catapult::DecodeError;
use catapult::JVal;

fn key(s: &str) -> Vec<char> {
    s.chars().collect()
}

#[test]
fn round_trips_a_nested_record_in_sorted_key_order() {
    let src = r#" { "b" : {"y": -2, "x": [1, true, null, "a\nb"]} , "a" : "z\"q" } "#;
    let rec = parse_record(src).unwrap();
    let out = record_to_string(&rec);
    assert_eq!(out, r#"{"a":"z\"q","b":{"x":[1,true,null,"a\nb"],"y":-2}}"#);
    let again = parse_record(&out).unwrap();
    assert_eq!(record_to_string(&again), out);
}

#[test]
fn later_duplicate_keys_win() {
    let rec = parse_record(r#"{"a":1,"a":2}"#).unwrap();
    assert_eq!(record_to_string(&rec), r#"{"a":2}"#);
}

#[test]
fn unicode_escapes_decode() {
    let rec = parse_record(r#"{"a":"\u0041\t\u00e9"}"#).unwrap();
    match rec.get(&key("a")) {
        Some(JVal::Str(v)) => {
            let s: String = v.iter().collect();
            assert_eq!(s, "A\t\u{e9}");
        }
        _ => panic!("a must be a string"),
    }
    // a lone surrogate escape is not a character
    assert_eq!(
        parse_record(r#"{"a":"\ud800"}"#).unwrap_err(),
        DecodeError::Syntax
    );
}

#[test]
fn malformed_lines_are_syntax_errors() {
    assert_eq!(parse_record("not json").unwrap_err(), DecodeError::Syntax);
    assert_eq!(parse_record(r#"{"a":}"#).unwrap_err(), DecodeError::Syntax);
    assert_eq!(parse_record(r#"{"a":1"#).unwrap_err(), DecodeError::Syntax);
    assert_eq!(parse_record(r#"{"a":01}"#).unwrap_err(), DecodeError::Syntax);
    assert_eq!(parse_record(r#"{"a":1.}"#).unwrap_err(), DecodeError::Syntax);
    assert_eq!(parse_record(r#"{"a":1e}"#).unwrap_err(), DecodeError::Syntax);
    assert_eq!(parse_record(r#"{"a":1} x"#).unwrap_err(), DecodeError::Syntax);
}

#[test]
fn non_objects_are_rejected() {
    assert_eq!(parse_record("[1,2]").unwrap_err(), DecodeError::NotAnObject);
    assert_eq!(parse_record("42").unwrap_err(), DecodeError::NotAnObject);
    assert_eq!(parse_record("\"x\"").unwrap_err(), DecodeError::NotAnObject);
}

#[test]
fn empty_object_round_trips() {
    let rec = parse_record("{ }").unwrap();
    assert_eq!(record_to_string(&rec), "{}");
}

#[test]
fn non_integer_numbers_pass_through_verbatim() {
    let src = r#"{"a":1.5,"b":-2.25e+10,"c":99999999999999999999,"d":1E9}"#;
    let rec = parse_record(src).unwrap();
    assert_eq!(record_to_string(&rec), src);
}
