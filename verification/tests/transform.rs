use catapult::parse_record;
use catapult::record_to_string;
use catapult::transform;
use catapult::JVal;
use catapult::TransformError;

const NOW: &str = "2015-05-21T10:11:02.132Z";

fn key(s: &str) -> Vec<char> {
    s.chars().collect()
}

#[test]
fn it_transform_ok() {
    let src = r#"{"level":30, "msg":"this is a test.", "time": "12"}"#;
    let decode = parse_record(src).unwrap();
    let transformed = transform(decode, NOW).unwrap();
    let out = record_to_string(&transformed);
    assert_eq!(
        out,
        r#"{"@timestamp":"12","level":"info","message":"this is a test."}"#
    );
}

#[test]
fn it_prepares_index_name() {
    let src = r#"{"time": "2015-05-21T10:11:02.132Z"}"#;
    let decode = parse_record(src).unwrap();
    match decode.get(&key("time")) {
        Some(JVal::Str(time)) => {
            let t: String = time.iter().collect();
            assert_eq!("logstash-2015.05.21", catapult::time_to_index_name(&t));
        }
        _ => assert!(false),
    }
}

#[test]
fn time_value_is_copied_verbatim_and_removed() {
    let rec = parse_record(r#"{"time":7,"other":true}"#).unwrap();
    let out = transform(rec, NOW).unwrap();
    assert!(out.get(&key("time")).is_none());
    match out.get(&key("@timestamp")) {
        Some(JVal::Num { neg, mag }) => {
            assert!(!neg);
            assert_eq!(*mag, 7);
        }
        _ => panic!("@timestamp must hold the old time value"),
    }
    match out.get(&key("other")) {
        Some(JVal::Bool(b)) => assert!(*b),
        _ => panic!("unknown keys must pass through"),
    }
}

#[test]
fn missing_time_gets_current_timestamp() {
    let rec = parse_record(r#"{"msg":"hi"}"#).unwrap();
    let out = transform(rec, NOW).unwrap();
    match out.get(&key("@timestamp")) {
        Some(JVal::Str(v)) => {
            let s: String = v.iter().collect();
            assert_eq!(s, NOW);
        }
        _ => panic!("@timestamp must be the provided instant"),
    }
}

#[test]
fn stamped_records_get_a_day_partitioned_index() {
    // A record without `time` is stamped with the current instant, whose
    // date portion must produce a well-formed index name.
    let req = catapult::process_line(r#"{"msg":"x"}"#, "h", 1).unwrap();
    let prefix = "http://h:1/logstash-";
    assert!(req.url.starts_with(prefix));
    let rest = &req.url[prefix.len()..];
    let date = &rest[..10];
    let b = date.as_bytes();
    for (i, c) in b.iter().enumerate() {
        match i {
            4 | 7 => assert_eq!(*c, b'.'),
            _ => assert!(c.is_ascii_digit()),
        }
    }
}

#[test]
fn known_levels_are_named() {
    let cases = [
        (10, "trace"),
        (20, "debug"),
        (30, "info"),
        (40, "warn"),
        (50, "error"),
        (60, "fatal"),
    ];
    for (n, name) in cases {
        assert_eq!(catapult::int_to_level(n), name);
        let rec = parse_record(&format!(r#"{{"level":{}}}"#, n)).unwrap();
        let out = transform(rec, NOW).unwrap();
        match out.get(&key("level")) {
            Some(JVal::Str(v)) => {
                let s: String = v.iter().collect();
                assert_eq!(s, name);
            }
            _ => panic!("level must be replaced by its name"),
        }
    }
}

#[test]
fn unknown_level_names_itself() {
    assert_eq!(catapult::int_to_level(15), "Unknown level 15");
    assert_eq!(catapult::int_to_level(0), "Unknown level 0");
    let rec = parse_record(r#"{"level":15}"#).unwrap();
    let out = transform(rec, NOW).unwrap();
    match out.get(&key("level")) {
        Some(JVal::Str(v)) => {
            let s: String = v.iter().collect();
            assert_eq!(s, "Unknown level 15");
        }
        _ => panic!("level must be replaced by its name"),
    }
}

#[test]
fn msg_moves_to_message() {
    let rec = parse_record(r#"{"msg":"hello"}"#).unwrap();
    let out = transform(rec, NOW).unwrap();
    assert!(out.get(&key("msg")).is_none());
    match out.get(&key("message")) {
        Some(JVal::Str(v)) => {
            let s: String = v.iter().collect();
            assert_eq!(s, "hello");
        }
        _ => panic!("message must hold the old msg value"),
    }
}

#[test]
fn non_numeric_level_fails_the_line() {
    let rec = parse_record(r#"{"level":"thirty"}"#).unwrap();
    assert_eq!(
        transform(rec, NOW).unwrap_err(),
        TransformError::LevelNotUnsigned
    );
    let rec = parse_record(r#"{"level":-30}"#).unwrap();
    assert_eq!(
        transform(rec, NOW).unwrap_err(),
        TransformError::LevelNotUnsigned
    );
}

#[test]
fn fractional_values_pass_through_the_transform() {
    let rec = parse_record(r#"{"latency":1.5,"level":30,"time":"12"}"#).unwrap();
    let out = transform(rec, NOW).unwrap();
    assert_eq!(
        record_to_string(&out),
        r#"{"@timestamp":"12","latency":1.5,"level":"info"}"#
    );
}

#[test]
fn index_name_replaces_date_separators() {
    assert_eq!(
        catapult::time_to_index_name("2015-05-21T10:11:02.132Z"),
        "logstash-2015.05.21"
    );
    assert_eq!(
        catapult::time_to_index_name("1999-12-31"),
        "logstash-1999.12.31"
    );
}
