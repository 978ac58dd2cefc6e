use catapult::process_line;
use catapult::producer_step;
use catapult::consumer_step;
use catapult::Config;
use catapult::ConfigurableFilter;
use catapult::ConsumerAction;
use catapult::Elasticsearch;
use catapult::FieldKind;
use catapult::ProducerAction;
use catapult::Random;
use catapult::RecvOutcome;
use catapult::SendOutcome;
use catapult::StartError;

fn config_of(pairs: &[(&str, &str)]) -> Config {
    let mut c = Config::new();
    for (k, v) in pairs {
        c.add(k.to_string(), v.to_string());
    }
    c
}

#[test]
fn missing_mandatory_field_fails_before_start() {
    let random = Random::new("random".to_string());
    let cfg = config_of(&[("fieldlist", "id:u32")]);
    let err = random.start_plan(&Some(cfg)).unwrap_err();
    assert_eq!(err.processor, "random");
    assert_eq!(err.missing, vec!["rate".to_string()]);
}

#[test]
fn absent_configuration_fails_before_start() {
    let random = Random::new("random".to_string());
    let err = random.start_plan(&None).unwrap_err();
    assert_eq!(err.processor, "random");
    assert_eq!(
        err.missing,
        vec!["fieldlist".to_string(), "rate".to_string()]
    );
}

#[test]
fn valid_configuration_starts_the_random_input() {
    let random = Random::new("random".to_string());
    let cfg = config_of(&[("fieldlist", "id:u32,content:str"), ("rate", "3")]);
    let plan = random.start_plan(&Some(cfg)).unwrap();
    assert_eq!(plan.fields, vec![FieldKind::U32, FieldKind::Text]);
    assert_eq!(plan.rate, "3");
}

#[test]
fn typeize_picks_the_declared_generator() {
    assert_eq!(catapult::typeize("id:u32"), FieldKind::U32);
    assert_eq!(catapult::typeize("content:str"), FieldKind::Text);
    assert_eq!(catapult::typeize("plain"), FieldKind::Text);
    assert_eq!(catapult::typeize("a:u32:extra"), FieldKind::U32);
    assert_eq!(catapult::typeize("a:"), FieldKind::Text);
}

#[test]
fn parse_fieldlist_keeps_declared_order() {
    assert_eq!(
        catapult::parse_fieldlist("a:str,b:u32,c"),
        vec![FieldKind::Text, FieldKind::U32, FieldKind::Text]
    );
}

#[test]
fn produced_lines_have_one_value_per_field() {
    let fields = vec![FieldKind::U32, FieldKind::Text];
    let line = catapult::produce_line(&fields);
    let parts: Vec<&str> = line.split('\t').collect();
    assert_eq!(parts.len(), 2);
    parts[0].parse::<u32>().expect("first value must be numeric");
    assert_eq!(parts[1].len(), 10);
    assert!(parts[1].chars().all(|c| c.is_ascii_alphanumeric()));
}

#[test]
fn elasticsearch_plan_reads_destination_and_port() {
    let es = Elasticsearch::new("elasticsearch".to_string());
    let cfg = config_of(&[("destination", "localhost"), ("port", "9200")]);
    let plan = es.start_plan(&Some(cfg)).unwrap();
    assert_eq!(plan.destination, "localhost");
    assert_eq!(plan.port, 9200);
}

#[test]
fn elasticsearch_refuses_a_bad_port() {
    let es = Elasticsearch::new("elasticsearch".to_string());
    let cfg = config_of(&[("destination", "localhost"), ("port", "not-a-port")]);
    assert!(matches!(
        es.start_plan(&Some(cfg)),
        Err(StartError::BadPort)
    ));
    let cfg = config_of(&[("destination", "localhost"), ("port", "99999999999")]);
    assert!(matches!(
        es.start_plan(&Some(cfg)),
        Err(StartError::BadPort)
    ));
    let cfg = config_of(&[("destination", "localhost")]);
    match es.start_plan(&Some(cfg)) {
        Err(StartError::Config(ce)) => {
            assert_eq!(ce.processor, "elasticsearch");
            assert_eq!(ce.missing, vec!["port".to_string()]);
        }
        _ => panic!("a missing option is a configuration error"),
    }
}

#[test]
fn human_names_identify_processors() {
    assert_eq!(Random::new("r1".to_string()).human_name(), "r1");
    assert_eq!(Elasticsearch::new("es".to_string()).human_name(), "es");
    assert_eq!(
        Random::new("r".to_string()).mandatory_fields(),
        vec!["fieldlist", "rate"]
    );
    assert_eq!(
        Elasticsearch::new("e".to_string()).mandatory_fields(),
        vec!["destination", "port"]
    );
}

#[test]
fn parse_u32_reads_only_decimal_ports() {
    assert_eq!(catapult::parse_u32("9200"), Some(9200));
    assert_eq!(catapult::parse_u32("0"), Some(0));
    assert_eq!(catapult::parse_u32(""), None);
    assert_eq!(catapult::parse_u32("12x"), None);
    assert_eq!(catapult::parse_u32("4294967295"), Some(u32::MAX));
    assert_eq!(catapult::parse_u32("4294967296"), None);
}

#[test]
fn process_line_builds_the_indexing_request() {
    let line = r#"{"level":30,"msg":"this is a test.","time":"2015-05-21T10:11:02.132Z"}"#;
    let req = process_line(line, "localhost", 9200).unwrap();
    assert_eq!(
        req.url,
        "http://localhost:9200/logstash-2015.05.21/doc?op_type=index"
    );
    assert_eq!(
        req.body,
        r#"{"@timestamp":"2015-05-21T10:11:02.132Z","level":"info","message":"this is a test."}"#
    );
}

#[test]
fn bad_lines_fail_without_a_request() {
    assert!(process_line("nope", "h", 1).is_err());
    assert!(process_line(r#"{"level":"x"}"#, "h", 1).is_err());
    assert!(process_line(r#"{"time":"12"}"#, "h", 1).is_err());
    assert!(process_line(r#"{"time":7}"#, "h", 1).is_err());
}

#[test]
fn build_url_formats_the_endpoint() {
    assert_eq!(
        catapult::build_url("db.example", 80, "logstash-2020.01.02"),
        "http://db.example:80/logstash-2020.01.02/doc?op_type=index"
    );
}

#[test]
fn full_channel_drops_and_reports_the_line() {
    match producer_step(SendOutcome::Full, "line-1".to_string()) {
        ProducerAction::ReportDrop(l) => assert_eq!(l, "line-1"),
        ProducerAction::Proceed => panic!("a full channel must drop the line"),
    }
    match producer_step(SendOutcome::Sent, "line-2".to_string()) {
        ProducerAction::Proceed => {}
        ProducerAction::ReportDrop(_) => panic!("an accepted line is not dropped"),
    }
}

#[test]
fn consumer_exits_exactly_on_closure() {
    match consumer_step(RecvOutcome::Closed) {
        ConsumerAction::Exit => {}
        ConsumerAction::Process(_) => panic!("closure must end the loop"),
    }
    match consumer_step(RecvOutcome::Line("l".to_string())) {
        ConsumerAction::Process(l) => assert_eq!(l, "l"),
        ConsumerAction::Exit => panic!("a line must be processed"),
    }
}

#[test]
fn requires_fields_lists_every_missing_option() {
    let cfg = config_of(&[("rate", "1")]);
    let err =
        catapult::requires_fields("random", &Some(cfg), &vec!["fieldlist", "rate"]).unwrap_err();
    assert_eq!(err.processor, "random");
    assert_eq!(err.missing, vec!["fieldlist".to_string()]);
    let cfg = config_of(&[("rate", "1"), ("fieldlist", "a:str")]);
    assert!(catapult::requires_fields("random", &Some(cfg), &vec!["fieldlist", "rate"]).is_ok());
}
