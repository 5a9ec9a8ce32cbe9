use ferri_log::errors::RepositoryError;
use ferri_log::record::{ingest_line, map_record, parse_record_line};

fn full_line() -> String {
    r#"{"timestamp":"2023-01-01T00:00:00Z","host":"web1","severity":"err","facility":"cron","syslog_tag":"cron[7]:","source":"sshd","message":"disk full"}"#.to_string()
}

#[test]
fn parses_a_full_record_line() {
    let dto = parse_record_line(&full_line()).expect("line must parse");
    assert_eq!(dto.timestamp, "2023-01-01T00:00:00Z");
    assert_eq!(dto.host, "web1");
    assert_eq!(dto.severity, "err");
    assert_eq!(dto.facility, "cron");
    assert_eq!(dto.syslog_tag, "cron[7]:");
    assert_eq!(dto.source, "sshd");
    assert_eq!(dto.message, "disk full");
}

#[test]
fn parses_whitespace_and_extra_members() {
    let line = "  { \"timestamp\" : \"2023-01-01T00:00:00Z\" , \"host\" : \"h\" , \"severity\" : \"s\" , \"facility\" : \"f\" , \"syslog_tag\" : \"t\" , \"source\" : \"src\" , \"message\" : \"m\" , \"extra\" : \"ignored\" }  ";
    let dto = parse_record_line(line).expect("line must parse");
    assert_eq!(dto.host, "h");
    assert_eq!(dto.message, "m");
}

#[test]
fn decodes_string_escapes() {
    let line = r#"{"timestamp":"2023-01-01T00:00:00Z","host":"a\"b","severity":"x\\y","facility":"l1\nl2","syslog_tag":"tab\there","source":"slash\/ok","message":"Aé bell\b form\f cr\r"}"#;
    let dto = parse_record_line(line).expect("line must parse");
    assert_eq!(dto.host, "a\"b");
    assert_eq!(dto.severity, "x\\y");
    assert_eq!(dto.facility, "l1\nl2");
    assert_eq!(dto.syslog_tag, "tab\there");
    assert_eq!(dto.source, "slash/ok");
    assert_eq!(dto.message, "A\u{e9} bell\u{8} form\u{c} cr\r");
}

#[test]
fn missing_field_is_malformed() {
    let line = r#"{"timestamp":"2023-01-01T00:00:00Z","host":"h","severity":"s","facility":"f","syslog_tag":"t","source":"src"}"#;
    assert_eq!(parse_record_line(line).unwrap_err(), RepositoryError::MalformedRecord);
}

#[test]
fn duplicate_key_is_malformed() {
    let line = r#"{"timestamp":"2023-01-01T00:00:00Z","host":"h","host":"h2","severity":"s","facility":"f","syslog_tag":"t","source":"src","message":"m"}"#;
    assert_eq!(parse_record_line(line).unwrap_err(), RepositoryError::MalformedRecord);
}

#[test]
fn junk_lines_are_malformed() {
    for line in [
        "",
        "not json",
        "{",
        "{}trailing",
        r#"{"host":}"#,
        r#"{"host":"unterminated}"#,
        r#"{"surrogate":"\ud800"}"#,
        "{\"ctl\":\"raw\u{1}ctl\"}",
    ] {
        assert!(parse_record_line(line).is_err(), "accepted: {:?}", line);
    }
}

#[test]
fn empty_object_is_malformed() {
    assert_eq!(parse_record_line("{}").unwrap_err(), RepositoryError::MalformedRecord);
    assert_eq!(parse_record_line(" { } ").unwrap_err(), RepositoryError::MalformedRecord);
}

#[test]
fn maps_a_record_to_an_entry() {
    let dto = parse_record_line(&full_line()).unwrap();
    let entry = map_record(&dto).expect("timestamp is valid");
    assert_eq!(entry.timestamp, 1_672_531_200_000_000i64);
    assert_eq!(entry.host, "web1");
    assert_eq!(entry.severity, "err");
    assert_eq!(entry.facility, "cron");
    assert_eq!(entry.syslog_tag, "cron[7]:");
    assert_eq!(entry.source, "sshd");
    assert_eq!(entry.message, "disk full");
    assert!(entry.id != 0);
}

#[test]
fn keeps_the_parsed_offset_and_fraction() {
    let dto = parse_record_line(&full_line().replace(
        "2023-01-01T00:00:00Z",
        "2023-01-01T01:00:00.5+01:00",
    ))
    .unwrap();
    let entry = map_record(&dto).expect("timestamp is valid");
    assert_eq!(entry.timestamp, 1_672_531_200_500_000i64);
}

#[test]
fn bad_timestamp_is_rejected() {
    let dto = parse_record_line(&full_line().replace("2023-01-01T00:00:00Z", "yesterday")).unwrap();
    assert_eq!(map_record(&dto).unwrap_err(), RepositoryError::InvalidTimestamp);
    let line = full_line().replace("2023-01-01T00:00:00Z", "2023-13-01T00:00:00Z");
    assert_eq!(ingest_line(&line).unwrap_err(), RepositoryError::InvalidTimestamp);
}

#[test]
fn fresh_identities_differ() {
    let dto = parse_record_line(&full_line()).unwrap();
    let a = map_record(&dto).unwrap();
    let b = map_record(&dto).unwrap();
    assert_ne!(a.id, b.id);
}
