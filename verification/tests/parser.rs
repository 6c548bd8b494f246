use logentry::entry::LogLevel;
use logentry::parser::parse;

#[test]
fn parser_parse_valid_line() {
    let entry = parse("2026-06-07:INFO:started").unwrap();
    assert_eq!(entry.timestamp(), "2026-06-07");
    assert_eq!(entry.level(), LogLevel::Info);
    assert_eq!(entry.message(), "started");
}

#[test]
fn parser_message_keeps_inner_colons() {
    let entry = parse("ts:WARN:user:42 logged in").unwrap();
    assert_eq!(entry.message(), "user:42 logged in");
    assert_eq!(entry.level(), LogLevel::Warning);
}

#[test]
fn parser_trims_whitespace() {
    let entry = parse(" ts : INFO : hello ").unwrap();
    assert_eq!(entry.timestamp(), "ts");
    assert_eq!(entry.level(), LogLevel::Info);
    assert_eq!(entry.message(), "hello");
}

#[test]
fn parser_too_few_parts_is_none() {
    assert_eq!(parse("ts:INFO"), None);
    assert_eq!(parse("just-text"), None);
}

#[test]
fn parser_unknown_level_and_empty_parts() {
    let entry = parse("::").unwrap();
    assert_eq!(entry.timestamp(), "");
    assert_eq!(entry.level(), LogLevel::Unknown);
    assert_eq!(entry.message(), "");
    let entry = parse("2026-06-07T12:00:00:INFO:msg").unwrap();
    assert_eq!(entry.timestamp(), "2026-06-07T12");
    assert_eq!(entry.level(), LogLevel::Unknown);
    assert_eq!(entry.message(), "00:INFO:msg");
}
