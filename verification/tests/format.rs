use logentry::entry::LogLevel;
use logentry::parser::format::parse;
use logentry::parser::ParseError;

#[test]
fn core_parse_valid_line() {
    let entry = parse("2026-06-07 12:00:00:INFO:started").unwrap();
    assert_eq!(entry.timestamp(), "2026-06-07 12:00:00");
    assert_eq!(entry.level(), LogLevel::Info);
    assert_eq!(entry.message(), "started");
}

#[test]
fn core_message_keeps_inner_colons() {
    let entry = parse("ts:WARN:user:42 logged in").unwrap();
    assert_eq!(entry.message(), "user:42 logged in");
    assert_eq!(entry.level(), LogLevel::Warning);
}

#[test]
fn core_trims_whitespace() {
    let entry = parse(" ts : INFO : hello ").unwrap();
    assert_eq!(entry.timestamp(), "ts");
    assert_eq!(entry.level(), LogLevel::Info);
    assert_eq!(entry.message(), "hello");
}

#[test]
fn core_too_few_parts_is_none() {
    assert_eq!(
        parse("ts:INFO"),
        Err(ParseError::BadFormat("ts:INFO".to_string()))
    );
    assert_eq!(
        parse("just-text"),
        Err(ParseError::BadFormat("just-text".to_string()))
    );
}

#[test]
fn empty_or_blank_is_empty_error() {
    assert_eq!(parse(""), Err(ParseError::Empty));
    assert_eq!(parse("   "), Err(ParseError::Empty));
    assert_eq!(parse(" \t \n "), Err(ParseError::Empty));
}

#[test]
fn level_is_case_insensitive() {
    assert_eq!(parse("ts info x").unwrap().level(), LogLevel::Info);
    assert_eq!(parse("ts WaRn x").unwrap().level(), LogLevel::Warning);
    assert_eq!(parse("ts error x").unwrap().level(), LogLevel::Error);
    assert_eq!(parse("ts FaTaL x").unwrap().level(), LogLevel::Fatal);
}

#[test]
fn iso_timestamps_keep_their_colons() {
    let entry = parse("2026-06-07T12:00:01:ERROR:db timeout: connection refused").unwrap();
    assert_eq!(entry.timestamp(), "2026-06-07T12:00:01");
    assert_eq!(entry.level(), LogLevel::Error);
    assert_eq!(entry.message(), "db timeout: connection refused");
}

#[test]
fn space_separated_line() {
    let entry = parse("ts WARN low disk space").unwrap();
    assert_eq!(entry.timestamp(), "ts");
    assert_eq!(entry.level(), LogLevel::Warning);
    assert_eq!(entry.message(), "low disk space");
}

#[test]
fn alternatives_and_aliases() {
    let e = parse("t:ERR:x").unwrap();
    assert_eq!(e.level(), LogLevel::Error);
    let e = parse("t:WARNING:x").unwrap();
    assert_eq!(e.level(), LogLevel::Warning);
    assert_eq!(e.message(), "x");
    let e = parse("t:debug:x").unwrap();
    assert_eq!(e.level(), LogLevel::Debug);
}

#[test]
fn level_must_be_a_whole_word() {
    assert_eq!(
        parse("ts:INFOS:x"),
        Err(ParseError::BadFormat("ts:INFOS:x".to_string()))
    );
    assert_eq!(
        parse("ts:INFO"),
        Err(ParseError::BadFormat("ts:INFO".to_string()))
    );
    let e = parse("ts::INFO::x").unwrap();
    assert_eq!(e.timestamp(), "ts:");
    assert_eq!(e.level(), LogLevel::Info);
    assert_eq!(e.message(), ":x");
}

#[test]
fn newline_breaks_a_line() {
    assert_eq!(
        parse("ts:INFO:a\nb"),
        Err(ParseError::BadFormat("ts:INFO:a\nb".to_string()))
    );
    let e = parse("ts:INFO:ab\n").unwrap();
    assert_eq!(e.message(), "ab");
}

#[test]
fn leading_space_before_level_can_be_the_timestamp() {
    let e = parse("  INFO msg").unwrap();
    assert_eq!(e.timestamp(), "");
    assert_eq!(e.level(), LogLevel::Info);
    assert_eq!(e.message(), "msg");
    assert_eq!(
        parse(" INFO msg"),
        Err(ParseError::BadFormat(" INFO msg".to_string()))
    );
}

#[test]
fn earliest_level_word_is_taken() {
    let e = parse("a INFO b ERROR c").unwrap();
    assert_eq!(e.timestamp(), "a");
    assert_eq!(e.level(), LogLevel::Info);
    assert_eq!(e.message(), "b ERROR c");
}

#[test]
fn error_messages() {
    assert_eq!(ParseError::Empty.to_string(), "parsed string is empty!");
    assert_eq!(
        ParseError::BadFormat("x y".to_string()).to_string(),
        "bad log format: x y"
    );
}
