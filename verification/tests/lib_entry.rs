use logentry::LogEntry;

#[test]
fn lib_parse_valid_line() {
    let entry = LogEntry::parse("INFO: started").unwrap();
    assert_eq!(entry.level, "INFO");
    assert_eq!(entry.message, "started");
}

#[test]
fn parse_invalid_line() {
    assert_eq!(LogEntry::parse("no separator"), None);
}

#[test]
fn lib_parse_splits_at_first_colon() {
    let entry = LogEntry::parse("  WARN :a: b ").unwrap();
    assert_eq!(entry.level, "WARN");
    assert_eq!(entry.message, "a: b");
    let entry = LogEntry::parse(":").unwrap();
    assert_eq!(entry.level, "");
    assert_eq!(entry.message, "");
}
