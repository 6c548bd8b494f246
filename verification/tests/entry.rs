use logentry::entry::{LogEntry, LogLevel};

#[test]
fn log_level_canonical_names() {
    assert_eq!(LogLevel::from("DEBUG"), LogLevel::Debug);
    assert_eq!(LogLevel::from("INFO"), LogLevel::Info);
    assert_eq!(LogLevel::from("WARNING"), LogLevel::Warning);
    assert_eq!(LogLevel::from("ERROR"), LogLevel::Error);
    assert_eq!(LogLevel::from("FATAL"), LogLevel::Fatal);
}

#[test]
fn log_level_aliases() {
    assert_eq!(LogLevel::from("WARN"), LogLevel::Warning);
    assert_eq!(LogLevel::from("ERR"), LogLevel::Error);
}

#[test]
fn log_level_case_insensitive() {
    assert_eq!(LogLevel::from("info"), LogLevel::Info);
    assert_eq!(LogLevel::from("Error"), LogLevel::Error);
    assert_eq!(LogLevel::from("wArN"), LogLevel::Warning);
}

#[test]
fn log_level_trims_whitespace() {
    assert_eq!(LogLevel::from("  info  "), LogLevel::Info);
}

#[test]
fn log_level_unrecognized_is_unknown() {
    assert_eq!(LogLevel::from("xyz"), LogLevel::Unknown);
    assert_eq!(LogLevel::from(""), LogLevel::Unknown);
}

#[test]
fn log_level_ordered_by_severity() {
    assert!(LogLevel::Debug < LogLevel::Info);
    assert!(LogLevel::Info < LogLevel::Warning);
    assert!(LogLevel::Warning < LogLevel::Error);
    assert!(LogLevel::Error < LogLevel::Fatal);
}

#[test]
fn log_level_unknown_is_minimum() {
    assert!(LogLevel::Unknown < LogLevel::Debug);
    assert!(LogLevel::Unknown < LogLevel::Fatal);
}

#[test]
fn log_level_fatal_is_maximum() {
    let mut levels = [
        LogLevel::Error,
        LogLevel::Debug,
        LogLevel::Fatal,
        LogLevel::Info,
    ];
    levels.sort();
    assert_eq!(levels.last(), Some(&LogLevel::Fatal));
    assert_eq!(levels.first(), Some(&LogLevel::Debug));
}

const ALL: [LogLevel; 6] = [
    LogLevel::Unknown,
    LogLevel::Debug,
    LogLevel::Info,
    LogLevel::Warning,
    LogLevel::Error,
    LogLevel::Fatal,
];

#[test]
fn level_name_reads_back() {
    for level in ALL {
        assert_eq!(LogLevel::from(level.as_str()), level);
        assert_eq!(LogLevel::from_upper_name(level.as_str()), level);
    }
    assert_eq!(LogLevel::Warning.as_str(), "WARNING");
    assert_eq!(LogLevel::Unknown.as_str(), "UNKNOWN");
}

#[test]
fn partial_cmp_and_cmp_agree_with_severity() {
    for a in ALL {
        for b in ALL {
            assert_eq!(a.partial_cmp(&b), Some(a.severity().cmp(&b.severity())));
            assert_eq!(a.cmp(&b), a.severity().cmp(&b.severity()));
            assert_eq!(LogLevel::from_severity(a.severity()), a);
        }
    }
}

#[test]
fn upper_name_lookup_is_exact() {
    assert_eq!(LogLevel::from_upper_name("WARN"), LogLevel::Warning);
    assert_eq!(LogLevel::from_upper_name("ERR"), LogLevel::Error);
    assert_eq!(LogLevel::from_upper_name("info"), LogLevel::Unknown);
    assert_eq!(LogLevel::from_upper_name(" INFO"), LogLevel::Unknown);
    assert_eq!(LogLevel::from_upper_name("INFOS"), LogLevel::Unknown);
}

#[test]
fn from_uses_unicode_upper_case() {
    // `to_uppercase` maps the dotless i to `I`.
    assert_eq!(LogLevel::from("\u{131}nfo"), LogLevel::Info);
    assert_eq!(LogLevel::from("\u{3000}fatal\t"), LogLevel::Fatal);
}

#[test]
fn entry_accessors_return_parts() {
    let e = LogEntry::new("ts".to_string(), LogLevel::Error, "msg".to_string());
    assert_eq!(e.timestamp(), "ts");
    assert_eq!(e.level(), LogLevel::Error);
    assert_eq!(e.message(), "msg");
}
