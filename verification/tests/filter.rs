use logentry::entry::{LogEntry, LogLevel};
use logentry::filter::{Contains, MinLevel, Predicate};

fn entry(level: LogLevel, message: &str) -> LogEntry {
    LogEntry::new("ts".to_string(), level, message.to_string())
}

#[test]
fn min_level_keeps_equal_and_above() {
    let err = entry(LogLevel::Error, "boom");
    assert!(MinLevel(LogLevel::Error).keep(&err));
    assert!(MinLevel(LogLevel::Warning).keep(&err));
    assert!(!MinLevel(LogLevel::Fatal).keep(&err));
}

#[test]
fn min_level_unknown_is_lowest() {
    let unknown = entry(LogLevel::Unknown, "?");
    assert!(!MinLevel(LogLevel::Debug).keep(&unknown));
    assert!(MinLevel(LogLevel::Unknown).keep(&unknown));
}

#[test]
fn contains_finds_substring() {
    let e = entry(LogLevel::Info, "user 42 logged in");
    assert!(Contains("logged".to_string()).keep(&e));
    assert!(Contains("42".to_string()).keep(&e));
    assert!(!Contains("timeout".to_string()).keep(&e));
}

#[test]
fn contains_is_case_sensitive() {
    let e = entry(LogLevel::Info, "Timeout");
    assert!(Contains("Timeout".to_string()).keep(&e));
    assert!(!Contains("timeout".to_string()).keep(&e));
}

#[test]
fn closure_is_a_predicate() {
    let e = entry(LogLevel::Fatal, "x");
    let only_fatal = |e: &LogEntry| e.level() == LogLevel::Fatal;
    assert!(only_fatal.keep(&e));
    assert!(!only_fatal.keep(&entry(LogLevel::Info, "x")));
}

#[test]
fn contains_edge_cases() {
    let e = entry(LogLevel::Info, "abcabd");
    assert!(Contains(String::new()).keep(&e));
    assert!(Contains("abd".to_string()).keep(&e));
    assert!(Contains("abcabd".to_string()).keep(&e));
    assert!(!Contains("abcabdx".to_string()).keep(&e));
    assert!(!Contains("abdc".to_string()).keep(&e));
    let empty = entry(LogLevel::Info, "");
    assert!(Contains(String::new()).keep(&empty));
    assert!(!Contains("a".to_string()).keep(&empty));
    let wide = entry(LogLevel::Info, "d\u{e9}j\u{e0} vu");
    assert!(Contains("\u{e0} v".to_string()).keep(&wide));
}

#[test]
fn contains_agrees_with_str_contains() {
    let hays = ["", "a", "aa", "aab", "abab", "ba", "x:y z", "\u{3b1}\u{3b2}\u{3b1}"];
    let needles = ["", "a", "ab", "ba", "aa", "b", "abab", ":y", "\u{3b2}\u{3b1}", "z "];
    for h in hays {
        for n in needles {
            let e = entry(LogLevel::Debug, h);
            assert_eq!(Contains(n.to_string()).keep(&e), h.contains(n), "{h:?} {n:?}");
        }
    }
}
