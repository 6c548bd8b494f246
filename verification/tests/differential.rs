//! Holds the verified line parser against the `regex` crate running the
//! pattern that defines the format, on many generated lines.
use logentry::entry::LogLevel;
use logentry::parser::format::parse;
use logentry::parser::ParseError;
use regex::Regex;

const PATTERN: &str = r"(?i)^\s*(?P<ts>.+?)\s*[:\s]\s*(?P<level>DEBUG|INFO|WARNING|WARN|ERROR|ERR|FATAL)\s*[:\s]\s*(?P<msg>.+?)\s*$";

fn by_regex(re: &Regex, line: &str) -> Result<(String, LogLevel, String), ParseError> {
    if line.trim().is_empty() {
        return Err(ParseError::Empty);
    }
    match re.captures(line) {
        None => Err(ParseError::BadFormat(line.to_string())),
        Some(caps) => Ok((
            caps["ts"].trim().to_string(),
            LogLevel::from(caps["level"].trim()),
            caps["msg"].trim().to_string(),
        )),
    }
}

fn verified(line: &str) -> Result<(String, LogLevel, String), ParseError> {
    parse(line).map(|e| (e.timestamp().to_string(), e.level(), e.message().to_string()))
}

fn check_all(tokens: &[&str], depth: usize) -> usize {
    let re = Regex::new(PATTERN).unwrap();
    let mut stack: Vec<(String, usize)> = vec![(String::new(), 0)];
    let mut checked = 0;
    while let Some((line, d)) = stack.pop() {
        assert_eq!(verified(&line), by_regex(&re, &line), "line {line:?}");
        checked += 1;
        if d < depth {
            for t in tokens {
                stack.push((format!("{line}{t}"), d + 1));
            }
        }
    }
    checked
}

#[test]
fn agrees_with_regex_on_structured_lines() {
    let tokens = [" ", ":", "ts", "INFO", "warn", "Warning", "err", "ERROR", "x", "\t", "\n"];
    assert!(check_all(&tokens, 5) > 100_000);
}

#[test]
fn agrees_with_regex_on_unicode_and_odd_letters() {
    let tokens = [
        "\u{3000}", ":", "\u{131}nfo", "fatal", "DEBUG", "d\u{e9}bug", "\u{85}", "\u{a0}", "a",
        "FaTaL:",
    ];
    assert!(check_all(&tokens, 5) > 10_000);
}

#[test]
fn agrees_with_regex_on_sample_lines() {
    let re = Regex::new(PATTERN).unwrap();
    let lines = [
        "2026-06-07 12:00:00:INFO:server started",
        "2026-06-07T12:00:01:ERROR:db timeout: connection refused",
        "ts WARN low disk space",
        "garbage line without level",
        "bad",
        "ts:ERROR:",
        "ts:ERROR: ",
        "ts:ERROR:  ",
        ":INFO:x",
        "x:INFO:",
        "a:b:INFO:c:d",
        "INFO INFO INFO",
        "a  ERR  : : b",
        "a ERR :: b",
        "\u{2028}t\u{2029}INFO\u{2028}m\u{2028}",
        "t:INFO:m\r",
        "t\n:INFO:m",
        "   \t  x INFO y  ",
    ];
    for line in lines {
        assert_eq!(verified(line), by_regex(&re, line), "line {line:?}");
    }
}
