//! Drives the pipeline as a user of the library: lines are read the way
//! `BufRead::lines` reads them, then run through `app::run`.
use std::io::BufRead;

use logentry::aggregator::Summary;
use logentry::app::{run, Options};
use logentry::entry::LogLevel;

fn run_text(input: &str, opts: &Options) -> (Summary, String) {
    let lines: Vec<String> = input.as_bytes().lines().map(|l| l.unwrap()).collect();
    let (summary, shown) = run(&lines, opts);
    let mut out = String::new();
    for line in shown {
        out.push_str(&line);
        out.push('\n');
    }
    (summary, out)
}

#[test]
fn end_to_end_parse_filter_summarize() {
    let input = "\
2026-06-07 12:00:00:INFO:started
2026-06-07 12:00:01:ERROR:db timeout
garbage line without level
2026-06-07 12:00:02:WARN:careful
";
    let opts = Options {
        min_level: Some(LogLevel::Warning),
        ..Default::default()
    };
    let (summary, _) = run_text(input, &opts);

    assert_eq!(summary.total(), 2);
    assert_eq!(summary.total_by_level(LogLevel::Error), 1);
    assert_eq!(summary.total_by_level(LogLevel::Warning), 1);
    assert_eq!(summary.total_by_level(LogLevel::Info), 0);
}

#[test]
fn show_outputs_only_kept_lines() {
    let input = "ts:ERROR:boom\nts:INFO:noise\n";
    let opts = Options {
        min_level: Some(LogLevel::Error),
        show: true,
        ..Default::default()
    };
    let (_, printed) = run_text(input, &opts);
    assert!(printed.contains("boom"));
    assert!(!printed.contains("noise"));
}

#[test]
fn default_options_keep_everything_valid() {
    let input = "ts:INFO:a\nts:ERROR:b\nbad\n";
    let (summary, _) = run_text(input, &Options::default());
    assert_eq!(summary.total(), 2);
}

#[test]
fn contains_filters_by_substring() {
    let input = "ts:ERROR:db timeout\nts:ERROR:ok\n";
    let opts = Options {
        contains: Some("timeout".to_string()),
        ..Default::default()
    };
    let (summary, _) = run_text(input, &opts);
    assert_eq!(summary.total(), 1);
}
