use logentry::aggregator::Summary;
use logentry::entry::{LogEntry, LogLevel};

#[test]
fn summary_count_check() {
    let mut smry = Summary::default();

    // Empty
    assert_eq!(smry.total(), 0);
    assert_eq!(smry.iter().len(), 0);

    // Add One new
    let entry = LogEntry::new(
        "2026-06-13".to_string(),
        LogLevel::Info,
        "some log message".to_string(),
    );

    smry.count(&entry);
    assert_eq!(smry.total(), 1);
    assert_eq!(smry.total_by_level(LogLevel::Info), 1);
    assert_eq!(smry.total_by_level(LogLevel::Debug), 0);

    // Add same
    smry.count(&entry);
    assert_eq!(smry.total(), 2);
    assert_eq!(smry.total_by_level(LogLevel::Info), 2);
    assert_eq!(smry.total_by_level(LogLevel::Debug), 0);
}

/// Builds a Summary from a slice of levels (timestamp/message irrelevant here).
fn summary_of(levels: &[LogLevel]) -> Summary {
    let mut smry = Summary::default();
    for &level in levels {
        let entry = LogEntry::new("t".to_string(), level, "m".to_string());
        smry.count(&entry);
    }
    smry
}

#[test]
fn empty_summary_is_zero() {
    let smry = Summary::default();
    assert_eq!(smry.total(), 0);
    assert_eq!(smry.iter().len(), 0);
    assert_eq!(smry.total_by_level(LogLevel::Error), 0);
}

#[test]
fn mixed_levels_counted() {
    let smry = summary_of(&[
        LogLevel::Info,
        LogLevel::Error,
        LogLevel::Info,
        LogLevel::Unknown,
    ]);

    assert_eq!(smry.total(), 4);
    assert_eq!(smry.total_by_level(LogLevel::Info), 2);
    assert_eq!(smry.total_by_level(LogLevel::Error), 1);
    assert_eq!(smry.total_by_level(LogLevel::Unknown), 1);
    assert_eq!(smry.total_by_level(LogLevel::Debug), 0);
}

#[test]
fn levels_iter_sorted_by_severity() {
    let smry = summary_of(&[LogLevel::Fatal, LogLevel::Debug, LogLevel::Info]);

    let order: Vec<LogLevel> = smry.iter().into_iter().map(|(level, _)| level).collect();
    assert_eq!(
        order,
        vec![LogLevel::Debug, LogLevel::Info, LogLevel::Fatal]
    );
}

#[test]
fn iter_pairs_levels_with_counts() {
    let smry = summary_of(&[
        LogLevel::Error,
        LogLevel::Unknown,
        LogLevel::Error,
        LogLevel::Warning,
        LogLevel::Error,
    ]);
    assert_eq!(
        smry.iter(),
        vec![
            (LogLevel::Unknown, 1),
            (LogLevel::Warning, 1),
            (LogLevel::Error, 3)
        ]
    );
    let sum: usize = smry.iter().iter().map(|(_, n)| *n).sum();
    assert_eq!(sum, smry.total());
}

#[test]
fn counting_order_does_not_matter() {
    let a = summary_of(&[LogLevel::Fatal, LogLevel::Info, LogLevel::Fatal]);
    let b = summary_of(&[LogLevel::Info, LogLevel::Fatal, LogLevel::Fatal]);
    assert_eq!(a.iter(), b.iter());
    assert_eq!(a.total(), b.total());
}
