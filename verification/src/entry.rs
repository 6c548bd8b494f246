//! Log levels and parsed log entries.
use vstd::prelude::*;
use vstd::std_specs::cmp::PartialOrdSpecImpl;
use vstd::std_specs::convert::FromSpecImpl;
use std::cmp::Ordering;

use crate::text::{chars_eq, chars_of, to_uppercase, trim, trim_str, unicode_upper};

verus! {

/// The level of a log entry. The variants are declared from the least to
/// the most severe, so the derived `Ord` orders them by severity.
#[derive(Clone, Copy, Debug, PartialEq, Eq, Structural, Ord)]
pub enum LogLevel {
    Unknown,
    Debug,
    Info,
    Warning,
    Error,
    Fatal,
}

/// The rank of a level: `UNKNOWN < DEBUG < INFO < WARNING < ERROR < FATAL`.
pub open spec fn severity_of(level: LogLevel) -> u8 {
    match level {
        LogLevel::Unknown => 0,
        LogLevel::Debug => 1,
        LogLevel::Info => 2,
        LogLevel::Warning => 3,
        LogLevel::Error => 4,
        LogLevel::Fatal => 5,
    }
}

/// The level whose rank is `s` (ranks above the highest give `Fatal`).
pub open spec fn level_of_severity(s: u8) -> LogLevel {
    if s == 0 {
        LogLevel::Unknown
    } else if s == 1 {
        LogLevel::Debug
    } else if s == 2 {
        LogLevel::Info
    } else if s == 3 {
        LogLevel::Warning
    } else if s == 4 {
        LogLevel::Error
    } else {
        LogLevel::Fatal
    }
}

/// The canonical upper-case name of a level.
pub open spec fn level_name(level: LogLevel) -> Seq<char> {
    match level {
        LogLevel::Unknown => seq!['U', 'N', 'K', 'N', 'O', 'W', 'N'],
        LogLevel::Debug => seq!['D', 'E', 'B', 'U', 'G'],
        LogLevel::Info => seq!['I', 'N', 'F', 'O'],
        LogLevel::Warning => seq!['W', 'A', 'R', 'N', 'I', 'N', 'G'],
        LogLevel::Error => seq!['E', 'R', 'R', 'O', 'R'],
        LogLevel::Fatal => seq!['F', 'A', 'T', 'A', 'L'],
    }
}

/// The level that an already upper-cased, trimmed name denotes: the
/// canonical names, the aliases `WARN` and `ERR`, and `Unknown` for
/// anything else.
pub open spec fn level_of_upper_name(name: Seq<char>) -> LogLevel {
    if name == seq!['D', 'E', 'B', 'U', 'G'] {
        LogLevel::Debug
    } else if name == seq!['I', 'N', 'F', 'O'] {
        LogLevel::Info
    } else if name == seq!['W', 'A', 'R', 'N'] || name == seq!['W', 'A', 'R', 'N', 'I', 'N', 'G'] {
        LogLevel::Warning
    } else if name == seq!['E', 'R', 'R'] || name == seq!['E', 'R', 'R', 'O', 'R'] {
        LogLevel::Error
    } else if name == seq!['F', 'A', 'T', 'A', 'L'] {
        LogLevel::Fatal
    } else {
        LogLevel::Unknown
    }
}

/// The level that `LogLevel::from` gives for the text `s`: trimmed, then
/// upper-cased by `str::to_uppercase`, then looked up.
pub open spec fn level_from_text(s: Seq<char>) -> LogLevel {
    level_of_upper_name(unicode_upper(trim(s)))
}

impl LogLevel {
    /// The rank of this level; higher is more severe.
    pub fn severity(self) -> (r: u8)
        ensures
            r == severity_of(self),
    {
        match self {
            LogLevel::Unknown => 0,
            LogLevel::Debug => 1,
            LogLevel::Info => 2,
            LogLevel::Warning => 3,
            LogLevel::Error => 4,
            LogLevel::Fatal => 5,
        }
    }

    /// The level of rank `s`; ranks above the highest give `Fatal`.
    pub fn from_severity(s: u8) -> (r: LogLevel)
        ensures
            r == level_of_severity(s),
    {
        if s == 0 {
            LogLevel::Unknown
        } else if s == 1 {
            LogLevel::Debug
        } else if s == 2 {
            LogLevel::Info
        } else if s == 3 {
            LogLevel::Warning
        } else if s == 4 {
            LogLevel::Error
        } else {
            LogLevel::Fatal
        }
    }

    /// The canonical upper-case name, as the level is displayed.
    pub fn as_str(self) -> (r: &'static str)
        ensures
            r@ == level_name(self),
    {
        match self {
            LogLevel::Unknown => {
                let r = "UNKNOWN";
                proof {
                    reveal_strlit("UNKNOWN");
                }
                assert(r@ =~= level_name(self));
                r
            },
            LogLevel::Debug => {
                let r = "DEBUG";
                proof {
                    reveal_strlit("DEBUG");
                }
                assert(r@ =~= level_name(self));
                r
            },
            LogLevel::Info => {
                let r = "INFO";
                proof {
                    reveal_strlit("INFO");
                }
                assert(r@ =~= level_name(self));
                r
            },
            LogLevel::Warning => {
                let r = "WARNING";
                proof {
                    reveal_strlit("WARNING");
                }
                assert(r@ =~= level_name(self));
                r
            },
            LogLevel::Error => {
                let r = "ERROR";
                proof {
                    reveal_strlit("ERROR");
                }
                assert(r@ =~= level_name(self));
                r
            },
            LogLevel::Fatal => {
                let r = "FATAL";
                proof {
                    reveal_strlit("FATAL");
                }
                assert(r@ =~= level_name(self));
                r
            },
        }
    }

    /// Looks up an already upper-cased, trimmed name.
    pub fn from_upper_name(name: &str) -> (r: LogLevel)
        ensures
            r == level_of_upper_name(name@),
    {
        let v = chars_of(name);
        if chars_eq(&v, &vec!['D', 'E', 'B', 'U', 'G']) {
            LogLevel::Debug
        } else if chars_eq(&v, &vec!['I', 'N', 'F', 'O']) {
            LogLevel::Info
        } else if chars_eq(&v, &vec!['W', 'A', 'R', 'N']) || chars_eq(
            &v,
            &vec!['W', 'A', 'R', 'N', 'I', 'N', 'G'],
        ) {
            LogLevel::Warning
        } else if chars_eq(&v, &vec!['E', 'R', 'R']) || chars_eq(
            &v,
            &vec!['E', 'R', 'R', 'O', 'R'],
        ) {
            LogLevel::Error
        } else if chars_eq(&v, &vec!['F', 'A', 'T', 'A', 'L']) {
            LogLevel::Fatal
        } else {
            LogLevel::Unknown
        }
    }
}

impl<'a> From<&'a str> for LogLevel {
    /// Trims the text, upper-cases it and looks up the name; an
    /// unrecognised name gives `Unknown`.
    fn from(val: &'a str) -> (r: Self) {
        let t = trim_str(val);
        let u = to_uppercase(t.as_str());
        LogLevel::from_upper_name(u.as_str())
    }
}

impl<'a> FromSpecImpl<&'a str> for LogLevel {
    open spec fn obeys_from_spec() -> bool {
        true
    }

    open spec fn from_spec(v: &'a str) -> Self {
        level_from_text(v@)
    }
}

/// The order of levels: by severity.
pub open spec fn compare_levels(a: LogLevel, b: LogLevel) -> Ordering {
    if severity_of(a) < severity_of(b) {
        Ordering::Less
    } else if severity_of(a) == severity_of(b) {
        Ordering::Equal
    } else {
        Ordering::Greater
    }
}

impl PartialOrd for LogLevel {
    fn partial_cmp(&self, other: &Self) -> (r: Option<Ordering>) {
        let a = self.severity();
        let b = other.severity();
        if a < b {
            Some(Ordering::Less)
        } else if a == b {
            Some(Ordering::Equal)
        } else {
            Some(Ordering::Greater)
        }
    }
}

impl PartialOrdSpecImpl for LogLevel {
    open spec fn obeys_partial_cmp_spec() -> bool {
        true
    }

    open spec fn partial_cmp_spec(&self, other: &Self) -> Option<Ordering> {
        Some(compare_levels(*self, *other))
    }
}

/// The name of a level reads back as that level.
pub proof fn lemma_name_round_trip(level: LogLevel)
    ensures
        level_of_upper_name(level_name(level)) == level,
{
    // Names that start with different letters differ; the only two that
    // share a first letter with another (WARN/WARNING, ERR/ERROR) differ
    // in length from the canonical one they do not equal.
    let n = level_name(level);
    assert(level == LogLevel::Debug ==> n =~= seq!['D', 'E', 'B', 'U', 'G']);
    assert(n[0] != 'D' ==> n != seq!['D', 'E', 'B', 'U', 'G']) by {
        if n == seq!['D', 'E', 'B', 'U', 'G'] {
            assert(n[0] == seq!['D', 'E', 'B', 'U', 'G'][0]);
        }
    }
    assert(n[0] != 'I' ==> n != seq!['I', 'N', 'F', 'O']) by {
        if n == seq!['I', 'N', 'F', 'O'] {
            assert(n[0] == seq!['I', 'N', 'F', 'O'][0]);
        }
    }
    assert(n[0] != 'W' ==> n != seq!['W', 'A', 'R', 'N'] && n != seq!['W', 'A', 'R', 'N', 'I', 'N', 'G']) by {
        if n == seq!['W', 'A', 'R', 'N'] {
            assert(n[0] == seq!['W', 'A', 'R', 'N'][0]);
        }
        if n == seq!['W', 'A', 'R', 'N', 'I', 'N', 'G'] {
            assert(n[0] == seq!['W', 'A', 'R', 'N', 'I', 'N', 'G'][0]);
        }
    }
    assert(n[0] != 'E' ==> n != seq!['E', 'R', 'R'] && n != seq!['E', 'R', 'R', 'O', 'R']) by {
        if n == seq!['E', 'R', 'R'] {
            assert(n[0] == seq!['E', 'R', 'R'][0]);
        }
        if n == seq!['E', 'R', 'R', 'O', 'R'] {
            assert(n[0] == seq!['E', 'R', 'R', 'O', 'R'][0]);
        }
    }
    assert(n[0] != 'F' ==> n != seq!['F', 'A', 'T', 'A', 'L']) by {
        if n == seq!['F', 'A', 'T', 'A', 'L'] {
            assert(n[0] == seq!['F', 'A', 'T', 'A', 'L'][0]);
        }
    }
    if level == LogLevel::Warning {
        assert(n.len() != seq!['W', 'A', 'R', 'N'].len());
    }
    if level == LogLevel::Error {
        assert(n.len() != seq!['E', 'R', 'R'].len());
    }
}

/// The order of levels is a total order that agrees with `==`: `Equal`
/// exactly for the same level, reversing the arguments reverses the
/// answer, and `Less` is transitive.
pub proof fn lemma_level_order(a: LogLevel, b: LogLevel, c: LogLevel)
    ensures
        compare_levels(a, b) == Ordering::Equal <==> a == b,
        compare_levels(a, b) == Ordering::Less <==> compare_levels(b, a) == Ordering::Greater,
        compare_levels(a, b) == Ordering::Less && compare_levels(b, c) == Ordering::Less
            ==> compare_levels(a, c) == Ordering::Less,
{
}

/// `Unknown` is below every other level and `Fatal` above every other.
pub proof fn lemma_level_extremes(level: LogLevel)
    ensures
        level != LogLevel::Unknown ==> compare_levels(LogLevel::Unknown, level) == Ordering::Less,
        level != LogLevel::Fatal ==> compare_levels(level, LogLevel::Fatal) == Ordering::Less,
{
}

/// The abstract content of a log entry.
pub struct EntryView {
    pub timestamp: Seq<char>,
    pub level: LogLevel,
    pub message: Seq<char>,
}

/// One parsed log entry.
#[derive(Debug, Clone, PartialEq, Eq)]
pub struct LogEntry {
    timestamp: String,
    level: LogLevel,
    message: String,
}

impl View for LogEntry {
    type V = EntryView;

    closed spec fn view(&self) -> EntryView {
        EntryView { timestamp: self.timestamp@, level: self.level, message: self.message@ }
    }
}

impl LogEntry {
    pub fn new(timestamp: String, level: LogLevel, message: String) -> (r: Self)
        ensures
            r@ == (EntryView { timestamp: timestamp@, level, message: message@ }),
    {
        Self { timestamp, level, message }
    }

    pub fn timestamp(&self) -> (r: &str)
        ensures
            r@ == self@.timestamp,
    {
        self.timestamp.as_str()
    }

    pub fn level(&self) -> (r: LogLevel)
        ensures
            r == self@.level,
    {
        self.level
    }

    pub fn message(&self) -> (r: &str)
        ensures
            r@ == self@.message,
    {
        self.message.as_str()
    }
}

} // verus!
