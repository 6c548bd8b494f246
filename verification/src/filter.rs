//! Predicates that decide which log entries to keep.
use vstd::prelude::*;

use crate::entry::{severity_of, LogEntry, LogLevel};
use crate::text::{contains_seq, str_contains};

verus! {

/// Decides whether an entry is kept.
pub trait Predicate {
    /// Whether `keep` may be asked about `entry`.
    spec fn can_keep(&self, entry: &LogEntry) -> bool;

    /// Whether `entry` is kept.
    fn keep(&self, entry: &LogEntry) -> (r: bool)
        requires
            self.can_keep(entry),
    ;
}

/// Keeps the entries of this level or a more severe one.
pub struct MinLevel(pub LogLevel);

/// Keeps the entries whose message contains this text (case-sensitive).
pub struct Contains(pub String);

impl Predicate for MinLevel {
    open spec fn can_keep(&self, entry: &LogEntry) -> bool {
        true
    }

    fn keep(&self, entry: &LogEntry) -> (r: bool)
        ensures
            r == (severity_of(entry@.level) >= severity_of(self.0)),
    {
        entry.level() >= self.0
    }
}

impl Predicate for Contains {
    open spec fn can_keep(&self, entry: &LogEntry) -> bool {
        true
    }

    fn keep(&self, entry: &LogEntry) -> (r: bool)
        ensures
            r == contains_seq(entry@.message, self.0@),
    {
        str_contains(entry.message(), self.0.as_str())
    }
}

/// Any closure from an entry to `bool` is a predicate.
impl<F: Fn(&LogEntry) -> bool> Predicate for F {
    open spec fn can_keep(&self, entry: &LogEntry) -> bool {
        call_requires(*self, (entry,))
    }

    fn keep(&self, entry: &LogEntry) -> (r: bool)
        ensures
            call_ensures(*self, (entry,), r),
    {
        self(entry)
    }
}

} // verus!
