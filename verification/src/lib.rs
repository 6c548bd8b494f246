//! Parsing, filtering and summarising of log lines, and a few small
//! geometric helpers.
pub mod aggregator;
pub mod app;
pub mod entry;
pub mod filter;
pub mod parser;
pub mod rectangle;
pub mod text;

use vstd::prelude::*;

use crate::text::{chars_of, find_char, trim, trimmed_part};

verus! {

/// One log record of the form `LEVEL: message`, both parts kept as text.
#[derive(Debug, Clone, PartialEq, Eq)]
pub struct LogEntry {
    pub level: String,
    pub message: String,
}

impl LogEntry {
    /// Splits a line of the form `LEVEL: message` at its first `':'` and
    /// trims both parts; `None` when the line has no `':'`.
    pub fn parse(line: &str) -> (r: Option<LogEntry>)
        ensures
            r is Some <==> line@.contains(':'),
            r matches Some(entry) ==> forall|i: int|
                0 <= i < line@.len() && line@[i] == ':' && (forall|l: int|
                    0 <= l < i ==> #[trigger] line@[l] != ':') ==> {
                    &&& entry.level@ == trim(line@.subrange(0, i))
                    &&& entry.message@ == trim(line@.subrange(i + 1, line@.len() as int))
                },
    {
        let v = chars_of(line);
        match find_char(&v, 0, ':') {
            None => {
                assert(!line@.contains(':')) by {
                    if line@.contains(':') {
                        let k = choose|k: int| 0 <= k < line@.len() && line@[k] == ':';
                        assert(v@[k] == ':');
                    }
                }
                None
            },
            Some(i) => {
                let level = trimmed_part(line, &v, 0, i);
                let message = trimmed_part(line, &v, i + 1, v.len());
                let entry = LogEntry { level, message };
                proof {
                    assert(line@[i as int] == ':');
                    assert forall|i2: int|
                        0 <= i2 < line@.len() && line@[i2] == ':' && (forall|l: int|
                            0 <= l < i2 ==> #[trigger] line@[l] != ':') implies {
                        &&& entry.level@ == trim(line@.subrange(0, i2))
                        &&& entry.message@ == trim(line@.subrange(i2 + 1, line@.len() as int))
                    } by {
                        if i2 < i {
                            assert(v@[i2] == ':');
                        } else if i2 > i {
                            assert(line@[i as int] != ':');
                        }
                    }
                }
                Some(entry)
            },
        }
    }
}

} // verus!
