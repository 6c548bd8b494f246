//! Parsing of log lines: `timestamp:LEVEL:message`.
pub mod format;
pub mod error;

pub use self::error::ParseError;

use vstd::prelude::*;

use crate::entry::{level_from_text, EntryView, LogEntry, LogLevel};
use crate::text::{chars_of, find_char, lemma_trim_idempotent, trim, trimmed_part};

verus! {

/// `i` and `j` are the first and the second `':'` of `s`.
pub open spec fn colon_pair(s: Seq<char>, i: int, j: int) -> bool {
    &&& 0 <= i < j < s.len()
    &&& s[i] == ':'
    &&& s[j] == ':'
    &&& forall|l: int| 0 <= l < j && l != i ==> #[trigger] s[l] != ':'
}

/// The entry that splitting at the colons `i` and `j` gives: the trimmed
/// text before `i`, the level named between them, the trimmed text after `j`.
pub open spec fn split_entry(s: Seq<char>, i: int, j: int) -> EntryView {
    EntryView {
        timestamp: trim(s.subrange(0, i)),
        level: level_from_text(trim(s.subrange(i + 1, j))),
        message: trim(s.subrange(j + 1, s.len() as int)),
    }
}

/// The level of a split line is what `LogLevel::from` gives for the text
/// between the two colons, untrimmed: the same trimming and upper-casing.
pub proof fn lemma_split_level_is_from(s: Seq<char>, i: int, j: int)
    requires
        colon_pair(s, i, j),
    ensures
        split_entry(s, i, j).level == level_from_text(s.subrange(i + 1, j)),
        split_entry(s, i, j).timestamp == trim(s.subrange(0, i)),
        split_entry(s, i, j).message == trim(s.subrange(j + 1, s.len() as int)),
{
    lemma_trim_idempotent(s.subrange(i + 1, j));
}

/// Parses `timestamp:LEVEL:message` by splitting at the first two `':'`;
/// further `':'` stay in the message. `None` when the line has fewer than
/// two `':'`.
pub fn parse(line: &str) -> (r: Option<LogEntry>)
    ensures
        r is Some <==> exists|i: int, j: int| #[trigger] colon_pair(line@, i, j),
        r matches Some(entry) ==> forall|i: int, j: int|
            #[trigger] colon_pair(line@, i, j) ==> entry@ == split_entry(line@, i, j),
{
    let v = chars_of(line);
    let i = match find_char(&v, 0, ':') {
        Some(i) => i,
        None => {
            assert forall|i: int, j: int| !#[trigger] colon_pair(line@, i, j) by {
                if colon_pair(line@, i, j) {
                    assert(v@[i] == ':');
                }
            }
            return None;
        },
    };
    let j = match find_char(&v, i + 1, ':') {
        Some(j) => j,
        None => {
            assert forall|i2: int, j2: int| !#[trigger] colon_pair(line@, i2, j2) by {
                if colon_pair(line@, i2, j2) {
                    if i2 < i {
                        assert(v@[i2] == ':');
                    } else if i2 > i {
                        assert(v@[i as int] == ':');
                    } else {
                        assert(v@[j2] == ':');
                    }
                }
            }
            return None;
        },
    };
    assert(colon_pair(line@, i as int, j as int));
    let timestamp = trimmed_part(line, &v, 0, i);
    let level_text = trimmed_part(line, &v, i + 1, j);
    let message = trimmed_part(line, &v, j + 1, v.len());
    let level = LogLevel::from(level_text.as_str());
    let entry = LogEntry::new(timestamp, level, message);
    proof {
        assert forall|i2: int, j2: int| #[trigger] colon_pair(line@, i2, j2) implies entry@
            == split_entry(line@, i2, j2) by {
            if i2 != i {
                if i2 < i {
                    assert(v@[i2] == ':');
                } else {
                    assert(v@[i as int] == ':');
                }
            }
            if j2 != j {
                if j2 < j {
                    assert(v@[j2] == ':');
                } else {
                    assert(v@[j as int] == ':');
                }
            }
        }
    }
    Some(entry)
}

} // verus!
