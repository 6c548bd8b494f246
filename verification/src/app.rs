//! The pipeline: parse each line, keep the entries that pass the filters,
//! count them, and render the kept lines when asked to.
use vstd::prelude::*;

use crate::aggregator::Summary;
use crate::entry::{level_name, severity_of, EntryView, LogEntry, LogLevel};
use crate::filter::{Contains, MinLevel, Predicate};
use crate::parser::format::{parse, parse_outcome};
use crate::text::contains_seq;

verus! {

/// What the pipeline keeps and whether it renders each kept line.
pub struct Options {
    /// Keep only entries of this level or a more severe one.
    pub min_level: Option<LogLevel>,
    /// Keep only entries whose message contains this text.
    pub contains: Option<String>,
    /// Render each kept line, not only count it.
    pub show: bool,
}

impl Default for Options {
    /// No filter, nothing rendered.
    fn default() -> (r: Self)
        ensures
            r.min_level is None,
            r.contains is None,
            !r.show,
    {
        Options { min_level: None, contains: None, show: false }
    }
}

/// An entry passes the filters of `opts`: its level is at least the
/// minimum, and its message contains the text, where these are given.
pub open spec fn passes(opts: &Options, e: EntryView) -> bool {
    &&& match opts.min_level {
        Some(min) => severity_of(e.level) >= severity_of(min),
        None => true,
    }
    &&& match opts.contains {
        Some(needle) => contains_seq(e.message, needle@),
        None => true,
    }
}

/// Without filters every line that parses is kept.
pub proof fn lemma_no_filter_keeps_parsed(opts: &Options, line: Seq<char>)
    requires
        opts.min_level is None,
        opts.contains is None,
    ensures
        line_kept(opts, line) == parse_outcome(line),
{
}

/// `Unknown` is the lowest level: as a minimum it filters nothing out, and
/// an empty text is contained in every message.
pub proof fn lemma_weakest_filters_keep_parsed(opts: &Options, line: Seq<char>)
    requires
        opts.min_level is None || opts.min_level == Some(LogLevel::Unknown),
        opts.contains is None || opts.contains->0@.len() == 0,
    ensures
        line_kept(opts, line) == parse_outcome(line),
{
    if let Some(e) = parse_outcome(line) {
        if let Some(needle) = opts.contains {
            assert(e.message.subrange(0int, 0int + needle@.len()) =~= needle@);
            assert(contains_seq(e.message, needle@));
        }
    }
}

/// Both filters together keep exactly what each keeps on its own.
pub proof fn lemma_filters_compose(opts: &Options, e: EntryView)
    ensures
        passes(opts, e) <==> passes(
            &Options { min_level: opts.min_level, contains: None, show: opts.show },
            e,
        ) && passes(&Options { min_level: None, contains: opts.contains, show: opts.show }, e),
{
}

/// The entry that a line contributes: the parsed entry if the line parses
/// and passes the filters; nothing otherwise.
pub open spec fn line_kept(opts: &Options, line: Seq<char>) -> Option<EntryView> {
    match parse_outcome(line) {
        Some(e) => if passes(opts, e) {
            Some(e)
        } else {
            None
        },
        None => None,
    }
}

/// How a kept entry is rendered: `timestamp LEVEL message`.
pub open spec fn rendered(e: EntryView) -> Seq<char> {
    e.timestamp + seq![' '] + level_name(e.level) + seq![' '] + e.message
}

/// The entries that a sequence of lines contributes, in order.
pub open spec fn kept_entries(opts: &Options, lines: Seq<Seq<char>>) -> Seq<EntryView>
    decreases lines.len(),
{
    if lines.len() == 0 {
        seq![]
    } else {
        let rest = kept_entries(opts, lines.drop_last());
        match line_kept(opts, lines.last()) {
            Some(e) => rest.push(e),
            None => rest,
        }
    }
}

/// The minimum-level filter keeps exactly the entries whose level is at
/// least as severe as the minimum: an entry of a lower level never passes,
/// and without a text filter every entry at or above the minimum passes.
pub proof fn lemma_min_level_filter(opts: &Options, e: EntryView)
    requires
        opts.min_level is Some,
    ensures
        passes(opts, e) ==> severity_of(e.level) >= severity_of(opts.min_level->0),
        opts.contains is None ==> (passes(opts, e) <==> severity_of(e.level) >= severity_of(
            opts.min_level->0,
        )),
{
}

/// Lowering the minimum level never drops an entry that passed.
pub proof fn lemma_min_level_monotone(opts: &Options, lower: LogLevel, e: EntryView)
    requires
        opts.min_level is Some,
        severity_of(lower) <= severity_of(opts.min_level->0),
        passes(opts, e),
    ensures
        passes(&Options { min_level: Some(lower), contains: opts.contains, show: opts.show }, e),
{
}

/// The text filter looks at the message only: an entry passes only if the
/// message contains the text, and without a minimum level exactly then.
pub proof fn lemma_contains_filter(opts: &Options, e: EntryView)
    requires
        opts.contains is Some,
    ensures
        passes(opts, e) ==> contains_seq(e.message, opts.contains->0@),
        opts.min_level is None ==> (passes(opts, e) <==> contains_seq(
            e.message,
            opts.contains->0@,
        )),
{
}

/// Whether an entry passes depends on its level and message only, never on
/// its timestamp.
pub proof fn lemma_filters_ignore_timestamp(opts: &Options, e1: EntryView, e2: EntryView)
    requires
        e1.level == e2.level,
        e1.message == e2.message,
    ensures
        passes(opts, e1) == passes(opts, e2),
{
}

/// A line contributes an entry exactly when it parses and the parsed entry
/// passes the filters; the entry is the parsed one.
pub proof fn lemma_line_kept_is_parsed_and_passing(opts: &Options, line: Seq<char>)
    ensures
        line_kept(opts, line) is Some <==> (parse_outcome(line) is Some && passes(
            opts,
            parse_outcome(line)->0,
        )),
        line_kept(opts, line) is Some ==> line_kept(opts, line) == parse_outcome(line),
{
}

/// Each further line adds its own entry, if it has one, after the entries
/// of the lines before it, whatever those lines were.
pub proof fn lemma_kept_entries_push(opts: &Options, lines: Seq<Seq<char>>, line: Seq<char>)
    ensures
        kept_entries(opts, lines.push(line)) == match line_kept(opts, line) {
            Some(e) => kept_entries(opts, lines).push(e),
            None => kept_entries(opts, lines),
        },
{
    assert(lines.push(line).drop_last() =~= lines);
}

/// The entries of two runs of lines are the entries of the first followed
/// by those of the second: every line counts on its own.
pub proof fn lemma_kept_entries_concat(opts: &Options, a: Seq<Seq<char>>, b: Seq<Seq<char>>)
    ensures
        kept_entries(opts, a + b) == kept_entries(opts, a) + kept_entries(opts, b),
    decreases b.len(),
{
    if b.len() == 0 {
        assert(a + b =~= a);
        assert(kept_entries(opts, a) + kept_entries(opts, b) =~= kept_entries(opts, a));
    } else {
        let b0 = b.drop_last();
        lemma_kept_entries_concat(opts, a, b0);
        assert((a + b).drop_last() =~= a + b0);
        assert((a + b).last() == b.last());
        match line_kept(opts, b.last()) {
            Some(e) => {
                assert(kept_entries(opts, a) + kept_entries(opts, b0).push(e) =~= (kept_entries(
                    opts,
                    a,
                ) + kept_entries(opts, b0)).push(e));
            },
            None => {},
        }
    }
}

/// A line that is kept once is counted once more each time it repeats.
pub proof fn lemma_repeated_line_counts_twice(opts: &Options, line: Seq<char>, level: LogLevel)
    requires
        line_kept(opts, line) is Some,
        line_kept(opts, line)->0.level == level,
    ensures
        level_count(kept_entries(opts, seq![line, line]), level) == 2,
        kept_entries(opts, seq![line, line]).len() == 2,
{
    let e = line_kept(opts, line)->0;
    lemma_kept_entries_push(opts, Seq::empty(), line);
    assert(Seq::<Seq<char>>::empty().push(line) =~= seq![line]);
    lemma_kept_entries_push(opts, seq![line], line);
    assert(seq![line].push(line) =~= seq![line, line]);
    assert(kept_entries(opts, Seq::<Seq<char>>::empty()) =~= Seq::<EntryView>::empty());
    let one = kept_entries(opts, seq![line]);
    assert(one =~= seq![e]);
    let two = kept_entries(opts, seq![line, line]);
    assert(two =~= seq![e, e]);
    assert(two.drop_last() =~= seq![e]);
    assert(seq![e].drop_last() =~= Seq::<EntryView>::empty());
    assert(level_count(Seq::<EntryView>::empty(), level) == 0);
    assert(level_count(seq![e], level) == 1);
    assert(level_count(two, level) == 2);
}

/// How many of `entries` have level `level`.
pub open spec fn level_count(entries: Seq<EntryView>, level: LogLevel) -> nat
    decreases entries.len(),
{
    if entries.len() == 0 {
        0
    } else {
        level_count(entries.drop_last(), level) + if entries.last().level == level {
            1nat
        } else {
            0nat
        }
    }
}

/// The text of each line.
pub open spec fn texts(lines: Seq<String>) -> Seq<Seq<char>> {
    lines.map_values(|l: String| l@)
}

/// `timestamp LEVEL message` for an entry.
fn render(entry: &LogEntry) -> (r: String)
    ensures
        r@ == rendered(entry@),
{
    let mut text = String::from_str(entry.timestamp());
    let sep = " ";
    proof {
        reveal_strlit(" ");
        assert(sep@ =~= seq![' ']);
    }
    text.append(sep);
    text.append(entry.level().as_str());
    text.append(sep);
    text.append(entry.message());
    text
}

/// Whether a line is kept: it parses and passes the filters of `opts`.
pub fn keeps_line(opts: &Options, line: &str) -> (r: bool)
    ensures
        r == line_kept(opts, line@) is Some,
{
    let entry = match parse(line) {
        Ok(e) => e,
        Err(_) => {
            return false;
        },
    };
    proof {
        assert(parse_outcome(line@) == Some(entry@));
    }
    if let Some(min) = opts.min_level {
        if !MinLevel(min).keep(&entry) {
            return false;
        }
    }
    if let Some(needle) = &opts.contains {
        if !Contains(needle.clone()).keep(&entry) {
            return false;
        }
    }
    true
}

/// Handles one line: parses it, and if it parses and passes the filters,
/// counts it and returns its rendering when `opts.show` asks for one. A
/// line that does not parse, or is filtered out, changes nothing.
pub fn process_line(summary: &mut Summary, opts: &Options, line: &str) -> (r: Option<String>)
    requires
        line_kept(opts, line@) is Some ==> old(summary).total_of() < usize::MAX,
    ensures
        match line_kept(opts, line@) {
            Some(e) => {
                &&& final(summary).total_of() == old(summary).total_of() + 1
                &&& forall|level: LogLevel| #[trigger]
                    final(summary).count_of(level) == old(summary).count_of(level) + if level
                        == e.level {
                        1nat
                    } else {
                        0nat
                    }
                &&& match r {
                    Some(text) => opts.show && text@ == rendered(e),
                    None => !opts.show,
                }
            },
            None => *final(summary) == *old(summary) && r is None,
        },
{
    let entry = match parse(line) {
        Ok(e) => e,
        Err(_) => {
            return None;
        },
    };
    proof {
        assert(parse_outcome(line@) == Some(entry@));
    }
    if let Some(min) = opts.min_level {
        if !MinLevel(min).keep(&entry) {
            return None;
        }
    }
    if let Some(needle) = &opts.contains {
        if !Contains(needle.clone()).keep(&entry) {
            return None;
        }
    }
    let shown = if opts.show {
        Some(render(&entry))
    } else {
        None
    };
    summary.count(&entry);
    shown
}

/// Runs the pipeline over lines: the summary of the kept entries, and the
/// rendering of each kept line, in order, when `opts.show` asks for them.
pub fn run(lines: &Vec<String>, opts: &Options) -> (r: (Summary, Vec<String>))
    ensures
        r.0.total_of() == kept_entries(opts, texts(lines@)).len(),
        forall|level: LogLevel| #[trigger]
            r.0.count_of(level) == level_count(kept_entries(opts, texts(lines@)), level),
        texts(r.1@) == if opts.show {
            kept_entries(opts, texts(lines@)).map_values(|e: EntryView| rendered(e))
        } else {
            Seq::<Seq<char>>::empty()
        },
{
    let mut summary = Summary::default();
    let mut shown: Vec<String> = Vec::new();
    let ghost all = texts(lines@);
    let mut i: usize = 0;
    while i < lines.len()
        invariant
            i <= lines.len(),
            all == texts(lines@),
            summary.total_of() <= i,
            summary.total_of() == kept_entries(opts, all.take(i as int)).len(),
            forall|level: LogLevel| #[trigger]
                summary.count_of(level) == level_count(kept_entries(opts, all.take(i as int)), level),
            texts(shown@) == if opts.show {
                kept_entries(opts, all.take(i as int)).map_values(|e: EntryView| rendered(e))
            } else {
                Seq::<Seq<char>>::empty()
            },
        decreases lines.len() - i,
    {
        let ghost prev = kept_entries(opts, all.take(i as int));
        let ghost prev_shown = shown@;
        let out = process_line(&mut summary, opts, lines[i].as_str());
        proof {
            assert(all.take(i + 1).drop_last() =~= all.take(i as int));
            assert(all.take(i + 1).last() == lines@[i as int]@);
        }
        match out {
            Some(text) => {
                let ghost t = text@;
                shown.push(text);
                proof {
                    assert(texts(shown@) =~= texts(prev_shown).push(t));
                }
            },
            None => {},
        }
        proof {
            let now = kept_entries(opts, all.take(i + 1));
            match line_kept(opts, lines@[i as int]@) {
                Some(e) => {
                    assert(now == prev.push(e));
                    assert forall|level: LogLevel| #[trigger]
                        summary.count_of(level) == level_count(now, level) by {
                        assert(now.drop_last() =~= prev);
                    }
                    if opts.show {
                        assert(texts(shown@) =~= now.map_values(|e: EntryView| rendered(e)));
                    } else {
                        assert(texts(shown@) =~= Seq::<Seq<char>>::empty());
                    }
                },
                None => {
                    assert(now == prev);
                    assert(texts(shown@) =~= texts(prev_shown));
                },
            }
        }
        i = i + 1;
    }
    proof {
        assert(all.take(lines.len() as int) =~= all);
    }
    (summary, shown)
}

} // verus!
