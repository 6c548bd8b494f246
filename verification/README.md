# logentry

A log analyser: it parses lines of the form `timestamp:LEVEL:message`,
keeps those that pass a level and a substring filter, and summarises them
by level. The library in `src/` is verified with Verus; `app/` is the
`logsum` command line around it (argument parsing, stdin/stdout, and the
floating-point temperature helpers).

- `src/parser/format.rs`: the line format, with a contract that says which
  split of the line is reported.
- `src/parser.rs`, `src/lib.rs`: simpler colon-splitting parsers.
- `src/entry.rs`: levels (ordered by severity) and entries.
- `src/filter.rs`: the keep predicates.
- `src/aggregator.rs`: the summary (total and per-level counters).
- `src/app.rs`: the per-line step and the whole pipeline.
- `src/text.rs`: white space, trimming, substring search.
- `src/rectangle.rs`: rectangles.
