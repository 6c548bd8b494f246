//! The log-line format `timestamp:LEVEL:message`, recognised as the pattern
//!
//! ```text
//! (?i)^\s*(?P<ts>.+?)\s*[:\s]\s*(?P<level>DEBUG|INFO|WARNING|WARN|ERROR|ERR|FATAL)\s*[:\s]\s*(?P<msg>.+?)\s*$
//! ```
//!
//! with leftmost-first (backtracking) priority: the leading `\s*` and the
//! separators' `\s*` are greedy, `ts` and `msg` are lazy, and the level
//! alternatives are tried in the order written. `\s` is Unicode white space,
//! `.` is any character but `'\n'`, and `(?i)` folds the ASCII letters of
//! the level names.
use vstd::prelude::*;

use crate::entry::{EntryView, LogEntry, LogLevel};
use crate::parser::error::ParseError;
use crate::text::{all_ws, char_is_ws, chars_of, is_ws, lemma_trim_idempotent, trim, trim_bounds};

verus! {

/// No `'\n'` in `s[x..y]` (the `.` of the pattern).
pub open spec fn no_newline(s: Seq<char>, x: int, y: int) -> bool {
    forall|j: int| x <= j < y ==> #[trigger] s[j] != '\n'
}

/// `s[x..y]` matches `\s*[:\s]\s*`: it is not empty, every character is
/// white space or `':'`, and at most one is `':'`.
pub open spec fn is_sep(s: Seq<char>, x: int, y: int) -> bool {
    &&& 0 <= x < y <= s.len()
    &&& forall|j: int| x <= j < y ==> is_ws(#[trigger] s[j]) || s[j] == ':'
    &&& forall|i: int, j: int| x <= i < j < y ==> !(#[trigger] s[i] == ':' && #[trigger] s[j] == ':')
}

/// The level alternatives, in the order the pattern tries them.
pub open spec fn level_word(k: int) -> Seq<char> {
    if k == 0 {
        seq!['D', 'E', 'B', 'U', 'G']
    } else if k == 1 {
        seq!['I', 'N', 'F', 'O']
    } else if k == 2 {
        seq!['W', 'A', 'R', 'N', 'I', 'N', 'G']
    } else if k == 3 {
        seq!['W', 'A', 'R', 'N']
    } else if k == 4 {
        seq!['E', 'R', 'R', 'O', 'R']
    } else if k == 5 {
        seq!['E', 'R', 'R']
    } else {
        seq!['F', 'A', 'T', 'A', 'L']
    }
}

/// The level that alternative `k` names.
pub open spec fn word_level(k: int) -> LogLevel {
    if k == 0 {
        LogLevel::Debug
    } else if k == 1 {
        LogLevel::Info
    } else if k == 2 || k == 3 {
        LogLevel::Warning
    } else if k == 4 || k == 5 {
        LogLevel::Error
    } else {
        LogLevel::Fatal
    }
}

/// `c` equals the upper-case ASCII letter `u` ignoring case.
pub open spec fn ci_eq(c: char, u: char) -> bool {
    c == u || c as u32 == u as u32 + 32
}

/// Alternative `k` matches at `c`, ignoring case.
pub open spec fn level_at(s: Seq<char>, c: int, k: int) -> bool {
    &&& 0 <= k < 7
    &&& 0 <= c
    &&& c + level_word(k).len() <= s.len()
    &&& forall|j: int| 0 <= j < level_word(k).len() ==> ci_eq(#[trigger] s[c + j], level_word(k)[j])
}

/// `s[e..f]` matches `(?P<msg>.+?)\s*$`.
pub open spec fn tail_ok(s: Seq<char>, e: int, f: int) -> bool {
    &&& 0 <= e < f <= s.len()
    &&& no_newline(s, e, f)
    &&& forall|j: int| f <= j < s.len() ==> #[trigger] is_ws(s[j])
}

/// The positions at which a match splits the line: `ts` is `s[a..b]`, the
/// level alternative `k` starts at `c`, `msg` is `s[e..f]`.
pub struct LineMatch {
    pub a: int,
    pub b: int,
    pub c: int,
    pub k: int,
    pub e: int,
    pub f: int,
}

/// The part of a match after `ts`.
pub open spec fn rest_ok(s: Seq<char>, b: int, c: int, k: int, e: int, f: int) -> bool {
    &&& is_sep(s, b, c)
    &&& level_at(s, c, k)
    &&& is_sep(s, c + level_word(k).len(), e)
    &&& tail_ok(s, e, f)
}

/// `^\s*(?P<ts>.+?)` matches `s[0..b]` with `ts` starting at `a`.
pub open spec fn prefix_ok(s: Seq<char>, a: int, b: int) -> bool {
    &&& 0 <= a < b <= s.len()
    &&& forall|j: int| 0 <= j < a ==> #[trigger] is_ws(s[j])
    &&& no_newline(s, a, b)
}

/// `m` is a way in which the whole line matches the pattern.
pub open spec fn is_match(s: Seq<char>, m: LineMatch) -> bool {
    prefix_ok(s, m.a, m.b) && rest_ok(s, m.b, m.c, m.k, m.e, m.f)
}

/// The order in which the pattern's backtracking meets the ways to match:
/// a longer leading `\s*` first, then a shorter `ts`, a longer first
/// separator, an earlier alternative, a longer second separator, a shorter
/// `msg`.
pub open spec fn rest_before(c1: int, k1: int, e1: int, f1: int, c2: int, k2: int, e2: int, f2: int) -> bool {
    ||| c1 > c2
    ||| c1 == c2 && k1 < k2
    ||| c1 == c2 && k1 == k2 && e1 > e2
    ||| c1 == c2 && k1 == k2 && e1 == e2 && f1 < f2
}

/// `m1` comes before `m2` in the pattern's priority order.
pub open spec fn match_before(m1: LineMatch, m2: LineMatch) -> bool {
    ||| m1.a > m2.a
    ||| m1.a == m2.a && m1.b < m2.b
    ||| m1.a == m2.a && m1.b == m2.b && rest_before(m1.c, m1.k, m1.e, m1.f, m2.c, m2.k, m2.e, m2.f)
}

/// `m` is the match that the pattern reports: no other match comes before it.
pub open spec fn is_first_match(s: Seq<char>, m: LineMatch) -> bool {
    is_match(s, m) && forall|m2: LineMatch| #[trigger] is_match(s, m2) ==> !match_before(m2, m)
}

/// The line matches the pattern at all.
pub open spec fn has_match(s: Seq<char>) -> bool {
    exists|m: LineMatch| #[trigger] is_match(s, m)
}

/// The match the pattern reports (meaningful when [`has_match`]).
pub open spec fn first_match(s: Seq<char>) -> LineMatch {
    choose|m: LineMatch| is_first_match(s, m)
}

/// The entry that a match gives: trimmed `ts`, the alternative's level,
/// trimmed `msg`.
pub open spec fn entry_of_match(s: Seq<char>, m: LineMatch) -> EntryView {
    EntryView {
        timestamp: trim(s.subrange(m.a, m.b)),
        level: word_level(m.k),
        message: trim(s.subrange(m.e, m.f)),
    }
}

/// What parsing the line gives: `Empty` for a blank line, the reported
/// match's entry when the line matches, `BadFormat` otherwise.
pub open spec fn parse_outcome(s: Seq<char>) -> Option<EntryView> {
    if all_ws(s) || !has_match(s) {
        None
    } else {
        Some(entry_of_match(s, first_match(s)))
    }
}

/// Two matches that nothing comes before are the same match.
pub proof fn lemma_first_match_unique(s: Seq<char>, m1: LineMatch, m2: LineMatch)
    requires
        is_first_match(s, m1),
        is_first_match(s, m2),
    ensures
        m1 == m2,
{
    assert(!match_before(m2, m1));
    assert(!match_before(m1, m2));
}


/// The longest separator that starts at `x`: `s[x..y]` matches
/// `\s*[:\s]\s*` exactly when `x < y <= r`.
fn sep_limit(v: &Vec<char>, x: usize) -> (r: usize)
    requires
        x <= v.len(),
    ensures
        x <= r <= v.len(),
        forall|y: int| x < y <= v.len() ==> (#[trigger] is_sep(v@, x as int, y) <==> y <= r),
{
    let n = v.len();
    let mut i = x;
    while i < n && char_is_ws(v[i])
        invariant
            x <= i <= n == v.len(),
            forall|j: int| x <= j < i ==> #[trigger] is_ws(v@[j]),
        decreases n - i,
    {
        i = i + 1;
    }
    if i < n && v[i] == ':' {
        let mut j = i + 1;
        while j < n && char_is_ws(v[j])
            invariant
                i < j <= n == v.len(),
                forall|l: int| i < l < j ==> #[trigger] is_ws(v@[l]),
            decreases n - j,
        {
            j = j + 1;
        }
        proof {
            let s = v@;
            assert forall|y: int| x < y <= v.len() implies (#[trigger] is_sep(s, x as int, y) <==> y
                <= j) by {
                if y <= j {
                    assert forall|p: int, q: int| x <= p < q < y implies !(#[trigger] s[p] == ':'
                        && #[trigger] s[q] == ':') by {
                        if p != i as int {
                            if p < i {
                                assert(is_ws(s[p]));
                            } else {
                                assert(is_ws(s[p]));
                            }
                        } else {
                            assert(is_ws(s[q]));
                        }
                    }
                    assert forall|l: int| x <= l < y implies is_ws(#[trigger] s[l]) || s[l] == ':' by {
                        if l < i {
                        } else if l == i {
                        } else {
                        }
                    }
                } else {
                    if j < n {
                        assert(!is_ws(s[j as int]));
                        if s[j as int] == ':' {
                            assert(s[i as int] == ':' && s[j as int] == ':');
                        }
                    }
                }
            }
        }
        j
    } else {
        proof {
            let s = v@;
            assert forall|y: int| x < y <= v.len() implies (#[trigger] is_sep(s, x as int, y) <==> y
                <= i) by {
                if y <= i {
                    assert forall|p: int, q: int| x <= p < q < y implies !(#[trigger] s[p] == ':'
                        && #[trigger] s[q] == ':') by {
                        assert(is_ws(s[p]));
                    }
                } else {
                    assert(!is_ws(s[i as int]) && s[i as int] != ':');
                }
            }
        }
        i
    }
}

/// The characters of alternative `k`.
fn word_chars(k: usize) -> (w: Vec<char>)
    requires
        k < 7,
    ensures
        w@ == level_word(k as int),
{
    let w = if k == 0 {
        vec!['D', 'E', 'B', 'U', 'G']
    } else if k == 1 {
        vec!['I', 'N', 'F', 'O']
    } else if k == 2 {
        vec!['W', 'A', 'R', 'N', 'I', 'N', 'G']
    } else if k == 3 {
        vec!['W', 'A', 'R', 'N']
    } else if k == 4 {
        vec!['E', 'R', 'R', 'O', 'R']
    } else if k == 5 {
        vec!['E', 'R', 'R']
    } else {
        vec!['F', 'A', 'T', 'A', 'L']
    };
    assert(w@ =~= level_word(k as int));
    w
}

/// Whether alternative `k` matches at `c`; on success also its end.
fn level_at_exec(v: &Vec<char>, c: usize, k: usize) -> (r: Option<usize>)
    requires
        c <= v.len(),
        k < 7,
    ensures
        r is Some <==> level_at(v@, c as int, k as int),
        r matches Some(d) ==> d == c + level_word(k as int).len(),
{
    let w = word_chars(k);
    if w.len() > v.len() - c {
        return None;
    }
    let mut j: usize = 0;
    while j < w.len()
        invariant
            c + w.len() <= v.len(),
            w@ == level_word(k as int),
            j <= w.len(),
            forall|l: int| 0 <= l < j ==> ci_eq(#[trigger] v@[c + l], w@[l]),
        decreases w.len() - j,
    {
        let ch = v[c + j];
        let u = w[j];
        if !(ch == u || ch as u32 == u as u32 + 32) {
            assert(!ci_eq(v@[c + j], level_word(k as int)[j as int]));
            return None;
        }
        j = j + 1;
    }
    Some(c + w.len())
}

/// Where the trailing white space of the line starts.
fn trailing_start(v: &Vec<char>) -> (t: usize)
    ensures
        t <= v.len(),
        forall|j: int| t <= j < v.len() ==> #[trigger] is_ws(v@[j]),
        t == 0 || !is_ws(v@[t - 1]),
{
    let mut t = v.len();
    while t > 0 && char_is_ws(v[t - 1])
        invariant
            t <= v.len(),
            forall|j: int| t <= j < v.len() ==> #[trigger] is_ws(v@[j]),
        decreases t,
    {
        t = t - 1;
    }
    t
}

/// Whether `s[x..y]` holds no `'\n'`.
fn no_newline_exec(v: &Vec<char>, x: usize, y: usize) -> (r: bool)
    requires
        x <= y <= v.len(),
    ensures
        r == no_newline(v@, x as int, y as int),
{
    let mut j = x;
    while j < y
        invariant
            x <= j <= y <= v.len(),
            forall|l: int| x <= l < j ==> #[trigger] v@[l] != '\n',
        decreases y - j,
    {
        if v[j] == '\n' {
            return false;
        }
        j = j + 1;
    }
    true
}

/// The shortest `msg` from `e` is `s[e..max(e + 1, t)]`, if any `msg` is.
proof fn lemma_tail_candidate(s: Seq<char>, t: int, e: int, f: int)
    requires
        0 <= t <= s.len(),
        forall|j: int| t <= j < s.len() ==> #[trigger] is_ws(s[j]),
        t == 0 || !is_ws(s[t - 1]),
        tail_ok(s, e, f),
    ensures
        f >= (if e + 1 > t { e + 1 } else { t }),
        tail_ok(s, e, if e + 1 > t { e + 1 } else { t }),
{
    if f < t {
        assert(is_ws(s[t - 1]));
    }
}

/// The `msg` that the pattern takes after a level ending at `d`: the
/// longest separator first, then the shortest `msg`.
fn best_tail(v: &Vec<char>, t: usize, d: usize) -> (r: Option<(usize, usize)>)
    requires
        d <= v.len(),
        t <= v.len(),
        forall|j: int| t <= j < v.len() ==> #[trigger] is_ws(v@[j]),
        t == 0 || !is_ws(v@[t - 1]),
    ensures
        match r {
            Some((e, f)) => {
                &&& is_sep(v@, d as int, e as int)
                &&& tail_ok(v@, e as int, f as int)
                &&& forall|e2: int, f2: int|
                    is_sep(v@, d as int, e2) && #[trigger] tail_ok(v@, e2, f2) ==> e2 < e || (e2
                        == e && f2 >= f)
            },
            None => forall|e2: int, f2: int|
                !(is_sep(v@, d as int, e2) && #[trigger] tail_ok(v@, e2, f2)),
        },
{
    let n = v.len();
    let lim = sep_limit(v, d);
    let mut e = lim;
    while e > d
        invariant
            d <= e <= lim <= n == v.len(),
            t <= n,
            forall|j: int| t <= j < v.len() ==> #[trigger] is_ws(v@[j]),
            t == 0 || !is_ws(v@[t - 1]),
            forall|y: int| d < y <= v.len() ==> (#[trigger] is_sep(v@, d as int, y) <==> y <= lim),
            forall|e2: int, f2: int|
                e < e2 && is_sep(v@, d as int, e2) ==> !#[trigger] tail_ok(v@, e2, f2),
        decreases e,
    {
        if e < n {
            let f = if e + 1 > t {
                e + 1
            } else {
                t
            };
            if no_newline_exec(v, e, f) {
                proof {
                    assert(is_sep(v@, d as int, e as int));
                    assert(tail_ok(v@, e as int, f as int));
                    assert forall|e2: int, f2: int|
                        is_sep(v@, d as int, e2) && #[trigger] tail_ok(v@, e2, f2) implies e2 < e
                        || (e2 == e && f2 >= f) by {
                        if e2 == e {
                            lemma_tail_candidate(v@, t as int, e2, f2);
                        }
                    }
                }
                return Some((e, f));
            }
            proof {
                assert forall|f2: int| !#[trigger] tail_ok(v@, e as int, f2) by {
                    if tail_ok(v@, e as int, f2) {
                        lemma_tail_candidate(v@, t as int, e as int, f2);
                    }
                }
            }
        }
        e = e - 1;
    }
    None
}

/// The rest of the match after a `ts` ending at `b`, in the pattern's order.
fn best_rest(v: &Vec<char>, t: usize, b: usize) -> (r: Option<(usize, usize, usize, usize)>)
    requires
        b <= v.len(),
        t <= v.len(),
        forall|j: int| t <= j < v.len() ==> #[trigger] is_ws(v@[j]),
        t == 0 || !is_ws(v@[t - 1]),
    ensures
        match r {
            Some((c, k, e, f)) => {
                &&& rest_ok(v@, b as int, c as int, k as int, e as int, f as int)
                &&& forall|c2: int, k2: int, e2: int, f2: int|
                    #[trigger] rest_ok(v@, b as int, c2, k2, e2, f2) ==> !rest_before(
                        c2,
                        k2,
                        e2,
                        f2,
                        c as int,
                        k as int,
                        e as int,
                        f as int,
                    )
            },
            None => forall|c2: int, k2: int, e2: int, f2: int|
                !#[trigger] rest_ok(v@, b as int, c2, k2, e2, f2),
        },
{
    let n = v.len();
    let lim = sep_limit(v, b);
    let mut c = lim;
    while c > b
        invariant
            b <= c <= lim <= n == v.len(),
            t <= n,
            forall|j: int| t <= j < v.len() ==> #[trigger] is_ws(v@[j]),
            t == 0 || !is_ws(v@[t - 1]),
            forall|y: int| b < y <= v.len() ==> (#[trigger] is_sep(v@, b as int, y) <==> y <= lim),
            forall|c2: int, k2: int, e2: int, f2: int|
                c < c2 ==> !#[trigger] rest_ok(v@, b as int, c2, k2, e2, f2),
        decreases c,
    {
        let mut k: usize = 0;
        while k < 7
            invariant
                b < c <= lim <= n == v.len(),
                k <= 7,
                t <= n,
                forall|j: int| t <= j < v.len() ==> #[trigger] is_ws(v@[j]),
                t == 0 || !is_ws(v@[t - 1]),
                forall|c2: int, k2: int, e2: int, f2: int|
                    c < c2 ==> !#[trigger] rest_ok(v@, b as int, c2, k2, e2, f2),
                forall|y: int| b < y <= v.len() ==> (#[trigger] is_sep(v@, b as int, y) <==> y <= lim),
                forall|k2: int, e2: int, f2: int|
                    k2 < k ==> !#[trigger] rest_ok(v@, b as int, c as int, k2, e2, f2),
            decreases 7 - k,
        {
            match level_at_exec(v, c, k) {
                Some(d) => {
                    match best_tail(v, t, d) {
                        Some((e, f)) => {
                            proof {
                                assert(is_sep(v@, b as int, c as int));
                                assert(rest_ok(v@, b as int, c as int, k as int, e as int, f as int));
                            }
                            return Some((c, k, e, f));
                        },
                        None => {
                            assert forall|e2: int, f2: int|
                                !#[trigger] rest_ok(v@, b as int, c as int, k as int, e2, f2) by {
                                if rest_ok(v@, b as int, c as int, k as int, e2, f2) {
                                    assert(tail_ok(v@, e2, f2));
                                }
                            }
                        },
                    }
                },
                None => {},
            }
            k = k + 1;
        }
        c = c - 1;
    }
    None
}

/// The match that the pattern reports, if the line matches.
fn find_match(v: &Vec<char>) -> (r: Option<(usize, usize, usize, usize, usize, usize)>)
    ensures
        match r {
            Some((a, b, c, k, e, f)) => is_first_match(
                v@,
                LineMatch { a: a as int, b: b as int, c: c as int, k: k as int, e: e as int, f: f as int },
            ),
            None => !has_match(v@),
        },
{
    let n = v.len();
    let t = trailing_start(v);
    let mut k0: usize = 0;
    while k0 < n && char_is_ws(v[k0])
        invariant
            k0 <= n == v.len(),
            forall|j: int| 0 <= j < k0 ==> #[trigger] is_ws(v@[j]),
        decreases n - k0,
    {
        k0 = k0 + 1;
    }
    let mut a = k0;
    proof {
        assert forall|m: LineMatch| #[trigger] is_match(v@, m) implies m.a <= a by {
            if m.a > a {
                assert(is_ws(v@[a as int]));
            }
        }
    }
    loop
        invariant
            a <= k0 <= n == v.len(),
            t <= n,
            forall|j: int| t <= j < v.len() ==> #[trigger] is_ws(v@[j]),
            t == 0 || !is_ws(v@[t - 1]),
            forall|j: int| 0 <= j < k0 ==> #[trigger] is_ws(v@[j]),
            forall|m: LineMatch| #[trigger] is_match(v@, m) ==> m.a <= a,
        decreases a,
    {
        if a < n && v[a] != '\n' {
            let mut b = a + 1;
            loop
                invariant
                    a < b <= n == v.len(),
                    a <= k0,
                    t <= n,
                    forall|j: int| t <= j < v.len() ==> #[trigger] is_ws(v@[j]),
                    t == 0 || !is_ws(v@[t - 1]),
                    forall|j: int| 0 <= j < k0 ==> #[trigger] is_ws(v@[j]),
                    forall|m: LineMatch| #[trigger] is_match(v@, m) ==> m.a <= a,
                    no_newline(v@, a as int, b as int),
                    forall|m: LineMatch| #[trigger] is_match(v@, m) && m.a == a ==> m.b >= b,
                ensures
                    forall|m: LineMatch| #[trigger] is_match(v@, m) ==> m.a != a,
                decreases n - b,
            {
                match best_rest(v, t, b) {
                    Some((c, k, e, f)) => {
                        proof {
                            let m = LineMatch {
                                a: a as int,
                                b: b as int,
                                c: c as int,
                                k: k as int,
                                e: e as int,
                                f: f as int,
                            };
                            assert(prefix_ok(v@, a as int, b as int));
                            assert(is_match(v@, m));
                            assert forall|m2: LineMatch| #[trigger] is_match(v@, m2) implies !match_before(
                                m2,
                                m,
                            ) by {
                                if m2.a == m.a && m2.b == m.b {
                                    assert(rest_ok(v@, m2.b, m2.c, m2.k, m2.e, m2.f));
                                }
                            }
                        }
                        return Some((a, b, c, k, e, f));
                    },
                    None => {},
                }
                proof {
                    assert forall|m: LineMatch| #[trigger] is_match(v@, m) && m.a == a implies m.b
                        >= b + 1 by {
                        if m.b == b {
                            assert(rest_ok(v@, m.b, m.c, m.k, m.e, m.f));
                        }
                    }
                }
                if b >= n || v[b] == '\n' {
                    proof {
                        assert forall|m: LineMatch| #[trigger] is_match(v@, m) implies m.a != a by {
                            if m.a == a {
                                assert(is_sep(v@, m.b, m.c));
                                assert(no_newline(v@, m.a, m.b));
                                assert(v@[b as int] != '\n');
                            }
                        }
                    }
                    break ;
                }
                b = b + 1;
            }
        } else {
            proof {
                assert forall|m: LineMatch| #[trigger] is_match(v@, m) implies m.a != a by {
                    if m.a == a {
                        assert(is_sep(v@, m.b, m.c));
                        assert(no_newline(v@, m.a, m.b));
                        assert(v@[a as int] != '\n');
                    }
                }
            }
        }
        if a == 0 {
            proof {
                assert forall|m: LineMatch| !#[trigger] is_match(v@, m) by {
                    if is_match(v@, m) {
                        assert(m.a <= 0);
                    }
                }
            }
            return None;
        }
        a = a - 1;
    }
}


/// A parsed entry's timestamp and message are trimmed, and its level is
/// one the format names, never `Unknown`.
pub proof fn lemma_parsed_entry_shape(s: Seq<char>)
    requires
        parse_outcome(s) is Some,
    ensures
        trim(parse_outcome(s)->0.timestamp) == parse_outcome(s)->0.timestamp,
        trim(parse_outcome(s)->0.message) == parse_outcome(s)->0.message,
        parse_outcome(s)->0.level != LogLevel::Unknown,
{
    let m = first_match(s);
    lemma_trim_idempotent(s.subrange(m.a, m.b));
    lemma_trim_idempotent(s.subrange(m.e, m.f));
}

/// Whether every character is white space (the line trims to nothing).
fn is_blank(v: &Vec<char>) -> (r: bool)
    ensures
        r == all_ws(v@),
{
    let mut i: usize = 0;
    while i < v.len()
        invariant
            i <= v.len(),
            forall|j: int| 0 <= j < i ==> #[trigger] is_ws(v@[j]),
        decreases v.len() - i,
    {
        if !char_is_ws(v[i]) {
            return false;
        }
        i = i + 1;
    }
    true
}

/// The level that alternative `k` names.
fn level_of_word(k: usize) -> (r: LogLevel)
    ensures
        r == word_level(k as int),
{
    if k == 0 {
        LogLevel::Debug
    } else if k == 1 {
        LogLevel::Info
    } else if k == 2 || k == 3 {
        LogLevel::Warning
    } else if k == 4 || k == 5 {
        LogLevel::Error
    } else {
        LogLevel::Fatal
    }
}

/// Parses a line of the form `timestamp:LEVEL:message` (the separators may
/// also be white space; extra `':'` stay in the message). A blank line is
/// `Empty`; a line that does not match the format is `BadFormat` with the
/// whole line; otherwise the entry holds the trimmed timestamp, the level
/// named by the matched alternative and the trimmed message of the match
/// the pattern reports.
pub fn parse(line: &str) -> (r: Result<LogEntry, ParseError>)
    ensures
        match r {
            Ok(entry) => {
                &&& !all_ws(line@)
                &&& has_match(line@)
                &&& is_first_match(line@, first_match(line@))
                &&& entry@ == entry_of_match(line@, first_match(line@))
                &&& entry@.level != LogLevel::Unknown
            },
            Err(ParseError::Empty) => all_ws(line@),
            Err(ParseError::BadFormat(text)) => {
                &&& !all_ws(line@)
                &&& !has_match(line@)
                &&& text@ == line@
            },
        },
{
    let v = chars_of(line);
    if is_blank(&v) {
        return Err(ParseError::Empty);
    }
    match find_match(&v) {
        None => Err(ParseError::BadFormat(String::from_str(line))),
        Some((a, b, c, k, e, f)) => {
            let ghost m = LineMatch {
                a: a as int,
                b: b as int,
                c: c as int,
                k: k as int,
                e: e as int,
                f: f as int,
            };
            proof {
                assert(is_match(v@, m));
                let m2 = first_match(v@);
                assert(is_first_match(v@, m2));
                lemma_first_match_unique(v@, m, m2);
            }
            assert(word_level(k as int) != LogLevel::Unknown);
            let (t0, t1) = trim_bounds(&v, a, b);
            let (m0, m1) = trim_bounds(&v, e, f);
            let timestamp = String::from_str(line.substring_char(t0, t1));
            let message = String::from_str(line.substring_char(m0, m1));
            Ok(LogEntry::new(timestamp, level_of_word(k), message))
        },
    }
}

} // verus!
