//! Counting log entries: a total and a counter per level.
use std::collections::BTreeMap;

use vstd::prelude::*;

use crate::entry::{level_of_severity, severity_of, LogEntry, LogLevel};

verus! {

/// The count that a map from severity to count holds for `sev`.
pub open spec fn count_in(m: Map<u8, usize>, sev: u8) -> nat {
    if m.contains_key(sev) {
        m[sev] as nat
    } else {
        0
    }
}

/// The sum of the counts of all six severities.
pub open spec fn sum_counts(m: Map<u8, usize>) -> nat {
    count_in(m, 0) + count_in(m, 1) + count_in(m, 2) + count_in(m, 3) + count_in(m, 4) + count_in(
        m,
        5,
    )
}

/// The sum of the counts of the severities below `n`.
pub open spec fn count_prefix(m: Map<u8, usize>, n: nat) -> nat
    decreases n,
{
    if n == 0 {
        0
    } else {
        count_prefix(m, (n - 1) as nat) + count_in(m, (n - 1) as u8)
    }
}

/// The sum of the counts in a listing of levels and counts.
pub open spec fn listed_total(ls: Seq<(LogLevel, usize)>) -> nat
    decreases ls.len(),
{
    if ls.len() == 0 {
        0
    } else {
        listed_total(ls.drop_last()) + ls.last().1 as nat
    }
}

/// One severity's count is at most the sum of all.
proof fn lemma_count_le_sum(m: Map<u8, usize>, sev: u8)
    requires
        sev <= 5,
    ensures
        count_in(m, sev) <= sum_counts(m),
{
}

/// Raising one severity's count by one raises the sum by one and leaves the
/// other counts alone.
proof fn lemma_increment(m: Map<u8, usize>, sev: u8, c: usize)
    requires
        sev <= 5,
        c == count_in(m, sev) + 1,
    ensures
        sum_counts(m.insert(sev, c)) == sum_counts(m) + 1,
        count_in(m.insert(sev, c), sev) == c,
        forall|s: u8| s != sev ==> #[trigger] count_in(m.insert(sev, c), s) == count_in(m, s),
{
    let m2 = m.insert(sev, c);
    assert forall|s: u8| s != sev implies #[trigger] count_in(m2, s) == count_in(m, s) by {
        assert(m2.contains_key(s) == m.contains_key(s));
        if m.contains_key(s) {
            assert(m2[s] == m[s]);
        }
    }
    assert(count_in(m2, sev) == c);
}

/// Different levels have different severities.
pub proof fn lemma_severity_injective(a: LogLevel, b: LogLevel)
    ensures
        severity_of(a) == severity_of(b) <==> a == b,
{
}

/// A summary of counted entries: how many in all, and how many of each
/// level. Only levels that were counted at least once have a counter.
#[derive(Debug)]
pub struct Summary {
    total: usize,
    by_level: BTreeMap<u8, usize>,
}

impl Summary {
    #[verifier::type_invariant]
    spec fn inv(self) -> bool {
        &&& forall|k: u8| #[trigger] self.by_level@.contains_key(k) ==> k <= 5 && self.by_level@[k] > 0
        &&& self.total as nat == sum_counts(self.by_level@)
    }

    /// How many counted entries have level `level`.
    pub closed spec fn count_of(self, level: LogLevel) -> nat {
        count_in(self.by_level@, severity_of(level))
    }

    /// How many entries were counted.
    pub closed spec fn total_of(self) -> nat {
        self.total as nat
    }

    /// The total of all entries counted.
    pub fn total(&self) -> (r: usize)
        ensures
            r == self.total_of(),
            r == self.count_of(LogLevel::Unknown) + self.count_of(LogLevel::Debug) + self.count_of(
                LogLevel::Info,
            ) + self.count_of(LogLevel::Warning) + self.count_of(LogLevel::Error) + self.count_of(
                LogLevel::Fatal,
            ),
    {
        proof {
            use_type_invariant(self);
        }
        self.total
    }

    /// How many entries of `level` were counted; 0 for a level never seen.
    pub fn total_by_level(&self, level: LogLevel) -> (r: usize)
        ensures
            r == self.count_of(level),
    {
        match self.by_level.get(&level.severity()) {
            Some(c) => *c,
            None => 0,
        }
    }

    /// The levels that were counted, each with its count, from the least to
    /// the most severe.
    pub fn iter(&self) -> (r: Vec<(LogLevel, usize)>)
        ensures
            forall|i: int, j: int|
                0 <= i < j < r@.len() ==> severity_of(#[trigger] r@[i].0) < severity_of(
                    #[trigger] r@[j].0,
                ),
            forall|i: int|
                0 <= i < r@.len() ==> #[trigger] r@[i].1 as nat == self.count_of(r@[i].0) && r@[i].1
                    > 0,
            forall|level: LogLevel|
                #[trigger] self.count_of(level) > 0 ==> exists|i: int|
                    0 <= i < r@.len() && r@[i].0 == level,
            r@ == listing(*self),
            listed_total(r@) == self.total_of(),
    {
        proof {
            use_type_invariant(self);
        }
        let mut out: Vec<(LogLevel, usize)> = Vec::new();
        let mut sev: u8 = 0;
        while sev < 6
            invariant
                sev <= 6,
                forall|i: int, j: int|
                    0 <= i < j < out@.len() ==> severity_of(#[trigger] out@[i].0) < severity_of(
                        #[trigger] out@[j].0,
                    ),
                forall|i: int| 0 <= i < out@.len() ==> severity_of(#[trigger] out@[i].0) < sev,
                forall|i: int|
                    0 <= i < out@.len() ==> #[trigger] out@[i].1 as nat == self.count_of(
                        out@[i].0,
                    ) && out@[i].1 > 0,
                forall|level: LogLevel|
                    #[trigger] self.count_of(level) > 0 && severity_of(level) < sev ==> exists|
                        i: int,
                    |
                        0 <= i < out@.len() && out@[i].0 == level,
                forall|k: u8| #[trigger]
                    self.by_level@.contains_key(k) ==> k <= 5 && self.by_level@[k] > 0,
                out@ == listing_below(*self, sev as nat),
                listed_total(out@) == count_prefix(self.by_level@, sev as nat),
            decreases 6 - sev,
        {
            let level = LogLevel::from_severity(sev);
            assert(severity_of(level) == sev);
            assert(self.count_of(level) == count_in(self.by_level@, sev));
            match self.by_level.get(&sev) {
                Some(c) => {
                    let ghost old_out = out@;
                    out.push((level, *c));
                    proof {
                        assert(out@.drop_last() =~= old_out);
                        assert(listing_below(*self, (sev + 1) as nat) == listing_below(
                            *self,
                            sev as nat,
                        ).push((level, *c)));
                        assert forall|l: LogLevel|
                            #[trigger] self.count_of(l) > 0 && severity_of(l) < sev + 1 implies exists|
                            i: int,
                        |
                            0 <= i < out@.len() && out@[i].0 == l by {
                            if severity_of(l) == sev {
                                assert(l == level);
                                assert(out@[old_out.len() as int].0 == l);
                            } else {
                                let i = choose|i: int| 0 <= i < old_out.len() && old_out[i].0 == l;
                                assert(out@[i].0 == l);
                            }
                        }
                    }
                },
                None => {
                    proof {
                        assert forall|l: LogLevel|
                            #[trigger] self.count_of(l) > 0 && severity_of(l) < sev + 1 implies exists|
                            i: int,
                        |
                            0 <= i < out@.len() && out@[i].0 == l by {
                            if severity_of(l) == sev {
                                assert(l == level);
                            }
                        }
                    }
                },
            }
            sev = sev + 1;
        }
        proof {
            assert(count_prefix(self.by_level@, 6) == sum_counts(self.by_level@)) by {
                reveal_with_fuel(count_prefix, 7);
            }
        }
        out
    }

    /// Counts one entry under its level.
    pub fn count(&mut self, entry: &LogEntry)
        requires
            old(self).total_of() < usize::MAX,
        ensures
            counted_once(*old(self), *final(self), entry@.level),
    {
        proof {
            use_type_invariant(&*self);
        }
        let sev = entry.level().severity();
        let current = match self.by_level.get(&sev) {
            Some(c) => *c,
            None => 0,
        };
        proof {
            assert(current as nat == count_in(self.by_level@, sev));
            lemma_count_le_sum(self.by_level@, sev);
        }
        let mut counts = self.by_level.clone();
        counts.insert(sev, current + 1);
        proof {
            lemma_increment(self.by_level@, sev, (current + 1) as usize);
            assert forall|l: LogLevel| l != entry@.level implies severity_of(l) != sev by {
                lemma_severity_injective(l, entry@.level);
            }
        }
        *self = Summary { total: self.total + 1, by_level: counts };
    }
}

/// The levels below severity `n` that have a non-zero counter, each with
/// its count, from the least to the most severe.
pub open spec fn listing_below(s: Summary, n: nat) -> Seq<(LogLevel, usize)>
    decreases n,
{
    if n == 0 {
        Seq::empty()
    } else {
        let prev = listing_below(s, (n - 1) as nat);
        let level = level_of_severity((n - 1) as u8);
        if s.count_of(level) > 0 {
            prev.push((level, s.count_of(level) as usize))
        } else {
            prev
        }
    }
}

/// What `iter` lists: every level with a non-zero counter, with its count,
/// from the least to the most severe.
pub open spec fn listing(s: Summary) -> Seq<(LogLevel, usize)> {
    listing_below(s, 6)
}

/// Two summaries with the same counters list the same levels and counts.
pub proof fn lemma_listing_determined_by_counts(s1: Summary, s2: Summary)
    requires
        forall|level: LogLevel| #[trigger] s1.count_of(level) == s2.count_of(level),
    ensures
        listing(s1) == listing(s2),
{
    lemma_listing_below_determined(s1, s2, 6);
}

proof fn lemma_listing_below_determined(s1: Summary, s2: Summary, n: nat)
    requires
        forall|level: LogLevel| #[trigger] s1.count_of(level) == s2.count_of(level),
    ensures
        listing_below(s1, n) == listing_below(s2, n),
    decreases n,
{
    if n > 0 {
        lemma_listing_below_determined(s1, s2, (n - 1) as nat);
        let level = level_of_severity((n - 1) as u8);
        assert(s1.count_of(level) == s2.count_of(level));
    }
}

/// `after` is `before` with one more entry of `level` counted: the total
/// and that level's counter are one higher, the other counters unchanged.
pub open spec fn counted_once(before: Summary, after: Summary, level: LogLevel) -> bool {
    &&& after.total_of() == before.total_of() + 1
    &&& after.count_of(level) == before.count_of(level) + 1
    &&& forall|other: LogLevel|
        other != level ==> #[trigger] after.count_of(other) == before.count_of(other)
}

/// Counting two entries gives the same totals and counters in either
/// order.
pub proof fn lemma_counting_commutes(
    start: Summary,
    a_then: Summary,
    a_then_b: Summary,
    b_then: Summary,
    b_then_a: Summary,
    a: LogLevel,
    b: LogLevel,
)
    requires
        counted_once(start, a_then, a),
        counted_once(a_then, a_then_b, b),
        counted_once(start, b_then, b),
        counted_once(b_then, b_then_a, a),
    ensures
        a_then_b.total_of() == b_then_a.total_of(),
        forall|level: LogLevel| #[trigger] a_then_b.count_of(level) == b_then_a.count_of(level),
        listing(a_then_b) == listing(b_then_a),
{
    assert forall|level: LogLevel| #[trigger] a_then_b.count_of(level) == b_then_a.count_of(
        level,
    ) by {
        if level != a {
            assert(a_then.count_of(level) == start.count_of(level));
            assert(b_then_a.count_of(level) == b_then.count_of(level));
        }
        if level != b {
            assert(a_then_b.count_of(level) == a_then.count_of(level));
            assert(b_then.count_of(level) == start.count_of(level));
        }
    }
    lemma_listing_determined_by_counts(a_then_b, b_then_a);
}

impl Default for Summary {
    /// An empty summary: nothing counted.
    fn default() -> (r: Self)
        ensures
            r.total_of() == 0,
            forall|level: LogLevel| #[trigger] r.count_of(level) == 0,
    {
        Summary { total: 0, by_level: BTreeMap::new() }
    }
}

} // verus!
