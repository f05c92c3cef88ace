//! Counts and latencies gathered over the attempts of one connection test.
//!
//! Latencies are held in whole nanoseconds, the resolution at which the
//! tool measures them. The figures that are ratios (the loss percentage and
//! the mean latencies) are left to the caller: this module gives the counts,
//! totals and order statistics they are computed from.
use vstd::prelude::*;
use vstd::relations::{sorted_by, total_ordering};
use vstd::seq_lib::lemma_sorted_unique;

verus! {

broadcast use vstd::seq_lib::group_to_multiset_ensures;

/// The largest latency, in nanoseconds, that a measurement can hold.
pub open spec fn max_latency() -> int {
    0xffff_ffff_ffff_ffff
}

/// Whether a sequence of latencies is in ascending order.
pub open spec fn is_ascending(s: Seq<u64>) -> bool {
    forall|i: int, j: int| 0 <= i <= j < s.len() ==> s[i] <= s[j]
}

/// Whether `sorted` holds the latencies of `of` in ascending order.
pub open spec fn is_sorted_arrangement(sorted: Seq<u64>, of: Seq<u64>) -> bool {
    &&& is_ascending(sorted)
    &&& sorted.to_multiset() == of.to_multiset()
}

/// The sum of the latencies.
pub open spec fn latency_sum(s: Seq<u64>) -> int
    decreases s.len(),
{
    if s.len() == 0 {
        0
    } else {
        latency_sum(s.drop_last()) + s.last()
    }
}

/// The distance between two latencies.
pub open spec fn latency_gap(a: u64, b: u64) -> int {
    if a >= b {
        a - b
    } else {
        b - a
    }
}

/// The sum of the distances between consecutive latencies.
pub open spec fn jitter_sum(s: Seq<u64>) -> int
    decreases s.len(),
{
    if s.len() < 2 {
        0
    } else {
        jitter_sum(s.drop_last()) + latency_gap(s[s.len() - 1], s[s.len() - 2])
    }
}

/// Attempts of one test, how many succeeded and failed, and the latency of
/// each success in nanoseconds, in the order they were recorded.
#[derive(Debug, Clone)]
pub struct Statistics {
    pub attempts: u32,
    pub successes: u32,
    pub failures: u32,
    pub latencies_ns: Vec<u64>,
}

impl Statistics {
    /// Every attempt either succeeded or failed, and each success has its
    /// latency.
    pub open spec fn is_consistent(&self) -> bool {
        &&& self.attempts == self.successes + self.failures
        &&& self.latencies_ns@.len() == self.successes
    }

    pub fn new() -> (s: Self)
        ensures
            s.attempts == 0,
            s.successes == 0,
            s.failures == 0,
            s.latencies_ns@ == Seq::<u64>::empty(),
            s.is_consistent(),
    {
        Statistics { attempts: 0, successes: 0, failures: 0, latencies_ns: Vec::new() }
    }

    /// Records a successful attempt and its latency.
    pub fn record_success(&mut self, latency_ns: u64)
        requires
            old(self).attempts < u32::MAX,
            old(self).successes < u32::MAX,
        ensures
            final(self).attempts == old(self).attempts + 1,
            final(self).successes == old(self).successes + 1,
            final(self).failures == old(self).failures,
            final(self).latencies_ns@ == old(self).latencies_ns@.push(latency_ns),
            old(self).is_consistent() ==> final(self).is_consistent(),
    {
        self.attempts = self.attempts + 1;
        self.successes = self.successes + 1;
        self.latencies_ns.push(latency_ns);
    }

    /// Records a failed attempt.
    pub fn record_failure(&mut self)
        requires
            old(self).attempts < u32::MAX,
            old(self).failures < u32::MAX,
        ensures
            final(self).attempts == old(self).attempts + 1,
            final(self).successes == old(self).successes,
            final(self).failures == old(self).failures + 1,
            final(self).latencies_ns@ == old(self).latencies_ns@,
            old(self).is_consistent() ==> final(self).is_consistent(),
    {
        self.attempts = self.attempts + 1;
        self.failures = self.failures + 1;
    }

    /// The lowest latency, if any success was recorded.
    pub fn min_latency_ns(&self) -> (r: Option<u64>)
        ensures
            r is None <==> self.latencies_ns@.len() == 0,
            r matches Some(m) ==> {
                &&& self.latencies_ns@.contains(m)
                &&& forall|i: int| 0 <= i < self.latencies_ns@.len() ==> m <= self.latencies_ns@[i]
            },
    {
        let n = self.latencies_ns.len();
        if n == 0 {
            return None;
        }
        let mut best = self.latencies_ns[0];
        let mut at: usize = 0;
        let mut i: usize = 1;
        while i < n
            invariant
                n == self.latencies_ns@.len(),
                1 <= i <= n,
                at < i,
                best == self.latencies_ns@[at as int],
                forall|k: int| 0 <= k < i ==> best <= self.latencies_ns@[k],
            decreases n - i,
        {
            if self.latencies_ns[i] < best {
                best = self.latencies_ns[i];
                at = i;
            }
            i = i + 1;
        }
        Some(best)
    }

    /// The highest latency, if any success was recorded.
    pub fn max_latency_ns(&self) -> (r: Option<u64>)
        ensures
            r is None <==> self.latencies_ns@.len() == 0,
            r matches Some(m) ==> {
                &&& self.latencies_ns@.contains(m)
                &&& forall|i: int| 0 <= i < self.latencies_ns@.len() ==> self.latencies_ns@[i] <= m
            },
    {
        let n = self.latencies_ns.len();
        if n == 0 {
            return None;
        }
        let mut best = self.latencies_ns[0];
        let mut at: usize = 0;
        let mut i: usize = 1;
        while i < n
            invariant
                n == self.latencies_ns@.len(),
                1 <= i <= n,
                at < i,
                best == self.latencies_ns@[at as int],
                forall|k: int| 0 <= k < i ==> self.latencies_ns@[k] <= best,
            decreases n - i,
        {
            if self.latencies_ns[i] > best {
                best = self.latencies_ns[i];
                at = i;
            }
            i = i + 1;
        }
        Some(best)
    }

    /// The sum of the recorded latencies; the mean latency is this sum over
    /// their number.
    pub fn total_latency_ns(&self) -> (r: u128)
        ensures
            r == latency_sum(self.latencies_ns@),
    {
        let n = self.latencies_ns.len();
        let mut total: u128 = 0;
        let mut i: usize = 0;
        assert(self.latencies_ns@.take(0) =~= Seq::<u64>::empty());
        while i < n
            invariant
                n == self.latencies_ns@.len(),
                i <= n,
                total == latency_sum(self.latencies_ns@.take(i as int)),
                total <= i * max_latency(),
            decreases n - i,
        {
            assert(self.latencies_ns@.take(i + 1).drop_last() =~= self.latencies_ns@.take(
                i as int,
            ));
            total = total + self.latencies_ns[i] as u128;
            i = i + 1;
        }
        assert(self.latencies_ns@.take(n as int) =~= self.latencies_ns@);
        total
    }

    /// The sum of the distances between consecutive latencies, when at least
    /// two were recorded; the jitter is this sum over the number of
    /// consecutive pairs.
    pub fn jitter_total_ns(&self) -> (r: Option<u128>)
        ensures
            r is None <==> self.latencies_ns@.len() < 2,
            r matches Some(t) ==> t == jitter_sum(self.latencies_ns@),
    {
        let n = self.latencies_ns.len();
        if n < 2 {
            return None;
        }
        let mut total: u128 = 0;
        let mut i: usize = 1;
        while i < n
            invariant
                n == self.latencies_ns@.len(),
                1 <= i <= n,
                total == jitter_sum(self.latencies_ns@.take(i as int)),
                total <= i * max_latency(),
            decreases n - i,
        {
            let a = self.latencies_ns[i];
            let b = self.latencies_ns[i - 1];
            let gap = if a >= b {
                a - b
            } else {
                b - a
            };
            proof {
                let t = self.latencies_ns@.take(i + 1);
                assert(t.drop_last() =~= self.latencies_ns@.take(i as int));
                assert(t[t.len() - 1] == a);
                assert(t[t.len() - 2] == b);
            }
            total = total + gap as u128;
            i = i + 1;
        }
        assert(self.latencies_ns@.take(n as int) =~= self.latencies_ns@);
        Some(total)
    }

    /// The two middle latencies in ascending order: the lower and upper
    /// middle of an even count, the middle one twice for an odd count. The
    /// median is their mean.
    pub fn median_latencies_ns(&self) -> (r: Option<(u64, u64)>)
        ensures
            r is None <==> self.latencies_ns@.len() == 0,
            r matches Some((lower, upper)) ==> {
                let n = self.latencies_ns@.len() as int;
                exists|sorted: Seq<u64>|
                    {
                        &&& #[trigger] is_sorted_arrangement(sorted, self.latencies_ns@)
                        &&& lower == sorted[(n - 1) / 2]
                        &&& upper == sorted[n / 2]
                    }
            },
    {
        let n = self.latencies_ns.len();
        if n == 0 {
            return None;
        }
        let sorted = sort_ascending(&self.latencies_ns);
        let lower = sorted[(n - 1) / 2];
        let upper = sorted[n / 2];
        assert(is_sorted_arrangement(sorted@, self.latencies_ns@));
        Some((lower, upper))
    }
}

/// Sorts latencies into ascending order by insertion.
fn sort_ascending(values: &Vec<u64>) -> (sorted: Vec<u64>)
    ensures
        is_sorted_arrangement(sorted@, values@),
        sorted@.len() == values@.len(),
{
    let n = values.len();
    let mut sorted: Vec<u64> = Vec::new();
    let mut i: usize = 0;
    assert(values@.take(0) =~= Seq::<u64>::empty());
    while i < n
        invariant
            n == values@.len(),
            i <= n,
            is_ascending(sorted@),
            sorted@.to_multiset() == values@.take(i as int).to_multiset(),
        decreases n - i,
    {
        let x = values[i];
        let mut j: usize = sorted.len();
        while j > 0 && sorted[j - 1] > x
            invariant
                j <= sorted@.len(),
                forall|k: int| j <= k < sorted@.len() ==> sorted@[k] > x,
            decreases j,
        {
            j = j - 1;
        }
        let ghost before = sorted@;
        sorted.insert(j, x);
        proof {
            before.insert_ensures(j as int, x);
            assert forall|a: int, b: int| 0 <= a <= b < sorted@.len() implies sorted@[a]
                <= sorted@[b] by {
                if a < j && b < j {
                    assert(sorted@[a] == before[a] && sorted@[b] == before[b]);
                } else if a < j && b == j {
                    assert(sorted@[a] == before[a]);
                    assert(before[a] <= before[j - 1]);
                } else if a < j {
                    assert(sorted@[a] == before[a]);
                    assert(sorted@[b] == before[b - 1]);
                } else if a == j && b > j {
                    assert(sorted@[b] == before[b - 1]);
                } else if a > j {
                    assert(sorted@[a] == before[a - 1] && sorted@[b] == before[b - 1]);
                }
            }
            assert(values@.take(i + 1) =~= values@.take(i as int).push(x));
        }
        i = i + 1;
    }
    assert(values@.take(n as int) =~= values@);
    assert(sorted@.to_multiset().len() == values@.to_multiset().len());
    sorted
}

/// Ascending order is the order `<=` sorts by.
proof fn lemma_ascending_is_sorted_by(s: Seq<u64>)
    requires
        is_ascending(s),
    ensures
        sorted_by(s, |a: u64, b: u64| a <= b),
{
}

/// Latencies have exactly one ascending arrangement.
pub proof fn lemma_sorted_arrangement_unique(s: Seq<u64>, t: Seq<u64>, of: Seq<u64>)
    requires
        is_sorted_arrangement(s, of),
        is_sorted_arrangement(t, of),
    ensures
        s == t,
{
    let leq = |a: u64, b: u64| a <= b;
    lemma_ascending_is_sorted_by(s);
    lemma_ascending_is_sorted_by(t);
    assert(total_ordering(leq));
    lemma_sorted_unique(s, t, leq);
}

/// The middle latencies lie between the lowest and the highest one.
pub proof fn lemma_median_between_extremes(latencies: Seq<u64>, sorted: Seq<u64>, low: u64, high: u64)
    requires
        latencies.len() > 0,
        is_sorted_arrangement(sorted, latencies),
        forall|i: int| 0 <= i < latencies.len() ==> low <= latencies[i],
        forall|i: int| 0 <= i < latencies.len() ==> latencies[i] <= high,
    ensures
        low <= sorted[(latencies.len() - 1) / 2],
        sorted[(latencies.len() - 1) / 2] <= sorted[latencies.len() as int / 2],
        sorted[latencies.len() as int / 2] <= high,
{
    let n = latencies.len() as int;
    assert(sorted.to_multiset().len() == latencies.to_multiset().len());
    assert(sorted.len() == n);
    let lo = sorted[(n - 1) / 2];
    let hi = sorted[n / 2];
    assert(sorted.contains(lo));
    assert(sorted.contains(hi));
    assert(sorted.to_multiset().count(lo) > 0);
    assert(sorted.to_multiset().count(hi) > 0);
    assert(latencies.to_multiset().count(hi) > 0);
    assert(latencies.contains(lo));
    assert(latencies.contains(hi));
}

/// The sum over two runs of latencies is the sum of their sums.
pub proof fn lemma_latency_sum_concat(a: Seq<u64>, b: Seq<u64>)
    ensures
        latency_sum(a + b) == latency_sum(a) + latency_sum(b),
    decreases b.len(),
{
    if b.len() == 0 {
        assert(a + b =~= a);
    } else {
        lemma_latency_sum_concat(a, b.drop_last());
        assert((a + b).drop_last() =~= a + b.drop_last());
        assert((a + b).last() == b.last());
    }
}

/// The sum of one latency is that latency; of none, zero.
pub proof fn lemma_latency_sum_small(x: u64)
    ensures
        latency_sum(seq![x]) == x,
        latency_sum(Seq::<u64>::empty()) == 0,
{
    assert(seq![x].drop_last() =~= Seq::<u64>::empty());
    assert(seq![x].last() == x);
    assert(latency_sum(Seq::<u64>::empty()) == 0);
}

/// Joining two runs of latencies adds the distance across the join.
pub proof fn lemma_jitter_sum_concat(a: Seq<u64>, b: Seq<u64>)
    requires
        a.len() > 0,
        b.len() > 0,
    ensures
        jitter_sum(a + b) == jitter_sum(a) + latency_gap(b[0], a.last()) + jitter_sum(b),
    decreases b.len(),
{
    if b.len() == 1 {
        assert((a + b).drop_last() =~= a);
        assert((a + b)[(a + b).len() - 1] == b[0]);
        assert((a + b)[(a + b).len() - 2] == a.last());
        assert(jitter_sum(b) == 0);
    } else {
        let front = b.drop_last();
        lemma_jitter_sum_concat(a, front);
        assert((a + b).drop_last() =~= a + front);
        assert((a + b)[(a + b).len() - 1] == b[b.len() - 1]);
        assert((a + b)[(a + b).len() - 2] == b[b.len() - 2]);
        assert(front[0] == b[0]);
    }
}

/// A single latency has no jitter; two have the distance between them.
pub proof fn lemma_jitter_sum_small(x: u64, y: u64)
    ensures
        jitter_sum(seq![x]) == 0,
        jitter_sum(seq![x, y]) == latency_gap(y, x),
{
    assert(seq![x, y].drop_last() =~= seq![x]);
}

} // verus!
