use vstd::prelude::*;
use vstd::arithmetic::div_mod::{lemma_div_is_ordered, lemma_fundamental_div_mod,
    lemma_mod_division_less_than_divisor};

verus! {

/// Upper end of the observable range, in microseconds (ten seconds). Values
/// above it are clamped into the final overflow bucket.
pub const CEILING_MICROS: u64 = 10_000_000_000;

/// Number of samples in `s` that are at most `bound`.
pub open spec fn count_le(s: Seq<u64>, bound: u64) -> int
    decreases s.len(),
{
    if s.len() == 0 {
        0
    } else {
        count_le(s.drop_last(), bound) + if s.last() <= bound {
            1int
        } else {
            0int
        }
    }
}

/// Largest sample in `s`, or zero when `s` is empty.
pub open spec fn seq_max(s: Seq<u64>) -> u64
    decreases s.len(),
{
    if s.len() == 0 {
        0u64
    } else if s.last() > seq_max(s.drop_last()) {
        s.last()
    } else {
        seq_max(s.drop_last())
    }
}

/// Sum of the first `k` counters.
pub open spec fn sum_prefix(counts: Seq<u64>, k: int) -> int
    decreases k,
{
    if k <= 0 {
        0
    } else {
        sum_prefix(counts, k - 1) + counts[k - 1]
    }
}

/// The boundary after `b` on the ladder: six fifths of `b`, rounded up —
/// about twenty percent relative resolution at any scale.
pub open spec fn next_boundary(b: u64) -> int {
    (b * 6 + 4) / 5
}

/// `a / b` rounded towards positive infinity (for positive `b`).
pub open spec fn ceil_div(a: int, b: int) -> int {
    (a + b - 1) / b
}

/// The rank of the observation that the quantile `q_num / q_den` asks for,
/// out of `total` observations.
pub open spec fn target_rank(total: u64, q_num: u64, q_den: u64) -> int {
    ceil_div(total * q_num, q_den as int)
}

/// The boundary the quantile scan reports: the first boundary whose bucket
/// accumulates `target` observations, that is, the smallest boundary `b`
/// with at least `target` samples at or below `b`; the last boundary stands
/// in when no earlier one reaches the target (the overflow bucket).
pub open spec fn quantile_from(bounds: Seq<u64>, samples: Seq<u64>, target: int) -> u64
    decreases bounds.len(),
{
    if bounds.len() == 0 {
        0u64
    } else if bounds.len() == 1 {
        bounds[0]
    } else if count_le(samples, bounds[0]) >= target {
        bounds[0]
    } else {
        quantile_from(bounds.drop_first(), samples, target)
    }
}

pub proof fn lemma_count_le_bounds(s: Seq<u64>, bound: u64)
    ensures
        0 <= count_le(s, bound) <= s.len(),
    decreases s.len(),
{
    if s.len() > 0 {
        lemma_count_le_bounds(s.drop_last(), bound);
    }
}

pub proof fn lemma_count_le_push(s: Seq<u64>, v: u64, bound: u64)
    ensures
        count_le(s.push(v), bound) == count_le(s, bound) + if v <= bound {
            1int
        } else {
            0int
        },
{
    assert(s.push(v).drop_last() =~= s);
    assert(s.push(v).last() == v);
}

/// When every sample is counted by `count_le`, every sample is at most the
/// bound.
pub proof fn lemma_count_le_full(s: Seq<u64>, bound: u64)
    requires
        count_le(s, bound) == s.len(),
    ensures
        forall|i: int| 0 <= i < s.len() ==> s[i] <= bound,
    decreases s.len(),
{
    if s.len() > 0 {
        lemma_count_le_bounds(s.drop_last(), bound);
        assert(count_le(s, bound) <= count_le(s.drop_last(), bound) + 1);
        lemma_count_le_full(s.drop_last(), bound);
        assert(forall|i: int| 0 <= i < s.len() - 1 ==> s[i] == s.drop_last()[i]);
    }
}

pub proof fn lemma_seq_max_push(s: Seq<u64>, v: u64)
    ensures
        seq_max(s.push(v)) == if v > seq_max(s) {
            v
        } else {
            seq_max(s)
        },
{
    assert(s.push(v).drop_last() =~= s);
    assert(s.push(v).last() == v);
}

/// A nonempty sequence attains its maximum.
pub proof fn lemma_seq_max_attained(s: Seq<u64>)
    requires
        s.len() > 0,
    ensures
        exists|i: int| 0 <= i < s.len() && s[i] == seq_max(s),
    decreases s.len(),
{
    if s.len() == 1 {
        assert(s[0] == s.last());
    } else if s.last() > seq_max(s.drop_last()) {
        assert(s[s.len() - 1] == seq_max(s));
    } else {
        lemma_seq_max_attained(s.drop_last());
        let i = choose|i: int| 0 <= i < s.drop_last().len() && s.drop_last()[i] == seq_max(
            s.drop_last(),
        );
        assert(s[i] == seq_max(s));
    }
}

pub proof fn lemma_sum_prefix_nonneg(counts: Seq<u64>, k: int)
    requires
        k <= counts.len(),
    ensures
        sum_prefix(counts, k) >= 0,
    decreases k,
{
    if k > 0 {
        lemma_sum_prefix_nonneg(counts, k - 1);
    }
}

pub proof fn lemma_sum_prefix_monotone(counts: Seq<u64>, i: int, j: int)
    requires
        0 <= i <= j <= counts.len(),
    ensures
        sum_prefix(counts, i) <= sum_prefix(counts, j),
    decreases j - i,
{
    if i < j {
        lemma_sum_prefix_monotone(counts, i, j - 1);
    }
}

pub proof fn lemma_sum_prefix_zero(counts: Seq<u64>, k: int)
    requires
        0 <= k <= counts.len(),
        forall|i: int| 0 <= i < counts.len() ==> counts[i] == 0,
    ensures
        sum_prefix(counts, k) == 0,
    decreases k,
{
    if k > 0 {
        lemma_sum_prefix_zero(counts, k - 1);
    }
}

/// Raising one counter raises exactly the prefix sums that cover it.
pub proof fn lemma_sum_prefix_update(counts: Seq<u64>, idx: int, v: u64, k: int)
    requires
        0 <= idx < counts.len(),
        0 <= k <= counts.len(),
    ensures
        sum_prefix(counts.update(idx, v), k) == sum_prefix(counts, k) + if idx < k {
            v - counts[idx]
        } else {
            0int
        },
    decreases k,
{
    if k > 0 {
        lemma_sum_prefix_update(counts, idx, v, k - 1);
    }
}

/// The reported quantile is never below the first boundary of a sorted
/// boundary ladder.
pub proof fn lemma_quantile_from_lower(bounds: Seq<u64>, samples: Seq<u64>, target: int)
    requires
        bounds.len() >= 1,
        forall|i: int, j: int| 0 <= i < j < bounds.len() ==> bounds[i] < bounds[j],
    ensures
        quantile_from(bounds, samples, target) >= bounds[0],
    decreases bounds.len(),
{
    if bounds.len() > 1 && count_le(samples, bounds[0]) < target {
        lemma_quantile_from_lower(bounds.drop_first(), samples, target);
    }
}

/// A higher target rank never yields a lower boundary.
pub proof fn lemma_quantile_from_monotone(bounds: Seq<u64>, samples: Seq<u64>, t1: int, t2: int)
    requires
        bounds.len() >= 1,
        forall|i: int, j: int| 0 <= i < j < bounds.len() ==> bounds[i] < bounds[j],
        t1 <= t2,
    ensures
        quantile_from(bounds, samples, t1) <= quantile_from(bounds, samples, t2),
    decreases bounds.len(),
{
    if bounds.len() > 1 {
        let c = count_le(samples, bounds[0]);
        if c >= t1 && c < t2 {
            lemma_quantile_from_lower(bounds.drop_first(), samples, t2);
        } else if c < t1 {
            lemma_quantile_from_monotone(bounds.drop_first(), samples, t1, t2);
        }
    }
}

/// With the target rank equal to the number of samples and the largest
/// sample within the last boundary, the reported boundary covers the
/// largest sample.
pub proof fn lemma_quantile_from_covers_max(bounds: Seq<u64>, samples: Seq<u64>, target: int)
    requires
        bounds.len() >= 1,
        forall|i: int, j: int| 0 <= i < j < bounds.len() ==> bounds[i] < bounds[j],
        samples.len() > 0,
        target == samples.len(),
        seq_max(samples) <= bounds.last(),
    ensures
        quantile_from(bounds, samples, target) >= seq_max(samples),
    decreases bounds.len(),
{
    if bounds.len() == 1 {
        assert(bounds[0] == bounds.last());
    } else {
        let c = count_le(samples, bounds[0]);
        if c >= target {
            lemma_count_le_bounds(samples, bounds[0]);
            assert(c == samples.len());
            lemma_count_le_full(samples, bounds[0]);
            lemma_seq_max_attained(samples);
        } else {
            assert(bounds.drop_first().last() == bounds.last());
            lemma_quantile_from_covers_max(bounds.drop_first(), samples, target);
        }
    }
}

/// `ceil_div(a, b) * b` brackets `a`: the quotient is the least integer
/// whose multiple of `b` reaches `a`.
pub proof fn lemma_ceil_div_bracket(a: int, b: int)
    requires
        a >= 0,
        b >= 1,
    ensures
        ceil_div(a, b) * b >= a,
        ceil_div(a, b) * b <= a + b - 1,
        ceil_div(a, b) >= 0,
{
    lemma_fundamental_div_mod(a + b - 1, b);
    lemma_mod_division_less_than_divisor(a + b - 1, b);
    lemma_div_is_ordered(0, a + b - 1, b);
    assert(b * ceil_div(a, b) == ceil_div(a, b) * b) by (nonlinear_arith);
}

/// The target rank never exceeds the total for a fraction at most one.
pub proof fn lemma_ceil_div_le_total(t: int, q_num: int, q_den: int)
    requires
        t >= 0,
        1 <= q_den,
        0 <= q_num <= q_den,
    ensures
        0 <= ceil_div(t * q_num, q_den) <= t,
{
    assert(t * q_num >= 0) by (nonlinear_arith)
        requires t >= 0 && q_num >= 0;
    lemma_ceil_div_bracket(t * q_num, q_den);
    let k = ceil_div(t * q_num, q_den);
    assert(k * q_den <= t * q_num + q_den - 1);
    assert(t * q_num <= t * q_den) by (nonlinear_arith)
        requires t >= 0 && q_num <= q_den;
    assert(k * q_den <= t * q_den + q_den - 1);
    assert(k <= t) by (nonlinear_arith)
        requires k * q_den <= t * q_den + q_den - 1 && q_den >= 1;
}

/// A larger fraction asks for a rank at least as high.
pub proof fn lemma_ceil_div_monotone(a1: int, b1: int, a2: int, b2: int)
    requires
        a1 >= 0,
        a2 >= 0,
        b1 >= 1,
        b2 >= 1,
        a1 * b2 <= a2 * b1,
    ensures
        ceil_div(a1, b1) <= ceil_div(a2, b2),
{
    lemma_ceil_div_bracket(a1, b1);
    lemma_ceil_div_bracket(a2, b2);
    let k1 = ceil_div(a1, b1);
    let k2 = ceil_div(a2, b2);
    assert(a2 <= k2 * b2);
    assert(a1 <= k2 * b1) by (nonlinear_arith)
        requires a1 * b2 <= a2 * b1 && a2 <= k2 * b2 && b1 >= 1 && b2 >= 1 && a1 >= 0;
    assert(k1 * b1 <= a1 + b1 - 1);
    assert(k1 <= k2) by (nonlinear_arith)
        requires k1 * b1 <= a1 + b1 - 1 && a1 <= k2 * b1 && b1 >= 1;
}

/// Fixed-shape latency histogram: logarithmically spaced bucket boundaries
/// (inclusive upper limits), one counter per bucket, a running total and a
/// running, unbucketed maximum. `samples` is the ghost record of every
/// observation; the counters are pinned to it by `wf`.
pub struct LatencyHistogram {
    pub boundaries: Vec<u64>,
    pub counts: Vec<u64>,
    pub total: u64,
    pub max: u64,
    pub samples: Ghost<Seq<u64>>,
}

impl LatencyHistogram {
    /// Well-formedness: the boundary ladder is strictly increasing, each
    /// prefix of counters sums to the number of samples the corresponding
    /// boundary covers, the counters in all sum to the number of samples
    /// (so values beyond the last boundary sit in its bucket), and `total`
    /// and `max` track the sample record exactly.
    pub open spec fn wf(&self) -> bool {
        &&& self.boundaries@.len() >= 1
        &&& self.counts@.len() == self.boundaries@.len()
        &&& forall|i: int, j: int|
            0 <= i < j < self.boundaries@.len() ==> self.boundaries@[i] < self.boundaries@[j]
        &&& self.total == self.samples@.len()
        &&& self.max == seq_max(self.samples@)
        &&& forall|k: int|
            0 <= k < self.boundaries@.len() - 1 ==> sum_prefix(self.counts@, k + 1) == count_le(
                self.samples@,
                self.boundaries@[k],
            )
        &&& sum_prefix(self.counts@, self.counts@.len() as int) == self.samples@.len()
    }

    /// The estimate the quantile query reports for the fraction
    /// `q_num / q_den` of the observations: zero when nothing was recorded,
    /// otherwise the boundary of the bucket holding the observation of the
    /// target rank.
    pub open spec fn quantile_spec(&self, q_num: u64, q_den: u64) -> u64 {
        if self.total == 0 {
            0u64
        } else {
            quantile_from(self.boundaries@, self.samples@, target_rank(self.total, q_num, q_den))
        }
    }

    /// Builds the bucket ladder: boundaries start at one microsecond and
    /// grow by a factor of six fifths, rounded up, until the ceiling, which
    /// is appended as the final overflow boundary. All counters start at
    /// zero.
    pub fn new() -> (h: LatencyHistogram)
        ensures
            h.wf(),
            h.samples@ == Seq::<u64>::empty(),
            h.total == 0,
            h.max == 0,
            h.boundaries@.len() >= 2,
            h.boundaries@[0] == 1,
            h.boundaries@.last() == CEILING_MICROS,
            forall|i: int|
                0 <= i < h.boundaries@.len() - 2 ==> h.boundaries@[i + 1] == next_boundary(
                    h.boundaries@[i],
                ),
            next_boundary(h.boundaries@[h.boundaries@.len() - 2]) >= CEILING_MICROS,
    {
        let mut boundaries: Vec<u64> = Vec::new();
        let mut cur: u64 = 1;
        while cur < CEILING_MICROS
            invariant
                1 <= cur <= CEILING_MICROS,
                boundaries@.len() == 0 ==> cur == 1,
                forall|i: int| 0 <= i < boundaries@.len() ==> boundaries@[i] < CEILING_MICROS,
                forall|i: int| 0 <= i < boundaries@.len() ==> boundaries@[i] < cur,
                forall|i: int, j: int|
                    0 <= i < j < boundaries@.len() ==> boundaries@[i] < boundaries@[j],
                boundaries@.len() >= 1 ==> boundaries@[0] == 1,
                forall|i: int|
                    0 <= i < boundaries@.len() - 1 ==> boundaries@[i + 1] == next_boundary(
                        boundaries@[i],
                    ),
                boundaries@.len() >= 1 ==> {
                    if next_boundary(boundaries@.last()) < CEILING_MICROS {
                        cur == next_boundary(boundaries@.last())
                    } else {
                        cur == CEILING_MICROS
                    }
                },
            decreases CEILING_MICROS - cur,
        {
            boundaries.push(cur);
            let next = (cur * 6 + 4) / 5;
            proof {
                assert(next > cur) by (nonlinear_arith)
                    requires next == (cur * 6 + 4) / 5 && 1 <= cur;
            }
            cur = if next >= CEILING_MICROS {
                CEILING_MICROS
            } else {
                next
            };
        }
        boundaries.push(CEILING_MICROS);
        let n = boundaries.len();
        let mut counts: Vec<u64> = Vec::new();
        let mut i: usize = 0;
        while i < n
            invariant
                i <= n,
                counts@.len() == i,
                forall|k: int| 0 <= k < i ==> counts@[k] == 0,
            decreases n - i,
        {
            counts.push(0);
            i += 1;
        }
        let h = LatencyHistogram {
            boundaries,
            counts,
            total: 0,
            max: 0,
            samples: Ghost(Seq::empty()),
        };
        proof {
            lemma_sum_prefix_zero(h.counts@, h.counts@.len() as int);
            assert forall|k: int| 0 <= k < h.boundaries@.len() - 1 implies sum_prefix(
                h.counts@,
                k + 1,
            ) == count_le(h.samples@, h.boundaries@[k]) by {
                lemma_sum_prefix_zero(h.counts@, k + 1);
            }
        }
        h
    }

    /// Records one observation, already converted to microseconds. The
    /// value lands in the bucket of the first boundary at or above it;
    /// values beyond the last boundary land in the final overflow bucket
    /// and are never dropped. The total always grows by one and the running
    /// max rises to the value if it exceeds the old max.
    pub fn record(&mut self, micros: u64)
        requires
            old(self).wf(),
            old(self).total < u64::MAX,
        ensures
            final(self).wf(),
            final(self).boundaries@ == old(self).boundaries@,
            final(self).samples@ == old(self).samples@.push(micros),
            final(self).total == old(self).total + 1,
            final(self).max == if micros > old(self).max {
                micros
            } else {
                old(self).max
            },
    {
        let n = self.boundaries.len();
        let mut idx: usize = 0;
        while idx + 1 < n && micros > self.boundaries[idx]
            invariant
                *self == *old(self),
                n == self.boundaries@.len(),
                self.wf(),
                0 <= idx < n,
                forall|j: int| 0 <= j < idx ==> self.boundaries@[j] < micros,
            decreases n - idx,
        {
            idx += 1;
        }
        proof {
            lemma_sum_prefix_nonneg(self.counts@, idx as int);
            lemma_sum_prefix_monotone(self.counts@, idx as int + 1, self.counts@.len() as int);
            assert(sum_prefix(self.counts@, idx as int + 1) == sum_prefix(self.counts@, idx as int)
                + self.counts@[idx as int]);
        }
        let c = self.counts[idx];
        self.counts[idx] = c + 1;
        self.total = self.total + 1;
        if micros > self.max {
            self.max = micros;
        }
        proof {
            let ghost old_samples = self.samples@;
            self.samples@ = self.samples@.push(micros);
            lemma_seq_max_push(old_samples, micros);
            let bs = self.boundaries@;
            let oldc = old(self).counts@;
            let newc = self.counts@;
            assert(newc == oldc.update(idx as int, (c + 1) as u64));
            assert forall|k: int| 0 <= k < bs.len() - 1 implies sum_prefix(newc, k + 1) == count_le(
                self.samples@,
                bs[k],
            ) by {
                lemma_sum_prefix_update(oldc, idx as int, (c + 1) as u64, k + 1);
                lemma_count_le_push(old_samples, micros, bs[k]);
                if k >= idx {
                    if (idx as int) < bs.len() - 1 {
                        assert(micros <= bs[idx as int]);
                        assert(bs[idx as int] <= bs[k]);
                    }
                } else {
                    assert(bs[k] < micros);
                }
            }
            lemma_sum_prefix_update(oldc, idx as int, (c + 1) as u64, newc.len() as int);
        }
    }

    /// Estimated latency at the quantile `q_num / q_den` (a fraction
    /// between zero and one): scans the buckets in increasing order,
    /// accumulating counts, and reports the boundary of the first bucket
    /// whose cumulative count reaches the target rank. With no observations
    /// the estimate is zero, never an error.
    pub fn quantile(&self, q_num: u64, q_den: u64) -> (r: u64)
        requires
            self.wf(),
            1 <= q_den,
            q_num <= q_den,
        ensures
            r == self.quantile_spec(q_num, q_den),
            self.total == 0 ==> r == 0,
    {
        if self.total == 0 {
            return 0;
        }
        proof {
            lemma_ceil_div_le_total(self.total as int, q_num as int, q_den as int);
            assert((self.total as int) * (q_num as int) <= (u64::MAX as int) * (u64::MAX as int))
                by (nonlinear_arith)
                requires
                    0 <= self.total as int <= u64::MAX as int,
                    0 <= q_num as int <= u64::MAX as int,
            ;
        }
        let wide: u128 = ((self.total as u128) * (q_num as u128) + (q_den as u128) - 1) / (
        q_den as u128);
        let target: u64 = wide as u64;
        proof {
            assert(target == target_rank(self.total, q_num, q_den));
            assert(self.boundaries@.skip(0) =~= self.boundaries@);
        }
        let ghost goal = quantile_from(
            self.boundaries@,
            self.samples@,
            target_rank(self.total, q_num, q_den),
        );
        let n = self.counts.len();
        let mut sum: u64 = 0;
        let mut i: usize = 0;
        while i < n
            invariant
                self.wf(),
                1 <= q_den,
                q_num <= q_den,
                n == self.counts@.len(),
                0 < self.total,
                i < n,
                target == target_rank(self.total, q_num, q_den),
                0 <= target <= self.total,
                sum == sum_prefix(self.counts@, i as int),
                forall|j: int| 0 <= j < i ==> #[trigger] sum_prefix(self.counts@, j + 1) < target,
                goal == quantile_from(self.boundaries@.skip(i as int), self.samples@, target as int),
                goal == self.quantile_spec(q_num, q_den),
            decreases n - i,
        {
            proof {
                lemma_sum_prefix_nonneg(self.counts@, i as int);
                lemma_sum_prefix_monotone(self.counts@, i as int + 1, n as int);
                assert(sum_prefix(self.counts@, i as int + 1) == sum_prefix(self.counts@, i as int)
                    + self.counts@[i as int]);
            }
            let c = self.counts[i];
            sum = sum + c;
            if sum >= target {
                proof {
                    let tail = self.boundaries@.skip(i as int);
                    assert(tail[0] == self.boundaries@[i as int]);
                    if i as int == n - 1 {
                        assert(tail.len() == 1);
                    } else {
                        assert(sum == count_le(self.samples@, self.boundaries@[i as int]));
                    }
                }
                return self.boundaries[i];
            }
            proof {
                if i as int == n - 1 {
                    assert(sum == sum_prefix(self.counts@, n as int));
                    assert(sum == self.total);
                    assert(false);
                }
                let tail = self.boundaries@.skip(i as int);
                assert(tail[0] == self.boundaries@[i as int]);
                assert(count_le(self.samples@, self.boundaries@[i as int]) < target);
                assert(tail.drop_first() =~= self.boundaries@.skip(i as int + 1));
            }
            i += 1;
        }
        proof {
            assert(false);
        }
        0
    }
}

/// Raising the requested quantile never lowers the estimate: for one
/// histogram and two quantile fractions with `q1 <= q2`, the estimate at
/// `q1` is at most the estimate at `q2`.
pub proof fn lemma_quantile_monotone(
    h: &LatencyHistogram,
    q1_num: u64,
    q1_den: u64,
    q2_num: u64,
    q2_den: u64,
)
    requires
        h.wf(),
        1 <= q1_den,
        q1_num <= q1_den,
        1 <= q2_den,
        q2_num <= q2_den,
        q1_num * q2_den <= q2_num * q1_den,
    ensures
        h.quantile_spec(q1_num, q1_den) <= h.quantile_spec(q2_num, q2_den),
{
    if h.total != 0 {
        let t = h.total as int;
        assert(t * q1_num * q2_den <= t * q2_num * q1_den) by (nonlinear_arith)
            requires t >= 0 && q1_num * q2_den <= q2_num * q1_den;
        lemma_ceil_div_monotone(t * q1_num, q1_den as int, t * q2_num, q2_den as int);
        lemma_quantile_from_monotone(
            h.boundaries@,
            h.samples@,
            target_rank(h.total, q1_num, q1_den),
            target_rank(h.total, q2_num, q2_den),
        );
    }
}

/// At the full quantile (fraction one) the estimate is a boundary at or
/// above the largest recorded value, provided that value is within the
/// ceiling; and the running max is exactly the largest recorded value.
pub proof fn lemma_full_quantile_covers_max(h: &LatencyHistogram)
    requires
        h.wf(),
        h.total > 0,
        h.max <= h.boundaries@.last(),
    ensures
        h.quantile_spec(1, 1) >= h.max,
        h.max == seq_max(h.samples@),
{
    let t = h.total as int;
    assert(target_rank(h.total, 1, 1) == t);
    lemma_quantile_from_covers_max(h.boundaries@, h.samples@, t);
}

/// A value above the last boundary is clamped into the final overflow
/// bucket: between a state and the state after that value is recorded, the
/// last counter, the total and the sample record each grow by the one
/// observation, and the max covers it.
pub proof fn lemma_overflow_goes_to_last_bucket(
    before: &LatencyHistogram,
    after: &LatencyHistogram,
    v: u64,
)
    requires
        before.wf(),
        after.wf(),
        after.boundaries@ == before.boundaries@,
        after.samples@ == before.samples@.push(v),
        v > before.boundaries@.last(),
    ensures
        after.counts@.len() == before.counts@.len(),
        after.counts@.last() == before.counts@.last() + 1,
        after.total == before.total + 1,
        after.max >= v,
{
    let n = before.counts@.len() as int;
    assert(sum_prefix(after.counts@, n) == sum_prefix(after.counts@, n - 1)
        + after.counts@[n - 1]);
    assert(sum_prefix(before.counts@, n) == sum_prefix(before.counts@, n - 1)
        + before.counts@[n - 1]);
    if n >= 2 {
        let b = before.boundaries@[n - 2];
        lemma_count_le_push(before.samples@, v, b);
        assert(b < before.boundaries@.last());
        assert(sum_prefix(after.counts@, n - 1) == sum_prefix(before.counts@, n - 1));
    }
    lemma_seq_max_push(before.samples@, v);
}

} // verus!
