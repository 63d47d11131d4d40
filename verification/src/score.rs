//! Exact representation of a (possibly aggregated) score.
//!
//! A score is a total number of points over a number of plays, so the mean
//! of integer scores is carried exactly and rounding to the nearest integer
//! (half away from zero) can be computed and reasoned about precisely.

use vstd::prelude::*;

verus! {

/// Rounding of `t / p` to the nearest integer for `t >= 0`, `p >= 1`,
/// halves rounded up (away from zero, since the value is non-negative).
pub open spec fn round_div_nonneg(t: int, p: int) -> int {
    t / p + if 2 * (t % p) >= p {
        1int
    } else {
        0int
    }
}

/// Rounding of `t / p` to the nearest integer, halves away from zero,
/// for any `t` and `p >= 1`.
pub open spec fn round_div(t: int, p: int) -> int {
    if t >= 0 {
        round_div_nonneg(t, p)
    } else {
        -round_div_nonneg(-t, p)
    }
}

/// A score kept exactly as a total number of points over a number of plays.
#[derive(Clone, Copy)]
pub struct Score {
    /// Total points over all plays folded into this score.
    pub total: i128,
    /// Number of plays folded into this score; always at least one.
    pub plays: u64,
}

impl Score {
    /// Each play contributes a signed 64-bit number of points, so a
    /// well-formed total is bounded by the number of plays on both sides.
    pub open spec fn wf(self) -> bool {
        &&& 1 <= self.plays
        &&& self.plays as int * (i64::MIN as int) <= self.total as int
        &&& self.total as int <= self.plays as int * (i64::MAX as int)
    }

    /// The exact mean value of this score, as a mathematical rational,
    /// is `total / plays`; this is its rounding to the nearest integer.
    pub open spec fn rounded_spec(self) -> int {
        round_div(self.total as int, self.plays as int)
    }

    /// A single observed score of `points`.
    pub fn single(points: i64) -> (s: Score)
        ensures
            s.total == points as int,
            s.plays == 1,
            s.wf(),
    {
        Score { total: points as i128, plays: 1 }
    }

    /// Pools two scores: totals and play counts add.
    pub fn merge(self, other: Score) -> (s: Score)
        requires
            self.wf(),
            other.wf(),
            self.plays as int + other.plays as int <= u64::MAX as int,
        ensures
            s.total as int == self.total as int + other.total as int,
            s.plays as int == self.plays as int + other.plays as int,
            s.wf(),
    {
        proof {
            lemma_merge_bounds(
                self.total as int,
                self.plays as int,
                other.total as int,
                other.plays as int,
            );
        }
        Score { total: self.total + other.total, plays: self.plays + other.plays }
    }

    /// The mean `total / plays` rounded to the nearest integer, halves
    /// away from zero.
    pub fn rounded(&self) -> (r: i64)
        requires
            self.wf(),
        ensures
            r as int == self.rounded_spec(),
    {
        let p: u128 = self.plays as u128;
        if self.total >= 0 {
            let t: u128 = self.total as u128;
            let q: u128 = t / p;
            let rem: u128 = t % p;
            proof {
                lemma_round_mag_bound(t as int, p as int, i64::MAX as int);
            }
            if 2 * rem >= p {
                (q + 1) as i64
            } else {
                q as i64
            }
        } else {
            let m: u128 = (-self.total) as u128;
            let q: u128 = m / p;
            let rem: u128 = m % p;
            proof {
                lemma_round_mag_bound(m as int, p as int, 0x8000_0000_0000_0000int);
            }
            if 2 * rem >= p {
                (-((q + 1) as i128)) as i64
            } else {
                (-(q as i128)) as i64
            }
        }
    }
}

/// Pooling two well-formed scores keeps the total within the per-play
/// bounds of the pooled play count.
proof fn lemma_merge_bounds(t1: int, p1: int, t2: int, p2: int)
    requires
        1 <= p1,
        1 <= p2,
        p1 * (i64::MIN as int) <= t1 <= p1 * (i64::MAX as int),
        p2 * (i64::MIN as int) <= t2 <= p2 * (i64::MAX as int),
    ensures
        (p1 + p2) * (i64::MIN as int) <= t1 + t2 <= (p1 + p2) * (i64::MAX as int),
{
    assert((p1 + p2) * (i64::MIN as int) == p1 * (i64::MIN as int) + p2 * (i64::MIN as int))
        by (nonlinear_arith);
    assert((p1 + p2) * (i64::MAX as int) == p1 * (i64::MAX as int) + p2 * (i64::MAX as int))
        by (nonlinear_arith);
}

/// For `0 <= t <= p * bound` with `p >= 1`, the rounded quotient stays
/// within `bound`: the quotient does, and a round-up can only happen
/// strictly below it.
proof fn lemma_round_mag_bound(t: int, p: int, bound: int)
    requires
        1 <= p,
        0 <= t,
        0 <= bound,
        t <= p * bound,
    ensures
        t / p <= bound,
        round_div_nonneg(t, p) <= bound,
        0 <= t / p,
        0 <= t % p < p,
        round_div_nonneg(t, p) == t / p + if 2 * (t % p) >= p {
            1int
        } else {
            0int
        },
{
    assert(0 <= t % p < p && t == p * (t / p) + t % p && 0 <= t / p) by (nonlinear_arith)
        requires
            1 <= p,
            0 <= t,
    ;
    assert(t / p <= bound) by (nonlinear_arith)
        requires
            1 <= p,
            0 <= t,
            t <= p * bound,
            t == p * (t / p) + t % p,
            0 <= t % p,
    ;
    if 2 * (t % p) >= p {
        assert(t / p < bound) by (nonlinear_arith)
            requires
                1 <= p,
                t <= p * bound,
                t == p * (t / p) + t % p,
                2 * (t % p) >= p,
                t / p <= bound,
        ;
    }
}

} // verus!
