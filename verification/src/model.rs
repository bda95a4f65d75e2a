//! A bounded rolling window of recently observed base fees, with exact
//! integer statistics over the window.
//!
//! The trend of the window is the signed rise `(last - first) / len`, and the
//! volatility is the population standard deviation. Both are irrational in
//! general, so they are exposed as exact fractions: `get_trend` returns the
//! numerator and denominator of the trend, and `get_volatility` returns
//! `(d, n * n)` where `d` is the scaled dispersion
//! `n * sum(x^2) - sum(x)^2`, so that the volatility is `sqrt(d) / n`.
//! Comparisons against a threshold, as the scheduler needs them, are then
//! decided exactly in integer arithmetic.

use std::collections::VecDeque;
use vstd::prelude::*;

verus! {

/// The sum of the samples of a window.
pub open spec fn sum_of(s: Seq<u64>) -> int
    decreases s.len(),
{
    if s.len() == 0 {
        0
    } else {
        sum_of(s.drop_last()) + s.last()
    }
}

/// The sum of the squared samples of a window.
pub open spec fn sum_sq_of(s: Seq<u64>) -> int
    decreases s.len(),
{
    if s.len() == 0 {
        0
    } else {
        sum_sq_of(s.drop_last()) + s.last() * s.last()
    }
}

/// The population variance of the window, scaled by the square of the window
/// length: `len * sum(x^2) - sum(x)^2`. Nonnegative for every window.
pub open spec fn dispersion(s: Seq<u64>) -> int {
    s.len() * sum_sq_of(s) - sum_of(s) * sum_of(s)
}

/// The fee at the tail of the window, or 0 when the window is empty.
pub open spec fn current_fee_of(s: Seq<u64>) -> u64 {
    if s.len() == 0 {
        0
    } else {
        s.last()
    }
}

/// Whether the volatility of the window strictly exceeds the threshold:
/// `sqrt(dispersion) / len > threshold`, squared to stay in integers. A
/// window of fewer than two samples has volatility zero and never exceeds.
pub open spec fn spike_at(s: Seq<u64>, threshold: u64) -> bool {
    s.len() >= 2 && dispersion(s) > threshold * threshold * s.len() * s.len()
}

/// Sum of squared deviations from an arbitrary center is nonnegative.
proof fn lemma_dev_sum_nonneg(s: Seq<u64>, c: int)
    ensures
        sum_sq_of(s) - 2 * c * sum_of(s) + s.len() * (c * c) >= 0,
    decreases s.len(),
{
    if s.len() > 0 {
        let d = s.drop_last();
        let x = s.last() as int;
        lemma_dev_sum_nonneg(d, c);
        assert(x * x - 2 * c * x + c * c >= 0) by (nonlinear_arith);
        assert(sum_sq_of(s) - 2 * c * sum_of(s) + s.len() * (c * c) >= 0) by (nonlinear_arith)
            requires
                sum_sq_of(s) == sum_sq_of(d) + x * x,
                sum_of(s) == sum_of(d) + x,
                s.len() == d.len() + 1,
                sum_sq_of(d) - 2 * c * sum_of(d) + d.len() * (c * c) >= 0,
                x * x - 2 * c * x + c * c >= 0,
        ;
    }
}

/// Bounds on the window sums when every sample is bounded.
pub proof fn lemma_sums_bounded(s: Seq<u64>)
    requires
        forall|i: int| 0 <= i < s.len() ==> s[i] <= crate::MAX_BASE_FEE,
    ensures
        0 <= sum_of(s),
        sum_of(s) <= s.len() * (crate::MAX_BASE_FEE as int),
        0 <= sum_sq_of(s),
        sum_sq_of(s) <= s.len() * ((crate::MAX_BASE_FEE as int) * (crate::MAX_BASE_FEE as int)),
    decreases s.len(),
{
    let m = crate::MAX_BASE_FEE as int;
    if s.len() > 0 {
        let d = s.drop_last();
        let x = s.last() as int;
        lemma_sums_bounded(d);
        assert(sum_of(s) <= s.len() * m && sum_sq_of(s) <= s.len() * (m * m)) by (nonlinear_arith)
            requires
                sum_of(s) == sum_of(d) + x,
                sum_sq_of(s) == sum_sq_of(d) + x * x,
                s.len() == d.len() + 1,
                sum_of(d) <= d.len() * m,
                sum_sq_of(d) <= d.len() * (m * m),
                0 <= x <= m,
        ;
    }
}

/// The scaled dispersion is nonnegative: `len * sum(x^2) >= sum(x)^2`.
pub proof fn lemma_dispersion_nonneg(s: Seq<u64>)
    ensures
        dispersion(s) >= 0,
    decreases s.len(),
{
    if s.len() > 0 {
        let t = s.drop_last();
        let x = s.last() as int;
        let n = t.len() as int;
        let sm = sum_of(t);
        let sq = sum_sq_of(t);
        lemma_dispersion_nonneg(t);
        lemma_dev_sum_nonneg(t, x);
        assert((n + 1) * (sq + x * x) - (sm + x) * (sm + x) >= 0) by (nonlinear_arith)
            requires
                n * sq - sm * sm >= 0,
                sq - 2 * x * sm + n * (x * x) >= 0,
        ;
    }
}

/// The sums of a constant window.
proof fn lemma_const_sums(s: Seq<u64>, c: u64)
    requires
        forall|i: int| 0 <= i < s.len() ==> s[i] == c,
    ensures
        sum_of(s) == s.len() * c,
        sum_sq_of(s) == s.len() * (c * c),
    decreases s.len(),
{
    if s.len() > 0 {
        let d = s.drop_last();
        lemma_const_sums(d, c);
        assert(s.last() == c);
        assert(sum_of(s) == s.len() * c && sum_sq_of(s) == s.len() * (c * c)) by (
        nonlinear_arith)
            requires
                sum_of(s) == sum_of(d) + c,
                sum_sq_of(s) == sum_sq_of(d) + c * c,
                s.len() == d.len() + 1,
                sum_of(d) == d.len() * c,
                sum_sq_of(d) == d.len() * (c * c),
        ;
    }
}

/// Volatility is zero on a constant window: a window all of whose samples
/// equal `c` has dispersion zero, and so never classifies as a spike,
/// whatever the threshold.
pub proof fn lemma_volatility_zero_on_constant(s: Seq<u64>, c: u64)
    requires
        forall|i: int| 0 <= i < s.len() ==> s[i] == c,
    ensures
        dispersion(s) == 0,
        forall|threshold: u64| !spike_at(s, threshold),
{
    lemma_const_sums(s, c);
    let n = s.len() as int;
    assert(n * (n * (c * c)) - (n * c) * (n * c) == 0) by (nonlinear_arith);
    assert forall|threshold: u64| !spike_at(s, threshold) by {
        assert(threshold * threshold * s.len() * s.len() >= 0) by (nonlinear_arith);
    }
}

/// A bounded in-order window of the last `max_history` observed base fees.
pub struct GasModel {
    pub history: VecDeque<u64>,
    pub max_history: usize,
}

impl GasModel {
    /// The samples currently held, oldest first.
    pub open spec fn window(&self) -> Seq<u64> {
        self.history@
    }

    /// The window never outgrows its capacity, and every sample lies in the
    /// range the exact statistics are defined over.
    pub open spec fn wf(&self) -> bool {
        &&& 1 <= self.max_history <= crate::MAX_WINDOW
        &&& self.window().len() <= self.max_history
        &&& forall|i: int| 0 <= i < self.window().len() ==> self.window()[i] <= crate::MAX_BASE_FEE
    }

    pub fn new(max_history: usize) -> (r: GasModel)
        requires
            1 <= max_history <= crate::MAX_WINDOW,
        ensures
            r.wf(),
            r.max_history == max_history,
            r.window() == Seq::<u64>::empty(),
    {
        GasModel { history: VecDeque::with_capacity(max_history), max_history }
    }

    /// Appends a sample at the tail, evicting the oldest sample when the
    /// window is full. The window size never exceeds `max_history`, and the
    /// current fee afterwards is the sample just inserted.
    pub fn update(&mut self, base_fee: u64)
        requires
            old(self).wf(),
            base_fee <= crate::MAX_BASE_FEE,
        ensures
            final(self).wf(),
            final(self).max_history == old(self).max_history,
            final(self).window() == (if old(self).window().len() < old(self).max_history {
                old(self).window().push(base_fee)
            } else {
                old(self).window().drop_first().push(base_fee)
            }),
            final(self).window().len() <= final(self).max_history,
            current_fee_of(final(self).window()) == base_fee,
    {
        if self.history.len() >= self.max_history {
            self.history.pop_front();
        }
        self.history.push_back(base_fee);
        proof {
            assert(self.window() =~= (if old(self).window().len() < old(self).max_history {
                old(self).window().push(base_fee)
            } else {
                old(self).window().drop_first().push(base_fee)
            }));
        }
    }

    /// The sample at the tail of the window, or 0 when the window is empty.
    pub fn current_fee(&self) -> (fee: u64)
        ensures
            fee == current_fee_of(self.window()),
    {
        if self.history.len() == 0 {
            0
        } else {
            self.history[self.history.len() - 1]
        }
    }

    /// The trend of the window as an exact fraction `(rise, len)`: the value
    /// is `(last - first) / len`, the signed per-sample rate of change. A
    /// window of fewer than two samples has trend `(0, 1)`.
    pub fn get_trend(&self) -> (t: (i64, u64))
        requires
            self.wf(),
        ensures
            self.window().len() < 2 ==> t == (0i64, 1u64),
            self.window().len() >= 2 ==> t.0 == self.window().last() - self.window().first(),
            self.window().len() >= 2 ==> t.1 == self.window().len(),
    {
        let n = self.history.len();
        if n < 2 {
            return (0, 1);
        }
        let first = self.history[0];
        let last = self.history[n - 1];
        let rise: i64 = if last >= first {
            (last - first) as i64
        } else {
            -((first - last) as i64)
        };
        (rise, n as u64)
    }

    /// The volatility of the window as an exact fraction of squares
    /// `(d, n * n)`: the volatility — the population standard deviation — is
    /// `sqrt(d) / n`, where `d` is the scaled dispersion. A window of fewer
    /// than two samples reports `(0, 1)`: volatility zero.
    pub fn get_volatility(&self) -> (v: (u128, u128))
        requires
            self.wf(),
        ensures
            self.window().len() < 2 ==> v == (0u128, 1u128),
            self.window().len() >= 2 ==> v.0 == dispersion(self.window()),
            self.window().len() >= 2 ==> v.1 == self.window().len() * self.window().len(),
    {
        let n = self.history.len();
        if n < 2 {
            return (0, 1);
        }
        let ghost win = self.window();
        let mut sum: u128 = 0;
        let mut sumsq: u128 = 0;
        let mut i: usize = 0;
        while i < n
            invariant
                i <= n,
                n == win.len(),
                win == self.window(),
                self.wf(),
                sum == sum_of(win.take(i as int)),
                sumsq == sum_sq_of(win.take(i as int)),
            decreases n - i,
        {
            let x = self.history[i];
            proof {
                let m = crate::MAX_BASE_FEE as int;
                let w = crate::MAX_WINDOW as int;
                assert(win.take(i + 1).drop_last() =~= win.take(i as int));
                assert(win.take(i + 1).last() == win[i as int]);
                lemma_sums_bounded(win.take(i as int));
                assert(sum <= w * m && sumsq <= w * (m * m) && x * x <= m * m) by (
                nonlinear_arith)
                    requires
                        0 <= sum <= i * m,
                        0 <= sumsq <= i * (m * m),
                        0 <= i <= w,
                        0 <= x <= m,
                        0 <= m,
                ;
            }
            sum = sum + x as u128;
            sumsq = sumsq + (x as u128) * (x as u128);
            i = i + 1;
        }
        proof {
            let m = crate::MAX_BASE_FEE as int;
            let w = crate::MAX_WINDOW as int;
            assert(win.take(n as int) =~= win);
            lemma_dispersion_nonneg(win);
            lemma_sums_bounded(win);
            assert(n * sumsq <= (w * w) * (m * m) && sum * sum <= (w * w) * (m * m) && n * n <= w
                * w) by (nonlinear_arith)
                requires
                    0 <= sumsq <= n * (m * m),
                    0 <= sum <= n * m,
                    0 <= n <= w,
                    0 <= m,
            ;
        }
        let n128 = n as u128;
        (n128 * sumsq - sum * sum, n128 * n128)
    }

    /// Whether the volatility of the window strictly exceeds the threshold.
    /// Decided exactly: `dispersion > threshold^2 * len^2`.
    pub fn volatility_exceeds(&self, threshold: u64) -> (r: bool)
        requires
            self.wf(),
            threshold <= crate::MAX_BASE_FEE,
        ensures
            r == spike_at(self.window(), threshold),
    {
        let n = self.history.len();
        if n < 2 {
            return false;
        }
        let (num, den) = self.get_volatility();
        let t = threshold as u128;
        proof {
            let m = crate::MAX_BASE_FEE as int;
            let w = crate::MAX_WINDOW as int;
            let len = self.window().len() as int;
            assert(t * t <= m * m && den <= 0x10_0000 && t * t * den == threshold * threshold
                * len * len) by (nonlinear_arith)
                requires
                    0 <= t <= m,
                    t == threshold,
                    den == len * len,
                    0 <= len <= w,
                    0 <= m,
                    w == 0x400,
            ;
            assert(t * t * den <= u128::MAX) by (nonlinear_arith)
                requires
                    0 <= t <= 0x20_0000_0000_0000,
                    0 <= den <= 0x10_0000,
            ;
        }
        num > t * t * den
    }
}

} // verus!
