use vstd::prelude::*;
use crate::fixed::{floor_div, isqrt, MAX_VALUE};

verus! {

/// Largest window that an estimator can have.
pub const MAX_WINDOW: usize = 10_000;

/// A mid price with the time at which it was seen.
#[derive(Debug, Clone, Copy, PartialEq, Eq, Structural)]
pub struct PriceSample {
    pub timestamp: u64,
    pub price: i64,
}

/// Mean and standard deviation of a full window, in fixed-point units.
#[derive(Debug, Clone, Copy, PartialEq, Eq, Structural)]
pub struct EstimatorState {
    pub mu: i64,
    pub sigma: i64,
}

/// Sum of the prices.
pub open spec fn price_sum(s: Seq<PriceSample>) -> int
    decreases s.len(),
{
    if s.len() == 0 {
        0
    } else {
        price_sum(s.drop_last()) + s.last().price
    }
}

/// Arithmetic mean of the prices, rounded down to a fixed-point unit.
pub open spec fn mean_of(s: Seq<PriceSample>) -> int {
    price_sum(s) / (s.len() as int)
}

/// Sum of the squared distances of the prices from `m`.
pub open spec fn squared_deviations(s: Seq<PriceSample>, m: int) -> int
    decreases s.len(),
{
    if s.len() == 0 {
        0
    } else {
        squared_deviations(s.drop_last(), m) + (s.last().price - m) * (s.last().price - m)
    }
}

/// Population variance of the prices about their mean: the squared distances
/// are divided by the number of prices.
pub open spec fn variance_of(s: Seq<PriceSample>) -> int {
    squared_deviations(s, mean_of(s)) / (s.len() as int)
}

/// Whether `r` is the square root of `n`, rounded down.
pub open spec fn is_sqrt(r: int, n: int) -> bool {
    0 <= r && r * r <= n < (r + 1) * (r + 1)
}

/// Square root of `n`, rounded down.
pub open spec fn sqrt_floor(n: int) -> int {
    choose|r: int| is_sqrt(r, n)
}

/// Population standard deviation of the prices, rounded down.
pub open spec fn sigma_of(s: Seq<PriceSample>) -> int {
    sqrt_floor(variance_of(s))
}

/// A window after one more sample: the oldest leaves once `window` are held.
pub open spec fn pushed(s: Seq<PriceSample>, x: PriceSample, window: nat) -> Seq<PriceSample> {
    if s.len() < window {
        s.push(x)
    } else {
        s.subrange(1, s.len() as int).push(x)
    }
}

/// Whether every price lies within the range of prices.
pub open spec fn prices_in_range(s: Seq<PriceSample>) -> bool {
    forall|i: int| 0 <= i < s.len() ==> -MAX_VALUE <= (#[trigger] s[i]).price <= MAX_VALUE
}

/// No number has two rounded-down square roots.
pub proof fn lemma_sqrt_unique(a: int, b: int, n: int)
    requires
        is_sqrt(a, n),
        is_sqrt(b, n),
    ensures
        a == b,
{
    if a < b {
        assert((a + 1) * (a + 1) <= b * b) by (nonlinear_arith)
            requires
                0 <= a,
                a + 1 <= b,
        ;
    } else if b < a {
        assert((b + 1) * (b + 1) <= a * a) by (nonlinear_arith)
            requires
                0 <= b,
                b + 1 <= a,
        ;
    }
}

/// A rounded-down square root of `n` is the one that `sqrt_floor` names.
pub proof fn lemma_sqrt_floor(r: int, n: int)
    requires
        is_sqrt(r, n),
    ensures
        sqrt_floor(n) == r,
{
    lemma_sqrt_unique(sqrt_floor(n), r, n);
}

proof fn lemma_price_sum_bound(s: Seq<PriceSample>)
    requires
        prices_in_range(s),
    ensures
        -(s.len() * MAX_VALUE) <= price_sum(s) <= s.len() * MAX_VALUE,
    decreases s.len(),
{
    if s.len() > 0 {
        let t = s.drop_last();
        assert forall|i: int| 0 <= i < t.len() implies -MAX_VALUE <= (#[trigger] t[i]).price
            <= MAX_VALUE by {
            assert(t[i] == s[i]);
        }
        lemma_price_sum_bound(t);
        assert(-MAX_VALUE <= s[s.len() - 1].price <= MAX_VALUE);
        assert((s.len() - 1) * MAX_VALUE + MAX_VALUE == s.len() * MAX_VALUE) by (nonlinear_arith);
    }
}

/// The mean of prices in range is in range.
pub proof fn lemma_mean_bound(s: Seq<PriceSample>)
    requires
        prices_in_range(s),
        s.len() > 0,
    ensures
        -MAX_VALUE <= mean_of(s) <= MAX_VALUE,
{
    lemma_price_sum_bound(s);
    let n = s.len() as int;
    let t = price_sum(s);
    assert(-MAX_VALUE <= t / n <= MAX_VALUE) by (nonlinear_arith)
        requires
            n > 0,
            -(n * MAX_VALUE) <= t <= n * MAX_VALUE,
    ;
}

/// Rolling estimator of the mean and the volatility of the mid price over
/// the last `window` samples.
#[derive(Debug)]
pub struct VolatilityEstimator {
    samples: Vec<PriceSample>,
    window: usize,
}

impl VolatilityEstimator {
    /// The samples held, oldest first.
    pub closed spec fn samples(&self) -> Seq<PriceSample> {
        self.samples@
    }

    /// Number of samples that make the window full.
    pub closed spec fn window(&self) -> nat {
        self.window as nat
    }

    /// The window has a length within its range, holds no more samples than
    /// that, and every price is in range.
    pub open spec fn wf(&self) -> bool {
        &&& 1 <= self.window() <= MAX_WINDOW
        &&& self.samples().len() <= self.window()
        &&& prices_in_range(self.samples())
    }

    /// Whether the window is full, so that an estimate exists.
    pub open spec fn full(&self) -> bool {
        self.samples().len() == self.window()
    }

    /// An estimator with an empty window of the given length.
    pub fn new(window: usize) -> (e: Self)
        requires
            1 <= window <= MAX_WINDOW,
        ensures
            e.wf(),
            e.window() == window,
            e.samples() == Seq::<PriceSample>::empty(),
    {
        VolatilityEstimator { samples: Vec::new(), window }
    }

    /// Number of samples held.
    pub fn len(&self) -> (n: usize)
        ensures
            n == self.samples().len(),
    {
        self.samples.len()
    }

    /// Number of samples that make the window full.
    pub fn window_len(&self) -> (n: usize)
        ensures
            n == self.window(),
    {
        self.window
    }

    /// Whether the window is full.
    pub fn is_full(&self) -> (r: bool)
        requires
            self.wf(),
        ensures
            r == self.full(),
    {
        self.samples.len() == self.window
    }

    /// Takes one more sample; the oldest leaves once the window is full.
    pub fn push(&mut self, sample: PriceSample)
        requires
            old(self).wf(),
            -MAX_VALUE <= sample.price <= MAX_VALUE,
        ensures
            final(self).wf(),
            final(self).window() == old(self).window(),
            final(self).samples() == pushed(old(self).samples(), sample, old(self).window()),
    {
        let ghost before = self.samples@;
        self.samples.push(sample);
        if self.samples.len() > self.window {
            self.samples.remove(0);
            proof {
                assert(self.samples@ =~= before.subrange(1, before.len() as int).push(sample));
            }
        }
        proof {
            assert forall|i: int| 0 <= i < self.samples@.len() implies -MAX_VALUE <= (
            #[trigger] self.samples@[i]).price <= MAX_VALUE by {
                if before.len() < self.window {
                    if i < before.len() {
                        assert(self.samples@[i] == before[i]);
                    }
                } else {
                    if i < before.len() - 1 {
                        assert(self.samples@[i] == before[i + 1]);
                    }
                }
            }
        }
    }

    /// Mean of the prices held, rounded down.
    pub fn mean(&self) -> (m: i64)
        requires
            self.wf(),
            self.samples().len() > 0,
        ensures
            m == mean_of(self.samples()),
            -MAX_VALUE <= m <= MAX_VALUE,
    {
        let n: usize = self.samples.len();
        let mut sum: i128 = 0;
        let mut i: usize = 0;
        while i < n
            invariant
                i <= n,
                n == self.samples@.len(),
                n <= MAX_WINDOW,
                prices_in_range(self.samples@),
                sum == price_sum(self.samples@.subrange(0, i as int)),
                -(i * MAX_VALUE) <= sum <= i * MAX_VALUE,
            decreases n - i,
        {
            proof {
                assert(self.samples@.subrange(0, i + 1).drop_last() =~= self.samples@.subrange(
                    0,
                    i as int,
                ));
                assert(-MAX_VALUE <= self.samples@[i as int].price <= MAX_VALUE);
                assert(i * MAX_VALUE <= 10_000 * MAX_VALUE) by (nonlinear_arith)
                    requires
                        i <= 10_000,
                        MAX_VALUE > 0,
                ;
                assert(i * MAX_VALUE + MAX_VALUE == (i + 1) * MAX_VALUE) by (nonlinear_arith);
            }
            sum = sum + self.samples[i].price as i128;
            i = i + 1;
        }
        proof {
            assert(self.samples@.subrange(0, i as int) =~= self.samples@);
            lemma_mean_bound(self.samples@);
        }
        floor_div(sum, n as i128) as i64
    }

    /// Population standard deviation of the prices held about `m`, their
    /// mean, rounded down.
    pub fn deviation(&self, m: i64) -> (sigma: i64)
        requires
            self.wf(),
            self.samples().len() > 0,
            m == mean_of(self.samples()),
        ensures
            sigma == sigma_of(self.samples()),
            0 <= sigma <= 2 * MAX_VALUE,
    {
        let n: usize = self.samples.len();
        proof {
            lemma_mean_bound(self.samples@);
        }
        let bound: u128 = 4_000_000_000_000_000_000_000_000_000_000;
        let mut sum: u128 = 0;
        let mut i: usize = 0;
        while i < n
            invariant
                i <= n,
                n == self.samples@.len(),
                n <= MAX_WINDOW,
                prices_in_range(self.samples@),
                -MAX_VALUE <= m <= MAX_VALUE,
                bound == 4_000_000_000_000_000_000_000_000_000_000,
                sum == squared_deviations(self.samples@.subrange(0, i as int), m as int),
                sum <= i * bound,
            decreases n - i,
        {
            proof {
                assert(self.samples@.subrange(0, i + 1).drop_last() =~= self.samples@.subrange(
                    0,
                    i as int,
                ));
                assert(-MAX_VALUE <= self.samples@[i as int].price <= MAX_VALUE);
            }
            let d: i128 = self.samples[i].price as i128 - m as i128;
            proof {
                assert(0 <= d * d <= 4_000_000_000_000_000_000_000_000_000_000) by (nonlinear_arith)
                    requires
                        -2_000_000_000_000_000 <= d <= 2_000_000_000_000_000,
                ;
                assert(i * bound <= 10_000 * bound) by (nonlinear_arith)
                    requires
                        i <= 10_000,
                        bound > 0,
                ;
                assert(i * bound + bound == (i + 1) * bound) by (nonlinear_arith);
            }
            sum = sum + (d * d) as u128;
            i = i + 1;
        }
        proof {
            assert(self.samples@.subrange(0, i as int) =~= self.samples@);
        }
        let variance: u128 = sum / n as u128;
        let r: u64 = isqrt(variance);
        proof {
            assert(variance <= bound) by (nonlinear_arith)
                requires
                    variance == sum / (n as u128),
                    sum <= n * bound,
                    n > 0,
            ;
            assert(r <= 2_000_000_000_000_000) by (nonlinear_arith)
                requires
                    r * r <= variance,
                    variance <= 4_000_000_000_000_000_000_000_000_000_000,
                    r >= 0,
            ;
            lemma_sqrt_floor(r as int, variance as int);
        }
        r as i64
    }

    /// Mean and standard deviation of the window, once it is full.
    pub fn estimate(&self) -> (r: Option<EstimatorState>)
        requires
            self.wf(),
        ensures
            r == if self.full() {
                Some(
                    EstimatorState {
                        mu: mean_of(self.samples()) as i64,
                        sigma: sigma_of(self.samples()) as i64,
                    },
                )
            } else {
                None
            },
    {
        if self.samples.len() < self.window {
            None
        } else {
            let mu: i64 = self.mean();
            let sigma: i64 = self.deviation(mu);
            Some(EstimatorState { mu, sigma })
        }
    }
}

/// Mean and deviation read the prices of the window in their order and
/// nothing else: two windows with the same prices, whenever they were seen,
/// have the same mean, the same variance and the same deviation.
pub proof fn lemma_estimate_reads_prices(a: Seq<PriceSample>, b: Seq<PriceSample>)
    requires
        a.len() == b.len(),
        forall|i: int| 0 <= i < a.len() ==> a[i].price == b[i].price,
    ensures
        price_sum(a) == price_sum(b),
        mean_of(a) == mean_of(b),
        forall|m: int| squared_deviations(a, m) == squared_deviations(b, m),
        variance_of(a) == variance_of(b),
        sigma_of(a) == sigma_of(b),
    decreases a.len(),
{
    if a.len() > 0 {
        let a1 = a.drop_last();
        let b1 = b.drop_last();
        assert forall|i: int| 0 <= i < a1.len() implies a1[i].price == b1[i].price by {
            assert(a1[i] == a[i] && b1[i] == b[i]);
        }
        lemma_estimate_reads_prices(a1, b1);
        assert(a.last().price == b.last().price);
        assert forall|m: int| squared_deviations(a, m) == squared_deviations(b, m) by {
            assert(squared_deviations(a1, m) == squared_deviations(b1, m));
        }
    }
}

} // verus!
