use vstd::prelude::*;
use crate::fixed::{ceil_div, MAX_VALUE, SCALE};

verus! {

/// Largest value of a parameter of the quoting rule, in fixed-point units.
pub const MAX_PARAM: i64 = 1_000_000_000_000;

/// Units of the logarithm's own scale in one: it carries eighteen decimals.
pub const LN_SCALE: u128 = 1_000_000_000_000_000_000;

/// The natural logarithm of two on that scale.
pub const LN2: u128 = 693_147_180_559_945_309;

/// Number of terms of the series that the logarithm sums.
pub const SERIES_TERMS: u32 = 20;

/// Largest magnitude of an offset, in units of `1 / (SCALE * SCALE)`.
pub const MAX_OFFSET: i128 = 10_000_000_000_000_000_000_000_000_000_000_000;

/// Risk aversion, fill-rate sensitivity and quoting horizon, in fixed-point
/// units.
#[derive(Debug, Clone, Copy, PartialEq, Eq, Structural)]
pub struct QuoteParams {
    pub gamma: i64,
    pub kappa: i64,
    pub horizon: i64,
}

/// Distances of the two quotes from the anchor, in units of
/// `1 / (SCALE * SCALE)`.
#[derive(Debug, Clone, Copy, PartialEq, Eq, Structural)]
pub struct Offsets {
    pub bid: i128,
    pub ask: i128,
}

impl QuoteParams {
    /// All three parameters are positive and at most `MAX_PARAM`.
    pub open spec fn valid(&self) -> bool {
        &&& 0 < self.gamma <= MAX_PARAM
        &&& 0 < self.kappa <= MAX_PARAM
        &&& 0 < self.horizon <= MAX_PARAM
    }

    /// Whether all three parameters are positive and at most `MAX_PARAM`.
    pub fn is_valid(&self) -> (r: bool)
        ensures
            r == self.valid(),
    {
        0 < self.gamma && self.gamma <= MAX_PARAM && 0 < self.kappa && self.kappa <= MAX_PARAM && 0
            < self.horizon && self.horizon <= MAX_PARAM
    }
}

impl Offsets {
    /// Both offsets lie within `MAX_OFFSET` of zero.
    pub open spec fn wf(&self) -> bool {
        &&& -MAX_OFFSET <= self.bid <= MAX_OFFSET
        &&& -MAX_OFFSET <= self.ask <= MAX_OFFSET
    }
}

/// How often `den` can be doubled without passing `num`.
pub open spec fn doublings(num: int, den: int) -> int
    decreases num - den,
{
    if 0 < den && 2 * den <= num {
        1 + doublings(num, 2 * den)
    } else {
        0
    }
}

/// `den` after those doublings.
pub open spec fn doubled(num: int, den: int) -> int
    decreases num - den,
{
    if 0 < den && 2 * den <= num {
        doubled(num, 2 * den)
    } else {
        den
    }
}

/// Terms `k` up to `n` of the series `z + z^3 / 3 + z^5 / 5 + ..`, where `p`
/// is the odd power of `z` that term `k` holds and `z2` is the square of `z`,
/// each product rounded down on the logarithm's scale.
pub open spec fn series(p: int, z2: int, k: int, n: int) -> int
    decreases n - k,
{
    if k >= n {
        0
    } else {
        p / (2 * k + 1) + series(p * z2 / (LN_SCALE as int), z2, k + 1, n)
    }
}

/// The natural logarithm of `num / den` on the logarithm's scale, for
/// `0 < den <= num`. With `d` the last doubling of `den` that does not pass
/// `num`, and `z = (num - d) / (num + d)`, it is the number of doublings
/// times the logarithm of two, and twice the inverse hyperbolic tangent of
/// `z`, which the series gives.
pub open spec fn ln_ratio(num: int, den: int) -> int {
    let d = doubled(num, den);
    let z = (num - d) * LN_SCALE / (num + d);
    doublings(num, den) * LN2 + 2 * series(z, z * z / (LN_SCALE as int), 0, SERIES_TERMS as int)
}

/// The part of the half spread that does not depend on volatility:
/// `(1 / gamma) * ln(1 + gamma / kappa)`, in fixed-point units, rounded down.
pub open spec fn premium_of(gamma: int, kappa: int) -> int {
    ln_ratio(kappa + gamma, kappa) / (100 * gamma)
}

/// `gamma * sigma^2 * horizon` in fixed-point units: the product of `gamma`
/// and `horizon` is rounded down to a unit, then its product with the square
/// of `sigma`.
pub open spec fn risk_of(gamma: int, horizon: int, sigma: int) -> int {
    ((gamma * horizon / (SCALE as int)) * (sigma * sigma)) / (SCALE as int * SCALE as int)
}

/// The offsets of the two quotes for a volatility and an inventory. With
/// `risk = gamma * sigma^2 * horizon`, the base is `risk / 2` and the
/// premium, the skew is `risk` times the inventory, the bid lies base less
/// skew under the anchor and the ask base and skew over it. None where the
/// risk or the premium is beyond the range of prices: no quote could then
/// lie in it.
pub open spec fn offsets_of(p: QuoteParams, sigma: int, inventory: int) -> Option<Offsets> {
    let risk = risk_of(p.gamma as int, p.horizon as int, sigma);
    let premium = premium_of(p.gamma as int, p.kappa as int);
    if risk > MAX_VALUE || premium > MAX_VALUE {
        None
    } else {
        let base = risk * (SCALE / 2) + premium * SCALE;
        let skew = risk * inventory;
        Some(Offsets { bid: (base - skew) as i128, ask: (base + skew) as i128 })
    }
}

/// An offset in fixed-point units, rounded up.
pub open spec fn ceil_units(x: int) -> int {
    (x + SCALE - 1) / (SCALE as int)
}

/// The bid that the offsets give about `anchor`.
pub open spec fn bid_of(o: Offsets, anchor: int) -> int {
    anchor - ceil_units(o.bid as int)
}

/// The two prices that the offsets give about `anchor`, each rounded away
/// from it. None where the bid would not be positive or the ask would pass
/// the largest price: one side alone is never quoted.
pub open spec fn prices_of(o: Offsets, anchor: int) -> Option<(i64, i64)> {
    let bid = anchor - ceil_units(o.bid as int);
    let ask = anchor + ceil_units(o.ask as int);
    if 0 < bid && ask <= MAX_VALUE && bid <= MAX_VALUE {
        Some((bid as i64, ask as i64))
    } else {
        None
    }
}

/// The natural logarithm of `num / den` on the logarithm's scale.
pub fn ln_fixed(num: u64, den: u64) -> (r: u128)
    requires
        0 < den <= num <= 2 * MAX_PARAM,
    ensures
        r == ln_ratio(num as int, den as int),
{
    let mut d: u64 = den;
    let mut e: u64 = 0;
    while 2 * d <= num
        invariant
            0 < d <= num <= 2 * MAX_PARAM,
            e < d,
            doublings(num as int, den as int) == e + doublings(num as int, d as int),
            doubled(num as int, den as int) == doubled(num as int, d as int),
        decreases num - d,
    {
        d = 2 * d;
        e = e + 1;
    }
    let scale: u128 = LN_SCALE;
    let z: u128 = (num - d) as u128 * scale / (num + d) as u128;
    proof {
        assert(z <= scale) by (nonlinear_arith)
            requires
                z == ((num - d) * scale) / ((num + d) as int),
                0 <= num - d <= num + d,
                0 < num + d,
                0 <= scale,
        ;
        assert(z * z <= scale * scale) by (nonlinear_arith)
            requires
                0 <= z <= scale,
        ;
    }
    let z2: u128 = z * z / scale;
    proof {
        assert(z2 <= scale) by (nonlinear_arith)
            requires
                z2 == (z * z) / (scale as int),
                z * z <= scale * scale,
                0 < scale,
        ;
    }
    let mut p: u128 = z;
    let mut sum: u128 = 0;
    let mut k: u32 = 0;
    while k < SERIES_TERMS
        invariant
            k <= SERIES_TERMS,
            scale == LN_SCALE,
            p <= scale,
            z2 <= scale,
            sum <= k * scale,
            series(z as int, z2 as int, 0, SERIES_TERMS as int) == sum + series(
                p as int,
                z2 as int,
                k as int,
                SERIES_TERMS as int,
            ),
        decreases SERIES_TERMS - k,
    {
        proof {
            assert(p * z2 <= scale * scale) by (nonlinear_arith)
                requires
                    0 <= p <= scale,
                    0 <= z2 <= scale,
            ;
            assert((p * z2) / (scale as int) <= scale) by (nonlinear_arith)
                requires
                    p * z2 <= scale * scale,
                    0 < scale,
            ;
            assert(p / ((2 * k + 1) as u128) <= p) by (nonlinear_arith)
                requires
                    0 <= p,
                    k >= 0,
            ;
        }
        sum = sum + p / (2 * k + 1) as u128;
        p = p * z2 / scale;
        k = k + 1;
    }
    proof {
        assert(e * LN2 <= 2_000_000_000_000 * LN2) by (nonlinear_arith)
            requires
                e <= 2_000_000_000_000,
                LN2 > 0,
        ;
    }
    e as u128 * LN2 + 2 * sum
}

/// `(1 / gamma) * ln(1 + gamma / kappa)` in fixed-point units.
pub fn liquidity_premium(gamma: i64, kappa: i64) -> (r: u128)
    requires
        0 < gamma <= MAX_PARAM,
        0 < kappa <= MAX_PARAM,
    ensures
        r == premium_of(gamma as int, kappa as int),
{
    let l: u128 = ln_fixed((kappa + gamma) as u64, kappa as u64);
    l / (100 * gamma as u128)
}

/// `gamma * sigma^2 * horizon` in fixed-point units, where it does not pass
/// the largest price.
pub fn risk_coefficient(gamma: i64, horizon: i64, sigma: i64) -> (r: Option<i64>)
    requires
        0 < gamma <= MAX_PARAM,
        0 < horizon <= MAX_PARAM,
        0 <= sigma,
    ensures
        r == if risk_of(gamma as int, horizon as int, sigma as int) <= MAX_VALUE {
            Some(risk_of(gamma as int, horizon as int, sigma as int) as i64)
        } else {
            None
        },
        r matches Some(x) ==> 0 <= x <= MAX_VALUE,
{
    proof {
        assert(gamma * horizon <= 1_000_000_000_000 * 1_000_000_000_000) by (nonlinear_arith)
            requires
                0 < gamma <= 1_000_000_000_000,
                0 < horizon <= 1_000_000_000_000,
        ;
    }
    let gt: u128 = gamma as u128 * horizon as u128 / 100_000_000;
    proof {
        assert(sigma * sigma <= 0x7fff_ffff_ffff_ffff * 0x7fff_ffff_ffff_ffff) by (nonlinear_arith)
            requires
                0 <= sigma <= 0x7fff_ffff_ffff_ffff,
        ;
    }
    let s2: u128 = sigma as u128 * sigma as u128;
    let square: u128 = 10_000_000_000_000_000;
    match gt.checked_mul(s2) {
        Some(product) => {
            let risk: u128 = product / square;
            if risk > MAX_VALUE as u128 {
                None
            } else {
                Some(risk as i64)
            }
        },
        None => {
            proof {
                assert((gt * s2) / (square as int) > MAX_VALUE) by (nonlinear_arith)
                    requires
                        gt * s2 > u128::MAX,
                        square == 10_000_000_000_000_000,
                        MAX_VALUE == 1_000_000_000_000_000,
                ;
            }
            None
        },
    }
}

/// The offsets of the two quotes.
pub fn quote_offsets(params: &QuoteParams, sigma: i64, inventory: i64) -> (r: Option<Offsets>)
    requires
        params.valid(),
        0 <= sigma,
    ensures
        r == offsets_of(*params, sigma as int, inventory as int),
        r matches Some(o) ==> o.wf(),
{
    let premium: u128 = liquidity_premium(params.gamma, params.kappa);
    match risk_coefficient(params.gamma, params.horizon, sigma) {
        Some(risk) => {
            if premium > MAX_VALUE as u128 {
                return None;
            }
            let half: i128 = 50_000_000;
            let base: i128 = risk as i128 * half + premium as i128 * SCALE as i128;
            proof {
                assert(-(MAX_VALUE * 0x8000_0000_0000_0000) <= risk * inventory <= MAX_VALUE
                    * 0x8000_0000_0000_0000) by (nonlinear_arith)
                    requires
                        0 <= risk <= MAX_VALUE,
                        -0x8000_0000_0000_0000 <= inventory <= 0x8000_0000_0000_0000,
                ;
            }
            let skew: i128 = risk as i128 * inventory as i128;
            Some(Offsets { bid: base - skew, ask: base + skew })
        },
        None => None,
    }
}

/// The two prices that the offsets give about `anchor`.
pub fn quote_prices(offsets: Offsets, anchor: i64) -> (r: Option<(i64, i64)>)
    requires
        offsets.wf(),
    ensures
        r == prices_of(offsets, anchor as int),
{
    let bid: i128 = anchor as i128 - ceil_div(offsets.bid, SCALE as i128);
    let ask: i128 = anchor as i128 + ceil_div(offsets.ask, SCALE as i128);
    if 0 < bid && ask <= MAX_VALUE as i128 && bid <= MAX_VALUE as i128 {
        Some((bid as i64, ask as i64))
    } else {
        None
    }
}

/// Whether the bid that the offsets give about `anchor` is zero or less.
pub fn bid_not_positive(offsets: Offsets, anchor: i64) -> (r: bool)
    requires
        offsets.wf(),
    ensures
        r == (bid_of(offsets, anchor as int) <= 0),
{
    anchor as i128 - ceil_div(offsets.bid, SCALE as i128) <= 0
}

/// Without inventory the two offsets are the same.
pub proof fn lemma_flat_inventory_is_symmetric(p: QuoteParams, sigma: int)
    ensures
        offsets_of(p, sigma, 0) matches Some(o) ==> o.bid == o.ask,
{
    let risk = risk_of(p.gamma as int, p.horizon as int, sigma);
    assert(risk * 0 == 0) by (nonlinear_arith);
}

/// The distance between the two offsets is twice the risk times the
/// inventory, so with a positive risk a larger inventory widens it: the ask
/// moves away from the anchor and the bid towards it.
pub proof fn lemma_inventory_widens_skew(p: QuoteParams, sigma: int, q1: i64, q2: i64)
    requires
        p.valid(),
        0 <= sigma <= i64::MAX,
        q1 < q2,
        risk_of(p.gamma as int, p.horizon as int, sigma) > 0,
        offsets_of(p, sigma, q1 as int) is Some,
    ensures
        offsets_of(p, sigma, q2 as int) is Some,
        ({
            let a = offsets_of(p, sigma, q1 as int)->0;
            let b = offsets_of(p, sigma, q2 as int)->0;
            &&& a.ask - a.bid == 2 * risk_of(p.gamma as int, p.horizon as int, sigma) * q1
            &&& b.ask - b.bid == 2 * risk_of(p.gamma as int, p.horizon as int, sigma) * q2
            &&& a.ask - a.bid < b.ask - b.bid
            &&& a.ask < b.ask
            &&& a.bid > b.bid
        }),
{
    let risk = risk_of(p.gamma as int, p.horizon as int, sigma);
    let premium = premium_of(p.gamma as int, p.kappa as int);
    lemma_premium_nonnegative(p.gamma as int, p.kappa as int);
    lemma_offsets_fit(risk, premium, q1 as int);
    lemma_offsets_fit(risk, premium, q2 as int);
    assert(risk * q1 < risk * q2) by (nonlinear_arith)
        requires
            risk > 0,
            q1 < q2,
    ;
    assert(2 * risk * q1 == 2 * (risk * q1)) by (nonlinear_arith);
    assert(2 * risk * q2 == 2 * (risk * q2)) by (nonlinear_arith);
}

/// Offsets of a risk and a premium in range fit their type.
pub proof fn lemma_offsets_fit(risk: int, premium: int, q: int)
    requires
        0 <= risk <= MAX_VALUE,
        0 <= premium <= MAX_VALUE,
        i64::MIN <= q <= i64::MAX,
    ensures
        -MAX_OFFSET <= risk * (SCALE / 2) + premium * SCALE - risk * q <= MAX_OFFSET,
        -MAX_OFFSET <= risk * (SCALE / 2) + premium * SCALE + risk * q <= MAX_OFFSET,
{
    assert(-(MAX_VALUE * 0x8000_0000_0000_0000) <= risk * q <= MAX_VALUE * 0x8000_0000_0000_0000)
        by (nonlinear_arith)
        requires
            0 <= risk <= MAX_VALUE,
            -0x8000_0000_0000_0000 <= q <= 0x8000_0000_0000_0000,
    ;
    assert(SCALE / 2 == 50_000_000);
    assert(0 <= risk * (SCALE / 2) <= MAX_VALUE * 50_000_000) by (nonlinear_arith)
        requires
            0 <= risk <= MAX_VALUE,
            SCALE / 2 == 50_000_000,
    ;
    assert(0 <= premium * SCALE <= MAX_VALUE * 100_000_000) by (nonlinear_arith)
        requires
            0 <= premium <= MAX_VALUE,
            SCALE == 100_000_000,
    ;
}

proof fn lemma_series_nonnegative(p: int, z2: int, k: int, n: int)
    requires
        0 <= p,
        0 <= z2,
        0 <= k,
    ensures
        0 <= series(p, z2, k, n),
    decreases n - k,
{
    if k < n {
        assert(0 <= p * z2 / (LN_SCALE as int)) by (nonlinear_arith)
            requires
                0 <= p,
                0 <= z2,
        ;
        lemma_series_nonnegative(p * z2 / (LN_SCALE as int), z2, k + 1, n);
        assert(0 <= p / (2 * k + 1)) by (nonlinear_arith)
            requires
                0 <= p,
                0 <= k,
        ;
    }
}

proof fn lemma_doubled_range(num: int, den: int)
    requires
        0 < den <= num,
    ensures
        0 < doubled(num, den) <= num,
        0 <= doublings(num, den),
    decreases num - den,
{
    if 2 * den <= num {
        lemma_doubled_range(num, 2 * den);
    }
}

/// The premium is never negative.
pub proof fn lemma_premium_nonnegative(gamma: int, kappa: int)
    requires
        0 < gamma,
        0 < kappa,
    ensures
        0 <= premium_of(gamma, kappa),
{
    let num = kappa + gamma;
    lemma_doubled_range(num, kappa);
    let d = doubled(num, kappa);
    let z = (num - d) * LN_SCALE / (num + d);
    assert(0 <= z) by (nonlinear_arith)
        requires
            z == (num - d) * LN_SCALE / (num + d),
            0 <= num - d,
            0 < num + d,
            LN_SCALE > 0,
    ;
    let z2 = z * z / (LN_SCALE as int);
    assert(0 <= z2) by (nonlinear_arith)
        requires
            z2 == z * z / (LN_SCALE as int),
            0 <= z,
            LN_SCALE > 0,
    ;
    lemma_series_nonnegative(z, z2, 0, SERIES_TERMS as int);
    assert(0 <= doublings(num, kappa) * LN2) by (nonlinear_arith)
        requires
            0 <= doublings(num, kappa),
            LN2 > 0,
    ;
    assert(0 <= ln_ratio(num, kappa) / (100 * gamma)) by (nonlinear_arith)
        requires
            0 <= ln_ratio(num, kappa),
            0 < gamma,
    ;
}

/// The logarithm of one is zero, and the logarithm of two is the constant.
pub proof fn lemma_ln_of_one_and_two(n: int)
    requires
        0 < n,
    ensures
        ln_ratio(n, n) == 0,
        ln_ratio(2 * n, n) == LN2,
{
    reveal_with_fuel(doublings, 3);
    reveal_with_fuel(doubled, 3);
    assert(doubled(n, n) == n && doublings(n, n) == 0);
    assert(doubled(2 * n, n) == 2 * n && doublings(2 * n, n) == 1);
    assert((n - n) * LN_SCALE / (n + n) == 0) by (nonlinear_arith)
        requires
            0 < n,
    ;
    assert((2 * n - 2 * n) * LN_SCALE / (2 * n + 2 * n) == 0) by (nonlinear_arith)
        requires
            0 < n,
    ;
    lemma_series_of_zero(0, SERIES_TERMS as int);
}

proof fn lemma_series_of_zero(k: int, n: int)
    requires
        0 <= k,
    ensures
        series(0, 0, k, n) == 0,
    decreases n - k,
{
    if k < n {
        lemma_series_of_zero(k + 1, n);
    }
}

/// The two quotes lie a whole base apart or more: the bid never lies over
/// the ask, and without inventory both lie equally far from the anchor.
pub proof fn lemma_quotes_are_ordered(p: QuoteParams, sigma: int, inventory: int, anchor: int)
    requires
        p.valid(),
        0 <= sigma,
        i64::MIN <= inventory <= i64::MAX,
    ensures
        offsets_of(p, sigma, inventory) matches Some(o) ==> (prices_of(o, anchor) matches Some(
            q,
        ) ==> q.0 <= q.1),
        offsets_of(p, sigma, 0) matches Some(o) ==> (prices_of(o, anchor) matches Some(q)
            ==> anchor - q.0 == q.1 - anchor),
{
    let risk = risk_of(p.gamma as int, p.horizon as int, sigma);
    let premium = premium_of(p.gamma as int, p.kappa as int);
    lemma_premium_nonnegative(p.gamma as int, p.kappa as int);
    assert(risk >= 0) by (nonlinear_arith)
        requires
            risk == ((p.gamma * p.horizon / (SCALE as int)) * (sigma * sigma)) / (SCALE as int
                * SCALE as int),
            p.gamma > 0,
            p.horizon > 0,
            SCALE > 0,
    ;
    assert(risk * 0 == 0) by (nonlinear_arith);
    if risk <= MAX_VALUE && premium <= MAX_VALUE {
        lemma_offsets_fit(risk, premium, inventory);
        lemma_offsets_fit(risk, premium, 0);
        let base = risk * (SCALE / 2) + premium * SCALE;
        assert(base >= 0) by (nonlinear_arith)
            requires
                base == risk * (SCALE / 2) + premium * SCALE,
                risk >= 0,
                premium >= 0,
                SCALE > 0,
                SCALE / 2 >= 0,
        ;
        let skew = risk * inventory;
        // ceil(b) + ceil(a) >= 0 where b + a >= 0
        assert(ceil_units(base - skew) + ceil_units(base + skew) >= 0) by (nonlinear_arith)
            requires
                base >= 0,
                SCALE > 0,
        ;
    }
}

} // verus!
