use vstd::prelude::*;

verus! {

/// Number of fixed-point units in one whole unit: values carry eight decimals.
pub const SCALE: i64 = 100_000_000;

/// Largest magnitude a price or a size may have, in fixed-point units.
pub const MAX_VALUE: i64 = 1_000_000_000_000_000;

/// Quotient of `x` by `d`, rounded down.
pub fn floor_div(x: i128, d: i128) -> (q: i128)
    requires
        d > 0,
    ensures
        q == x as int / d as int,
{
    if x >= 0 {
        x / d
    } else {
        let y: i128 = -(x + 1);
        let t: i128 = y / d;
        proof {
            assert(x as int / d as int == -(t as int) - 1) by (nonlinear_arith)
                requires
                    d > 0,
                    x < 0,
                    y == -(x + 1),
                    t == (y as int) / (d as int),
            ;
        }
        -t - 1
    }
}

/// Quotient of `x` by `d`, rounded up.
pub fn ceil_div(x: i128, d: i128) -> (q: i128)
    requires
        d > 0,
        x + d <= i128::MAX,
    ensures
        q == (x as int + d as int - 1) / d as int,
{
    floor_div(x + d - 1, d)
}

/// Largest `r` whose square does not exceed `n`.
pub fn isqrt(n: u128) -> (r: u64)
    ensures
        r * r <= n < (r + 1) * (r + 1),
{
    let mut lo: u128 = 0;
    let mut hi: u128 = 0x1_0000_0000_0000_0000;
    assert(0x1_0000_0000_0000_0000int * 0x1_0000_0000_0000_0000int > u128::MAX);
    while hi - lo > 1
        invariant
            lo < hi <= 0x1_0000_0000_0000_0000,
            lo * lo <= n < hi * hi,
        decreases hi - lo,
    {
        let mid: u128 = lo + (hi - lo) / 2;
        assert(mid * mid <= 0xffff_ffff_ffff_ffffint * 0xffff_ffff_ffff_ffffint) by (nonlinear_arith)
            requires
                0 <= mid <= 0xffff_ffff_ffff_ffff,
        ;
        assert(0xffff_ffff_ffff_ffffint * 0xffff_ffff_ffff_ffffint <= u128::MAX);
        if mid * mid <= n {
            lo = mid;
        } else {
            hi = mid;
        }
    }
    lo as u64
}

/// `num / den` as a fixed-point number, rounded down, for `num <= den`.
pub fn scaled_ratio(num: u128, den: u128) -> (r: i64)
    requires
        0 < den,
        num <= den,
        den <= 10_000_000_000_000_000_000_000_000_000_000_000_000,
    ensures
        r == (num * SCALE) / den as int,
        0 <= r <= SCALE,
{
    if num == den {
        assert((num * SCALE) / den as int == SCALE) by (nonlinear_arith)
            requires
                num == den,
                0 < den,
        ;
        return SCALE;
    }
    let mut rem: u128 = num;
    let mut q: u64 = 0;
    let mut step: u32 = 0;
    let ghost mut power: int = 1;
    while step < 8
        invariant
            0 <= step <= 8,
            0 < den <= 10_000_000_000_000_000_000_000_000_000_000_000_000,
            rem < den,
            q * den + rem == num * power,
            0 < power <= 100_000_000,
            q < power,
            step < 8 ==> power <= 10_000_000,
            step == 8 ==> power == 100_000_000,
            step == 7 ==> power == 10_000_000,
            step == 6 ==> power == 1_000_000,
            step == 5 ==> power == 100_000,
            step == 4 ==> power == 10_000,
            step == 3 ==> power == 1_000,
            step == 2 ==> power == 100,
            step == 1 ==> power == 10,
            step == 0 ==> power == 1,
        decreases 8 - step,
    {
        let scaled: u128 = rem * 10;
        let d: u128 = scaled / den;
        let next: u128 = scaled % den;
        proof {
            assert(d < 10 && scaled == d * den + next) by (nonlinear_arith)
                requires
                    scaled == rem * 10,
                    rem < den,
                    0 < den,
                    d == scaled / den,
                    next == scaled % den,
            ;
            assert((q * 10 + d) * den + next == num * (power * 10)) by (nonlinear_arith)
                requires
                    q * den + rem == num * power,
                    rem * 10 == d * den + next,
            ;
        }
        q = q * 10 + d as u64;
        rem = next;
        step = step + 1;
        proof {
            power = power * 10;
        }
    }
    proof {
        assert(q == (num * SCALE) / den as int) by (nonlinear_arith)
            requires
                q * den + rem == num * SCALE,
                0 <= rem < den,
        ;
    }
    q as i64
}

} // verus!
