use statmm::quote::{
    liquidity_premium, ln_fixed, quote_offsets, quote_prices, risk_coefficient, Offsets,
    QuoteParams,
};

const ONE: i64 = 100_000_000;
const MAX_VALUE: i64 = 1_000_000_000_000_000;

fn params() -> QuoteParams {
    // gamma = 0.1, kappa = 100, horizon = 1
    QuoteParams { gamma: 10_000_000, kappa: 100 * ONE, horizon: ONE }
}

#[test]
fn logarithm_of_small_ratios() {
    assert_eq!(ln_fixed(1, 1), 0);
    assert_eq!(ln_fixed(2, 1), 693_147_180_559_945_309);
    assert_eq!(ln_fixed(3, 1), 1_098_612_288_668_109_679);
    assert_eq!(ln_fixed(3, 2), 405_465_108_108_164_370);
    assert_eq!(ln_fixed(10, 1), 2_302_585_092_994_045_675);
}

#[test]
fn logarithm_agrees_with_the_floating_one() {
    let cases: [(u64, u64); 9] = [
        (1001, 1000),
        (3, 2),
        (2, 1),
        (7, 3),
        (10, 1),
        (1_000_000_000_001, 1),
        (2_000_000_000_000, 1),
        (2_000_000_000_000, 1_999_999_999_999),
        (123_456_789, 987),
    ];
    for (num, den) in cases.iter() {
        let got = ln_fixed(*num, *den) as f64 / 1e18;
        let want = (*num as f64 / *den as f64).ln();
        assert!((got - want).abs() < 1e-12, "ln({}/{}) = {} and not {}", num, den, got, want);
    }
}

#[test]
fn premium_is_the_logarithm_over_gamma() {
    // (1 / 0.1) * ln(1 + 0.1 / 100) = 0.00999500333..
    assert_eq!(liquidity_premium(10_000_000, 100 * ONE), 999_500);
    // (1 / 0.1) * ln(1 + 0.1 / 1) = 0.95310179..
    assert_eq!(liquidity_premium(10_000_000, ONE), 95_310_179);
    // (1 / 2) * ln(1 + 2 / 0.5) = 0.80471895..
    assert_eq!(liquidity_premium(2 * ONE, ONE / 2), 80_471_895);
    assert_eq!(liquidity_premium(1, 1), 6_931_471_805_599_453);
    let cases: [(i64, i64); 4] = [(10_000_000, 100 * ONE), (ONE, ONE), (5 * ONE, 3), (77, 9 * ONE)];
    for (gamma, kappa) in cases.iter() {
        let g = *gamma as f64 / 1e8;
        let k = *kappa as f64 / 1e8;
        let want = (1.0 / g) * (1.0 + g / k).ln();
        let got = liquidity_premium(*gamma, *kappa) as f64 / 1e8;
        assert!((got - want).abs() <= 1e-8 + want * 1e-9, "premium({}, {}) = {} and not {}", g, k, got, want);
    }
}

#[test]
fn risk_is_gamma_sigma_squared_horizon() {
    // 0.1 * 0.81649658^2 * 1 = 0.0666666..
    assert_eq!(risk_coefficient(10_000_000, ONE, 81_649_658), Some(6_666_666));
    assert_eq!(risk_coefficient(ONE, ONE, ONE), Some(ONE));
    assert_eq!(risk_coefficient(ONE, ONE, 0), Some(0));
    assert_eq!(risk_coefficient(1, 1, 1_000_000_000), Some(0));
    assert_eq!(risk_coefficient(2 * ONE, 3 * ONE, 2 * ONE), Some(24 * ONE));
}

#[test]
fn risk_beyond_the_largest_price_is_none() {
    let top = 1_000_000_000_000i64;
    assert_eq!(risk_coefficient(top, top, 1_000_000), Some(1_000_000_000_000));
    assert_eq!(risk_coefficient(top, top, 2_000_000_000_000_000), None);
    assert_eq!(risk_coefficient(top, top, i64::MAX), None);
    // sqrt(1e7) = 3162.27766..: the first risk is just under the largest price
    assert_eq!(risk_coefficient(ONE, ONE, 316_227_766_000), Some(999_999_999_893_507));
    assert_eq!(risk_coefficient(ONE, ONE, 316_227_767_000), None);
}

#[test]
fn offsets_without_inventory_are_equal() {
    let o = quote_offsets(&params(), 81_649_658, 0).unwrap();
    assert_eq!(o.bid, o.ask);
    // base = risk / 2 + premium = 0.0333333300 + 0.00999500, in units of 1e-16
    assert_eq!(o, Offsets { bid: 433_283_300_000_000, ask: 433_283_300_000_000 });
    for sigma in [0i64, 1, 5 * ONE, 123_456_789_012] {
        let o = quote_offsets(&params(), sigma, 0).unwrap();
        assert_eq!(o.bid, o.ask);
    }
}

#[test]
fn inventory_moves_the_offsets_apart() {
    let long = quote_offsets(&params(), 81_649_658, 5 * ONE).unwrap();
    assert_eq!(long, Offsets { bid: -2_900_049_700_000_000, ask: 3_766_616_300_000_000 });
    let short = quote_offsets(&params(), 81_649_658, -2 * ONE).unwrap();
    assert_eq!(short, Offsets { bid: 1_766_616_500_000_000, ask: -900_049_900_000_000 });
    let mut last = i128::MIN;
    for q in [0i64, 1, 2, ONE, 3 * ONE, 5 * ONE, 1_000 * ONE] {
        let o = quote_offsets(&params(), 81_649_658, q).unwrap();
        // twice the risk times the inventory
        assert_eq!(o.ask - o.bid, 2 * 6_666_666 * q as i128);
        assert!(o.ask - o.bid > last);
        last = o.ask - o.bid;
    }
}

#[test]
fn inventory_without_volatility_moves_nothing() {
    let flat = quote_offsets(&params(), 0, 0).unwrap();
    let long = quote_offsets(&params(), 0, 7 * ONE).unwrap();
    assert_eq!(flat, long);
    assert_eq!(flat, Offsets { bid: 99_950_000_000_000, ask: 99_950_000_000_000 });
}

#[test]
fn offsets_for_the_largest_inventory_fit() {
    let p = QuoteParams { gamma: ONE, kappa: ONE, horizon: ONE };
    assert!(quote_offsets(&p, 316_227_766_000, i64::MAX).is_some());
    assert!(quote_offsets(&p, 316_227_766_000, i64::MIN).is_some());
}

#[test]
fn no_offsets_where_risk_or_premium_is_out_of_range() {
    let p = QuoteParams { gamma: ONE, kappa: ONE, horizon: ONE };
    assert_eq!(quote_offsets(&p, 316_227_767_000, 0), None);
    let tiny = QuoteParams { gamma: 1, kappa: 1, horizon: ONE };
    assert_eq!(quote_offsets(&tiny, 0, 0), None);
}

#[test]
fn prices_lie_away_from_the_anchor() {
    let o = quote_offsets(&params(), 81_649_658, 0).unwrap();
    assert_eq!(quote_prices(o, 102 * ONE), Some((10_195_667_167, 10_204_332_833)));
    assert_eq!(quote_prices(o, 101 * ONE), Some((10_095_667_167, 10_104_332_833)));
    let long = quote_offsets(&params(), 81_649_658, 5 * ONE).unwrap();
    assert_eq!(quote_prices(long, 102 * ONE), Some((10_229_000_497, 10_237_666_163)));
    let short = quote_offsets(&params(), 81_649_658, -2 * ONE).unwrap();
    assert_eq!(quote_prices(short, 102 * ONE), Some((10_182_333_835, 10_190_999_501)));
}

#[test]
fn prices_round_each_offset_up() {
    let o = Offsets { bid: 1, ask: 1 };
    assert_eq!(quote_prices(o, 10), Some((9, 11)));
    let o = Offsets { bid: 100_000_000, ask: 100_000_001 };
    assert_eq!(quote_prices(o, 10), Some((9, 12)));
    let o = Offsets { bid: -1, ask: -100_000_000 };
    assert_eq!(quote_prices(o, 10), Some((10, 9)));
    let o = Offsets { bid: 0, ask: 0 };
    assert_eq!(quote_prices(o, 10), Some((10, 10)));
}

#[test]
fn no_prices_where_the_bid_is_not_positive() {
    let o = quote_offsets(&params(), 0, 0).unwrap();
    // the offset is 0.009995 a side
    assert_eq!(quote_prices(o, 999_501), Some((1, 1_999_001)));
    assert_eq!(quote_prices(o, 999_500), None);
    assert_eq!(quote_prices(o, 1), None);
    assert_eq!(quote_prices(o, 0), None);
    assert_eq!(quote_prices(o, -5 * ONE), None);
}

#[test]
fn no_prices_where_the_ask_passes_the_largest_price() {
    let o = quote_offsets(&params(), 0, 0).unwrap();
    assert_eq!(
        quote_prices(o, MAX_VALUE - 999_500),
        Some((999_999_998_001_000, 1_000_000_000_000_000))
    );
    assert_eq!(quote_prices(o, MAX_VALUE - 999_499), None);
    assert_eq!(quote_prices(o, MAX_VALUE), None);
    assert_eq!(quote_prices(o, i64::MAX), None);
}

#[test]
fn parameters_must_be_positive_and_bounded() {
    assert!(params().is_valid());
    assert!(!QuoteParams { gamma: 0, kappa: ONE, horizon: ONE }.is_valid());
    assert!(!QuoteParams { gamma: ONE, kappa: -1, horizon: ONE }.is_valid());
    assert!(!QuoteParams { gamma: ONE, kappa: ONE, horizon: 0 }.is_valid());
    assert!(QuoteParams { gamma: 1, kappa: 1, horizon: 1_000_000_000_000 }.is_valid());
    assert!(!QuoteParams { gamma: 1, kappa: 1, horizon: 1_000_000_000_001 }.is_valid());
}
