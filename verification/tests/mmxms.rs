use statmm::strategies::mmxms::{candle_from_raw, Candle, MMXMStrategy, Phase};
use statmm::strategy::{OrderRequest, Side};

const ONE: i64 = 100_000_000;

fn raw(high: &str, low: &str, close: &str) -> [String; 6] {
    [
        "1700000000000".to_string(),
        "1".to_string(),
        high.to_string(),
        low.to_string(),
        close.to_string(),
        "1000".to_string(),
    ]
}

fn strategy(bar: &str, hours: usize) -> MMXMStrategy {
    MMXMStrategy::new("BTC-USDT".to_string(), 1_000 * ONE, bar.to_string(), hours)
}

#[test]
fn new_strategy_knows_no_levels() {
    let s = strategy("1H", 24);
    assert_eq!(s.support_level(), None);
    assert_eq!(s.resistance_level(), None);
    assert!(s.is_bullish());
    assert_eq!(s.current_phase(), Phase::Consolidation);
    assert!(s.open_orders().is_empty());
    assert_eq!(s.symbol_name(), "BTC-USDT");
    assert_eq!(s.bar_name(), "1H");
    assert_eq!(s.account_balance(), 1_000 * ONE);
    assert!(!s.detect_liquidity_run(0));
    assert!(!s.detect_smr(0));
}

#[test]
fn candle_limit_goes_by_the_bar() {
    assert_eq!(strategy("1H", 24).candle_limit(), Some(24));
    assert_eq!(strategy("4H", 24).candle_limit(), Some(6));
    assert_eq!(strategy("15m", 24).candle_limit(), Some(72));
    assert_eq!(strategy("", 1).candle_limit(), Some(3));
    assert_eq!(strategy("4H", 1).candle_limit(), Some(0));
    assert_eq!(strategy("1H", usize::MAX).candle_limit(), None);
    assert_eq!(strategy("1H", usize::MAX / 60).candle_limit(), Some(usize::MAX / 60));
}

#[test]
fn raw_candle_reads_high_low_and_close() {
    assert_eq!(
        candle_from_raw(&raw("105.5", "99", "101.25")),
        Candle { high: 10_550_000_000, low: 9_900_000_000, close: 10_125_000_000 }
    );
    assert_eq!(candle_from_raw(&raw("x", "", "1e3")), Candle { high: 0, low: 0, close: 0 });
}

#[test]
fn candles_set_support_resistance_and_direction() {
    let mut s = strategy("1H", 24);
    // latest first: the latest close 104 lies over the mean 102
    let data = vec![raw("105", "103", "104"), raw("103", "99", "100"), raw("106", "101", "102")];
    s.update_pd_arrays(&data);
    assert_eq!(s.support_level(), Some(99 * ONE));
    assert_eq!(s.resistance_level(), Some(106 * ONE));
    assert!(s.is_bullish());
    // the latest close 100 lies under the mean 102
    let data = vec![raw("103", "99", "100"), raw("105", "103", "104"), raw("106", "101", "102")];
    s.update_pd_arrays(&data);
    assert!(!s.is_bullish());
    assert_eq!(s.support_level(), Some(99 * ONE));
}

#[test]
fn close_at_the_mean_is_not_over_it() {
    let mut s = strategy("1H", 24);
    s.update_pd_arrays(&vec![raw("5", "1", "3"), raw("5", "1", "3")]);
    assert!(!s.is_bullish());
    let mut s = strategy("1H", 24);
    // mean 3.33..: the close 3.34 lies over it, 3.33 does not
    s.update_pd_arrays(&vec![raw("5", "1", "3.34"), raw("5", "1", "3.33"), raw("5", "1", "3.33")]);
    assert!(s.is_bullish());
    s.update_pd_arrays(&vec![raw("5", "1", "3.33"), raw("5", "1", "3.34"), raw("5", "1", "3.33")]);
    assert!(!s.is_bullish());
}

#[test]
fn no_candle_leaves_the_direction() {
    let mut s = strategy("1H", 24);
    s.update_pd_arrays(&vec![raw("103", "99", "100"), raw("105", "103", "104")]);
    assert!(!s.is_bullish());
    s.update_pd_arrays(&Vec::new());
    assert_eq!(s.support_level(), None);
    assert_eq!(s.resistance_level(), None);
    assert!(!s.is_bullish());
}

#[test]
fn malformed_candle_counts_as_zero() {
    let mut s = strategy("1H", 24);
    s.update_pd_arrays(&vec![raw("105", "bad", "104"), raw("bad", "99", "bad")]);
    assert_eq!(s.support_level(), Some(0));
    assert_eq!(s.resistance_level(), Some(105 * ONE));
    // 104 against the mean 52
    assert!(s.is_bullish());
}

#[test]
fn quantile_is_the_value_at_nine_tenths() {
    let mut v = vec![5];
    assert_eq!(MMXMStrategy::quantile_90(&mut v), 5);
    let mut v = vec![3, 1, 2];
    // rank 2 of 1, 2, 3
    assert_eq!(MMXMStrategy::quantile_90(&mut v), 3);
    assert_eq!(v, vec![1, 2, 3]);
    let mut v = vec![10, 9, 8, 7, 6, 5, 4, 3, 2, 1];
    // rank 9 of ten
    assert_eq!(MMXMStrategy::quantile_90(&mut v), 10);
    assert_eq!(v, vec![1, 2, 3, 4, 5, 6, 7, 8, 9, 10]);
    let mut v: Vec<i64> = (1..=20).rev().collect();
    // rank 18 of twenty
    assert_eq!(MMXMStrategy::quantile_90(&mut v), 19);
    let mut v = vec![7, -2, 7, 0, -2, 7, 1, 1, 0, 3, 4];
    // rank 9 of eleven: -2, -2, 0, 0, 1, 1, 3, 4, 7, 7, 7
    assert_eq!(MMXMStrategy::quantile_90(&mut v), 7);
    assert_eq!(v, vec![-2, -2, 0, 0, 1, 1, 3, 4, 7, 7, 7]);
}

#[test]
fn liquidity_run_needs_bids_under_the_support() {
    let mut s = strategy("1H", 24);
    // support 99, bullish
    s.update_pd_arrays(&vec![raw("105", "103", "104"), raw("103", "99", "100")]);
    let bids = vec![(100 * ONE, 5), (99 * ONE, 4), (98 * ONE, 3), (97 * ONE, 2)];
    s.set_depth(bids, Vec::new());
    // the quantile of 2, 3, 4, 5 is 5; at or under 99 rest 4 + 3 + 2 = 9
    assert!(s.detect_liquidity_run(98 * ONE));
    // the price is not under the support
    assert!(!s.detect_liquidity_run(99 * ONE));
    assert!(!s.detect_liquidity_run(120 * ONE));
    // too little rests under the support
    s.set_depth(vec![(100 * ONE, 50), (99 * ONE, 4), (98 * ONE, 3)], Vec::new());
    assert!(!s.detect_liquidity_run(98 * ONE));
    // no bids at all
    s.set_depth(Vec::new(), Vec::new());
    assert!(!s.detect_liquidity_run(98 * ONE));
}

#[test]
fn liquidity_run_needs_a_bullish_frame() {
    let mut s = strategy("1H", 24);
    s.update_pd_arrays(&vec![raw("103", "99", "100"), raw("105", "103", "104")]);
    assert!(!s.is_bullish());
    s.set_depth(vec![(99 * ONE, 4), (98 * ONE, 3)], vec![(105 * ONE, 4), (106 * ONE, 3)]);
    assert!(!s.detect_liquidity_run(98 * ONE));
    // resistance 105, bearish: over 105 the asks at or over it count
    assert!(s.detect_smr(106 * ONE));
    assert!(!s.detect_smr(105 * ONE));
    s.set_depth(Vec::new(), vec![(104 * ONE, 9), (106 * ONE, 3)]);
    // the quantile of 3, 9 is 9; at or over 105 rest 3
    assert!(!s.detect_smr(106 * ONE));
}

#[test]
fn smr_needs_a_bearish_frame() {
    let mut s = strategy("1H", 24);
    s.update_pd_arrays(&vec![raw("105", "103", "104"), raw("103", "99", "100")]);
    assert!(s.is_bullish());
    s.set_depth(Vec::new(), vec![(105 * ONE, 4), (106 * ONE, 3)]);
    assert!(!s.detect_smr(106 * ONE));
}

#[test]
fn placed_orders_are_kept_in_order() {
    let mut s = strategy("1H", 24);
    s.place_order(Side::Buy, 99 * ONE, ONE);
    s.place_order(Side::Sell, 101 * ONE, 2 * ONE);
    assert_eq!(
        s.open_orders(),
        &vec![
            OrderRequest { side: Side::Buy, price: 99 * ONE, size: ONE },
            OrderRequest { side: Side::Sell, price: 101 * ONE, size: 2 * ONE },
        ]
    );
}
