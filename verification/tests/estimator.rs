use statmm::estimator::{EstimatorState, PriceSample, VolatilityEstimator};

const ONE: i64 = 100_000_000;

fn sample(timestamp: u64, price: i64) -> PriceSample {
    PriceSample { timestamp, price }
}

#[test]
fn no_estimate_before_the_window_is_full() {
    let mut e = VolatilityEstimator::new(3);
    assert_eq!(e.estimate(), None);
    e.push(sample(1, 100 * ONE));
    assert_eq!(e.estimate(), None);
    e.push(sample(2, 101 * ONE));
    assert_eq!(e.estimate(), None);
    assert!(!e.is_full());
    assert_eq!(e.len(), 2);
    assert_eq!(e.window_len(), 3);
}

#[test]
fn mean_and_population_deviation_of_three_prices() {
    let mut e = VolatilityEstimator::new(3);
    e.push(sample(1, 100 * ONE));
    e.push(sample(2, 101 * ONE));
    e.push(sample(3, 102 * ONE));
    assert!(e.is_full());
    // sigma = sqrt((1 + 0 + 1) / 3) = 0.81649658..
    assert_eq!(e.estimate(), Some(EstimatorState { mu: 101 * ONE, sigma: 81_649_658 }));
    let sigma = e.estimate().unwrap().sigma as f64 / ONE as f64;
    assert!((sigma - (2.0f64 / 3.0).sqrt()).abs() < 1e-8);
}

#[test]
fn oldest_sample_leaves_first() {
    let mut e = VolatilityEstimator::new(3);
    e.push(sample(1, 100 * ONE));
    e.push(sample(2, 101 * ONE));
    e.push(sample(3, 102 * ONE));
    e.push(sample(4, 104 * ONE));
    assert_eq!(e.len(), 3);
    // the window is now 101, 102, 104
    assert_eq!(e.mean(), 10_233_333_333);
    assert_eq!(e.estimate(), Some(EstimatorState { mu: 10_233_333_333, sigma: 124_721_912 }));
}

#[test]
fn eviction_goes_by_order_and_not_by_time() {
    let mut e = VolatilityEstimator::new(2);
    e.push(sample(900, 1 * ONE));
    e.push(sample(5, 2 * ONE));
    e.push(sample(700, 4 * ONE));
    // 1 left although its time is the latest: the window is 2, 4
    assert_eq!(e.estimate(), Some(EstimatorState { mu: 3 * ONE, sigma: ONE }));
}

#[test]
fn same_window_gives_the_same_estimate() {
    let prices = [100 * ONE, 99 * ONE + 17, 103 * ONE, 101 * ONE - 5, 100 * ONE];
    let mut a = VolatilityEstimator::new(5);
    let mut b = VolatilityEstimator::new(5);
    b.push(sample(0, 1));
    b.push(sample(0, 2));
    for (i, p) in prices.iter().enumerate() {
        a.push(sample(i as u64, *p));
        b.push(sample(77, *p));
    }
    assert_eq!(a.estimate(), b.estimate());
    assert_eq!(a.estimate(), a.estimate());
    assert!(a.estimate().is_some());
}

#[test]
fn constant_window_has_no_deviation() {
    let mut e = VolatilityEstimator::new(4);
    for i in 0..4u64 {
        e.push(sample(i, 5 * ONE));
    }
    assert_eq!(e.estimate(), Some(EstimatorState { mu: 5 * ONE, sigma: 0 }));
}

#[test]
fn mean_of_negative_prices_rounds_down() {
    let mut e = VolatilityEstimator::new(3);
    e.push(sample(1, -3));
    e.push(sample(2, -2));
    e.push(sample(3, 2));
    assert_eq!(e.mean(), -1);
    assert_eq!(e.deviation(-1), 2);
    let mut e = VolatilityEstimator::new(2);
    e.push(sample(1, -1));
    e.push(sample(2, -2));
    assert_eq!(e.mean(), -2);
}

#[test]
fn window_of_one_follows_the_last_price() {
    let mut e = VolatilityEstimator::new(1);
    e.push(sample(1, 7 * ONE));
    assert_eq!(e.estimate(), Some(EstimatorState { mu: 7 * ONE, sigma: 0 }));
    e.push(sample(2, 9 * ONE));
    assert_eq!(e.estimate(), Some(EstimatorState { mu: 9 * ONE, sigma: 0 }));
}

#[test]
fn extreme_prices_fit() {
    let max = 1_000_000_000_000_000i64;
    let mut e = VolatilityEstimator::new(2);
    e.push(sample(1, max));
    e.push(sample(2, -max));
    assert_eq!(e.estimate(), Some(EstimatorState { mu: 0, sigma: max }));
}
