use statmm::orderbook::OrderBook;
use statmm::quote::Offsets;
use statmm::strategies::statmm::{Anchor, StatMM, TickStatus};
use statmm::strategy::{OrderFill, OrderRequest, Side, Strategy};

const ONE: i64 = 100_000_000;

fn engine(window: usize) -> StatMM {
    // gamma = 0.1, kappa = 100, horizon = 1
    StatMM::new(10_000_000, 100 * ONE, ONE, window)
}

fn fill(side: Side, size: i64) -> OrderFill {
    OrderFill {
        id: uuid::Uuid::from_u128(7),
        side,
        entry_price: 100 * ONE,
        exit_price: 101 * ONE,
        size,
        pnl: 0,
    }
}

fn pair(bid: i64, ask: i64, size: i64) -> Vec<OrderRequest> {
    vec![
        OrderRequest { side: Side::Buy, price: bid, size },
        OrderRequest { side: Side::Sell, price: ask, size },
    ]
}

#[test]
fn nothing_is_quoted_before_the_window_is_full() {
    let mut s = engine(3);
    assert_eq!(s.on_price_tick(100 * ONE, 1), vec![]);
    assert_eq!(s.on_price_tick(101 * ONE, 2), vec![]);
    assert_eq!(s.sample_count(), 2);
    assert_eq!(s.last_sigma(), 0);
}

#[test]
fn full_window_quotes_both_sides_about_the_mid_price() {
    let mut s = engine(3);
    s.on_price_tick(100 * ONE, 1);
    s.on_price_tick(101 * ONE, 2);
    let quotes = s.on_price_tick(102 * ONE, 3);
    assert_eq!(quotes, pair(10_195_667_167, 10_204_332_833, ONE));
    assert_eq!(s.last_mu(), 101 * ONE);
    assert_eq!(s.last_sigma(), 81_649_658);
    // the next tick moves the window on
    let quotes = s.on_price_tick(104 * ONE, 4);
    assert_eq!(quotes, pair(10_391_222_722, 10_408_777_278, ONE));
    assert_eq!(s.last_mu(), 10_233_333_333);
    assert_eq!(s.last_sigma(), 124_721_912);
    assert_eq!(s.sample_count(), 3);
}

#[test]
fn quotes_can_be_set_about_the_mean() {
    let mut s = engine(3).with_anchor(Anchor::Mean);
    s.on_price_tick(100 * ONE, 1);
    s.on_price_tick(101 * ONE, 2);
    let quotes = s.on_price_tick(102 * ONE, 3);
    assert_eq!(quotes, pair(10_095_667_167, 10_104_332_833, ONE));
    let quotes = s.on_price_tick(104 * ONE, 4);
    assert_eq!(quotes, pair(10_224_556_055, 10_242_110_611, ONE));
}

#[test]
fn quote_size_is_the_configured_one() {
    let mut s = engine(1).with_quote_size(25_000_000);
    let quotes = s.on_price_tick(5 * ONE, 1);
    assert_eq!(quotes, pair(499_000_500, 500_999_500, 25_000_000));
}

#[test]
fn buy_fill_then_sell_fill() {
    let mut s = engine(3);
    assert_eq!(s.position(), 0);
    s.on_order_filled(fill(Side::Buy, 5 * ONE));
    assert_eq!(s.position(), 5 * ONE);
    s.on_order_filled(fill(Side::Sell, 2 * ONE));
    assert_eq!(s.position(), 3 * ONE);
    s.on_order_filled(fill(Side::Sell, 4 * ONE));
    assert_eq!(s.position(), -ONE);
}

#[test]
fn position_stops_at_the_ends_of_its_range() {
    let mut s = engine(3);
    s.on_order_filled(fill(Side::Buy, i64::MAX));
    s.on_order_filled(fill(Side::Buy, 1));
    assert_eq!(s.position(), i64::MAX);
    let mut s = engine(3);
    s.on_order_filled(fill(Side::Sell, i64::MAX));
    s.on_order_filled(fill(Side::Sell, 5));
    assert_eq!(s.position(), i64::MIN);
    let mut s = engine(3);
    s.on_order_filled(fill(Side::Sell, i64::MIN));
    assert_eq!(s.position(), i64::MAX);
}

#[test]
fn fill_moves_the_next_quotes_and_emits_none_itself() {
    let mut s = engine(3);
    s.on_price_tick(100 * ONE, 1);
    s.on_price_tick(101 * ONE, 2);
    s.on_order_filled(fill(Side::Buy, 5 * ONE));
    assert_eq!(s.sample_count(), 2);
    let quotes = s.on_price_tick(102 * ONE, 3);
    assert_eq!(quotes, pair(10_229_000_497, 10_237_666_163, ONE));
    s.on_order_filled(fill(Side::Sell, 2 * ONE));
    assert_eq!(s.ao_offsets(), Some(Offsets { bid: -1_566_716_500_000_000, ask: 2_433_283_100_000_000 }));
    assert_eq!(s.ao_quotes(), Some((10_115_667_165, 10_124_332_831)));
}

#[test]
fn without_inventory_the_offsets_are_equal() {
    let mut s = engine(3);
    s.on_price_tick(100 * ONE, 1);
    s.on_price_tick(101 * ONE, 2);
    s.on_price_tick(102 * ONE, 3);
    let o = s.ao_offsets().unwrap();
    assert_eq!(o.bid, o.ask);
    assert_eq!(s.ao_quotes(), Some((10_095_667_167, 10_104_332_833)));
}

#[test]
fn more_inventory_widens_the_gap_between_the_offsets() {
    let mut s = engine(3);
    s.on_price_tick(100 * ONE, 1);
    s.on_price_tick(101 * ONE, 2);
    s.on_price_tick(102 * ONE, 3);
    let mut last = s.ao_offsets().unwrap();
    for _ in 0..5 {
        s.on_order_filled(fill(Side::Buy, ONE));
        let o = s.ao_offsets().unwrap();
        assert!(o.ask - o.bid > last.ask - last.bid);
        assert!(o.ask > last.ask);
        assert!(o.bid < last.bid);
        last = o;
    }
}

#[test]
fn no_quotes_where_the_bid_would_not_be_positive() {
    let mut s = engine(1);
    // the premium alone is 0.009995
    assert_eq!(s.on_price_tick(999_500, 1), vec![]);
    assert_eq!(s.on_price_tick(999_501, 2), pair(1, 1_999_001, ONE));
    assert_eq!(s.on_price_tick(0, 3), vec![]);
    assert_eq!(s.on_price_tick(-5 * ONE, 4), vec![]);
    assert_eq!(s.sample_count(), 1);
}

#[test]
fn price_out_of_range_is_no_sample() {
    let mut s = engine(2);
    s.on_price_tick(5 * ONE, 1);
    assert_eq!(s.on_price_tick(i64::MAX, 2), vec![]);
    assert_eq!(s.on_price_tick(i64::MIN, 3), vec![]);
    assert_eq!(s.on_price_tick(1_000_000_000_000_001, 4), vec![]);
    assert_eq!(s.sample_count(), 1);
    assert_eq!(s.on_price_tick(5 * ONE, 5), pair(499_000_500, 500_999_500, ONE));
}

#[test]
fn fits_read_the_window_as_it_is() {
    let mut s = engine(5);
    s.on_price_tick(100 * ONE, 1);
    s.on_price_tick(101 * ONE, 2);
    s.on_price_tick(102 * ONE, 3);
    assert_eq!(s.last_sigma(), 0);
    s.fit_vol();
    assert_eq!(s.last_sigma(), 81_649_658);
    assert_eq!(s.last_mu(), 0);
    s.fit_ou();
    assert_eq!(s.last_mu(), 101 * ONE);
    assert_eq!(s.last_sigma(), 81_649_658);
}

#[test]
fn book_refresh_and_timer_emit_nothing() {
    let mut s = engine(1);
    s.on_price_tick(5 * ONE, 1);
    let book = OrderBook::new();
    assert_eq!(s.on_order_book(&book, &book), vec![]);
    assert_eq!(s.on_timer(9), vec![]);
    assert_eq!(s.sample_count(), 1);
    assert_eq!(s.last_mu(), 5 * ONE);
}

#[test]
fn try_new_refuses_parameters_out_of_range() {
    assert!(StatMM::try_new(10_000_000, 100 * ONE, ONE, 50).is_some());
    assert!(StatMM::try_new(0, 100 * ONE, ONE, 50).is_none());
    assert!(StatMM::try_new(10_000_000, 0, ONE, 50).is_none());
    assert!(StatMM::try_new(10_000_000, 100 * ONE, -1, 50).is_none());
    assert!(StatMM::try_new(10_000_000, 100 * ONE, ONE, 0).is_none());
    assert!(StatMM::try_new(10_000_000, 100 * ONE, ONE, 10_001).is_none());
    assert!(StatMM::try_new(10_000_000, 100 * ONE, ONE, 10_000).is_some());
    assert!(StatMM::try_new(1_000_000_000_001, 100 * ONE, ONE, 5).is_none());
}

#[test]
fn status_says_why_a_tick_gave_no_quotes() {
    let mut s = engine(2);
    assert_eq!(s.last_status(), TickStatus::InsufficientSample);
    s.on_price_tick(5 * ONE, 1);
    assert_eq!(s.last_status(), TickStatus::InsufficientSample);
    assert_eq!(s.on_price_tick(5 * ONE, 2).len(), 2);
    assert_eq!(s.last_status(), TickStatus::Quoted);
    s.on_price_tick(i64::MAX, 3);
    assert_eq!(s.last_status(), TickStatus::OutOfRange);
    let mut s = engine(1);
    s.on_price_tick(999_500, 1);
    assert_eq!(s.last_status(), TickStatus::NonPositiveQuote);
    s.on_price_tick(-3, 2);
    assert_eq!(s.last_status(), TickStatus::NonPositiveQuote);
    s.on_price_tick(1_000_000_000_000_000, 3);
    assert_eq!(s.last_status(), TickStatus::OutOfRange);
    s.on_price_tick(999_501, 4);
    assert_eq!(s.last_status(), TickStatus::Quoted);
    // a fill and the timer leave the status
    s.on_order_filled(fill(Side::Buy, ONE));
    s.on_timer(5);
    assert_eq!(s.last_status(), TickStatus::Quoted);
}

#[test]
fn status_is_out_of_range_where_the_premium_is() {
    // gamma and kappa of one hundred-millionth: the premium alone is 69 million
    let mut s = StatMM::new(1, 1, ONE, 1);
    assert_eq!(s.on_price_tick(5 * ONE, 1), vec![]);
    assert_eq!(s.last_status(), TickStatus::OutOfRange);
    assert_eq!(s.ao_offsets(), None);
    assert_eq!(s.ao_quotes(), None);
}
