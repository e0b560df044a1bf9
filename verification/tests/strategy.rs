use statmm::orderbook::OrderBook;
use statmm::strategy::{OrderFill, OrderRequest, Side, Strategy};

/// A strategy that counts what it is told and leaves the timer alone.
struct Counting {
    ticks: u32,
    fills: u32,
}

impl Strategy for Counting {
    fn wf(&self) -> bool {
        true
    }

    fn on_price_tick(&mut self, price: i64, _now: u64) -> Vec<OrderRequest> {
        self.ticks += 1;
        vec![OrderRequest { side: Side::Buy, price, size: 1 }]
    }

    fn on_order_book(&mut self, _bids: &OrderBook, _asks: &OrderBook) -> Vec<OrderRequest> {
        Vec::new()
    }

    fn on_order_filled(&mut self, _fill: OrderFill) {
        self.fills += 1;
    }
}

#[test]
fn timer_does_nothing_unless_a_strategy_says_so() {
    let mut s = Counting { ticks: 0, fills: 0 };
    assert_eq!(s.on_price_tick(5, 1).len(), 1);
    assert_eq!(s.on_timer(2), vec![]);
    assert_eq!(s.on_timer(3), vec![]);
    assert_eq!(s.ticks, 1);
    assert_eq!(s.fills, 0);
}
