use vstd::prelude::*;
use crate::orderbook::OrderBook;

verus! {

/// `uuid::Uuid`, the identifier of a fill. The library carries it from the
/// fill that came to whoever reads the fill, and claims nothing of it.
#[verifier::external_type_specification]
#[verifier::external_body]
pub struct ExUuid(uuid::Uuid);

#[derive(Debug, Clone, Copy, PartialEq, Eq, Structural)]
pub enum Side {
    Buy,
    Sell,
}

/// The intent to quote one side at a price, for a size; prices and sizes are
/// in fixed-point units.
#[derive(Debug, Clone, Copy, PartialEq, Eq, Structural)]
pub struct OrderRequest {
    pub side: Side,
    pub price: i64,
    pub size: i64,
}

/// A fill of one of the engine's orders.
#[derive(Debug, Clone, Copy)]
pub struct OrderFill {
    pub id: uuid::Uuid,
    pub side: Side,
    pub entry_price: i64,
    pub exit_price: i64,
    pub size: i64,
    pub pnl: i64,
}

/// What a strategy is told of, in the order in which it happened. Each call
/// returns the orders that the strategy wants placed.
pub trait Strategy: Sized {
    /// Whether the strategy's state is one that it can have reached. Every
    /// call starts from such a state and ends in one.
    spec fn wf(&self) -> bool;

    /// Called on every change of the mid price, with the time in
    /// milliseconds.
    fn on_price_tick(&mut self, price: i64, now: u64) -> (out: Vec<OrderRequest>)
        requires
            old(self).wf(),
        ensures
            final(self).wf(),
    ;

    /// Called whenever the book was refreshed.
    fn on_order_book(&mut self, bids: &OrderBook, asks: &OrderBook) -> (out: Vec<OrderRequest>)
        requires
            old(self).wf(),
        ensures
            final(self).wf(),
    ;

    /// Whether the strategy has work to do on the timer. One that has none
    /// leaves this and `on_timer` as they are.
    open spec fn periodic(&self) -> bool {
        false
    }

    /// Called on every tick of the timer. A strategy without periodic work
    /// returns no order and stays as it was.
    fn on_timer(&mut self, now: u64) -> (out: Vec<OrderRequest>)
        requires
            old(self).wf(),
        ensures
            final(self).wf(),
            !old(self).periodic() ==> out@ == Seq::<OrderRequest>::empty() && *final(self) == *old(
                self,
            ),
    {
        Vec::new()
    }

    /// Called whenever an order was filled.
    fn on_order_filled(&mut self, fill: OrderFill)
        requires
            old(self).wf(),
        ensures
            final(self).wf(),
    ;
}

} // verus!
