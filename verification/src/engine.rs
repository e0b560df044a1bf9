use vstd::prelude::*;
use crate::models::BookEvent;
use crate::orderbook::{BookError, OrderBook};
use crate::strategies::statmm::StatMM;
use crate::strategy::{OrderFill, OrderRequest, Strategy};

verus! {

/// One instrument's book with the engine that quotes it. Events reach it
/// one at a time, in the order in which they happened.
pub struct MarketMaker {
    book: OrderBook,
    strategy: StatMM,
    last_mid: Option<i64>,
}

impl MarketMaker {
    /// The book of the instrument.
    pub closed spec fn book(&self) -> OrderBook {
        self.book
    }

    /// The engine that quotes the instrument.
    pub closed spec fn strategy(&self) -> StatMM {
        self.strategy
    }

    /// The mid price of the last tick that was handed to the engine.
    pub closed spec fn last_mid(&self) -> Option<i64> {
        self.last_mid
    }

    /// Book and engine are well formed.
    pub open spec fn wf(&self) -> bool {
        &&& self.book().wf()
        &&& self.strategy().wf()
    }

    /// Whether the book event that led from `pre` to the book of `post`
    /// is a price tick: it was applied without a report, and the book
    /// shows a mid price other than the last one.
    pub open spec fn ticks(pre: MarketMaker, post: MarketMaker, status: Result<(), BookError>) -> bool {
        &&& status is Ok
        &&& post.book().mid() is Some
        &&& post.book().mid() != pre.last_mid()
    }

    /// An empty book with `strategy`.
    pub fn new(strategy: StatMM) -> (m: Self)
        requires
            strategy.wf(),
        ensures
            m.wf(),
            m.strategy() == strategy,
            m.book().bids()@ == Map::<int, int>::empty(),
            m.book().asks()@ == Map::<int, int>::empty(),
            !m.book().in_sync(),
            m.last_mid() is None,
    {
        MarketMaker { book: OrderBook::new(), strategy, last_mid: None }
    }

    /// The book, for its queries.
    pub fn book_ref(&self) -> (b: &OrderBook)
        ensures
            *b == self.book(),
    {
        &self.book
    }

    /// The engine, for its state.
    pub fn strategy_ref(&self) -> (s: &StatMM)
        ensures
            *s == self.strategy(),
    {
        &self.strategy
    }

    /// Applies a book event and, where it changed the mid price, hands the
    /// new mid price to the engine and returns its quotes. An event that
    /// is reported, that leaves a side empty or that leaves the mid price
    /// where it was moves neither the engine nor any quote. The engine is
    /// shown every book that was applied without a report.
    pub fn on_book_event(&mut self, event: &BookEvent, now: u64) -> (r: (
        Result<(), BookError>,
        Vec<OrderRequest>,
    ))
        requires
            old(self).wf(),
        ensures
            final(self).wf(),
            OrderBook::apply_post(old(self).book(), *event, final(self).book(), r.0),
            if Self::ticks(*old(self), *final(self), r.0) {
                &&& final(self).last_mid() == final(self).book().mid()
                &&& StatMM::tick_post(
                    old(self).strategy(),
                    final(self).book().mid()->0,
                    now,
                    final(self).strategy(),
                    r.1@,
                )
            } else {
                &&& final(self).last_mid() == old(self).last_mid()
                &&& final(self).strategy().same_state(&old(self).strategy())
                &&& r.1@ == Seq::<OrderRequest>::empty()
            },
    {
        let status = self.book.apply(event);
        if status.is_err() {
            return (status, Vec::new());
        }
        let mut quotes: Vec<OrderRequest> = Vec::new();
        match self.book.mid_price() {
            Some(mid) => {
                if self.last_mid != Some(mid) {
                    self.last_mid = Some(mid);
                    quotes = self.strategy.on_price_tick(mid, now);
                }
            },
            None => {},
        }
        let ghost ticked = quotes@;
        let mut seen = self.strategy.on_order_book(&self.book, &self.book);
        quotes.append(&mut seen);
        proof {
            assert(quotes@ =~= ticked);
        }
        (status, quotes)
    }

    /// Hands a fill to the engine: the inventory moves, and no quote.
    pub fn on_order_filled(&mut self, fill: OrderFill)
        requires
            old(self).wf(),
        ensures
            final(self).wf(),
            final(self).book() == old(self).book(),
            final(self).last_mid() == old(self).last_mid(),
            final(self).strategy().inventory() == crate::inventory::position_after(
                old(self).strategy().inventory() as int,
                fill.side,
                fill.size as int,
            ),
            final(self).strategy().samples() == old(self).strategy().samples(),
            final(self).strategy().window() == old(self).strategy().window(),
            final(self).strategy().params() == old(self).strategy().params(),
            final(self).strategy().anchor() == old(self).strategy().anchor(),
            final(self).strategy().quote_size() == old(self).strategy().quote_size(),
            final(self).strategy().mu() == old(self).strategy().mu(),
            final(self).strategy().sigma() == old(self).strategy().sigma(),
            final(self).strategy().status() == old(self).strategy().status(),
    {
        self.strategy.on_order_filled(fill);
    }

    /// Hands a tick of the timer to the engine.
    pub fn on_timer(&mut self, now: u64) -> (out: Vec<OrderRequest>)
        requires
            old(self).wf(),
        ensures
            final(self).wf(),
            final(self).book() == old(self).book(),
            final(self).last_mid() == old(self).last_mid(),
            final(self).strategy().same_state(&old(self).strategy()),
            out@ == Seq::<OrderRequest>::empty(),
    {
        self.strategy.on_timer(now)
    }
}

} // verus!
