//! Statistical market maker.
//!
//! The engine keeps a rolling window of mid prices, estimates their mean and
//! volatility once the window is full, and quotes both sides about an anchor
//! price. The half spread balances the risk of holding inventory against the
//! rate at which quotes are filled:
//!
//! ```text
//! base = gamma * sigma^2 * T / 2 + (1 / gamma) * ln(1 + gamma / kappa)
//! skew = gamma * sigma^2 * T * inventory
//! bid  = anchor - (base - skew)
//! ask  = anchor + (base + skew)
//! ```
//!
//! `gamma` is the risk aversion, `kappa` the fill-rate sensitivity and `T`
//! the quoting horizon. The inventory moves both quotes by the skew and
//! leaves their distance, twice the base, as it is. All prices, sizes and
//! parameters are fixed-point numbers with eight decimals.

use vstd::prelude::*;
use crate::estimator::{
    mean_of, pushed, sigma_of, PriceSample, VolatilityEstimator, MAX_WINDOW,
};
use crate::fixed::{MAX_VALUE, SCALE};
use crate::inventory::{position_after, InventoryTracker};
use crate::orderbook::OrderBook;
use crate::quote::{
    bid_not_positive, bid_of, offsets_of, prices_of, quote_offsets, quote_prices, Offsets,
    QuoteParams,
};
use crate::strategy::{OrderFill, OrderRequest, Side, Strategy};

verus! {

/// The price about which the quotes are set.
#[derive(Debug, Clone, Copy, PartialEq, Eq, Structural)]
pub enum Anchor {
    /// The mid price of the tick.
    Mid,
    /// The mean of the window.
    Mean,
}

/// How a price tick ended.
#[derive(Debug, Clone, Copy, PartialEq, Eq, Structural)]
pub enum TickStatus {
    /// Both sides were quoted.
    Quoted,
    /// The window is not full yet: there is no estimate to quote from.
    InsufficientSample,
    /// The bid came out at zero or less: neither side was quoted.
    NonPositiveQuote,
    /// The price of the tick, the risk, the premium or a quote lies beyond
    /// the range of prices: neither side was quoted.
    OutOfRange,
}

/// How a tick on a full window ends.
pub open spec fn status_of(
    params: QuoteParams,
    window: Seq<PriceSample>,
    inventory: int,
    anchor: Anchor,
    price: int,
) -> TickStatus {
    let center = match anchor {
        Anchor::Mid => price,
        Anchor::Mean => mean_of(window),
    };
    match offsets_of(params, sigma_of(window), inventory) {
        Some(o) => if prices_of(o, center) is Some {
            TickStatus::Quoted
        } else if bid_of(o, center) <= 0 {
            TickStatus::NonPositiveQuote
        } else {
            TickStatus::OutOfRange
        },
        None => TickStatus::OutOfRange,
    }
}

/// The pair of quotes for a full window: a buy at the bid and a sell at the
/// ask, or nothing where the rule gives no prices.
pub open spec fn quotes_of(
    params: QuoteParams,
    window: Seq<PriceSample>,
    inventory: int,
    anchor: Anchor,
    price: int,
    size: i64,
) -> Seq<OrderRequest> {
    let center = match anchor {
        Anchor::Mid => price,
        Anchor::Mean => mean_of(window),
    };
    match offsets_of(params, sigma_of(window), inventory) {
        Some(o) => match prices_of(o, center) {
            Some((bid, ask)) => seq![
                OrderRequest { side: Side::Buy, price: bid, size },
                OrderRequest { side: Side::Sell, price: ask, size },
            ],
            None => Seq::<OrderRequest>::empty(),
        },
        None => Seq::<OrderRequest>::empty(),
    }
}

/// Parameters that an engine can be made with.
pub open spec fn valid_config(gamma: i64, kappa: i64, horizon: i64, window: usize) -> bool {
    &&& (QuoteParams { gamma, kappa, horizon }).valid()
    &&& 1 <= window <= MAX_WINDOW
}

/// The engine: a rolling window of mid prices with its last fit, the
/// parameters of the quoting rule, and the inventory.
pub struct StatMM {
    estimator: VolatilityEstimator,
    mu: i64,
    sigma: i64,
    params: QuoteParams,
    inventory: InventoryTracker,
    anchor: Anchor,
    quote_size: i64,
    status: TickStatus,
}

impl StatMM {
    /// The window of recent mid prices, oldest first.
    pub closed spec fn samples(&self) -> Seq<PriceSample> {
        self.estimator.samples()
    }

    /// Number of samples that make the window full.
    pub closed spec fn window(&self) -> nat {
        self.estimator.window()
    }

    /// Mean of the window at the last fit.
    pub closed spec fn mu(&self) -> i64 {
        self.mu
    }

    /// Volatility of the window at the last fit.
    pub closed spec fn sigma(&self) -> i64 {
        self.sigma
    }

    /// Parameters of the quoting rule.
    pub closed spec fn params(&self) -> QuoteParams {
        self.params
    }

    /// Current net position.
    pub closed spec fn inventory(&self) -> i64 {
        self.inventory.position
    }

    /// The price about which the quotes are set.
    pub closed spec fn anchor(&self) -> Anchor {
        self.anchor
    }

    /// Size of every quote.
    pub closed spec fn quote_size(&self) -> i64 {
        self.quote_size
    }

    /// How the last price tick ended.
    pub closed spec fn status(&self) -> TickStatus {
        self.status
    }

    /// Whether two engines differ at most in their window and their fit.
    pub open spec fn same_setup(&self, other: &StatMM) -> bool {
        &&& self.window() == other.window()
        &&& self.params() == other.params()
        &&& self.inventory() == other.inventory()
        &&& self.anchor() == other.anchor()
        &&& self.quote_size() == other.quote_size()
    }

    /// Whether two engines are in the same state.
    pub open spec fn same_state(&self, other: &StatMM) -> bool {
        &&& self.same_setup(other)
        &&& self.samples() == other.samples()
        &&& self.mu() == other.mu()
        &&& self.sigma() == other.sigma()
        &&& self.status() == other.status()
    }

    /// The engine `post` and the quotes `out` after a tick that found the
    /// engine `pre`. A price in range enters the window; once the window is
    /// full, mean and volatility are those of the window and the quotes are
    /// the pair that the rule gives for them. Setup and inventory stay.
    pub open spec fn tick_post(
        pre: StatMM,
        price: i64,
        now: u64,
        post: StatMM,
        out: Seq<OrderRequest>,
    ) -> bool {
        let accepted = -MAX_VALUE <= price <= MAX_VALUE;
        let fitted = accepted && post.samples().len() == post.window();
        &&& post.same_setup(&pre)
        &&& post.samples() == if accepted {
            pushed(pre.samples(), PriceSample { timestamp: now, price }, pre.window())
        } else {
            pre.samples()
        }
        &&& out == if fitted {
            quotes_of(
                post.params(),
                post.samples(),
                post.inventory() as int,
                post.anchor(),
                price as int,
                post.quote_size(),
            )
        } else {
            Seq::<OrderRequest>::empty()
        }
        &&& post.mu() == if fitted {
            mean_of(post.samples()) as i64
        } else {
            pre.mu()
        }
        &&& post.sigma() == if fitted {
            sigma_of(post.samples()) as i64
        } else {
            pre.sigma()
        }
        &&& post.status() == if !accepted {
            TickStatus::OutOfRange
        } else if !fitted {
            TickStatus::InsufficientSample
        } else {
            status_of(
                post.params(),
                post.samples(),
                post.inventory() as int,
                post.anchor(),
                price as int,
            )
        }
    }

    /// An engine with an empty window and no inventory, which quotes one
    /// unit a side about the mid price.
    pub fn new(gamma: i64, kappa: i64, horizon: i64, window: usize) -> (s: Self)
        requires
            valid_config(gamma, kappa, horizon, window),
        ensures
            s.wf(),
            s.samples() == Seq::<PriceSample>::empty(),
            s.window() == window,
            s.params() == (QuoteParams { gamma, kappa, horizon }),
            s.mu() == 0,
            s.sigma() == 0,
            s.inventory() == 0,
            s.anchor() == Anchor::Mid,
            s.quote_size() == SCALE,
            s.status() == TickStatus::InsufficientSample,
    {
        StatMM {
            estimator: VolatilityEstimator::new(window),
            mu: 0,
            sigma: 0,
            params: QuoteParams { gamma, kappa, horizon },
            inventory: InventoryTracker::new(),
            anchor: Anchor::Mid,
            quote_size: SCALE,
            status: TickStatus::InsufficientSample,
        }
    }

    /// As `new`, for parameters that may be out of range: none is made then.
    pub fn try_new(gamma: i64, kappa: i64, horizon: i64, window: usize) -> (r: Option<Self>)
        ensures
            r is Some <==> valid_config(gamma, kappa, horizon, window),
            r matches Some(s) ==> {
                &&& s.wf()
                &&& s.samples() == Seq::<PriceSample>::empty()
                &&& s.window() == window
                &&& s.params() == (QuoteParams { gamma, kappa, horizon })
                &&& s.mu() == 0
                &&& s.sigma() == 0
                &&& s.inventory() == 0
                &&& s.anchor() == Anchor::Mid
                &&& s.quote_size() == SCALE
                &&& s.status() == TickStatus::InsufficientSample
            },
    {
        let params = QuoteParams { gamma, kappa, horizon };
        if params.is_valid() && 1 <= window && window <= MAX_WINDOW {
            Some(Self::new(gamma, kappa, horizon, window))
        } else {
            None
        }
    }

    /// Fits the volatility to the window.
    pub fn fit_vol(&mut self)
        requires
            old(self).wf(),
            old(self).samples().len() > 0,
        ensures
            final(self).wf(),
            final(self).sigma() == sigma_of(old(self).samples()),
            final(self).mu() == old(self).mu(),
            final(self).samples() == old(self).samples(),
            final(self).status() == old(self).status(),
            final(self).same_setup(old(self)),
    {
        let m: i64 = self.estimator.mean();
        self.sigma = self.estimator.deviation(m);
    }

    /// Fits the mean and the volatility to the window.
    pub fn fit_ou(&mut self)
        requires
            old(self).wf(),
            old(self).samples().len() > 0,
        ensures
            final(self).wf(),
            final(self).mu() == mean_of(old(self).samples()),
            final(self).sigma() == sigma_of(old(self).samples()),
            final(self).samples() == old(self).samples(),
            final(self).status() == old(self).status(),
            final(self).same_setup(old(self)),
    {
        let m: i64 = self.estimator.mean();
        let s: i64 = self.estimator.deviation(m);
        self.mu = m;
        self.sigma = s;
    }

    /// The offsets of the two quotes at the last fit.
    pub fn ao_offsets(&self) -> (r: Option<Offsets>)
        requires
            self.wf(),
        ensures
            r == offsets_of(self.params(), self.sigma() as int, self.inventory() as int),
            r matches Some(o) ==> o.wf(),
    {
        quote_offsets(&self.params, self.sigma, self.inventory.position)
    }

    /// Bid and ask about the mean of the last fit.
    pub fn ao_quotes(&self) -> (r: Option<(i64, i64)>)
        requires
            self.wf(),
        ensures
            r == match offsets_of(self.params(), self.sigma() as int, self.inventory() as int) {
                Some(o) => prices_of(o, self.mu() as int),
                None => None,
            },
    {
        match self.ao_offsets() {
            Some(o) => quote_prices(o, self.mu),
            None => None,
        }
    }

    /// The same engine with another anchor.
    pub fn with_anchor(self, anchor: Anchor) -> (s: Self)
        ensures
            s.wf() == self.wf(),
            s.anchor() == anchor,
            s.samples() == self.samples(),
            s.window() == self.window(),
            s.params() == self.params(),
            s.mu() == self.mu(),
            s.sigma() == self.sigma(),
            s.inventory() == self.inventory(),
            s.quote_size() == self.quote_size(),
            s.status() == self.status(),
    {
        let mut s = self;
        s.anchor = anchor;
        s
    }

    /// The same engine with another size for its quotes.
    pub fn with_quote_size(self, size: i64) -> (s: Self)
        ensures
            s.wf() == self.wf(),
            s.quote_size() == size,
            s.samples() == self.samples(),
            s.window() == self.window(),
            s.params() == self.params(),
            s.mu() == self.mu(),
            s.sigma() == self.sigma(),
            s.inventory() == self.inventory(),
            s.anchor() == self.anchor(),
            s.status() == self.status(),
    {
        let mut s = self;
        s.quote_size = size;
        s
    }

    /// Current net position.
    pub fn position(&self) -> (q: i64)
        ensures
            q == self.inventory(),
    {
        self.inventory.position
    }

    /// Mean of the window at the last fit.
    pub fn last_mu(&self) -> (m: i64)
        ensures
            m == self.mu(),
    {
        self.mu
    }

    /// Volatility of the window at the last fit.
    pub fn last_sigma(&self) -> (s: i64)
        ensures
            s == self.sigma(),
    {
        self.sigma
    }

    /// How the last price tick ended.
    pub fn last_status(&self) -> (r: TickStatus)
        ensures
            r == self.status(),
    {
        self.status
    }

    /// Number of samples in the window.
    pub fn sample_count(&self) -> (n: usize)
        ensures
            n == self.samples().len(),
    {
        self.estimator.len()
    }
}

impl Strategy for StatMM {
    /// The window and the parameters are in range.
    closed spec fn wf(&self) -> bool {
        &&& self.estimator.wf()
        &&& self.params.valid()
        &&& 0 <= self.sigma
    }

    /// Takes the tick into the window and, once the window is full, fits
    /// mean and volatility and quotes both sides. A price beyond the range
    /// of prices is no sample: it leaves the engine as it was.
    fn on_price_tick(&mut self, price: i64, now: u64) -> (out: Vec<OrderRequest>)
        ensures
            StatMM::tick_post(*old(self), price, now, *final(self), out@),
    {
        if price < -MAX_VALUE || price > MAX_VALUE {
            self.status = TickStatus::OutOfRange;
            return Vec::new();
        }
        self.estimator.push(PriceSample { timestamp: now, price });
        if !self.estimator.is_full() {
            self.status = TickStatus::InsufficientSample;
            return Vec::new();
        }
        let m: i64 = self.estimator.mean();
        let s: i64 = self.estimator.deviation(m);
        self.mu = m;
        self.sigma = s;
        let center: i64 = match self.anchor {
            Anchor::Mid => price,
            Anchor::Mean => m,
        };
        let mut out: Vec<OrderRequest> = Vec::new();
        match quote_offsets(&self.params, s, self.inventory.position) {
            Some(o) => {
                match quote_prices(o, center) {
                    Some((bid, ask)) => {
                        self.status = TickStatus::Quoted;
                        out.push(OrderRequest { side: Side::Buy, price: bid, size: self.quote_size });
                        out.push(
                            OrderRequest { side: Side::Sell, price: ask, size: self.quote_size },
                        );
                        proof {
                            assert(out@ =~= seq![
                                OrderRequest { side: Side::Buy, price: bid, size: self.quote_size },
                                OrderRequest { side: Side::Sell, price: ask, size: self.quote_size },
                            ]);
                        }
                    },
                    None => {
                        self.status = if bid_not_positive(o, center) {
                            TickStatus::NonPositiveQuote
                        } else {
                            TickStatus::OutOfRange
                        };
                    },
                }
            },
            None => {
                self.status = TickStatus::OutOfRange;
            },
        }
        out
    }

    /// A refresh of the book alone moves no quote.
    fn on_order_book(&mut self, bids: &OrderBook, asks: &OrderBook) -> (out: Vec<OrderRequest>)
        ensures
            out@ == Seq::<OrderRequest>::empty(),
            final(self).same_state(old(self)),
    {
        Vec::new()
    }

    /// The engine has no periodic work.
    fn on_timer(&mut self, now: u64) -> (out: Vec<OrderRequest>)
        ensures
            out@ == Seq::<OrderRequest>::empty(),
            final(self).same_state(old(self)),
    {
        Vec::new()
    }

    /// Moves the inventory by the fill, and nothing else.
    fn on_order_filled(&mut self, fill: OrderFill)
        ensures
            final(self).inventory() == position_after(
                old(self).inventory() as int,
                fill.side,
                fill.size as int,
            ),
            final(self).samples() == old(self).samples(),
            final(self).window() == old(self).window(),
            final(self).params() == old(self).params(),
            final(self).anchor() == old(self).anchor(),
            final(self).quote_size() == old(self).quote_size(),
            final(self).mu() == old(self).mu(),
            final(self).sigma() == old(self).sigma(),
            final(self).status() == old(self).status(),
    {
        self.inventory.on_fill(&fill);
    }
}

} // verus!
