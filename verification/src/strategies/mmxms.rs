//! Market-maker-model strategy: support and resistance from candles of a
//! higher time frame, and detectors of liquidity resting beyond them.

use vstd::prelude::*;
use vstd::relations::{sorted_by, total_ordering};
use vstd::seq_lib::{lemma_sorted_unique, to_multiset_build, to_multiset_insert};
use crate::decimal::{decimal_value, parse_decimal};
use crate::models::same_text;
use crate::strategy::{OrderRequest, Side};

verus! {

/// Stage of the model that the market is taken to be in.
#[derive(Debug, Clone, Copy, PartialEq, Eq, Structural)]
pub enum Phase {
    Consolidation,
    LiquidityRun,
    SMR,
    Accumulation,
    Completion,
}

/// High, low and close of one candle, in fixed-point units.
#[derive(Debug, Clone, Copy, PartialEq, Eq, Structural)]
pub struct Candle {
    pub high: i64,
    pub low: i64,
    pub close: i64,
}

/// What a text writes as a decimal, or zero where it writes none.
pub open spec fn value_or_zero(s: Seq<char>) -> i64 {
    match decimal_value(s) {
        Some(v) => v as i64,
        None => 0,
    }
}

/// The candle of a raw one, whose six texts are time, open, high, low,
/// close and volume.
pub open spec fn candle_value(entry: [String; 6]) -> Candle {
    Candle {
        high: value_or_zero(entry@[2]@),
        low: value_or_zero(entry@[3]@),
        close: value_or_zero(entry@[4]@),
    }
}

/// The candles of raw ones, in their order.
pub open spec fn candles_of(data: Seq<[String; 6]>) -> Seq<Candle> {
    Seq::new(data.len(), |i: int| candle_value(data[i]))
}

/// The lowest low of the candles, if there is a candle.
pub open spec fn lowest_low(c: Seq<Candle>) -> Option<i64>
    decreases c.len(),
{
    if c.len() == 0 {
        None
    } else {
        match lowest_low(c.drop_last()) {
            Some(m) => Some(
                if c.last().low < m {
                    c.last().low
                } else {
                    m
                },
            ),
            None => Some(c.last().low),
        }
    }
}

/// The highest high of the candles, if there is a candle.
pub open spec fn highest_high(c: Seq<Candle>) -> Option<i64>
    decreases c.len(),
{
    if c.len() == 0 {
        None
    } else {
        match highest_high(c.drop_last()) {
            Some(m) => Some(
                if c.last().high > m {
                    c.last().high
                } else {
                    m
                },
            ),
            None => Some(c.last().high),
        }
    }
}

/// Sum of the closes.
pub open spec fn close_sum(c: Seq<Candle>) -> int
    decreases c.len(),
{
    if c.len() == 0 {
        0
    } else {
        close_sum(c.drop_last()) + c.last().close
    }
}

/// Whether the close of the first candle, the latest, lies over the mean of
/// all closes.
pub open spec fn closes_over_mean(c: Seq<Candle>) -> bool {
    c[0].close * c.len() > close_sum(c)
}

/// Minutes that the candle limit is divided by for a bar: an hour for `1H`,
/// four for `4H`, twenty minutes for any other.
pub open spec fn bar_divisor(bar: Seq<char>) -> int {
    if bar == "1H"@ {
        60
    } else if bar == "4H"@ {
        240
    } else {
        20
    }
}

/// The order of quantities by size.
pub open spec fn by_size() -> spec_fn(i64, i64) -> bool {
    |a: i64, b: i64| a <= b
}

/// Rank of the quantile among `n` values in rising order: nine tenths of
/// `n`, rounded down, and at most the last rank.
pub open spec fn quantile_rank(n: int) -> int {
    if n * 9 / 10 < n - 1 {
        n * 9 / 10
    } else {
        n - 1
    }
}

/// The value at the quantile's rank among the values in rising order.
pub open spec fn quantile_90_of(s: Seq<i64>) -> i64 {
    s.sort_by(by_size())[quantile_rank(s.len() as int)]
}

/// The quantities of levels given as pairs of price and quantity.
pub open spec fn quantities(levels: Seq<(i64, i64)>) -> Seq<i64> {
    Seq::new(levels.len(), |i: int| levels[i].1)
}

/// Sum of the quantities at prices of at most `limit`.
pub open spec fn liquidity_up_to(levels: Seq<(i64, i64)>, limit: int) -> int
    decreases levels.len(),
{
    if levels.len() == 0 {
        0
    } else {
        liquidity_up_to(levels.drop_last(), limit) + if levels.last().0 <= limit {
            levels.last().1 as int
        } else {
            0
        }
    }
}

/// Sum of the quantities at prices of at least `limit`.
pub open spec fn liquidity_from(levels: Seq<(i64, i64)>, limit: int) -> int
    decreases levels.len(),
{
    if levels.len() == 0 {
        0
    } else {
        liquidity_from(levels.drop_last(), limit) + if levels.last().0 >= limit {
            levels.last().1 as int
        } else {
            0
        }
    }
}

/// The order by size is a total order.
pub proof fn lemma_by_size_is_total()
    ensures
        total_ordering(by_size()),
{
}

fn decimal_or_zero(text: &str) -> (v: i64)
    ensures
        v == value_or_zero(text@),
{
    match parse_decimal(text) {
        Some(v) => v,
        None => 0,
    }
}

/// Reads high, low and close of a raw candle; a text that is no decimal
/// counts as zero.
pub fn candle_from_raw(entry: &[String; 6]) -> (c: Candle)
    ensures
        c == candle_value(*entry),
{
    Candle {
        high: decimal_or_zero(entry[2].as_str()),
        low: decimal_or_zero(entry[3].as_str()),
        close: decimal_or_zero(entry[4].as_str()),
    }
}

/// Support, resistance and direction of a higher time frame, the depth that
/// the detectors read, and the orders placed.
pub struct MMXMStrategy {
    support: Option<i64>,
    resistance: Option<i64>,
    is_bullish: bool,
    current_phase: Phase,
    last_bids: Vec<(i64, i64)>,
    last_asks: Vec<(i64, i64)>,
    open_orders: Vec<OrderRequest>,
    account_balance: i64,
    symbol: String,
    htf_bar: String,
    htf_hours: usize,
}

impl MMXMStrategy {
    /// The lowest low of the candles last read.
    pub closed spec fn support(&self) -> Option<i64> {
        self.support
    }

    /// The highest high of the candles last read.
    pub closed spec fn resistance(&self) -> Option<i64> {
        self.resistance
    }

    /// Whether the higher time frame closed over its mean.
    pub closed spec fn bullish(&self) -> bool {
        self.is_bullish
    }

    /// The stage that the market is taken to be in.
    pub closed spec fn phase(&self) -> Phase {
        self.current_phase
    }

    /// The bids last stored, as pairs of price and quantity.
    pub closed spec fn bids(&self) -> Seq<(i64, i64)> {
        self.last_bids@
    }

    /// The asks last stored, as pairs of price and quantity.
    pub closed spec fn asks(&self) -> Seq<(i64, i64)> {
        self.last_asks@
    }

    /// The orders placed so far, oldest first.
    pub closed spec fn orders(&self) -> Seq<OrderRequest> {
        self.open_orders@
    }

    /// Balance of the account.
    pub closed spec fn balance(&self) -> i64 {
        self.account_balance
    }

    /// Name of the instrument.
    pub closed spec fn symbol(&self) -> Seq<char> {
        self.symbol@
    }

    /// Bar of the higher time frame, such as `1H`.
    pub closed spec fn bar(&self) -> Seq<char> {
        self.htf_bar@
    }

    /// Hours of the higher time frame to look back.
    pub closed spec fn hours(&self) -> usize {
        self.htf_hours
    }

    /// Whether `other` differs at most in what the candles set.
    pub open spec fn same_but_levels(&self, other: &MMXMStrategy) -> bool {
        &&& self.phase() == other.phase()
        &&& self.bids() == other.bids()
        &&& self.asks() == other.asks()
        &&& self.orders() == other.orders()
        &&& self.balance() == other.balance()
        &&& self.symbol() == other.symbol()
        &&& self.bar() == other.bar()
        &&& self.hours() == other.hours()
    }

    /// A strategy for `symbol` that has read no candle yet: it knows no
    /// support and no resistance, and takes the market to be bullish and
    /// consolidating.
    pub fn new(symbol: String, start_balance: i64, htf_bar: String, htf_hours: usize) -> (s: Self)
        ensures
            s.support() is None,
            s.resistance() is None,
            s.bullish(),
            s.phase() == Phase::Consolidation,
            s.bids() == Seq::<(i64, i64)>::empty(),
            s.asks() == Seq::<(i64, i64)>::empty(),
            s.orders() == Seq::<OrderRequest>::empty(),
            s.balance() == start_balance,
            s.symbol() == symbol@,
            s.bar() == htf_bar@,
            s.hours() == htf_hours,
    {
        MMXMStrategy {
            support: None,
            resistance: None,
            is_bullish: true,
            current_phase: Phase::Consolidation,
            last_bids: Vec::new(),
            last_asks: Vec::new(),
            open_orders: Vec::new(),
            account_balance: start_balance,
            symbol,
            htf_bar,
            htf_hours,
        }
    }

    /// The lowest low of the candles last read.
    pub fn support_level(&self) -> (r: Option<i64>)
        ensures
            r == self.support(),
    {
        self.support
    }

    /// The highest high of the candles last read.
    pub fn resistance_level(&self) -> (r: Option<i64>)
        ensures
            r == self.resistance(),
    {
        self.resistance
    }

    /// Whether the higher time frame closed over its mean.
    pub fn is_bullish(&self) -> (r: bool)
        ensures
            r == self.bullish(),
    {
        self.is_bullish
    }

    /// The stage that the market is taken to be in.
    pub fn current_phase(&self) -> (r: Phase)
        ensures
            r == self.phase(),
    {
        self.current_phase
    }

    /// Balance of the account.
    pub fn account_balance(&self) -> (r: i64)
        ensures
            r == self.balance(),
    {
        self.account_balance
    }

    /// The orders placed so far, oldest first.
    pub fn open_orders(&self) -> (r: &Vec<OrderRequest>)
        ensures
            r@ == self.orders(),
    {
        &self.open_orders
    }

    /// Name of the instrument.
    pub fn symbol_name(&self) -> (r: &str)
        ensures
            r@ == self.symbol(),
    {
        self.symbol.as_str()
    }

    /// Bar of the higher time frame.
    pub fn bar_name(&self) -> (r: &str)
        ensures
            r@ == self.bar(),
    {
        self.htf_bar.as_str()
    }

    /// Number of candles to ask for: the hours of the higher time frame in
    /// minutes, divided by the bar's divisor. None where the minutes pass
    /// the largest number.
    pub fn candle_limit(&self) -> (r: Option<usize>)
        ensures
            r == if self.hours() * 60 <= usize::MAX {
                Some((self.hours() * 60 / bar_divisor(self.bar())) as usize)
            } else {
                None
            },
    {
        proof {
            reveal_strlit("1H");
            reveal_strlit("4H");
        }
        let divisor: usize = if same_text(self.htf_bar.as_str(), "1H") {
            60
        } else if same_text(self.htf_bar.as_str(), "4H") {
            240
        } else {
            20
        };
        match self.htf_hours.checked_mul(60) {
            Some(minutes) => Some(minutes / divisor),
            None => None,
        }
    }

    /// Stores the levels that the detectors read.
    pub fn set_depth(&mut self, bids: Vec<(i64, i64)>, asks: Vec<(i64, i64)>)
        ensures
            final(self).bids() == bids@,
            final(self).asks() == asks@,
            final(self).support() == old(self).support(),
            final(self).resistance() == old(self).resistance(),
            final(self).bullish() == old(self).bullish(),
            final(self).phase() == old(self).phase(),
            final(self).orders() == old(self).orders(),
            final(self).balance() == old(self).balance(),
            final(self).symbol() == old(self).symbol(),
            final(self).bar() == old(self).bar(),
            final(self).hours() == old(self).hours(),
    {
        self.last_bids = bids;
        self.last_asks = asks;
    }

    /// Takes support, resistance and direction from raw candles, latest
    /// first: the lowest low, the highest high, and whether the latest
    /// close lies over the mean of the closes. Without a candle there is
    /// neither support nor resistance, and the direction stays.
    pub fn update_pd_arrays(&mut self, data: &Vec<[String; 6]>)
        ensures
            final(self).support() == lowest_low(candles_of(data@)),
            final(self).resistance() == highest_high(candles_of(data@)),
            final(self).bullish() == if data@.len() > 0 {
                closes_over_mean(candles_of(data@))
            } else {
                old(self).bullish()
            },
            final(self).same_but_levels(old(self)),
    {
        let ghost all = candles_of(data@);
        let n: usize = data.len();
        let mut low: Option<i64> = None;
        let mut high: Option<i64> = None;
        let mut sum: i128 = 0;
        let mut i: usize = 0;
        while i < n
            invariant
                i <= n,
                n == data@.len(),
                all == candles_of(data@),
                low == lowest_low(all.subrange(0, i as int)),
                high == highest_high(all.subrange(0, i as int)),
                sum == close_sum(all.subrange(0, i as int)),
                -(i * 0x8000_0000_0000_0000) <= sum <= i * 0x8000_0000_0000_0000,
            decreases n - i,
        {
            proof {
                assert(all.subrange(0, i + 1).drop_last() =~= all.subrange(0, i as int));
                assert(all.subrange(0, i + 1).last() == candle_value(data@[i as int]));
                assert(i * 0x8000_0000_0000_0000 <= 0xffff_ffff_ffff_ffff * 0x8000_0000_0000_0000)
                    by (nonlinear_arith)
                    requires
                        i <= 0xffff_ffff_ffff_ffff,
                ;
            }
            let c = candle_from_raw(&data[i]);
            low = match low {
                Some(m) => Some(
                    if c.low < m {
                        c.low
                    } else {
                        m
                    },
                ),
                None => Some(c.low),
            };
            high = match high {
                Some(m) => Some(
                    if c.high > m {
                        c.high
                    } else {
                        m
                    },
                ),
                None => Some(c.high),
            };
            sum = sum + c.close as i128;
            i = i + 1;
        }
        proof {
            assert(all.subrange(0, i as int) =~= all);
        }
        self.support = low;
        self.resistance = high;
        if n > 0 {
            let latest = candle_from_raw(&data[0]);
            proof {
                assert(all[0] == candle_value(data@[0]));
                assert(-(0x8000_0000_0000_0000 * n) <= latest.close * n <= 0x8000_0000_0000_0000
                    * n) by (nonlinear_arith)
                    requires
                        -0x8000_0000_0000_0000 <= latest.close <= 0x8000_0000_0000_0000,
                        0 <= n,
                ;
                assert(0x8000_0000_0000_0000 * n <= 0x8000_0000_0000_0000 * 0xffff_ffff_ffff_ffff)
                    by (nonlinear_arith)
                    requires
                        0 <= n <= 0xffff_ffff_ffff_ffff,
                ;
            }
            self.is_bullish = latest.close as i128 * n as i128 > sum;
        }
    }

    /// Puts the values in rising order and returns the one at the
    /// quantile's rank.
    pub fn quantile_90(qs: &mut Vec<i64>) -> (r: i64)
        requires
            old(qs)@.len() > 0,
        ensures
            final(qs)@ == old(qs)@.sort_by(by_size()),
            r == quantile_90_of(old(qs)@),
    {
        let ghost start = qs@;
        let n: usize = qs.len();
        let mut sorted: Vec<i64> = Vec::new();
        let mut i: usize = 0;
        assert(sorted@ =~= start.subrange(0, 0));
        while i < n
            invariant
                i <= n,
                n == qs@.len(),
                qs@ == start,
                sorted@.len() == i,
                sorted_by(sorted@, by_size()),
                sorted@.to_multiset() == start.subrange(0, i as int).to_multiset(),
            decreases n - i,
        {
            let x: i64 = qs[i];
            let m: usize = sorted.len();
            let mut j: usize = 0;
            while j < m && sorted[j] <= x
                invariant
                    j <= m,
                    m == sorted@.len(),
                    forall|k: int| 0 <= k < j ==> sorted@[k] <= x,
                decreases m - j,
            {
                j = j + 1;
            }
            let ghost before = sorted@;
            proof {
                to_multiset_insert(before, j as int, x);
                to_multiset_build(start.subrange(0, i as int), x);
                assert(start.subrange(0, i + 1) =~= start.subrange(0, i as int).push(x));
                let after = before.insert(j as int, x);
                assert forall|a: int, b: int| 0 <= a < b < after.len() implies by_size()(
                    #[trigger] after[a],
                    #[trigger] after[b],
                ) by {
                    if b < j {
                        assert(by_size()(before[a], before[b]));
                    } else if b == j {
                        assert(before[a] <= x);
                    } else if a < j {
                        assert(by_size()(before[a], before[b - 1]));
                    } else if a == j {
                        assert(by_size()(before[j as int], before[b - 1]) || b - 1 == j);
                    } else {
                        assert(by_size()(before[a - 1], before[b - 1]));
                    }
                }
            }
            sorted.insert(j, x);
            i = i + 1;
        }
        proof {
            assert(start.subrange(0, n as int) =~= start);
            lemma_by_size_is_total();
            start.lemma_sort_by_ensures(by_size());
            lemma_sorted_unique(sorted@, start.sort_by(by_size()), by_size());
        }
        let nine_tenths: usize = ((n as u128 * 9) / 10) as usize;
        let rank: usize = if nine_tenths < n - 1 {
            nine_tenths
        } else {
            n - 1
        };
        let r: i64 = sorted[rank];
        *qs = sorted;
        r
    }

    fn quantities_of(levels: &Vec<(i64, i64)>) -> (q: Vec<i64>)
        ensures
            q@ == quantities(levels@),
    {
        let mut q: Vec<i64> = Vec::new();
        let mut i: usize = 0;
        while i < levels.len()
            invariant
                i <= levels@.len(),
                q@ == quantities(levels@).subrange(0, i as int),
            decreases levels@.len() - i,
        {
            q.push(levels[i].1);
            proof {
                assert(q@ =~= quantities(levels@).subrange(0, i + 1));
            }
            i = i + 1;
        }
        proof {
            assert(q@ =~= quantities(levels@));
        }
        q
    }

    fn sum_where(levels: &Vec<(i64, i64)>, limit: i64, below: bool) -> (sum: i128)
        ensures
            sum == if below {
                liquidity_up_to(levels@, limit as int)
            } else {
                liquidity_from(levels@, limit as int)
            },
    {
        let n: usize = levels.len();
        let mut sum: i128 = 0;
        let mut i: usize = 0;
        while i < n
            invariant
                i <= n,
                n == levels@.len(),
                sum == if below {
                    liquidity_up_to(levels@.subrange(0, i as int), limit as int)
                } else {
                    liquidity_from(levels@.subrange(0, i as int), limit as int)
                },
                -(i * 0x8000_0000_0000_0000) <= sum <= i * 0x8000_0000_0000_0000,
            decreases n - i,
        {
            proof {
                assert(levels@.subrange(0, i + 1).drop_last() =~= levels@.subrange(0, i as int));
                assert(i * 0x8000_0000_0000_0000 <= 0xffff_ffff_ffff_ffff * 0x8000_0000_0000_0000)
                    by (nonlinear_arith)
                    requires
                        i <= 0xffff_ffff_ffff_ffff,
                ;
            }
            let (p, q) = levels[i];
            if (below && p <= limit) || (!below && p >= limit) {
                sum = sum + q as i128;
            }
            i = i + 1;
        }
        proof {
            assert(levels@.subrange(0, i as int) =~= levels@);
        }
        sum
    }

    /// Whether liquidity is being run under the support: the higher time
    /// frame is bullish, the price lies under the support, and the bids at
    /// or under the support hold more than the quantile of all bids.
    pub fn detect_liquidity_run(&self, price: i64) -> (r: bool)
        ensures
            r == (self.support() matches Some(s) && self.bullish() && price < s && self.bids().len()
                > 0 && liquidity_up_to(self.bids(), s as int) > quantile_90_of(
                quantities(self.bids()),
            )),
    {
        match self.support {
            Some(s) => {
                if self.is_bullish && price < s && self.last_bids.len() > 0 {
                    let mut bids_qty = Self::quantities_of(&self.last_bids);
                    let thr: i64 = Self::quantile_90(&mut bids_qty);
                    let sum_liq: i128 = Self::sum_where(&self.last_bids, s, true);
                    sum_liq > thr as i128
                } else {
                    false
                }
            },
            None => false,
        }
    }

    /// Whether liquidity is being run over the resistance: the higher time
    /// frame is bearish, the price lies over the resistance, and the asks
    /// at or over the resistance hold more than the quantile of all asks.
    pub fn detect_smr(&self, price: i64) -> (r: bool)
        ensures
            r == (self.resistance() matches Some(s) && !self.bullish() && price > s
                && self.asks().len() > 0 && liquidity_from(self.asks(), s as int) > quantile_90_of(
                quantities(self.asks()),
            )),
    {
        match self.resistance {
            Some(s) => {
                if !self.is_bullish && price > s && self.last_asks.len() > 0 {
                    let mut asks_qty = Self::quantities_of(&self.last_asks);
                    let thr: i64 = Self::quantile_90(&mut asks_qty);
                    let sum_liq: i128 = Self::sum_where(&self.last_asks, s, false);
                    sum_liq > thr as i128
                } else {
                    false
                }
            },
            None => false,
        }
    }

    /// Adds an order to the open ones.
    pub fn place_order(&mut self, side: Side, price: i64, size: i64)
        ensures
            final(self).orders() == old(self).orders().push(OrderRequest { side, price, size }),
            final(self).support() == old(self).support(),
            final(self).resistance() == old(self).resistance(),
            final(self).bullish() == old(self).bullish(),
            final(self).phase() == old(self).phase(),
            final(self).bids() == old(self).bids(),
            final(self).asks() == old(self).asks(),
            final(self).balance() == old(self).balance(),
            final(self).symbol() == old(self).symbol(),
            final(self).bar() == old(self).bar(),
            final(self).hours() == old(self).hours(),
    {
        self.open_orders.push(OrderRequest { side, price, size });
    }
}

} // verus!
