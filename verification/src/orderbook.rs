use vstd::prelude::*;
use crate::checksum::{book_checksum, checksum_of};
use crate::decimal::{decimal_value, parse_decimal};
use crate::fixed::{floor_div, scaled_ratio, MAX_VALUE, SCALE};
use crate::models::{BookData, BookEvent};
use crate::side::{level_ok, lemma_levels_map, volume, BookSide, PriceLevel};

verus! {

/// What an apply can report.
#[derive(Debug, Clone, Copy, PartialEq, Eq, Structural)]
pub enum BookError {
    /// A price or size of a level is no decimal in range, or the size is
    /// negative. Reading a single level reports it; applying a push skips
    /// such a level and counts it.
    MalformedLevel,
    /// An update does not follow the last applied sequence number.
    SequenceGap,
    /// The book no longer matches the venue's: its checksum differs from the
    /// one supplied, or its best bid reaches its best ask.
    ChecksumMismatch,
}

/// Depth that `imbalance` looks at.
pub const IMBALANCE_DEPTH: usize = 5;

/// The level that the first two texts of a raw level write, if both are
/// decimals in range and the size is not negative.
pub open spec fn level_value(level: [String; 4]) -> Option<PriceLevel> {
    match (decimal_value(level@[0]@), decimal_value(level@[1]@)) {
        (Some(p), Some(s)) => if s >= 0 {
            Some(PriceLevel { price: p as i64, size: s as i64 })
        } else {
            None
        },
        _ => None,
    }
}

/// A side after one raw level: a size of zero takes the price out, any other
/// size puts it in or replaces it, and a malformed level changes nothing.
pub open spec fn apply_level(m: Map<int, int>, level: [String; 4]) -> Map<int, int> {
    match level_value(level) {
        Some(l) => if l.size == 0 {
            m.remove(l.price as int)
        } else {
            m.insert(l.price as int, l.size as int)
        },
        None => m,
    }
}

/// A side after the raw levels of a push, applied in their order.
pub open spec fn apply_levels(m: Map<int, int>, levels: Seq<[String; 4]>) -> Map<int, int>
    decreases levels.len(),
{
    if levels.len() == 0 {
        m
    } else {
        apply_level(apply_levels(m, levels.drop_last()), levels.last())
    }
}

/// How many of the raw levels are malformed.
pub open spec fn malformed_count(levels: Seq<[String; 4]>) -> nat
    decreases levels.len(),
{
    if levels.len() == 0 {
        0
    } else {
        malformed_count(levels.drop_last()) + if level_value(levels.last()) is None {
            1nat
        } else {
            0nat
        }
    }
}

/// Whether the best bid reaches the best ask. Both sides are given in rising
/// order of price.
pub open spec fn crossed(bids: Seq<PriceLevel>, asks: Seq<PriceLevel>) -> bool {
    bids.len() > 0 && asks.len() > 0 && bids.last().price >= asks[0].price
}

/// Whether a book with these sides can be the venue's: it is not crossed, and
/// where a checksum came with the push, it is the book's own.
pub open spec fn consistent(
    bids: Seq<PriceLevel>,
    asks: Seq<PriceLevel>,
    checksum: Option<i64>,
) -> bool {
    &&& !crossed(bids, asks)
    &&& checksum matches Some(c) ==> c == checksum_of(bids, asks)
}

/// A counter after `n` more, held at its largest value.
pub open spec fn bumped(count: u64, n: nat) -> u64 {
    if count + n > u64::MAX {
        u64::MAX
    } else {
        (count + n) as u64
    }
}

/// The `k` best bids of a side in rising order of price: its last `k` levels.
pub open spec fn top_bids(bids: Seq<PriceLevel>, k: nat) -> Seq<PriceLevel> {
    if k >= bids.len() {
        bids
    } else {
        bids.subrange(bids.len() - k, bids.len() as int)
    }
}

/// The `k` best asks of a side in rising order of price: its first `k` levels.
pub open spec fn top_asks(asks: Seq<PriceLevel>, k: nat) -> Seq<PriceLevel> {
    if k >= asks.len() {
        asks
    } else {
        asks.subrange(0, k as int)
    }
}

/// The two sides of one instrument's book, with what is known of its place in
/// the feed.
#[derive(Debug)]
pub struct OrderBook {
    bids: BookSide,
    asks: BookSide,
    last_seq: Option<i64>,
    synced: bool,
    malformed: u64,
}

impl OrderBook {
    /// Buy side; its best level is the one with the highest price.
    pub closed spec fn bids(&self) -> BookSide {
        self.bids
    }

    /// Sell side; its best level is the one with the lowest price.
    pub closed spec fn asks(&self) -> BookSide {
        self.asks
    }

    /// Sequence number of the last push that was applied.
    pub closed spec fn last_seq(&self) -> Option<i64> {
        self.last_seq
    }

    /// Whether the book follows the feed: a snapshot was applied and nothing
    /// since then has shown a gap or a divergence.
    pub closed spec fn in_sync(&self) -> bool {
        self.synced
    }

    /// Number of malformed levels skipped so far.
    pub closed spec fn skipped(&self) -> u64 {
        self.malformed
    }

    /// Both sides hold each price once, with a positive size, and a book
    /// that follows the feed is not crossed.
    pub open spec fn wf(&self) -> bool {
        &&& self.bids().wf()
        &&& self.asks().wf()
        &&& self.in_sync() ==> !crossed(self.bids().levels(), self.asks().levels())
    }

    /// The book after a snapshot, and what applying it reports.
    pub open spec fn snapshot_post(
        pre: OrderBook,
        data: BookData,
        post: OrderBook,
        r: Result<(), BookError>,
    ) -> bool {
        &&& post.wf()
        &&& post.bids()@ == apply_levels(Map::<int, int>::empty(), data.bids@)
        &&& post.asks()@ == apply_levels(Map::<int, int>::empty(), data.asks@)
        &&& post.last_seq() == data.seqId
        &&& post.skipped() == bumped(
            pre.skipped(),
            malformed_count(data.bids@) + malformed_count(data.asks@),
        )
        &&& post.in_sync() == consistent(post.bids().levels(), post.asks().levels(), data.checksum)
        &&& r == if post.in_sync() {
            Ok::<(), BookError>(())
        } else {
            Err::<(), BookError>(BookError::ChecksumMismatch)
        }
    }

    /// Whether an update follows the last applied push.
    pub open spec fn chains(&self, data: BookData) -> bool {
        &&& self.in_sync()
        &&& data.prevSeqId is Some
        &&& data.prevSeqId == self.last_seq()
    }

    /// The book after an update, and what applying it reports.
    pub open spec fn update_post(
        pre: OrderBook,
        data: BookData,
        post: OrderBook,
        r: Result<(), BookError>,
    ) -> bool {
        &&& post.wf()
        &&& if pre.chains(data) {
            &&& post.bids()@ == apply_levels(pre.bids()@, data.bids@)
            &&& post.asks()@ == apply_levels(pre.asks()@, data.asks@)
            &&& post.last_seq() == data.seqId
            &&& post.skipped() == bumped(
                pre.skipped(),
                malformed_count(data.bids@) + malformed_count(data.asks@),
            )
            &&& post.in_sync() == consistent(
                post.bids().levels(),
                post.asks().levels(),
                data.checksum,
            )
            &&& r == if post.in_sync() {
                Ok::<(), BookError>(())
            } else {
                Err::<(), BookError>(BookError::ChecksumMismatch)
            }
        } else {
            &&& post.bids().levels() == pre.bids().levels()
            &&& post.asks().levels() == pre.asks().levels()
            &&& post.last_seq() == pre.last_seq()
            &&& post.skipped() == pre.skipped()
            &&& !post.in_sync()
            &&& r == Err::<(), BookError>(BookError::SequenceGap)
        }
    }

    /// The book after an event, and what applying it reports.
    pub open spec fn apply_post(
        pre: OrderBook,
        event: BookEvent,
        post: OrderBook,
        r: Result<(), BookError>,
    ) -> bool {
        match event {
            BookEvent::Snapshot(data) => Self::snapshot_post(pre, data, post, r),
            BookEvent::Update(data) => Self::update_post(pre, data, post, r),
        }
    }

    /// The best bid, if there is one.
    pub open spec fn best_bid_level(&self) -> Option<PriceLevel> {
        if self.bids().levels().len() == 0 {
            None
        } else {
            Some(self.bids().levels().last())
        }
    }

    /// The best ask, if there is one.
    pub open spec fn best_ask_level(&self) -> Option<PriceLevel> {
        if self.asks().levels().len() == 0 {
            None
        } else {
            Some(self.asks().levels()[0])
        }
    }

    /// Half the sum of the best bid and the best ask, rounded down, where
    /// both sides hold a level.
    pub open spec fn mid(&self) -> Option<i64> {
        match (self.best_bid_level(), self.best_ask_level()) {
            (Some(b), Some(a)) => Some(((b.price + a.price) / 2) as i64),
            _ => None,
        }
    }

    /// An empty book, which follows no feed yet.
    pub fn new() -> (book: Self)
        ensures
            book.wf(),
            book.bids()@ == Map::<int, int>::empty(),
            book.asks()@ == Map::<int, int>::empty(),
            book.last_seq() is None,
            !book.in_sync(),
            book.skipped() == 0,
    {
        OrderBook {
            bids: BookSide::new(),
            asks: BookSide::new(),
            last_seq: None,
            synced: false,
            malformed: 0,
        }
    }

    /// The buy side.
    pub fn bid_side(&self) -> (r: &BookSide)
        ensures
            *r == self.bids(),
    {
        &self.bids
    }

    /// The sell side.
    pub fn ask_side(&self) -> (r: &BookSide)
        ensures
            *r == self.asks(),
    {
        &self.asks
    }

    /// Sequence number of the last push that was applied.
    pub fn last_sequence(&self) -> (r: Option<i64>)
        ensures
            r == self.last_seq(),
    {
        self.last_seq
    }

    /// Whether the book follows the feed. While it does not, quoting from it
    /// is to be suspended until a snapshot has been applied.
    pub fn is_synced(&self) -> (r: bool)
        ensures
            r == self.in_sync(),
    {
        self.synced
    }

    /// Number of malformed levels skipped so far; the count stops at its
    /// largest value.
    pub fn malformed_levels(&self) -> (r: u64)
        ensures
            r == self.skipped(),
    {
        self.malformed
    }

    /// Reads the price and the size of a raw level.
    pub fn parse_price_size(level: &[String; 4]) -> (r: Result<PriceLevel, BookError>)
        ensures
            match r {
                Ok(l) => level_value(*level) == Some(l),
                Err(e) => e == BookError::MalformedLevel && level_value(*level) is None,
            },
    {
        let price = parse_decimal(level[0].as_str());
        let size = parse_decimal(level[1].as_str());
        match (price, size) {
            (Some(p), Some(s)) => {
                if s >= 0 {
                    Ok(PriceLevel { price: p, size: s })
                } else {
                    Err(BookError::MalformedLevel)
                }
            },
            _ => Err(BookError::MalformedLevel),
        }
    }

    /// Applies the raw levels to one side and counts those it had to skip.
    fn apply_side(side: &mut BookSide, raw: &Vec<[String; 4]>) -> (skipped: usize)
        requires
            old(side).wf(),
        ensures
            final(side).wf(),
            final(side)@ == apply_levels(old(side)@, raw@),
            skipped == malformed_count(raw@),
    {
        let ghost start = side@;
        let mut skipped: usize = 0;
        let mut i: usize = 0;
        while i < raw.len()
            invariant
                i <= raw@.len(),
                side.wf(),
                side@ == apply_levels(start, raw@.subrange(0, i as int)),
                skipped == malformed_count(raw@.subrange(0, i as int)),
                skipped <= i,
            decreases raw@.len() - i,
        {
            proof {
                assert(raw@.subrange(0, i + 1).drop_last() =~= raw@.subrange(0, i as int));
            }
            match Self::parse_price_size(&raw[i]) {
                Ok(l) => {
                    proof {
                        crate::decimal::lemma_decimal_range(raw@[i as int]@[0]@);
                        crate::decimal::lemma_decimal_range(raw@[i as int]@[1]@);
                    }
                    side.set(l.price, l.size);
                },
                Err(_) => {
                    skipped = skipped + 1;
                },
            }
            i = i + 1;
        }
        proof {
            assert(raw@.subrange(0, i as int) =~= raw@);
        }
        skipped
    }

    fn count_skipped(&mut self, a: usize, b: usize)
        ensures
            final(self).bids == old(self).bids,
            final(self).asks == old(self).asks,
            final(self).last_seq == old(self).last_seq,
            final(self).synced == old(self).synced,
            final(self).malformed == bumped(old(self).malformed, (a + b) as nat),
    {
        let n: u128 = self.malformed as u128 + a as u128 + b as u128;
        if n > u64::MAX as u128 {
            self.malformed = u64::MAX;
        } else {
            self.malformed = n as u64;
        }
    }

    /// Whether the book is one that the venue can have sent with `checksum`.
    fn check(&self, checksum: Option<i64>) -> (ok: bool)
        requires
            self.bids().wf(),
            self.asks().wf(),
        ensures
            ok == consistent(self.bids().levels(), self.asks().levels(), checksum),
    {
        let nb: usize = self.bids.len();
        if nb > 0 && self.asks.len() > 0 && self.bids.level(nb - 1).price >= self.asks.level(
            0,
        ).price {
            return false;
        }
        match checksum {
            Some(c) => c == book_checksum(&self.bids, &self.asks),
            None => true,
        }
    }

    /// Replaces both sides by the levels of a snapshot and takes its
    /// sequence number. A malformed level is skipped and counted. The book
    /// follows the feed afterwards unless it came out crossed or with
    /// another checksum than the one supplied, which is reported.
    pub fn apply_snapshot(&mut self, data: &BookData) -> (r: Result<(), BookError>)
        requires
            old(self).wf(),
        ensures
            Self::snapshot_post(*old(self), *data, *final(self), r),
    {
        self.bids.clear();
        self.asks.clear();
        let a: usize = Self::apply_side(&mut self.bids, &data.bids);
        let b: usize = Self::apply_side(&mut self.asks, &data.asks);
        self.count_skipped(a, b);
        self.last_seq = data.seqId;
        self.synced = self.check(data.checksum);
        if self.synced {
            Ok(())
        } else {
            Err(BookError::ChecksumMismatch)
        }
    }

    /// Applies the changes of an update. One that does not follow the last
    /// applied sequence number, or that reaches a book which does not follow
    /// the feed, changes no level: the gap is reported and the book waits
    /// for a snapshot. Otherwise each level is applied in turn, a malformed
    /// one skipped and counted, and the book is then checked as after a
    /// snapshot.
    pub fn apply_update(&mut self, update: &BookData) -> (r: Result<(), BookError>)
        requires
            old(self).wf(),
        ensures
            Self::update_post(*old(self), *update, *final(self), r),
    {
        let chained: bool = self.synced && match (update.prevSeqId, self.last_seq) {
            (Some(prev), Some(last)) => prev == last,
            _ => false,
        };
        if !chained {
            self.synced = false;
            return Err(BookError::SequenceGap);
        }
        let a: usize = Self::apply_side(&mut self.bids, &update.bids);
        let b: usize = Self::apply_side(&mut self.asks, &update.asks);
        self.count_skipped(a, b);
        self.last_seq = update.seqId;
        self.synced = self.check(update.checksum);
        if self.synced {
            Ok(())
        } else {
            Err(BookError::ChecksumMismatch)
        }
    }

    /// Applies one event of the feed.
    pub fn apply(&mut self, event: &BookEvent) -> (r: Result<(), BookError>)
        requires
            old(self).wf(),
        ensures
            Self::apply_post(*old(self), *event, *final(self), r),
    {
        match event {
            BookEvent::Snapshot(data) => self.apply_snapshot(data),
            BookEvent::Update(data) => self.apply_update(data),
        }
    }

    /// Price and size of the highest bid.
    pub fn best_bid(&self) -> (r: Option<(i64, i64)>)
        requires
            self.wf(),
        ensures
            match r {
                Some((p, s)) => {
                    &&& self.best_bid_level() == Some(PriceLevel { price: p, size: s })
                    &&& self.bids()@.contains_key(p as int) && self.bids()@[p as int] == s
                    &&& forall|q: int| self.bids()@.contains_key(q) ==> q <= p
                },
                None => self.bids()@ == Map::<int, int>::empty() && self.best_bid_level() is None,
            },
    {
        let n: usize = self.bids.len();
        proof {
            lemma_levels_map(self.bids().levels());
        }
        if n == 0 {
            assert(self.bids()@ =~= Map::<int, int>::empty());
            None
        } else {
            let l = self.bids.level(n - 1);
            proof {
                let s = self.bids().levels();
                assert forall|q: int| self.bids()@.contains_key(q) implies q <= l.price by {
                    let k = crate::side::index_of(s, q);
                    if k < n - 1 {
                        assert(s[k].price < s[n - 1].price);
                    }
                }
            }
            Some((l.price, l.size))
        }
    }

    /// Price and size of the lowest ask.
    pub fn best_ask(&self) -> (r: Option<(i64, i64)>)
        requires
            self.wf(),
        ensures
            match r {
                Some((p, s)) => {
                    &&& self.best_ask_level() == Some(PriceLevel { price: p, size: s })
                    &&& self.asks()@.contains_key(p as int) && self.asks()@[p as int] == s
                    &&& forall|q: int| self.asks()@.contains_key(q) ==> p <= q
                },
                None => self.asks()@ == Map::<int, int>::empty() && self.best_ask_level() is None,
            },
    {
        let n: usize = self.asks.len();
        proof {
            lemma_levels_map(self.asks().levels());
        }
        if n == 0 {
            assert(self.asks()@ =~= Map::<int, int>::empty());
            None
        } else {
            let l = self.asks.level(0);
            proof {
                let s = self.asks().levels();
                assert forall|q: int| self.asks()@.contains_key(q) implies l.price <= q by {
                    let k = crate::side::index_of(s, q);
                    if k > 0 {
                        assert(s[0].price < s[k].price);
                    }
                }
            }
            Some((l.price, l.size))
        }
    }

    /// Half the sum of the best bid and the best ask, rounded down; none
    /// while a side is empty.
    pub fn mid_price(&self) -> (r: Option<i64>)
        requires
            self.wf(),
        ensures
            r == self.mid(),
            r matches Some(m) ==> -MAX_VALUE <= m <= MAX_VALUE,
    {
        match (self.best_bid(), self.best_ask()) {
            (Some((bid, _)), Some((ask, _))) => {
                let sum: i128 = bid as i128 + ask as i128;
                Some(floor_div(sum, 2) as i64)
            },
            _ => None,
        }
    }

    /// The best ask less the best bid; none while a side is empty.
    pub fn spread(&self) -> (r: Option<i64>)
        requires
            self.wf(),
        ensures
            r == match (self.best_bid_level(), self.best_ask_level()) {
                (Some(b), Some(a)) => Some((a.price - b.price) as i64),
                _ => None,
            },
            self.in_sync() && r is Some ==> r->0 > 0,
    {
        match (self.best_bid(), self.best_ask()) {
            (Some((bid, _)), Some((ask, _))) => Some(ask - bid),
            _ => None,
        }
    }

    /// Sum of the sizes of the levels `from..to` of a side.
    fn side_volume(side: &BookSide, from: usize, to: usize) -> (v: u128)
        requires
            side.wf(),
            from <= to <= side.levels().len(),
        ensures
            v == volume(side.levels().subrange(from as int, to as int)),
            (to - from > 0) == (v > 0),
            v <= (to - from) * MAX_VALUE,
    {
        let mut v: u128 = 0;
        let mut i: usize = from;
        while i < to
            invariant
                from <= i <= to <= side.levels().len(),
                side.wf(),
                v == volume(side.levels().subrange(from as int, i as int)),
                (i - from > 0) == (v > 0),
                v <= (i - from) * MAX_VALUE,
            decreases to - i,
        {
            proof {
                let s = side.levels();
                assert(s.subrange(from as int, i + 1).drop_last() =~= s.subrange(
                    from as int,
                    i as int,
                ));
                assert(level_ok(s[i as int]));
            }
            v = v + side.level(i).size as u128;
            i = i + 1;
        }
        v
    }

    /// Share of the bids in the volume of the best `k` levels of both sides,
    /// as a fixed-point number between zero and one, rounded down; none
    /// when that volume is zero.
    pub fn depth_imbalance(&self, k: usize) -> (r: Option<i64>)
        requires
            self.wf(),
        ensures
            ({
                let bid = volume(top_bids(self.bids().levels(), k as nat));
                let ask = volume(top_asks(self.asks().levels(), k as nat));
                match r {
                    Some(x) => bid + ask > 0 && x == (bid * SCALE) / (bid + ask) && 0 <= x <= SCALE,
                    None => bid + ask == 0,
                }
            }),
            r is None <==> k == 0 || (self.bids().levels().len() == 0 && self.asks().levels().len()
                == 0),
    {
        let nb: usize = self.bids.len();
        let na: usize = self.asks.len();
        let kb: usize = if k < nb {
            k
        } else {
            nb
        };
        let ka: usize = if k < na {
            k
        } else {
            na
        };
        proof {
            let b = self.bids().levels();
            let a = self.asks().levels();
            assert(top_bids(b, k as nat) =~= b.subrange(nb - kb, nb as int));
            assert(top_asks(a, k as nat) =~= a.subrange(0, ka as int));
        }
        let bid: u128 = Self::side_volume(&self.bids, nb - kb, nb);
        let ask: u128 = Self::side_volume(&self.asks, 0, ka);
        proof {
            assert(bid <= usize::MAX * MAX_VALUE) by (nonlinear_arith)
                requires
                    bid <= kb * MAX_VALUE,
                    kb <= usize::MAX,
                    MAX_VALUE > 0,
            ;
            assert(ask <= usize::MAX * MAX_VALUE) by (nonlinear_arith)
                requires
                    ask <= ka * MAX_VALUE,
                    ka <= usize::MAX,
                    MAX_VALUE > 0,
            ;
            assert(usize::MAX * MAX_VALUE <= 0xffff_ffff_ffff_ffff * 1_000_000_000_000_000)
                by (nonlinear_arith)
                requires
                    usize::MAX <= 0xffff_ffff_ffff_ffff,
                    MAX_VALUE == 1_000_000_000_000_000,
            ;
        }
        let total: u128 = bid + ask;
        if total == 0 {
            None
        } else {
            Some(scaled_ratio(bid, total))
        }
    }

    /// Imbalance over the best five levels of each side.
    pub fn imbalance(&self) -> (r: Option<i64>)
        requires
            self.wf(),
        ensures
            ({
                let bid = volume(top_bids(self.bids().levels(), IMBALANCE_DEPTH as nat));
                let ask = volume(top_asks(self.asks().levels(), IMBALANCE_DEPTH as nat));
                match r {
                    Some(x) => bid + ask > 0 && x == (bid * SCALE) / (bid + ask) && 0 <= x <= SCALE,
                    None => bid + ask == 0,
                }
            }),
    {
        self.depth_imbalance(IMBALANCE_DEPTH)
    }
}

/// Applying raw levels to a side whose sizes are positive leaves the sizes
/// positive: a level is put in with a size above zero or not at all.
pub proof fn lemma_apply_levels_positive(m: Map<int, int>, levels: Seq<[String; 4]>)
    requires
        forall|p: int| m.contains_key(p) ==> m[p] > 0,
    ensures
        forall|p: int|
            apply_levels(m, levels).contains_key(p) ==> #[trigger] apply_levels(m, levels)[p] > 0,
    decreases levels.len(),
{
    if levels.len() > 0 {
        lemma_apply_levels_positive(m, levels.drop_last());
        let before = apply_levels(m, levels.drop_last());
        let after = apply_levels(m, levels);
        crate::decimal::lemma_decimal_range(levels.last()@[1]@);
        assert forall|p: int| after.contains_key(p) implies #[trigger] after[p] > 0 by {
            if before.contains_key(p) {
                assert(before[p] > 0);
            }
        }
    }
}

/// A well-formed book holds no level without size.
pub proof fn lemma_sizes_positive(book: OrderBook)
    requires
        book.wf(),
    ensures
        forall|p: int| book.bids()@.contains_key(p) ==> #[trigger] book.bids()@[p] > 0,
        forall|p: int| book.asks()@.contains_key(p) ==> #[trigger] book.asks()@[p] > 0,
{
    let b = book.bids().levels();
    let a = book.asks().levels();
    lemma_levels_map(b);
    lemma_levels_map(a);
    assert forall|p: int| book.bids()@.contains_key(p) implies #[trigger] book.bids()@[p] > 0 by {
        let i = crate::side::index_of(b, p);
        assert(level_ok(b[i]));
    }
    assert forall|p: int| book.asks()@.contains_key(p) implies #[trigger] book.asks()@[p] > 0 by {
        let i = crate::side::index_of(a, p);
        assert(level_ok(a[i]));
    }
}

/// After any event, whatever it reports, the book holds no level without
/// size.
pub proof fn lemma_no_empty_level_after_apply(
    pre: OrderBook,
    event: BookEvent,
    post: OrderBook,
    r: Result<(), BookError>,
)
    requires
        OrderBook::apply_post(pre, event, post, r),
    ensures
        forall|p: int| post.bids()@.contains_key(p) ==> #[trigger] post.bids()@[p] > 0,
        forall|p: int| post.asks()@.contains_key(p) ==> #[trigger] post.asks()@[p] > 0,
{
    lemma_sizes_positive(post);
}

/// In a book that follows the feed the best bid lies under the best ask.
pub proof fn lemma_in_sync_not_crossed(book: OrderBook)
    requires
        book.wf(),
        book.in_sync(),
    ensures
        (book.best_bid_level(), book.best_ask_level()) matches (Some(b), Some(a)) ==> b.price
            < a.price,
{
}

/// An event that is applied without a report leaves a book that follows the
/// feed, and in it the best bid lies under the best ask.
pub proof fn lemma_not_crossed_after_apply(
    pre: OrderBook,
    event: BookEvent,
    post: OrderBook,
    r: Result<(), BookError>,
)
    requires
        OrderBook::apply_post(pre, event, post, r),
        r is Ok,
    ensures
        post.in_sync(),
        (post.best_bid_level(), post.best_ask_level()) matches (Some(b), Some(a)) ==> b.price
            < a.price,
{
}

/// A snapshot applied a second time leaves the book that it left the first
/// time, with the same report; only the count of skipped levels goes on.
pub proof fn lemma_snapshot_idempotent(
    start: OrderBook,
    data: BookData,
    once: OrderBook,
    first: Result<(), BookError>,
    twice: OrderBook,
    second: Result<(), BookError>,
)
    requires
        OrderBook::snapshot_post(start, data, once, first),
        OrderBook::snapshot_post(once, data, twice, second),
    ensures
        twice.bids().levels() == once.bids().levels(),
        twice.asks().levels() == once.asks().levels(),
        twice.last_seq() == once.last_seq(),
        twice.in_sync() == once.in_sync(),
        second == first,
{
    crate::side::lemma_levels_unique(once.bids().levels(), twice.bids().levels());
    crate::side::lemma_levels_unique(once.asks().levels(), twice.asks().levels());
}

/// What a snapshot leaves does not depend on the book that it found.
pub proof fn lemma_snapshot_forgets(
    a: OrderBook,
    b: OrderBook,
    data: BookData,
    after_a: OrderBook,
    ra: Result<(), BookError>,
    after_b: OrderBook,
    rb: Result<(), BookError>,
)
    requires
        OrderBook::snapshot_post(a, data, after_a, ra),
        OrderBook::snapshot_post(b, data, after_b, rb),
    ensures
        after_a.bids().levels() == after_b.bids().levels(),
        after_a.asks().levels() == after_b.asks().levels(),
        after_a.last_seq() == after_b.last_seq(),
        after_a.in_sync() == after_b.in_sync(),
        ra == rb,
{
    crate::side::lemma_levels_unique(after_a.bids().levels(), after_b.bids().levels());
    crate::side::lemma_levels_unique(after_a.asks().levels(), after_b.asks().levels());
}

/// The volume of levels with positive sizes is zero only where there is no
/// level.
pub proof fn lemma_volume_positive(s: Seq<PriceLevel>)
    requires
        forall|i: int| 0 <= i < s.len() ==> (#[trigger] s[i]).size > 0,
    ensures
        volume(s) >= 0,
        (volume(s) == 0) == (s.len() == 0),
    decreases s.len(),
{
    if s.len() > 0 {
        let t = s.drop_last();
        assert forall|i: int| 0 <= i < t.len() implies (#[trigger] t[i]).size > 0 by {
            assert(t[i] == s[i]);
        }
        lemma_volume_positive(t);
        assert(s[s.len() - 1].size > 0);
    }
}

} // verus!
