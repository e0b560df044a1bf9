use vstd::prelude::*;
use crate::fixed::MAX_VALUE;

verus! {

/// One price of a side with the quantity resting at it, both in fixed-point
/// units.
#[derive(Debug, Clone, Copy, PartialEq, Eq, Structural)]
pub struct PriceLevel {
    pub price: i64,
    pub size: i64,
}

/// A level that a side may hold: a price in range with a positive size.
pub open spec fn level_ok(l: PriceLevel) -> bool {
    &&& -MAX_VALUE <= l.price <= MAX_VALUE
    &&& 0 < l.size <= MAX_VALUE
}

/// Prices strictly rising along the sequence.
pub open spec fn ascending(s: Seq<PriceLevel>) -> bool {
    forall|i: int, j: int| 0 <= i < j < s.len() ==> s[i].price < s[j].price
}

/// Whether a level of `s` lies at the price `p`.
pub open spec fn has_price(s: Seq<PriceLevel>, p: int) -> bool {
    exists|i: int| 0 <= i < s.len() && (#[trigger] s[i]).price == p
}

/// The rank of a level of `s` at the price `p`.
pub open spec fn index_of(s: Seq<PriceLevel>, p: int) -> int {
    choose|i: int| 0 <= i < s.len() && (#[trigger] s[i]).price == p
}

/// The levels as a map from price to size.
pub open spec fn levels_map(s: Seq<PriceLevel>) -> Map<int, int> {
    Map::new(|p: int| has_price(s, p), |p: int| s[index_of(s, p)].size as int)
}

/// Sum of the sizes of the levels.
pub open spec fn volume(s: Seq<PriceLevel>) -> int
    decreases s.len(),
{
    if s.len() == 0 {
        0
    } else {
        volume(s.drop_last()) + s.last().size
    }
}

/// In levels of rising prices each level is found under its price, and only
/// prices of levels are found.
pub proof fn lemma_levels_map(s: Seq<PriceLevel>)
    requires
        ascending(s),
    ensures
        forall|i: int|
            0 <= i < s.len() ==> levels_map(s).contains_key((#[trigger] s[i]).price as int)
                && levels_map(s)[s[i].price as int] == s[i].size,
        forall|p: int| #[trigger] levels_map(s).contains_key(p) <==> has_price(s, p),
{
    assert forall|i: int| 0 <= i < s.len() implies levels_map(s).contains_key(
        (#[trigger] s[i]).price as int,
    ) && levels_map(s)[s[i].price as int] == s[i].size by {
        let p = s[i].price as int;
        assert(has_price(s, p));
        let k = index_of(s, p);
        assert(0 <= k < s.len() && s[k].price == p);
        if k < i {
            assert(s[k].price < s[i].price);
        } else if i < k {
            assert(s[i].price < s[k].price);
        }
    }
}

/// Two strictly ordered runs of levels that hold the same map are the same run.
pub proof fn lemma_levels_unique(a: Seq<PriceLevel>, b: Seq<PriceLevel>)
    requires
        ascending(a),
        ascending(b),
        levels_map(a) == levels_map(b),
    ensures
        a == b,
    decreases a.len(),
{
    lemma_levels_map(a);
    lemma_levels_map(b);
    if a.len() == 0 {
        if b.len() > 0 {
            assert(levels_map(b).contains_key(b[0].price as int));
            assert(has_price(a, b[0].price as int));
        }
        assert(a =~= b);
    } else {
        let la = a.last();
        assert(levels_map(a).contains_key(la.price as int));
        assert(has_price(b, la.price as int));
        let lb = b.last();
        assert(levels_map(b).contains_key(lb.price as int));
        assert(has_price(a, lb.price as int));
        let ia = index_of(a, lb.price as int);
        let ib = index_of(b, la.price as int);
        assert(a[ia].price == lb.price && b[ib].price == la.price);
        assert(la.price == lb.price) by {
            if ia < a.len() - 1 {
                assert(a[ia].price < a[a.len() - 1].price);
            }
            if ib < b.len() - 1 {
                assert(b[ib].price < b[b.len() - 1].price);
            }
        }
        assert(levels_map(a)[la.price as int] == la.size);
        assert(levels_map(b)[lb.price as int] == lb.size);
        assert(la == lb);
        let a1 = a.drop_last();
        let b1 = b.drop_last();
        lemma_remove_map(a, a.len() - 1);
        lemma_remove_map(b, b.len() - 1);
        assert(a.remove(a.len() - 1) =~= a1);
        assert(b.remove(b.len() - 1) =~= b1);
        lemma_levels_unique(a1, b1);
        assert(a =~= a1.push(la));
        assert(b =~= b1.push(lb));
    }
}

/// A level put in at its place in the order is a price put into the map.
pub proof fn lemma_insert_map(s: Seq<PriceLevel>, i: int, l: PriceLevel)
    requires
        ascending(s),
        0 <= i <= s.len(),
        forall|j: int| 0 <= j < i ==> s[j].price < l.price,
        forall|j: int| i <= j < s.len() ==> l.price < s[j].price,
    ensures
        ascending(s.insert(i, l)),
        levels_map(s.insert(i, l)) == levels_map(s).insert(l.price as int, l.size as int),
{
    let t = s.insert(i, l);
    assert forall|a: int, b: int| 0 <= a < b < t.len() implies t[a].price < t[b].price by {
        if a < i && b > i {
            assert(t[a] == s[a] && t[b] == s[b - 1]);
        }
    }
    lemma_levels_map(s);
    lemma_levels_map(t);
    let m = levels_map(s).insert(l.price as int, l.size as int);
    assert forall|p: int| levels_map(t).contains_key(p) <==> m.contains_key(p) by {
        if has_price(t, p) {
            let k = index_of(t, p);
            if k < i {
                assert(t[k] == s[k]);
            } else if k > i {
                assert(t[k] == s[k - 1]);
            }
        }
        if has_price(s, p) {
            let k = index_of(s, p);
            if k < i {
                assert(t[k] == s[k]);
            } else {
                assert(t[k + 1] == s[k]);
            }
        }
        if p == l.price {
            assert(t[i] == l);
        }
    }
    assert forall|p: int| levels_map(t).contains_key(p) implies levels_map(t)[p] == m[p] by {
        let k = index_of(t, p);
        assert(levels_map(t)[t[k].price as int] == t[k].size);
        if k < i {
            assert(t[k] == s[k]);
            assert(levels_map(s)[s[k].price as int] == s[k].size);
        } else if k > i {
            assert(t[k] == s[k - 1]);
            assert(levels_map(s)[s[k - 1].price as int] == s[k - 1].size);
        }
    }
    assert(levels_map(t) =~= m);
}

/// A level replaced by one of the same price is a price overwritten in the
/// map.
pub proof fn lemma_update_map(s: Seq<PriceLevel>, i: int, l: PriceLevel)
    requires
        ascending(s),
        0 <= i < s.len(),
        s[i].price == l.price,
    ensures
        ascending(s.update(i, l)),
        levels_map(s.update(i, l)) == levels_map(s).insert(l.price as int, l.size as int),
{
    let t = s.update(i, l);
    assert forall|a: int, b: int| 0 <= a < b < t.len() implies t[a].price < t[b].price by {
        assert(t[a].price == s[a].price && t[b].price == s[b].price);
    }
    lemma_levels_map(s);
    lemma_levels_map(t);
    let m = levels_map(s).insert(l.price as int, l.size as int);
    assert forall|p: int| levels_map(t).contains_key(p) <==> m.contains_key(p) by {
        if has_price(t, p) {
            let k = index_of(t, p);
            assert(t[k].price == s[k].price);
        }
        if has_price(s, p) {
            let k = index_of(s, p);
            assert(t[k].price == s[k].price);
        }
        if p == l.price {
            assert(t[i] == l);
        }
    }
    assert forall|p: int| levels_map(t).contains_key(p) implies levels_map(t)[p] == m[p] by {
        let k = index_of(t, p);
        assert(levels_map(t)[t[k].price as int] == t[k].size);
        if k != i {
            assert(t[k] == s[k]);
            assert(levels_map(s)[s[k].price as int] == s[k].size);
            assert(s[k].price != s[i].price) by {
                if k < i {
                    assert(s[k].price < s[i].price);
                } else {
                    assert(s[i].price < s[k].price);
                }
            }
        }
    }
    assert(levels_map(t) =~= m);
}

/// A level taken out is a price taken out of the map.
pub proof fn lemma_remove_map(s: Seq<PriceLevel>, i: int)
    requires
        ascending(s),
        0 <= i < s.len(),
    ensures
        ascending(s.remove(i)),
        levels_map(s.remove(i)) == levels_map(s).remove(s[i].price as int),
{
    let t = s.remove(i);
    assert forall|a: int, b: int| 0 <= a < b < t.len() implies t[a].price < t[b].price by {
        let a0 = if a < i { a } else { a + 1 };
        let b0 = if b < i { b } else { b + 1 };
        assert(t[a] == s[a0] && t[b] == s[b0]);
    }
    lemma_levels_map(s);
    lemma_levels_map(t);
    let m = levels_map(s).remove(s[i].price as int);
    assert forall|p: int| levels_map(t).contains_key(p) <==> m.contains_key(p) by {
        if has_price(t, p) {
            let k = index_of(t, p);
            let k0 = if k < i { k } else { k + 1 };
            assert(t[k] == s[k0]);
            if k0 < i {
                assert(s[k0].price < s[i].price);
            } else {
                assert(s[i].price < s[k0].price);
            }
        }
        if has_price(s, p) && p != s[i].price {
            let k = index_of(s, p);
            if k < i {
                assert(t[k] == s[k]);
            } else {
                assert(t[k - 1] == s[k]);
            }
        }
    }
    assert forall|p: int| levels_map(t).contains_key(p) implies levels_map(t)[p] == m[p] by {
        let k = index_of(t, p);
        let k0 = if k < i { k } else { k + 1 };
        assert(t[k] == s[k0]);
        assert(levels_map(t)[t[k].price as int] == t[k].size);
        assert(levels_map(s)[s[k0].price as int] == s[k0].size);
    }
    assert(levels_map(t) =~= m);
}

/// One side of a book: its levels in rising order of price, each price once.
#[derive(Debug)]
pub struct BookSide {
    levels: Vec<PriceLevel>,
}

impl View for BookSide {
    type V = Map<int, int>;

    /// The side as a map from price to size.
    open spec fn view(&self) -> Map<int, int> {
        levels_map(self.levels())
    }
}

impl BookSide {
    /// The levels in rising order of price.
    pub closed spec fn levels(&self) -> Seq<PriceLevel> {
        self.levels@
    }

    /// Prices rise strictly along the levels, and each level has a price in
    /// range and a positive size.
    pub open spec fn wf(&self) -> bool {
        &&& ascending(self.levels())
        &&& forall|i: int| 0 <= i < self.levels().len() ==> level_ok(#[trigger] self.levels()[i])
    }

    /// A side without levels.
    pub fn new() -> (side: Self)
        ensures
            side.wf(),
            side.levels() == Seq::<PriceLevel>::empty(),
            side@ == Map::<int, int>::empty(),
    {
        let side = BookSide { levels: Vec::new() };
        assert(side@ =~= Map::<int, int>::empty());
        side
    }

    /// Number of levels.
    pub fn len(&self) -> (n: usize)
        ensures
            n == self.levels().len(),
    {
        self.levels.len()
    }

    /// The level at rank `i`, counted from the lowest price.
    pub fn level(&self, i: usize) -> (l: PriceLevel)
        requires
            i < self.levels().len(),
        ensures
            l == self.levels()[i as int],
    {
        self.levels[i]
    }

    /// Takes all levels out.
    pub fn clear(&mut self)
        ensures
            final(self).wf(),
            final(self).levels() == Seq::<PriceLevel>::empty(),
            final(self)@ == Map::<int, int>::empty(),
    {
        self.levels.clear();
        assert(self@ =~= Map::<int, int>::empty());
    }

    /// Sets the quantity at `price`: zero takes the level out, if it is there,
    /// any other quantity puts it in or replaces the one that was there.
    pub fn set(&mut self, price: i64, size: i64)
        requires
            old(self).wf(),
            -MAX_VALUE <= price <= MAX_VALUE,
            0 <= size <= MAX_VALUE,
        ensures
            final(self).wf(),
            final(self)@ == if size == 0 {
                old(self)@.remove(price as int)
            } else {
                old(self)@.insert(price as int, size as int)
            },
    {
        let n: usize = self.levels.len();
        let mut i: usize = 0;
        while i < n && self.levels[i].price < price
            invariant
                i <= n,
                n == self.levels@.len(),
                forall|j: int| 0 <= j < i ==> self.levels@[j].price < price,
            decreases n - i,
        {
            i = i + 1;
        }
        let ghost s = self.levels@;
        let found: bool = i < n && self.levels[i].price == price;
        proof {
            lemma_levels_map(s);
            if !found {
                assert forall|j: int| i <= j < s.len() implies price < s[j].price by {
                    if j > i {
                        assert(s[i as int].price < s[j].price);
                    }
                }
            }
        }
        if size == 0 {
            if found {
                proof {
                    lemma_remove_map(s, i as int);
                }
                self.levels.remove(i);
            } else {
                proof {
                    assert(!has_price(s, price as int));
                    assert(levels_map(s).remove(price as int) =~= levels_map(s));
                }
            }
        } else {
            let l = PriceLevel { price, size };
            if found {
                proof {
                    lemma_update_map(s, i as int, l);
                }
                self.levels[i] = l;
            } else {
                proof {
                    lemma_insert_map(s, i as int, l);
                }
                self.levels.insert(i, l);
            }
        }
    }
}

} // verus!
