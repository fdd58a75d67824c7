//! One venue's two-sided price ladder.
use crate::decimal::{floor_div_i128, Decimal};
use vstd::prelude::*;

verus! {

/// Which side of the book an update or a query concerns.
#[derive(Clone, Copy, Debug, PartialEq, Eq, Structural)]
pub enum Side {
    Bid,
    Ask,
}

/// One price with the quantity offered at it. In an update a zero quantity
/// removes the price.
#[derive(Clone, Copy, Debug, PartialEq, Eq, Structural)]
pub struct PriceLevel {
    pub price: Decimal,
    pub quantity: Decimal,
}

/// Prices strictly ascending, every quantity positive.
pub open spec fn well_ordered(s: Seq<PriceLevel>) -> bool {
    &&& forall|i: int, j: int| 0 <= i < j < s.len() ==> s[i].price.units < s[j].price.units
    &&& forall|i: int| 0 <= i < s.len() ==> s[i].quantity.units > 0
}

pub open spec fn has_price(s: Seq<PriceLevel>, p: int) -> bool {
    exists|i: int| 0 <= i < s.len() && s[i].price.units == p
}

/// The quantity held at price `p`; zero where the price is absent.
pub open spec fn quantity_in(s: Seq<PriceLevel>, p: int) -> int {
    if has_price(s, p) {
        s[choose|i: int| 0 <= i < s.len() && s[i].price.units == p].quantity.units as int
    } else {
        0
    }
}

/// The quantity at `p` once the updates `ups` have been applied in order to a
/// side that held `q0` there: the last update for `p` wins.
pub open spec fn quantity_after(q0: int, ups: Seq<PriceLevel>, p: int) -> int
    decreases ups.len(),
{
    if ups.len() == 0 {
        q0
    } else if ups.last().price.units == p {
        ups.last().quantity.units as int
    } else {
        quantity_after(q0, ups.drop_last(), p)
    }
}

pub proof fn lemma_quantity_at_index(s: Seq<PriceLevel>, i: int)
    requires
        well_ordered(s),
        0 <= i < s.len(),
    ensures
        quantity_in(s, s[i].price.units as int) == s[i].quantity.units,
{
    let p = s[i].price.units as int;
    assert(has_price(s, p));
    let j = choose|j: int| 0 <= j < s.len() && s[j].price.units == p;
    if j < i {
        assert(s[j].price.units < s[i].price.units);
    } else if i < j {
        assert(s[i].price.units < s[j].price.units);
    }
}

/// `b` holds the same levels as `a` at every price other than `x`.
#[verifier::rlimit(50)]
proof fn lemma_same_levels_except(a: Seq<PriceLevel>, b: Seq<PriceLevel>, x: int)
    requires
        well_ordered(a),
        well_ordered(b),
        forall|j: int|
            0 <= j < b.len() && b[j].price.units != x ==> exists|k: int| 0 <= k < a.len() && a[k] == b[j],
        forall|k: int|
            0 <= k < a.len() && a[k].price.units != x ==> exists|j: int| 0 <= j < b.len() && b[j] == a[k],
    ensures
        forall|p: int| p != x ==> quantity_in(b, p) == quantity_in(a, p),
{
    assert forall|p: int| p != x implies quantity_in(b, p) == quantity_in(a, p) by {
        if has_price(a, p) {
            let k = choose|k: int| 0 <= k < a.len() && a[k].price.units == p;
            let j = choose|j: int| 0 <= j < b.len() && b[j] == a[k];
            lemma_quantity_at_index(a, k);
            lemma_quantity_at_index(b, j);
        } else if has_price(b, p) {
            let j = choose|j: int| 0 <= j < b.len() && b[j].price.units == p;
            let k = choose|k: int| 0 <= k < a.len() && a[k] == b[j];
            assert(a[k].price.units == p);
        }
    }
}

/// The first index whose price is not below `x`.
fn lower_bound(levels: &Vec<PriceLevel>, x: i128) -> (i: usize)
    ensures
        0 <= i <= levels@.len(),
        forall|k: int| 0 <= k < i ==> levels@[k].price.units < x,
        i < levels@.len() ==> levels@[i as int].price.units >= x,
{
    let n = levels.len();
    let mut i: usize = 0;
    while i < n
        invariant
            n == levels@.len(),
            0 <= i <= n,
            forall|k: int| 0 <= k < i ==> levels@[k].price.units < x,
        decreases n - i,
    {
        if levels[i].price.units >= x {
            return i;
        }
        i = i + 1;
    }
    i
}

/// Common ground of the three edits below: `i` is where `x` sits or would sit.
pub open spec fn split_at_price(a: Seq<PriceLevel>, i: int, x: int) -> bool {
    &&& 0 <= i <= a.len()
    &&& forall|k: int| 0 <= k < i ==> a[k].price.units < x
    &&& forall|k: int| i <= k < a.len() ==> a[k].price.units >= x
}

#[verifier::rlimit(50)]
proof fn lemma_remove_level(a: Seq<PriceLevel>, i: int, x: int)
    requires
        well_ordered(a),
        split_at_price(a, i, x),
        i < a.len(),
        a[i].price.units == x,
    ensures
        well_ordered(a.remove(i)),
        forall|p: int| quantity_in(a.remove(i), p) == if p == x { 0 } else { quantity_in(a, p) },
{
    let b = a.remove(i);
    assert forall|j: int| 0 <= j < b.len() && b[j].price.units != x implies exists|k: int|
        0 <= k < a.len() && a[k] == b[j] by {
        if j < i {
            assert(a[j] == b[j]);
        } else {
            assert(a[j + 1] == b[j]);
        }
    }
    assert forall|k: int| 0 <= k < a.len() && a[k].price.units != x implies exists|j: int|
        0 <= j < b.len() && b[j] == a[k] by {
        if k < i {
            assert(a[k] == b[k]);
        } else {
            assert(a[k] == b[k - 1]);
        }
    }
    lemma_same_levels_except(a, b, x);
    assert(!has_price(b, x)) by {
        if has_price(b, x) {
            let j = choose|j: int| 0 <= j < b.len() && b[j].price.units == x;
            if j < i {
                assert(a[j] == b[j]);
            } else {
                assert(a[j + 1] == b[j]);
                assert(a[i].price.units < a[j + 1].price.units);
            }
        }
    }
}

#[verifier::rlimit(50)]
proof fn lemma_set_level(a: Seq<PriceLevel>, i: int, u: PriceLevel)
    requires
        well_ordered(a),
        0 <= i < a.len(),
        a[i].price.units == u.price.units,
        u.quantity.units > 0,
    ensures
        well_ordered(a.update(i, u)),
        forall|p: int|
            quantity_in(a.update(i, u), p) == if p == u.price.units {
                u.quantity.units as int
            } else {
                quantity_in(a, p)
            },
{
    let b = a.update(i, u);
    let x = u.price.units as int;
    assert forall|j: int| 0 <= j < b.len() && b[j].price.units != x implies exists|k: int|
        0 <= k < a.len() && a[k] == b[j] by {
        assert(a[j] == b[j]);
    }
    assert forall|k: int| 0 <= k < a.len() && a[k].price.units != x implies exists|j: int|
        0 <= j < b.len() && b[j] == a[k] by {
        assert(a[k] == b[k]);
    }
    lemma_same_levels_except(a, b, x);
    lemma_quantity_at_index(b, i);
}

#[verifier::rlimit(50)]
proof fn lemma_insert_level(a: Seq<PriceLevel>, i: int, u: PriceLevel)
    requires
        well_ordered(a),
        split_at_price(a, i, u.price.units as int),
        i < a.len() ==> a[i].price.units != u.price.units,
        u.quantity.units > 0,
    ensures
        well_ordered(a.insert(i, u)),
        forall|p: int|
            quantity_in(a.insert(i, u), p) == if p == u.price.units {
                u.quantity.units as int
            } else {
                quantity_in(a, p)
            },
{
    let b = a.insert(i, u);
    let x = u.price.units as int;
    assert forall|j: int, k: int| 0 <= j < k < b.len() implies b[j].price.units < b[k].price.units by {
        if k < i {
        } else if k == i {
            assert(b[j] == a[j]);
        } else if j < i {
            assert(b[k] == a[k - 1]);
        } else if j == i {
            assert(b[k] == a[k - 1]);
        } else {
            assert(b[k] == a[k - 1]);
            assert(b[j] == a[j - 1]);
        }
    }
    assert forall|j: int| 0 <= j < b.len() && b[j].price.units != x implies exists|k: int|
        0 <= k < a.len() && a[k] == b[j] by {
        if j < i {
            assert(a[j] == b[j]);
        } else {
            assert(a[j - 1] == b[j]);
        }
    }
    assert forall|k: int| 0 <= k < a.len() && a[k].price.units != x implies exists|j: int|
        0 <= j < b.len() && b[j] == a[k] by {
        if k < i {
            assert(a[k] == b[k]);
        } else {
            assert(a[k] == b[k + 1]);
        }
    }
    lemma_same_levels_except(a, b, x);
    lemma_quantity_at_index(b, i);
}

/// Sets the quantity at `u.price` to `u.quantity`; a zero quantity removes it.
fn apply_level(levels: &mut Vec<PriceLevel>, u: PriceLevel)
    requires
        well_ordered(old(levels)@),
        u.quantity.units >= 0,
    ensures
        well_ordered(final(levels)@),
        forall|p: int|
            quantity_in(final(levels)@, p) == if p == u.price.units {
                u.quantity.units as int
            } else {
                quantity_in(old(levels)@, p)
            },
{
    let ghost a = levels@;
    let ghost x = u.price.units as int;
    let n = levels.len();
    let i = lower_bound(levels, u.price.units);
    assert(split_at_price(a, i as int, x));
    if i < n && levels[i].price.units == u.price.units {
        if u.quantity.units == 0 {
            levels.remove(i);
            proof { lemma_remove_level(a, i as int, x); }
        } else {
            levels.set(i, u);
            proof { lemma_set_level(a, i as int, u); }
        }
    } else if u.quantity.units != 0 {
        levels.insert(i, u);
        proof { lemma_insert_level(a, i as int, u); }
    } else {
        assert(!has_price(a, x));
    }
}

/// Applies `updates` to one side, in order.
fn apply_all(levels: &mut Vec<PriceLevel>, updates: &[PriceLevel])
    requires
        well_ordered(old(levels)@),
        forall|k: int| 0 <= k < updates@.len() ==> updates@[k].quantity.units >= 0,
    ensures
        well_ordered(final(levels)@),
        forall|p: int|
            quantity_in(final(levels)@, p) == quantity_after(quantity_in(old(levels)@, p), updates@, p),
{
    let ghost a = levels@;
    let n = updates.len();
    let mut k: usize = 0;
    while k < n
        invariant
            n == updates@.len(),
            0 <= k <= n,
            well_ordered(levels@),
            forall|k: int| 0 <= k < updates@.len() ==> updates@[k].quantity.units >= 0,
            forall|p: int|
                quantity_in(levels@, p) == quantity_after(quantity_in(a, p), updates@.take(k as int), p),
        decreases n - k,
    {
        let u = updates[k];
        apply_level(levels, u);
        proof {
            assert(updates@.take(k + 1).drop_last() =~= updates@.take(k as int));
        }
        k = k + 1;
    }
    assert(updates@.take(n as int) =~= updates@);
}

/// The levels of `s` in the order in which an order of `side` consumes them:
/// asks from the lowest price, bids from the highest.
pub open spec fn walk_order(s: Seq<PriceLevel>, descending: bool) -> Seq<PriceLevel> {
    if descending {
        Seq::new(s.len(), |k: int| s[s.len() - 1 - k])
    } else {
        s
    }
}

/// Running (cost, remaining quantity) after consuming `levels` in order, for
/// an order of `target` units. Cost is in units squared (10^-24).
pub open spec fn fill_state(levels: Seq<PriceLevel>, target: int) -> (int, int)
    decreases levels.len(),
{
    if levels.len() == 0 {
        (0, target)
    } else {
        let (c, r) = fill_state(levels.drop_last(), target);
        let l = levels.last();
        let take = if r <= l.quantity.units { r } else { l.quantity.units as int };
        (c + l.price.units * take, r - take)
    }
}

pub open spec fn fits_i128(x: int) -> bool {
    i128::MIN <= x <= i128::MAX
}

/// Every product and partial sum of the walk fits a 128-bit integer.
pub open spec fn fill_fits(levels: Seq<PriceLevel>, target: int) -> bool
    decreases levels.len(),
{
    if levels.len() == 0 {
        true
    } else {
        let (c, r) = fill_state(levels.drop_last(), target);
        let l = levels.last();
        let take = if r <= l.quantity.units { r } else { l.quantity.units as int };
        &&& fill_fits(levels.drop_last(), target)
        &&& fits_i128(l.price.units * take)
        &&& fits_i128(c + l.price.units * take)
    }
}

/// Average price of filling `target` units against `levels`:
/// zero for a target that is not positive, nothing where depth runs out or a
/// partial cost leaves the 128-bit range, else total cost over target,
/// rounded toward negative infinity to the unit.
pub open spec fn average_fill(levels: Seq<PriceLevel>, target: int) -> Option<int> {
    if target <= 0 {
        Some(0)
    } else if fill_state(levels, target).1 == 0 && fill_fits(levels, target) {
        Some(fill_state(levels, target).0 / target)
    } else {
        None
    }
}

/// Floor of the mean of the highest bid and the lowest ask, where both exist.
pub open spec fn mid_of(bids: Seq<PriceLevel>, asks: Seq<PriceLevel>) -> Option<int> {
    if bids.len() == 0 || asks.len() == 0 {
        None
    } else {
        Some((bids.last().price.units + asks[0].price.units) / 2)
    }
}

proof fn lemma_fill_fits_prefix(levels: Seq<PriceLevel>, target: int, j: int)
    requires
        fill_fits(levels, target),
        0 <= j <= levels.len(),
    ensures
        fill_fits(levels.take(j), target),
    decreases levels.len(),
{
    if j == levels.len() {
        assert(levels.take(j) =~= levels);
    } else {
        assert(levels.drop_last().take(j) =~= levels.take(j));
        lemma_fill_fits_prefix(levels.drop_last(), target, j);
    }
}

/// Walks `levels` (from the back when `descending`) to fill `target` units.
fn walk_average(levels: &Vec<PriceLevel>, descending: bool, target: i128) -> (r: Option<Decimal>)
    requires
        well_ordered(levels@),
        target > 0,
    ensures
        match average_fill(walk_order(levels@, descending), target as int) {
            Some(v) => r == Some(Decimal { units: v as i128 }) && fits_i128(v),
            None => r is None,
        },
{
    let ghost w = walk_order(levels@, descending);
    let n = levels.len();
    let mut cost: i128 = 0;
    let mut remaining: i128 = target;
    let mut k: usize = 0;
    proof {
        assert(w.take(0) =~= Seq::<PriceLevel>::empty());
    }
    while k < n
        invariant
            n == levels@.len() == w.len(),
            w == walk_order(levels@, descending),
            well_ordered(levels@),
            target > 0,
            0 <= k <= n,
            0 <= remaining <= target,
            (cost as int, remaining as int) == fill_state(w.take(k as int), target as int),
            fill_fits(w.take(k as int), target as int),
        decreases n - k,
    {
        let idx = if descending { n - 1 - k } else { k };
        let level = levels[idx];
        assert(level == w[k as int]);
        let take = if remaining <= level.quantity.units { remaining } else { level.quantity.units };
        proof {
            assert(w.take(k + 1).drop_last() =~= w.take(k as int));
            assert(w.take(k + 1).last() == w[k as int]);
        }
        let product = match level.price.units.checked_mul(take) {
            Some(v) => v,
            None => {
                proof {
                    assert(!fill_fits(w.take(k + 1), target as int));
                    if fill_fits(w, target as int) {
                        lemma_fill_fits_prefix(w, target as int, k + 1);
                    }
                }
                return None;
            },
        };
        cost = match cost.checked_add(product) {
            Some(v) => v,
            None => {
                proof {
                    assert(!fill_fits(w.take(k + 1), target as int));
                    if fill_fits(w, target as int) {
                        lemma_fill_fits_prefix(w, target as int, k + 1);
                    }
                }
                return None;
            },
        };
        remaining = remaining - take;
        k = k + 1;
    }
    assert(w.take(n as int) =~= w);
    if remaining == 0 {
        Some(Decimal { units: floor_div_i128(cost, target) })
    } else {
        None
    }
}

/// A well-ordered side is determined by its quantities: two sides that hold
/// the same quantity at every price are the same sequence of levels.
pub proof fn lemma_quantities_determine_side(a: Seq<PriceLevel>, b: Seq<PriceLevel>)
    requires
        well_ordered(a),
        well_ordered(b),
        forall|p: int| quantity_in(a, p) == quantity_in(b, p),
    ensures
        a == b,
    decreases a.len() + b.len(),
{
    if a.len() == 0 || b.len() == 0 {
        if a.len() > 0 {
            lemma_quantity_at_index(a, 0);
            assert(quantity_in(b, a[0].price.units as int) == 0);
        } else if b.len() > 0 {
            lemma_quantity_at_index(b, 0);
            assert(quantity_in(a, b[0].price.units as int) == 0);
        }
        assert(a =~= b);
    } else {
        let x = a[0].price.units as int;
        let y = b[0].price.units as int;
        lemma_quantity_at_index(a, 0);
        lemma_quantity_at_index(b, 0);
        assert(has_price(b, x));
        assert(has_price(a, y));
        let j = choose|j: int| 0 <= j < b.len() && b[j].price.units == x;
        let i = choose|i: int| 0 <= i < a.len() && a[i].price.units == y;
        if j > 0 {
            assert(b[0].price.units < b[j].price.units);
            if i > 0 {
                assert(a[0].price.units < a[i].price.units);
            }
            assert(false);
        }
        assert(a[0] == b[0]);
        let ta = a.subrange(1, a.len() as int);
        let tb = b.subrange(1, b.len() as int);
        lemma_drop_first_level(a);
        lemma_drop_first_level(b);
        assert forall|p: int| quantity_in(ta, p) == quantity_in(tb, p) by {}
        lemma_quantities_determine_side(ta, tb);
        assert(a =~= seq![a[0]] + ta);
        assert(b =~= seq![b[0]] + tb);
    }
}

/// Dropping the lowest level of a well-ordered side clears its price only.
proof fn lemma_drop_first_level(a: Seq<PriceLevel>)
    requires
        well_ordered(a),
        a.len() > 0,
    ensures
        well_ordered(a.subrange(1, a.len() as int)),
        forall|p: int|
            quantity_in(a.subrange(1, a.len() as int), p) == if p == a[0].price.units {
                0
            } else {
                quantity_in(a, p)
            },
{
    let t = a.subrange(1, a.len() as int);
    let x = a[0].price.units as int;
    assert(well_ordered(t)) by {
        assert forall|i: int, j: int| 0 <= i < j < t.len() implies t[i].price.units < t[j].price.units by {
            assert(t[i] == a[i + 1]);
            assert(t[j] == a[j + 1]);
        }
    }
    assert forall|j: int| 0 <= j < t.len() && t[j].price.units != x implies exists|k: int|
        0 <= k < a.len() && a[k] == t[j] by {
        assert(a[j + 1] == t[j]);
    }
    assert forall|k: int| 0 <= k < a.len() && a[k].price.units != x implies exists|j: int|
        0 <= j < t.len() && t[j] == a[k] by {
        assert(k > 0);
        assert(t[k - 1] == a[k]);
    }
    lemma_same_levels_except(a, t, x);
    assert(!has_price(t, x)) by {
        if has_price(t, x) {
            let j = choose|j: int| 0 <= j < t.len() && t[j].price.units == x;
            assert(t[j] == a[j + 1]);
            assert(a[0].price.units < a[j + 1].price.units);
        }
    }
}

/// A zero-quantity update for a price that a side does not hold leaves the
/// side as it was: `after` is any well-ordered side with the quantities that
/// applying the update gives.
pub proof fn lemma_removing_absent_price_changes_nothing(levels: Seq<PriceLevel>, u: PriceLevel, after: Seq<PriceLevel>)
    requires
        well_ordered(levels),
        well_ordered(after),
        u.quantity.units == 0,
        !has_price(levels, u.price.units as int),
        forall|p: int| quantity_in(after, p) == quantity_after(quantity_in(levels, p), seq![u], p),
    ensures
        after == levels,
{
    assert forall|p: int| quantity_in(after, p) == quantity_in(levels, p) by {
        assert(seq![u].drop_last() =~= Seq::<PriceLevel>::empty());
        reveal_with_fuel(quantity_after, 2);
    }
    lemma_quantities_determine_side(after, levels);
}

/// Of two updates for the same price applied in sequence, only the second
/// one's quantity remains at that price; other prices keep their quantity.
pub proof fn lemma_second_update_wins(q0: int, first: PriceLevel, second: PriceLevel, p: int)
    requires
        first.price == second.price,
    ensures
        quantity_after(q0, seq![first, second], p) == if p == second.price.units {
            second.quantity.units as int
        } else {
            q0
        },
{
    let ups = seq![first, second];
    assert(ups.drop_last() =~= seq![first]);
    assert(seq![first].drop_last() =~= Seq::<PriceLevel>::empty());
    reveal_with_fuel(quantity_after, 3);
}

/// Filling a target that is not positive costs nothing, whatever the book holds.
pub proof fn lemma_non_positive_target_fills_at_zero(levels: Seq<PriceLevel>, target: int)
    requires
        target <= 0,
    ensures
        average_fill(levels, target) == Some(0int),
{
}

/// A venue's order book: bids and asks, each a price ladder held in ascending
/// price order.
#[derive(Clone, Debug, PartialEq, Eq)]
pub struct OrderBook {
    bids: Vec<PriceLevel>,
    asks: Vec<PriceLevel>,
}

impl OrderBook {
    pub closed spec fn bids_view(&self) -> Seq<PriceLevel> {
        self.bids@
    }

    pub closed spec fn asks_view(&self) -> Seq<PriceLevel> {
        self.asks@
    }

    pub open spec fn side_view(&self, side: Side) -> Seq<PriceLevel> {
        match side {
            Side::Bid => self.bids_view(),
            Side::Ask => self.asks_view(),
        }
    }

    pub open spec fn wf(&self) -> bool {
        well_ordered(self.bids_view()) && well_ordered(self.asks_view())
    }

    /// An empty book.
    pub fn new() -> (r: OrderBook)
        ensures
            r.wf(),
            r.bids_view().len() == 0,
            r.asks_view().len() == 0,
    {
        OrderBook { bids: Vec::new(), asks: Vec::new() }
    }

    /// The quantity held at `price` on `side`; zero where the price is absent.
    pub fn quantity_at(&self, side: Side, price: Decimal) -> (r: Decimal)
        requires
            self.wf(),
        ensures
            r.units == quantity_in(self.side_view(side), price.units as int),
    {
        let levels = match side {
            Side::Bid => &self.bids,
            Side::Ask => &self.asks,
        };
        let i = lower_bound(levels, price.units);
        if i < levels.len() && levels[i].price.units == price.units {
            proof { lemma_quantity_at_index(levels@, i as int); }
            levels[i].quantity
        } else {
            assert(!has_price(levels@, price.units as int)) by {
                if has_price(levels@, price.units as int) {
                    let k = choose|k: int| 0 <= k < levels@.len() && levels@[k].price.units == price.units;
                    if k > i {
                        assert(levels@[i as int].price.units < levels@[k].price.units);
                    }
                }
            }
            Decimal::zero()
        }
    }

    /// Applies snapshot or delta updates to one side, in the order given: a
    /// zero quantity removes its price (absent prices are ignored), any other
    /// quantity is set at its price.
    pub fn apply_updates(&mut self, side: Side, updates: &[PriceLevel])
        requires
            old(self).wf(),
            forall|k: int| 0 <= k < updates@.len() ==> updates@[k].quantity.units >= 0,
        ensures
            final(self).wf(),
            forall|p: int|
                quantity_in(final(self).side_view(side), p) == quantity_after(
                    quantity_in(old(self).side_view(side), p),
                    updates@,
                    p,
                ),
            side is Bid ==> final(self).asks_view() == old(self).asks_view(),
            side is Ask ==> final(self).bids_view() == old(self).bids_view(),
    {
        match side {
            Side::Bid => apply_all(&mut self.bids, updates),
            Side::Ask => apply_all(&mut self.asks, updates),
        }
    }

    /// The mean of the highest bid and the lowest ask, rounded toward
    /// negative infinity to the unit; `None` when either side is empty.
    pub fn get_mid_price(&self) -> (r: Option<Decimal>)
        requires
            self.wf(),
        ensures
            match mid_of(self.bids_view(), self.asks_view()) {
                Some(v) => r == Some(Decimal { units: v as i128 }) && fits_i128(v),
                None => r is None,
            },
    {
        if self.bids.len() == 0 || self.asks.len() == 0 {
            return None;
        }
        let bid = self.bids[self.bids.len() - 1].price.units;
        let ask = self.asks[0].price.units;
        let qb = floor_div_i128(bid, 2);
        let qa = floor_div_i128(ask, 2);
        let rb = bid - 2 * qb;
        let ra = ask - 2 * qa;
        Some(Decimal { units: qb + qa + (rb + ra) / 2 })
    }

    /// The volume-weighted price of filling `target_qty` units against `side`
    /// (asks from the lowest price, bids from the highest): zero for a target
    /// that is not positive, `None` when depth runs out.
    pub fn calculate_average_filled_price(&self, target_qty: Decimal, side: Side) -> (r: Option<Decimal>)
        requires
            self.wf(),
        ensures
            match average_fill(walk_order(self.side_view(side), side is Bid), target_qty.units as int) {
                Some(v) => r == Some(Decimal { units: v as i128 }) && fits_i128(v),
                None => r is None,
            },
    {
        if target_qty.units <= 0 {
            return Some(Decimal::zero());
        }
        match side {
            Side::Ask => walk_average(&self.asks, false, target_qty.units),
            Side::Bid => walk_average(&self.bids, true, target_qty.units),
        }
    }
}

} // verus!
