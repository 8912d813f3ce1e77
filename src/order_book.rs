//! A passive order book: price levels per side, each holding its orders in
//! priority order, and an index from identifier to order kept in lockstep.
use vstd::prelude::*;
use std::collections::HashMap;
use crate::parser::Tick;

verus! {

broadcast use vstd::std_specs::hash::group_hash_axioms;

/// Side of a resting order.
#[derive(Debug, Clone, Copy, PartialEq, Eq, Structural)]
pub enum OrderSide {
    Bid,
    Ask,
}

/// A resting order; the price is in fixed-point units of `1 / PRICE_SCALE`.
#[derive(Debug, Clone, Copy, PartialEq, Eq, Structural)]
pub struct Order {
    pub id: u64,
    pub price: u64,
    pub quantity: u64,
    pub side: OrderSide,
}

/// All orders of one side at one price, in priority order.
struct PriceLevel {
    price: u64,
    orders: Vec<Order>,
}

/// The book as a mathematical value: the orders by identifier, and for each
/// price the orders resting there on each side (empty where there are none).
pub ghost struct BookView {
    pub orders: Map<u64, Order>,
    pub bids: Map<u64, Seq<Order>>,
    pub asks: Map<u64, Seq<Order>>,
}

/// `s` with the order carrying identifier `id` taken out.
pub open spec fn without_id(s: Seq<Order>, id: u64) -> Seq<Order>
    decreases s.len(),
{
    if s.len() == 0 {
        s
    } else {
        let rest = without_id(s.drop_last(), id);
        if s.last().id == id {
            rest
        } else {
            rest.push(s.last())
        }
    }
}

/// `s` with the order carrying identifier `id` given quantity `q`.
pub open spec fn with_quantity(s: Seq<Order>, id: u64, q: u64) -> Seq<Order> {
    s.map_values(|o: Order| if o.id == id { Order { quantity: q, ..o } } else { o })
}

/// No two orders of `s` share an identifier.
pub open spec fn ids_distinct(s: Seq<Order>) -> bool {
    forall|j1: int, j2: int|
        0 <= j1 < s.len() && 0 <= j2 < s.len() && #[trigger] s[j1].id == #[trigger] s[j2].id
            ==> j1 == j2
}

impl BookView {
    /// The orders resting at `price` on `side`.
    pub open spec fn level(self, side: OrderSide, price: u64) -> Seq<Order> {
        match side {
            OrderSide::Bid => self.bids[price],
            OrderSide::Ask => self.asks[price],
        }
    }

    /// The book after `o` joins the back of its level and the index.
    pub open spec fn with_order(self, o: Order) -> BookView {
        BookView {
            orders: self.orders.insert(o.id, o),
            bids: if o.side == OrderSide::Bid {
                self.bids.insert(o.price, self.bids[o.price].push(o))
            } else {
                self.bids
            },
            asks: if o.side == OrderSide::Ask {
                self.asks.insert(o.price, self.asks[o.price].push(o))
            } else {
                self.asks
            },
        }
    }

    /// The book after the indexed order `id` leaves its level and the index.
    pub open spec fn without_order(self, id: u64) -> BookView {
        let o = self.orders[id];
        BookView {
            orders: self.orders.remove(id),
            bids: if o.side == OrderSide::Bid {
                self.bids.insert(o.price, without_id(self.bids[o.price], id))
            } else {
                self.bids
            },
            asks: if o.side == OrderSide::Ask {
                self.asks.insert(o.price, without_id(self.asks[o.price], id))
            } else {
                self.asks
            },
        }
    }

    /// The book after the indexed order `id` gets quantity `q`, in place.
    pub open spec fn amended(self, id: u64, q: u64) -> BookView {
        let o = self.orders[id];
        BookView {
            orders: self.orders.insert(id, Order { quantity: q, ..o }),
            bids: if o.side == OrderSide::Bid {
                self.bids.insert(o.price, with_quantity(self.bids[o.price], id, q))
            } else {
                self.bids
            },
            asks: if o.side == OrderSide::Ask {
                self.asks.insert(o.price, with_quantity(self.asks[o.price], id, q))
            } else {
                self.asks
            },
        }
    }

    /// Levels and index in lockstep: every order in a level has that level's
    /// side and price and is the indexed order of its identifier, every indexed order rests in the level of its
    /// side and price, and no level holds an identifier twice.
    pub open spec fn consistent(self) -> bool {
        &&& forall|side: OrderSide, p: u64, x: Order| #[trigger]
            self.level(side, p).contains(x) ==> x.side == side && x.price == p
                && self.orders.contains_key(x.id) && self.orders[x.id] == x
        &&& forall|id: u64| #[trigger]
            self.orders.contains_key(id) ==> self.orders[id].id == id && self.level(
                self.orders[id].side,
                self.orders[id].price,
            ).contains(self.orders[id])
        &&& forall|side: OrderSide, p: u64| #[trigger] ids_distinct(self.level(side, p))
    }
}

proof fn lemma_without_id(s: Seq<Order>, id: u64)
    ensures
        forall|x: Order| #[trigger]
            without_id(s, id).contains(x) <==> s.contains(x) && x.id != id,
        ids_distinct(s) ==> ids_distinct(without_id(s, id)),
    decreases s.len(),
{
    if s.len() > 0 {
        let d = s.drop_last();
        lemma_without_id(d, id);
        let rest = without_id(d, id);
        assert forall|x: Order| s.contains(x) <==> d.contains(x) || x == s.last() by {
            if s.contains(x) {
                let j = choose|j: int| 0 <= j < s.len() && s[j] == x;
                if j < s.len() - 1 {
                    assert(d[j] == x);
                }
            }
            if d.contains(x) {
                let j = choose|j: int| 0 <= j < d.len() && d[j] == x;
                assert(s[j] == x);
            }
            if x == s.last() {
                assert(s[s.len() - 1] == x);
            }
        }
        assert forall|x: Order| rest.push(s.last()).contains(x) <==> rest.contains(x) || x
            == s.last() by {
            let r = rest.push(s.last());
            if r.contains(x) {
                let j = choose|j: int| 0 <= j < r.len() && r[j] == x;
                if j < rest.len() {
                    assert(rest[j] == x);
                }
            }
            if rest.contains(x) {
                let j = choose|j: int| 0 <= j < rest.len() && rest[j] == x;
                assert(r[j] == x);
            }
            if x == s.last() {
                assert(r[rest.len() as int] == x);
            }
        }
        assert forall|x: Order| #[trigger]
            without_id(s, id).contains(x) <==> s.contains(x) && x.id != id by {
            assert(rest.contains(x) <==> d.contains(x) && x.id != id);
        }
        if ids_distinct(s) {
            assert(ids_distinct(d)) by {
                assert forall|j1: int, j2: int|
                    0 <= j1 < d.len() && 0 <= j2 < d.len() && #[trigger] d[j1].id
                        == #[trigger] d[j2].id implies j1 == j2 by {
                    assert(s[j1] == d[j1] && s[j2] == d[j2]);
                }
            }
            if s.last().id != id {
                let r = rest.push(s.last());
                assert forall|j1: int, j2: int|
                    0 <= j1 < r.len() && 0 <= j2 < r.len() && #[trigger] r[j1].id
                        == #[trigger] r[j2].id implies j1 == j2 by {
                    if j1 < rest.len() && j2 == rest.len() {
                        assert(rest.contains(rest[j1]));
                        let k = choose|k: int| 0 <= k < d.len() && d[k] == rest[j1];
                        assert(s[k].id == s[s.len() - 1].id);
                    }
                    if j2 < rest.len() && j1 == rest.len() {
                        assert(rest.contains(rest[j2]));
                        let k = choose|k: int| 0 <= k < d.len() && d[k] == rest[j2];
                        assert(s[k].id == s[s.len() - 1].id);
                    }
                }
            }
        }
    }
}

proof fn lemma_remove_is_without(s: Seq<Order>, j: int, id: u64)
    requires
        0 <= j < s.len(),
        s[j].id == id,
        ids_distinct(s),
    ensures
        s.remove(j) == without_id(s, id),
    decreases s.len(),
{
    let d = s.drop_last();
    assert forall|j1: int, j2: int|
        0 <= j1 < d.len() && 0 <= j2 < d.len() && #[trigger] d[j1].id == #[trigger] d[j2].id
            implies j1 == j2 by {
        assert(s[j1] == d[j1] && s[j2] == d[j2]);
    }
    if j == s.len() - 1 {
        lemma_without_absent(d, id);
        assert forall|k: int| 0 <= k < d.len() implies #[trigger] d[k].id != id by {
            assert(s[k] == d[k]);
        }
        lemma_without_absent(d, id);
        assert(s.remove(j) =~= d);
    } else {
        assert(d[j] == s[j]);
        lemma_remove_is_without(d, j, id);
        assert(s.last().id != id) by {
            assert(s[s.len() - 1].id != s[j].id);
        }
        assert(s.remove(j) =~= d.remove(j).push(s.last()));
    }
}

proof fn lemma_without_absent(s: Seq<Order>, id: u64)
    ensures
        (forall|k: int| 0 <= k < s.len() ==> #[trigger] s[k].id != id) ==> without_id(s, id) == s,
    decreases s.len(),
{
    if s.len() > 0 {
        let d = s.drop_last();
        lemma_without_absent(d, id);
        if forall|k: int| 0 <= k < s.len() ==> #[trigger] s[k].id != id {
            assert forall|k: int| 0 <= k < d.len() implies #[trigger] d[k].id != id by {
                assert(s[k] == d[k]);
            }
            assert(s[s.len() - 1].id != id);
            assert(d.push(s.last()) =~= s);
        }
    }
}

/// Adding an order whose identifier is new keeps the book consistent.
proof fn lemma_with_order_consistent(v: BookView, o: Order)
    requires
        v.consistent(),
        !v.orders.contains_key(o.id),
    ensures
        v.with_order(o).consistent(),
{
    let w = v.with_order(o);
    assert forall|side: OrderSide, p: u64, x: Order| #[trigger]
        w.level(side, p).contains(x) implies x.side == side && x.price == p
        && w.orders.contains_key(x.id) && w.orders[x.id] == x by {
        if side == o.side && p == o.price {
            let s = v.level(side, p);
            assert(w.level(side, p) == s.push(o));
            let j = choose|j: int| 0 <= j < s.push(o).len() && s.push(o)[j] == x;
            if j < s.len() {
                assert(s[j] == x);
                assert(s.contains(x));
            }
        } else {
            assert(w.level(side, p) == v.level(side, p));
            assert(v.level(side, p).contains(x));
        }
    }
    assert forall|id: u64| #[trigger] w.orders.contains_key(id) implies w.orders[id].id == id
        && w.level(w.orders[id].side, w.orders[id].price).contains(w.orders[id]) by {
        if id == o.id {
            let s = v.level(o.side, o.price);
            assert(w.level(o.side, o.price) == s.push(o));
            assert(s.push(o)[s.len() as int] == o);
        } else {
            let x = v.orders[id];
            assert(v.level(x.side, x.price).contains(x));
            if x.side == o.side && x.price == o.price {
                let s = v.level(x.side, x.price);
                let j = choose|j: int| 0 <= j < s.len() && s[j] == x;
                assert(s.push(o)[j] == x);
            } else {
                assert(w.level(x.side, x.price) == v.level(x.side, x.price));
            }
        }
    }
    assert forall|side: OrderSide, p: u64| #[trigger] ids_distinct(w.level(side, p)) by {
        assert(ids_distinct(v.level(side, p)));
        if side == o.side && p == o.price {
            let s = v.level(side, p);
            let r = s.push(o);
            assert forall|j1: int, j2: int|
                0 <= j1 < r.len() && 0 <= j2 < r.len() && #[trigger] r[j1].id == #[trigger] r[j2].id
                    implies j1 == j2 by {
                if j1 < s.len() {
                    assert(s.contains(s[j1]));
                }
                if j2 < s.len() {
                    assert(s.contains(s[j2]));
                }
            }
        } else {
            assert(w.level(side, p) == v.level(side, p));
        }
    }
}

/// Taking out an indexed order keeps the book consistent.
proof fn lemma_without_order_consistent(v: BookView, id: u64)
    requires
        v.consistent(),
        v.orders.contains_key(id),
    ensures
        v.without_order(id).consistent(),
{
    let w = v.without_order(id);
    let o = v.orders[id];
    lemma_without_id(v.level(o.side, o.price), id);
    assert forall|side: OrderSide, p: u64, x: Order| #[trigger]
        w.level(side, p).contains(x) implies x.side == side && x.price == p
        && w.orders.contains_key(x.id) && w.orders[x.id] == x by {
        if side == o.side && p == o.price {
            assert(w.level(side, p) == without_id(v.level(side, p), id));
            assert(v.level(side, p).contains(x));
        } else {
            assert(w.level(side, p) == v.level(side, p));
            assert(v.level(side, p).contains(x));
        }
    }
    assert forall|id2: u64| #[trigger] w.orders.contains_key(id2) implies w.orders[id2].id == id2
        && w.level(w.orders[id2].side, w.orders[id2].price).contains(w.orders[id2]) by {
        let x = v.orders[id2];
        assert(v.level(x.side, x.price).contains(x));
        if !(x.side == o.side && x.price == o.price) {
            assert(w.level(x.side, x.price) == v.level(x.side, x.price));
        }
    }
    assert forall|side: OrderSide, p: u64| #[trigger] ids_distinct(w.level(side, p)) by {
        assert(ids_distinct(v.level(side, p)));
        if !(side == o.side && p == o.price) {
            assert(w.level(side, p) == v.level(side, p));
        }
    }
}

/// Changing the quantity of an indexed order keeps the book consistent.
proof fn lemma_amended_consistent(v: BookView, id: u64, q: u64)
    requires
        v.consistent(),
        v.orders.contains_key(id),
    ensures
        v.amended(id, q).consistent(),
{
    let w = v.amended(id, q);
    let o = v.orders[id];
    let o2 = Order { quantity: q, ..o };
    let s = v.level(o.side, o.price);
    let t = with_quantity(s, id, q);
    assert(w.level(o.side, o.price) == t);
    assert forall|side: OrderSide, p: u64, x: Order| #[trigger]
        w.level(side, p).contains(x) implies x.side == side && x.price == p
        && w.orders.contains_key(x.id) && w.orders[x.id] == x by {
        if side == o.side && p == o.price {
            let j = choose|j: int| 0 <= j < t.len() && t[j] == x;
            assert(s.contains(s[j]));
        } else {
            assert(w.level(side, p) == v.level(side, p));
            assert(v.orders.contains_key(x.id));
            if x.id == id {
                assert(v.level(o.side, o.price).contains(o));
                assert(v.level(side, p).contains(x));
            }
        }
    }
    assert forall|id2: u64| #[trigger] w.orders.contains_key(id2) implies w.orders[id2].id == id2
        && w.level(w.orders[id2].side, w.orders[id2].price).contains(w.orders[id2]) by {
        let x = v.orders[id2];
        assert(v.level(x.side, x.price).contains(x));
        if x.side == o.side && x.price == o.price {
            let j = choose|j: int| 0 <= j < s.len() && s[j] == x;
            assert(t[j] == w.orders[id2]);
        } else {
            assert(w.level(x.side, x.price) == v.level(x.side, x.price));
        }
    }
    assert forall|side: OrderSide, p: u64| #[trigger] ids_distinct(w.level(side, p)) by {
        assert(ids_distinct(v.level(side, p)));
        if side == o.side && p == o.price {
            assert forall|j1: int, j2: int|
                0 <= j1 < t.len() && 0 <= j2 < t.len() && #[trigger] t[j1].id == #[trigger] t[j2].id
                    implies j1 == j2 by {
                assert(s[j1].id == t[j1].id && s[j2].id == t[j2].id);
            }
        } else {
            assert(w.level(side, p) == v.level(side, p));
        }
    }
}

/// `a` comes before `b` on `side`: higher bids first, lower asks first.
pub open spec fn ahead(side: OrderSide, a: u64, b: u64) -> bool {
    match side {
        OrderSide::Bid => a > b,
        OrderSide::Ask => a < b,
    }
}

/// The orders at `price` among `levels`, or none.
spec fn level_of(levels: Seq<PriceLevel>, price: u64) -> Seq<Order> {
    if exists|i: int| 0 <= i < levels.len() && levels[i].price == price {
        levels[choose|i: int| 0 <= i < levels.len() && levels[i].price == price].orders@
    } else {
        Seq::empty()
    }
}

/// Levels strictly in priority order, none of them empty.
spec fn side_wf(levels: Seq<PriceLevel>, side: OrderSide) -> bool {
    &&& forall|i: int, j: int|
        0 <= i < j < levels.len() ==> ahead(side, #[trigger] levels[i].price, #[trigger] levels[j].price)
    &&& forall|i: int| 0 <= i < levels.len() ==> (#[trigger] levels[i]).orders@.len() > 0
}

proof fn lemma_level_at(levels: Seq<PriceLevel>, side: OrderSide, i: int)
    requires
        side_wf(levels, side),
        0 <= i < levels.len(),
    ensures
        level_of(levels, levels[i].price) == levels[i].orders@,
{
    let p = levels[i].price;
    let k = choose|k: int| 0 <= k < levels.len() && levels[k].price == p;
    if k < i {
        assert(ahead(side, levels[k].price, levels[i].price));
    } else if k > i {
        assert(ahead(side, levels[i].price, levels[k].price));
    }
}

proof fn lemma_level_absent(levels: Seq<PriceLevel>, price: u64)
    requires
        forall|i: int| 0 <= i < levels.len() ==> #[trigger] levels[i].price != price,
    ensures
        level_of(levels, price) == Seq::<Order>::empty(),
{
}

/// Every price present in `b` at some position is present in `a` at a
/// matching position, and the levels there agree.
proof fn lemma_level_same(a: Seq<PriceLevel>, b: Seq<PriceLevel>, side: OrderSide, price: u64)
    requires
        side_wf(a, side),
        side_wf(b, side),
        forall|i: int|
            0 <= i < a.len() && #[trigger] a[i].price == price ==> exists|k: int|
                0 <= k < b.len() && b[k].price == price && b[k].orders@ == a[i].orders@,
        forall|k: int|
            0 <= k < b.len() && #[trigger] b[k].price == price ==> exists|i: int|
                0 <= i < a.len() && a[i].price == price,
    ensures
        level_of(a, price) == level_of(b, price),
{
    if exists|i: int| 0 <= i < a.len() && a[i].price == price {
        let i = choose|i: int| 0 <= i < a.len() && a[i].price == price;
        let k = choose|k: int| 0 <= k < b.len() && b[k].price == price && b[k].orders@ == a[i].orders@;
        lemma_level_at(a, side, i);
        lemma_level_at(b, side, k);
    }
}

fn is_ahead(side: OrderSide, a: u64, b: u64) -> (r: bool)
    ensures
        r == ahead(side, a, b),
{
    match side {
        OrderSide::Bid => a > b,
        OrderSide::Ask => a < b,
    }
}

/// Where `price` stands among `levels`: the position of its level when
/// present, else the position where its level would go.
fn find_level(levels: &Vec<PriceLevel>, side: OrderSide, price: u64) -> (r: (usize, bool))
    requires
        side_wf(levels@, side),
    ensures
        r.0 <= levels@.len(),
        forall|k: int| 0 <= k < r.0 ==> ahead(side, #[trigger] levels@[k].price, price),
        r.1 ==> r.0 < levels@.len() && levels@[r.0 as int].price == price,
        !r.1 ==> forall|k: int|
            r.0 <= k < levels@.len() ==> ahead(side, price, #[trigger] levels@[k].price),
{
    let mut i: usize = 0;
    while i < levels.len()
        invariant
            side_wf(levels@, side),
            i <= levels@.len(),
            forall|k: int| 0 <= k < i ==> ahead(side, #[trigger] levels@[k].price, price),
        decreases levels@.len() - i,
    {
        let p = levels[i].price;
        if p == price {
            return (i, true);
        }
        if is_ahead(side, price, p) {
            assert forall|k: int| i <= k < levels@.len() implies ahead(
                side,
                price,
                #[trigger] levels@[k].price,
            ) by {
                if k > i {
                    assert(ahead(side, levels@[i as int].price, levels@[k].price));
                }
            }
            return (i, false);
        }
        i = i + 1;
    }
    (i, false)
}

/// Position of the order with identifier `id` in `orders`, which holds one.
fn find_order(orders: &Vec<Order>, id: u64) -> (j: usize)
    requires
        exists|j: int| 0 <= j < orders@.len() && orders@[j].id == id,
    ensures
        j < orders@.len(),
        orders@[j as int].id == id,
{
    let mut j: usize = 0;
    while j < orders.len()
        invariant
            j <= orders@.len(),
            forall|k: int| 0 <= k < j ==> #[trigger] orders@[k].id != id,
            exists|j: int| 0 <= j < orders@.len() && orders@[j].id == id,
        decreases orders@.len() - j,
    {
        if orders[j].id == id {
            return j;
        }
        j = j + 1;
    }
    proof {
        let k = choose|k: int| 0 <= k < orders@.len() && orders@[k].id == id;
        assert(orders@[k].id != id);
    }
    0
}

/// Appends `o` to its price level, creating the level where needed.
fn level_push(levels: &mut Vec<PriceLevel>, side: OrderSide, o: Order)
    requires
        side_wf(old(levels)@, side),
    ensures
        side_wf(final(levels)@, side),
        forall|p: u64| #[trigger]
            level_of(final(levels)@, p) == if p == o.price {
                level_of(old(levels)@, p).push(o)
            } else {
                level_of(old(levels)@, p)
            },
{
    let ghost a = levels@;
    let (i, found) = find_level(levels, side, o.price);
    if found {
        let mut level = levels.remove(i);
        level.orders.push(o);
        levels.insert(i, level);
        proof {
            let b = levels@;
            assert(b =~= a.update(i as int, b[i as int]));
            assert forall|p: u64| #[trigger]
                level_of(b, p) == if p == o.price {
                    level_of(a, p).push(o)
                } else {
                    level_of(a, p)
                } by {
                if p == o.price {
                    lemma_level_at(a, side, i as int);
                    lemma_level_at(b, side, i as int);
                } else {
                    assert forall|k: int| 0 <= k < a.len() && #[trigger] a[k].price == p implies exists|
                        m: int,
                    | 0 <= m < b.len() && b[m].price == p && b[m].orders@ == a[k].orders@ by {
                        assert(b[k] == a[k]);
                    }
                    assert forall|k: int| 0 <= k < b.len() && #[trigger] b[k].price == p implies exists|
                        m: int,
                    | 0 <= m < a.len() && a[m].price == p by {
                        assert(a[k].price == b[k].price);
                    }
                    lemma_level_same(a, b, side, p);
                }
            }
        }
    } else {
        let mut orders: Vec<Order> = Vec::new();
        orders.push(o);
        levels.insert(i, PriceLevel { price: o.price, orders });
        proof {
            let b = levels@;
            assert forall|x: int, y: int| 0 <= x < y < b.len() implies ahead(
                side,
                #[trigger] b[x].price,
                #[trigger] b[y].price,
            ) by {
                if y < i {
                } else if y == i {
                    assert(ahead(side, a[x].price, o.price));
                } else if x < i {
                    assert(ahead(side, a[x].price, o.price));
                    assert(ahead(side, o.price, a[y - 1].price));
                } else if x == i {
                    assert(ahead(side, o.price, a[y - 1].price));
                } else {
                    assert(ahead(side, a[x - 1].price, a[y - 1].price));
                }
            }
            assert forall|k: int| 0 <= k < b.len() implies (#[trigger] b[k]).orders@.len() > 0 by {
                if k > i {
                    assert(b[k] == a[k - 1]);
                } else if k < i {
                    assert(b[k] == a[k]);
                }
            }
            assert forall|p: u64| #[trigger]
                level_of(b, p) == if p == o.price {
                    level_of(a, p).push(o)
                } else {
                    level_of(a, p)
                } by {
                if p == o.price {
                    lemma_level_at(b, side, i as int);
                    assert forall|k: int| 0 <= k < a.len() implies #[trigger] a[k].price != p by {
                        if k < i {
                            assert(ahead(side, a[k].price, p));
                        } else {
                            assert(ahead(side, p, a[k].price));
                        }
                    }
                    lemma_level_absent(a, p);
                    assert(Seq::<Order>::empty().push(o) =~= b[i as int].orders@);
                } else {
                    assert forall|k: int| 0 <= k < a.len() && #[trigger] a[k].price == p implies exists|
                        m: int,
                    | 0 <= m < b.len() && b[m].price == p && b[m].orders@ == a[k].orders@ by {
                        if k < i {
                            assert(b[k] == a[k]);
                        } else {
                            assert(b[k + 1] == a[k]);
                        }
                    }
                    assert forall|k: int| 0 <= k < b.len() && #[trigger] b[k].price == p implies exists|
                        m: int,
                    | 0 <= m < a.len() && a[m].price == p by {
                        if k < i {
                            assert(b[k] == a[k]);
                        } else if k > i {
                            assert(b[k] == a[k - 1]);
                        }
                    }
                    lemma_level_same(a, b, side, p);
                }
            }
        }
    }
}

/// Takes the order `id` out of the level at `price`, dropping the level when
/// it becomes empty.
fn level_remove(levels: &mut Vec<PriceLevel>, side: OrderSide, price: u64, id: u64)
    requires
        side_wf(old(levels)@, side),
        exists|j: int|
            0 <= j < level_of(old(levels)@, price).len() && level_of(old(levels)@, price)[j].id
                == id,
        ids_distinct(level_of(old(levels)@, price)),
    ensures
        side_wf(final(levels)@, side),
        forall|p: u64| #[trigger]
            level_of(final(levels)@, p) == if p == price {
                without_id(level_of(old(levels)@, p), id)
            } else {
                level_of(old(levels)@, p)
            },
{
    let ghost a = levels@;
    let (i, found) = find_level(levels, side, price);
    proof {
        if !found {
            assert forall|k: int| 0 <= k < a.len() implies #[trigger] a[k].price != price by {
                if k < i {
                    assert(ahead(side, a[k].price, price));
                } else {
                    assert(ahead(side, price, a[k].price));
                }
            }
            lemma_level_absent(a, price);
        }
        lemma_level_at(a, side, i as int);
    }
    let mut level = levels.remove(i);
    let j = find_order(&level.orders, id);
    let ghost before = level.orders@;
    level.orders.remove(j);
    proof {
        lemma_remove_is_without(before, j as int, id);
    }
    if level.orders.len() > 0 {
        levels.insert(i, level);
        proof {
            let b = levels@;
            assert(b =~= a.update(i as int, b[i as int]));
            assert forall|p: u64| #[trigger]
                level_of(b, p) == if p == price {
                    without_id(level_of(a, p), id)
                } else {
                    level_of(a, p)
                } by {
                if p == price {
                    lemma_level_at(b, side, i as int);
                } else {
                    assert forall|k: int| 0 <= k < a.len() && #[trigger] a[k].price == p implies exists|
                        m: int,
                    | 0 <= m < b.len() && b[m].price == p && b[m].orders@ == a[k].orders@ by {
                        assert(b[k] == a[k]);
                    }
                    assert forall|k: int| 0 <= k < b.len() && #[trigger] b[k].price == p implies exists|
                        m: int,
                    | 0 <= m < a.len() && a[m].price == p by {
                        assert(a[k].price == b[k].price);
                    }
                    lemma_level_same(a, b, side, p);
                }
            }
        }
    } else {
        proof {
            let b = levels@;
            assert(b =~= a.remove(i as int));
            assert forall|p: u64| #[trigger]
                level_of(b, p) == if p == price {
                    without_id(level_of(a, p), id)
                } else {
                    level_of(a, p)
                } by {
                if p == price {
                    assert forall|k: int| 0 <= k < b.len() implies #[trigger] b[k].price != p by {
                        if k < i {
                            assert(ahead(side, a[k].price, a[i as int].price));
                        } else {
                            assert(ahead(side, a[i as int].price, a[k + 1].price));
                        }
                    }
                    lemma_level_absent(b, p);
                    assert(without_id(level_of(a, p), id) =~= Seq::<Order>::empty());
                } else {
                    assert forall|k: int| 0 <= k < a.len() && #[trigger] a[k].price == p implies exists|
                        m: int,
                    | 0 <= m < b.len() && b[m].price == p && b[m].orders@ == a[k].orders@ by {
                        if k < i {
                            assert(b[k] == a[k]);
                        } else {
                            assert(b[k - 1] == a[k]);
                        }
                    }
                    assert forall|k: int| 0 <= k < b.len() && #[trigger] b[k].price == p implies exists|
                        m: int,
                    | 0 <= m < a.len() && a[m].price == p by {
                        if k < i {
                            assert(b[k] == a[k]);
                        } else {
                            assert(b[k] == a[k + 1]);
                        }
                    }
                    lemma_level_same(a, b, side, p);
                }
            }
        }
    }
}

/// Gives the order `id` in the level at `price` quantity `q`, in place.
fn level_amend(levels: &mut Vec<PriceLevel>, side: OrderSide, price: u64, id: u64, q: u64)
    requires
        side_wf(old(levels)@, side),
        exists|j: int|
            0 <= j < level_of(old(levels)@, price).len() && level_of(old(levels)@, price)[j].id
                == id,
        ids_distinct(level_of(old(levels)@, price)),
    ensures
        side_wf(final(levels)@, side),
        forall|p: u64| #[trigger]
            level_of(final(levels)@, p) == if p == price {
                with_quantity(level_of(old(levels)@, p), id, q)
            } else {
                level_of(old(levels)@, p)
            },
{
    let ghost a = levels@;
    let (i, found) = find_level(levels, side, price);
    proof {
        if !found {
            assert forall|k: int| 0 <= k < a.len() implies #[trigger] a[k].price != price by {
                if k < i {
                    assert(ahead(side, a[k].price, price));
                } else {
                    assert(ahead(side, price, a[k].price));
                }
            }
            lemma_level_absent(a, price);
        }
        lemma_level_at(a, side, i as int);
    }
    let mut level = levels.remove(i);
    let j = find_order(&level.orders, id);
    let ghost before = level.orders@;
    let current = level.orders[j];
    level.orders.set(j, Order { quantity: q, ..current });
    levels.insert(i, level);
    proof {
        assert(level_of(a, price) == before);
        assert forall|k: int| 0 <= k < before.len() implies #[trigger] level.orders@[k] == with_quantity(
            before,
            id,
            q,
        )[k] by {
            if k != j {
                assert(before[k].id != before[j as int].id);
            }
        }
        assert(level.orders@ =~= with_quantity(before, id, q));
        let b = levels@;
        assert(b =~= a.update(i as int, b[i as int]));
        assert forall|p: u64| #[trigger]
            level_of(b, p) == if p == price {
                with_quantity(level_of(a, p), id, q)
            } else {
                level_of(a, p)
            } by {
            if p == price {
                lemma_level_at(b, side, i as int);
            } else {
                assert forall|k: int| 0 <= k < a.len() && #[trigger] a[k].price == p implies exists|
                    m: int,
                | 0 <= m < b.len() && b[m].price == p && b[m].orders@ == a[k].orders@ by {
                    assert(b[k] == a[k]);
                }
                assert forall|k: int| 0 <= k < b.len() && #[trigger] b[k].price == p implies exists|
                    m: int,
                | 0 <= m < a.len() && a[m].price == p by {
                    assert(a[k].price == b[k].price);
                }
                lemma_level_same(a, b, side, p);
            }
        }
    }
}

/// The bid quoted for a tick: a tenth of its volume, just under its price.
pub open spec fn quote_bid(tick: Tick, id: u64) -> Order {
    Order {
        id,
        price: (tick.price * 999 / 1000) as u64,
        quantity: tick.volume / 10,
        side: OrderSide::Bid,
    }
}

/// The ask quoted for a tick: a tenth of its volume, just over its price
/// (held at `u64::MAX` at the top of the range).
pub open spec fn quote_ask(tick: Tick, id: u64) -> Order {
    Order {
        id,
        price: if tick.price * 1001 / 1000 > u64::MAX {
            u64::MAX
        } else {
            (tick.price * 1001 / 1000) as u64
        },
        quantity: tick.volume / 10,
        side: OrderSide::Ask,
    }
}

/// The book after `o` is added when its identifier is new.
pub open spec fn added_if_new(v: BookView, o: Order) -> BookView {
    if v.orders.contains_key(o.id) {
        v
    } else {
        v.with_order(o)
    }
}

/// The book after quoting `tick` with a bid `bid_id` and an ask `ask_id`.
pub open spec fn quoted(v: BookView, tick: Tick, bid_id: u64, ask_id: u64) -> BookView {
    added_if_new(added_if_new(v, quote_bid(tick, bid_id)), quote_ask(tick, ask_id))
}

/// Relies on rand::random: a u64 drawn from the thread-local generator;
/// nothing is promised of its value.
#[verifier::external_body]
fn random_id() -> (r: u64) {
    rand::random::<u64>()
}

fn copy_orders(orders: &Vec<Order>) -> (r: Vec<Order>)
    ensures
        r@ == orders@,
{
    let mut r: Vec<Order> = Vec::new();
    let mut i: usize = 0;
    while i < orders.len()
        invariant
            i <= orders@.len(),
            r@ == orders@.subrange(0, i as int),
        decreases orders@.len() - i,
    {
        r.push(orders[i]);
        i = i + 1;
        assert(r@ =~= orders@.subrange(0, i as int));
    }
    assert(r@ =~= orders@);
    r
}

/// Each side keeps its levels in a `Vec` sorted best price first rather than
/// in a `BTreeMap`: the best price is then the first level, and a level is
/// updated in place by position. vstd specifies neither `get_mut` nor
/// `first_key_value`/`last_key_value` on `BTreeMap`, so with one the best
/// price and every append to a level would go through a full iteration.
pub struct OrderBook {
    bids: Vec<PriceLevel>,
    asks: Vec<PriceLevel>,
    orders_by_id: HashMap<u64, Order>,
}

impl View for OrderBook {
    type V = BookView;

    closed spec fn view(&self) -> BookView {
        BookView {
            orders: self.orders_by_id@,
            bids: Map::new(|p: u64| true, |p: u64| level_of(self.bids@, p)),
            asks: Map::new(|p: u64| true, |p: u64| level_of(self.asks@, p)),
        }
    }
}

impl OrderBook {
    /// Both sides in priority order, levels and index in lockstep.
    pub closed spec fn wf(&self) -> bool {
        &&& side_wf(self.bids@, OrderSide::Bid)
        &&& side_wf(self.asks@, OrderSide::Ask)
        &&& self@.consistent()
    }

    /// An empty book.
    pub fn new() -> (r: Self)
        ensures
            r.wf(),
            r@.orders == Map::<u64, Order>::empty(),
            forall|p: u64| #[trigger] r@.bids[p] == Seq::<Order>::empty(),
            forall|p: u64| #[trigger] r@.asks[p] == Seq::<Order>::empty(),
    {
        let r = OrderBook { bids: Vec::new(), asks: Vec::new(), orders_by_id: HashMap::new() };
        proof {
            assert forall|side: OrderSide, p: u64| #[trigger] ids_distinct(r@.level(side, p)) by {
                assert(r@.level(side, p) == Seq::<Order>::empty());
            }
        }
        r
    }

    /// Adds `order` at the back of its level. An order whose identifier is
    /// already in the book is refused (`false`) and the book is left as it was.
    pub fn add_order(&mut self, order: Order) -> (r: bool)
        requires
            old(self).wf(),
        ensures
            final(self).wf(),
            r == !old(self)@.orders.contains_key(order.id),
            final(self)@ == added_if_new(old(self)@, order),
    {
        if self.orders_by_id.contains_key(&order.id) {
            return false;
        }
        let ghost v = self@;
        match order.side {
            OrderSide::Bid => level_push(&mut self.bids, OrderSide::Bid, order),
            OrderSide::Ask => level_push(&mut self.asks, OrderSide::Ask, order),
        }
        self.orders_by_id.insert(order.id, order);
        proof {
            lemma_with_order_consistent(v, order);
            assert(self@.bids =~= v.with_order(order).bids);
            assert(self@.asks =~= v.with_order(order).asks);
        }
        true
    }

    /// Takes the order `order_id` out of the book and returns it; its level
    /// goes when it becomes empty. An unknown identifier gives `None` and
    /// leaves the book as it was.
    pub fn remove_order(&mut self, order_id: u64) -> (r: Option<Order>)
        requires
            old(self).wf(),
        ensures
            final(self).wf(),
            r == if old(self)@.orders.contains_key(order_id) {
                Some(old(self)@.orders[order_id])
            } else {
                None::<Order>
            },
            final(self)@ == if old(self)@.orders.contains_key(order_id) {
                old(self)@.without_order(order_id)
            } else {
                old(self)@
            },
    {
        let ghost v = self@;
        match self.orders_by_id.remove(&order_id) {
            None => {
                assert(self.orders_by_id@ =~= v.orders);
                None
            },
            Some(order) => {
                proof {
                    let s = v.level(order.side, order.price);
                    assert(s.contains(order));
                    let j = choose|j: int| 0 <= j < s.len() && s[j] == order;
                    assert(ids_distinct(s));
                    assert(s[j].id == order_id);
                }
                match order.side {
                    OrderSide::Bid => level_remove(&mut self.bids, OrderSide::Bid, order.price, order_id),
                    OrderSide::Ask => level_remove(&mut self.asks, OrderSide::Ask, order.price, order_id),
                }
                proof {
                    lemma_without_order_consistent(v, order_id);
                    assert(self@.bids =~= v.without_order(order_id).bids);
                    assert(self@.asks =~= v.without_order(order_id).asks);
                }
                Some(order)
            },
        }
    }

    /// Sets the quantity of the order `order_id` in the index and in its
    /// level, keeping its place; `None` when the identifier is unknown.
    pub fn update_order(&mut self, order_id: u64, new_quantity: u64) -> (r: Option<()>)
        requires
            old(self).wf(),
        ensures
            final(self).wf(),
            r is Some == old(self)@.orders.contains_key(order_id),
            final(self)@ == if old(self)@.orders.contains_key(order_id) {
                old(self)@.amended(order_id, new_quantity)
            } else {
                old(self)@
            },
    {
        let ghost v = self@;
        let order = match self.orders_by_id.get(&order_id) {
            None => {
                return None;
            },
            Some(o) => *o,
        };
        proof {
            let s = v.level(order.side, order.price);
            assert(s.contains(order));
            let j = choose|j: int| 0 <= j < s.len() && s[j] == order;
            assert(ids_distinct(s));
            assert(s[j].id == order_id);
        }
        match order.side {
            OrderSide::Bid => level_amend(
                &mut self.bids,
                OrderSide::Bid,
                order.price,
                order_id,
                new_quantity,
            ),
            OrderSide::Ask => level_amend(
                &mut self.asks,
                OrderSide::Ask,
                order.price,
                order_id,
                new_quantity,
            ),
        }
        self.orders_by_id.insert(order_id, Order { quantity: new_quantity, ..order });
        proof {
            lemma_amended_consistent(v, order_id, new_quantity);
            assert(self@.bids =~= v.amended(order_id, new_quantity).bids);
            assert(self@.asks =~= v.amended(order_id, new_quantity).asks);
        }
        Some(())
    }

    /// Quotes around `tick`: a bid `bid_id` and an ask `ask_id`, each added
    /// when its identifier is new. Returns which of the two were added.
    pub fn add_quotes(&mut self, tick: &Tick, bid_id: u64, ask_id: u64) -> (r: (bool, bool))
        requires
            old(self).wf(),
        ensures
            final(self).wf(),
            r.0 == !old(self)@.orders.contains_key(bid_id),
            r.1 == !added_if_new(old(self)@, quote_bid(*tick, bid_id)).orders.contains_key(ask_id),
            final(self)@ == quoted(old(self)@, *tick, bid_id, ask_id),
    {
        let bid_price = ((tick.price as u128) * 999 / 1000) as u64;
        let wide = (tick.price as u128) * 1001 / 1000;
        let ask_price = if wide > u64::MAX as u128 {
            u64::MAX
        } else {
            wide as u64
        };
        let bid = Order { id: bid_id, price: bid_price, quantity: tick.volume / 10, side: OrderSide::Bid };
        let ask = Order { id: ask_id, price: ask_price, quantity: tick.volume / 10, side: OrderSide::Ask };
        assert(bid == quote_bid(*tick, bid_id));
        assert(ask == quote_ask(*tick, ask_id));
        let added_bid = self.add_order(bid);
        let added_ask = self.add_order(ask);
        (added_bid, added_ask)
    }

    /// Quotes around `tick` with freshly drawn identifiers.
    pub fn process_market_data(&mut self, tick: &Tick)
        requires
            old(self).wf(),
        ensures
            final(self).wf(),
            exists|bid_id: u64, ask_id: u64| final(self)@ == quoted(old(self)@, *tick, bid_id, ask_id),
    {
        let bid_id = random_id();
        let ask_id = random_id();
        self.add_quotes(tick, bid_id, ask_id);
    }

    /// The highest bid price, if any bid rests.
    pub fn get_best_bid(&self) -> (r: Option<u64>)
        requires
            self.wf(),
        ensures
            r is None <==> forall|p: u64| #[trigger] self@.bids[p].len() == 0,
            r matches Some(b) ==> self@.bids[b].len() > 0 && forall|p: u64| #[trigger]
                self@.bids[p].len() > 0 ==> p <= b,
    {
        let r = Self::best_price(&self.bids, OrderSide::Bid);
        proof {
            assert forall|p: u64|
                #![trigger self@.bids[p]]
                #![trigger level_of(self.bids@, p)]
                self@.bids[p] == level_of(self.bids@, p) by {}
        }
        r
    }

    /// The lowest ask price, if any ask rests.
    pub fn get_best_ask(&self) -> (r: Option<u64>)
        requires
            self.wf(),
        ensures
            r is None <==> forall|p: u64| #[trigger] self@.asks[p].len() == 0,
            r matches Some(b) ==> self@.asks[b].len() > 0 && forall|p: u64| #[trigger]
                self@.asks[p].len() > 0 ==> b <= p,
    {
        let r = Self::best_price(&self.asks, OrderSide::Ask);
        proof {
            assert forall|p: u64|
                #![trigger self@.asks[p]]
                #![trigger level_of(self.asks@, p)]
                self@.asks[p] == level_of(self.asks@, p) by {}
        }
        r
    }

    fn best_price(levels: &Vec<PriceLevel>, side: OrderSide) -> (r: Option<u64>)
        requires
            side_wf(levels@, side),
        ensures
            r is None <==> forall|p: u64| #[trigger] level_of(levels@, p).len() == 0,
            r matches Some(b) ==> level_of(levels@, b).len() > 0 && forall|p: u64| #[trigger]
                level_of(levels@, p).len() > 0 ==> p == b || ahead(side, b, p),
    {
        if levels.len() == 0 {
            return None;
        }
        let b = levels[0].price;
        proof {
            lemma_level_at(levels@, side, 0);
            assert forall|p: u64| #[trigger] level_of(levels@, p).len() > 0 implies p == b || ahead(
                side,
                b,
                p,
            ) by {
                let k = choose|k: int| 0 <= k < levels@.len() && levels@[k].price == p;
                if k > 0 {
                    assert(ahead(side, levels@[0].price, levels@[k].price));
                }
            }
        }
        Some(b)
    }

    /// The order `order_id`, if it is in the book.
    pub fn get_order(&self, order_id: u64) -> (r: Option<Order>)
        requires
            self.wf(),
        ensures
            r == if self@.orders.contains_key(order_id) {
                Some(self@.orders[order_id])
            } else {
                None::<Order>
            },
    {
        match self.orders_by_id.get(&order_id) {
            Some(o) => Some(*o),
            None => None,
        }
    }

    fn orders_at(levels: &Vec<PriceLevel>, side: OrderSide, price: u64) -> (r: Option<Vec<Order>>)
        requires
            side_wf(levels@, side),
        ensures
            r is None <==> level_of(levels@, price).len() == 0,
            r matches Some(v) ==> v@ == level_of(levels@, price),
    {
        let (i, found) = find_level(levels, side, price);
        if found {
            proof {
                lemma_level_at(levels@, side, i as int);
            }
            Some(copy_orders(&levels[i].orders))
        } else {
            proof {
                assert forall|k: int| 0 <= k < levels@.len() implies #[trigger] levels@[k].price
                    != price by {
                    if k < i {
                        assert(ahead(side, levels@[k].price, price));
                    } else {
                        assert(ahead(side, price, levels@[k].price));
                    }
                }
                lemma_level_absent(levels@, price);
            }
            None
        }
    }

    /// A copy of the bids at `price`, in priority order, if any rest there.
    pub fn get_bids_at_price(&self, price: u64) -> (r: Option<Vec<Order>>)
        requires
            self.wf(),
        ensures
            r is None <==> self@.bids[price].len() == 0,
            r matches Some(v) ==> v@ == self@.bids[price],
    {
        Self::orders_at(&self.bids, OrderSide::Bid, price)
    }

    /// A copy of the asks at `price`, in priority order, if any rest there.
    pub fn get_asks_at_price(&self, price: u64) -> (r: Option<Vec<Order>>)
        requires
            self.wf(),
        ensures
            r is None <==> self@.asks[price].len() == 0,
            r matches Some(v) ==> v@ == self@.asks[price],
    {
        Self::orders_at(&self.asks, OrderSide::Ask, price)
    }
}

/// The index and the levels move in lockstep: in a well-formed book every
/// indexed order rests in the level of its side and price, every order in a
/// level is the indexed order of its identifier, and no level holds an
/// identifier twice.
pub proof fn lemma_book_lockstep(book: &OrderBook)
    requires
        book.wf(),
    ensures
        book@.consistent(),
{
}

} // verus!
