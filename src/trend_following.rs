//! Trend following: compares a short and a long rolling mean and signals
//! only when the trend changes direction.
use vstd::prelude::*;
use vstd::arithmetic::div_mod::{lemma_fundamental_div_mod, lemma_mod_bound};
use crate::arith::{last_n, lemma_prefix_sum_bound, prefix_sum, seq_sum};
use crate::parser::Tick;
use crate::strategy::{Order, OrderSide, OrderView, order_of};

verus! {

/// Quantity of every order this strategy proposes.
pub const TREND_QUANTITY: u64 = 10;

/// The short mean is above the long mean, compared exactly.
pub open spec fn short_above_long(short: Seq<u64>, long: Seq<u64>) -> bool {
    seq_sum(short) * long.len() > seq_sum(long) * short.len()
}

pub open spec fn short_below_long(short: Seq<u64>, long: Seq<u64>) -> bool {
    seq_sum(short) * long.len() < seq_sum(long) * short.len()
}

/// How `a / b` compares with `c / d`, computed without overflow: 1 when
/// `a * d > c * b`, -1 when it is smaller, 0 when they are equal.
fn compare_means(a: u128, b: u128, c: u128, d: u128) -> (r: i8)
    requires
        b <= usize::MAX,
        d <= usize::MAX,
        a <= (b as int) * (u64::MAX as int),
        c <= (d as int) * (u64::MAX as int),
    ensures
        r == 1 <==> a * d > c * b,
        r == -1 <==> a * d < c * b,
        r == 0 <==> a * d == c * b,
{
    if b == 0 || d == 0 {
        assert(a * d == 0 && c * b == 0) by (nonlinear_arith)
            requires
                b == 0 || d == 0,
                b == 0 ==> a == 0,
                d == 0 ==> c == 0,
        ;
        return 0;
    }
    let q1 = a / b;
    let r1 = a % b;
    let q2 = c / d;
    let r2 = c % d;
    proof {
        lemma_fundamental_div_mod(a as int, b as int);
        lemma_fundamental_div_mod(c as int, d as int);
        lemma_mod_bound(a as int, b as int);
        lemma_mod_bound(c as int, d as int);
        assert(a * d == q1 * b * d + r1 * d) by (nonlinear_arith)
            requires
                a == b * q1 + r1,
        ;
        assert(c * b == q2 * b * d + r2 * b) by (nonlinear_arith)
            requires
                c == d * q2 + r2,
        ;
        assert(r1 * d < b * d && r2 * b < b * d) by (nonlinear_arith)
            requires
                r1 < b,
                r2 < d,
                b > 0,
                d > 0,
        ;
        if q1 > q2 {
            assert(q1 * b * d >= q2 * b * d + b * d) by (nonlinear_arith)
                requires
                    q1 >= q2 + 1,
                    b > 0,
                    d > 0,
            ;
        } else if q1 < q2 {
            assert(q2 * b * d >= q1 * b * d + b * d) by (nonlinear_arith)
                requires
                    q2 >= q1 + 1,
                    b > 0,
                    d > 0,
            ;
        }
    }
    if q1 > q2 {
        1
    } else if q1 < q2 {
        -1
    } else {
        assert(r1 * d <= (u64::MAX as int) * (u64::MAX as int)) by (nonlinear_arith)
            requires
                r1 < b <= u64::MAX,
                d <= u64::MAX,
        ;
        assert(r2 * b <= (u64::MAX as int) * (u64::MAX as int)) by (nonlinear_arith)
            requires
                r2 < d <= u64::MAX,
                b <= u64::MAX,
        ;
        let x = r1 * d;
        let y = r2 * b;
        if x > y {
            1
        } else if x < y {
            -1
        } else {
            0
        }
    }
}

/// The strategy keeps its own notion of position (-1 short, 0 flat, 1 long)
/// only to avoid signalling the same direction twice in a row; it is not the
/// risk manager's position.
pub struct TrendFollowingStrategy {
    long_period: usize,
    short_period: usize,
    long_prices: Vec<u64>,
    short_prices: Vec<u64>,
    position: i8,
}

impl TrendFollowingStrategy {
    pub closed spec fn long_window(&self) -> Seq<u64> {
        self.long_prices@
    }

    pub closed spec fn short_window(&self) -> Seq<u64> {
        self.short_prices@
    }

    pub closed spec fn spec_long_period(&self) -> nat {
        self.long_period as nat
    }

    pub closed spec fn spec_short_period(&self) -> nat {
        self.short_period as nat
    }

    /// The direction last signalled: -1, 0 or 1.
    pub closed spec fn spec_position(&self) -> int {
        self.position as int
    }

    pub closed spec fn wf(&self) -> bool {
        &&& self.long_prices@.len() <= self.long_period
        &&& self.short_prices@.len() <= self.short_period
        &&& -1 <= self.position <= 1
    }

    pub open spec fn next_long(&self, price: u64) -> Seq<u64> {
        last_n(self.long_window().push(price), self.spec_long_period())
    }

    pub open spec fn next_short(&self, price: u64) -> Seq<u64> {
        last_n(self.short_window().push(price), self.spec_short_period())
    }

    /// The signal that `price` raises: nothing until both windows are full;
    /// then a buy of ten when the short mean is above the long one and the
    /// last signal was not a buy, a sell of ten in the mirror case.
    pub open spec fn signal(&self, price: u64) -> Option<OrderView> {
        let l = self.next_long(price);
        let s = self.next_short(price);
        if l.len() < self.spec_long_period() || s.len() < self.spec_short_period() {
            None
        } else if short_above_long(s, l) && self.spec_position() <= 0 {
            Some(order_of("AAPL"@, price, TREND_QUANTITY, OrderSide::Buy))
        } else if short_below_long(s, l) && self.spec_position() >= 0 {
            Some(order_of("AAPL"@, price, TREND_QUANTITY, OrderSide::Sell))
        } else {
            None
        }
    }

    /// The tracked direction after `price`.
    pub open spec fn next_position(&self, price: u64) -> int {
        match self.signal(price) {
            Some(o) => if o.side == OrderSide::Buy { 1 } else { -1 },
            None => self.spec_position(),
        }
    }

    /// A strategy comparing means over `long_period` and `short_period` prices.
    /// With a period of zero its window stays empty and it never signals.
    pub fn new(long_period: usize, short_period: usize) -> (r: Self)
        ensures
            r.wf(),
            r.long_window() == Seq::<u64>::empty(),
            r.short_window() == Seq::<u64>::empty(),
            r.spec_long_period() == long_period,
            r.spec_short_period() == short_period,
            r.spec_position() == 0,
    {
        TrendFollowingStrategy {
            long_period,
            short_period,
            long_prices: Vec::new(),
            short_prices: Vec::new(),
            position: 0,
        }
    }

    fn push_bounded(prices: &mut Vec<u64>, period: usize, price: u64)
        requires
            old(prices)@.len() <= period,
        ensures
            final(prices)@ == last_n(old(prices)@.push(price), period as nat),
            final(prices)@.len() <= period,
    {
        prices.push(price);
        if prices.len() > period {
            prices.remove(0);
        }
        assert(prices@ =~= last_n(old(prices)@.push(price), period as nat));
    }

    fn update_sma(&mut self, price: u64)
        requires
            old(self).wf(),
        ensures
            final(self).wf(),
            final(self).long_window() == old(self).next_long(price),
            final(self).short_window() == old(self).next_short(price),
            final(self).spec_long_period() == old(self).spec_long_period(),
            final(self).spec_short_period() == old(self).spec_short_period(),
            final(self).spec_position() == old(self).spec_position(),
    {
        Self::push_bounded(&mut self.long_prices, self.long_period, price);
        Self::push_bounded(&mut self.short_prices, self.short_period, price);
    }

    fn calculate_sum(prices: &Vec<u64>) -> (r: u128)
        ensures
            r == seq_sum(prices@),
            r <= (prices@.len() as int) * (u64::MAX as int),
    {
        let n = prices.len();
        let mut sum: u128 = 0;
        let mut i: usize = 0;
        while i < n
            invariant
                n == prices@.len(),
                i <= n,
                sum == prefix_sum(prices@, i as int),
            decreases n - i,
        {
            proof {
                lemma_prefix_sum_bound(prices@, i as int + 1);
                assert((i as int + 1) * (u64::MAX as int) <= (usize::MAX as int) * (u64::MAX as int))
                    by (nonlinear_arith)
                    requires
                        i as int + 1 <= usize::MAX,
                ;
            }
            sum = sum + prices[i] as u128;
            i = i + 1;
        }
        proof {
            lemma_prefix_sum_bound(prices@, n as int);
        }
        sum
    }

    /// Takes in a tick and returns the signal it raises.
    pub fn evaluate(&mut self, market_data: &Tick) -> (r: Option<Order>)
        requires
            old(self).wf(),
        ensures
            final(self).wf(),
            final(self).long_window() == old(self).next_long(market_data.price),
            final(self).short_window() == old(self).next_short(market_data.price),
            final(self).spec_long_period() == old(self).spec_long_period(),
            final(self).spec_short_period() == old(self).spec_short_period(),
            final(self).spec_position() == old(self).next_position(market_data.price),
            match r {
                Some(o) => old(self).signal(market_data.price) == Some(o@),
                None => old(self).signal(market_data.price) is None,
            },
    {
        let price = market_data.price;
        self.update_sma(price);
        if self.long_prices.len() < self.long_period || self.short_prices.len() < self.short_period {
            return None;
        }
        let long_sum = Self::calculate_sum(&self.long_prices);
        let short_sum = Self::calculate_sum(&self.short_prices);
        let long_len = self.long_prices.len() as u128;
        let short_len = self.short_prices.len() as u128;
        let order = compare_means(short_sum, short_len, long_sum, long_len);
        if order > 0 && self.position <= 0 {
            self.position = 1;
            Some(
                Order {
                    symbol: String::from_str("AAPL"),
                    price,
                    quantity: TREND_QUANTITY,
                    side: OrderSide::Buy,
                },
            )
        } else if order < 0 && self.position >= 0 {
            self.position = -1;
            Some(
                Order {
                    symbol: String::from_str("AAPL"),
                    price,
                    quantity: TREND_QUANTITY,
                    side: OrderSide::Sell,
                },
            )
        } else {
            None
        }
    }
}

} // verus!
