//! Moving-average crossover: once the window was already full before a
//! price arrives, buy one when that price is above the mean of the last
//! `window_size` prices (itself included) and sell one when it is below.
use vstd::prelude::*;
use crate::arith::{last_n, lemma_prefix_sum_bound, prefix_sum, seq_sum};
use crate::parser::Tick;
use crate::strategy::{Order, OrderSide, OrderView, order_of};

verus! {

pub struct SimpleMovingAverageStrategy {
    window_size: usize,
    prices: Vec<u64>,
    symbol: String,
}

/// Window length used by `new`.
pub const DEFAULT_WINDOW_SIZE: usize = 10;

/// The mean comparison, done exactly: `price` against `sum / len`.
pub open spec fn price_above_mean(price: u64, w: Seq<u64>) -> bool {
    price * w.len() > seq_sum(w)
}

pub open spec fn price_below_mean(price: u64, w: Seq<u64>) -> bool {
    price * w.len() < seq_sum(w)
}

impl SimpleMovingAverageStrategy {
    /// The prices in the window, oldest first.
    pub closed spec fn window(&self) -> Seq<u64> {
        self.prices@
    }

    pub closed spec fn spec_window_size(&self) -> nat {
        self.window_size as nat
    }

    pub closed spec fn spec_symbol(&self) -> Seq<char> {
        self.symbol@
    }

    pub closed spec fn wf(&self) -> bool {
        self.prices@.len() <= self.window_size
    }

    /// The window after `price` comes in.
    pub open spec fn next_window(&self, price: u64) -> Seq<u64> {
        last_n(self.window().push(price), self.spec_window_size())
    }

    /// The signal that `price` raises: nothing until the window was full
    /// before `price` came in (so the first `window_size` prices never
    /// signal), then a buy or sell of one at `price` when it is above or below
    /// the mean of the window that `price` completes.
    pub open spec fn signal(&self, price: u64) -> Option<OrderView> {
        let w = self.next_window(price);
        if self.window().len() < self.spec_window_size() {
            None
        } else if price_above_mean(price, w) {
            Some(order_of(self.spec_symbol(), price, 1, OrderSide::Buy))
        } else if price_below_mean(price, w) {
            Some(order_of(self.spec_symbol(), price, 1, OrderSide::Sell))
        } else {
            None
        }
    }

    /// A strategy over the last ten prices, for the symbol "SYMBOL".
    pub fn new() -> (r: Self)
        ensures
            r.wf(),
            r.window() == Seq::<u64>::empty(),
            r.spec_window_size() == DEFAULT_WINDOW_SIZE,
            r.spec_symbol() == "SYMBOL"@,
    {
        Self::with_window_size(DEFAULT_WINDOW_SIZE)
    }

    /// A strategy over the last `window_size` prices, for the symbol "SYMBOL".
    pub fn with_window_size(window_size: usize) -> (r: Self)
        ensures
            r.wf(),
            r.window() == Seq::<u64>::empty(),
            r.spec_window_size() == window_size,
            r.spec_symbol() == "SYMBOL"@,
    {
        SimpleMovingAverageStrategy {
            window_size,
            prices: Vec::new(),
            symbol: String::from_str("SYMBOL"),
        }
    }

    /// Takes in a tick and returns the signal it raises.
    pub fn evaluate(&mut self, market_data: &Tick) -> (r: Option<Order>)
        requires
            old(self).wf(),
        ensures
            final(self).wf(),
            final(self).window() == old(self).next_window(market_data.price),
            final(self).spec_window_size() == old(self).spec_window_size(),
            final(self).spec_symbol() == old(self).spec_symbol(),
            match r {
                Some(o) => old(self).signal(market_data.price) == Some(o@),
                None => old(self).signal(market_data.price) is None,
            },
    {
        let price = market_data.price;
        let was_full = self.prices.len() >= self.window_size;
        self.prices.push(price);
        if self.prices.len() > self.window_size {
            self.prices.remove(0);
        }
        assert(self.prices@ =~= old(self).next_window(price));
        let n = self.prices.len();
        if !was_full {
            return None;
        }
        let mut sum: u128 = 0;
        let mut i: usize = 0;
        while i < n
            invariant
                n == self.prices@.len(),
                i <= n,
                sum == prefix_sum(self.prices@, i as int),
            decreases n - i,
        {
            proof {
                lemma_prefix_sum_bound(self.prices@, i as int + 1);
                assert((i as int + 1) * (u64::MAX as int) <= (usize::MAX as int) * (
                u64::MAX as int)) by (nonlinear_arith)
                    requires
                        i as int + 1 <= usize::MAX,
                ;
            }
            sum = sum + self.prices[i] as u128;
            i = i + 1;
        }
        assert((price as int) * (n as int) <= (u64::MAX as int) * (usize::MAX as int))
            by (nonlinear_arith)
            requires
                price <= u64::MAX,
                n <= usize::MAX,
        ;
        let scaled: u128 = (price as u128) * (n as u128);
        if scaled > sum {
            Some(Order { symbol: self.symbol.clone(), price, quantity: 1, side: OrderSide::Buy })
        } else if scaled < sum {
            Some(Order { symbol: self.symbol.clone(), price, quantity: 1, side: OrderSide::Sell })
        } else {
            None
        }
    }
}

} // verus!
